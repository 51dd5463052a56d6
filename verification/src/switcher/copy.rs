//! Snapshots: where one is read from, how an older one is kept, and how one is replaced.
use vstd::prelude::*;
use crate::text;
use crate::paths::AppPath;

verus! {

broadcast use vstd::string::group_string_axioms;

/// How a step went.
#[derive(Clone, Copy, PartialEq, Eq, Structural, Debug)]
pub enum StepStatus {
    Info,
    Warn,
    Error,
}

/// A step that is reported.
pub struct Step {
    pub stage: &'static str,
    pub status: StepStatus,
    pub message: String,
}

impl Step {
    /// Whether it is the report of a stage and a message.
    pub open spec fn says(self, stage: Seq<char>, status: StepStatus, message: Seq<char>) -> bool {
        self.stage@ == stage && self.status == status && self.message@ == message
    }
}

/// The name of a slot's older snapshot.
pub fn bak_slot(slot: &str) -> (r: String)
    ensures
        r@ == slot@ + ".bak"@,
{
    text::cat(slot, ".bak")
}

/// The snapshot that a slot is restored from.
pub struct SlotChoice {
    pub path: AppPath,
    pub slot: String,
    /// What is reported where the older snapshot stands in.
    pub step: Option<Step>,
}

/// Why a slot cannot be restored.
pub struct SlotMissing {
    pub step: Step,
    pub error: String,
}

/// The snapshot that a slot is restored from: its own, the older one where that is missing, or
/// none.
pub fn resolve_slot(profiles_dir: &AppPath, slot: &str, main_exists: bool, bak_exists: bool) -> (r: Result<
    SlotChoice,
    SlotMissing,
>)
    ensures
        r is Ok <==> main_exists || bak_exists,
        main_exists ==> r->Ok_0.path@ == profiles_dir@.join(slot@) && r->Ok_0.slot@ == slot@
            && r->Ok_0.step is None,
        !main_exists && bak_exists ==> {
            let c = r->Ok_0;
            &&& c.path@ == profiles_dir@.join(slot@ + ".bak"@)
            &&& c.slot@ == slot@
            &&& c.step is Some
            &&& c.step.unwrap().says(
                "restore"@,
                StepStatus::Warn,
                "账号 "@ + slot@ + " 主快照缺失，回退使用上一次覆盖前的备份（"@ + slot@ + ".bak）"@,
            )
        },
        !main_exists && !bak_exists ==> {
            let e = r->Err_0;
            &&& e.step.says(
                "restore"@,
                StepStatus::Error,
                "目标账号 "@ + slot@ + " 无快照，请先登录该账号并保存登录态"@,
            )
            &&& e.error@ == "目标账号 "@ + slot@ + " 无快照"@
        },
{
    if main_exists {
        return Ok(SlotChoice { path: profiles_dir.join(slot), slot: slot.to_owned(), step: None });
    }
    if bak_exists {
        let bak = bak_slot(slot);
        let head = text::cat3("账号 ", slot, " 主快照缺失，回退使用上一次覆盖前的备份（");
        let message = text::cat3(head.as_str(), slot, ".bak）");
        let step = Step { stage: "restore", status: StepStatus::Warn, message };
        return Ok(
            SlotChoice { path: profiles_dir.join(bak.as_str()), slot: slot.to_owned(), step: Some(step) },
        );
    }
    let message = text::cat3("目标账号 ", slot, " 无快照，请先登录该账号并保存登录态");
    let step = Step { stage: "restore", status: StepStatus::Error, message };
    Err(SlotMissing { step, error: text::cat3("目标账号 ", slot, " 无快照") })
}

/// Where the snapshot of a slot is moved before it is overwritten: beside it, under the name of
/// the older one, which gives way. Nothing is moved where there is no snapshot.
pub fn rotate_bak(dir: &AppPath, slot: &str, exists: bool) -> (r: Option<AppPath>)
    ensures
        r is Some <==> exists,
        exists ==> r.unwrap()@ == dir@.join(slot@ + ".bak"@),
{
    if exists {
        let bak = bak_slot(slot);
        Some(dir.join(bak.as_str()))
    } else {
        None
    }
}

/// What is reported of moving a slot's snapshot aside.
pub fn rotated(slot: &str, moved: &Result<(), String>) -> (r: Step)
    ensures
        match *moved {
            Ok(_) => r.says(
                "backup"@,
                StepStatus::Info,
                "原 "@ + slot@ + " 快照已备份到 "@ + slot@ + ".bak（可回滚一代）"@,
            ),
            Err(e) => r.says("backup"@, StepStatus::Warn, "旧快照挪移失败（将直接覆盖）: "@ + e@),
        },
{
    match moved {
        Ok(_) => {
            let head = text::cat3("原 ", slot, " 快照已备份到 ");
            let message = text::cat3(head.as_str(), slot, ".bak（可回滚一代）");
            Step { stage: "backup", status: StepStatus::Info, message }
        },
        Err(e) => {
            let message = text::cat("旧快照挪移失败（将直接覆盖）: ", e.as_str());
            Step { stage: "backup", status: StepStatus::Warn, message }
        },
    }
}

/// What stands at the source of a copy.
#[derive(Clone, Copy, PartialEq, Eq, Structural, Debug)]
pub enum Item {
    Missing,
    File,
    Directory,
}

/// How an item is copied: what stands at the target is removed first, so that a copy that fails
/// leaves nothing older behind.
#[derive(Clone, Copy, PartialEq, Eq, Structural, Debug)]
pub enum CopyPlan {
    /// Touch nothing.
    Leave,
    /// Remove the target's file, then copy the file.
    ReplaceFile,
    /// Remove the target's directory, then copy everything below; the first failure ends it.
    ReplaceDirectory,
}

/// How an item is copied.
pub fn copy_plan(src: Item) -> (r: CopyPlan)
    ensures
        r == match src {
            Item::Missing => CopyPlan::Leave,
            Item::File => CopyPlan::ReplaceFile,
            Item::Directory => CopyPlan::ReplaceDirectory,
        },
{
    match src {
        Item::Missing => CopyPlan::Leave,
        Item::File => CopyPlan::ReplaceFile,
        Item::Directory => CopyPlan::ReplaceDirectory,
    }
}

/// Whether an item counts as copied: there was one, copying it went well, and the target exists.
pub fn copy_snapshot_item(plan: CopyPlan, copied: bool, target_exists: bool) -> (r: bool)
    ensures
        r <==> plan != CopyPlan::Leave && copied && target_exists,
{
    plan != CopyPlan::Leave && copied && target_exists
}

/// A step says its stage, how it went, and what happened.
pub proof fn steps_say_what_happened(s: Step, stage: Seq<char>, status: StepStatus, message: Seq<char>)
    ensures
        s.says(stage, status, message) == (s.stage@ == stage && s.status == status && s.message@ == message),
{
}

} // verus!
