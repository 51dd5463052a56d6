//! The daily tasks: when each is due, and what is remembered of its runs.
use vstd::prelude::*;
use crate::{digits, json, text};
use crate::json::{Json, JsonV, NumV};

verus! {

broadcast use vstd::string::group_string_axioms;

/// How long a task rests after it has failed, in milliseconds.
pub const RETRY_COOLDOWN_MS: i64 = 1_800_000;

/// A daily task: its key, its name, and the time of day from which it is due.
pub struct SchedTask {
    pub key: &'static str,
    pub name: &'static str,
    pub hhmm: &'static str,
}

/// The daily tasks, as keys, names and times.
pub open spec fn task_table() -> Seq<(Seq<char>, Seq<char>, Seq<char>)> {
    seq![
        ("trae-checkin"@, "Trae 每日签到"@, "09:00"@),
        ("wb-checkin"@, "WorkBuddy 每日签到"@, "09:10"@),
        ("wb-renew"@, "WorkBuddy token 兜底续期"@, "10:30"@),
        ("doubao-keepalive"@, "豆包会话每日续期"@, "09:20"@),
        ("doubao-quota"@, "豆包会员额度每日巡检"@, "09:30"@),
        ("wb-credits-snapshot"@, "WorkBuddy 积分余额每日快照"@, "23:30"@),
        ("trae-credits-snapshot"@, "Trae 积分余额每日快照"@, "23:40"@),
    ]
}

/// The contents of a list of tasks.
pub open spec fn task_views(v: Seq<SchedTask>) -> Seq<(Seq<char>, Seq<char>, Seq<char>)> {
    v.map_values(|t: SchedTask| (t.key@, t.name@, t.hhmm@))
}

/// The daily tasks.
pub fn tasks() -> (r: Vec<SchedTask>)
    ensures
        task_views(r@) == task_table(),
{
    let r = vec![
        SchedTask { key: "trae-checkin", name: "Trae 每日签到", hhmm: "09:00" },
        SchedTask { key: "wb-checkin", name: "WorkBuddy 每日签到", hhmm: "09:10" },
        SchedTask { key: "wb-renew", name: "WorkBuddy token 兜底续期", hhmm: "10:30" },
        SchedTask { key: "doubao-keepalive", name: "豆包会话每日续期", hhmm: "09:20" },
        SchedTask { key: "doubao-quota", name: "豆包会员额度每日巡检", hhmm: "09:30" },
        SchedTask { key: "wb-credits-snapshot", name: "WorkBuddy 积分余额每日快照", hhmm: "23:30" },
        SchedTask { key: "trae-credits-snapshot", name: "Trae 积分余额每日快照", hhmm: "23:40" },
    ];
    assert(task_views(r@) =~= task_table());
    r
}

/// What a task does.
#[derive(Clone, Copy, PartialEq, Eq, Structural)]
pub enum TaskKind {
    TraeCheckin,
    WbCheckin,
    WbRenew,
    DoubaoKeepalive,
    DoubaoQuota,
    WbCreditsSnapshot,
    TraeCreditsSnapshot,
}

/// What the task of a key does.
pub open spec fn kind_of(key: Seq<char>) -> Option<TaskKind> {
    if key == "trae-checkin"@ {
        Some(TaskKind::TraeCheckin)
    } else if key == "wb-checkin"@ {
        Some(TaskKind::WbCheckin)
    } else if key == "wb-renew"@ {
        Some(TaskKind::WbRenew)
    } else if key == "doubao-keepalive"@ {
        Some(TaskKind::DoubaoKeepalive)
    } else if key == "doubao-quota"@ {
        Some(TaskKind::DoubaoQuota)
    } else if key == "wb-credits-snapshot"@ {
        Some(TaskKind::WbCreditsSnapshot)
    } else if key == "trae-credits-snapshot"@ {
        Some(TaskKind::TraeCreditsSnapshot)
    } else {
        None
    }
}

/// What the task of a key does, or that there is no such task.
pub fn run_task(key: &str) -> (r: Result<TaskKind, String>)
    ensures
        match kind_of(key@) {
            Some(k) => r == Ok::<TaskKind, String>(k),
            None => r matches Err(e) && e@ == "未知调度任务: "@ + key@,
        },
{
    if text::same(key, "trae-checkin") {
        Ok(TaskKind::TraeCheckin)
    } else if text::same(key, "wb-checkin") {
        Ok(TaskKind::WbCheckin)
    } else if text::same(key, "wb-renew") {
        Ok(TaskKind::WbRenew)
    } else if text::same(key, "doubao-keepalive") {
        Ok(TaskKind::DoubaoKeepalive)
    } else if text::same(key, "doubao-quota") {
        Ok(TaskKind::DoubaoQuota)
    } else if text::same(key, "wb-credits-snapshot") {
        Ok(TaskKind::WbCreditsSnapshot)
    } else if text::same(key, "trae-credits-snapshot") {
        Ok(TaskKind::TraeCreditsSnapshot)
    } else {
        Err(text::cat("未知调度任务: ", key))
    }
}

/// Every task of the table can be run.
pub proof fn every_task_is_known(i: int)
    requires
        0 <= i < task_table().len(),
    ensures
        kind_of(task_table()[i].0) is Some,
{
}

/// Whether a task is switched on: the check-in of the second service follows its setting, all
/// others are always on.
pub fn enabled(key: &str, wb_auto_checkin: bool) -> (r: bool)
    ensures
        r == (key@ == "wb-checkin"@ ==> wb_auto_checkin),
{
    !text::same(key, "wb-checkin") || wb_auto_checkin
}

// ---- what is remembered ----

/// What is remembered of a task.
pub open spec fn entry_of(state: JsonV, key: Seq<char>) -> Option<JsonV> {
    match state.get("tasks"@) {
        Some(t) => t.get(key),
        None => None,
    }
}

/// The day of a task's last good run.
pub open spec fn run_date(state: JsonV, key: Seq<char>) -> Option<Seq<char>> {
    match entry_of(state, key) {
        Some(e) => e.text_at("last_run_date"@),
        None => None,
    }
}

/// When a task failed last, in milliseconds.
pub open spec fn fail_time(state: JsonV, key: Seq<char>) -> Option<int> {
    match entry_of(state, key) {
        Some(e) => e.int_at("last_fail_ts"@),
        None => None,
    }
}

fn entry<'a>(state: &'a Json, key: &str) -> (r: Option<&'a Json>)
    ensures
        json::opt_ref(r) == entry_of(state@, key@),
{
    match state.get("tasks") {
        Some(t) => t.get(key),
        None => None,
    }
}

/// The day of a task's last good run.
pub fn last_run_date(state: &Json, key: &str) -> (r: Option<String>)
    ensures
        text::opt_text(r) == run_date(state@, key@),
{
    match entry(state, key) {
        Some(e) => match e.str_at("last_run_date") {
            Some(d) => Some(d.to_owned()),
            None => None,
        },
        None => None,
    }
}

/// When a task failed last, in milliseconds.
pub fn last_fail_ts(state: &Json, key: &str) -> (r: Option<i64>)
    ensures
        match r {
            Some(t) => fail_time(state@, key@) == Some(t as int),
            None => fail_time(state@, key@) is None,
        },
{
    match entry(state, key) {
        Some(e) => e.i64_at("last_fail_ts"),
        None => None,
    }
}

/// Whether a task is due: it has not run today, its time of day has come, and it is not resting
/// after a failure. Times of day in two digits each are in the order of their texts.
pub open spec fn is_due(
    state: JsonV,
    key: Seq<char>,
    hhmm: Seq<char>,
    today: Seq<char>,
    now_hm: Seq<char>,
    now_ms: int,
) -> bool {
    &&& run_date(state, key) != Some(today)
    &&& !json::before(now_hm, hhmm)
    &&& match fail_time(state, key) {
        Some(t) => now_ms - t >= 30 * 60_000,
        None => true,
    }
}

/// Whether a task is due.
pub fn due(state: &Json, task: &SchedTask, on: bool, today: &str, now_hm: &str, now_ms: i64) -> (r: bool)
    ensures
        r == (on && is_due(state@, task.key@, task.hhmm@, today@, now_hm@, now_ms as int)),
{
    if !on {
        return false;
    }
    if let Some(d) = last_run_date(state, task.key) {
        if text::same(d.as_str(), today) {
            return false;
        }
    }
    if json::is_before(now_hm, task.hhmm) {
        return false;
    }
    if let Some(t) = last_fail_ts(state, task.key) {
        if (now_ms as i128) - (t as i128) < RETRY_COOLDOWN_MS as i128 {
            return false;
        }
    }
    true
}

/// The state as it is used: an object, whatever was stored.
pub open spec fn state_of(stored: JsonV) -> JsonV {
    if stored is Obj {
        stored
    } else {
        JsonV::Obj(Seq::empty())
    }
}

/// The state as it is used.
pub fn load_state(stored: &Json) -> (r: Json)
    ensures
        r@ == state_of(stored@),
{
    if stored.is_object() {
        stored.dup()
    } else {
        json::object(json::new_fields())
    }
}

/// The state with an entry set.
pub open spec fn with_entry(state: JsonV, key: Seq<char>, e: JsonV) -> JsonV {
    match state {
        JsonV::Obj(o) => {
            let tasks = match json::field(o, "tasks"@) {
                Some(JsonV::Obj(t)) => t,
                _ => Seq::empty(),
            };
            JsonV::Obj(json::with_field(o, "tasks"@, JsonV::Obj(json::with_field(tasks, key, e))))
        },
        _ => state,
    }
}

/// The entry of a good run.
pub open spec fn run_entry(date: Seq<char>, now_ms: int, summary: Seq<char>) -> JsonV {
    let a = json::with_field(Seq::empty(), "last_run_date"@, JsonV::Str(date));
    let b = json::with_field(a, "last_run_ts"@, json::int_v(now_ms));
    let c = json::with_field(b, "last_ok"@, JsonV::Bool(true));
    JsonV::Obj(json::with_field(c, "last_summary"@, JsonV::Str(summary)))
}

/// The entry of a run that failed.
pub open spec fn fail_entry(now_ms: int, summary: Seq<char>) -> JsonV {
    let a = json::with_field(Seq::empty(), "last_fail_ts"@, json::int_v(now_ms));
    let b = json::with_field(a, "last_ok"@, JsonV::Bool(false));
    JsonV::Obj(json::with_field(b, "last_summary"@, JsonV::Str(summary)))
}

/// Whether entries can be set in a state: its tasks are an object, where it has any.
pub open spec fn takes_entries(state: JsonV) -> bool {
    state is Obj && match state.get("tasks"@) {
        Some(t) => t is Obj || t is Null,
        None => true,
    }
}

fn write_entry(state: &Json, key: &str, e: Json) -> (r: Json)
    requires
        takes_entries(state@),
    ensures
        r@ == with_entry(state@, key@, e@),
{
    let mut t = match state.get("tasks") {
        Some(v) => json::fields_of(v),
        None => json::new_fields(),
    };
    json::put(&mut t, key, e);
    let mut o = json::fields_of(state);
    json::put(&mut o, "tasks", json::object(t));
    json::object(o)
}

/// The state after a good run: the entry is written anew, and a failure before is forgotten.
pub fn mark_run(state: &Json, key: &str, date: &str, now_ms: i64, summary: &str) -> (r: Json)
    requires
        takes_entries(state@),
    ensures
        r@ == with_entry(state@, key@, run_entry(date@, now_ms as int, summary@)),
{
    let mut o = json::new_fields();
    json::put(&mut o, "last_run_date", json::jstr(date));
    json::put(&mut o, "last_run_ts", json::jint(now_ms));
    json::put(&mut o, "last_ok", Json::Bool(true));
    json::put(&mut o, "last_summary", json::jstr(summary));
    write_entry(state, key, json::object(o))
}

/// The state after a run that failed: the day is not marked, so that it is tried again.
pub fn mark_fail(state: &Json, key: &str, now_ms: i64, summary: &str) -> (r: Json)
    requires
        takes_entries(state@),
    ensures
        r@ == with_entry(state@, key@, fail_entry(now_ms as int, summary@)),
{
    let mut o = json::new_fields();
    json::put(&mut o, "last_fail_ts", json::jint(now_ms));
    json::put(&mut o, "last_ok", Json::Bool(false));
    json::put(&mut o, "last_summary", json::jstr(summary));
    write_entry(state, key, json::object(o))
}

/// An entry that is set is read back, and the entries of the other tasks are as they were.
pub proof fn entry_is_read_back(state: JsonV, key: Seq<char>, e: JsonV, other: Seq<char>)
    requires
        takes_entries(state),
    ensures
        entry_of(with_entry(state, key, e), other) == if other == key {
            Some(e)
        } else {
            entry_of(state, other)
        },
        takes_entries(with_entry(state, key, e)),
{
    let o = state->Obj_0;
    let tasks = match json::field(o, "tasks"@) {
        Some(JsonV::Obj(t)) => t,
        _ => Seq::empty(),
    };
    let t = JsonV::Obj(json::with_field(tasks, key, e));
    json::set_then_get(o, "tasks"@, t, "tasks"@);
    json::set_then_get(tasks, key, e, other);
}

/// A task that has run is not due again on that day, at whatever time.
pub proof fn runs_once_a_day(
    state: JsonV,
    key: Seq<char>,
    hhmm: Seq<char>,
    today: Seq<char>,
    ran_ms: int,
    summary: Seq<char>,
    now_hm: Seq<char>,
    now_ms: int,
)
    requires
        takes_entries(state),
    ensures
        !is_due(with_entry(state, key, run_entry(today, ran_ms, summary)), key, hhmm, today, now_hm, now_ms),
{
    let e = run_entry(today, ran_ms, summary);
    entry_is_read_back(state, key, e, key);
    let a = json::with_field(Seq::empty(), "last_run_date"@, JsonV::Str(today));
    let b = json::with_field(a, "last_run_ts"@, json::int_v(ran_ms));
    let c = json::with_field(b, "last_ok"@, JsonV::Bool(true));
    reveal_strlit("last_run_date");
    reveal_strlit("last_run_ts");
    reveal_strlit("last_ok");
    reveal_strlit("last_summary");
    assert("last_run_date"@.len() == 13 && "last_run_ts"@.len() == 11 && "last_ok"@.len() == 7 && "last_summary"@.len()
        == 12);
    json::set_then_get(Seq::empty(), "last_run_date"@, JsonV::Str(today), "last_run_date"@);
    json::set_then_get(a, "last_run_ts"@, json::int_v(ran_ms), "last_run_date"@);
    json::set_then_get(b, "last_ok"@, JsonV::Bool(true), "last_run_date"@);
    json::set_then_get(c, "last_summary"@, JsonV::Str(summary), "last_run_date"@);
}

/// A task that has failed is due again on the same day half an hour later, and not before.
pub proof fn failed_task_rests_half_an_hour(
    state: JsonV,
    key: Seq<char>,
    hhmm: Seq<char>,
    today: Seq<char>,
    failed_ms: i64,
    summary: Seq<char>,
    now_hm: Seq<char>,
    now_ms: int,
)
    requires
        takes_entries(state),
        !json::before(now_hm, hhmm),
    ensures
        is_due(with_entry(state, key, fail_entry(failed_ms as int, summary)), key, hhmm, today, now_hm, now_ms) <==> now_ms
            - failed_ms >= 30 * 60_000,
{
    let e = fail_entry(failed_ms as int, summary);
    let v = json::int_v(failed_ms as int);
    entry_is_read_back(state, key, e, key);
    let a = json::with_field(Seq::empty(), "last_fail_ts"@, v);
    let b = json::with_field(a, "last_ok"@, JsonV::Bool(false));
    reveal_strlit("last_run_date");
    reveal_strlit("last_fail_ts");
    reveal_strlit("last_ok");
    reveal_strlit("last_summary");
    assert("last_run_date"@.len() == 13 && "last_fail_ts"@.len() == 12 && "last_ok"@.len() == 7 && "last_summary"@.len()
        == 12);
    assert("last_fail_ts"@[5] == 'f' && "last_summary"@[5] == 's');
    json::set_then_get(Seq::empty(), "last_fail_ts"@, v, "last_fail_ts"@);
    json::set_then_get(a, "last_ok"@, JsonV::Bool(false), "last_fail_ts"@);
    json::set_then_get(b, "last_summary"@, JsonV::Str(summary), "last_fail_ts"@);
    json::set_then_get(Seq::empty(), "last_fail_ts"@, v, "last_run_date"@);
    json::set_then_get(a, "last_ok"@, JsonV::Bool(false), "last_run_date"@);
    json::set_then_get(b, "last_summary"@, JsonV::Str(summary), "last_run_date"@);
    assert(v.whole() == Some(failed_ms as int));
}

// ---- reports ----

/// A result in one line: the counts of a check-in, else the first 120 characters of the JSON.
pub open spec fn summary_of(v: JsonV) -> Seq<char> {
    match (v.int_at("ok"@), v.int_at("already"@), v.int_at("failed"@)) {
        (Some(o), Some(a), Some(f)) => "成功 "@ + digits::decimal(o) + "，已签 "@ + digits::decimal(a) + "，失败 "@
            + digits::decimal(f),
        _ => text::head_chars(json::json_text(v), 120),
    }
}

/// A result in one line.
pub fn summarize(v: &Json) -> (r: String)
    requires
        v@.wf(),
    ensures
        r@ == summary_of(v@),
{
    match (v.i64_at("ok"), v.i64_at("already"), v.i64_at("failed")) {
        (Some(o), Some(a), Some(f)) => {
            let mut r = text::cat3("成功 ", digits::signed_number(o).as_str(), "，已签 ");
            r.append(digits::signed_number(a).as_str());
            r.append("，失败 ");
            r.append(digits::signed_number(f).as_str());
            r
        },
        _ => text::take_chars(json::print_json(v).as_str(), 120),
    }
}

/// The line that reports a run.
pub fn run_line(task: &SchedTask, outcome: &Result<String, String>) -> (r: String)
    ensures
        r@ == match *outcome {
            Ok(s) => "[调度器] "@ + task.name@ + "（每日 "@ + task.hhmm@ + "）："@ + s@,
            Err(s) => "[调度器] "@ + task.name@ + "（每日 "@ + task.hhmm@ + "）失败，30 分钟后重试："@ + s@,
        },
{
    let mut r = text::cat3("[调度器] ", task.name, "（每日 ");
    r.append(task.hhmm);
    match outcome {
        Ok(s) => {
            r.append("）：");
            r.append(s.as_str());
        },
        Err(s) => {
            r.append("）失败，30 分钟后重试：");
            r.append(s.as_str());
        },
    }
    r
}

/// What is shown of a task.
pub open spec fn task_status(state: JsonV, t: (Seq<char>, Seq<char>, Seq<char>)) -> JsonV {
    let e = json::or_null(entry_of(state, t.0));
    let a = json::with_field(Seq::empty(), "key"@, JsonV::Str(t.0));
    let b = json::with_field(a, "name"@, JsonV::Str(t.1));
    let c = json::with_field(b, "time"@, JsonV::Str(t.2));
    let d = json::with_field(c, "last_run_date"@, json::or_null(e.get("last_run_date"@)));
    let f = json::with_field(d, "last_run_ts"@, json::or_null(e.get("last_run_ts"@)));
    let g = json::with_field(f, "last_fail_ts"@, json::or_null(e.get("last_fail_ts"@)));
    let h = json::with_field(g, "last_ok"@, json::or_null(e.get("last_ok"@)));
    JsonV::Obj(json::with_field(h, "last_summary"@, json::or_null(e.get("last_summary"@))))
}

/// What is shown of all tasks.
pub fn scheduler_status(state: &Json) -> (r: Json)
    ensures
        r@ == JsonV::Obj(
            json::with_field(
                Seq::empty(),
                "tasks"@,
                JsonV::Arr(task_table().map_values(|t: (Seq<char>, Seq<char>, Seq<char>)| task_status(state@, t))),
            ),
        ),
{
    let list = tasks();
    let ghost want = task_table().map_values(|t: (Seq<char>, Seq<char>, Seq<char>)| task_status(state@, t));
    let mut out: Vec<Json> = Vec::new();
    let mut i: usize = 0;
    while i < list.len()
        invariant
            i <= list@.len(),
            task_views(list@) == task_table(),
            want == task_table().map_values(|t: (Seq<char>, Seq<char>, Seq<char>)| task_status(state@, t)),
            json::items(out@) == want.take(i as int),
        decreases list@.len() - i,
    {
        let t = &list[i];
        assert(task_views(list@)[i as int] == (t.key@, t.name@, t.hhmm@));
        let e = match entry(state, t.key) {
            Some(x) => x.dup(),
            None => Json::Null,
        };
        let mut o = json::new_fields();
        json::put(&mut o, "key", json::jstr(t.key));
        json::put(&mut o, "name", json::jstr(t.name));
        json::put(&mut o, "time", json::jstr(t.hhmm));
        json::put(&mut o, "last_run_date", json::field_or_null(&e, "last_run_date"));
        json::put(&mut o, "last_run_ts", json::field_or_null(&e, "last_run_ts"));
        json::put(&mut o, "last_fail_ts", json::field_or_null(&e, "last_fail_ts"));
        json::put(&mut o, "last_ok", json::field_or_null(&e, "last_ok"));
        json::put(&mut o, "last_summary", json::field_or_null(&e, "last_summary"));
        json::push_item(&mut out, json::object(o));
        i += 1;
        assert(json::items(out@) =~= want.take(i as int));
    }
    assert(task_views(list@).len() == list@.len());
    assert(json::items(out@) =~= want);
    let arr = Json::Array(out);
    proof {
        json::lemma_view_parts(arr);
    }
    let mut o = json::new_fields();
    json::put(&mut o, "tasks", arr);
    json::object(o)
}

// ---- what holds of the schedule ----

/// A task is due exactly where it has not run today, its time has come, and it has not failed within the
/// last half hour.
pub proof fn tasks_are_due_once_their_time_has_come(
    state: JsonV,
    key: Seq<char>,
    hhmm: Seq<char>,
    today: Seq<char>,
    now_hm: Seq<char>,
    now_ms: int,
)
    ensures
        is_due(state, key, hhmm, today, now_hm, now_ms) ==> run_date(state, key) != Some(today) && (now_hm == hhmm
            || json::before(hhmm, now_hm)),
        is_due(state, key, hhmm, today, now_hm, now_ms) ==> (fail_time(state, key) matches Some(t) ==> now_ms - t
            >= 1800000),
        run_date(state, key) != Some(today) && fail_time(state, key) is None && (now_hm == hhmm || json::before(
            hhmm,
            now_hm,
        )) ==> is_due(state, key, hhmm, today, now_hm, now_ms),
        run_date(state, key) != Some(today) && (now_hm == hhmm || json::before(hhmm, now_hm)) ==> (fail_time(state, key)
            matches Some(t) ==> now_ms - t >= 1800000 ==> is_due(state, key, hhmm, today, now_hm, now_ms)),
{
    json::lemma_before_total(now_hm, hhmm);
}

/// When a task ran and failed last is told by its own entry.
pub proof fn entries_tell_when_tasks_ran(state: JsonV, key: Seq<char>, tasks: JsonV, e: JsonV, d: Seq<char>)
    requires
        state.get("tasks"@) == Some(tasks),
        tasks.get(key) == Some(e),
    ensures
        e.get("last_run_date"@) == Some(JsonV::Str(d)) ==> run_date(state, key) == Some(d),
        e.get("last_run_date"@) is None ==> run_date(state, key) is None,
        e.get("last_fail_ts"@) matches Some(JsonV::Num(NumV::Pos(n))) ==> n <= i64::MAX ==> fail_time(state, key) == Some(
            n as int,
        ),
        e.get("last_fail_ts"@) is None ==> fail_time(state, key) is None,
{
}

/// A round is summed up by its three counts; what has none is shown as it is, as far as its first part.
pub proof fn rounds_are_summed_up(v: JsonV, o: u64, a: u64, f: u64)
    requires
        o <= i64::MAX && a <= i64::MAX && f <= i64::MAX,
    ensures
        v.get("ok"@) == Some(JsonV::Num(NumV::Pos(o))) && v.get("already"@) == Some(JsonV::Num(NumV::Pos(a))) && v.get(
            "failed"@,
        ) == Some(JsonV::Num(NumV::Pos(f))) ==> summary_of(v) == "成功 "@ + digits::decimal(o as int) + "，已签 "@
            + digits::decimal(a as int) + "，失败 "@ + digits::decimal(f as int),
        v.get("ok"@) is None || v.get("already"@) is None || v.get("failed"@) is None ==> (if json::json_text(v).len()
            <= 120 {
            summary_of(v) == json::json_text(v)
        } else {
            summary_of(v) == json::json_text(v).subrange(0, 120)
        }),
{
    let t = json::json_text(v);
    if t.len() > 120 {
        assert(t.take(120) =~= t.subrange(0, 120));
    }
}

/// The tasks, each with its key, its name, its time and its kind.
pub proof fn tasks_have_their_times_and_kinds(key: Seq<char>)
    ensures
        task_table().len() == 7,
        task_table()[0] == ("trae-checkin"@, "Trae 每日签到"@, "09:00"@),
        task_table()[1] == ("wb-checkin"@, "WorkBuddy 每日签到"@, "09:10"@),
        task_table()[2] == ("wb-renew"@, "WorkBuddy token 兜底续期"@, "10:30"@),
        task_table()[3] == ("doubao-keepalive"@, "豆包会话每日续期"@, "09:20"@),
        task_table()[4] == ("doubao-quota"@, "豆包会员额度每日巡检"@, "09:30"@),
        task_table()[5] == ("wb-credits-snapshot"@, "WorkBuddy 积分余额每日快照"@, "23:30"@),
        task_table()[6] == ("trae-credits-snapshot"@, "Trae 积分余额每日快照"@, "23:40"@),
        kind_of("trae-checkin"@) == Some(TaskKind::TraeCheckin),
        kind_of("wb-checkin"@) == Some(TaskKind::WbCheckin),
        kind_of("wb-renew"@) == Some(TaskKind::WbRenew),
        kind_of("doubao-keepalive"@) == Some(TaskKind::DoubaoKeepalive),
        kind_of("doubao-quota"@) == Some(TaskKind::DoubaoQuota),
        kind_of("wb-credits-snapshot"@) == Some(TaskKind::WbCreditsSnapshot),
        kind_of("trae-credits-snapshot"@) == Some(TaskKind::TraeCreditsSnapshot),
        key != "trae-checkin"@ && key != "wb-checkin"@ && key != "wb-renew"@ && key != "doubao-keepalive"@ && key != "doubao-quota"@ && key != "wb-credits-snapshot"@ && key != "trae-credits-snapshot"@ ==> kind_of(key) is None,
{
    reveal_strlit("trae-checkin");
    reveal_strlit("wb-checkin");
    reveal_strlit("wb-renew");
    reveal_strlit("doubao-keepalive");
    reveal_strlit("doubao-quota");
    reveal_strlit("wb-credits-snapshot");
    reveal_strlit("trae-credits-snapshot");
    assert("trae-checkin"@.len() == 12 && "wb-checkin"@.len() == 10 && "wb-renew"@.len() == 8);
    assert("doubao-keepalive"@.len() == 16 && "doubao-quota"@.len() == 12 && "wb-credits-snapshot"@.len() == 19);
    assert("trae-credits-snapshot"@.len() == 21);
    assert("trae-checkin"@[0] != "doubao-quota"@[0]);
}

/// The entry of a run holds its day, its time and its summary.
pub proof fn runs_are_entered(date: Seq<char>, now_ms: int, summary: Seq<char>)
    ensures
        run_entry(date, now_ms, summary).get("last_run_date"@) == Some(JsonV::Str(date)),
        run_entry(date, now_ms, summary).get("last_run_ts"@) == Some(json::int_v(now_ms)),
        run_entry(date, now_ms, summary).get("last_ok"@) == Some(JsonV::Bool(true)),
        run_entry(date, now_ms, summary).get("last_summary"@) == Some(JsonV::Str(summary)),
        forall|k: Seq<char>| k != "last_run_date"@ && k != "last_run_ts"@ && k != "last_ok"@ && k != "last_summary"@ ==> (#[trigger] run_entry(date, now_ms, summary).get(k)) is None,
{
    broadcast use json::lemma_set_then_get;

    reveal_strlit("last_run_date");
    reveal_strlit("last_run_ts");
    reveal_strlit("last_ok");
    reveal_strlit("last_summary");
    assert("last_run_date"@.len() == 13 && "last_run_ts"@.len() == 11 && "last_ok"@.len() == 7);
    assert("last_summary"@.len() == 12);
}

/// The entry of a failure holds its time and its summary, and no day.
pub proof fn failures_are_entered(now_ms: int, summary: Seq<char>)
    ensures
        fail_entry(now_ms, summary).get("last_fail_ts"@) == Some(json::int_v(now_ms)),
        fail_entry(now_ms, summary).get("last_ok"@) == Some(JsonV::Bool(false)),
        fail_entry(now_ms, summary).get("last_summary"@) == Some(JsonV::Str(summary)),
        forall|k: Seq<char>| k != "last_fail_ts"@ && k != "last_ok"@ && k != "last_summary"@ ==> (#[trigger] fail_entry(now_ms, summary).get(k)) is None,
{
    broadcast use json::lemma_set_then_get;

    reveal_strlit("last_fail_ts");
    reveal_strlit("last_ok");
    reveal_strlit("last_summary");
    assert("last_fail_ts"@.len() == 12 && "last_ok"@.len() == 7 && "last_summary"@.len() == 12);
    assert("last_fail_ts"@[5] != "last_summary"@[5]);
}

/// What is shown of a task holds its key, name and time, and what its entry tells.
pub proof fn tasks_are_shown_with_their_entry(state: JsonV, t: (Seq<char>, Seq<char>, Seq<char>), e: JsonV)
    requires
        entry_of(state, t.0) == Some(e) || (entry_of(state, t.0) is None && e == JsonV::Null),
    ensures
        task_status(state, t).get("key"@) == Some(JsonV::Str(t.0)),
        task_status(state, t).get("name"@) == Some(JsonV::Str(t.1)),
        task_status(state, t).get("time"@) == Some(JsonV::Str(t.2)),
        task_status(state, t).get("last_run_date"@) == Some(json::or_null(e.get("last_run_date"@))),
        task_status(state, t).get("last_run_ts"@) == Some(json::or_null(e.get("last_run_ts"@))),
        task_status(state, t).get("last_fail_ts"@) == Some(json::or_null(e.get("last_fail_ts"@))),
        task_status(state, t).get("last_ok"@) == Some(json::or_null(e.get("last_ok"@))),
        task_status(state, t).get("last_summary"@) == Some(json::or_null(e.get("last_summary"@))),
        forall|k: Seq<char>| k != "key"@ && k != "name"@ && k != "time"@ && k != "last_run_date"@ && k != "last_run_ts"@ && k != "last_fail_ts"@ && k != "last_ok"@ && k != "last_summary"@ ==> (#[trigger] task_status(state, t).get(k)) is None,
{
    broadcast use json::lemma_set_then_get;

    reveal_strlit("key");
    reveal_strlit("name");
    reveal_strlit("time");
    reveal_strlit("last_run_date");
    reveal_strlit("last_run_ts");
    reveal_strlit("last_fail_ts");
    reveal_strlit("last_ok");
    reveal_strlit("last_summary");
    assert("key"@.len() == 3 && "name"@.len() == 4 && "time"@.len() == 4);
    assert("last_run_date"@.len() == 13 && "last_run_ts"@.len() == 11 && "last_fail_ts"@.len() == 12);
    assert("last_ok"@.len() == 7 && "last_summary"@.len() == 12);
    assert("name"@[0] != "time"@[0]);
    assert("last_fail_ts"@[5] != "last_summary"@[5]);
}

/// A stored state is an object, and any other starts anew.
pub proof fn states_are_objects(o: Seq<(Seq<char>, JsonV)>, v: JsonV)
    ensures
        state_of(JsonV::Obj(o)) == JsonV::Obj(o),
        v !is Obj ==> state_of(v) == JsonV::Obj(Seq::empty()),
{
}

} // verus!
