//! Switching the account of an application, keeping the login at hand, and giving the machine new
//! device ids.
use vstd::prelude::*;
use crate::{json, text};
use crate::json::{Json, JsonV};
use crate::switcher::profile;
use crate::switcher::profile::TargetApp;

verus! {

broadcast use vstd::string::group_string_axioms;

/// What is done to an application's login.
#[derive(Clone, Copy, PartialEq, Eq, Structural, Debug)]
pub enum Action {
    Switch,
    SaveCurrentLogin,
    BackupCurrent,
    RestoreOnly,
    ResetDeviceIds,
    KeepAlive,
}

/// What an action is run with.
pub struct RunArgs {
    pub action: Action,
    pub target_app: TargetApp,
    pub user_id: Option<String>,
    pub proxy_port: Option<u16>,
    pub include_indexeddb: bool,
    pub expected_current_uid: String,
    pub data_dir: String,
}

/// The model of what an action is run with.
#[verifier::ext_equal]
pub struct ArgsV {
    pub action: Action,
    pub target_app: TargetApp,
    pub user_id: Option<Seq<char>>,
    pub proxy_port: Option<u16>,
    pub include_indexeddb: bool,
    pub expected_current_uid: Seq<char>,
    pub data_dir: Seq<char>,
}

impl View for RunArgs {
    type V = ArgsV;

    open spec fn view(&self) -> ArgsV {
        ArgsV {
            action: self.action,
            target_app: self.target_app,
            user_id: text::opt_text(self.user_id),
            proxy_port: self.proxy_port,
            include_indexeddb: self.include_indexeddb,
            expected_current_uid: self.expected_current_uid@,
            data_dir: self.data_dir@,
        }
    }
}

/// The application that is meant: the first one where none is named.
pub open spec fn meant(target_app: Option<Seq<char>>) -> TargetApp {
    match target_app {
        Some(t) => profile::app_of(t),
        None => TargetApp::TraeWork,
    }
}

/// A port, where it is one.
pub open spec fn real_port(port: Option<u16>) -> Option<u16> {
    match port {
        Some(p) => if p > 0 {
            Some(p)
        } else {
            None
        },
        None => None,
    }
}

/// What an action is run with.
pub fn build_args(
    action: Action,
    target_app: Option<&str>,
    user_id: Option<String>,
    proxy_port: Option<u16>,
    include_indexeddb: bool,
    expected_current_uid: String,
    data_dir: String,
) -> (r: RunArgs)
    ensures
        r@ == (ArgsV {
            action,
            target_app: meant(text::opt_str(target_app)),
            user_id: text::opt_text(user_id),
            proxy_port: real_port(proxy_port),
            include_indexeddb,
            expected_current_uid: expected_current_uid@,
            data_dir: data_dir@,
        }),
{
    let target_app = match target_app {
        Some(t) => TargetApp::parse(t),
        None => TargetApp::TraeWork,
    };
    let proxy_port = match proxy_port {
        Some(p) => if p > 0 {
            Some(p)
        } else {
            None
        },
        None => None,
    };
    RunArgs { action, target_app, user_id, proxy_port, include_indexeddb, expected_current_uid, data_dir }
}

/// Whether an application is named by a word.
pub open spec fn is_named(target_app: Option<Seq<char>>, word: Seq<char>) -> bool {
    target_app == Some(word)
}

fn named(target_app: Option<&str>, word: &str) -> (r: bool)
    ensures
        r == is_named(text::opt_str(target_app), word@),
{
    match target_app {
        Some(t) => text::same(t, word),
        None => false,
    }
}

/// Whether one of the two applications of the first kind is meant.
pub open spec fn is_trae(target_app: Option<Seq<char>>) -> bool {
    target_app is None || is_named(target_app, "TraeWork"@) || is_named(target_app, "Trae"@)
}

/// What is asked of the service before a switch.
#[derive(Clone, Copy, PartialEq, Eq, Structural, Debug)]
pub enum Probe {
    /// Nothing.
    Nothing,
    /// Whether the session in the snapshot is still good.
    SlotSession,
    /// Whether the token of the account is still good.
    AccountToken,
}

/// What is asked of the service before a switch: of Doubao the session, of the two Trae
/// applications the token, unless that is to be renewed.
pub open spec fn probe_of(target_app: Option<Seq<char>>, skip: bool) -> Probe {
    if is_named(target_app, "Doubao"@) {
        Probe::SlotSession
    } else if is_trae(target_app) && !skip {
        Probe::AccountToken
    } else {
        Probe::Nothing
    }
}

/// How the account at hand is found out before it is overwritten.
#[derive(Clone, Copy, PartialEq, Eq, Structural, Debug)]
pub enum Guard {
    /// It is not.
    Nobody,
    /// By the cookies of the running application.
    LiveCookies,
    /// By what the machine shows of its use, for TRAE SOLO CN.
    UsageOfTraeWork,
    /// By what the machine shows of its use, for Trae CN.
    UsageOfTrae,
    /// By the shared file of the login.
    AuthFile,
}

/// How the account at hand is found out.
pub open spec fn guard_of(target_app: Option<Seq<char>>) -> Guard {
    if is_named(target_app, "Doubao"@) {
        Guard::LiveCookies
    } else if is_named(target_app, "Trae"@) {
        Guard::UsageOfTrae
    } else if is_trae(target_app) {
        Guard::UsageOfTraeWork
    } else if is_named(target_app, "WorkBuddy"@) || is_named(target_app, "CodeBuddy"@) {
        Guard::AuthFile
    } else {
        Guard::Nobody
    }
}

/// What a switch begins with.
pub struct SwitchPlan {
    pub probe: Probe,
    pub guard: Guard,
}

/// What of a user's id is looked at before it becomes a part of a path.
pub fn uid_to_check(user_id: &str) -> (r: String)
    ensures
        r@ == text::trimmed(user_id@),
{
    text::trim(user_id)
}

/// What a switch begins with; nothing where the user's id was refused.
pub fn switch_account(uid_check: Result<(), String>, target_app: Option<&str>, skip_jwt_probe: Option<bool>) -> (r:
    Result<SwitchPlan, String>)
    ensures
        match uid_check {
            Ok(_) => r is Ok && r->Ok_0.probe == probe_of(text::opt_str(target_app), skip_jwt_probe == Some(true))
                && r->Ok_0.guard == guard_of(text::opt_str(target_app)),
            Err(e) => r is Err && r->Err_0@ == e@,
        },
{
    if let Err(e) = uid_check {
        return Err(e);
    }
    let skip = match skip_jwt_probe {
        Some(b) => b,
        None => false,
    };
    let trae = target_app.is_none() || named(target_app, "TraeWork") || named(target_app, "Trae");
    let probe = if named(target_app, "Doubao") {
        Probe::SlotSession
    } else if trae && !skip {
        Probe::AccountToken
    } else {
        Probe::Nothing
    };
    let guard = if named(target_app, "Doubao") {
        Guard::LiveCookies
    } else if named(target_app, "Trae") {
        Guard::UsageOfTrae
    } else if trae {
        Guard::UsageOfTraeWork
    } else if named(target_app, "WorkBuddy") || named(target_app, "CodeBuddy") {
        Guard::AuthFile
    } else {
        Guard::Nobody
    };
    Ok(SwitchPlan { probe, guard })
}

/// The record of a warning.
pub open spec fn warning_v(message: Seq<char>) -> JsonV {
    let o0 = Seq::<(Seq<char>, JsonV)>::empty();
    let o1 = json::with_field(o0, "stage"@, JsonV::Str("probe"@));
    let o2 = json::with_field(o1, "status"@, JsonV::Str("warn"@));
    JsonV::Obj(json::with_field(o2, "message"@, JsonV::Str(message)))
}

/// The line that warns of a token that is no good.
pub open spec fn warning(message: Seq<char>) -> Seq<char> {
    json::json_text(warning_v(message))
}

/// What an answer of the service means for a switch: a session that is no good stops it; a token
/// that is no good only brings a line of warning, since switching to the account is the way to log
/// in again.
pub fn after_probe(probe: Probe, answer: Result<(), String>) -> (r: Result<Option<String>, String>)
    ensures
        match answer {
            Ok(_) => r is Ok && r->Ok_0 is None,
            Err(e) => match probe {
                Probe::SlotSession => r is Err && r->Err_0@ == e@,
                Probe::AccountToken => r is Ok && text::opt_text(r->Ok_0) == Some(warning(e@)),
                Probe::Nothing => r is Ok && r->Ok_0 is None,
            },
        },
{
    match answer {
        Ok(_) => Ok(None),
        Err(e) => match probe {
            Probe::SlotSession => Err(e),
            Probe::AccountToken => {
                let mut o = json::new_fields();
                json::put(&mut o, "stage", json::jstr("probe"));
                json::put(&mut o, "status", json::jstr("warn"));
                json::put(&mut o, "message", json::jstr(e.as_str()));
                let v = json::object(o);
                Ok(Some(json::print_json(&v)))
            },
            Probe::Nothing => Ok(None),
        },
    }
}

/// The line that is logged of a token that is no good.
pub fn probe_line(probe: Probe, answer: &Result<(), String>) -> (r: Option<String>)
    ensures
        text::opt_text(r) == match *answer {
            Err(e) => if probe is AccountToken {
                Some("切换前 JWT 预检判死（已放行）: "@ + e@)
            } else {
                None
            },
            Ok(_) => None,
        },
{
    match answer {
        Ok(_) => None,
        Err(e) => match probe {
            Probe::AccountToken => Some(text::cat("切换前 JWT 预检判死（已放行）: ", e.as_str())),
            _ => None,
        },
    }
}

/// A text, or an empty one.
pub open spec fn or_empty(t: Option<Seq<char>>) -> Seq<char> {
    match t {
        Some(s) => s,
        None => Seq::empty(),
    }
}

/// What a switch is run with. Of Doubao the snapshot may hold the database of the pages.
pub fn switch_args(
    user_id: String,
    target_app: Option<&str>,
    proxy_port: Option<u16>,
    include_idb: bool,
    current: Option<String>,
    data_dir: String,
) -> (r: RunArgs)
    ensures
        r@ == (ArgsV {
            action: Action::Switch,
            target_app: meant(text::opt_str(target_app)),
            user_id: Some(user_id@),
            proxy_port: real_port(proxy_port),
            include_indexeddb: is_named(text::opt_str(target_app), "Doubao"@) && include_idb,
            expected_current_uid: or_empty(text::opt_text(current)),
            data_dir: data_dir@,
        }),
{
    let expected = match current {
        Some(t) => t,
        None => {
            let t = String::new();
            assert(t@ =~= Seq::empty());
            t
        },
    };
    let idb = named(target_app, "Doubao") && include_idb;
    build_args(Action::Switch, target_app, Some(user_id), proxy_port, idb, expected, data_dir)
}

/// What is asked next before the login at hand is kept.
#[derive(Clone, Copy, PartialEq, Eq, Structural, Debug)]
pub enum SaveQuestion {
    /// Nothing more.
    Nothing,
    /// Whether there is a session.
    LiveSession,
    /// Whether the service still takes it.
    SessionAlive,
}

/// What is asked next, with the answers so far: nothing where the user's id was refused, where another
/// application than Doubao is meant, or where there is no session.
pub fn next_question(
    uid_check: &Result<(), String>,
    target_app: Option<&str>,
    live_session: Option<&Result<(), String>>,
) -> (r: SaveQuestion)
    ensures
        r == if *uid_check is Err || !is_named(text::opt_str(target_app), "Doubao"@) {
            SaveQuestion::Nothing
        } else {
            match live_session {
                None => SaveQuestion::LiveSession,
                Some(a) => if *a is Ok {
                    SaveQuestion::SessionAlive
                } else {
                    SaveQuestion::Nothing
                },
            }
        },
{
    if uid_check.is_err() || !named(target_app, "Doubao") {
        return SaveQuestion::Nothing;
    }
    match live_session {
        None => SaveQuestion::LiveSession,
        Some(a) => if a.is_ok() {
            SaveQuestion::SessionAlive
        } else {
            SaveQuestion::Nothing
        },
    }
}

/// What is asked before the login at hand is kept: of Doubao that there is a session, and that the
/// service still takes it. Each answer is looked at in turn.
pub fn save_current_login(
    uid_check: Result<(), String>,
    target_app: Option<&str>,
    live_session: Result<(), String>,
    session_alive: Result<(), String>,
) -> (r: Result<(), String>)
    ensures
        match uid_check {
            Err(e) => r is Err && r->Err_0@ == e@,
            Ok(_) => if is_named(text::opt_str(target_app), "Doubao"@) {
                match (live_session, session_alive) {
                    (Err(e), _) => r is Err && r->Err_0@ == e@,
                    (Ok(_), Err(e)) => r is Err && r->Err_0@ == e@,
                    (Ok(_), Ok(_)) => r is Ok,
                }
            } else {
                r is Ok
            },
        },
{
    if let Err(e) = uid_check {
        return Err(e);
    }
    if named(target_app, "Doubao") {
        if let Err(e) = live_session {
            return Err(e);
        }
        if let Err(e) = session_alive {
            return Err(e);
        }
    }
    Ok(())
}

/// What keeping the login at hand is run with.
pub fn save_args(user_id: String, target_app: Option<&str>, include_idb: bool, data_dir: String) -> (r: RunArgs)
    ensures
        r@ == (ArgsV {
            action: Action::SaveCurrentLogin,
            target_app: meant(text::opt_str(target_app)),
            user_id: Some(user_id@),
            proxy_port: None,
            include_indexeddb: is_named(text::opt_str(target_app), "Doubao"@) && include_idb,
            expected_current_uid: Seq::empty(),
            data_dir: data_dir@,
        }),
{
    let idb = named(target_app, "Doubao") && include_idb;
    let nobody = String::new();
    assert(nobody@ =~= Seq::empty());
    build_args(Action::SaveCurrentLogin, target_app, Some(user_id), None, idb, nobody, data_dir)
}

/// What giving the machine new device ids is run with: for one of the two Trae applications, and
/// for no account.
pub fn reset_device_ids(target_app: Option<&str>, data_dir: String) -> (r: RunArgs)
    ensures
        r@ == (ArgsV {
            action: Action::ResetDeviceIds,
            target_app: if is_named(text::opt_str(target_app), "Trae"@) {
                TargetApp::Trae
            } else {
                TargetApp::TraeWork
            },
            user_id: None,
            proxy_port: None,
            include_indexeddb: false,
            expected_current_uid: Seq::empty(),
            data_dir: data_dir@,
        }),
{
    let nobody = String::new();
    assert(nobody@ =~= Seq::empty());
    let target_app = if named(target_app, "Trae") {
        TargetApp::Trae
    } else {
        TargetApp::TraeWork
    };
    RunArgs {
        action: Action::ResetDeviceIds,
        target_app,
        user_id: None,
        proxy_port: None,
        include_indexeddb: false,
        expected_current_uid: nobody,
        data_dir,
    }
}

/// What keeping the sessions of Doubao alive is run with: for no account in particular.
pub fn keepalive_args(data_dir: String) -> (r: RunArgs)
    ensures
        r@ == (ArgsV {
            action: Action::KeepAlive,
            target_app: TargetApp::Doubao,
            user_id: None,
            proxy_port: None,
            include_indexeddb: false,
            expected_current_uid: Seq::empty(),
            data_dir: data_dir@,
        }),
{
    let nobody = String::new();
    assert(nobody@ =~= Seq::empty());
    RunArgs {
        action: Action::KeepAlive,
        target_app: TargetApp::Doubao,
        user_id: None,
        proxy_port: None,
        include_indexeddb: false,
        expected_current_uid: nobody,
        data_dir,
    }
}

/// Whether the account's id in the account centre is looked up after an action: after every one
/// that went well, but for Doubao.
pub fn looks_up_centre_id(target_app: Option<&str>, success: bool) -> (r: bool)
    ensures
        r == (success && !is_named(text::opt_str(target_app), "Doubao"@)),
{
    success && !named(target_app, "Doubao")
}

/// What is told when an action is over.
pub open spec fn done_v(result: Result<Seq<char>, Seq<char>>) -> Seq<(Seq<char>, JsonV)> {
    let o = Seq::<(Seq<char>, JsonV)>::empty();
    match result {
        Ok(line) => json::with_field(
            json::with_field(o, "success"@, JsonV::Bool(true)),
            "raw"@,
            JsonV::Str(line),
        ),
        Err(line) => json::with_field(
            json::with_field(o, "success"@, JsonV::Bool(false)),
            "raw"@,
            JsonV::Str(line),
        ),
    }
}

/// The model of how an action ended.
pub open spec fn line_of(result: Result<String, String>) -> Result<Seq<char>, Seq<char>> {
    match result {
        Ok(s) => Ok(s@),
        Err(s) => Err(s@),
    }
}

fn done_fields(result: &Result<String, String>) -> (r: Vec<(String, Json)>)
    ensures
        json::fields(r@) == done_v(line_of(*result)),
        JsonV::Obj(json::fields(r@)).wf(),
{
    broadcast use json::lemma_view_parts;

    let mut o = json::new_fields();
    match result {
        Ok(line) => {
            json::put(&mut o, "success", Json::Bool(true));
            json::put(&mut o, "raw", json::jstr(line.as_str()));
        },
        Err(line) => {
            json::put(&mut o, "success", Json::Bool(false));
            json::put(&mut o, "raw", json::jstr(line.as_str()));
        },
    }
    o
}

/// What is told when an action is over: whether it went well, and its last line.
pub fn done_event(result: &Result<String, String>) -> (r: Json)
    ensures
        r@ == JsonV::Obj(done_v(line_of(*result))),
{
    json::object(done_fields(result))
}

/// What is told when an action on a snapshot is over: the same, with the name of the action.
pub fn profile_done_event(result: &Result<String, String>, action: &str) -> (r: Json)
    ensures
        r@ == JsonV::Obj(json::with_field(done_v(line_of(*result)), "action"@, JsonV::Str(action@))),
{
    let mut o = done_fields(result);
    json::put(&mut o, "action", json::jstr(action));
    json::object(o)
}

// ---- what holds of switching ----

/// Before a switch the session of the slot is probed for one application, the token of the account for
/// another two unless that is skipped, and nothing else.
pub proof fn switches_are_probed_by_application(t: Option<Seq<char>>, skip: bool)
    ensures
        probe_of(Some("Doubao"@), skip) is SlotSession,
        probe_of(None, false) is AccountToken && probe_of(Some("Trae"@), false) is AccountToken && probe_of(
            Some("TraeWork"@),
            false,
        ) is AccountToken,
        probe_of(None, true) is Nothing && probe_of(Some("Trae"@), true) is Nothing && probe_of(Some("TraeWork"@), true)
            is Nothing,
        t is Some && t != Some("Doubao"@) && t != Some("Trae"@) && t != Some("TraeWork"@) ==> probe_of(t, skip) is Nothing,
{
    reveal_strlit("Doubao");
    reveal_strlit("Trae");
    reveal_strlit("TraeWork");
    assert("Doubao"@.len() == 6 && "Trae"@.len() == 4 && "TraeWork"@.len() == 8);
}

/// Who is logged in is told by the cookies, by what was used, or by the file of the login, as the
/// application keeps it.
pub proof fn users_are_told_by_application(t: Option<Seq<char>>)
    ensures
        guard_of(Some("Doubao"@)) is LiveCookies,
        guard_of(Some("Trae"@)) is UsageOfTrae,
        guard_of(None) is UsageOfTraeWork && guard_of(Some("TraeWork"@)) is UsageOfTraeWork,
        guard_of(Some("WorkBuddy"@)) is AuthFile && guard_of(Some("CodeBuddy"@)) is AuthFile,
        t is Some && t != Some("Doubao"@) && t != Some("Trae"@) && t != Some("TraeWork"@) && t != Some("WorkBuddy"@) && t
            != Some("CodeBuddy"@) ==> guard_of(t) is Nobody,
{
    reveal_strlit("Doubao");
    reveal_strlit("Trae");
    reveal_strlit("TraeWork");
    reveal_strlit("WorkBuddy");
    reveal_strlit("CodeBuddy");
    assert("Doubao"@.len() == 6 && "Trae"@.len() == 4 && "TraeWork"@.len() == 8);
    assert("WorkBuddy"@.len() == 9 && "CodeBuddy"@.len() == 9);
    assert("WorkBuddy"@[0] != "CodeBuddy"@[0]);
}

/// A port of zero is none, and an application that is not named is the first.
pub proof fn missing_settings_have_their_meaning(p: u16, t: Seq<char>)
    ensures
        real_port(None) is None,
        real_port(Some(0)) is None,
        p > 0 ==> real_port(Some(p)) == Some(p),
        meant(None) is TraeWork,
        meant(Some(t)) == profile::app_of(t),
{
}

/// The end of a switch holds whether it succeeded, and its last line.
pub proof fn ends_are_told(line: Seq<char>, k: Seq<char>)
    ensures
        JsonV::Obj(done_v(Ok(line))).get("success"@) == Some(JsonV::Bool(true)),
        JsonV::Obj(done_v(Err(line))).get("success"@) == Some(JsonV::Bool(false)),
        JsonV::Obj(done_v(Ok(line))).get("raw"@) == Some(JsonV::Str(line)),
        JsonV::Obj(done_v(Err(line))).get("raw"@) == Some(JsonV::Str(line)),
        k != "success"@ && k != "raw"@ ==> JsonV::Obj(done_v(Ok(line))).get(k) is None && JsonV::Obj(done_v(Err(line))).get(
            k,
        ) is None,
{
    broadcast use json::lemma_set_then_get;

    reveal_strlit("success");
    reveal_strlit("raw");
    assert("success"@.len() == 7 && "raw"@.len() == 3);
}

/// A warning is the text of a record that names the probe, that it warns, and of what.
pub proof fn warnings_are_of_the_probe(message: Seq<char>)
    ensures
        warning_v(message).get("stage"@) == Some(JsonV::Str("probe"@)),
        warning_v(message).get("status"@) == Some(JsonV::Str("warn"@)),
        warning_v(message).get("message"@) == Some(JsonV::Str(message)),
        forall|k: Seq<char>| k != "stage"@ && k != "status"@ && k != "message"@ ==> (#[trigger] warning_v(message).get(k)) is None,
{
    broadcast use json::lemma_set_then_get;

    reveal_strlit("stage");
    reveal_strlit("status");
    reveal_strlit("message");
    assert("stage"@.len() == 5 && "status"@.len() == 6 && "message"@.len() == 7);
}

} // verus!
