//! The applications whose accounts are switched: where they keep their data, how they are found
//! and stopped, and how their snapshots are laid out.
use vstd::prelude::*;
use crate::{paths, text};
use crate::paths::AppPath;

verus! {

broadcast use vstd::string::group_string_axioms;

/// An application whose accounts are switched.
#[derive(Clone, Copy, PartialEq, Eq, Structural, Debug)]
pub enum TargetApp {
    TraeWork,
    Trae,
    Doubao,
    WorkBuddy,
    CodeBuddy,
}

/// The application of a name; the first one for every name that is not known.
pub open spec fn app_of(name: Seq<char>) -> TargetApp {
    if name == "Trae"@ {
        TargetApp::Trae
    } else if name == "Doubao"@ {
        TargetApp::Doubao
    } else if name == "WorkBuddy"@ {
        TargetApp::WorkBuddy
    } else if name == "CodeBuddy"@ {
        TargetApp::CodeBuddy
    } else {
        TargetApp::TraeWork
    }
}

impl TargetApp {
    /// The application of a name.
    pub fn parse(name: &str) -> (r: TargetApp)
        ensures
            r == app_of(name@),
    {
        if text::same(name, "Trae") {
            TargetApp::Trae
        } else if text::same(name, "Doubao") {
            TargetApp::Doubao
        } else if text::same(name, "WorkBuddy") {
            TargetApp::WorkBuddy
        } else if text::same(name, "CodeBuddy") {
            TargetApp::CodeBuddy
        } else {
            TargetApp::TraeWork
        }
    }
}

/// How the snapshots of an application are laid out.
#[derive(Clone, Copy, PartialEq, Eq, Structural, Debug)]
pub enum Layout {
    Icube,
    Chromium,
    Authfile,
}

impl Layout {
    /// The word for it.
    pub fn as_str(self) -> (r: &'static str)
        ensures
            r@ == match self {
                Layout::Icube => "icube"@,
                Layout::Chromium => "chromium"@,
                Layout::Authfile => "authfile"@,
            },
    {
        match self {
            Layout::Icube => "icube",
            Layout::Chromium => "chromium",
            Layout::Authfile => "authfile",
        }
    }
}

/// What is known of an application.
pub struct AppProfile {
    /// The name that is shown.
    pub app_name: &'static str,
    pub layout: Layout,
    /// Where the application keeps its data.
    pub data_dir: String,
    /// Where its snapshots are kept.
    pub profiles_dir: AppPath,
    /// The setting that holds the path of the application.
    pub settings_path_key: &'static str,
    /// How long the application is given to close.
    pub graceful_wait_secs: u64,
    /// The processes that are stopped.
    pub proc_names: Vec<&'static str>,
    /// The processes by which the application is found.
    pub proc_patterns: Vec<&'static str>,
    /// The names that the application's file may have.
    pub exe_names: Vec<&'static str>,
    /// The shortcuts by which the application is found.
    pub lnk_patterns: Vec<&'static str>,
    /// The installed programs by which the application is found.
    pub reg_patterns: Vec<&'static str>,
    /// Where the application's file usually is.
    pub exe_candidates: Vec<String>,
    /// Where one of the applications keeps its login besides.
    pub cb_global_storage_dir: Option<String>,
}

/// The model of what is known of an application.
#[verifier::ext_equal]
pub struct ProfileV {
    pub app_name: Seq<char>,
    pub layout: Layout,
    pub data_dir: Seq<char>,
    pub profiles_dir: paths::PathV,
    pub settings_path_key: Seq<char>,
    pub graceful_wait_secs: int,
    pub proc_names: Seq<Seq<char>>,
    pub proc_patterns: Seq<Seq<char>>,
    pub exe_names: Seq<Seq<char>>,
    pub lnk_patterns: Seq<Seq<char>>,
    pub reg_patterns: Seq<Seq<char>>,
    pub exe_candidates: Seq<Seq<char>>,
    pub cb_global_storage_dir: Option<Seq<char>>,
}

impl View for AppProfile {
    type V = ProfileV;

    open spec fn view(&self) -> ProfileV {
        ProfileV {
            app_name: self.app_name@,
            layout: self.layout,
            data_dir: self.data_dir@,
            profiles_dir: self.profiles_dir@,
            settings_path_key: self.settings_path_key@,
            graceful_wait_secs: self.graceful_wait_secs as int,
            proc_names: text::strs(self.proc_names@),
            proc_patterns: text::strs(self.proc_patterns@),
            exe_names: text::strs(self.exe_names@),
            lnk_patterns: text::strs(self.lnk_patterns@),
            reg_patterns: text::strs(self.reg_patterns@),
            exe_candidates: text::texts(self.exe_candidates@),
            cb_global_storage_dir: text::opt_text(self.cb_global_storage_dir),
        }
    }
}

impl AppProfile {
    /// The file that names the account at hand.
    pub fn current_account_file(&self) -> (r: AppPath)
        ensures
            r@ == self@.profiles_dir.join("current_account.txt"@),
    {
        self.profiles_dir.join("current_account.txt")
    }
}

/// Whether a name is in a list, in any case.
pub open spec fn is_listed(name: Seq<char>, names: Seq<Seq<char>>) -> bool {
    exists|i: int| 0 <= i < names.len() && text::smalls(#[trigger] names[i]) == text::smalls(name)
}

/// Whether one of the names is that of the path's file, in any case.
pub open spec fn is_exe_of(path: Seq<char>, names: Seq<Seq<char>>) -> bool {
    match paths::file_name_of(path) {
        Some(n) => is_listed(n, names),
        None => false,
    }
}

/// Whether a path is one of the application's file.
pub fn exe_matches(path: &str, prof: &AppProfile) -> (r: bool)
    ensures
        r == is_exe_of(path@, prof@.exe_names),
{
    match paths::file_name(path) {
        Some(n) => {
            let mut i: usize = 0;
            while i < prof.exe_names.len()
                invariant
                    i <= prof.exe_names@.len(),
                    paths::file_name_of(path@) == Some(n@),
                    forall|k: int| 0 <= k < i ==> text::smalls(#[trigger] prof@.exe_names[k]) != text::smalls(n@),
                decreases prof.exe_names@.len() - i,
            {
                assert(prof@.exe_names[i as int] == prof.exe_names@[i as int]@);
                if text::same_ignoring_case(prof.exe_names[i], n.as_str()) {
                    assert(is_listed(n@, prof@.exe_names));
                    return true;
                }
                i += 1;
            }
            false
        },
        None => false,
    }
}

/// The directories of the system that an application's paths start from.
pub struct Places {
    pub appdata: String,
    pub local: String,
    pub home: String,
    pub program_files: String,
}

/// Where the snapshots of an application are kept.
pub open spec fn snapshots_of(app: TargetApp, data: Seq<char>) -> paths::PathV {
    paths::base_path(data).join("data"@).join(
        match app {
            TargetApp::TraeWork => "profiles"@,
            TargetApp::Trae => "profiles_trae"@,
            TargetApp::Doubao => "profiles_doubao"@,
            TargetApp::WorkBuddy => "profiles_workbuddy"@,
            TargetApp::CodeBuddy => "profiles_codebuddy"@,
        },
    )
}

/// Where the snapshots of an application are kept.
pub fn snapshots_dir(app: TargetApp, data: &str) -> (r: AppPath)
    ensures
        r@ == snapshots_of(app, data@),
{
    AppPath::new(data).join("data").join(
        match app {
            TargetApp::TraeWork => "profiles",
            TargetApp::Trae => "profiles_trae",
            TargetApp::Doubao => "profiles_doubao",
            TargetApp::WorkBuddy => "profiles_workbuddy",
            TargetApp::CodeBuddy => "profiles_codebuddy",
        },
    )
}

/// What is known of an application, by the directories of the system.
pub open spec fn profile_of(app: TargetApp, p: Places, data: Seq<char>) -> ProfileV {
    match app {
        TargetApp::Trae => ProfileV {
            app_name: "Trae"@,
            layout: Layout::Icube,
            data_dir: p.appdata@ + "\\Trae CN"@,
            profiles_dir: snapshots_of(app, data),
            settings_path_key: "trae_cn_path"@,
            graceful_wait_secs: 8,
            proc_names: seq!["Trae CN"@],
            proc_patterns: seq!["Trae*"@, "TRAE*"@],
            exe_names: seq!["Trae CN.exe"@],
            lnk_patterns: seq!["*TRAE*"@, "*Trae*"@],
            reg_patterns: seq!["*TRAE*"@, "*Trae*"@],
            exe_candidates: seq![
                p.local@ + "\\Programs\\Trae CN\\Trae CN.exe"@,
                p.program_files@ + "\\Trae CN\\Trae CN.exe"@,
                "D:\\Programs\\Trae CN\\Trae CN.exe"@,
            ],
            cb_global_storage_dir: None,
        },
        TargetApp::Doubao => ProfileV {
            app_name: "豆包"@,
            layout: Layout::Chromium,
            data_dir: p.local@ + "\\Doubao\\User Data"@,
            profiles_dir: snapshots_of(app, data),
            settings_path_key: "doubao_path"@,
            graceful_wait_secs: 8,
            proc_names: seq!["Doubao"@],
            proc_patterns: seq!["Doubao*"@],
            exe_names: seq!["Doubao.exe"@],
            lnk_patterns: seq!["*Doubao*"@, "*豆包*"@],
            reg_patterns: seq!["*Doubao*"@, "*豆包*"@],
            exe_candidates: seq![
                p.local@ + "\\Doubao\\Application\\Doubao.exe"@,
                p.program_files@ + "\\Doubao\\Application\\Doubao.exe"@,
            ],
            cb_global_storage_dir: None,
        },
        TargetApp::WorkBuddy => ProfileV {
            app_name: "WorkBuddy"@,
            layout: Layout::Authfile,
            data_dir: p.home@ + "\\.workbuddy"@,
            profiles_dir: snapshots_of(app, data),
            settings_path_key: "workbuddy_path"@,
            graceful_wait_secs: 5,
            proc_names: seq!["WorkBuddy"@],
            proc_patterns: seq!["WorkBuddy*"@],
            exe_names: seq!["WorkBuddy.exe"@],
            lnk_patterns: seq!["*WorkBuddy*"@],
            reg_patterns: seq!["*WorkBuddy*"@],
            exe_candidates: seq![p.local@ + "\\Programs\\WorkBuddy\\WorkBuddy.exe"@],
            cb_global_storage_dir: None,
        },
        TargetApp::CodeBuddy => ProfileV {
            app_name: "CodeBuddy"@,
            layout: Layout::Authfile,
            data_dir: p.home@ + "\\.codebuddy"@,
            profiles_dir: snapshots_of(app, data),
            settings_path_key: "codebuddy_path"@,
            graceful_wait_secs: 5,
            proc_names: seq!["CodeBuddy"@, "CodeBuddy CN"@],
            proc_patterns: seq!["CodeBuddy*"@],
            exe_names: seq!["CodeBuddy.exe"@, "CodeBuddy CN.exe"@],
            lnk_patterns: seq!["*CodeBuddy*"@],
            reg_patterns: seq!["*CodeBuddy*"@],
            exe_candidates: seq![
                p.local@ + "\\Programs\\CodeBuddy\\CodeBuddy.exe"@,
                p.local@ + "\\Programs\\CodeBuddy CN\\CodeBuddy CN.exe"@,
            ],
            cb_global_storage_dir: Some(p.appdata@ + "\\CodeBuddy CN\\User\\globalStorage"@),
        },
        TargetApp::TraeWork => ProfileV {
            app_name: "Trae Work"@,
            layout: Layout::Icube,
            data_dir: p.appdata@ + "\\TRAE SOLO CN"@,
            profiles_dir: snapshots_of(app, data),
            settings_path_key: "trae_path"@,
            graceful_wait_secs: 8,
            proc_names: seq!["TRAE SOLO CN"@, "TRAE SOLO"@, "Trae"@],
            proc_patterns: seq!["Trae*"@, "TRAE*"@],
            exe_names: seq!["TRAE SOLO CN.exe"@, "TRAE SOLO.exe"@, "Trae.exe"@],
            lnk_patterns: seq!["*TRAE*"@, "*Trae*"@],
            reg_patterns: seq!["*TRAE*"@, "*Trae*"@],
            exe_candidates: seq![
                p.local@ + "\\Programs\\TRAE SOLO CN\\TRAE SOLO CN.exe"@,
                p.local@ + "\\Programs\\TRAE SOLO\\TRAE SOLO.exe"@,
                p.program_files@ + "\\TRAE SOLO CN\\TRAE SOLO CN.exe"@,
                p.program_files@ + "\\TRAE SOLO\\TRAE SOLO.exe"@,
                p.local@ + "\\Programs\\Trae\\Trae.exe"@,
                p.program_files@ + "\\Trae\\Trae.exe"@,
                "D:\\Programs\\TRAE SOLO CN\\TRAE SOLO CN.exe"@,
            ],
            cb_global_storage_dir: None,
        },
    }
}

/// What is known of an application, by the directories of the system.
pub fn profile_for(app: TargetApp, places: &Places, app_data_dir: &str) -> (r: AppProfile)
    ensures
        r@ == profile_of(app, *places, app_data_dir@),
{
    let local = places.local.as_str();
    let files = places.program_files.as_str();
    let profiles_dir = snapshots_dir(app, app_data_dir);
    let r = match app {
        TargetApp::Trae => AppProfile {
            app_name: "Trae",
            layout: Layout::Icube,
            data_dir: text::cat(places.appdata.as_str(), "\\Trae CN"),
            profiles_dir,
            settings_path_key: "trae_cn_path",
            graceful_wait_secs: 8,
            proc_names: vec!["Trae CN"],
            proc_patterns: vec!["Trae*", "TRAE*"],
            exe_names: vec!["Trae CN.exe"],
            lnk_patterns: vec!["*TRAE*", "*Trae*"],
            reg_patterns: vec!["*TRAE*", "*Trae*"],
            exe_candidates: vec![
                text::cat(local, "\\Programs\\Trae CN\\Trae CN.exe"),
                text::cat(files, "\\Trae CN\\Trae CN.exe"),
                "D:\\Programs\\Trae CN\\Trae CN.exe".to_owned(),
            ],
            cb_global_storage_dir: None,
        },
        TargetApp::Doubao => AppProfile {
            app_name: "豆包",
            layout: Layout::Chromium,
            data_dir: text::cat(local, "\\Doubao\\User Data"),
            profiles_dir,
            settings_path_key: "doubao_path",
            graceful_wait_secs: 8,
            proc_names: vec!["Doubao"],
            proc_patterns: vec!["Doubao*"],
            exe_names: vec!["Doubao.exe"],
            lnk_patterns: vec!["*Doubao*", "*豆包*"],
            reg_patterns: vec!["*Doubao*", "*豆包*"],
            exe_candidates: vec![
                text::cat(local, "\\Doubao\\Application\\Doubao.exe"),
                text::cat(files, "\\Doubao\\Application\\Doubao.exe"),
            ],
            cb_global_storage_dir: None,
        },
        TargetApp::WorkBuddy => AppProfile {
            app_name: "WorkBuddy",
            layout: Layout::Authfile,
            data_dir: text::cat(places.home.as_str(), "\\.workbuddy"),
            profiles_dir,
            settings_path_key: "workbuddy_path",
            graceful_wait_secs: 5,
            proc_names: vec!["WorkBuddy"],
            proc_patterns: vec!["WorkBuddy*"],
            exe_names: vec!["WorkBuddy.exe"],
            lnk_patterns: vec!["*WorkBuddy*"],
            reg_patterns: vec!["*WorkBuddy*"],
            exe_candidates: vec![text::cat(local, "\\Programs\\WorkBuddy\\WorkBuddy.exe")],
            cb_global_storage_dir: None,
        },
        TargetApp::CodeBuddy => AppProfile {
            app_name: "CodeBuddy",
            layout: Layout::Authfile,
            data_dir: text::cat(places.home.as_str(), "\\.codebuddy"),
            profiles_dir,
            settings_path_key: "codebuddy_path",
            graceful_wait_secs: 5,
            proc_names: vec!["CodeBuddy", "CodeBuddy CN"],
            proc_patterns: vec!["CodeBuddy*"],
            exe_names: vec!["CodeBuddy.exe", "CodeBuddy CN.exe"],
            lnk_patterns: vec!["*CodeBuddy*"],
            reg_patterns: vec!["*CodeBuddy*"],
            exe_candidates: vec![
                text::cat(local, "\\Programs\\CodeBuddy\\CodeBuddy.exe"),
                text::cat(local, "\\Programs\\CodeBuddy CN\\CodeBuddy CN.exe"),
            ],
            cb_global_storage_dir: Some(
                text::cat(places.appdata.as_str(), "\\CodeBuddy CN\\User\\globalStorage"),
            ),
        },
        TargetApp::TraeWork => AppProfile {
            app_name: "Trae Work",
            layout: Layout::Icube,
            data_dir: text::cat(places.appdata.as_str(), "\\TRAE SOLO CN"),
            profiles_dir,
            settings_path_key: "trae_path",
            graceful_wait_secs: 8,
            proc_names: vec!["TRAE SOLO CN", "TRAE SOLO", "Trae"],
            proc_patterns: vec!["Trae*", "TRAE*"],
            exe_names: vec!["TRAE SOLO CN.exe", "TRAE SOLO.exe", "Trae.exe"],
            lnk_patterns: vec!["*TRAE*", "*Trae*"],
            reg_patterns: vec!["*TRAE*", "*Trae*"],
            exe_candidates: vec![
                text::cat(local, "\\Programs\\TRAE SOLO CN\\TRAE SOLO CN.exe"),
                text::cat(local, "\\Programs\\TRAE SOLO\\TRAE SOLO.exe"),
                text::cat(files, "\\TRAE SOLO CN\\TRAE SOLO CN.exe"),
                text::cat(files, "\\TRAE SOLO\\TRAE SOLO.exe"),
                text::cat(local, "\\Programs\\Trae\\Trae.exe"),
                text::cat(files, "\\Trae\\Trae.exe"),
                "D:\\Programs\\TRAE SOLO CN\\TRAE SOLO CN.exe".to_owned(),
            ],
            cb_global_storage_dir: None,
        },
    };
    let ghost want = profile_of(app, *places, app_data_dir@);
    assert(r@.proc_names =~= want.proc_names);
    assert(r@.proc_patterns =~= want.proc_patterns);
    assert(r@.exe_names =~= want.exe_names);
    assert(r@.lnk_patterns =~= want.lnk_patterns);
    assert(r@.reg_patterns =~= want.reg_patterns);
    assert(r@.exe_candidates =~= want.exe_candidates);
    r
}

/// The applications never share a place for snapshots.
pub proof fn snapshots_are_apart(a: TargetApp, b: TargetApp, data: Seq<char>)
    requires
        a != b,
    ensures
        snapshots_of(a, data) != snapshots_of(b, data),
{
    reveal_strlit("profiles");
    reveal_strlit("profiles_trae");
    reveal_strlit("profiles_doubao");
    reveal_strlit("profiles_workbuddy");
    reveal_strlit("profiles_codebuddy");
    let x = snapshots_of(a, data).parts.last();
    let y = snapshots_of(b, data).parts.last();
    assert("profiles"@.len() == 8 && "profiles_trae"@.len() == 13 && "profiles_doubao"@.len() == 15);
    assert("profiles_workbuddy"@.len() == 18 && "profiles_codebuddy"@.len() == 18);
    assert("profiles_workbuddy"@[9] == 'w' && "profiles_codebuddy"@[9] == 'c');
    assert(x != y);
}

// ---- what holds of the applications ----

/// An application is meant by its own name; any other name means the first.
pub proof fn applications_are_meant_by_name(name: Seq<char>)
    ensures
        app_of("Trae"@) is Trae,
        app_of("Doubao"@) is Doubao,
        app_of("WorkBuddy"@) is WorkBuddy,
        app_of("CodeBuddy"@) is CodeBuddy,
        name != "Trae"@ && name != "Doubao"@ && name != "WorkBuddy"@ && name != "CodeBuddy"@ ==> app_of(name) is TraeWork,
{
    reveal_strlit("Trae");
    reveal_strlit("Doubao");
    reveal_strlit("WorkBuddy");
    reveal_strlit("CodeBuddy");
    assert("Trae"@.len() == 4 && "Doubao"@.len() == 6 && "WorkBuddy"@.len() == 9);
    assert("CodeBuddy"@.len() == 9);
    assert("WorkBuddy"@[0] != "CodeBuddy"@[0]);
}

/// A file is an application's where its name is one of the application's, however it is written.
pub proof fn files_are_known_by_their_names(path: Seq<char>, names: Seq<Seq<char>>, n: Seq<char>, i: int)
    ensures
        0 <= i < names.len() && text::smalls(names[i]) == text::smalls(n) ==> is_listed(n, names),
        is_listed(n, names) ==> exists|k: int| 0 <= k < names.len() && text::smalls(#[trigger] names[k]) == text::smalls(n),
        paths::file_name_of(path) == Some(n) ==> is_exe_of(path, names) == is_listed(n, names),
        paths::file_name_of(path) is None ==> !is_exe_of(path, names),
{
}

/// Where each application keeps its data, what it is called, and how it is found and stopped.
pub proof fn applications_have_their_places(p: Places, data: Seq<char>)
    ensures
        ({
            let a = profile_of(TargetApp::Trae, p, data);
            &&& a.app_name == "Trae"@
            &&& a.layout is Icube
            &&& a.data_dir == p.appdata@ + "\\Trae CN"@
            &&& a.settings_path_key == "trae_cn_path"@
            &&& a.graceful_wait_secs == 8
            &&& a.exe_names == seq!["Trae CN.exe"@]
            &&& a.proc_names == seq!["Trae CN"@]
            &&& a.profiles_dir.base == data
            &&& a.profiles_dir.parts == seq!["data"@, "profiles_trae"@]
            &&& a.cb_global_storage_dir == None::<Seq<char>>
        }),
        ({
            let a = profile_of(TargetApp::Doubao, p, data);
            &&& a.app_name == "豆包"@
            &&& a.layout is Chromium
            &&& a.data_dir == p.local@ + "\\Doubao\\User Data"@
            &&& a.settings_path_key == "doubao_path"@
            &&& a.graceful_wait_secs == 8
            &&& a.exe_names == seq!["Doubao.exe"@]
            &&& a.proc_names == seq!["Doubao"@]
            &&& a.profiles_dir.base == data
            &&& a.profiles_dir.parts == seq!["data"@, "profiles_doubao"@]
            &&& a.cb_global_storage_dir == None::<Seq<char>>
        }),
        ({
            let a = profile_of(TargetApp::WorkBuddy, p, data);
            &&& a.app_name == "WorkBuddy"@
            &&& a.layout is Authfile
            &&& a.data_dir == p.home@ + "\\.workbuddy"@
            &&& a.settings_path_key == "workbuddy_path"@
            &&& a.graceful_wait_secs == 5
            &&& a.exe_names == seq!["WorkBuddy.exe"@]
            &&& a.proc_names == seq!["WorkBuddy"@]
            &&& a.profiles_dir.base == data
            &&& a.profiles_dir.parts == seq!["data"@, "profiles_workbuddy"@]
            &&& a.cb_global_storage_dir == None::<Seq<char>>
        }),
        ({
            let a = profile_of(TargetApp::CodeBuddy, p, data);
            &&& a.app_name == "CodeBuddy"@
            &&& a.layout is Authfile
            &&& a.data_dir == p.home@ + "\\.codebuddy"@
            &&& a.settings_path_key == "codebuddy_path"@
            &&& a.graceful_wait_secs == 5
            &&& a.exe_names == seq!["CodeBuddy.exe"@, "CodeBuddy CN.exe"@]
            &&& a.proc_names == seq!["CodeBuddy"@, "CodeBuddy CN"@]
            &&& a.profiles_dir.base == data
            &&& a.profiles_dir.parts == seq!["data"@, "profiles_codebuddy"@]
            &&& a.cb_global_storage_dir == Some(p.appdata@ + "\\CodeBuddy CN\\User\\globalStorage"@)
        }),
        ({
            let a = profile_of(TargetApp::TraeWork, p, data);
            &&& a.app_name == "Trae Work"@
            &&& a.layout is Icube
            &&& a.data_dir == p.appdata@ + "\\TRAE SOLO CN"@
            &&& a.settings_path_key == "trae_path"@
            &&& a.graceful_wait_secs == 8
            &&& a.exe_names == seq!["TRAE SOLO CN.exe"@, "TRAE SOLO.exe"@, "Trae.exe"@]
            &&& a.proc_names == seq!["TRAE SOLO CN"@, "TRAE SOLO"@, "Trae"@]
            &&& a.profiles_dir.base == data
            &&& a.profiles_dir.parts == seq!["data"@, "profiles"@]
            &&& a.cb_global_storage_dir == None::<Seq<char>>
        }),
{
}

} // verus!
