use aiwork::json::{read_json, Json};
use aiwork::paths::{file_name, AppPath};
use aiwork::switcher::copy::{
    copy_plan, copy_snapshot_item, resolve_slot, rotate_bak, rotated, CopyPlan, Item, StepStatus,
};
use aiwork::switcher::locate::{
    find_exe, found_cache, glob_match_ci, install_candidates, is_shortcut, lnk_dirs, lnk_places, matches_one,
    Candidate, Source,
};
use aiwork::switcher::profile::{exe_matches, profile_for, AppProfile, Layout, Places, TargetApp};
use aiwork::switcher::vscdb::{
    bak_name, count_items, item_key, merge_array, merge_global_keys, merge_json, merge_value, snapshot_global_keys,
    GlobalKeys, StoredValue, KEY_PROJECT_FOLDERS, KEY_RECENT_PATHS,
};

fn json(text: &str) -> Json {
    match read_json(text) {
        Ok(v) => v,
        Err(e) => panic!("{e}"),
    }
}

fn places() -> Places {
    Places {
        appdata: "C:\\Roaming".into(),
        local: "C:\\Local".into(),
        home: "C:\\Users\\me".into(),
        program_files: "C:\\Program Files".into(),
    }
}

fn profile(app: TargetApp) -> AppProfile {
    profile_for(app, &places(), "C:\\data")
}

fn parts(p: &AppPath) -> (&str, Vec<&str>) {
    (p.base.as_str(), p.parts.iter().map(|s| s.as_str()).collect())
}

fn keys(folders: Option<&str>, recent: Option<&str>) -> GlobalKeys {
    GlobalKeys {
        project_folders: folders.map(|s| s.to_string()),
        recent_paths: recent.map(|s| s.to_string()),
        folders_blob: false,
        recent_blob: false,
    }
}

#[test]
fn profiles_of_the_five_applications() {
    let tw = profile(TargetApp::TraeWork);
    assert_eq!(tw.app_name, "Trae Work");
    assert_eq!(tw.layout, Layout::Icube);
    assert_eq!(tw.data_dir, "C:\\Roaming\\TRAE SOLO CN");
    assert_eq!(parts(&tw.profiles_dir), ("C:\\data", vec!["data", "profiles"]));
    assert_eq!(tw.settings_path_key, "trae_path");
    assert_eq!(tw.graceful_wait_secs, 8);
    assert_eq!(tw.proc_names, vec!["TRAE SOLO CN", "TRAE SOLO", "Trae"]);
    assert_eq!(tw.exe_candidates.len(), 7);
    assert!(tw.cb_global_storage_dir.is_none());

    let db = profile(TargetApp::Doubao);
    assert_eq!(db.layout, Layout::Chromium);
    assert_eq!(db.graceful_wait_secs, 8);
    assert_eq!(parts(&db.profiles_dir), ("C:\\data", vec!["data", "profiles_doubao"]));

    let wb = profile(TargetApp::WorkBuddy);
    assert_eq!(wb.layout, Layout::Authfile);
    assert_eq!(wb.graceful_wait_secs, 5);
    assert_eq!(wb.proc_names, vec!["WorkBuddy"]);

    let cb = profile(TargetApp::CodeBuddy);
    assert_eq!(cb.proc_names, vec!["CodeBuddy", "CodeBuddy CN"]);
    assert!(cb.cb_global_storage_dir.is_some());

    let trae = profile(TargetApp::Trae);
    assert_eq!(trae.settings_path_key, "trae_cn_path");
    assert_eq!(parts(&trae.profiles_dir), ("C:\\data", vec!["data", "profiles_trae"]));
    assert_eq!(trae.exe_candidates.len(), 3);
}

#[test]
fn layouts_in_words() {
    assert_eq!(Layout::Icube.as_str(), "icube");
    assert_eq!(Layout::Chromium.as_str(), "chromium");
    assert_eq!(Layout::Authfile.as_str(), "authfile");
}

#[test]
fn current_account_file_below_profiles() {
    let tw = profile(TargetApp::TraeWork);
    assert_eq!(
        parts(&tw.current_account_file()),
        ("C:\\data", vec!["data", "profiles", "current_account.txt"])
    );
}

#[test]
fn exe_matches_in_any_case_and_only_the_listed() {
    let tw = profile(TargetApp::TraeWork);
    assert!(exe_matches("C:\\x\\trae solo cn.EXE", &tw));
    assert!(exe_matches("D:\\a\\Trae.exe", &tw));
    assert!(!exe_matches("C:\\x\\Trae CN.exe", &tw));
    assert!(!exe_matches("C:\\x\\Doubao.exe", &tw));
}

#[test]
fn file_names_of_paths() {
    assert_eq!(file_name("C:\\a/b.exe"), Some("b.exe".into()));
    assert_eq!(file_name("C:b.exe"), Some("b.exe".into()));
    assert_eq!(file_name("a\\b\\"), Some("b".into()));
    assert_eq!(file_name("a\\."), Some("a".into()));
    assert_eq!(file_name("a\\.."), None);
    assert_eq!(file_name("C:\\"), None);
    assert_eq!(file_name("1:b.exe"), Some("1:b.exe".into()));
    assert_eq!(file_name("\\\\server\\share"), None);
    assert_eq!(file_name("//server/share/"), None);
    assert_eq!(file_name("\\\\server\\share\\b.exe"), Some("b.exe".into()));
    assert_eq!(file_name("\\\\server"), Some("server".into()));
    assert_eq!(file_name("\\\\.\\COM42"), None);
    assert_eq!(file_name("\\\\?\\C:\\"), None);
    assert_eq!(file_name("\\\\?\\C:\\a/b.exe"), Some("a/b.exe".into()));
    assert_eq!(file_name("\\\\?\\C:\\a\\."), None);
    assert_eq!(file_name("\\\\?\\UNC\\server\\share"), None);
    assert_eq!(file_name("\\\\?\\UNC\\server\\share\\b.exe"), Some("b.exe".into()));
    assert_eq!(file_name(""), None);
}

#[test]
fn patterns_fit_in_any_case() {
    assert!(glob_match_ci("*Doubao*", "doubao.lnk"));
    assert!(glob_match_ci("*豆包*", "打开豆包.lnk"));
    assert!(glob_match_ci("Trae*", "TRAE"));
    assert!(!glob_match_ci("Trae*", "x Trae"));
    assert!(glob_match_ci("a?c", "AbC"));
    assert!(!glob_match_ci("a?c", "ac"));
    assert!(glob_match_ci("*", ""));
    assert!(!glob_match_ci("", "a"));
    let db = profile(TargetApp::Doubao);
    assert!(matches_one(&db.lnk_patterns, "豆包.lnk"));
    assert!(!matches_one(&db.lnk_patterns, "Trae.lnk"));
}

fn candidate(source: Source, path: &str, is_file: bool) -> Candidate {
    Candidate { source, path: path.into(), is_file }
}

#[test]
fn sources_are_tried_in_order() {
    let tw = profile(TargetApp::TraeWork);
    let list = vec![
        candidate(Source::Running, "C:\\run\\Trae.exe", true),
        candidate(Source::Cache, "C:\\old\\x.exe", true),
        candidate(Source::Known, "C:\\gone\\Trae.exe", false),
        candidate(Source::Shortcut, "C:\\lnk\\Other.exe", true),
        candidate(Source::RegistryInstall, "C:\\reg\\Trae.exe", true),
        candidate(Source::RegistryIcon, "C:\\reg2\\Trae.exe", true),
    ];
    assert_eq!(find_exe(&list, &tw), Some(4));
    let with_setting = vec![
        candidate(Source::Running, "C:\\run\\Trae.exe", true),
        candidate(Source::Settings, "C:\\mine\\anything.exe", true),
    ];
    assert_eq!(find_exe(&with_setting, &tw), Some(1));
    let foreign = vec![candidate(Source::Running, "C:\\x\\Trae CN.exe", true)];
    assert_eq!(find_exe(&foreign, &tw), None);
    assert_eq!(found_cache(&foreign, None, Some("kept".into())), Some("kept".into()));
    assert_eq!(found_cache(&with_setting, Some(1), None), Some("C:\\mine\\anything.exe".into()));
}

#[test]
fn lnk_dirs_leave_missing_ones_out() {
    let all = lnk_places("C:\\A", "C:\\P", "C:\\U", "C:\\Pub");
    assert_eq!(all[0], "C:\\A\\Microsoft\\Windows\\Start Menu\\Programs");
    assert_eq!(all[3], "C:\\Pub\\Desktop");
    let exist: Vec<bool> = all.iter().map(|d| std::path::Path::new(d).is_dir()).collect();
    let dirs = lnk_dirs(&all, &exist);
    assert!(dirs.iter().all(|d| std::path::Path::new(d).is_dir()));
    assert_eq!(lnk_dirs(&all, &vec![false, true, false, true]), vec![all[1].clone(), all[3].clone()]);
}

#[test]
fn shortcuts_by_extension() {
    assert!(is_shortcut("Trae.LNK"));
    assert!(is_shortcut("a.b.lnk"));
    assert!(!is_shortcut("lnk"));
    assert!(!is_shortcut(".lnk"));
    assert!(!is_shortcut("a.lnk.txt"));
    assert!(!is_shortcut(".."));
}

#[test]
fn programs_are_looked_for_in_their_directory() {
    let cb = profile(TargetApp::CodeBuddy);
    let found = install_candidates("  C:\\cb ", &cb);
    assert_eq!(found.len(), 2);
    assert_eq!(parts(&found[1]), ("C:\\cb", vec!["CodeBuddy CN.exe"]));
}

#[test]
fn resolve_slot_falls_back_to_the_older_snapshot() {
    let dir = profile(TargetApp::Doubao).profiles_dir;
    match resolve_slot(&dir, "404", false, false) {
        Ok(_) => panic!("no snapshot"),
        Err(e) => {
            assert_eq!(e.error, "目标账号 404 无快照");
            assert_eq!(e.step.status, StepStatus::Error);
            assert_eq!(e.step.message, "目标账号 404 无快照，请先登录该账号并保存登录态");
        }
    }
    let Ok(bak) = resolve_slot(&dir, "404", false, true) else { panic!("bak") };
    assert_eq!(bak.slot, "404");
    assert_eq!(bak.path.parts.last().unwrap(), "404.bak");
    let step = bak.step.unwrap();
    assert_eq!(step.stage, "restore");
    assert_eq!(step.message, "账号 404 主快照缺失，回退使用上一次覆盖前的备份（404.bak）");
    let Ok(main) = resolve_slot(&dir, "404", true, true) else { panic!("main") };
    assert_eq!(main.path.parts.last().unwrap(), "404");
    assert!(main.step.is_none());
}

#[test]
fn older_snapshots_give_way() {
    let dir = AppPath::new("带 空格 中文").join("profiles");
    assert!(rotate_bak(&dir, "槽位 A", false).is_none());
    let bak = rotate_bak(&dir, "槽位 A", true).unwrap();
    assert_eq!(parts(&bak), ("带 空格 中文", vec!["profiles", "槽位 A.bak"]));
    let ok = rotated("槽位 A", &Ok(()));
    assert_eq!(ok.message, "原 槽位 A 快照已备份到 槽位 A.bak（可回滚一代）");
    let bad = rotated("槽位 A", &Err("busy".into()));
    assert_eq!(bad.status, StepStatus::Warn);
    assert_eq!(bad.message, "旧快照挪移失败（将直接覆盖）: busy");
}

#[test]
fn copies_replace_what_was_there() {
    assert_eq!(copy_plan(Item::Missing), CopyPlan::Leave);
    assert_eq!(copy_plan(Item::File), CopyPlan::ReplaceFile);
    assert_eq!(copy_plan(Item::Directory), CopyPlan::ReplaceDirectory);
    assert!(!copy_snapshot_item(CopyPlan::Leave, true, true));
    assert!(copy_snapshot_item(CopyPlan::ReplaceFile, true, true));
    assert!(!copy_snapshot_item(CopyPlan::ReplaceFile, true, false));
    assert!(!copy_snapshot_item(CopyPlan::ReplaceDirectory, false, true));
}

#[test]
fn snapshot_reads_text_and_blob() {
    let g = snapshot_global_keys(
        Some(StoredValue::Blob(b"[{\"id\":\"a\"}]".to_vec())),
        Some(StoredValue::Text("{\"entries\":[]}".into())),
    );
    assert_eq!(g.project_folders.as_deref(), Some("[{\"id\":\"a\"}]"));
    assert_eq!(g.recent_paths.as_deref(), Some("{\"entries\":[]}"));
    assert!(g.folders_blob && !g.recent_blob);
    let broken = snapshot_global_keys(Some(StoredValue::Blob(vec![0xff, 0xfe])), Some(StoredValue::Other));
    assert!(broken.is_empty());
}

#[test]
fn missing_key_takes_the_whole_value() {
    let cur = keys(None, Some("{\"entries\":[{\"folderUri\":\"file:///x\"}]}"));
    let pre = keys(Some("[{\"id\":\"p1\"},{\"id\":\"p2\"}]"), None);
    let plan = merge_global_keys(true, &cur, &pre).unwrap();
    assert!(plan.summary.contains("项目列表 +2"), "{}", plan.summary);
    assert_eq!(plan.writes.len(), 1);
    assert_eq!(plan.writes[0].key, KEY_PROJECT_FOLDERS);
    assert_eq!(plan.writes[0].value, "[{\"id\":\"p1\"},{\"id\":\"p2\"}]");
}

#[test]
fn arrays_are_merged_by_id_snapshot_first() {
    let cur = keys(Some("[{\"id\":\"b\"}]"), None);
    let pre = keys(Some("[{\"id\":\"a\"},{\"id\":\"b\"},{\"id\":\"c\"}]"), None);
    let plan = merge_global_keys(true, &cur, &pre).unwrap();
    assert!(plan.summary.contains("+2"), "{}", plan.summary);
    let out = json(&plan.writes[0].value);
    let ids: Vec<&str> = out.as_array().unwrap().iter().map(|v| v.str_at("id").unwrap()).collect();
    assert_eq!(ids, vec!["b", "a", "c"]);
}

#[test]
fn entries_are_merged_by_folder_uri() {
    let cur = keys(None, Some("{\"entries\":[{\"folderUri\":\"file:///curr\"}]}"));
    let pre = keys(
        None,
        Some("{\"entries\":[{\"folderUri\":\"file:///curr\"},{\"folderUri\":\"file:///old\"}]}"),
    );
    let plan = merge_global_keys(true, &cur, &pre).unwrap();
    assert!(plan.summary.contains("最近打开 +1"), "{}", plan.summary);
    assert_eq!(plan.writes[0].key, KEY_RECENT_PATHS);
    let out = &plan.writes[0].value;
    assert!(out.contains("file:///old") && out.matches("file:///curr").count() == 1);
}

#[test]
fn equal_values_write_nothing() {
    let cur = keys(Some("[{\"id\":\"a\"}]"), None);
    assert!(merge_global_keys(true, &cur, &cur).is_none());
}

#[test]
fn values_that_are_no_json_stay() {
    let cur = keys(Some("not-json"), None);
    let pre = keys(Some("also-not-json"), None);
    assert!(merge_global_keys(true, &cur, &pre).is_none());
}

#[test]
fn missing_state_is_passed_over() {
    assert!(merge_global_keys(false, &keys(None, None), &keys(Some("[]"), None)).is_none());
}

#[test]
fn both_lists_in_one_summary() {
    let plan = merge_global_keys(true, &keys(None, None), &keys(Some("[1]"), Some("{\"a\":1,\"b\":2}"))).unwrap();
    assert_eq!(plan.summary, "项目列表 +1 / 最近打开 +2");
    assert_eq!(plan.writes.len(), 2);
}

#[test]
fn blobs_stay_blobs() {
    let mut pre = keys(Some("[1]"), None);
    pre.folders_blob = true;
    let plan = merge_global_keys(true, &keys(None, None), &pre).unwrap();
    assert!(plan.writes[0].blob);
}

#[test]
fn items_are_told_apart_by_their_first_filled_field() {
    assert_eq!(item_key(&json("{\"id\":\"1\",\"uri\":\"u\"}")), "id=1");
    assert_eq!(item_key(&json("{\"id\":\"\",\"uri\":\"u\"}")), "uri=u");
    assert_eq!(item_key(&json("{\"id\":5,\"label\":\"l\"}")), "label=l");
    assert_eq!(item_key(&json("{\"x\":1}")), "{\"x\":1}");
    assert_eq!(item_key(&json("7")), "7");
}

#[test]
fn plain_objects_are_merged_by_key() {
    let (v, n) = merge_json(&json("{\"a\":1}"), &json("{\"a\":2,\"b\":3}")).unwrap();
    assert_eq!(n, 1);
    assert_eq!(v.i64_at("a"), Some(1));
    assert_eq!(v.i64_at("b"), Some(3));
    assert!(merge_json(&json("[]"), &json("{}")).is_none());
}

#[test]
fn merging_twice_adds_nothing() {
    let cur = vec![json("{\"id\":\"b\"}")];
    let pre = vec![json("{\"id\":\"a\"}"), json("{\"id\":\"b\"}")];
    let (once, n) = merge_array(&cur, &pre);
    assert_eq!((once.len(), n), (2, 1));
    let (twice, m) = merge_array(&once, &pre);
    assert_eq!((twice.len(), m), (2, 0));
}

#[test]
fn items_are_counted() {
    assert_eq!(count_items("[1,2]"), 2);
    assert_eq!(count_items("{\"entries\":[1,2,3],\"x\":1}"), 3);
    assert_eq!(count_items("{\"x\":1}"), 1);
    assert_eq!(count_items("5"), 0);
    assert_eq!(count_items("no"), 0);
}

#[test]
fn merged_values_keep_the_snapshot() {
    assert_eq!(merge_value(Some("[1]"), "[1]"), None);
    assert_eq!(merge_value(Some("[1,2]"), "[2]"), None);
    assert_eq!(merge_value(Some("[1]"), "[2]"), Some(("[1,2]".into(), 1)));
    assert_eq!(merge_value(None, "no"), Some(("no".into(), 0)));
    assert_eq!(bak_name(Some("state.vscdb")), "state.vscdb.f68.bak");
    assert_eq!(bak_name(None), "state.vscdb.f68.bak");
}
