use aiwork::clock::LocalTimes;
use aiwork::commands::cert::{
    after_first_run, after_reset, after_second_run, cert_install, cert_status, explain_certutil_exit,
    install_command, install_failure, launch_error, CertStatus, Exit, InstallStep,
};
use aiwork::commands::oauth::OAuthLoginResult;
use aiwork::commands::oauth_loopback::{
    callback_url, esc, html_response, idle, listen_address, listen_error, login_done, started_line, LoginEnd,
};
use aiwork::commands::profile::{
    delete_error, dir_stats, format_size, normalize_target_app, profile_backup, profile_delete, profile_list,
    profile_restore, profiles_dir, ProfileInfo,
};
use aiwork::commands::switch::{
    after_probe, build_args, done_event, looks_up_centre_id, profile_done_event, reset_device_ids, save_args,
    save_current_login, switch_account, switch_args, uid_to_check, Action, Guard, Probe,
};
use aiwork::commands::usage_history::{
    add_sessions, fetch_window, is_asked_for, last_fetch, merge_days, take_result, usage_history_fetch, window_of,
    CacheFile, Pager, UsageDayStat,
};
use aiwork::json::{print_json, read_json, Json};
use aiwork::models::RawAccount;
use aiwork::switcher::profile::TargetApp;

fn json(text: &str) -> Json {
    match read_json(text) {
        Ok(v) => v,
        Err(e) => panic!("{e}"),
    }
}

// ---- certificates ----

#[test]
fn exit_codes_are_explained() {
    assert_eq!(explain_certutil_exit(Some(1223)), "用户取消了 UAC 授权");
    assert_eq!(explain_certutil_exit(Some(5)), explain_certutil_exit(Some(-2147024891)));
    assert!(explain_certutil_exit(Some(5)).contains("拒绝访问"));
    assert_eq!(explain_certutil_exit(Some(2)), "可能需要管理员权限或证书文件不可读");
    assert_eq!(explain_certutil_exit(None), "进程异常退出");
}

#[test]
fn certificates_are_found_in_the_listing() {
    assert!(cert_status(Some(b"...\nCN=TraeDeviceProxyCA\n")).installed);
    assert!(!cert_status(Some(b"nothing")).installed);
    assert!(cert_status(Some(b"\xff TraeDeviceProxyCA \xfe")).installed);
    assert!(!cert_status(None).installed);
}

#[test]
fn installing_is_tried_twice_at_most() {
    let good = Exit { success: true, code: Some(0) };
    let bad = Exit { success: false, code: Some(5) };
    assert!(matches!(after_first_run(good, false), InstallStep::Recheck));
    assert!(matches!(after_first_run(bad, false), InstallStep::ResetRights));
    let want = "证书安装被取消或失败（证书文件权限不足（拒绝访问），可尝试删除数据目录下 certs 文件夹后重试；certutil 退出码 Some(5)）";
    match after_first_run(bad, true) {
        InstallStep::Failed(t) => assert_eq!(t, want),
        _ => panic!("failed"),
    }
    assert!(matches!(after_reset(bad, true), InstallStep::RunAgain));
    assert!(matches!(after_reset(bad, false), InstallStep::Failed(_)));
    assert!(matches!(after_second_run(good), InstallStep::Recheck));
    assert!(matches!(after_second_run(bad), InstallStep::Failed(_)));
    assert_eq!(install_failure(None), "证书安装被取消或失败（进程异常退出；certutil 退出码 None）");
    assert_eq!(launch_error("x"), "启动证书安装失败: x");
    assert!(cert_install(CertStatus { installed: true }).is_ok());
    match cert_install(CertStatus { installed: false }) {
        Ok(_) => panic!("not installed"),
        Err(e) => assert!(e.contains("TraeDeviceProxyCA")),
    }
}

#[test]
fn install_command_quotes_the_path() {
    assert_eq!(
        install_command("C:\\a b\\ca.cer"),
        "try { $p = Start-Process certutil -ArgumentList '-addstore','-f','Root','\"C:/a b/ca.cer\"' -Verb RunAs -Wait -PassThru -ErrorAction Stop; exit $p.ExitCode } catch { exit 1223 }"
    );
}

// ---- the answer of a login ----

#[test]
fn logins_end_in_three_ways() {
    let added = login_done(&LoginEnd::Added(OAuthLoginResult {
        user_id: "7".into(),
        name: "甲".into(),
        jwt: String::new(),
        refresh_token: String::new(),
        has_refresh_token: false,
    }));
    assert!(added.ok);
    assert_eq!(added.message, "账号 [甲] 登录成功");
    assert_eq!((added.account.as_deref(), added.user_id.as_deref()), (Some("甲"), Some("7")));
    let refused = login_done(&LoginEnd::Refused("no".into()));
    assert!(!refused.ok && refused.message == "no" && refused.account.is_none());
    let broken = login_done(&LoginEnd::Broken("panic".into()));
    assert_eq!(broken.message, "登录任务执行异常: panic");
}

#[test]
fn answers_have_a_whole_address() {
    assert_eq!(callback_url(Some("/authorize?code=1")), "http://127.0.0.1:17388/authorize?code=1");
    assert_eq!(callback_url(None), "http://127.0.0.1:17388/authorize");
    assert_eq!(listen_address(), "127.0.0.1:17388");
    assert_eq!(
        started_line(),
        "[OAuth] 回环监听已启动 127.0.0.1:17388（空闲 300 秒自动关闭，redirect_uri=http://127.0.0.1:17388/authorize）"
    );
    assert_eq!(
        listen_error(true, "e"),
        "OAuth 回调端口 17388 已被其他程序占用（e），自动收尾不可用；请在下一步改用手动粘贴回调 URL 兜底"
    );
    assert_eq!(listen_error(false, "e"), "OAuth 回调监听启动失败: e");
}

#[test]
fn listening_ends_after_five_quiet_minutes() {
    assert!(!idle(1299, 1000));
    assert!(idle(1300, 1000));
    assert!(!idle(1000, 2000));
}

#[test]
fn escaping_leaves_ordinary_text() {
    assert_eq!(esc("a&b<c>\"d'"), "a&amp;b&lt;c&gt;&quot;d&#39;");
    assert_eq!(esc("普通 text 1+1"), "普通 text 1+1");
    assert!(html_response(true, "x", "y").starts_with("<!DOCTYPE html><html lang=\"zh-CN\">"));
    assert!(html_response(true, "x", "y").contains("background: #16a34a; }h1 {"));
    assert!(html_response(false, "x", "y").ends_with("<p class=\"url\">y</p></div></body></html>"));
}

// ---- kept logins ----

#[test]
fn sizes_in_words_agree_with_doubles() {
    let words = |b: u64| {
        if b < 1024 {
            format!("{} B", b)
        } else if b < 1024 * 1024 {
            format!("{:.1} KB", b as f64 / 1024.0)
        } else if b < 1024 * 1024 * 1024 {
            format!("{:.1} MB", b as f64 / (1024.0 * 1024.0))
        } else {
            format!("{:.2} GB", b as f64 / (1024.0 * 1024.0 * 1024.0))
        }
    };
    let mut n: u64 = 88172645463325252;
    for i in 0..20000u64 {
        n ^= n << 13;
        n ^= n >> 7;
        n ^= n << 17;
        let b = n >> (n % 64);
        assert_eq!(format_size(b), words(b), "{b}");
        assert_eq!(format_size(i * 128), words(i * 128));
    }
    for b in [0, 1023, 1024, 1075, 1076, 1048575, 1048576, 1073741823, 1073741824, u64::MAX, u64::MAX - 1024, 1 << 53, (1 << 53) + 1] {
        assert_eq!(format_size(b), words(b), "{b}");
    }
    assert_eq!(format_size(1536), "1.5 KB");
    assert_eq!(format_size(1280), "1.2 KB");
}

fn info(slot: &str, time: &str) -> ProfileInfo {
    ProfileInfo { slot: slot.into(), size_bytes: 1, file_count: 1, last_modified: time.into() }
}

#[test]
fn the_latest_login_stands_first() {
    let list = profile_list(vec![
        info("a", "2026-01-01 00:00:00"),
        info("b", "2026-03-01 00:00:00"),
        info("c", "-"),
        info("d", "2026-03-01 00:00:00"),
        info("e", "2026-02-01 00:00:00"),
    ]);
    let slots: Vec<&str> = list.iter().map(|p| p.slot.as_str()).collect();
    assert_eq!(slots, vec!["b", "d", "e", "a", "c"]);
    assert_eq!(dir_stats(&vec![1, 2, 3]), (6, 3));
}

#[test]
fn every_application_has_its_directory() {
    let names = [
        (None, "TraeWork", "profiles"),
        (Some("TraeWork"), "TraeWork", "profiles"),
        (Some("other"), "TraeWork", "profiles"),
        (Some("Trae"), "Trae", "profiles_trae"),
        (Some("Doubao"), "Doubao", "profiles_doubao"),
        (Some("CodeBuddy"), "CodeBuddy", "profiles_codebuddy"),
        (Some("WorkBuddy"), "WorkBuddy", "profiles_workbuddy"),
    ];
    for (name, app, dir) in names {
        assert_eq!(normalize_target_app(name), app);
        assert_eq!(profiles_dir("D", name).parts, vec!["data".to_string(), dir.to_string()]);
    }
}

#[test]
fn keeping_and_restoring() {
    let Ok(a) = profile_backup(Ok(()), "7".into(), Some("Doubao"), true, "D".into()) else { panic!("args") };
    assert_eq!((a.action, a.target_app, a.include_indexeddb), (Action::BackupCurrent, TargetApp::Doubao, true));
    assert_eq!(a.user_id.as_deref(), Some("7"));
    let Ok(b) = profile_restore(true, Ok(()), "7".into(), None, true, "D".into()) else { panic!("args") };
    assert_eq!((b.action, b.target_app, b.include_indexeddb), (Action::RestoreOnly, TargetApp::TraeWork, false));
    match profile_restore(false, Ok(()), "7".into(), None, true, "D".into()) {
        Ok(_) => panic!("no snapshot"),
        Err(e) => assert_eq!(e, "账号 7 的登录态快照不存在"),
    }
    assert!(profile_backup(Err("bad".into()), "..".into(), None, false, "D".into()).is_err());
    let Ok(p) = profile_delete(Ok(()), "7", Some("Trae"), "D") else { panic!("path") };
    assert_eq!(p.parts, vec!["data", "profiles_trae", "7"]);
    assert!(profile_delete(Err("bad".into()), "..", None, "D").is_err());
    assert_eq!(delete_error("x"), "删除快照失败: x");
}

// ---- switching ----

#[test]
fn switches_begin_with_probe_and_guard() {
    let plan = |t: Option<&str>, skip: Option<bool>| {
        let Ok(p) = switch_account(Ok(()), t, skip) else { panic!("plan") };
        (p.probe, p.guard)
    };
    assert_eq!(plan(None, None), (Probe::AccountToken, Guard::UsageOfTraeWork));
    assert_eq!(plan(Some("Trae"), None), (Probe::AccountToken, Guard::UsageOfTrae));
    assert_eq!(plan(Some("TraeWork"), Some(true)), (Probe::Nothing, Guard::UsageOfTraeWork));
    assert_eq!(plan(Some("Doubao"), Some(true)), (Probe::SlotSession, Guard::LiveCookies));
    assert_eq!(plan(Some("WorkBuddy"), None), (Probe::Nothing, Guard::AuthFile));
    assert_eq!(plan(Some("CodeBuddy"), None), (Probe::Nothing, Guard::AuthFile));
    assert_eq!(plan(Some("other"), None), (Probe::Nothing, Guard::Nobody));
    assert!(switch_account(Err("bad".into()), None, None).is_err());
    assert_eq!(uid_to_check(" 7 "), "7");
}

#[test]
fn dead_tokens_warn_and_dead_sessions_stop() {
    assert_eq!(after_probe(Probe::SlotSession, Err("dead".into())), Err("dead".into()));
    assert_eq!(
        after_probe(Probe::AccountToken, Err("dead".into())),
        Ok(Some("{\"message\":\"dead\",\"stage\":\"probe\",\"status\":\"warn\"}".into()))
    );
    assert_eq!(after_probe(Probe::AccountToken, Ok(())), Ok(None));
    assert_eq!(after_probe(Probe::Nothing, Err("x".into())), Ok(None));
}

#[test]
fn what_actions_are_run_with() {
    let s = switch_args("7".into(), Some("Doubao"), Some(0), true, None, "D".into());
    assert_eq!((s.action, s.proxy_port, s.include_indexeddb), (Action::Switch, None, true));
    assert_eq!(s.expected_current_uid, "");
    let t = switch_args("7".into(), Some("CodeBuddy"), Some(8080), true, Some("9".into()), "D".into());
    assert_eq!((t.target_app, t.proxy_port, t.include_indexeddb), (TargetApp::CodeBuddy, Some(8080), false));
    assert_eq!(t.expected_current_uid, "9");
    let k = save_args("7".into(), None, true, "D".into());
    assert_eq!((k.action, k.target_app, k.include_indexeddb), (Action::SaveCurrentLogin, TargetApp::TraeWork, false));
    let r = reset_device_ids(Some("Doubao"), "D".into());
    assert_eq!((r.action, r.target_app), (Action::ResetDeviceIds, TargetApp::TraeWork));
    assert!(r.user_id.is_none());
    assert_eq!(reset_device_ids(Some("Trae"), "D".into()).target_app, TargetApp::Trae);
    let b = build_args(Action::Switch, Some("nope"), None, Some(1), false, "x".into(), "D".into());
    assert_eq!((b.target_app, b.proxy_port), (TargetApp::TraeWork, Some(1)));
    assert!(looks_up_centre_id(None, true));
    assert!(!looks_up_centre_id(Some("Doubao"), true));
    assert!(!looks_up_centre_id(None, false));
}

#[test]
fn keeping_a_login_needs_a_session() {
    assert_eq!(save_current_login(Ok(()), Some("Doubao"), Ok(()), Ok(())), Ok(()));
    assert_eq!(
        save_current_login(Ok(()), Some("Doubao"), Err("out".into()), Err("dead".into())),
        Err("out".into())
    );
    assert_eq!(save_current_login(Ok(()), Some("Doubao"), Ok(()), Err("dead".into())), Err("dead".into()));
    assert_eq!(save_current_login(Ok(()), None, Err("out".into()), Err("dead".into())), Ok(()));
    assert_eq!(save_current_login(Err("bad".into()), None, Ok(()), Ok(())), Err("bad".into()));
}

#[test]
fn ends_of_actions_are_told() {
    assert_eq!(print_json(&done_event(&Ok("line".into()))), "{\"raw\":\"line\",\"success\":true}");
    assert_eq!(print_json(&done_event(&Err("line".into()))), "{\"raw\":\"line\",\"success\":false}");
    assert_eq!(
        print_json(&profile_done_event(&Ok("l".into()), "backup")),
        "{\"action\":\"backup\",\"raw\":\"l\",\"success\":true}"
    );
}

// ---- use of credits ----

fn times() -> LocalTimes {
    LocalTimes {
        entries: vec![
            (1789009361, "2026-09-10 09:22".into()),
            (1789095761, "2026-09-11 09:22".into()),
            (1789095762, "2026-09-11 09:22".into()),
        ],
    }
}

fn page() -> Vec<Json> {
    vec![
        json("{\"usage_time\":1789095761,\"credits_float\":1.5,\"model_name\":\" glm \",\"extra_info\":{\"input_token\":10,\"output_token\":2,\"cache_read_token\":1}}"),
        json("{\"usage_time\":1789009361,\"amount_float\":2,\"model_name\":\"\"}"),
        json("{\"usage_time\":1789095762,\"credits_float\":0.25,\"model_name\":\"abc\",\"extra_info\":{\"input_token\":5}}"),
        json("{\"usage_time\":0,\"credits_float\":9}"),
        json("{\"usage_time\":123,\"credits_float\":9}"),
    ]
}

#[test]
fn sessions_add_up_to_days() {
    let mut days: Vec<UsageDayStat> = Vec::new();
    add_sessions(&mut days, &page(), &times());
    assert_eq!(days.len(), 2);
    assert_eq!(days[0].date, "2026-09-10");
    assert_eq!(days[0].models[0].0, "未知模型");
    assert_eq!(days[0].credits.iter().map(|b| f64::from_bits(*b)).sum::<f64>(), 2.0);
    assert_eq!(days[1].date, "2026-09-11");
    assert_eq!(days[1].sessions, 2);
    assert_eq!(days[1].models.iter().map(|m| m.0.as_str()).collect::<Vec<_>>(), vec!["abc", "glm"]);
    assert_eq!((days[1].input_tokens, days[1].output_tokens, days[1].cache_read_tokens), (15, 2, 1));
    assert_eq!(days[1].credits.iter().map(|b| f64::from_bits(*b)).sum::<f64>(), 1.75);
}

fn reply(total: usize, len: usize) -> Json {
    let one = "{\"usage_time\":1789095761,\"credits_float\":1}";
    let list = vec![one; len].join(",");
    json(&format!("{{\"total\":{total},\"user_usage_group_by_sessions\":[{list}]}}"))
}

#[test]
fn pages_are_asked_for_until_all_are_there() {
    let mut p = Pager::new();
    assert_eq!(
        print_json(&p.request(1, 2)),
        "{\"end_time\":2,\"page_num\":1,\"page_size\":100,\"start_time\":1,\"usage_type\":[7]}"
    );
    assert!(p.take_page(&reply(250, 100), &times()));
    assert_eq!(p.page, 2);
    assert!(p.take_page(&reply(0, 100), &times()));
    assert!(!p.take_page(&reply(250, 50), &times()));
    assert_eq!(p.days[0].sessions, 250);
    let mut q = Pager::new();
    assert!(!q.take_page(&reply(1000, 99), &times()));
    let mut e = Pager::new();
    assert!(!e.take_page(&json("{\"total\":5}"), &times()));
    assert!(e.days.is_empty());
    let mut many = Pager::new();
    for _ in 1..50 {
        assert!(many.take_page(&reply(100000, 100), &times()));
    }
    assert!(!many.take_page(&reply(100000, 100), &times()));
}

#[test]
fn pages_with_the_machines_times() {
    let mut p = Pager::new();
    assert!(!p.take_reply(&reply(1, 1)));
    assert_eq!(p.days.len(), 1);
    assert!(p.days[0].date.starts_with("2026-09-1"));
}

fn day(date: &str, sessions: u64) -> UsageDayStat {
    UsageDayStat {
        date: date.into(),
        credits: vec![1.0f64.to_bits()],
        sessions,
        models: Vec::new(),
        input_tokens: 0,
        output_tokens: 0,
        cache_read_tokens: 0,
    }
}

fn dates(days: &[UsageDayStat]) -> Vec<(String, u64)> {
    days.iter().map(|d| (d.date.clone(), d.sessions)).collect()
}

#[test]
fn days_asked_for_again_replace_the_old() {
    let old = vec![day("2026-09-01", 1), day("2026-09-02", 2), day("2026-09-03", 3)];
    let once = merge_days(&old, "2026-09-02", vec![day("2026-09-02", 7), day("2026-09-04", 8)]);
    let want = vec![
        ("2026-09-01".to_string(), 1),
        ("2026-09-02".to_string(), 7),
        ("2026-09-04".to_string(), 8),
    ];
    assert_eq!(dates(&once), want);
    let twice = merge_days(&once, "2026-09-02", vec![day("2026-09-02", 7), day("2026-09-04", 8)]);
    assert_eq!(dates(&twice), want);
    let all = merge_days(&old, "", vec![day("2026-09-09", 1)]);
    assert_eq!(dates(&all), vec![("2026-09-09".to_string(), 1)]);
}

#[test]
fn windows_begin_a_year_back_or_at_midnight() {
    let now = 1789095761;
    assert_eq!(window_of(None, None, None, None, now), (now - 365 * 86400, String::new()));
    assert_eq!(
        window_of(Some(5), Some("2026-09-10".into()), Some("2026-09-11".into()), Some(77), now),
        (77, "2026-09-10".into())
    );
    assert_eq!(window_of(Some(5), None, Some("2026-09-11".into()), None, now), (now - 86400, "2026-09-11".into()));
    assert_eq!(fetch_window(None, now), (now - 365 * 86400, String::new()));
    let (start, from) = fetch_window(Some(now), now);
    assert!(start <= now && start > now - 2 * 86400);
    assert!(from.starts_with("2026-09-1"));
}

fn account(uid: Option<&str>, jwt: &str) -> RawAccount {
    RawAccount {
        name: "n".into(),
        user_id: uid.map(|s| s.to_string()),
        jwt: jwt.into(),
        refresh_token: None,
        added_at: None,
        updated_at: None,
        dc_id: None,
        refresh_token_expires_at: None,
        refresh_token_fails: 0,
        refresh_token_invalid: false,
        auth_saved_at: None,
    }
}

#[test]
fn kept_days_are_shown_with_what_went_wrong() {
    let accounts = vec![account(Some("1"), "j"), account(None, "j"), account(Some(""), "j"), account(Some("2"), " ")];
    assert!(is_asked_for(&accounts[0]));
    assert!(!is_asked_for(&accounts[1]));
    assert!(!is_asked_for(&accounts[2]));
    assert!(!is_asked_for(&accounts[3]));
    let mut cache = CacheFile { fetched_at: Some(4), accounts: Vec::new() };
    let mut errors = Vec::new();
    let r = usage_history_fetch(&accounts, &cache, &errors, false, 9);
    assert!(r.cached && r.fetched_at == 4 && r.accounts.len() == 2);
    assert_eq!(r.accounts[0].error.as_deref(), Some("尚未拉取消耗明细，点击「更新消耗明细」拉取"));
    take_result(&mut cache, &mut errors, "1", "甲", "", Ok(vec![day("2026-09-01", 1)]), 9);
    take_result(&mut cache, &mut errors, "2", "乙", "", Err("502".into()), 9);
    assert_eq!(last_fetch(&cache, "1"), Some(9));
    assert_eq!(last_fetch(&cache, "2"), None);
    let r = usage_history_fetch(&accounts, &cache, &errors, true, 9);
    assert!(!r.cached && r.fetched_at == 9);
    assert!(r.accounts[0].ok && r.accounts[0].name == "甲" && r.accounts[0].daily.len() == 1);
    assert!(!r.accounts[1].ok && r.accounts[1].error.as_deref() == Some("502"));
    take_result(&mut cache, &mut errors, "1", "甲", "2026-09-01", Err("timeout".into()), 10);
    let r = usage_history_fetch(&accounts, &cache, &errors, true, 10);
    assert_eq!(r.accounts[0].error.as_deref(), Some("本次更新失败（展示已有缓存）：timeout"));
    assert_eq!(r.accounts[0].daily.len(), 1);
    let r = usage_history_fetch(&accounts, &cache, &errors, false, 10);
    assert!(r.accounts[0].error.is_none());
}
