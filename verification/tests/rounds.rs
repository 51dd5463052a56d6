use aiwork::commands::switch::{keepalive_args, Action};
use aiwork::device_proxy::handler::Device;
use aiwork::json::{print_json, read_json, Json};
use aiwork::models::RawAccount;
use aiwork::switcher::profile::TargetApp;
use aiwork::tasks::doubao_quota::{
    append_history, batch_targets, check_body, fetch_single, fmt_ts, norm_ms_ts, open_pool, parse_quota,
    query_account, quota_url, request_cookie, single_summary, summarize_parsed, Batch, Reply,
};
use aiwork::tasks::scheduler::{
    due, enabled, last_fail_ts, last_run_date, load_state, mark_fail, mark_run, run_line, run_task,
    scheduler_status, summarize, tasks, TaskKind,
};
use aiwork::tasks::trae_checkin::{
    build_headers, clear_cooldown, failure_report, get_device_for, int_candidate, needs_recheck, py_truthy,
    save_cooldown, save_credits_history, save_summary_merged, signin_request, signin_with_retry, start_event,
    status_check, success_report, Begun, ClaimOutcome, CooldownEntry, Expiry, Post, Round,
};
use base64::Engine;

fn json(text: &str) -> Json {
    match read_json(text) {
        Ok(v) => v,
        Err(e) => panic!("{e}"),
    }
}

fn token(uid: &str) -> String {
    let b64 = |s: &str| base64::engine::general_purpose::URL_SAFE_NO_PAD.encode(s.as_bytes());
    format!("{}.{}.s", b64("{\"alg\":\"RS256\"}"), b64(&format!("{{\"data\":{{\"id\":\"{uid}\"}},\"exp\":1893456000}}")))
}

// ---- the scheduler ----

#[test]
fn tasks_are_known_and_due_once_a_day() {
    let all = tasks();
    assert_eq!(all.len(), 7);
    assert!(all.iter().all(|t| run_task(t.key).is_ok()));
    assert!(matches!(run_task("wb-renew"), Ok(TaskKind::WbRenew)));
    assert_eq!(run_task("x").err(), Some("未知调度任务: x".to_string()));
    assert!(enabled("trae-checkin", false));
    assert!(!enabled("wb-checkin", false));
    let t = &all[0];
    let s0 = load_state(&Json::Null);
    assert!(!due(&s0, t, true, "2026-09-13", "08:59", 0));
    assert!(due(&s0, t, true, "2026-09-13", "09:00", 0));
    assert!(!due(&s0, t, false, "2026-09-13", "09:00", 0));
    let s1 = mark_run(&s0, t.key, "2026-09-13", 5, "ok");
    assert!(!due(&s1, t, true, "2026-09-13", "23:59", 99999999));
    assert!(due(&s1, t, true, "2026-09-14", "09:00", 99999999));
    assert_eq!(last_run_date(&s1, t.key).as_deref(), Some("2026-09-13"));
}

#[test]
fn failed_tasks_rest_half_an_hour() {
    let t = &tasks()[1];
    let s = mark_fail(&load_state(&json("[]")), t.key, 1_000_000, "net");
    assert_eq!(last_fail_ts(&s, t.key), Some(1_000_000));
    assert!(!due(&s, t, true, "d", "09:10", 1_000_000 + 1_799_999));
    assert!(due(&s, t, true, "d", "09:10", 1_000_000 + 1_800_000));
    let ran = mark_run(&s, t.key, "d", 7, "good");
    assert_eq!(last_fail_ts(&ran, t.key), None);
    assert_eq!(
        print_json(&ran),
        "{\"tasks\":{\"wb-checkin\":{\"last_ok\":true,\"last_run_date\":\"d\",\"last_run_ts\":7,\"last_summary\":\"good\"}}}"
    );
    assert_eq!(run_line(t, &Ok("s".into())), "[调度器] WorkBuddy 每日签到（每日 09:10）：s");
    assert_eq!(run_line(t, &Err("e".into())), "[调度器] WorkBuddy 每日签到（每日 09:10）失败，30 分钟后重试：e");
    let shown = scheduler_status(&ran);
    let list = shown.get("tasks").unwrap().as_array().unwrap();
    assert_eq!(list.len(), 7);
    assert_eq!(list[1].str_at("last_summary"), Some("good"));
    assert_eq!(list[1].str_at("time"), Some("09:10"));
    assert!(list[0].get("last_ok").unwrap().is_null());
}

#[test]
fn results_in_one_line() {
    assert_eq!(summarize(&json("{\"ok\":1,\"already\":2,\"failed\":3}")), "成功 1，已签 2，失败 3");
    assert_eq!(summarize(&json("{\"ok\":true}")), "{\"ok\":true}");
    let long = format!("\"{}\"", "字".repeat(200));
    assert_eq!(summarize(&json(&long)).chars().count(), 120);
    let k = keepalive_args("D".into());
    assert_eq!((k.action, k.target_app), (Action::KeepAlive, TargetApp::Doubao));
}

// ---- check-in ----

fn device() -> Device {
    Device { device_id: "dev".into(), market_user_id: None, session_id: Some("ses".into()) }
}

#[test]
fn requests_carry_the_device() {
    let h = build_headers(" tok ", &device(), "rid", "tid");
    let get = |k: &str| h.iter().find(|p| p.0 == k).map(|p| p.1.as_str());
    assert_eq!(get("authorization"), Some("Cloud-IDE-JWT tok"));
    assert_eq!(get("x-device-id"), Some("dev"));
    assert_eq!(get("x-market-user-id"), Some(""));
    assert_eq!(get("vscode-sessionid"), Some("ses"));
    assert_eq!(get("x-request-id"), Some("rid"));
    assert_eq!(get("x-tt-trace-id"), Some("00-tid-01"));
    assert_eq!(h.len(), 20);
    assert_eq!(get("accept-encoding"), None);
}

#[test]
fn devices_come_from_the_map() {
    let map = json("{\"7\":{\"device_id\":\"d7\",\"session_id\":\"s7\"},\"8\":{\"device_id\":\"\"}}");
    let known = get_device_for(&map, "7", device());
    assert_eq!(known.device.device_id, "d7");
    assert_eq!(known.device.session_id.as_deref(), Some("s7"));
    assert!(known.map.is_none());
    let new = get_device_for(&map, "9", device());
    assert_eq!(new.device.device_id, "dev");
    assert_eq!(new.map.unwrap().get("9").unwrap().str_at("device_id"), Some("dev"));
    assert!(get_device_for(&map, "8", device()).map.is_some());
    assert!(get_device_for(&Json::Null, "9", device()).map.is_none());
}

#[test]
fn statuses_are_read() {
    let ask = |p: Post| status_check(Some("7"), &p);
    let good = ask(Post::Answer(200, "{\"code\":0,\"checked_in\":1,\"credits\":\"12\",\"message\":\"m\"}".into()));
    assert!(good.ok && good.checked_in == Some(true) && good.credits == Some(12) && good.message == "m");
    let bad = ask(Post::Answer(500, "{\"code\":9}".into()));
    assert!(!bad.ok && bad.message == "HTTP 500");
    assert_eq!(ask(Post::Answer(200, "<html>".into())).message, "非 JSON 响应: <html>");
    assert_eq!(ask(Post::Failed(String::new())).message, "网络异常");
    assert_eq!(ask(Post::Failed("dns".into())).message, "dns");
    assert_eq!(status_check(None, &Post::Failed("x".into())).message, "无法从 JWT 解析 user id");
}

#[test]
fn claims_are_read_and_retried() {
    let ok = signin_request(Some("7"), &Post::Answer(200, "{\"code\":0}".into()));
    assert!(ok.ok && ok.code == Some(0) && ok.message == "HTTP 200" && ok.http_status == 200);
    let html = signin_request(Some("7"), &Post::Answer(502, "<x>".into()));
    assert!(!html.ok && html.code.is_none() && html.message == "HTTP 502: 非 JSON 响应: <x>");
    let net = signin_request(Some("7"), &Post::Failed("t".into()));
    assert!(net.http_status == 0 && net.data.is_none());
    assert!(signin_with_retry(&net, 0, 2));
    assert!(signin_with_retry(&net, 1, 2));
    assert!(!signin_with_retry(&net, 2, 2));
    assert!(!signin_with_retry(&ok, 0, 2));
    let business = signin_request(Some("7"), &Post::Answer(200, "{\"code\":5,\"message\":\"no\"}".into()));
    assert!(!signin_with_retry(&business, 0, 2));
    assert_eq!(signin_request(None, &Post::Failed("t".into())).message, "无法从 JWT 解析 user id");
}

fn entry<'a>(list: &'a Vec<(String, CooldownEntry)>, uid: &str) -> Option<&'a CooldownEntry> {
    list.iter().find(|p| p.0 == uid).map(|p| &p.1)
}

#[test]
fn third_error_starts_the_rest() {
    let mut list: Vec<(String, CooldownEntry)> = Vec::new();
    save_cooldown(&mut list, "u", "Server", 600, "r", 1000);
    assert_eq!((entry(&list, "u").unwrap().until, entry(&list, "u").unwrap().error_count), (0, 1));
    save_cooldown(&mut list, "u", "Client", 600, "r", 1000);
    save_cooldown(&mut list, "u", "Server", 600, "r", 1000);
    assert_eq!((entry(&list, "u").unwrap().until, entry(&list, "u").unwrap().error_count), (1600, 0));
    save_cooldown(&mut list, "u", "SoftRate", 60, "r", 1000);
    assert_eq!(entry(&list, "u").unwrap().until, 1060);
    save_cooldown(&mut list, "v", "SessionDead", -1, "gone", 1000);
    assert_eq!(entry(&list, "v").unwrap().until, 9_999_999_999);
    clear_cooldown(&mut list, "u");
    assert!(entry(&list, "u").is_none());
    assert_eq!(entry(&list, "v").unwrap().reason, "gone");
}

#[test]
fn numbers_and_truth() {
    assert_eq!(int_candidate(&json("1e3")), Some(1000));
    assert_eq!(int_candidate(&json("-0.0")), Some(0));
    assert_eq!(int_candidate(&json("1e300")), Some(i64::MAX));
    assert_eq!(int_candidate(&json("18446744073709551615")), Some(i64::MAX));
    assert_eq!(int_candidate(&json("\" +7 \"")), Some(7));
    assert_eq!(int_candidate(&json("\"7.0\"")), None);
    assert!(!py_truthy(&json("-0.0")));
    assert!(py_truthy(&json("0.5")));
    assert!(!py_truthy(&json("[]")));
    assert!(py_truthy(&json("{}")));
    assert!(needs_recheck(Some(&json("{}")), Some(1)));
    assert!(!needs_recheck(Some(&json("{\"reward\":1}")), Some(1)));
    assert!(!needs_recheck(Some(&json("{}")), None));
}

#[test]
fn kept_records_are_recent() {
    let old = json("{\"records\":[{\"date\":\"2026-01-01\"},{\"date\":\"2026-06-15\"},{}],\"x\":1}");
    let r = save_credits_history(&old, "u", 10, 2, "2026-09-13", "2026-06-15");
    assert_eq!(
        print_json(&r),
        "{\"records\":[{\"date\":\"2026-06-15\"},{\"credits\":10,\"date\":\"2026-09-13\",\"delta\":2,\"user_id\":\"u\"}],\"x\":1}"
    );
    let fresh = save_credits_history(&Json::Null, "u", 1, 0, "2026-09-13", "2026-06-15");
    assert_eq!(fresh.get("records").unwrap().as_array().unwrap().len(), 1);
}

#[test]
fn results_of_a_day_are_merged() {
    let old = json(
        "{\"time\":\"2026-09-13T08:00:00\",\"results\":[{\"user_id\":\"1\",\"ok\":true},{\"user_id\":\"2\",\"ok\":true,\"action\":\"skip_already\"},{\"name\":\"n\",\"ok\":false},{\"name\":\"z\",\"ok\":false}]}",
    );
    let new = vec![json("{\"user_id\":\"1\",\"name\":\"n\",\"ok\":false}")];
    let s = save_summary_merged(&new, &vec!["w".to_string()], &old, "2026-09-13", "2026-09-13T09:00:00");
    let list = s.get("results").unwrap().as_array().unwrap();
    assert_eq!(list.len(), 3);
    assert_eq!(list[0].str_at("name"), Some("n"));
    assert_eq!(list[1].str_at("user_id"), Some("2"));
    assert_eq!(list[2].str_at("name"), Some("z"));
    assert_eq!((s.i64_at("total_ok"), s.i64_at("already"), s.i64_at("failed")), (Some(1), Some(1), Some(2)));
    assert_eq!(s.str_at("time"), Some("2026-09-13T09:00:00"));
    let other = save_summary_merged(&new, &Vec::new(), &old, "2026-09-14", "t");
    assert_eq!(other.get("results").unwrap().as_array().unwrap().len(), 1);
}

fn account(name: &str, jwt: &str) -> RawAccount {
    RawAccount {
        name: name.into(),
        user_id: Some("9".into()),
        jwt: jwt.into(),
        refresh_token: None,
        added_at: None,
        updated_at: None,
        dc_id: None,
        refresh_token_expires_at: None,
        refresh_token_fails: 0,
        refresh_token_invalid: false,
        auth_saved_at: None,
    }
}

#[test]
fn a_round_over_three_accounts() {
    assert_eq!(print_json(&start_event(3)), "{\"total\":3,\"type\":\"start\"}");
    let mut round = Round::new();
    match round.begin(&account("", "  ")) {
        Begun::Failed(e) => assert_eq!(
            print_json(&e),
            "{\"index\":1,\"message\":\"未配置 jwt\",\"name\":\"账号1\",\"status\":\"fail\",\"type\":\"account\",\"user_id\":\"9\"}"
        ),
        Begun::Ask(_) => panic!("no token"),
    }
    let Begun::Ask(two) = round.begin(&account("乙", &token("22"))) else { panic!("ask") };
    assert_eq!((two.user_id.as_deref(), two.exp_timestamp), (Some("22"), Some(1893456000)));
    let soon = Expiry { seconds_left: 86399, hours: "24.0".into(), when: "W".into() };
    round.note_expiry(&two, &soon);
    round.note_expiry(&two, &Expiry { seconds_left: 86400, hours: String::new(), when: String::new() });
    round.note_expiry(&two, &Expiry { seconds_left: -1, hours: String::new(), when: "V".into() });
    assert_eq!(round.warnings, vec!["乙: JWT 将于 24.0h 后过期(W)，请重新抓取", "乙: JWT 已过期(V)，请重新抓取"]);
    let pre = status_check(Some("22"), &Post::Answer(200, "{\"code\":0,\"checked_in\":true,\"credits\":5}".into()));
    let ev = round.take_status(&two, &pre).unwrap();
    assert_eq!(
        print_json(&ev),
        "{\"credits\":5,\"index\":2,\"name\":\"乙\",\"status\":\"already\",\"type\":\"account\",\"user_id\":\"22\"}"
    );
    let Begun::Ask(three) = round.begin(&account("丙", &token("33"))) else { panic!("ask") };
    let not_yet = status_check(Some("33"), &Post::Answer(200, "{\"code\":0,\"checked_in\":0}".into()));
    assert!(round.take_status(&three, &not_yet).is_none());
    let dead = signin_request(Some("33"), &Post::Answer(401, "{\"code\":1,\"message\":\"dead\"}".into()));
    let report = failure_report(&dead, Some(9_999_999_999));
    let ev = round.take_claim(&three, &dead, &report);
    assert_eq!(
        print_json(&ev),
        "{\"code\":1,\"cooldown_until\":9999999999,\"credits\":null,\"delta\":null,\"error_type\":\"SessionDead\",\"index\":3,\"message\":\"dead\",\"name\":\"丙\",\"status\":\"fail\",\"type\":\"account\",\"user_id\":\"33\"}"
    );
    assert_eq!(print_json(&round.done_event()), "{\"already\":1,\"failed\":2,\"ok\":0,\"type\":\"done\"}");
    assert_eq!(
        round.log_line("N", 3),
        "[N] 成功0/已签到1/失败2/总计3 | 告警: 乙: JWT 将于 24.0h 后过期(W)，请重新抓取; 乙: JWT 已过期(V)，请重新抓取\n"
    );
    let status = |u: &str| round.outcome.statuses.iter().find(|p| p.0 == u).map(|p| p.1);
    assert_eq!((status("9"), status("22"), status("33")), (Some("fail"), Some("already"), Some("fail")));
    assert_eq!(round.outcome.error_types, vec![("33".to_string(), "SessionDead".to_string())]);
}

#[test]
fn good_claims_bring_credits() {
    let mut round = Round::new();
    let Begun::Ask(cur) = round.begin(&account("甲", &token("11"))) else { panic!("ask") };
    let claim = ClaimOutcome { ok: true, message: "m".into(), code: Some(0), http_status: 200, data: None };
    let ev = round.take_claim(&cur, &claim, &success_report(Some(105), 5));
    assert_eq!((ev.i64_at("credits"), ev.i64_at("delta"), ev.str_at("status")), (Some(105), Some(5), Some("success")));
    assert_eq!(
        print_json(&round.results[0]),
        "{\"action\":\"claim_ok\",\"code\":0,\"credits\":105,\"credits_delta\":5,\"message\":\"m\",\"name\":\"甲\",\"ok\":true,\"user_id\":\"11\"}"
    );
    assert_eq!(round.total_ok, 1);
    let unknown = ClaimOutcome { ok: false, message: "t".into(), code: None, http_status: 0, data: None };
    let r = failure_report(&unknown, None);
    assert!(r.error_type.is_none() && r.cooldown_until.is_none());
}

#[test]
fn claims_are_settled() {
    let mut round = Round::new();
    let Begun::Ask(one) = round.begin(&account("甲", &token("11"))) else { panic!("ask") };
    let entry = CooldownEntry { error_type: "Server".into(), until: 0, reason: "r".into(), error_count: 2 };
    let other = CooldownEntry { error_type: "X".into(), until: 7, reason: "o".into(), error_count: 0 };
    let mut rests = vec![("11".to_string(), entry), ("22".to_string(), other)];
    let down = ClaimOutcome { ok: false, message: "down".into(), code: None, http_status: 502, data: None };
    let s = round.settle(&one, &down, Some(100), None, &mut rests, 1000);
    assert!(s.rests_changed && s.history.is_none());
    assert_eq!((s.report.error_type.as_deref(), s.report.cooldown_until), (Some("Server"), Some(1600)));
    assert_eq!((rests[0].1.until, rests[0].1.reason.as_str(), rests[1].1.until), (1600, "down", 7));
    assert_eq!(s.event.i64_at("cooldown_until"), Some(1600));

    let Begun::Ask(again) = round.begin(&account("甲", &token("11"))) else { panic!("ask") };
    let good = ClaimOutcome { ok: true, message: String::new(), code: Some(0), http_status: 200, data: None };
    let s = round.settle(&again, &good, Some(100), Some((true, Some(130))), &mut rests, 2000);
    assert_eq!((s.history, s.rests_changed), (Some((130, 30)), true));
    assert_eq!(rests.iter().map(|r| r.0.as_str()).collect::<Vec<_>>(), vec!["22"]);
    assert_eq!((s.event.i64_at("credits"), s.event.i64_at("delta")), (Some(130), Some(30)));

    let Begun::Ask(third) = round.begin(&account("甲", &token("11"))) else { panic!("ask") };
    let lost = ClaimOutcome { ok: false, message: "t".into(), code: None, http_status: 0, data: None };
    let s = round.settle(&third, &lost, None, None, &mut rests, 3000);
    assert!(!s.rests_changed && s.report.error_type.is_none() && s.history.is_none());
    assert_eq!((round.total_ok, round.failed, rests.len()), (1, 2, 1));
}

// ---- quotas ----

#[test]
fn answers_are_checked() {
    assert_eq!(check_body(&json("{\"code\":0}")), None);
    assert_eq!(check_body(&json("{\"code\":0.0}")), None);
    assert_eq!(check_body(&json("{\"code\":null}")), None);
    assert_eq!(check_body(&json("{}")), None);
    assert_eq!(check_body(&json("[]")), Some("接口返回异常 code=?".into()));
    assert_eq!(check_body(&json("{\"code\":\"x\"}")), Some("接口返回异常 code=x".into()));
    assert_eq!(
        check_body(&json("{\"code\":710012001}")),
        Some("接口返回异常 code=710012001：登录态已失效，请开启代理重新抓取凭证或重新保存该账号登录态".into())
    );
    let err = |r: Reply| match query_account(&r) {
        Ok(_) => panic!("no error"),
        Err(e) => e,
    };
    assert_eq!(err(Reply::Status(502)), "HTTP 502");
    assert_eq!(err(Reply::Failed("dns".into())), "请求失败: dns");
    assert!(err(Reply::Body("<".into())).starts_with("响应解析失败: "));
    match query_account(&Reply::Body("{\"code\":0}".into())) {
        Ok(v) => assert!(v.get("parsed").unwrap().is_object()),
        Err(e) => panic!("{e}"),
    }
    assert_eq!(request_cookie("s", Some("g")), "sessionid=s; sid_guard=g");
    assert_eq!(request_cookie("s", Some("")), "sessionid=s");
}

#[test]
fn pools_and_credentials() {
    let pool = json("{\"accounts\":[{\"user_id\":\"1\"},{\"user_id\":\"2\",\"session_id\":\"s\",\"sid_guard\":\"g\"},{\"user_id\":\"\",\"session_id\":\"s\"}]}");
    let msg = |u: &str| match fetch_single(&pool, u) {
        Ok(c) => c.session_id,
        Err(e) => e,
    };
    assert_eq!(msg("3"), "账号 3 不在账号池中");
    assert!(msg("1").starts_with("该账号未录入 sessionid 凭证"));
    assert_eq!(msg("2"), "s");
    let Ok(accounts) = open_pool(Some(&pool), "p") else { panic!("pool") };
    let targets = batch_targets(&accounts);
    assert_eq!(targets.len(), 1);
    assert_eq!((targets[0].index, targets[0].user_id.as_str()), (1, "2"));
    assert_eq!(open_pool(None, "p").err(), Some("账号池不存在: p".to_string()));
    assert_eq!(open_pool(Some(&json("{}")), "p").err(), Some("账号池解析失败".to_string()));
    assert_eq!(quota_url(Some(" u "), "d"), "u");
    assert_eq!(quota_url(Some(" "), "d"), "d");
    assert_eq!(quota_url(None, "d"), "d");
}

#[test]
fn quotas_are_written_into_the_pool() {
    let accounts = vec![json("{\"user_id\":\"2\",\"session_id\":\"s\",\"name\":\"n\",\"x\":1}")];
    let target = &batch_targets(&accounts)[0];
    let mut batch = Batch::new(accounts);
    let result = json(
        "{\"parsed\":{\"level\":\"L\",\"expire_at\":\"E\",\"items\":[{\"name\":\"w\",\"used_percent\":100,\"reset_at\":\"2026-09-13 20:32\"}]}}",
    );
    let ev = batch.take_result(target, &Ok(result), "now");
    assert_eq!(ev.str_at("summary"), Some("w 已用完（09-13 20:32 重置）"));
    assert_eq!(
        print_json(&batch.accounts[0]),
        "{\"name\":\"n\",\"quota_checked_at\":\"now\",\"quota_expire_at\":\"E\",\"quota_level\":\"L\",\"quota_summary\":\"w 已用完（09-13 20:32 重置）\",\"session_id\":\"s\",\"user_id\":\"2\",\"x\":1}"
    );
    let bad = batch.take_result(target, &Err("HTTP 500".into()), "later");
    assert_eq!(
        print_json(&bad),
        "{\"kind\":\"quota\",\"ok\":false,\"source\":\"task\",\"summary\":\"HTTP 500\",\"ts\":\"later\",\"uid\":\"2\"}"
    );
    let rec = batch.record("U", "F");
    assert_eq!((rec.i64_at("total"), rec.i64_at("success"), rec.i64_at("failed")), (Some(2), Some(1), Some(1)));
    assert_eq!(rec.get("exhausted").unwrap().as_array().unwrap()[0].str_at("reset_at"), Some("2026-09-13 20:32"));
    assert!(batch.changed);
    let single = single_summary("U", "2", &json("{\"parsed\":{\"a\":1}}"), "F");
    assert_eq!(
        print_json(&single),
        "{\"finished_at\":\"F\",\"http_status\":200,\"logs\":[],\"ok\":true,\"parsed\":{\"a\":1},\"url\":\"U\",\"user_id\":\"2\"}"
    );
}

#[test]
fn history_is_bounded() {
    let mut events: Vec<Json> = Vec::new();
    for i in 0..405 {
        append_history(&mut events, json(&i.to_string()));
    }
    assert_eq!(events.len(), 400);
    assert_eq!(events[0].as_i64(), Some(5));
    assert_eq!(events[399].as_i64(), Some(404));
}

#[test]
fn times_of_quotas() {
    assert_eq!(norm_ms_ts(Some(&json("1800000000000"))), Some(1800000000));
    assert_eq!(norm_ms_ts(Some(&json("1800000000"))), Some(1800000000));
    assert_eq!(norm_ms_ts(Some(&Json::Null)), None);
    assert!(fmt_ts(&json("1800000000000")).unwrap().starts_with("2027-01-1"));
    assert_eq!(fmt_ts(&json("\"2027-01-02 03:04\"")).as_deref(), Some("2027-01-02 03:04"));
    let p = parse_quota(&json("{}"));
    assert!(p.get("level").unwrap().is_null());
    assert!(p.get("items").unwrap().as_array().unwrap().is_empty());
    assert_eq!(summarize_parsed(&json("{\"items\":[{\"total\":5},{\"name\":\"\",\"used_percent\":0.5}]}")).as_deref(), Some("额度 总量 5 · 额度 已用 0%"));
}
