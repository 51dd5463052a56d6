use aiwork::json::{as_double, read_json, Json};
use aiwork::switcher::locate::icon_path;
use aiwork::tasks::doubao_quota::{fmt_ts, parse_quota, summarize_parsed};
use aiwork::tasks::trae_checkin::{
    classify_error, int_candidate, parse_claim_reward, py_truthy, resolve_claim_credits,
};

fn json(text: &str) -> Json {
    match read_json(text) {
        Ok(v) => v,
        Err(e) => panic!("{e}"),
    }
}

fn double_at(v: &Json, key: &str) -> Option<f64> {
    v.get(key).and_then(|x| as_double(x)).map(f64::from_bits)
}

fn bool_at(v: &Json, key: &str) -> Option<bool> {
    v.get(key).and_then(|x| x.as_bool())
}

#[test]
fn parse_quota_exact_structure() {
    let resp = json(
        "{\"code\":0,\"data\":{\"current_subscription\":{\"display\":{\"short_name\":\"专业版\"},\
         \"end_time\":1800000000000,\"start_time\":1770000000000,\"is_gift\":false,\"status\":1},\
         \"window_limit_section\":{\"window_limit_groups\":[{\"feature_group_name\":\"图片生成\",\
         \"window_limits\":[{\"window_type\":1,\"used_percent\":80,\"end_time\":1799900000000},\
         {\"window_type\":2,\"used_percent\":100,\"usage_exhausted\":true}]}]}}}",
    );
    let p = parse_quota(&resp);
    assert_eq!(p.str_at("level"), Some("专业版"));
    assert!(p.str_at("expire_at").is_some());
    assert_eq!(bool_at(&p, "is_gift"), Some(false));
    assert_eq!(bool_at(&p, "has_subscription"), Some(true));
    let sub = p.get("subscription").unwrap();
    assert_eq!(sub.i64_at("period_days"), Some(347));
    assert_eq!(bool_at(sub, "active"), Some(true));
    let items = p.get("items").unwrap().as_array().unwrap();
    assert_eq!(items.len(), 2);
    assert_eq!(items[0].str_at("name"), Some("当前时段"));
    assert_eq!(double_at(&items[0], "used_percent"), Some(80.0));
    assert_eq!(bool_at(&items[0], "exhausted"), Some(false));
    assert_eq!(items[1].str_at("name"), Some("近 7 天"));
    assert_eq!(bool_at(&items[1], "exhausted"), Some(true));
}

#[test]
fn parse_quota_fallback_dig() {
    let resp = json(
        "{\"result\":{\"vip_level\":\"Gold\",\"due_time\":\"2027-01-02 03:04:05\",\"plans\":[\
         {\"item_name\":\"图片\",\"total_count\":100,\"remaining\":40},\
         {\"item_name\":\"视频\",\"total_count\":10,\"used\":3}]}}",
    );
    let p = parse_quota(&resp);
    assert_eq!(p.str_at("level"), Some("Gold"));
    assert_eq!(p.str_at("expire_at"), Some("2027-01-02 03:04"));
    let items = p.get("items").unwrap().as_array().unwrap();
    assert_eq!(items.len(), 2);
    assert_eq!(items[0].str_at("name"), Some("图片"));
    assert_eq!(double_at(&items[0], "total"), Some(100.0));
    assert_eq!(double_at(&items[0], "left"), Some(40.0));
    assert_eq!(double_at(&items[1], "used"), Some(3.0));
}

#[test]
fn fmt_ts_variants() {
    assert_eq!(fmt_ts(&json("\"2027-01-02 03:04:05\"")), Some("2027-01-02 03:04".into()));
    assert_eq!(fmt_ts(&json("\"2027-01-02\"")), Some("2027-01-02 00:00".into()));
    assert_eq!(fmt_ts(&json("\"2027/01/02\"")), Some("2027-01-02 00:00".into()));
    let got = fmt_ts(&json("1800000000"));
    assert!(got.is_some());
    assert_eq!(fmt_ts(&json("\"\"")), None);
    assert_eq!(fmt_ts(&Json::Null), None);
    assert_eq!(fmt_ts(&json("\"不是日期\"")), Some("不是日期".into()));
}

#[test]
fn summarize_windows_first() {
    let parsed = json(
        "{\"items\":[{\"name\":\"当前时段\",\"used_percent\":80.0,\"reset_at\":\"2026-09-13 20:32\"},\
         {\"name\":\"近 7 天\",\"used_percent\":100.0},{\"name\":\"图片\",\"total\":100,\"left\":40}]}",
    );
    let s = summarize_parsed(&parsed).unwrap();
    assert!(s.contains("当前时段 已用 80%"));
    assert!(s.contains("（09-13 20:32 重置）"));
    assert!(s.contains("近 7 天 已用完"));
    assert!(s.contains("图片 40/100"));
    assert_eq!(s.matches(" · ").count(), 2);
}

#[test]
fn summarize_empty_returns_none() {
    assert_eq!(summarize_parsed(&json("{\"items\":[]}")), None);
    assert_eq!(summarize_parsed(&json("{}")), None);
}

#[test]
fn classify_error_by_status_and_code() {
    assert_eq!(classify_error(200, Some(1005)), ("PlanLimit", 43_200));
    assert_eq!(classify_error(429, None), ("SoftRate", 60));
    assert_eq!(classify_error(401, None), ("SessionDead", -1));
    assert_eq!(classify_error(404, None), ("NotFound", 60));
    assert_eq!(classify_error(502, None), ("Server", 600));
    assert_eq!(classify_error(403, None), ("Client", 600));
    assert_eq!(classify_error(200, Some(7)), ("BusinessError", 300));
    assert_eq!(classify_error(0, None), ("Unknown", 0));
}

#[test]
fn parse_claim_reward_by_priority() {
    assert_eq!(parse_claim_reward(Some(&json("{\"reward\":10}"))), Some(10));
    assert_eq!(parse_claim_reward(Some(&json("{\"data\":{\"delta\":5},\"credits\":99}"))), Some(5));
    assert_eq!(parse_claim_reward(Some(&json("{\"delta\":\"8\"}"))), Some(8));
    assert_eq!(parse_claim_reward(Some(&json("{\"delta\":3.0}"))), Some(3));
    assert_eq!(parse_claim_reward(Some(&json("{\"delta\":3.5}"))), None);
    assert_eq!(parse_claim_reward(Some(&json("{\"delta\":-1}"))), None);
    assert_eq!(parse_claim_reward(Some(&json("{\"reward\":true}"))), None);
    assert_eq!(parse_claim_reward(Some(&json("{\"other\":1}"))), None);
    assert_eq!(parse_claim_reward(None), None);
}

#[test]
fn resolve_claim_credits_in_three_layers() {
    let (c, d, s) = resolve_claim_credits(Some(&json("{\"reward\":5}")), Some(100), None);
    assert_eq!((c, d, s.as_str()), (Some(100), 5, "claim_reward"));
    let (c, d, s) = resolve_claim_credits(Some(&json("{}")), Some(100), Some((true, Some(105))));
    assert_eq!((c, d, s.as_str()), (Some(105), 5, "balance_diff"));
    let (c, d, s) = resolve_claim_credits(Some(&json("{}")), Some(100), Some((true, Some(90))));
    assert_eq!((c, d, s.as_str()), (Some(100), 100, "legacy"));
    let (c, d, s) = resolve_claim_credits(Some(&json("{}")), None, None);
    assert_eq!((c, d, s.as_str()), (None, 0, "legacy"));
}

#[test]
fn int_candidate_is_tolerant() {
    assert_eq!(int_candidate(&json("12")), Some(12));
    assert_eq!(int_candidate(&json("12.0")), Some(12));
    assert_eq!(int_candidate(&json("\"30\"")), Some(30));
    assert_eq!(int_candidate(&json("true")), None);
    assert_eq!(int_candidate(&json("-5")), None);
    assert_eq!(int_candidate(&json("null")), None);
}

#[test]
fn py_truthy_like_python_bool() {
    assert!(!py_truthy(&json("0")));
    assert!(py_truthy(&json("1")));
    assert!(!py_truthy(&json("\"\"")));
    assert!(!py_truthy(&json("null")));
    assert!(py_truthy(&json("\"0\"")));
}

#[test]
fn displayicon_ps_replace() {
    assert_eq!(icon_path("C:\\x\\Doubao.exe,0"), "C:\\x\\Doubao.exe0");
}
