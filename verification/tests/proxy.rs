use std::io::Write;

use aiwork::commands::oauth_loopback::html_response;
use aiwork::device_proxy::capture::{
    doubao_uid_from_multi_sids, parse_cookie_header, update_account_jwt, update_account_jwt_and_refresh,
};
use aiwork::device_proxy::http::{find_head_end, head_after_head_end, reason_phrase, RawRequest};
use aiwork::device_proxy::logger::{
    decompress_body, extract_sse_summary, extract_uid, mask_body, mask_header_value, ws_hexdump,
};
use aiwork::json::{read_json, Json};
use aiwork::jwt::{extract_user_id, valid_cloud_ide_jwt};
use base64::Engine;

fn json(text: &str) -> Json {
    match read_json(text) {
        Ok(v) => v,
        Err(e) => panic!("{e}"),
    }
}

fn b64(text: &str) -> String {
    base64::engine::general_purpose::URL_SAFE_NO_PAD.encode(text.as_bytes())
}

fn make_jwt(exp: i64) -> String {
    let header = b64("{\"alg\":\"RS256\",\"typ\":\"JWT\"}");
    let payload = b64(&format!("{{\"data\":{{\"id\":\"u-test\"}},\"exp\":{exp}}}"));
    format!("Cloud-IDE-JWT {header}.{payload}.sig")
}

#[test]
fn html_response_escapes_message_and_url() {
    let html = html_response(
        false,
        "兑换失败: <script>alert(1)</script>",
        "http://127.0.0.1:17388/authorize?code=ab&state=<img src=x onerror=alert(2)>",
    );
    assert!(!html.contains("<script>"));
    assert!(!html.contains("<img"));
    assert!(html.contains("&lt;script&gt;"));
    assert!(html.contains("&lt;img src=x onerror=alert(2)&gt;"));
    assert!(html.contains("登录失败"));
    assert!(html.contains("code=ab&amp;state="));
}

#[test]
fn html_response_success_page() {
    let html = html_response(true, "账号 [测试] 登录成功", "");
    assert!(html.contains("登录成功"));
    assert!(html.contains("账号 [测试] 登录成功"));
}

#[test]
fn jwt_validation_and_uid_extraction() {
    let header = b64("{\"alg\":\"RS256\",\"typ\":\"JWT\"}");
    let payload = b64("{\"data\":{\"id\":4487568582777872},\"exp\":1893456000}");
    let tok = format!("{header}.{payload}.c2ln");
    let valid = valid_cloud_ide_jwt(&tok);
    assert!(valid.is_some());
    assert_eq!(extract_user_id(&valid.unwrap()).unwrap(), "4487568582777872");
    let header2 = b64("{\"alg\":\"HS256\"}");
    assert!(valid_cloud_ide_jwt(&format!("{header2}.{payload}.sig")).is_none());
    assert_eq!(extract_user_id("Cloud-IDE-JWT abc.def.ghi"), None);
}

#[test]
fn parse_cookie_and_multi_sids() {
    let jar = parse_cookie_header("a=1; sessionid=\"abc\"; b=2");
    assert_eq!(jar.iter().find(|(k, _)| k == "sessionid").map(|(_, v)| v.as_str()), Some("abc"));
    let uid = doubao_uid_from_multi_sids("multi_sids=111%3AsidA%7C222%3AsidB; sessionid=sidB", "sidB");
    assert_eq!(uid, "222");
    assert_eq!(doubao_uid_from_multi_sids("multi_sids=111:sidA", "nope"), "");
}

#[test]
fn raw_request_header_ops() {
    let mut req = RawRequest {
        method: "GET".into(),
        path: "/".into(),
        headers: vec![("Host".into(), "a.com".into()), ("X-Token".into(), "old".into())],
        body: Vec::new(),
    };
    assert_eq!(req.hget("x-token"), Some("old"));
    req.hset("X-TOKEN", "new".into());
    assert_eq!(req.hget("x-token"), Some("new"));
    assert_eq!(req.headers.len(), 2);
    assert!(!req.is_websocket_upgrade());
    req.hset("Upgrade", "WebSocket".into());
    assert!(req.is_websocket_upgrade());
}

#[test]
fn find_head_end_positions() {
    assert_eq!(find_head_end(b"GET / HTTP/1.1\r\n\r\n"), Some(14));
    assert_eq!(find_head_end(b"partial"), None);
    assert_eq!(find_head_end(b"ab\r\n\r\n"), Some(2));
}

#[test]
fn reason_phrases() {
    assert_eq!(reason_phrase(200), "OK");
    assert_eq!(reason_phrase(502), "Bad Gateway");
    assert_eq!(reason_phrase(599), "");
}

#[test]
fn jwt_and_refresh_update_atomically() {
    let old_jwt = make_jwt(1893456000);
    let new_jwt = make_jwt(1893456000 + 3600);
    let cfg = json(&format!("{{\"accounts\":[{{\"name\":\"n\",\"UserID\":\"u-test\",\"jwt\":\"{old_jwt}\"}}]}}"));
    let done = update_account_jwt_and_refresh(&cfg, "u-test", &new_jwt, Some("rt-new"), "2026-09-13 10:00:00");
    assert_eq!(done.status.as_str(), "updated");
    assert!(done.write);
    let accounts = done.cfg.get("accounts").unwrap().as_array().unwrap();
    let acc = &accounts[0];
    assert_eq!(acc.str_at("jwt"), Some(new_jwt.as_str()), "JWT 应已更新");
    assert_eq!(acc.str_at("refresh_token"), Some("rt-new"), "refresh_token 应同次写盘更新");
    assert!(acc.str_at("refresh_token_updated_at").is_some());
}

#[test]
fn append_account_with_multibyte_uid() {
    let jwt = make_jwt(1893456000);
    let uid = "日本語ユーザー001";
    let done = update_account_jwt(&json("{}"), uid, &jwt, "2026-09-13 10:00:00");
    assert_eq!(done.status.as_str(), "appended");
    let accounts = done.cfg.get("accounts").unwrap().as_array().unwrap();
    let acc = &accounts[0];
    assert_eq!(acc.str_at("UserID"), Some(uid));
    assert_eq!(acc.str_at("name"), Some("auto_日本語ユーザー0"));
}

#[test]
fn masks_credentials_in_bodies() {
    let masked = mask_body("{\"access_token\":\"abc.def.ghi\",\"refresh_token\": \"xyz123\"}");
    assert!(masked.contains("\"access_token\":\"***\""));
    assert!(masked.contains("\"refresh_token\": \"***\""));
    assert!(!masked.contains("abc.def"));
    let masked2 = mask_body("{\"token\":\"jwt-plain\",\"client_secret\":\"cs-secret\",\"note\":\"keep\"}");
    assert!(masked2.contains("\"token\":\"***\""), "裸 token 键: {masked2}");
    assert!(masked2.contains("\"client_secret\":\"***\""), "client_secret: {masked2}");
    assert!(masked2.contains("keep"));
    assert!(!masked2.contains("jwt-plain"));
    assert!(!masked2.contains("cs-secret"));
    let masked3 = mask_body("token=abc.def&x=1");
    assert!(masked3.contains("token=\"***\""), "urlencoded: {masked3}");
}

#[test]
fn masks_sensitive_headers() {
    let long = mask_header_value("Authorization", "Cloud-IDE-JWT eyJhbGciOiJSUzI1NiJ9.sig");
    assert!(long.starts_with("Cloud-ID"));
    assert!(long.ends_with(".sig"));
    assert!(long.contains('…'));
    assert_eq!(mask_header_value("Cookie", "a=b"), "***");
    assert_eq!(mask_header_value("Content-Type", "application/json"), "application/json");
    let ide = mask_header_value("x-cloudide-token", "eyJhbGciOiJIUzI1NiJ9.payload.sig");
    assert!(!ide.contains("payload"), "x-cloudide-token 掩码: {ide}");
    let icube = mask_header_value("X-Icube-Token", "eyJhbGciOiJIUzI1NiJ9.p.s");
    assert!(!icube.contains("OiJIUzI1NiJ9"), "x-icube-token 掩码: {icube}");
    assert_ne!(icube, "eyJhbGciOiJIUzI1NiJ9.p.s", "x-icube-token 必须掩码");
}

#[test]
fn gzip_roundtrip_decompress() {
    let mut enc = flate2::write::GzEncoder::new(Vec::new(), flate2::Compression::default());
    enc.write_all(b"hello world").unwrap();
    let gz = enc.finish().unwrap();
    let headers = vec![("Content-Encoding".to_string(), "gzip".to_string())];
    assert_eq!(decompress_body(&gz, &headers), b"hello world");
}

#[test]
fn sse_summary_extraction() {
    let headers = vec![("Content-Type".to_string(), "text/event-stream".to_string())];
    let lines = [
        "event: metadata\n",
        "data: {\"model\":\"glm-5.3\",\"session_id\":\"abcdefghijklmnopqrst\"}\n",
        "event: output\n",
        "data: {}\n",
        "event: output\n",
        "data: {}\n",
        "event: token_usage\n",
        "data: {\"prompt_tokens\":10,\"completion_tokens\":20,\"total_tokens\":30}\n",
        "event: done\n",
        "data: {\"finish_reason\":\"stop\"}\n",
    ];
    let body = lines.concat();
    let s = extract_sse_summary(&headers, body.as_bytes()).expect("summary");
    let get = |k: &str| s.iter().find(|(ek, _)| ek == k).map(|(_, v)| v.clone());
    assert_eq!(get("model").as_deref(), Some("glm-5.3"));
    assert_eq!(get("session_id").as_deref(), Some("abcdefghijklmnop..."));
    assert_eq!(get("output_chunks").as_deref(), Some("2"));
    assert_eq!(get("total_tokens").as_deref(), Some("30"));
    assert_eq!(get("finish_reason").as_deref(), Some("stop"));
}

#[test]
fn uid_extraction_from_log_lines() {
    assert_eq!(
        extract_uid("  [JWT 自动更新] user=4487568582777872 exp=..."),
        Some("4487568582777872".into())
    );
    assert_eq!(extract_uid("  [签到改写] uid=4487568582777872 -> x-device-id=1"), None);
    assert_eq!(extract_uid("no user here"), None);
    assert_eq!(extract_uid("user=abc"), None);
}

#[test]
fn hexdump_format() {
    let s = ws_hexdump(b"AB", 400);
    assert!(s.contains("41 42"));
    assert!(s.contains("AB"));
}

#[test]
fn head_after_head_end_extracts_overflow() {
    assert_eq!(head_after_head_end(b"CONNECT a.com:443 HTTP/1.1\r\n\r\n"), b"");
    assert_eq!(head_after_head_end(b"GET / HTTP/1.1\r\nHost: a\r\n\r\nEXTRA-BYTES"), b"EXTRA-BYTES");
    assert_eq!(head_after_head_end(b"partial-no-head-end"), b"");
}
