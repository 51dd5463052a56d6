use std::io::Write;

use aiwork::device_proxy::ca::{ensure_ca, legacy_leaf, next_serial, CaSource, LeafCache, LEAF_CACHE_MAX};
use aiwork::device_proxy::capture::{
    clear_cooldown, is_new_session, tokens_in, try_capture_doubao_credentials, try_capture_refresh_token,
    update_account_jwt, update_account_jwt_and_refresh, user_in_list, TokenCapture,
};
use aiwork::device_proxy::handler::{
    auth_header_value, enter_line, forward_body, forward_headers, forward_upstream, keeps_open, read_end_line,
    refuse, response_line, rewrite_signin, serve_mitm, websocket_line, Device, Failure, MitmAction, ProxyCtx,
    ReadEnd, Relay, StreamEvent, SIGNIN_PATH,
};
use aiwork::device_proxy::http::{
    body_plan, end_chunk, frame_chunk, head_step, parse_head, response_head, stream_head, BodyPlan, ChunkDecoder,
    ChunkStep, HeadStep, RawRequest,
};
use aiwork::device_proxy::logger::{
    decompress_body, extract_sse_summary, log_line, log_request, log_websocket, mask_header_value,
    ws_extract_strings, ws_hexdump, Exchange, RollingState,
};
use aiwork::device_proxy::server::{
    account_uids, connect_line, default_targets, dispatch, handle_plain, handshake_line, next_route, overload_line,
    parse_place, plain_response_line, plan_plain, read_head, refuse_plain, sync_account_devices, tunnel_line,
    Dispatch, DispatchStep, PrefixedStream, ProxyConfig, Route, Tried, UpstreamProxy, UriParts,
};
use aiwork::json::{print_json, read_json, Json};
use base64::Engine;

fn json(text: &str) -> Json {
    match read_json(text) {
        Ok(v) => v,
        Err(e) => panic!("{e}"),
    }
}

fn pairs(list: &[(&str, &str)]) -> Vec<(String, String)> {
    list.iter().map(|(k, v)| (k.to_string(), v.to_string())).collect()
}

fn request(method: &str, path: &str, headers: &[(&str, &str)], body: &[u8]) -> RawRequest {
    RawRequest { method: method.into(), path: path.into(), headers: pairs(headers), body: body.to_vec() }
}

fn ctx() -> ProxyCtx {
    ProxyCtx { targets: vec!["trae.cn".into(), "e2e.test".into()], auto_capture_jwt: true, pin_state: Vec::new() }
}

fn b64(text: &str) -> String {
    base64::engine::general_purpose::URL_SAFE_NO_PAD.encode(text.as_bytes())
}

fn token(uid: &str, exp: i64) -> String {
    format!(
        "{}.{}.sig",
        b64("{\"alg\":\"RS256\"}"),
        b64(&format!("{{\"data\":{{\"id\":\"{uid}\"}},\"exp\":{exp}}}"))
    )
}

// ---- requests and chunks ----

#[test]
fn heads_are_read_step_by_step() {
    assert!(matches!(head_step(b"GET", false), HeadStep::More));
    assert!(matches!(head_step(b"GET", true), HeadStep::Closed));
    assert!(matches!(head_step(b"ab\r\n\r\nx", true), HeadStep::At(2)));
    match head_step(&vec![b'a'; 10 * 1024 * 1024 + 1], false) {
        HeadStep::TooLong(m) => assert_eq!(m, "请求头缓冲区超限 (10485761)"),
        _ => panic!("too long"),
    }
}

#[test]
fn heads_become_requests() {
    let r = parse_head(b"POST /a?b=1 HTTP/1.1\r\nHost:  x \r\nno colon\r\nX: a:b\r\n\r\n");
    assert_eq!((r.method.as_str(), r.path.as_str()), ("POST", "/a?b=1"));
    assert_eq!(r.headers, pairs(&[("Host", "x"), ("X", "a:b")]));
    let bare = parse_head(b"GET\r\n\r\n");
    assert_eq!((bare.method.as_str(), bare.path.as_str()), ("GET", "/"));
}

#[test]
fn bodies_are_chunked_or_have_a_length() {
    assert!(matches!(body_plan(&pairs(&[("Transfer-Encoding", "gzip, Chunked"), ("Content-Length", "5")])), BodyPlan::Chunked));
    assert!(matches!(body_plan(&pairs(&[("content-length", " 5 ")])), BodyPlan::Length(5)));
    assert!(matches!(body_plan(&pairs(&[("content-length", "5"), ("Content-Length", "6")])), BodyPlan::Length(6)));
    assert!(matches!(body_plan(&pairs(&[("content-length", "x")])), BodyPlan::Length(0)));
    assert!(matches!(body_plan(&pairs(&[("content-length", "67108864")])), BodyPlan::Length(67108864)));
    match body_plan(&pairs(&[("content-length", "67108865")])) {
        BodyPlan::TooLarge(m) => assert_eq!(m, "请求体超限 (67108865 > 67108864)"),
        _ => panic!("too large"),
    }
}

fn decode(bytes: &[u8]) -> Result<Vec<u8>, String> {
    let mut d = ChunkDecoder::new(Vec::new());
    for b in bytes {
        d.feed(&[*b]);
        match d.step(false) {
            ChunkStep::More => {}
            ChunkStep::Done => return Ok(d.out),
            ChunkStep::Fail(m) => return Err(m),
        }
    }
    match d.step(true) {
        ChunkStep::Fail(m) => Err(m),
        _ => panic!("end"),
    }
}

#[test]
fn chunks_are_put_together() {
    assert_eq!(decode(b"4\r\nWiki\r\n5;ext=1\r\npedia\r\n0\r\n\r\n"), Ok(b"Wikipedia".to_vec()));
    assert_eq!(decode(b"zz\r\n"), Err("非法 chunk size: zz\r\n".into()));
    assert_eq!(decode(b"4\r\nWi"), Err("chunked body 意外 EOF".into()));
    assert_eq!(decode(b"4000001\r\n"), Err("chunked 请求体超限".into()));
    let mut d = ChunkDecoder::new(vec![b'1'; 1024 * 1024 + 1]);
    match d.step(false) {
        ChunkStep::Fail(m) => assert_eq!(m, "chunk size 行超限"),
        _ => panic!("line"),
    }
}

#[test]
fn what_is_sent_in_chunks_is_read_back() {
    let mut sent = Vec::new();
    for piece in [&b"hello "[..], &vec![7u8; 300][..], &b"!"[..]] {
        sent.extend(frame_chunk(piece));
    }
    sent.extend(end_chunk());
    assert!(sent.starts_with(b"6\r\nhello \r\n12c\r\n"));
    let got = decode(&sent).unwrap();
    assert_eq!(got.len(), 307);
    assert!(got.starts_with(b"hello \x07"));
}

#[test]
fn heads_of_responses() {
    let h = pairs(&[("Set-Cookie", "a"), ("Set-Cookie", "b"), ("CONNECTION", "close"), ("Content-Length", "9")]);
    assert_eq!(
        response_head(200, "OK", &h, 3),
        "HTTP/1.1 200 OK\r\nSet-Cookie: a\r\nSet-Cookie: b\r\nContent-Length: 3\r\nConnection: keep-alive\r\n\r\n"
    );
    assert_eq!(
        stream_head(200, "OK", &pairs(&[("X", "1"), ("Transfer-Encoding", "x")])),
        "HTTP/1.1 200 OK\r\nX: 1\r\nTransfer-Encoding: chunked\r\nConnection: keep-alive\r\n\r\n"
    );
}

// ---- hosts ----

#[test]
fn hosts_are_watched_by_suffix() {
    let c = ctx();
    assert!(c.host_in_targets("trae.cn"));
    assert!(c.host_in_targets("API.Trae.CN"));
    assert!(!c.host_in_targets("xtrae.cn"));
    assert!(!c.host_in_targets("trae.cn.evil"));
    assert_eq!(c.classify_path("/x/oauth/y"), Some("OAuth"));
    assert_eq!(c.classify_path("/x"), None);
}

#[test]
fn hosts_are_pinned_after_three_broken_handshakes() {
    let mut c = ctx();
    assert!(!c.note_handshake_fail("a"));
    assert!(!c.note_handshake_fail("a"));
    c.note_handshake_ok("a");
    assert!(!c.note_handshake_fail("a"));
    assert!(!c.note_handshake_fail("a"));
    assert!(!c.is_pinned("a"));
    assert!(c.note_handshake_fail("a"));
    assert!(c.is_pinned("a"));
    assert!(!c.note_handshake_fail("a"));
    assert!(!c.is_pinned("b"));
    c.note_handshake_ok("a");
    assert!(!c.is_pinned("a"));
}

#[test]
fn connections_are_dispatched_by_their_head() {
    let mut c = ctx();
    match dispatch(&c, b"CONNECT api.trae.cn:8443 HTTP/1.1\r\n\r\n") {
        Dispatch::Mitm { place, domain } => {
            assert_eq!((place.host.as_str(), place.port, domain.as_str()), ("api.trae.cn", 8443, "trae.cn"));
            assert_eq!(connect_line(&place, &domain), "CONNECT api.trae.cn:8443  [TRAE/MITM] 匹配域名: trae.cn");
            assert_eq!(handshake_line(&place, Some("eof")), "  [MITM] TLS 握手失败 api.trae.cn:8443: eof");
            assert_eq!(handshake_line(&place, None), "  [MITM] TLS 握手超时 (30s) api.trae.cn:8443");
        }
        _ => panic!("mitm"),
    }
    match dispatch(&c, b"connect API.trae.cn HTTP/1.1\r\n\r\n") {
        Dispatch::Mitm { place, domain } => assert_eq!((place.port, domain.as_str()), (443, "trae.cn")),
        _ => panic!("mitm"),
    }
    match dispatch(&c, b"CONNECT TRAE.CN:443 HTTP/1.1\r\n\r\n") {
        Dispatch::Mitm { domain, .. } => assert_eq!(domain, "?"),
        _ => panic!("mitm"),
    }
    assert!(matches!(dispatch(&c, b"CONNECT other.com:1 HTTP/1.1\r\n"), Dispatch::Tunnel(_)));
    assert!(matches!(dispatch(&c, b"GET http://trae.cn/ HTTP/1.1\r\n"), Dispatch::Plain));
    assert!(matches!(dispatch(&c, b""), Dispatch::Plain));
    for _ in 0..3 {
        c.note_handshake_fail("api.trae.cn");
    }
    assert!(matches!(dispatch(&c, b"CONNECT api.trae.cn:443 HTTP/1.1\r\n\r\n"), Dispatch::Tunnel(_)));
}

#[test]
fn places_of_tunnels() {
    let p = parse_place("[::1]:80");
    assert_eq!((p.host.as_str(), p.port), ("[::1]", 80));
    assert_eq!(parse_place("h:99999").port, 443);
    assert_eq!(parse_place("h").port, 443);
}

#[test]
fn heads_are_read_before_dispatch() {
    assert!(matches!(read_head(b"GET", false, true), DispatchStep::More));
    assert!(matches!(read_head(b"GET", true, false), DispatchStep::Ready));
    assert!(matches!(read_head(b"G\r\n\r\n", false, true), DispatchStep::Ready));
    match read_head(&vec![b'a'; 65537], false, true) {
        DispatchStep::TooLong(m) => assert_eq!(m, "请求头超过分发缓冲上限 (65536)"),
        _ => panic!("long"),
    }
    assert_eq!(overload_line(127, "p"), None);
    assert_eq!(overload_line(128, "p"), Some("[overload] 并发连接已达上限 128，拒绝来自 p 的新连接".into()));
}

// ---- routes ----

#[test]
fn target_plain_http_routes_via_upstream() {
    let c = ctx();
    let req = request("GET", "http://api.e2e.test:8080/ping", &[("Host", "api.e2e.test")], b"");
    let plan = handle_plain(&c, &req, true).unwrap();
    assert!(matches!(plan.route, Route::Upstream) && plan.method == req.method);
    assert!(plan.watched);
    assert_eq!((plan.host.as_str(), plan.port, plan.path.as_str()), ("api.e2e.test", 8080, "/ping"));
    assert_eq!(plan.line.as_deref(), Some("  [plain] GET http://api.e2e.test:8080/ping"));
    assert!(matches!(next_route(true, &Tried::Nothing), Route::Upstream));
}

#[test]
fn nontarget_plain_http_routes_via_upstream() {
    let plan = handle_plain(&ctx(), &request("GET", "http://other.example.com/ping", &[], b"x"), true).unwrap();
    assert!(matches!(plan.route, Route::Upstream) && plan.method == "GET");
    assert!(!plan.watched && plan.line.is_none() && plan.body.is_empty());
    assert_eq!(plan.port, 80);
    assert!(matches!(next_route(true, &Tried::Nothing), Route::Upstream));
    assert!(matches!(next_route(false, &Tried::Nothing), Route::Direct));
}

#[test]
fn connect_tunnel_routes_via_upstream() {
    assert!(matches!(dispatch(&ctx(), b"CONNECT tunnel.example.com:80 HTTP/1.1\r\n\r\n"), Dispatch::Tunnel(_)));
    let up = UpstreamProxy::Http("127.0.0.1:7890".into());
    assert_eq!(tunnel_line(&up, "h", 443, None), "  [raw-tunnel] 经上游代理 127.0.0.1:7890 建立隧道 h:443");
    assert_eq!(tunnel_line(&up, "h", 443, Some("e")), "  [raw-tunnel] 上游代理连接失败(e)，回退直连");
    assert!(matches!(next_route(true, &Tried::Nothing), Route::Upstream));
}

#[test]
fn upstream_down_plain_returns_502() {
    assert!(matches!(next_route(true, &Tried::UpstreamFailed), Route::Direct));
    let r = refuse_plain(&Failure::Error("refused".into()), "api.e2e.test", "/ping");
    assert_eq!((r.status, r.reason), (502, "Bad Gateway"));
    assert_eq!(r.line, "  [plain] 错误: refused (host=api.e2e.test, path=/ping)");
    let t = refuse_plain(&Failure::Timeout, "h", "/");
    assert_eq!((t.status, t.line.as_str()), (504, "  [plain] 错误: 上游超时 (30s) (host=h, path=/)"));
    assert_eq!(refuse_plain(&Failure::Body("b".into()), "h", "/").line, "  [plain] 错误: 读上游响应失败: b (host=h, path=/)");
}

#[test]
fn upstream_down_connect_tunnel_returns_502() {
    assert!(matches!(next_route(true, &Tried::UpstreamFailed), Route::Direct));
    assert!(matches!(next_route(true, &Tried::DirectFailed), Route::Refused));
    assert!(matches!(next_route(false, &Tried::DirectFailed), Route::Refused));
}

#[test]
fn plain_requests_need_an_address() {
    let c = ctx();
    assert!(handle_plain(&c, &request("GET", "/ping", &[], b""), true).is_none());
    assert!(handle_plain(&c, &request("GET", "http://a b/", &[], b""), true).is_none());
    let https = handle_plain(&c, &request("POST", "https://h", &[("Connection", "x"), ("A", "b")], b"body"), true).unwrap();
    let direct = handle_plain(&c, &request("PUT", "http://api.e2e.test/", &[], b""), false).unwrap();
    assert!(matches!(direct.route, Route::Direct) && direct.method == "PUT");
    assert_eq!((https.port, https.path.as_str(), https.scheme.as_str()), (443, "/", "https"));
    assert_eq!(https.headers, pairs(&[("A", "b")]));
    assert_eq!(https.body, b"body");
    let bare = UriParts { scheme: None, host: Some("h".into()), port: None, path: None };
    let plan = plan_plain(&c, &request("GET", "x", &[], b""), &bare, true).unwrap();
    assert_eq!((plan.scheme.as_str(), plan.port, plan.path.as_str()), ("http", 80, "/"));
    assert_eq!(plain_response_line(200, 5, "h", "/p"), "  [plain] <- 200 OK (5) bytes from h/p");
}

#[test]
fn prefixed_stream_replays_overflow_then_inner() {
    let mut s = PrefixedStream::new("inner", b"over".to_vec());
    assert_eq!(s.replay(16), b"over", "前缀字节优先回放");
    assert_eq!(s.replay(16), b"", "前缀耗尽后透传底层流");
    let mut t = PrefixedStream::new((), b"overflow".to_vec());
    assert_eq!(t.replay(4), b"over");
    assert_eq!(t.replay(0), b"");
    assert_eq!(t.replay(9), b"flow");
}

// ---- set-up ----

#[test]
fn set_up_and_banner() {
    let mut cfg = ProxyConfig {
        port: 8899,
        targets: Vec::new(),
        auto_capture_jwt: false,
        accounts_path: "acc".into(),
        cooldowns_path: String::new(),
        doubao_cred_path: String::new(),
        certs_dir: String::new(),
        log_path: String::new(),
        req_log_dir: "dir".into(),
        upstream: None,
    };
    assert_eq!(cfg.context().targets, default_targets());
    assert_eq!(default_targets().len(), 9);
    cfg.targets = vec!["A.com".into(), "b.CN".into()];
    assert_eq!(cfg.context().targets, vec!["a.com", "b.cn"]);
    let lines = cfg.banner();
    assert_eq!(lines.len(), 8);
    assert_eq!(lines[0], "代理已启动: 127.0.0.1:8899  (TRAE 多域 MITM 拦截 + JWT 自动捕获)");
    assert_eq!(lines[1], "监听 TRAE 域名: *.a.com, *.b.cn");
    assert_eq!(lines[6], "自动捕获 JWT 写回 accounts.json: 关");
    cfg.upstream = Some(UpstreamProxy::Socks5("s:1".into()));
    assert_eq!(cfg.banner()[7], "上游代理(用户VPN)透传: s:1");
}

#[test]
fn sync_refreshes_placeholder_devices() {
    let accounts = vec![
        json("{\"name\":\"a\",\"UserID\":\"4487568582777872\",\"device_id\":\"222222222222222\",\"session_id\":\"55555555555555555555555555555555\"}"),
        json("{\"name\":\"b\",\"user_id\":12345,\"device_id\":\"222222222222222\"}"),
        json("{\"name\":\"c\"}"),
    ];
    let uids = account_uids(&accounts);
    assert_eq!(uids, vec![Some("4487568582777872".to_string()), Some("12345".to_string()), None]);
    let device = |u: &String| Device {
        device_id: format!("dev-{u}"),
        market_user_id: Some(format!("m-{u}")),
        session_id: None,
    };
    let devices: Vec<Option<Device>> = uids.iter().map(|u| u.as_ref().map(device)).collect();
    let (synced, changed) = sync_account_devices(&accounts, &devices);
    assert!(changed);
    assert_eq!(synced[0].str_at("device_id"), Some("dev-4487568582777872"));
    assert!(synced[0].get("session_id").unwrap().is_null());
    assert_eq!(synced[1].str_at("device_id"), Some("dev-12345"));
    assert_eq!(print_json(&synced[2]), "{\"name\":\"c\"}");
    let (again, changed) = sync_account_devices(&synced, &devices);
    assert!(!changed);
    for (a, b) in again.iter().zip(synced.iter()) {
        assert_eq!(print_json(a), print_json(b));
    }
}

#[test]
fn sync_tolerates_missing_accounts() {
    let (synced, changed) = sync_account_devices(&Vec::new(), &Vec::new());
    assert!(synced.is_empty() && !changed);
}

#[test]
fn certificates_at_hand() {
    assert_eq!(next_serial(0, 1), 1 << 24);
    assert_ne!(next_serial(77, 1), next_serial(77, 2));
    let mut c: LeafCache<u32> = LeafCache::new();
    for i in 0..LEAF_CACHE_MAX {
        c.insert(&format!("h{i}"), i as u32);
    }
    assert_eq!(c.get("h0"), Some(&0));
    c.insert("new", 7);
    assert_eq!(c.get("new"), Some(&7));
    assert_eq!(c.get("h0"), None);
    assert!(legacy_leaf("leaf_a.crt") && legacy_leaf("leaf_.key"));
    assert!(!legacy_leaf("ca.crt") && !legacy_leaf("leaf_a.pem"));
    assert_eq!(ensure_ca(true, true), CaSource::Load);
    assert_eq!(ensure_ca(true, false), CaSource::Generate);
}

// ---- decrypted connections ----

#[test]
fn tokens_are_looked_for_in_three_headers() {
    let r = request("GET", "/", &[("X-Icube-Token", "c"), ("x-cloudide-token", "b"), ("Authorization", "  ")], b"");
    assert_eq!(auth_header_value(&r), Some("b".into()));
    assert_eq!(auth_header_value(&request("GET", "/", &[], b"")), None);
}

#[test]
fn requests_are_passed_on() {
    let r = request(
        "get",
        "/api/agent/v3/llm_utils_chat",
        &[("Host", "x"), ("Accept-Encoding", "br"), ("Proxy-Connection", "k"), ("X", "1")],
        b"body",
    );
    let p = forward_upstream("h", 443, &r);
    assert_eq!((p.uri.as_str(), p.host.as_str()), ("https://h:443/api/agent/v3/llm_utils_chat", "h:443"));
    assert_eq!(p.headers, pairs(&[("Accept-Encoding", "gzip, deflate"), ("X", "1")]));
    assert_eq!(p.method, "get");
    assert!(p.stream && p.timeout_secs == 300 && p.body.is_empty());
    assert_eq!(p.line, "  [forward] -> get https://h:443/api/agent/v3/llm_utils_chat (4 bytes body)");
    let q = forward_upstream("h", 1, &request("POST", "/", &[("Accept", "text/event-stream")], b"b"));
    assert!(q.stream && q.body == b"b");
    assert_eq!(forward_upstream("h", 1, &request("POST", "/", &[], b"")).timeout_secs, 30);
    assert_eq!(forward_headers(&pairs(&[("accept-encoding", "br")]), false), pairs(&[("accept-encoding", "br")]));
    assert!(forward_body(&request("GET", "/", &[], b"x")).is_empty());
}

#[test]
fn failures_are_answered() {
    let e = refuse(&Failure::Error("x".into()), 30, "h", "/p");
    assert_eq!((e.status, e.reason, e.line.as_str()), (502, "Bad Gateway", "  [forward] 错误: x (host=h, path=/p)"));
    let t = refuse(&Failure::Timeout, 300, "h", "/p");
    assert_eq!((t.status, t.reason, t.line.as_str()), (504, "Gateway Timeout", "  [forward] 超时 (timeout=300s): h/p"));
    let b = refuse(&Failure::Body("y".into()), 30, "h", "/p");
    assert_eq!((b.status, b.line.as_str()), (502, "  [forward] 读上游响应失败: y (host=h, path=/p)"));
    assert!(keeps_open(&pairs(&[("Connection", "keep-alive")])));
    assert!(!keeps_open(&pairs(&[("connection", "Close")])));
    assert_eq!(response_line(200, "OK", Some(5), "h", "/p"), "  [forward] <- 200 OK (5) bytes from h/p");
    assert_eq!(response_line(200, "OK", None, "h", "/p"), "  [forward] <- 200 OK (streaming) from h/p");
}

#[test]
fn streams_are_relayed() {
    let mut r = Relay::new();
    assert_eq!(r.step(&StreamEvent::Sent(b"abc".to_vec())), (true, None));
    assert_eq!(r.step(&StreamEvent::End), (false, None));
    assert_eq!(r.end_line(), "  [forward] 流式转发完成，共 3 bytes");
    assert_eq!(
        r.step(&StreamEvent::Broken("x".into())),
        (false, Some("  [forward] 流式转发中断: x (已转发 3 bytes)".into()))
    );
    assert!(r.interrupted);
    assert_eq!(r.end_line(), "  [forward] 流式转发中断，共 3 bytes");
    assert_eq!(r.logged, b"abc");
    let mut i = Relay::new();
    assert_eq!(i.step(&StreamEvent::Idle), (false, Some("  [forward] 流式空闲超时 (300s)，中断 (已转发 0 bytes)".into())));
    assert_eq!(Relay::new().step(&StreamEvent::ClientGone), (false, None));
    let mut big = Relay::new();
    big.step(&StreamEvent::Sent(vec![0; 10 * 1024 * 1024]));
    big.step(&StreamEvent::Sent(vec![0; 5]));
    assert_eq!((big.total, big.logged.len()), (10 * 1024 * 1024 + 5, 10 * 1024 * 1024));
}

#[test]
fn claims_are_rewritten() {
    let auth = format!("Cloud-IDE-JWT {}", token("77", 1893456000));
    let mut hinted = Vec::new();
    let req = request("POST", SIGNIN_PATH, &[("Authorization", &auth), ("X-Device-Id", "old")], b"");
    let plan = serve_mitm(&ctx(), "api.trae.cn", &req, &mut hinted);
    assert_eq!(plan.line, format!("  POST api.trae.cn{SIGNIN_PATH} [TRAE]  <签到领取>"));
    assert_eq!(plan.capture, Some(("77".into(), auth.clone())));
    assert_eq!(plan.hint.as_deref(), Some("  [JWT-DEBUG] 在 api.trae.cn 发现鉴权头 (类型: Cloud-IDE-JWT ✅可捕获: Cloud-IDE-JWT eyJh…)"));
    assert!(plan.note.is_none());
    match plan.action {
        MitmAction::Signin(u) => assert_eq!(u, "77"),
        _ => panic!("signin"),
    }
    assert!(serve_mitm(&ctx(), "api.trae.cn", &req, &mut hinted).hint.is_none());
    let mut req = req;
    let dev = Device { device_id: "d".into(), market_user_id: None, session_id: Some("s".into()) };
    let line = rewrite_signin(&mut req, "77", &dev);
    assert_eq!(line, "  [签到改写] uid=77 -> x-device-id=d x-market-user-id=无 vscode-sessionid=s");
    assert_eq!(req.hget("x-device-id"), Some("d"));
    assert_eq!(req.hget("vscode-sessionid"), Some("s"));
    assert_eq!(req.hget("x-market-user-id"), None);
    assert_eq!(req.headers.len(), 3);
}

#[test]
fn other_requests_are_left_alone() {
    let mut hinted = Vec::new();
    let req = request("GET", SIGNIN_PATH, &[("authorization", "Bearer x"), ("upgrade", "websocket")], b"");
    let plan = serve_mitm(&ctx(), "h", &req, &mut hinted);
    assert_eq!(plan.note.as_deref(), Some("  [签到] 未解析到 user id，未改写"));
    assert!(matches!(plan.action, MitmAction::WebSocket));
    assert!(plan.capture.is_none());
    assert_eq!(plan.hint.as_deref(), Some("  [JWT-DEBUG] 在 h 发现鉴权头 (类型: 其他/不可识别: Bearer x…)"));
    let mut off = ctx();
    off.auto_capture_jwt = false;
    let auth = token("7", 1);
    let quiet = serve_mitm(&off, "h2", &request("GET", "/", &[("authorization", &auth)], b""), &mut hinted);
    assert!(quiet.capture.is_none() && quiet.hint.is_none());
    assert!(matches!(quiet.action, MitmAction::Forward));
    assert_eq!(quiet.line, "  GET h2/");
    assert_eq!(websocket_line("h", 443, &req), format!("  [WebSocket] 检测到升级请求: GET h:443{SIGNIN_PATH} (Connection=?)"));
    assert_eq!(enter_line("h", 443), "  [MITM] 进入 HTTPS 解密隧道: h:443");
    assert_eq!(read_end_line(&ReadEnd::Timeout, "h", 1), "  [MITM] 读取 TLS 请求超时: h:1");
    assert_eq!(read_end_line(&ReadEnd::Closed, "h", 1), "  [MITM] 客户端关闭连接: h:1");
    assert_eq!(read_end_line(&ReadEnd::Error("e".into()), "h", 1), "  [MITM] 读取 TLS 请求错误: e");
}

// ---- captures ----

#[test]
fn expiry_never_goes_back() {
    let new = format!("Cloud-IDE-JWT {}", token("u", 2000000000));
    let old = format!("Cloud-IDE-JWT {}", token("u", 1900000000));
    let cfg = json(&format!("{{\"accounts\":[{{\"name\":\"n\",\"UserID\":\"u\",\"jwt\":\"{new}\"}},{{\"UserID\":\"v\"}}]}}"));
    let r = update_account_jwt(&cfg, "u", &old, "now");
    assert_eq!(r.status.as_str(), "skipped");
    assert!(!r.write);
    assert_eq!(r.lines.len(), 1);
    assert!(r.lines[0].starts_with("  [JWT 跳过(更旧)] uid=u 账号=n 旧 exp=2033-"));
    assert_eq!(print_json(&r.cfg), print_json(&cfg));
    let same = update_account_jwt(&cfg, "u", &new, "now");
    assert_eq!(same.status.as_str(), "unchanged");
    assert!(same.lines.is_empty());
    let rt = update_account_jwt_and_refresh(&cfg, "u", &old, Some("rt"), "now");
    assert_eq!(rt.status.as_str(), "skipped");
    assert!(rt.write);
    assert_eq!(rt.lines[1], "  [refresh_token 更新] uid=u 账号=n");
    let list = rt.cfg.get("accounts").unwrap().as_array().unwrap();
    assert_eq!(list[0].str_at("jwt"), Some(new.as_str()));
    assert_eq!(list[0].str_at("refresh_token"), Some("rt"));
    assert_eq!(print_json(&list[1]), "{\"UserID\":\"v\"}");
}

#[test]
fn users_that_are_new_get_an_account() {
    let r = update_account_jwt_and_refresh(&Json::Null, "123456789", "no-expiry", Some("rt"), "now");
    assert_eq!(r.status.as_str(), "appended");
    assert_eq!(r.lines, vec!["  [JWT 自动追加新账号] user=123456789 -> name=auto_12345678 exp=?"]);
    assert_eq!(
        print_json(&r.cfg),
        "{\"accounts\":[{\"UserID\":\"123456789\",\"added_at\":\"now\",\"jwt\":\"no-expiry\",\"name\":\"auto_12345678\",\"refresh_token\":\"rt\",\"refresh_token_updated_at\":\"now\"}]}"
    );
}

#[test]
fn cooldowns_are_lifted() {
    let list = vec![("a".to_string(), json("1")), ("b".to_string(), json("2"))];
    let (rest, line) = clear_cooldown(&list, "a").unwrap();
    assert_eq!(rest.len(), 1);
    assert_eq!(line, "  [冷却解除] uid=a（新 JWT 捕获成功，自动解除登录失效标记）");
    assert!(clear_cooldown(&list, "c").is_none());
}

#[test]
fn refresh_tokens_are_captured() {
    let tok = token("9", 1893456000);
    let body = format!("{{\"data\":{{\"refresh_token\":\"rt\",\"access_token\":\"{tok}\"}}}}");
    match try_capture_refresh_token("/x/ExchangeToken", body.as_bytes()) {
        TokenCapture::Found { user_id, jwt, refresh_token } => {
            assert_eq!((user_id.as_str(), refresh_token.as_str()), ("9", "rt"));
            assert_eq!(jwt, format!("Cloud-IDE-JWT {tok}"));
        }
        _ => panic!("found"),
    }
    assert!(matches!(try_capture_refresh_token("/other", body.as_bytes()), TokenCapture::Nothing));
    assert!(matches!(try_capture_refresh_token("/OAuth/x", b"{\"a\":1}"), TokenCapture::Nothing));
    assert!(matches!(tokens_in(&json("{\"refresh_token\":\"r\"}")), TokenCapture::NoUser));
    assert!(matches!(tokens_in(&json("{\"refresh_token\":\"r\",\"token\":\"x.y.z\"}")), TokenCapture::NoUser));
}

#[test]
fn sessions_are_captured() {
    let req = pairs(&[("Cookie", "sessionid=\"sid1\"; multi_sids=5%3Aother%7C77%3Asid1; ttwid=tt")]);
    let resp = pairs(&[("Set-Cookie", "sid_guard=g%7C1; Path=/"), ("set-cookie", "ttwid=zz"), ("set-cookie", "x=y")]);
    let c = try_capture_doubao_credentials("WWW.doubao.com", &req, &resp).unwrap();
    assert_eq!((c.session_id.as_str(), c.sid_guard.as_str(), c.ttwid.as_str()), ("sid1", "g%7C1", "tt"));
    assert_eq!((c.uid.as_str(), c.host.as_str()), ("77", "www.doubao.com"));
    assert_eq!(c.line(), "  [doubao] 抓到会话凭证: sessionid=4 字符，sid_guard=5 字符，ttwid=2 字符，uid=77");
    assert_eq!(
        print_json(&c.record("t")),
        "{\"captured_at\":\"t\",\"host\":\"www.doubao.com\",\"session_id\":\"sid1\",\"sid_guard\":\"g%7C1\",\"ttwid\":\"tt\",\"uid\":\"77\"}"
    );
    assert!(try_capture_doubao_credentials("doubao.com", &req, &resp).is_none());
    assert!(try_capture_doubao_credentials("a.doubao.com", &pairs(&[]), &resp).is_none());
    let d = try_capture_doubao_credentials("b.doubao.com", &req, &resp).unwrap();
    assert!(is_new_session(&None, &c));
    assert!(!is_new_session(&Some(c), &d));
    let e = try_capture_doubao_credentials("b.doubao.com", &pairs(&[("cookie", "sessionid=s")]), &pairs(&[])).unwrap();
    assert!(is_new_session(&Some(d), &e));
    assert_eq!(e.line(), "  [doubao] 抓到会话凭证: sessionid=1 字符（uid 未识别）");
    assert_eq!(user_in_list("a:s;1 : s |2:s", "s"), "1");
}

// ---- logs ----

fn zlib(bytes: &[u8]) -> Vec<u8> {
    let mut e = flate2::write::ZlibEncoder::new(Vec::new(), flate2::Compression::default());
    e.write_all(bytes).unwrap();
    e.finish().unwrap()
}

fn deflate(bytes: &[u8]) -> Vec<u8> {
    let mut e = flate2::write::DeflateEncoder::new(Vec::new(), flate2::Compression::default());
    e.write_all(bytes).unwrap();
    e.finish().unwrap()
}

#[test]
fn bodies_are_decompressed_for_the_log() {
    let h = pairs(&[("content-encoding", "Deflate")]);
    assert_eq!(decompress_body(&zlib(b"hello hello"), &h), b"hello hello");
    assert_eq!(decompress_body(&deflate(b"hello hello"), &h), b"hello hello");
    assert_eq!(decompress_body(b"plain", &pairs(&[("content-encoding", "gzip")])), b"plain");
    assert_eq!(decompress_body(b"plain", &pairs(&[])), b"plain");
}

#[test]
fn exchanges_are_logged_with_masks() {
    let x = Exchange {
        method: "POST".into(),
        host: "h".into(),
        path: "/p".into(),
        req_headers: pairs(&[("Cookie", "secret-cookie"), ("X", "1")]),
        req_body: b"{\"token\":\"t0ps3cret\"}".to_vec(),
        status: 200,
        reason: "OK".into(),
        resp_headers: pairs(&[("Content-Type", "text/plain")]),
        resp_body: b"password=hunter2".to_vec(),
    };
    let s = log_request("T", &x);
    assert!(!s.contains("secret-cookie") && !s.contains("t0ps3cret") && !s.contains("hunter2"));
    assert!(s.contains("POST h/p") && s.contains("--- Response: 200 OK ---"));
    let w = log_websocket("T", "h", "/ws", &pairs(&[("Authorization", "short")]));
    assert!(w.contains("[WebSocket Upgrade] h/ws") && !w.contains("short"));
    assert_eq!(mask_header_value("COOKIE", "0123456789abcdefg"), "01234567…defg");
    assert_eq!(mask_header_value("cookie", "0123456789abcdef"), "***");
}

#[test]
fn lines_are_stamped_and_files_rolled() {
    let l = log_line("12:00:00", "  [JWT 自动更新] user=12345678 x", 10 * 1024 * 1024);
    assert!(l.rotate);
    assert_eq!(l.stamped, "[12:00:00]   [JWT 自动更新] user=12345678 x");
    assert_eq!(l.captured.as_deref(), Some("12345678"));
    assert!(!log_line("t", "x", 10 * 1024 * 1024 - 1).rotate);
    let mut s = RollingState::new();
    assert!(!s.begin("2026-09-13", 100));
    assert_eq!(s.file_name(), "proxy_req_2026-09-13.log");
    assert!(!s.offer(100, 100));
    assert_eq!(s.file_name(), "proxy_req_2026-09-13.log.1");
    assert!(s.offer(40, 100));
    assert!(s.begin("2026-09-13", 100));
    s.wrote(60);
    assert!(!s.begin("2026-09-13", 100));
    assert_eq!(s.file_name(), "proxy_req_2026-09-13.log.1");
    assert!(!s.begin("2026-09-14", 100));
    assert_eq!(s.file_name(), "proxy_req_2026-09-14.log");
}

#[test]
fn frames_are_shown() {
    assert_eq!(ws_extract_strings(b"\x00hello\x01ab\x02world!", 4, 10), vec!["hello", "world!"]);
    assert_eq!(ws_extract_strings(b"aaaa\x00bbbb\x00cccc", 4, 2), vec!["aaaa", "bbbb"]);
    assert!(ws_hexdump(&[0u8; 40], 20).lines().count() >= 2);
    assert!(extract_sse_summary(&pairs(&[("content-type", "text/html")]), b"event: x").is_none());
}
