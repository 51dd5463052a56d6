use aiwork::commands::oauth::{
    auth_token, code_exchange_body, collect_key_paths, default_client_id, default_client_secret,
    default_exchange_url, exchange_agent, exchange_code, exchange_diagnosis, exchange_token, finish_exchange,
    get_user_info, load_or_create_oauth_device, needs_user_info, oauth_client, oauth_get_login_url, oauth_login,
    oauth_parse_callback, pem_cert_der, pkce_challenge, random_hex, read_params, save_login, token_exchange_body,
    AgentPlan, Callback, LoginParts, OAuthCallbackInfo, OAuthClientConfig, OAuthDevice, OAuthLoginResult,
};
use aiwork::json::{print_json, read_json, Json};
use aiwork::models::RawAccount;
use base64::Engine;

fn json(text: &str) -> Json {
    match read_json(text) {
        Ok(v) => v,
        Err(e) => panic!("{e}"),
    }
}

fn failed(r: Result<Callback, String>) -> String {
    match r {
        Ok(_) => panic!("no error"),
        Err(e) => e,
    }
}

#[test]
fn clients_are_as_usual_where_nothing_is_stored() {
    let usual = OAuthClientConfig::default();
    assert_eq!(usual.client_id, default_client_id());
    assert_eq!(usual.client_secret, default_client_secret());
    assert_eq!(usual.exchange_url, default_exchange_url());
    let own = oauth_client(&json("{\"client_id\":\"x\"}"));
    assert_eq!((own.client_id.as_str(), own.client_secret.as_str()), ("x", "-"));
    assert_eq!(oauth_client(&json("{\"client_id\":5,\"client_secret\":\"s\"}")).client_secret, "-");
    assert_eq!(oauth_client(&Json::Null).client_id, "ono9krqynydwx5");
}

#[test]
fn certificates_are_read_out_of_their_text() {
    let pem = "junk\n-----BEGIN CERTIFICATE-----\nAQID\nBA==\n-----END CERTIFICATE-----\n";
    assert_eq!(pem_cert_der(pem), Ok(vec![1, 2, 3, 4]));
    assert_eq!(pem_cert_der("nothing"), Err("本地 CA 文件缺少 CERTIFICATE PEM 块".into()));
    let bad = pem_cert_der("-----BEGIN CERTIFICATE-----\n*\n-----END CERTIFICATE-----").unwrap_err();
    assert!(bad.starts_with("本地 CA base64 解码失败: "));
    assert!(bad.len() > "本地 CA base64 解码失败: ".len());
}

#[test]
fn exchanges_go_through_a_proxy_with_its_certificate() {
    assert!(matches!(exchange_agent(None, None), Ok(AgentPlan::Direct(None))));
    assert!(matches!(exchange_agent(Some("  "), Some("x")), Ok(AgentPlan::Direct(None))));
    assert!(matches!(exchange_agent(Some("127.0.0.1:8899"), None), Ok(AgentPlan::Direct(Some(_)))));
    let pem = "-----BEGIN CERTIFICATE-----AQID-----END CERTIFICATE-----";
    match exchange_agent(Some(" 127.0.0.1:8899 "), Some(pem)) {
        Ok(AgentPlan::Through { addr, ca_der }) => {
            assert_eq!((addr.as_str(), ca_der), ("127.0.0.1:8899", vec![1, 2, 3]));
        }
        _ => panic!("proxy"),
    }
    assert!(exchange_agent(Some("a"), Some("b")).is_err());
}

#[test]
fn random_text_is_made_of_bytes() {
    assert_eq!(random_hex(4, Some(&[0x1f, 0xa0]), 0), "1fa0");
    assert_eq!(random_hex(3, Some(&[0x1f, 0xa0]), 0), "1fa");
    assert_eq!(random_hex(0, Some(&[]), 0), "");
    let mut seed: u64 = 42;
    let mut want = String::new();
    for _ in 0..20 {
        seed = seed.wrapping_mul(6364136223846793005).wrapping_add(1442695040888963407);
        want.push(char::from_digit(((seed >> 32) & 0xF) as u32, 16).unwrap());
    }
    assert_eq!(random_hex(20, None, 42), want);
}

#[test]
fn devices_are_the_same_at_every_login() {
    let map = vec![("b".to_string(), "2".to_string()), ("a".to_string(), "1".to_string())];
    let none = OAuthDevice { machine_id: String::new(), device_id: String::new() };
    let (d, store) = load_or_create_oauth_device(&none, &map, "mm", "0123456789abcde");
    assert!(store);
    assert_eq!((d.machine_id.as_str(), d.device_id.as_str()), ("mm", "1"));
    let (e, store) = load_or_create_oauth_device(&d, &Vec::new(), "other", "0");
    assert!(!store);
    assert_eq!((e.machine_id.as_str(), e.device_id.as_str()), ("mm", "1"));
    let (f, _) = load_or_create_oauth_device(&none, &Vec::new(), "mm", "09af");
    assert_eq!(f.device_id, "8772");
}

#[test]
fn challenges_are_digests() {
    assert_eq!(
        pkce_challenge("dBjftJeZ4CVP-mB92K27uhbUJU1p1r_wW1gFWFOEjXk"),
        "E9Melhoa2OwvFrEMTJguCHaoeK1t8URWbuGJSstw-cM"
    );
}

#[test]
fn logins_start_with_an_address() {
    let dev = OAuthDevice { machine_id: "mid".into(), device_id: "did".into() };
    let (url, pending) = oauth_get_login_url("cid", &dev, Some("My PC"), "trace", "verifier");
    assert_eq!(url.state, "trace");
    assert_eq!(url.redirect_uri, "http://127.0.0.1:17388/authorize");
    assert_eq!((pending.state.as_str(), pending.pkce_verifier.as_str()), ("trace", "verifier"));
    let want = format!(
        "https://www.trae.cn/authorization?login_version=1&auth_from=trae&login_channel=native_ide&plugin_version=2.3.83560&auth_type=local&client_id=cid&redirect=0&login_trace_id=trace&auth_callback_url=http%3A%2F%2F127.0.0.1%3A17388%2Fauthorize&machine_id=mid&device_id=did&x_device_id=did&x_machine_id=mid&x_device_brand=My%20PC&x_device_type=windows&x_os_version=Windows&x_env=&x_app_version=3.3.100&x_app_type=stable&code_challenge={}&code_challenge_method=S256&channel_name=common",
        pkce_challenge("verifier")
    );
    assert_eq!(url.url, want);
    let (plain, _) = oauth_get_login_url("cid", &dev, None, "t", "v");
    assert!(plain.url.contains("&x_device_brand=Windows-PC&"));
}

#[test]
fn parameters_are_decoded() {
    let p = read_params("a=1%2B2&b&c=x=y&d=%ff&e=%E7%94%B2+%zz");
    let want = [("a", "1+2"), ("b", ""), ("c", "x=y"), ("d", "%ff"), ("e", "甲+%zz")];
    for (i, (k, v)) in want.iter().enumerate() {
        assert_eq!((p[i].0.as_str(), p[i].1.as_str()), (*k, *v));
    }
}

#[test]
fn callbacks_with_tokens_are_ready() {
    let url = "http://127.0.0.1:17388/authorize?refreshToken=rt&accessToken=at&userId=7&userName=%E7%94%B2&avatar=a";
    match oauth_parse_callback(url, Some("other")) {
        Ok(Callback::Ready(i)) => {
            assert_eq!(i.refresh_token, "rt");
            assert_eq!(i.access_token.as_deref(), Some("at"));
            assert_eq!(i.user_id.as_deref(), Some("7"));
            assert_eq!(i.user_name.as_deref(), Some("甲"));
            assert_eq!(i.avatar.as_deref(), Some("a"));
        }
        _ => panic!("ready"),
    }
}

#[test]
fn callbacks_with_codes_are_exchanged() {
    let info = "%7B%22AuthCode%22%3A%22c1%22%7D";
    let user = "%7B%22UserID%22%3A%229%22%2C%22ScreenName%22%3A%22n%22%2C%22AvatarUrl%22%3A%22p%22%7D";
    let url = format!("http://h/authorize?authCodeInfo={info}&userInfo={user}&loginTraceID=t1");
    match oauth_parse_callback(&url, Some("t1")) {
        Ok(Callback::Exchange { code, user_id, user_name, avatar }) => {
            assert_eq!(code, "c1");
            assert_eq!(user_id.as_deref(), Some("9"));
            assert_eq!(user_name.as_deref(), Some("n"));
            assert_eq!(avatar.as_deref(), Some("p"));
        }
        _ => panic!("exchange"),
    }
    match oauth_parse_callback("x?code=c2", None) {
        Ok(Callback::Exchange { code, .. }) => assert_eq!(code, "c2"),
        _ => panic!("exchange"),
    }
}

#[test]
fn callbacks_of_other_logins_are_refused() {
    assert_eq!(failed(oauth_parse_callback("http://h/authorize", None)), "回调 URL 中缺少查询参数");
    assert!(failed(oauth_parse_callback("x?refreshToken=r&loginTraceID=bad", Some("good"))).contains("校验失败"));
    assert!(oauth_parse_callback("x?refreshToken=r&loginTraceID=bad", Some("")).is_ok());
    let info = "%7B%22AuthCode%22%3A%22c1%22%7D";
    assert!(failed(oauth_parse_callback(&format!("x?authCodeInfo={info}"), Some("t"))).contains("缺少 loginTraceID"));
    assert!(oauth_parse_callback(&format!("x?authCodeInfo={info}"), None).is_ok());
    assert_eq!(
        failed(oauth_parse_callback("x?authCodeInfo=%7B%7D", None)),
        "authCodeInfo 中缺少 AuthCode 字段"
    );
    assert!(failed(oauth_parse_callback("x?authCodeInfo=no", None)).starts_with("authCodeInfo 解析失败（"));
    assert_eq!(failed(oauth_parse_callback("x?a=b", None)), "回调 URL 中缺少 authCodeInfo/refreshToken 参数");
}

#[test]
fn exchanges_end_the_callback() {
    match finish_exchange(Ok(("at".into(), "rt".into())), Some("7".into()), None, None) {
        Ok(i) => assert_eq!((i.access_token.as_deref(), i.refresh_token.as_str()), (Some("at"), "rt")),
        Err(e) => panic!("{e}"),
    }
    match finish_exchange(Err("boom".into()), None, None, None) {
        Ok(_) => panic!("failed"),
        Err(e) => assert!(e.starts_with("AuthCode 交换失败（boom）；")),
    }
}

#[test]
fn exchange_requests() {
    let c = OAuthClientConfig::default();
    assert_eq!(
        print_json(&code_exchange_body(&c, "code", Some("ver"), "dev")),
        "{\"ClientID\":\"ono9krqynydwx5\",\"ClientSecret\":\"-\",\"Code\":\"code\",\"CodeVerifier\":\"ver\",\"DeviceID\":\"dev\",\"PlatformCode\":\"IDE_PC\",\"UserID\":\"\"}"
    );
    assert_eq!(
        print_json(&token_exchange_body(&c, "rt")),
        "{\"ClientID\":\"ono9krqynydwx5\",\"ClientSecret\":\"-\",\"RefreshToken\":\"rt\",\"UserID\":\"\"}"
    );
}

#[test]
fn exchange_answers() {
    let ok = json("{\"code\":0,\"data\":{\"AccessToken\":\"a\",\"RefreshToken\":\"r\"}}");
    assert_eq!(exchange_code(&ok), Ok(("a".into(), "r".into())));
    assert_eq!(exchange_token(&ok), Err("响应中缺少 access_token".into()));
    let both = json("{\"code\":0,\"data\":{\"token\":\"a\"}}");
    assert_eq!(exchange_token(&both), Ok(("a".into(), None)));
    assert_eq!(exchange_code(&both), Err("响应中缺少 refresh_token".into()));
    assert_eq!(exchange_code(&json("{\"code\":0}")), Err("响应中缺少 data 字段".into()));
    let bad = json("{\"code\":7,\"message\":\"m\",\"data\":{\"k\":[{\"x\":1}]}}");
    assert_eq!(exchange_code(&bad), Err("ExchangeToken 失败 (code=7): m".into()));
    assert_eq!(exchange_token(&json("{}")), Err("ExchangeToken 失败 (code=-1): 未知错误".into()));
    assert_eq!(
        exchange_diagnosis(&bad),
        Some("OAuth AuthCode 交换失败 (code=7): 响应键路径: code | data | data.k | data.k[0].x | message".into())
    );
    assert_eq!(exchange_diagnosis(&ok), None);
}

#[test]
fn key_paths_stop_in_the_depth() {
    let mut out = Vec::new();
    collect_key_paths(&json("{\"a\":{\"b\":{\"c\":{\"d\":{\"e\":{\"f\":{\"g\":{\"h\":1}}}}}}}}"), "", 0, &mut out);
    assert_eq!(out.last().unwrap(), "a.b.c.d.e.f.g");
    let mut list = Vec::new();
    collect_key_paths(&json("[{\"a\":1},{\"b\":1},{\"c\":1},{\"d\":1}]"), "", 0, &mut list);
    assert_eq!(list, vec!["[0].a", "[1].b", "[2].c"]);
}

#[test]
fn user_records() {
    assert_eq!(
        get_user_info(&json("{\"data\":{\"UserID\":\"7\",\"nickname\":\"n\"}}")),
        Ok(("7".into(), "n".into()))
    );
    assert_eq!(get_user_info(&json("{\"result\":{}}")), Ok((String::new(), String::new())));
    assert_eq!(get_user_info(&json("{}")), Err("响应中缺少 data 字段".into()));
}

fn parts(user_id: Option<&str>, user_name: Option<&str>, token: &str) -> LoginParts {
    LoginParts {
        callback: OAuthCallbackInfo {
            refresh_token: "rt".into(),
            access_token: None,
            user_id: user_id.map(|s| s.to_string()),
            user_name: user_name.map(|s| s.to_string()),
            avatar: None,
        },
        access_token: token.into(),
        new_refresh_token: None,
        account_name: None,
        user_info: None,
    }
}

fn login(p: &LoginParts) -> OAuthLoginResult {
    match oauth_login(p) {
        Ok(r) => r,
        Err(e) => panic!("{e}"),
    }
}

#[test]
fn accounts_of_logins() {
    let a = login(&parts(Some("用户一二三四五六七八九"), None, "tok"));
    assert_eq!(a.name, "账号_用户一二三四五六");
    assert_eq!((a.jwt.as_str(), a.refresh_token.as_str(), a.has_refresh_token), ("Cloud-IDE-JWT tok", "rt", true));
    let mut p = parts(Some("7"), Some("cb"), "Cloud-IDE-JWT tok");
    p.new_refresh_token = Some("new".into());
    let b = login(&p);
    assert_eq!((b.name.as_str(), b.jwt.as_str(), b.refresh_token.as_str()), ("cb", "Cloud-IDE-JWT tok", "new"));
    p.account_name = Some("mine".into());
    assert_eq!(login(&p).name, "mine");
    assert!(!needs_user_info(&p.callback, &p.account_name));
    let mut q = parts(Some("7"), None, "tok");
    assert!(needs_user_info(&q.callback, &q.account_name));
    q.user_info = Some(("uid".into(), String::new()));
    assert_eq!(login(&q).name, "uid");
    let b64 = |s: &str| base64::engine::general_purpose::URL_SAFE_NO_PAD.encode(s.as_bytes());
    let tok = format!("{}.{}.s", b64("{\"alg\":\"RS256\"}"), b64("{\"data\":{\"id\":\"55\"}}"));
    assert_eq!(login(&parts(None, Some("n"), &tok)).user_id, "55");
    match oauth_login(&parts(None, None, "tok")) {
        Ok(_) => panic!("no user"),
        Err(e) => assert_eq!(e, "无法从回调或 JWT 中获取 user_id"),
    }
    assert_eq!(auth_token("x"), "Cloud-IDE-JWT x");
    assert_eq!(auth_token(&auth_token("x")), "Cloud-IDE-JWT x");
}

#[test]
fn logins_renew_or_add_accounts() {
    let mut accounts: Vec<RawAccount> = Vec::new();
    let first = login(&parts(Some("7"), Some("n"), "t1"));
    let (new, line) = save_login(&mut accounts, &first, "now1");
    assert!(new);
    assert_eq!(line, "OAuth 登录：新增账号 [n] user_id=7");
    accounts[0].refresh_token_fails = 3;
    accounts[0].refresh_token_invalid = true;
    let second = login(&parts(Some("7"), Some("other"), "t2"));
    let (new, line) = save_login(&mut accounts, &second, "now2");
    assert!(!new);
    assert_eq!(line, "OAuth 登录：更新已有账号 [other] jwt + refresh_token");
    assert_eq!(accounts.len(), 1);
    assert_eq!(accounts[0].name, "n");
    assert_eq!(accounts[0].jwt, "Cloud-IDE-JWT t2");
    assert_eq!(accounts[0].refresh_token_fails, 0);
    assert!(!accounts[0].refresh_token_invalid);
    assert_eq!(accounts[0].added_at.as_deref(), Some("now1"));
    assert_eq!(accounts[0].updated_at.as_deref(), Some("now2"));
}
