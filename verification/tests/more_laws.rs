use aiwork::clock::local_minute;
use aiwork::commands::usage_history::{fetch_window, last_fetch, take_result, CacheFile, Pager, UsageDayStat};
use aiwork::device_proxy::capture::update_account_jwt_and_refresh;
use aiwork::device_proxy::handler::forward_headers;
use aiwork::device_proxy::headers::sendable;
use aiwork::device_proxy::reader::{read_raw_request_buf, ReadStep};
use aiwork::floats::round_words;
use aiwork::json::{as_double, print_json, read_json, Json};
use aiwork::models::RawAccount;
use aiwork::store::{rows_all, rows_replace, RowStatement};
use aiwork::switcher::locate::lnk_target;
use aiwork::switcher::vscdb::merge_value;
use aiwork::tasks::doubao_quota::{batch_targets, Batch};
use aiwork::tasks::trae_checkin::{
    expiry_at, save_cooldown, status_check, Begun, ClaimOutcome, CooldownEntry, Post, Round,
};

fn json(text: &str) -> Json {
    match read_json(text) {
        Ok(v) => v,
        Err(e) => panic!("{e}"),
    }
}

// ---- the days of two runs ----

fn fetched(text: &str) -> Vec<UsageDayStat> {
    let mut pager = Pager::new();
    assert!(!pager.take_reply(&json(text)));
    pager.days
}

fn figures(cache: &CacheFile) -> Vec<(String, Vec<u64>, u64)> {
    cache.accounts[0].1.daily.iter().map(|d| (d.date.clone(), d.credits.clone(), d.sessions)).collect()
}

#[test]
fn a_run_on_the_same_day_counts_nothing_twice() {
    let first = 1789000000;
    let now = first + 5 * 86400;
    let session = |t: i64| format!("{{\"usage_time\":{t},\"credits_float\":1.5}}");
    let page = |list: Vec<String>| {
        format!("{{\"total\":{},\"user_usage_group_by_sessions\":[{}]}}", list.len(), list.join(","))
    };
    let mut cache = CacheFile { fetched_at: None, accounts: Vec::new() };
    let mut errors = Vec::new();
    let mut run = |sessions: Vec<String>, at: i64| {
        let (_, from) = fetch_window(last_fetch(&cache, "1"), at);
        take_result(&mut cache, &mut errors, "1", "n", &from, Ok(fetched(&page(sessions))), at);
        (from, figures(&cache))
    };
    let (all, _) = run(vec![session(first - 86400 * 9), session(first)], first);
    assert_eq!(all, "");
    let (_, once) = run(vec![session(first), session(now), session(now)], now);
    assert_eq!(once.len(), 3);
    assert_eq!(once[2].2, 2);
    let (from, twice) = run(vec![session(now), session(now)], now);
    assert_eq!(from.len(), 10);
    assert_eq!(from, local_minute(now).unwrap()[..10]);
    assert_eq!(twice, once);
}

#[test]
fn local_times_have_one_form() {
    for secs in [0, 1, 951782400, 1789095761, 4102444800, 40_000_000_000] {
        let t = local_minute(secs).unwrap();
        assert_eq!((t.len(), t.find(' ')), (16, Some(10)));
    }
    let days: Vec<String> = (0..60).map(|d| local_minute(1789095761 + d * 86400).unwrap()[..10].to_string()).collect();
    assert!(days.windows(2).all(|w| w[0] <= w[1]));
}

#[test]
fn expiries_are_told_in_local_time() {
    let e = expiry_at(1789095761, 1789095701, "0.0".to_string()).unwrap();
    assert_eq!((e.seconds_left, e.hours.as_str()), (60, "0.0"));
    assert_eq!(e.when, local_minute(1789095761).unwrap());
    let far = expiry_at(i64::MAX, 0, String::new()).unwrap();
    assert_eq!((far.seconds_left, far.when.as_str()), (i64::MAX, "9223372036854775807"));
    let gone = expiry_at(5, 6, String::new()).unwrap();
    assert_eq!(gone.seconds_left, -1);
    assert!(expiry_at(i64::MIN, 1, String::new()).is_none());
}

// ---- long requests in parts ----

fn outcome(there: &[u8], parts: &[&[u8]]) -> Result<usize, String> {
    let mut reader = read_raw_request_buf(there.to_vec());
    let mut next = 0;
    let mut eof = false;
    loop {
        match reader.step(eof) {
            ReadStep::Request(r) => return Ok(r.body.iter().filter(|b| **b == 120).count()),
            ReadStep::Closed => return Err("closed".to_string()),
            ReadStep::Fail(e) => return Err(e),
            ReadStep::More if next < parts.len() => {
                reader.feed(parts[next]);
                next += 1;
            }
            ReadStep::More => eof = true,
        }
    }
}

#[test]
fn long_requests_do_not_depend_on_how_they_are_split() {
    let n = 3 * 1024 * 1024;
    let body = vec![120u8; n];
    let mut plain = format!("POST / HTTP/1.1\r\nContent-Length: {n}\r\n\r\n").into_bytes();
    plain.extend(&body);
    let mut chunked = b"POST / HTTP/1.1\r\nTransfer-Encoding: chunked\r\n\r\n300000\r\n".to_vec();
    chunked.extend(&body);
    chunked.extend(b"\r\n0\r\n\r\n");
    let mut bad = b"POST / HTTP/1.1\r\nTransfer-Encoding: chunked\r\n\r\n300000\r\n".to_vec();
    bad.extend(&body);
    bad.extend(b"\r\nzz\r\n");
    for (bytes, want) in [(plain, Ok(n)), (chunked, Ok(n)), (bad, Err("非法 chunk size: zz\r\n".to_string()))] {
        assert_eq!(outcome(&bytes, &[]), want);
        for size in [1_000_003, 70_001] {
            let parts: Vec<&[u8]> = bytes.chunks(size).collect();
            assert_eq!(outcome(b"", &parts), want);
        }
        assert_eq!(outcome(&bytes[..n], &[&bytes[n..]]), want);
    }
}

// ---- replacements that fail ----

fn run(c: &rusqlite::Connection, table: &str, s: &RowStatement) -> rusqlite::Result<()> {
    let sql = s.sql(table).unwrap();
    match s {
        RowStatement::Clear | RowStatement::Commit | RowStatement::Rollback => c.execute_batch(&sql),
        RowStatement::Insert(pk, data) | RowStatement::Upsert(pk, data) => c.execute(&sql, (pk, data)).map(|_| ()),
        RowStatement::Delete(pk) => c.execute(&sql, [pk]).map(|_| ()),
    }
}

fn keys(c: &rusqlite::Connection, table: &str) -> Vec<String> {
    let mut stmt = c.prepare(&rows_all(table).unwrap()).unwrap();
    let rows = stmt.query_map([], |r| r.get::<_, rusqlite::types::Value>(0)).unwrap();
    rows.map(|v| match v.unwrap() {
        rusqlite::types::Value::Integer(n) => n.to_string(),
        rusqlite::types::Value::Text(t) => t,
        _ => panic!("no key"),
    })
    .collect()
}

fn rows(list: &[&str]) -> Vec<(String, Json)> {
    list.iter().map(|k| (k.to_string(), json("1"))).collect()
}

#[test]
fn a_replacement_that_fails_is_undone_by_a_rollback() {
    let c = rusqlite::Connection::open_in_memory().unwrap();
    c.execute_batch("CREATE TABLE groups (pk TEXT PRIMARY KEY, data TEXT NOT NULL, updated_at TEXT)").unwrap();
    for s in rows_replace("groups", &rows(&["b", "a"])).unwrap() {
        run(&c, "groups", &s).unwrap();
    }
    let plan = rows_replace("groups", &rows(&["x", "y", "x"])).unwrap();
    assert_eq!(plan.len(), 5);
    let done = plan.iter().try_for_each(|s| run(&c, "groups", s));
    assert!(done.is_err());
    assert_eq!(keys(&c, "groups"), vec!["x", "y"]);
    run(&c, "groups", &RowStatement::Rollback).unwrap();
    assert_eq!(keys(&c, "groups"), vec!["b", "a"]);
    for n in 1..plan.len() - 1 {
        for s in &plan[..n] {
            run(&c, "groups", s).unwrap();
        }
        run(&c, "groups", &RowStatement::Rollback).unwrap();
        assert_eq!(keys(&c, "groups"), vec!["b", "a"]);
    }
    assert!(run(&c, "groups", &RowStatement::Rollback).is_err());
    assert!(run(&c, "groups", &RowStatement::Commit).is_err());
    assert_eq!(RowStatement::Rollback.sql("groups"), Ok("ROLLBACK;".to_string()));
    assert_eq!(RowStatement::Rollback.sql("kv"), Err("非法表名: kv".to_string()));
}

#[test]
fn accounts_come_in_the_order_of_their_numbers() {
    let c = rusqlite::Connection::open_in_memory().unwrap();
    c.execute_batch("CREATE TABLE accounts (pk INTEGER PRIMARY KEY, data TEXT NOT NULL, updated_at TEXT)").unwrap();
    for s in rows_replace("accounts", &rows(&["10", "2", "1"])).unwrap() {
        run(&c, "accounts", &s).unwrap();
    }
    assert_eq!(keys(&c, "accounts"), vec!["1", "2", "10"]);
}

// ---- headers, shortcuts, merges ----

#[test]
fn only_headers_that_can_be_sent_are_passed_on() {
    assert!(sendable("X-a_1!#$%&'*+.^`|~", "a\tb 中"));
    assert!(sendable("x", ""));
    for name in ["", "a b", "a:b", "头", "a(b", "a\"", "a/b", "a@b", "a[b", "a{b"] {
        assert!(!sendable(name, "v"), "{name}");
    }
    for value in ["a\r\nb", "\u{0}", "\u{7f}", "\u{1f}"] {
        assert!(!sendable("x", value));
    }
    let long = "a".repeat(65535);
    assert!(sendable(&long, "") && !sendable(&format!("{long}a"), ""));
    let h: Vec<(String, String)> = [("A", "1"), ("b d", "2"), ("C", "\n"), ("Accept-Encoding", "\n"), ("Host", "h")]
        .iter()
        .map(|(k, v)| (k.to_string(), v.to_string()))
        .collect();
    let names = |recode: bool| -> Vec<String> { forward_headers(&h, recode).into_iter().map(|p| p.0).collect() };
    assert_eq!(names(true), vec!["A", "Accept-Encoding"]);
    assert_eq!(names(false), vec!["A"]);
}

#[test]
fn shortcuts_lead_to_their_first_path() {
    let s = |t: &str| Some(t.to_string());
    assert_eq!(lnk_target(s("a"), s("b")), s("a"));
    assert_eq!(lnk_target(None, s("b")), s("b"));
    assert_eq!(lnk_target(None, None), None);
}

#[test]
fn a_second_merge_of_floats_has_nothing_to_add() {
    for (cur, pre) in [("[1.5]", "[2.25,1.5]"), ("{\"a\":0.1}", "{\"b\":1e300,\"c\":-0.0}")] {
        let (written, n) = merge_value(Some(cur), pre).unwrap();
        assert!(n > 0);
        assert!(merge_value(Some(&written), pre).is_none());
    }
}

// ---- numbers ----

#[test]
fn whole_numbers_become_the_nearest_double() {
    let list = [0u64, 1, 2, 3, 100, 4503599627370495, 4503599627370496, 9007199254740991, 9007199254740992];
    let more = [9007199254740993, 9007199254740995, 18014398509481985, 18014398509481987, u64::MAX, u64::MAX - 1024];
    for n in list.into_iter().chain(more) {
        assert_eq!(as_double(&json(&n.to_string())), Some((n as f64).to_bits()), "{n}");
        assert_eq!(print_json(&json(&n.to_string())), n.to_string());
    }
    for n in [-1i64, -7, -9007199254740993, i64::MIN] {
        assert_eq!(as_double(&json(&n.to_string())), Some((n as f64).to_bits()), "{n}");
        assert_eq!(print_json(&json(&n.to_string())), n.to_string());
    }
}

#[test]
fn doubles_are_rounded_as_they_are_printed() {
    let some = [0.0, -0.0, 0.4, 0.5, 0.6, 1.5, 2.5, 3.5, -0.4, -0.5, -1.5, -2.5, 99.49999, 99.5, 100.0, 1e-300, 5e-324];
    let large = [4503599627370497.5, 9007199254740993.0, 1.8e19, 1.9e19, 1e22, -1e300, f64::MAX];
    for f in some.into_iter().chain(large) {
        assert_eq!(round_words(f.to_bits()), format!("{f:.0}"), "{f}");
    }
    for f in [f64::NAN, f64::INFINITY, f64::NEG_INFINITY] {
        assert_eq!(round_words(f.to_bits()), format!("{f:.0}"));
    }
    let mut x: u64 = 0x3fe0_0000_0000_0000;
    for _ in 0..2000 {
        x = x.wrapping_mul(6364136223846793005).wrapping_add(1442695040888963407);
        let f = f64::from_bits(0x3fd0_0000_0000_0000 + (x >> 9) % 0x0100_0000_0000_0000);
        assert_eq!(round_words(f.to_bits()), format!("{f:.0}"), "{f}");
    }
}

// ---- whole rounds ----

#[test]
fn a_round_of_quotas_reports_every_target_once() {
    let accounts = vec![
        json("{\"user_id\":\"a\",\"session_id\":\"s\"}"),
        json("{\"user_id\":\"b\"}"),
        json("{\"user_id\":\"c\",\"session_id\":\"s\"}"),
        json("{\"user_id\":\"d\",\"session_id\":\"s\"}"),
    ];
    let targets = batch_targets(&accounts);
    assert_eq!(targets.iter().map(|t| t.index).collect::<Vec<_>>(), vec![0, 2, 3]);
    let mut batch = Batch::new(accounts);
    let answers = [Ok(json("{\"parsed\":{\"level\":\"L\"}}")), Err("e".to_string()), Err("f".to_string())];
    let events: Vec<Json> =
        targets.iter().zip(&answers).map(|(t, a)| batch.take_result(t, a, "now")).collect();
    assert_eq!(events.iter().map(|e| e.str_at("uid").unwrap()).collect::<Vec<_>>(), vec!["a", "c", "d"]);
    assert_eq!((batch.success, batch.failed), (1, 2));
    let errors: Vec<String> = batch.errors.iter().map(print_json).collect();
    assert_eq!(errors, vec!["{\"error\":\"e\",\"user_id\":\"c\"}", "{\"error\":\"f\",\"user_id\":\"d\"}"]);
    assert_eq!(batch.accounts[0].str_at("quota_level"), Some("L"));
    assert_eq!(print_json(&batch.accounts[1]), "{\"user_id\":\"b\"}");
    assert!(batch.accounts[2].get("quota_level").is_none());
}

fn raw(name: &str, jwt: &str) -> RawAccount {
    RawAccount {
        name: name.to_string(),
        user_id: Some("9".to_string()),
        jwt: jwt.to_string(),
        refresh_token: None,
        added_at: None,
        updated_at: None,
        dc_id: None,
        refresh_token_expires_at: None,
        refresh_token_fails: 0,
        refresh_token_invalid: false,
        auth_saved_at: None,
    }
}

#[test]
fn a_round_of_check_ins_reports_every_account_once() {
    let mut round = Round::new();
    let mut rests: Vec<(String, CooldownEntry)> = Vec::new();
    let mut indexes = Vec::new();
    for (i, jwt) in ["", "t", "t", "t", ""].into_iter().enumerate() {
        let event = match round.begin(&raw(&format!("n{i}"), jwt)) {
            Begun::Failed(e) => e,
            Begun::Ask(cur) => {
                let pre = status_check(Some("9"), &Post::Answer(200, format!("{{\"code\":0,\"checked_in\":{}}}", i == 1)));
                match round.take_status(&cur, &pre) {
                    Some(e) => e,
                    None => {
                        let claim = ClaimOutcome {
                            ok: i == 2,
                            message: String::new(),
                            code: None,
                            http_status: 200,
                            data: None,
                        };
                        round.settle(&cur, &claim, None, None, &mut rests, 1000).event
                    }
                }
            }
        };
        indexes.push((event.i64_at("index").unwrap(), event.str_at("name").unwrap().to_string()));
    }
    let want: Vec<(i64, String)> = (0..5).map(|i| (i + 1, format!("n{i}"))).collect();
    assert_eq!(indexes, want);
    assert_eq!((round.total_ok, round.already, round.failed), (1, 1, 3));
    let names: Vec<&str> = round.results.iter().map(|r| r.str_at("name").unwrap()).collect();
    assert_eq!(names, vec!["n0", "n1", "n2", "n3", "n4"]);
}

#[test]
fn errors_that_are_not_counted_need_no_count() {
    let entry = CooldownEntry { error_type: "x".into(), until: 0, reason: String::new(), error_count: u32::MAX };
    let mut list = vec![("u".to_string(), entry)];
    save_cooldown(&mut list, "u", "SoftRate", 60, "r", 1000);
    assert_eq!((list[0].1.until, list[0].1.error_count), (1060, 0));
}

#[test]
fn captures_keep_documents_readable() {
    let cfg = json("{\"accounts\":[{\"UserID\":\"7\",\"x\":1.5}],\"z\":[1]}");
    for uid in ["7", "8"] {
        let r = update_account_jwt_and_refresh(&cfg, uid, "j", Some("rt"), "N");
        let text = print_json(&r.cfg);
        assert_eq!(print_json(&json(&text)), text);
    }
}
