use aiwork::clock::{local_midnight, local_minute};
use aiwork::commands::oauth::oauth_client;
use aiwork::commands::switch::{next_question, probe_line, Probe, SaveQuestion};
use aiwork::commands::usage_history::{fetch_window, merge_days, Pager, UsageDayStat};
use aiwork::device_proxy::ca::{ensure_ca, files_to_write, CaSource, MadeCa};
use aiwork::device_proxy::capture::{ends_rest, update_account_jwt, JwtStatus};
use aiwork::device_proxy::http::{end_chunk, frame_chunk, RawRequest};
use aiwork::device_proxy::reader::{read_raw_request, read_raw_request_buf, ReadStep};
use aiwork::json::{print_json, read_json, Json};
use aiwork::store::{kv_get, kv_set, read_rows, row_tables, rows_all, rows_replace, RowStatement, KV_GET, KV_SET};
use aiwork::switcher::vscdb::{merge_global_keys, merge_value, snapshot_global_keys, StoredValue};
use base64::Engine;
use chrono::{Local, NaiveDate, TimeZone};

fn json(text: &str) -> Json {
    match read_json(text) {
        Ok(v) => v,
        Err(e) => panic!("{e}"),
    }
}

// ---- local time ----

#[test]
fn local_times_are_those_of_the_machine() {
    for s in [0, 1, 951782400, 1789095761, 4102444800, 40_000_000_000] {
        let want = Local.timestamp_opt(s, 0).single().unwrap().format("%Y-%m-%d %H:%M").to_string();
        assert_eq!(local_minute(s), Some(want));
    }
    assert_ne!(local_minute(0), local_minute(1789095761));
    assert_eq!(local_minute(i64::MAX), None);
}

#[test]
fn local_midnights_are_those_of_the_machine() {
    for (y, m, d) in [(1970, 1, 2), (2024, 2, 29), (2026, 9, 11)] {
        let day = NaiveDate::from_ymd_opt(y, m, d).unwrap();
        let want = Local.from_local_datetime(&day.and_hms_opt(0, 0, 0).unwrap()).earliest().map(|t| t.timestamp());
        assert_eq!(local_midnight(&day.format("%Y-%m-%d").to_string()), want);
    }
    assert_eq!(local_midnight("2026-02-30"), None);
    assert_eq!(local_midnight(""), None);
}

#[test]
fn a_window_starts_on_the_local_day_of_the_last_time() {
    let last = 1789095761;
    let now = last + 3 * 86400;
    let (start, from) = fetch_window(Some(last), now);
    let day = Local.timestamp_opt(last, 0).single().unwrap().date_naive();
    assert_eq!(from, day.format("%Y-%m-%d").to_string());
    let want = Local.from_local_datetime(&day.and_hms_opt(0, 0, 0).unwrap()).earliest().map(|t| t.timestamp());
    assert_eq!(start, want.unwrap_or(now - 86400));
}

fn fetched(text: &str) -> Vec<UsageDayStat> {
    let mut pager = Pager::new();
    assert!(!pager.take_reply(&json(text)));
    pager.days
}

fn figures(days: &[UsageDayStat]) -> Vec<(String, Vec<u64>, u64, u64)> {
    days.iter().map(|d| (d.date.clone(), d.credits.clone(), d.sessions, d.input_tokens)).collect()
}

#[test]
fn a_second_fetch_counts_nothing_twice() {
    let now = 1789095761;
    let before = now - 2 * 86400;
    let today = format!(
        "{{\"usage_time\":{now},\"credits_float\":1.5,\"model_name\":\"m\",\"extra_info\":{{\"input_token\":7}}}}"
    );
    let earlier = format!("{{\"usage_time\":{before},\"credits_float\":2.0}}");
    let all = format!("{{\"total\":2,\"user_usage_group_by_sessions\":[{earlier},{today}]}}");
    let once = merge_days(&Vec::new(), "", fetched(&all));
    assert_eq!(once.len(), 2);
    let (_, from) = fetch_window(Some(now), now + 60);
    let again = format!("{{\"total\":1,\"user_usage_group_by_sessions\":[{today}]}}");
    let twice = merge_days(&once, &from, fetched(&again));
    assert_eq!(figures(&twice), figures(&once));
    assert_eq!((twice[1].sessions, twice[1].input_tokens), (1, 7));
}

// ---- requests in parts ----

fn outcome(there: &[u8], parts: &[&[u8]]) -> Result<Option<RawRequest>, String> {
    let mut reader = read_raw_request_buf(there.to_vec());
    let mut next = 0;
    let mut eof = false;
    loop {
        match reader.step(eof) {
            ReadStep::Request(r) => return Ok(Some(r)),
            ReadStep::Closed => return Ok(None),
            ReadStep::Fail(e) => return Err(e),
            ReadStep::More => {
                if next < parts.len() {
                    reader.feed(parts[next]);
                    next += 1;
                } else {
                    eof = true;
                }
            }
        }
    }
}

fn shown(r: Result<Option<RawRequest>, String>) -> String {
    match r {
        Ok(Some(q)) => format!("{} {} {:?} {:?}", q.method, q.path, q.headers, q.body),
        Ok(None) => "closed".to_string(),
        Err(e) => e,
    }
}

#[test]
fn requests_do_not_depend_on_how_they_are_split() {
    let mut chunked = b"POST /c HTTP/1.1\r\nTransfer-Encoding: chunked\r\n\r\n".to_vec();
    chunked.extend(frame_chunk(b"hello "));
    chunked.extend(frame_chunk(b"world"));
    chunked.extend(end_chunk());
    let cases: Vec<(Vec<u8>, &str)> = vec![
        (b"POST /a HTTP/1.1\r\nContent-Length: 3\r\n\r\nabcdef".to_vec(), "POST /a [(\"Content-Length\", \"3\")] [97, 98, 99]"),
        (b"POST /a HTTP/1.1\r\nContent-Length: 9\r\n\r\nabc".to_vec(), "POST /a [(\"Content-Length\", \"9\")] [97, 98, 99]"),
        (b"GET /".to_vec(), "closed"),
        (b"".to_vec(), "closed"),
        (b"P / H\r\nContent-Length: 67108865\r\n\r\nx".to_vec(), "请求体超限 (67108865 > 67108864)"),
        (b"P / H\r\nTransfer-Encoding: chunked\r\n\r\nzz\r\n".to_vec(), "非法 chunk size: zz\r\n"),
        (b"P / H\r\nTransfer-Encoding: chunked\r\n\r\n5\r\nab".to_vec(), "chunked body 意外 EOF"),
        (
            chunked,
            "POST /c [(\"Transfer-Encoding\", \"chunked\")] [104, 101, 108, 108, 111, 32, 119, 111, 114, 108, 100]",
        ),
    ];
    for (bytes, want) in cases {
        assert_eq!(shown(outcome(&bytes, &[])), want);
        for i in 0..=bytes.len() {
            assert_eq!(shown(outcome(&bytes[..i], &[&bytes[i..]])), want);
            assert_eq!(shown(outcome(b"", &[&bytes[..i], &bytes[i..]])), want);
        }
        let single: Vec<&[u8]> = bytes.chunks(1).collect();
        assert_eq!(shown(outcome(b"", &single)), want);
    }
    assert!(matches!(read_raw_request().step(true), ReadStep::Closed));
}

// ---- the store ----

fn open() -> rusqlite::Connection {
    let c = rusqlite::Connection::open_in_memory().unwrap();
    c.execute_batch("CREATE TABLE kv (key TEXT PRIMARY KEY, content TEXT NOT NULL, updated_at TEXT NOT NULL)").unwrap();
    for t in row_tables() {
        c.execute_batch(&format!("CREATE TABLE [{t}] (pk TEXT PRIMARY KEY, data TEXT NOT NULL, updated_at TEXT)"))
            .unwrap();
    }
    c
}

fn run(c: &rusqlite::Connection, table: &str, s: &RowStatement) -> rusqlite::Result<()> {
    let sql = s.sql(table).unwrap();
    match s {
        RowStatement::Clear | RowStatement::Commit | RowStatement::Rollback => c.execute_batch(&sql),
        RowStatement::Insert(pk, data) | RowStatement::Upsert(pk, data) => c.execute(&sql, (pk, data)).map(|_| ()),
        RowStatement::Delete(pk) => c.execute(&sql, [pk]).map(|_| ()),
    }
}

fn all(c: &rusqlite::Connection, table: &str) -> Vec<(String, String)> {
    let sql = rows_all(table).unwrap();
    let mut stmt = c.prepare(&sql).unwrap();
    let rows: Vec<(String, String)> =
        stmt.query_map([], |r| Ok((r.get(0)?, r.get(1)?))).unwrap().map(|r| r.unwrap()).collect();
    read_rows(&rows).iter().map(|(pk, v)| (pk.clone(), print_json(v))).collect()
}

#[test]
fn replaced_rows_are_all_that_a_table_holds() {
    let c = open();
    let text = |list: &[(&str, &str)]| -> Vec<(String, String)> {
        list.iter().map(|(a, b)| (a.to_string(), b.to_string())).collect()
    };
    for list in [&[("z", "{\"v\":1}"), ("a", "[true]")][..], &[("b", "2")][..], &[][..]] {
        let rows = list.iter().map(|(pk, v)| (pk.to_string(), json(v))).collect();
        for s in rows_replace("device_map", &rows).unwrap() {
            run(&c, "device_map", &s).unwrap();
        }
        assert_eq!(all(&c, "device_map"), text(list));
    }
    run(&c, "groups", &RowStatement::Upsert("u".into(), "1".into())).unwrap();
    run(&c, "groups", &RowStatement::Upsert("v".into(), "2".into())).unwrap();
    run(&c, "groups", &RowStatement::Upsert("u".into(), "3".into())).unwrap();
    assert_eq!(all(&c, "groups"), text(&[("u", "3"), ("v", "2")]));
    assert!(run(&c, "groups", &RowStatement::Insert("u".into(), "4".into())).is_err());
    run(&c, "groups", &RowStatement::Delete("u".into())).unwrap();
    assert_eq!(all(&c, "groups"), text(&[("v", "2")]));
    match rows_replace("kv", &Vec::new()) {
        Err(e) => assert_eq!(e, "非法表名: kv"),
        Ok(_) => panic!("no such table"),
    }
    assert!(RowStatement::Commit.sql("kv").is_err());
}

#[test]
fn stored_documents_are_read_back() {
    let c = open();
    for text in ["{\"a\":1}", "null", "[\"x\"]"] {
        let w = kv_set("k", &json(text));
        c.execute(KV_SET, (&w.key, &w.content)).unwrap();
        let content = c.query_row(KV_GET, ["k"], |r| r.get::<_, String>(0)).ok();
        assert_eq!(print_json(&kv_get(content.as_deref()).unwrap()), text);
    }
    let content = c.query_row(KV_GET, ["other"], |r| r.get::<_, String>(0)).ok();
    assert!(kv_get(content.as_deref()).is_none());
}

// ---- the authority ----

#[test]
fn an_authority_is_made_once() {
    let made = MadeCa { cert_pem: "c".to_string(), key_pem: "k".to_string(), cert_der: vec![3] };
    assert_eq!(ensure_ca(false, false), CaSource::Generate);
    let files: Vec<(&str, Vec<u8>)> = files_to_write(made).into_iter().map(|f| (f.name, f.bytes)).collect();
    assert_eq!(files, vec![("ca.crt", b"c".to_vec()), ("ca.key", b"k".to_vec()), ("ca.cer", vec![3])]);
    let has = |n: &str| files.iter().any(|f| f.0 == n);
    assert_eq!(ensure_ca(has("ca.crt"), has("ca.key")), CaSource::Load);
}

// ---- captures and switches ----

fn token(uid: &str, exp: i64) -> String {
    let b64 = |t: &str| base64::engine::general_purpose::URL_SAFE_NO_PAD.encode(t.as_bytes());
    let payload = format!("{{\"data\":{{\"id\":\"{uid}\"}},\"exp\":{exp}}}");
    format!("Cloud-IDE-JWT {}.{}.sig", b64("{\"alg\":\"RS256\"}"), b64(&payload))
}

#[test]
fn a_rest_ends_only_with_a_new_token() {
    let old = token("7", 1789095761);
    let cfg = json(&format!("{{\"accounts\":[{{\"UserID\":\"7\",\"name\":\"n\",\"jwt\":\"{old}\"}}]}}"));
    let same = update_account_jwt(&cfg, "7", &old, "N");
    assert!(same.status == JwtStatus::Unchanged && !ends_rest(same.status));
    let older = update_account_jwt(&cfg, "7", &token("7", 1789000000), "N");
    assert!(older.status == JwtStatus::Skipped && !ends_rest(older.status));
    let when = |s: i64| local_minute(s).unwrap();
    assert_eq!(
        older.lines,
        vec![format!("  [JWT 跳过(更旧)] uid=7 账号=n 旧 exp={} 新 exp={}", when(1789095761), when(1789000000))]
    );
    let newer = update_account_jwt(&cfg, "7", &token("7", 1790000000), "N");
    assert!(ends_rest(newer.status));
    assert_eq!(newer.lines, vec![format!("  [JWT 自动更新] user=7 账号=n exp={}", when(1790000000))]);
    assert!(!ends_rest(update_account_jwt(&cfg, "8", &token("8", 1), "N").status));
    let shapeless = update_account_jwt(&cfg, "8", "x", "N");
    assert_eq!(shapeless.lines, vec!["  [JWT 自动追加新账号] user=8 -> name=auto_8 exp=?".to_string()]);
}

#[test]
fn sessions_are_asked_about_for_one_application() {
    let ok: Result<(), String> = Ok(());
    let bad: Result<(), String> = Err("x".into());
    assert_eq!(next_question(&ok, Some("Doubao"), None), SaveQuestion::LiveSession);
    assert_eq!(next_question(&ok, Some("Doubao"), Some(&ok)), SaveQuestion::SessionAlive);
    assert_eq!(next_question(&ok, Some("Doubao"), Some(&bad)), SaveQuestion::Nothing);
    assert_eq!(next_question(&bad, Some("Doubao"), None), SaveQuestion::Nothing);
    assert_eq!(next_question(&ok, Some("Trae"), None), SaveQuestion::Nothing);
    assert_eq!(next_question(&ok, None, None), SaveQuestion::Nothing);
    assert_eq!(probe_line(Probe::AccountToken, &bad), Some("切换前 JWT 预检判死（已放行）: x".into()));
    assert_eq!(probe_line(Probe::SlotSession, &bad), None);
    assert_eq!(probe_line(Probe::AccountToken, &ok), None);
}

#[test]
fn clients_may_be_stored_as_lists() {
    let c = oauth_client(&json("[\"i\",\"s\"]"));
    assert_eq!((c.client_id.as_str(), c.client_secret.as_str()), ("i", "s"));
    assert!(c.exchange_url.ends_with("/ExchangeToken"));
    assert_eq!(oauth_client(&json("[\"i\",\"s\",\"u\"]")).exchange_url, "u");
    assert_eq!(oauth_client(&json("[\"i\",\"s\",\"u\",\"more\"]")).client_id, "ono9krqynydwx5");
    assert_eq!(oauth_client(&json("[\"i\",5]")).client_id, "ono9krqynydwx5");
}

// ---- merging again ----

#[test]
fn a_second_merge_has_nothing_to_add() {
    for (cur, pre) in [
        (Some("[{\"id\":\"a\"}]"), "[{\"id\":\"b\"},{\"id\":\"a\"}]"),
        (Some("{\"entries\":[1],\"x\":2}"), "{\"entries\":[3,1]}"),
        (Some("{\"x\":2}"), "{\"entries\":[3,1],\"y\":1}"),
        (Some("{\"entries\":5}"), "{\"entries\":[3],\"y\":1}"),
        (None, "not json"),
    ] {
        let (written, n) = merge_value(cur, pre).unwrap();
        assert!(n > 0 || cur.is_none());
        assert!(merge_value(Some(&written), pre).is_none());
    }
    let pre = snapshot_global_keys(Some(StoredValue::Text("{\"a\":1}".into())), Some(StoredValue::Blob(b"[1]".to_vec())));
    let cur = snapshot_global_keys(Some(StoredValue::Text("{\"b\":1}".into())), None);
    let plan = merge_global_keys(true, &cur, &pre).unwrap();
    assert_eq!(plan.writes.len(), 2);
    let stored = |i: usize| {
        let w = &plan.writes[i];
        Some(if w.blob { StoredValue::Blob(w.value.as_bytes().to_vec()) } else { StoredValue::Text(w.value.clone()) })
    };
    let after = snapshot_global_keys(stored(0), stored(1));
    assert!(merge_global_keys(true, &after, &pre).is_none());
}
