use aiwork::assoc;
use aiwork::clock::{read_date, LocalTimes};
use aiwork::digits::{digits, number, read_i64, read_number, signed_number};
use aiwork::floats::{num_below, num_is_zero};
use aiwork::json::{as_double, print_json, put, read_json, read_json_bytes, value_to_str, Json, Num};
use aiwork::jwt::{extract_user_id, jwt_exp_ts, parse, valid_cloud_ide_jwt};
use aiwork::text;
use base64::Engine;

fn json(text: &str) -> Json {
    match read_json(text) {
        Ok(v) => v,
        Err(e) => panic!("{e}"),
    }
}

#[test]
fn texts_like_std() {
    for s in ["", " a b ", "\u{3000}x\t", "a,b,,c", "中文 ABC"] {
        assert_eq!(text::trim(s), s.trim());
        assert_eq!(text::split(s, ','), s.split(',').map(|p| p.to_string()).collect::<Vec<_>>());
        assert_eq!(text::to_smalls(s), s.to_ascii_lowercase());
        assert_eq!(text::replace_char(s, 'a', "xy"), s.replace('a', "xy"));
        assert_eq!(text::take_chars(s, 2), s.chars().take(2).collect::<String>());
        assert_eq!(text::contains(s, "b"), s.contains("b"));
        assert_eq!(text::starts_with(s, " a"), s.starts_with(" a"));
        assert_eq!(text::ends_with(s, "c"), s.ends_with("c"));
        assert_eq!(text::split_text(s, ",,"), s.split(",,").map(|p| p.to_string()).collect::<Vec<_>>());
        assert_eq!(
            text::split_once(s, ','),
            s.split_once(',').map(|(a, b)| (a.to_string(), b.to_string()))
        );
    }
    assert_eq!(text::bytes_text(b"a\xffb"), "a\u{fffd}b");
    assert_eq!(text::bytes_text("中".as_bytes()), "中");
    assert_eq!(text::join(&vec!["a".into(), "b".into()], ", "), "a, b");
    assert!(text::same_ignoring_case("AbC", "aBc"));
    assert!(!text::same_ignoring_case("Ä", "ä"));
    for c in ['\u{9}', '\u{85}', '\u{a0}', '\u{1680}', '\u{2003}', '\u{2028}', '\u{205f}', '\u{3000}', '\u{200b}', 'a'] {
        assert_eq!(text::white(c), c.is_whitespace(), "{c:?}");
    }
}

#[test]
fn numbers_like_std() {
    for n in [0u64, 9, 10, 255, 65536, u64::MAX] {
        assert_eq!(number(n), n.to_string());
        assert_eq!(digits(n, 16), format!("{n:x}"));
        assert_eq!(read_number(&n.to_string(), 10, u64::MAX), Some(n));
        assert_eq!(read_number(&format!("{n:X}"), 16, u64::MAX), Some(n));
    }
    for n in [0i64, -1, i64::MIN, i64::MAX] {
        assert_eq!(signed_number(n), n.to_string());
        assert_eq!(read_i64(&n.to_string()), Some(n));
    }
    for s in ["", "+", "-", "+5", "-5", "5a", " 5", "18446744073709551616", "9223372036854775808"] {
        assert_eq!(read_number(s, 10, u64::MAX), s.parse::<u64>().ok(), "{s}");
        assert_eq!(read_i64(s), s.parse::<i64>().ok(), "{s}");
    }
    assert_eq!(read_number("300", 10, 255), None);
}

#[test]
fn values_like_serde_json() {
    let text = "{\"b\":[1,-2,0.5,1e30,null,true],\"a\":{\"z\":\"\\u4e2d\",\"y\":\"\"}}";
    let v = json(text);
    let want: serde_json::Value = serde_json::from_str(text).unwrap();
    assert_eq!(print_json(&v), want.to_string());
    assert_eq!(value_to_str(v.get("a").unwrap().get("z").unwrap()), "中");
    assert_eq!(value_to_str(v.get("b").unwrap()), want["b"].to_string());
    let b = v.get("b").unwrap().as_array().unwrap();
    for (x, y) in b.iter().zip(want["b"].as_array().unwrap()) {
        assert_eq!(as_double(x).map(f64::from_bits), y.as_f64());
        assert_eq!(x.as_i64(), y.as_i64());
        assert_eq!(x.as_u64(), y.as_u64());
        assert_eq!(x.as_bool(), y.as_bool());
    }
    assert!(read_json_bytes(b"[1").is_none());
    assert_eq!(read_json_bytes(b"[1]").unwrap().as_array().unwrap().len(), 1);
    assert_eq!(read_json("{").err(), serde_json::from_str::<serde_json::Value>("{").err().map(|e| e.to_string()));
}

#[test]
fn fields_are_set_in_order() {
    let mut o: Vec<(String, Json)> = Vec::new();
    for k in ["m", "z", "a", "m", "中"] {
        put(&mut o, k, Json::Bool(true));
    }
    let keys: Vec<&str> = o.iter().map(|p| p.0.as_str()).collect();
    assert_eq!(keys, vec!["a", "m", "z", "中"]);
}

#[test]
fn lists_of_keyed_values() {
    let mut l: Vec<(String, u32)> = Vec::new();
    assoc::set(&mut l, "a", 1);
    assoc::set(&mut l, "b", 2);
    assoc::set(&mut l, "a", 3);
    assert_eq!(assoc::find(&l, "a"), Some(&3));
    assert_eq!(l.len(), 2);
    assert!(assoc::unset(&mut l, "a"));
    assert!(!assoc::unset(&mut l, "a"));
    assert_eq!(assoc::find(&l, "b"), Some(&2));
}

#[test]
fn doubles_by_their_bits() {
    for f in [0.0f64, -0.0, 0.5, 1.0, 99.999, 100.0, 100.5, 1e300, -3.0, f64::MIN_POSITIVE] {
        let n = Num::Float(f.to_bits());
        assert_eq!(num_is_zero(&n), f == 0.0, "{f}");
        assert_eq!(num_below(&n, 100), f < 100.0, "{f}");
    }
    assert!(num_below(&Num::NegInt(-1), 0));
    assert!(!num_below(&Num::PosInt(5), 5));
}

#[test]
fn dates_and_local_times() {
    assert_eq!(read_date("2027-01-02 03:04:05").as_deref(), Some("2027-01-02 03:04"));
    assert_eq!(read_date("2027-01-02 03:04").as_deref(), Some("2027-01-02 03:04"));
    assert_eq!(read_date("2027-01-02").as_deref(), Some("2027-01-02 00:00"));
    assert_eq!(read_date("2027/01/02").as_deref(), Some("2027-01-02 00:00"));
    assert_eq!(read_date("02.01.2027"), None);
    let t = LocalTimes::ask(&vec![1800000000, i64::MAX]);
    assert!(t.at(1800000000).starts_with("2027-01-1"));
    assert_eq!(t.at(5), "");
    assert_eq!(t.at(i64::MAX), "");
    assert!(t.day(1800000000).unwrap().starts_with("2027-01-1"));
    assert_eq!(t.day(1800000000).unwrap().len(), 10);
    assert_eq!(t.day(5), None);
}

#[test]
fn tokens_say_who_and_until_when() {
    let b64 = |s: &str| base64::engine::general_purpose::URL_SAFE_NO_PAD.encode(s.as_bytes());
    let tok = |payload: &str| format!("{}.{}.s", b64("{\"alg\":\"RS256\"}"), b64(payload));
    let t = tok("{\"data\":{\"id\":7},\"exp\":1893456000}");
    assert_eq!(extract_user_id(&t).as_deref(), Some("7"));
    assert_eq!(jwt_exp_ts(&format!("Cloud-IDE-JWT {t}")), Some(1893456000));
    assert_eq!(extract_user_id(&tok("{\"auth_id\":\"a\",\"sub\":\"b\"}")).as_deref(), Some("a"));
    assert_eq!(extract_user_id(&tok("{\"sub\":\"b\"}")).as_deref(), Some("b"));
    assert!(parse("x").user_id.is_none());
    assert_eq!(valid_cloud_ide_jwt(&format!(" {t} ")), Some(format!("Cloud-IDE-JWT {t}")));
    assert!(valid_cloud_ide_jwt("a.b").is_none());
    assert!(valid_cloud_ide_jwt(&tok("{\"data\":{\"id\":null}}")).is_none());
}
