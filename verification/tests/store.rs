use aiwork::json::{read_json, Json};
use aiwork::store::{
    document_text, kv_get, read_document, read_rows, row_delete, row_insert, row_tables, row_upsert, rows_all,
    rows_clear, rows_replace, store_error, RowStatement, KV_DELETE, KV_GET, KV_SET,
};

fn json(text: &str) -> Json {
    match read_json(text) {
        Ok(v) => v,
        Err(e) => panic!("{e}"),
    }
}

fn open() -> rusqlite::Connection {
    let c = rusqlite::Connection::open_in_memory().unwrap();
    c.execute_batch("CREATE TABLE kv (key TEXT PRIMARY KEY, content TEXT NOT NULL, updated_at TEXT NOT NULL)").unwrap();
    for t in row_tables() {
        c.execute_batch(&format!("CREATE TABLE [{t}] (pk TEXT PRIMARY KEY, data TEXT NOT NULL, updated_at TEXT)"))
            .unwrap();
    }
    c
}

fn content(c: &rusqlite::Connection, key: &str) -> Option<String> {
    c.query_row(KV_GET, [key], |r| r.get::<_, String>(0)).ok()
}

fn all(c: &rusqlite::Connection, table: &str) -> Vec<(String, Json)> {
    let sql = rows_all(table).unwrap();
    let mut stmt = c.prepare(&sql).unwrap();
    let rows: Vec<(String, String)> =
        stmt.query_map([], |r| Ok((r.get(0)?, r.get(1)?))).unwrap().map(|r| r.unwrap()).collect();
    read_rows(&rows)
}

#[test]
fn kv_roundtrip_and_default_fallback() {
    let c = open();
    assert!(kv_get(content(&c, "nope").as_deref()).is_none());
    let v = json("{\"a\":7,\"b\":\"x\"}");
    c.execute(KV_SET, ("k1", document_text(&v))).unwrap();
    let got = kv_get(content(&c, "k1").as_deref()).unwrap();
    assert_eq!((got.i64_at("a"), got.str_at("b")), (Some(7), Some("x")));
    c.execute(KV_SET, ("k1", document_text(&json("{\"a\":8,\"b\":\"y\"}")))).unwrap();
    let got = kv_get(content(&c, "k1").as_deref()).unwrap();
    assert_eq!((got.i64_at("a"), got.str_at("b")), (Some(8), Some("y")));
    c.execute(KV_DELETE, ["k1"]).unwrap();
    assert!(kv_get(content(&c, "k1").as_deref()).is_none());
    assert!(kv_get(Some("{broken")).is_none());
}

#[test]
fn rows_roundtrip_and_whitelist() {
    let c = open();
    let rows = vec![("u1".to_string(), json("{\"v\":1}")), ("u2".to_string(), json("{\"v\":2}"))];
    for s in rows_replace("device_map", &rows).unwrap() {
        let sql = s.sql("device_map").unwrap();
        match s {
            RowStatement::Insert(pk, data) => c.execute(&sql, (pk, data)).map(|_| ()).unwrap(),
            _ => c.execute_batch(&sql).unwrap(),
        }
    }
    let got = all(&c, "device_map");
    assert_eq!(got.len(), 2);
    assert_eq!(got[0].0, "u1");
    assert_eq!(got[1].1.i64_at("v"), Some(2));
    c.execute(&row_upsert("device_map").unwrap(), ("u1", document_text(&json("{\"v\":9}")))).unwrap();
    assert_eq!(all(&c, "device_map")[0].1.i64_at("v"), Some(9));
    c.execute(&row_delete("device_map").unwrap(), ["u1"]).unwrap();
    assert_eq!(all(&c, "device_map").len(), 1);
    assert_eq!(rows_all("sqlite_master"), Err("非法表名: sqlite_master".into()));
    assert!(rows_clear("kv").is_err());
    assert!(row_insert("x];--").is_err());
    assert!(row_upsert("").is_err());
    assert!(row_delete("Accounts").is_err());
}

#[test]
fn statements_name_their_table() {
    assert_eq!(rows_all("accounts").unwrap(), "SELECT pk, data FROM [accounts] ORDER BY rowid");
    assert_eq!(rows_clear("groups").unwrap(), "BEGIN; DELETE FROM [groups];");
    assert_eq!(row_delete("wb_tokens").unwrap(), "DELETE FROM [wb_tokens] WHERE pk = ?1");
}

#[test]
fn broken_rows_are_null() {
    let rows = read_rows(&vec![("a".to_string(), "{".to_string()), ("b".to_string(), "[1]".to_string())]);
    assert!(rows[0].1.is_null());
    assert_eq!(rows[1].1.as_array().unwrap().len(), 1);
    assert!(read_document("").is_null());
    assert_eq!(store_error("busy"), "SQLite 操作失败: busy");
}

#[test]
fn written_documents_are_read_back() {
    let text = "{\"a\":[1,-2,true,null,\"x\\\"y\\n\"],\"b\":{\"c\":18446744073709551615}}";
    assert_eq!(document_text(&json(text)), text);
    assert_eq!(document_text(&read_document(&document_text(&json(text)))), text);
    let deep = format!("{}1{}", "[".repeat(127), "]".repeat(127));
    assert_eq!(document_text(&json(&deep)), deep);
    let deeper = format!("{}1{}", "[".repeat(128), "]".repeat(128));
    assert!(read_json(&deeper).is_err());
}
