//! The store: documents under keys, and tables of documents in rows. Here is what the statements
//! say and how rows become values; a database runs them.
use vstd::prelude::*;
use crate::{json, text};
use crate::json::{Json, JsonV};

verus! {

broadcast use vstd::string::group_string_axioms;

/// Reads the document under a key.
pub const KV_GET: &'static str = "SELECT content FROM kv WHERE key = ?1";

/// Writes the document under a key.
pub const KV_SET: &'static str = "INSERT INTO kv(key, content, updated_at) VALUES(?1, ?2, datetime('now','localtime')) ON CONFLICT(key) DO UPDATE SET content = excluded.content, updated_at = excluded.updated_at";

/// Deletes the document under a key.
pub const KV_DELETE: &'static str = "DELETE FROM kv WHERE key = ?1";

/// The tables of rows.
pub open spec fn tables() -> Seq<Seq<char>> {
    seq![
        "accounts"@,
        "device_map"@,
        "groups"@,
        "remaining_credits"@,
        "account_cooldowns"@,
        "pay_status"@,
        "api_keys"@,
        "custom_models"@,
        "doubao_accounts"@,
        "wb_accounts"@,
        "wb_tokens"@,
        "doubao_captured_credentials"@,
    ]
}

/// The tables of rows.
pub fn row_tables() -> (r: Vec<&'static str>)
    ensures
        text::strs(r@) == tables(),
{
    let r = vec![
        "accounts",
        "device_map",
        "groups",
        "remaining_credits",
        "account_cooldowns",
        "pay_status",
        "api_keys",
        "custom_models",
        "doubao_accounts",
        "wb_accounts",
        "wb_tokens",
        "doubao_captured_credentials",
    ];
    assert(text::strs(r@) =~= tables());
    r
}

/// A statement about a table; the name in words where there is no such table.
pub open spec fn about(table: Seq<char>, statement: Seq<char>) -> Result<Seq<char>, Seq<char>> {
    if tables().contains(table) {
        Ok(statement)
    } else {
        Err("非法表名: "@ + table)
    }
}

/// The model of a statement or why there is none.
pub open spec fn statement(r: Result<String, String>) -> Result<Seq<char>, Seq<char>> {
    match r {
        Ok(s) => Ok(s@),
        Err(e) => Err(e@),
    }
}

fn make(table: &str, front: &str, back: &str) -> (r: Result<String, String>)
    ensures
        statement(r) == about(table@, front@ + table@ + back@),
{
    let all = row_tables();
    if !text::one_of(table, &all) {
        return Err(text::cat("非法表名: ", table));
    }
    Ok(text::cat3(front, table, back))
}

/// Reads all rows of a table, in the order in which they were written.
pub fn rows_all(table: &str) -> (r: Result<String, String>)
    ensures
        statement(r) == about(table@, "SELECT pk, data FROM ["@ + table@ + "] ORDER BY rowid"@),
{
    make(table, "SELECT pk, data FROM [", "] ORDER BY rowid")
}

/// Begins replacing the rows of a table.
pub fn rows_clear(table: &str) -> (r: Result<String, String>)
    ensures
        statement(r) == about(table@, "BEGIN; DELETE FROM ["@ + table@ + "];"@),
{
    make(table, "BEGIN; DELETE FROM [", "];")
}

/// Adds a row to a table.
pub fn row_insert(table: &str) -> (r: Result<String, String>)
    ensures
        statement(r) == about(
            table@,
            "INSERT INTO ["@ + table@ + "](pk, data, updated_at) VALUES(?1, ?2, datetime('now','localtime'))"@,
        ),
{
    make(table, "INSERT INTO [", "](pk, data, updated_at) VALUES(?1, ?2, datetime('now','localtime'))")
}

/// Sets a row of a table.
pub fn row_upsert(table: &str) -> (r: Result<String, String>)
    ensures
        statement(r) == about(
            table@,
            "INSERT INTO ["@ + table@
                + "](pk, data, updated_at) VALUES(?1, ?2, datetime('now','localtime')) ON CONFLICT(pk) DO UPDATE SET data = excluded.data, updated_at = excluded.updated_at"@,
        ),
{
    make(
        table,
        "INSERT INTO [",
        "](pk, data, updated_at) VALUES(?1, ?2, datetime('now','localtime')) ON CONFLICT(pk) DO UPDATE SET data = excluded.data, updated_at = excluded.updated_at",
    )
}

/// Deletes a row of a table.
pub fn row_delete(table: &str) -> (r: Result<String, String>)
    ensures
        statement(r) == about(table@, "DELETE FROM ["@ + table@ + "] WHERE pk = ?1"@),
{
    make(table, "DELETE FROM [", "] WHERE pk = ?1")
}

/// The value of a document: null where its text cannot be read.
pub open spec fn document(text: Seq<char>) -> JsonV {
    match json::json_read(text) {
        Ok(v) => v,
        Err(_) => JsonV::Null,
    }
}

/// The value of a document: null where its text cannot be read.
pub fn read_document(text: &str) -> (r: Json)
    ensures
        r@ == document(text@),
        r@.wf(),
{
    broadcast use json::lemma_view_parts;

    match json::read_json(text) {
        Ok(v) => v,
        Err(_) => Json::Null,
    }
}

/// The value that is read out of what stands under a key; nothing where there is nothing, or where it
/// cannot be read.
pub open spec fn kv_value(content: Option<Seq<char>>) -> Option<JsonV> {
    match content {
        Some(t) => match json::json_read(t) {
            Ok(v) => Some(v),
            Err(_) => None,
        },
        None => None,
    }
}

/// The value of the document under a key; nothing where there is none, or where its text cannot be
/// read.
pub fn kv_get(content: Option<&str>) -> (r: Option<Json>)
    ensures
        json::opt(r) == kv_value(text::opt_str(content)),
        r matches Some(v) ==> v@.wf(),
{
    match content {
        Some(t) => match json::read_json(t) {
            Ok(v) => Some(v),
            Err(_) => None,
        },
        None => None,
    }
}

/// The text of a document. A value without floats that is not too deep is read back from it.
pub fn document_text(v: &Json) -> (r: String)
    requires
        v@.wf(),
    ensures
        r@ == json::json_text(v@),
        json::is_storable(v@) ==> document(r@) == v@ && kv_value(Some(r@)) == Some(v@),
{
    json::print_json(v)
}

/// The document under a key of the documents that are stored.
pub open spec fn document_at(kv: Map<Seq<char>, Seq<char>>, key: Seq<char>) -> Option<JsonV> {
    kv_value(
        if kv.dom().contains(key) {
            Some(kv[key])
        } else {
            None
        },
    )
}

/// What is written under a key.
pub struct KvWrite {
    pub key: String,
    pub content: String,
}

/// Writes a document under a key. Once it is stored, it is read back from the key, whatever was there
/// before, as long as it holds no floats and is not too deep.
pub fn kv_set(key: &str, v: &Json) -> (r: KvWrite)
    requires
        v@.wf(),
    ensures
        r.key@ == key@,
        r.content@ == json::json_text(v@),
        json::is_storable(v@) ==> forall|kv: Map<Seq<char>, Seq<char>>|
            #[trigger] document_at(kv.insert(r.key@, r.content@), key@) == Some(v@),
{
    KvWrite { key: key.to_owned(), content: document_text(v) }
}

/// Writing a document leaves those under other keys as they were.
pub proof fn other_documents_stay(
    kv: Map<Seq<char>, Seq<char>>,
    key: Seq<char>,
    content: Seq<char>,
    other: Seq<char>,
)
    requires
        other != key,
    ensures
        document_at(kv.insert(key, content), other) == document_at(kv, other),
        document_at(kv.remove(key), other) == document_at(kv, other),
{
}

/// A key that is deleted, or was never written, has no document.
pub proof fn deleted_documents_are_gone(kv: Map<Seq<char>, Seq<char>>, key: Seq<char>)
    ensures
        document_at(kv.remove(key), key) is None,
        document_at(Map::empty(), key) is None,
{
}

/// The models of rows.
pub open spec fn row_texts(rows: Seq<(String, String)>) -> Seq<(Seq<char>, Seq<char>)> {
    rows.map_values(|p: (String, String)| (p.0@, p.1@))
}

/// The values of rows.
pub open spec fn documents(rows: Seq<(Seq<char>, Seq<char>)>) -> Seq<(Seq<char>, JsonV)> {
    rows.map_values(|p: (Seq<char>, Seq<char>)| (p.0, document(p.1)))
}

/// The texts of rows.
pub open spec fn texts(rows: Seq<(Seq<char>, JsonV)>) -> Seq<(Seq<char>, Seq<char>)> {
    rows.map_values(|p: (Seq<char>, JsonV)| (p.0, json::json_text(p.1)))
}

/// The values of rows, in their order.
pub fn read_rows(rows: &Vec<(String, String)>) -> (r: Vec<(String, Json)>)
    ensures
        json::fields(r@) == documents(row_texts(rows@)),
        forall|i: int| 0 <= i < r@.len() ==> (#[trigger] r@[i]).1@.wf(),
{
    let ghost want = documents(row_texts(rows@));
    let mut out: Vec<(String, Json)> = Vec::new();
    let mut i: usize = 0;
    while i < rows.len()
        invariant
            i <= rows@.len(),
            want == documents(row_texts(rows@)),
            json::fields(out@) == want.take(i as int),
            forall|k: int| 0 <= k < out@.len() ==> (#[trigger] out@[k]).1@.wf(),
        decreases rows@.len() - i,
    {
        let ghost before = json::fields(out@);
        let pk = rows[i].0.clone();
        let v = read_document(rows[i].1.as_str());
        out.push((pk, v));
        i += 1;
        proof {
            assert(json::fields(out@) =~= before.push((pk@, v@)));
            assert(want[i - 1] == (pk@, v@));
            assert(json::fields(out@) =~= want.take(i as int));
        }
    }
    assert(want.take(want.len() as int) =~= want);
    out
}

/// Whether every value is one that is read back.
pub open spec fn are_storable(rows: Seq<(Seq<char>, JsonV)>) -> bool {
    forall|i: int| 0 <= i < rows.len() ==> json::is_storable((#[trigger] rows[i]).1)
}

/// The texts of rows, in their order. Rows whose values hold no floats and are not too deep are
/// read back from them.
pub fn write_rows(rows: &Vec<(String, Json)>) -> (r: Vec<(String, String)>)
    requires
        forall|i: int| 0 <= i < rows@.len() ==> (#[trigger] rows@[i]).1@.wf(),
    ensures
        row_texts(r@) == texts(json::fields(rows@)),
        are_storable(json::fields(rows@)) ==> documents(row_texts(r@)) == json::fields(rows@),
{
    let ghost all = json::fields(rows@);
    let ghost want = texts(all);
    let mut out: Vec<(String, String)> = Vec::new();
    let mut i: usize = 0;
    while i < rows.len()
        invariant
            i <= rows@.len(),
            all == json::fields(rows@),
            want == texts(all),
            forall|k: int| 0 <= k < rows@.len() ==> (#[trigger] rows@[k]).1@.wf(),
            row_texts(out@) == want.take(i as int),
            are_storable(all) ==> documents(row_texts(out@)) == all.take(i as int),
        decreases rows@.len() - i,
    {
        let ghost before = row_texts(out@);
        let pk = rows[i].0.clone();
        let t = document_text(&rows[i].1);
        out.push((pk, t));
        proof {
            assert(row_texts(out@) =~= before.push((pk@, t@)));
            assert(all[i as int] == (pk@, rows@[i as int].1@));
            assert(want[i as int] == (pk@, t@));
            assert(row_texts(out@) =~= want.take(i + 1));
            if are_storable(all) {
                assert(json::is_storable(all[i as int].1));
                assert(documents(row_texts(out@)) =~= documents(before).push((pk@, document(t@))));
                assert(documents(row_texts(out@)) =~= all.take(i + 1));
            }
        }
        i += 1;
    }
    assert(want.take(want.len() as int) =~= want);
    assert(all.take(all.len() as int) =~= all);
    out
}

// ---- what the statements do to the rows of a table ----

/// A statement that changes the rows of a table.
pub enum RowStatement {
    /// Begins a replacement: all rows go.
    Clear,
    /// Adds a row.
    Insert(String, String),
    /// Adds a row, or sets the one that is there.
    Upsert(String, String),
    /// Takes a row away.
    Delete(String),
    /// Ends a replacement.
    Commit,
    /// Undoes a replacement that has not ended.
    Rollback,
}

/// The model of a statement that changes rows.
pub enum RowStatementV {
    Clear,
    Insert(Seq<char>, Seq<char>),
    Upsert(Seq<char>, Seq<char>),
    Delete(Seq<char>),
    Commit,
    Rollback,
}

impl View for RowStatement {
    type V = RowStatementV;

    open spec fn view(&self) -> RowStatementV {
        match *self {
            RowStatement::Clear => RowStatementV::Clear,
            RowStatement::Insert(pk, data) => RowStatementV::Insert(pk@, data@),
            RowStatement::Upsert(pk, data) => RowStatementV::Upsert(pk@, data@),
            RowStatement::Delete(pk) => RowStatementV::Delete(pk@),
            RowStatement::Commit => RowStatementV::Commit,
            RowStatement::Rollback => RowStatementV::Rollback,
        }
    }
}

/// The models of statements.
pub open spec fn statements(v: Seq<RowStatement>) -> Seq<RowStatementV> {
    v.map_values(|s: RowStatement| s@)
}

/// Where the row of a key stands; the number of rows where there is none.
pub open spec fn place_of(rows: Seq<(Seq<char>, Seq<char>)>, pk: Seq<char>) -> int
    decreases rows.len(),
{
    if rows.len() == 0 || rows[0].0 == pk {
        0
    } else {
        1 + place_of(rows.skip(1), pk)
    }
}

/// The data of the row of a key.
pub open spec fn row_of(rows: Seq<(Seq<char>, Seq<char>)>, pk: Seq<char>) -> Option<Seq<char>> {
    let k = place_of(rows, pk);
    if 0 <= k < rows.len() {
        Some(rows[k].1)
    } else {
        None
    }
}

/// The model of a table whose keys are texts, as all but that of the accounts have them.
#[verifier::ext_equal]
pub struct TableV {
    /// The rows in the order in which they were added.
    pub rows: Seq<(Seq<char>, Seq<char>)>,
    /// The rows that were there when a replacement began that has not ended.
    pub kept: Option<Seq<(Seq<char>, Seq<char>)>>,
}

/// A table that holds rows while nothing is replaced.
pub open spec fn at_rest(rows: Seq<(Seq<char>, Seq<char>)>) -> TableV {
    TableV { rows, kept: None }
}

/// The table after a statement; nothing where it fails, and the table is then as it was. It fails where
/// a second row of a key would be added, a replacement begins in another, or one ends that has not begun.
pub open spec fn table_after(t: TableV, s: RowStatementV) -> Option<TableV> {
    match s {
        RowStatementV::Clear => match t.kept {
            None => Some(TableV { rows: Seq::empty(), kept: Some(t.rows) }),
            Some(_) => None,
        },
        RowStatementV::Insert(pk, data) => if row_of(t.rows, pk) is Some {
            None
        } else {
            Some(TableV { rows: t.rows.push((pk, data)), ..t })
        },
        RowStatementV::Upsert(pk, data) => if row_of(t.rows, pk) is Some {
            Some(TableV { rows: t.rows.update(place_of(t.rows, pk), (pk, data)), ..t })
        } else {
            Some(TableV { rows: t.rows.push((pk, data)), ..t })
        },
        RowStatementV::Delete(pk) => if row_of(t.rows, pk) is Some {
            Some(TableV { rows: t.rows.remove(place_of(t.rows, pk)), ..t })
        } else {
            Some(t)
        },
        RowStatementV::Commit => match t.kept {
            Some(_) => Some(at_rest(t.rows)),
            None => None,
        },
        RowStatementV::Rollback => match t.kept {
            Some(rows) => Some(at_rest(rows)),
            None => None,
        },
    }
}

/// The table after statements, one after another; nothing where one of them fails.
pub open spec fn table_after_all(t: TableV, list: Seq<RowStatementV>) -> Option<TableV>
    decreases list.len(),
{
    if list.len() == 0 {
        Some(t)
    } else {
        match table_after_all(t, list.drop_last()) {
            Some(u) => table_after(u, list.last()),
            None => None,
        }
    }
}

/// Whether no two rows have one key.
pub open spec fn keys_differ<V>(rows: Seq<(Seq<char>, V)>) -> bool {
    forall|i: int, j: int| 0 <= i < j < rows.len() ==> (#[trigger] rows[i]).0 != (#[trigger] rows[j]).0
}

/// The statements that put rows in the place of all that a table holds.
pub open spec fn replacement(rows: Seq<(Seq<char>, Seq<char>)>) -> Seq<RowStatementV> {
    seq![RowStatementV::Clear] + rows.map_values(|p: (Seq<char>, Seq<char>)| RowStatementV::Insert(p.0, p.1)) + seq![
        RowStatementV::Commit,
    ]
}

proof fn lemma_place(rows: Seq<(Seq<char>, Seq<char>)>, pk: Seq<char>)
    ensures
        0 <= place_of(rows, pk) <= rows.len(),
        place_of(rows, pk) < rows.len() ==> rows[place_of(rows, pk)].0 == pk,
        forall|i: int| 0 <= i < place_of(rows, pk) ==> (#[trigger] rows[i]).0 != pk,
    decreases rows.len(),
{
    if rows.len() > 0 && rows[0].0 != pk {
        lemma_place(rows.skip(1), pk);
        assert forall|i: int| 0 <= i < place_of(rows, pk) implies (#[trigger] rows[i]).0 != pk by {
            if i > 0 {
                assert(rows.skip(1)[i - 1] == rows[i]);
            }
        }
    }
}

proof fn lemma_place_is(rows: Seq<(Seq<char>, Seq<char>)>, pk: Seq<char>, k: int)
    requires
        0 <= k <= rows.len(),
        k < rows.len() ==> rows[k].0 == pk,
        forall|i: int| 0 <= i < k ==> (#[trigger] rows[i]).0 != pk,
    ensures
        place_of(rows, pk) == k,
{
    lemma_place(rows, pk);
    let p = place_of(rows, pk);
    if p < k {
        assert(rows[p].0 != pk);
    } else if k < p {
        assert(rows[k].0 != pk);
    }
}

proof fn lemma_replaced(before: Seq<(Seq<char>, Seq<char>)>, rows: Seq<(Seq<char>, Seq<char>)>, n: int)
    requires
        keys_differ(rows),
        0 <= n <= rows.len(),
    ensures
        table_after_all(at_rest(before), replacement(rows).take(n + 1)) == Some(
            TableV { rows: rows.take(n), kept: Some(before) },
        ),
    decreases n,
{
    let list = replacement(rows).take(n + 1);
    if n == 0 {
        reveal_with_fuel(table_after_all, 2);
        assert(list.drop_last() =~= Seq::empty());
        assert(list.last() == RowStatementV::Clear);
        assert(rows.take(0) =~= Seq::empty());
    } else {
        lemma_replaced(before, rows, n - 1);
        assert(list.drop_last() =~= replacement(rows).take(n));
        let there = rows.take(n - 1);
        let next = rows[n - 1];
        assert(list.last() == RowStatementV::Insert(next.0, next.1));
        assert forall|i: int| 0 <= i < there.len() implies (#[trigger] there[i]).0 != next.0 by {
            assert(there[i] == rows[i]);
        }
        lemma_place_is(there, next.0, there.len() as int);
        assert(there.push(next) =~= rows.take(n));
    }
}

/// Rows of different keys that are put in the place of all others are then all that the table holds, in
/// their order, and nothing is being replaced.
pub proof fn replaced_rows_are_all(before: Seq<(Seq<char>, Seq<char>)>, rows: Seq<(Seq<char>, Seq<char>)>)
    requires
        keys_differ(rows),
    ensures
        table_after_all(at_rest(before), replacement(rows)) == Some(at_rest(rows)),
{
    let list = replacement(rows);
    let n = rows.len() as int;
    lemma_replaced(before, rows, n);
    assert(list.drop_last() =~= list.take(n + 1));
    assert(list.last() == RowStatementV::Commit);
    assert(rows.take(n) =~= rows);
}

proof fn lemma_rows_there(
    before: Seq<(Seq<char>, Seq<char>)>,
    rows: Seq<(Seq<char>, Seq<char>)>,
    n: int,
)
    requires
        0 <= n <= rows.len(),
    ensures
        table_after_all(at_rest(before), replacement(rows).take(n + 1)) matches Some(t) ==> t.rows == rows.take(n),
    decreases n,
{
    let list = replacement(rows).take(n + 1);
    if n == 0 {
        reveal_with_fuel(table_after_all, 2);
        assert(list.drop_last() =~= Seq::empty());
        assert(list.last() == RowStatementV::Clear);
        assert(rows.take(0) =~= Seq::empty());
    } else {
        lemma_rows_there(before, rows, n - 1);
        assert(list.drop_last() =~= replacement(rows).take(n));
        assert(list.last() == RowStatementV::Insert(rows[n - 1].0, rows[n - 1].1));
        assert(rows.take(n - 1).push(rows[n - 1]) =~= rows.take(n));
    }
}

proof fn lemma_stays_failed(t: TableV, list: Seq<RowStatementV>, n: int)
    requires
        0 <= n <= list.len(),
        table_after_all(t, list.take(n)) is None,
    ensures
        table_after_all(t, list) is None,
    decreases list.len() - n,
{
    if n < list.len() {
        assert(list.take(n + 1).drop_last() =~= list.take(n));
        lemma_stays_failed(t, list, n + 1);
    } else {
        assert(list.take(n) =~= list);
    }
}

/// A replacement with a repeated key fails, at the second row of the key at the latest.
pub proof fn a_repeated_key_fails(
    before: Seq<(Seq<char>, Seq<char>)>,
    rows: Seq<(Seq<char>, Seq<char>)>,
    i: int,
    j: int,
)
    requires
        0 <= i < j < rows.len(),
        rows[i].0 == rows[j].0,
    ensures
        table_after_all(at_rest(before), replacement(rows).take(j + 2)) is None,
        table_after_all(at_rest(before), replacement(rows)) is None,
{
    let list = replacement(rows);
    lemma_rows_there(before, rows, j);
    let upto = list.take(j + 2);
    assert(upto.drop_last() =~= list.take(j + 1));
    assert(upto.last() == RowStatementV::Insert(rows[j].0, rows[j].1));
    if let Some(t) = table_after_all(at_rest(before), list.take(j + 1)) {
        lemma_place(t.rows, rows[j].0);
        assert(t.rows[i].0 == rows[j].0);
        if place_of(t.rows, rows[j].0) >= t.rows.len() {
            assert(t.rows[i].0 != rows[j].0);
        }
    }
    lemma_stays_failed(at_rest(before), list, j + 2);
}

/// The rows that a replacement began with are kept until it ends.
proof fn lemma_kept(before: Seq<(Seq<char>, Seq<char>)>, rows: Seq<(Seq<char>, Seq<char>)>, n: int)
    requires
        0 < n <= rows.len() + 1,
    ensures
        table_after_all(at_rest(before), replacement(rows).take(n)) matches Some(t) ==> t.kept == Some(before),
    decreases n,
{
    let list = replacement(rows).take(n);
    if n == 1 {
        reveal_with_fuel(table_after_all, 2);
        assert(list.drop_last() =~= Seq::empty());
        assert(list.last() == RowStatementV::Clear);
    } else {
        lemma_kept(before, rows, n - 1);
        assert(list.drop_last() =~= replacement(rows).take(n - 1));
        assert(list.last() == RowStatementV::Insert(rows[n - 2].0, rows[n - 2].1));
    }
}

/// A replacement that fails is undone: wherever it stops once it has begun and before it has ended, and
/// whatever rows it was to put there, the table holds after a rollback what it held before, and nothing
/// is being replaced.
pub proof fn a_replacement_that_fails_is_undone(
    before: Seq<(Seq<char>, Seq<char>)>,
    rows: Seq<(Seq<char>, Seq<char>)>,
    n: int,
)
    requires
        0 < n < replacement(rows).len(),
    ensures
        table_after_all(at_rest(before), replacement(rows).take(n)) matches Some(t) ==> table_after(
            t,
            RowStatementV::Rollback,
        ) == Some(at_rest(before)),
{
    lemma_kept(before, rows, n);
}

/// Setting a row sets that of its key and leaves all others as they were; taking one away leaves none of
/// its key.
pub proof fn one_row_changes(t: TableV, pk: Seq<char>, data: Seq<char>, other: Seq<char>)
    requires
        keys_differ(t.rows),
    ensures
        table_after(t, RowStatementV::Upsert(pk, data)) matches Some(u) && keys_differ(u.rows) && row_of(u.rows, pk)
            == Some(data) && (other != pk ==> row_of(u.rows, other) == row_of(t.rows, other)),
        table_after(t, RowStatementV::Delete(pk)) matches Some(u) && keys_differ(u.rows) && row_of(u.rows, pk) is None
            && (other != pk ==> row_of(u.rows, other) == row_of(t.rows, other)),
{
    let rows = t.rows;
    lemma_place(rows, pk);
    lemma_place(rows, other);
    let k = place_of(rows, pk);
    let m = place_of(rows, other);
    let set = table_after(t, RowStatementV::Upsert(pk, data))->Some_0.rows;
    let gone = table_after(t, RowStatementV::Delete(pk))->Some_0.rows;
    assert forall|i: int, j: int| 0 <= i < j < set.len() implies (#[trigger] set[i]).0 != (#[trigger] set[j]).0 by {
        if j < rows.len() {
            assert(set[i].0 == rows[i].0 && set[j].0 == rows[j].0);
        } else {
            assert(set[i] == rows[i]);
        }
    }
    assert(set[k] == (pk, data));
    assert forall|i: int| 0 <= i < k implies (#[trigger] set[i]).0 != pk by {
        assert(set[i] == rows[i]);
    }
    lemma_place_is(set, pk, k);
    if other != pk {
        if m < rows.len() {
            assert(set[m].0 == rows[m].0);
            assert forall|i: int| 0 <= i < m implies (#[trigger] set[i]).0 != other by {
                assert(set[i].0 == rows[i].0);
            }
            lemma_place_is(set, other, m);
        } else {
            assert forall|i: int| 0 <= i < set.len() implies (#[trigger] set[i]).0 != other by {
                if i < rows.len() {
                    assert(set[i].0 == rows[i].0);
                }
            }
            lemma_place_is(set, other, set.len() as int);
        }
    }
    if k < rows.len() {
        assert forall|i: int| 0 <= i < gone.len() implies (#[trigger] gone[i]) == rows[if i < k {
            i
        } else {
            i + 1
        }] by {}
        assert forall|i: int| 0 <= i < gone.len() implies (#[trigger] gone[i]).0 != pk by {
            if i >= k {
                assert(rows[k].0 != rows[i + 1].0);
            }
        }
        lemma_place_is(gone, pk, gone.len() as int);
        if other != pk {
            let g = if m > k {
                m - 1
            } else {
                m
            };
            assert forall|i: int| 0 <= i < g implies (#[trigger] gone[i]).0 != other by {
                if i < k {
                    assert(rows[i].0 != other);
                } else {
                    assert(rows[i + 1].0 != other);
                }
            }
            lemma_place_is(gone, other, g);
        }
    }
}

impl RowStatement {
    /// The text of the statement for a table.
    pub fn sql(&self, table: &str) -> (r: Result<String, String>)
        ensures
            statement(r) == match self@ {
                RowStatementV::Clear => about(table@, "BEGIN; DELETE FROM ["@ + table@ + "];"@),
                RowStatementV::Insert(_, _) => about(
                    table@,
                    "INSERT INTO ["@ + table@ + "](pk, data, updated_at) VALUES(?1, ?2, datetime('now','localtime'))"@,
                ),
                RowStatementV::Upsert(_, _) => about(
                    table@,
                    "INSERT INTO ["@ + table@
                        + "](pk, data, updated_at) VALUES(?1, ?2, datetime('now','localtime')) ON CONFLICT(pk) DO UPDATE SET data = excluded.data, updated_at = excluded.updated_at"@,
                ),
                RowStatementV::Delete(_) => about(table@, "DELETE FROM ["@ + table@ + "] WHERE pk = ?1"@),
                RowStatementV::Commit => about(table@, "COMMIT;"@),
                RowStatementV::Rollback => about(table@, "ROLLBACK;"@),
            },
    {
        match self {
            RowStatement::Clear => rows_clear(table),
            RowStatement::Insert(_, _) => row_insert(table),
            RowStatement::Upsert(_, _) => row_upsert(table),
            RowStatement::Delete(_) => row_delete(table),
            RowStatement::Commit => match rows_clear(table) {
                Ok(_) => Ok("COMMIT;".to_owned()),
                Err(e) => Err(e),
            },
            RowStatement::Rollback => match rows_clear(table) {
                Ok(_) => Ok("ROLLBACK;".to_owned()),
                Err(e) => Err(e),
            },
        }
    }
}

/// The statements that put rows in the place of all that a table holds. Once they have run, the table
/// holds these rows and no others. Where one of them fails, a rollback undoes those before it. Rows of
/// different keys whose values hold no floats and are not too deep are read back as they were and in
/// their order, but from the table of the accounts: its keys are numbers, and rows come in the order of
/// the numbers there.
pub fn rows_replace(table: &str, rows: &Vec<(String, Json)>) -> (r: Result<Vec<RowStatement>, String>)
    requires
        forall|i: int| 0 <= i < rows@.len() ==> (#[trigger] rows@[i]).1@.wf(),
    ensures
        match r {
            Ok(list) => {
                &&& tables().contains(table@)
                &&& statements(list@) == replacement(texts(json::fields(rows@)))
                &&& table@ != "accounts"@ && keys_differ(json::fields(rows@)) && are_storable(json::fields(rows@))
                    ==> forall|before: Seq<(Seq<char>, Seq<char>)>|
                    (#[trigger] table_after_all(at_rest(before), statements(list@))) matches Some(after)
                        && after.kept is None && documents(after.rows) == json::fields(rows@)
            },
            Err(e) => !tables().contains(table@) && e@ == "非法表名: "@ + table@,
        },
{
    if let Err(e) = rows_clear(table) {
        return Err(e);
    }
    let written = write_rows(rows);
    let ghost all = row_texts(written@);
    let ghost want = replacement(all);
    let mut list: Vec<RowStatement> = Vec::new();
    list.push(RowStatement::Clear);
    assert(statements(list@) =~= want.take(1));
    let mut i: usize = 0;
    while i < written.len()
        invariant
            i <= written@.len(),
            all == row_texts(written@),
            want == replacement(all),
            statements(list@) == want.take(i + 1),
        decreases written@.len() - i,
    {
        let ghost before = statements(list@);
        let s = RowStatement::Insert(written[i].0.clone(), written[i].1.clone());
        list.push(s);
        proof {
            assert(all[i as int] == (written@[i as int].0@, written@[i as int].1@));
            assert(statements(list@) =~= before.push(s@));
            assert(want[i + 1] == s@);
            assert(statements(list@) =~= want.take(i + 2));
        }
        i += 1;
    }
    let ghost before = statements(list@);
    list.push(RowStatement::Commit);
    proof {
        assert(statements(list@) =~= before.push(RowStatementV::Commit));
        assert(statements(list@) =~= want);
        if keys_differ(json::fields(rows@)) && are_storable(json::fields(rows@)) {
            let given = json::fields(rows@);
            assert forall|i: int, j: int| 0 <= i < j < all.len() implies (#[trigger] all[i]).0 != (
            #[trigger] all[j]).0 by {
                assert(all[i].0 == given[i].0 && all[j].0 == given[j].0);
            }
            assert forall|b: Seq<(Seq<char>, Seq<char>)>|
                (#[trigger] table_after_all(at_rest(b), statements(list@))) matches Some(after) && after.kept is None
                    && documents(after.rows) == given by {
                replaced_rows_are_all(b, all);
            }
        }
    }
    Ok(list)
}

/// Why a statement could not be run.
pub fn store_error(error: &str) -> (r: String)
    ensures
        r@ == "SQLite 操作失败: "@ + error@,
{
    text::cat("SQLite 操作失败: ", error)
}

// ---- what holds of tables ----

/// A statement is about one of the twelve tables; any other name is refused.
pub proof fn statements_are_about_known_tables(table: Seq<char>, s: Seq<char>)
    ensures
        (table == "accounts"@ || table == "device_map"@ || table == "groups"@ || table == "remaining_credits"@ || table == "account_cooldowns"@ || table == "pay_status"@ || table == "api_keys"@ || table == "custom_models"@ || table == "doubao_accounts"@ || table == "wb_accounts"@ || table == "wb_tokens"@ || table == "doubao_captured_credentials"@) ==> about(table, s) == Ok::<Seq<char>, Seq<char>>(s),
        !(table == "accounts"@ || table == "device_map"@ || table == "groups"@ || table == "remaining_credits"@ || table == "account_cooldowns"@ || table == "pay_status"@ || table == "api_keys"@ || table == "custom_models"@ || table == "doubao_accounts"@ || table == "wb_accounts"@ || table == "wb_tokens"@ || table == "doubao_captured_credentials"@) ==> about(table, s) == Err::<Seq<char>, Seq<char>>("非法表名: "@ + table),
{
    let t = tables();
    assert(t[0] == "accounts"@ && t[1] == "device_map"@ && t[2] == "groups"@ && t[3] == "remaining_credits"@ && t[4] == "account_cooldowns"@ && t[5] == "pay_status"@ && t[6] == "api_keys"@ && t[7] == "custom_models"@ && t[8] == "doubao_accounts"@ && t[9] == "wb_accounts"@ && t[10] == "wb_tokens"@ && t[11] == "doubao_captured_credentials"@);
}

/// A document is what its text says; a text that cannot be read is none, and in a row null.
pub proof fn documents_are_read_from_their_text(t: Seq<char>, v: JsonV)
    ensures
        json::json_read(t) == Ok::<JsonV, Seq<char>>(v) ==> kv_value(Some(t)) == Some(v) && document(t) == v,
        json::json_read(t) is Err ==> kv_value(Some(t)) is None && document(t) == JsonV::Null,
        kv_value(None) is None,
{
}

/// A row is found by its key, and the first of a key counts.
pub proof fn rows_are_found_by_key(
    a: Seq<(Seq<char>, Seq<char>)>,
    b: Seq<(Seq<char>, Seq<char>)>,
    pk: Seq<char>,
    other: Seq<char>,
    data: Seq<char>,
)
    ensures
        0 <= place_of(a, pk) <= a.len(),
        row_of(a, pk) is Some ==> row_of(a + b, pk) == row_of(a, pk),
        row_of(a, pk) is None ==> row_of(a + b, pk) == row_of(b, pk),
        row_of(seq![(pk, data)], pk) == Some(data),
        other != pk ==> row_of(seq![(other, data)], pk) is None,
        place_of(a, pk) < a.len() ==> place_of(a + b, pk) == place_of(a, pk),
        place_of(a, pk) == a.len() ==> place_of(a + b, pk) == a.len() + place_of(b, pk),
        place_of(b, pk) <= b.len() && place_of(b, pk) >= 0,
    decreases a.len() + b.len(),
{
    reveal_with_fuel(place_of, 2);
    assert(seq![(other, data)].skip(1) =~= Seq::<(Seq<char>, Seq<char>)>::empty());
    if b.len() > 0 {
        rows_are_found_by_key(Seq::empty(), b.skip(1), pk, other, data);
    }
    if a.len() == 0 {
        assert(a + b =~= b);
    } else {
        rows_are_found_by_key(a.skip(1), b, pk, other, data);
        assert((a + b).skip(1) =~= a.skip(1) + b);
        assert((a + b)[0] == a[0]);
        let k = place_of(a, pk);
        if k < a.len() {
            assert((a + b)[k] == a[k]);
        } else {
            let j = place_of(b, pk);
            assert(j < b.len() ==> (a + b)[a.len() + j] == b[j]);
        }
    }
}

/// Rows are replaced by clearing the table, putting each of them in, in order, and keeping the result.
pub proof fn replacements_put_in_every_row(rows: Seq<(Seq<char>, Seq<char>)>, i: int)
    requires
        0 <= i < rows.len(),
    ensures
        replacement(rows).len() == rows.len() + 2,
        replacement(rows)[0] is Clear,
        replacement(rows)[i + 1] == RowStatementV::Insert(rows[i].0, rows[i].1),
        replacement(rows).last() is Commit,
{
}

} // verus!
