//! Lists that outlive a switch of accounts: the project folders and the recently opened paths of
//! an editor's state, taken before a restore and merged into the restored state.
use vstd::prelude::*;
use crate::{digits, json, text};
use crate::json::{Json, JsonV};

verus! {

broadcast use vstd::string::group_string_axioms;

/// The key of the project folders.
pub const KEY_PROJECT_FOLDERS: &'static str = "solo-lite.local-project-folders";

/// The key of the recently opened paths.
pub const KEY_RECENT_PATHS: &'static str = "history.recentlyOpenedPathsList";

/// A value as the state stores it.
pub enum StoredValue {
    Text(String),
    Blob(Vec<u8>),
    Other,
}

/// A value's text, and whether it is stored as bytes.
pub struct KeyVal {
    pub text: String,
    pub blob: bool,
}

/// `String::from_utf8`: the text of bytes that are UTF-8, and nothing of any others.
#[verifier::external_body]
fn from_utf8(bytes: Vec<u8>) -> (r: Option<String>)
    ensures
        match r {
            Some(t) => vstd::utf8::valid_utf8(bytes@) && t@ == vstd::utf8::decode_utf8(bytes@),
            None => !vstd::utf8::valid_utf8(bytes@),
        },
{
    String::from_utf8(bytes).ok()
}

/// The text of a stored value, where it has one.
pub open spec fn stored_text(v: Option<StoredValue>) -> Option<(Seq<char>, bool)> {
    match v {
        Some(StoredValue::Text(s)) => Some((s@, false)),
        Some(StoredValue::Blob(b)) => if vstd::utf8::valid_utf8(b@) {
            Some((vstd::utf8::decode_utf8(b@), true))
        } else {
            None
        },
        _ => None,
    }
}

/// What an optional value holds.
pub open spec fn opt_keyval(v: Option<KeyVal>) -> Option<(Seq<char>, bool)> {
    match v {
        Some(k) => Some((k.text@, k.blob)),
        None => None,
    }
}

/// The text of a stored value: bytes that are no UTF-8 are left alone.
pub fn read_key(v: Option<StoredValue>) -> (r: Option<KeyVal>)
    ensures
        opt_keyval(r) == stored_text(v),
{
    match v {
        Some(StoredValue::Text(s)) => Some(KeyVal { text: s, blob: false }),
        Some(StoredValue::Blob(b)) => match from_utf8(b) {
            Some(t) => Some(KeyVal { text: t, blob: true }),
            None => None,
        },
        _ => None,
    }
}

/// The lists as they were before a switch.
pub struct GlobalKeys {
    pub project_folders: Option<String>,
    pub recent_paths: Option<String>,
    /// Whether the folders are stored as bytes.
    pub folders_blob: bool,
    /// Whether the paths are stored as bytes.
    pub recent_blob: bool,
}

impl GlobalKeys {
    /// Whether there is nothing to keep.
    pub fn is_empty(&self) -> (r: bool)
        ensures
            r == (self.project_folders is None && self.recent_paths is None),
    {
        self.project_folders.is_none() && self.recent_paths.is_none()
    }
}

/// The lists out of what the state stores under their keys.
pub fn snapshot_global_keys(folders: Option<StoredValue>, recent: Option<StoredValue>) -> (r: GlobalKeys)
    ensures
        match stored_text(folders) {
            Some((t, b)) => text::opt_text(r.project_folders) == Some(t) && r.folders_blob == b,
            None => r.project_folders is None && !r.folders_blob,
        },
        match stored_text(recent) {
            Some((t, b)) => text::opt_text(r.recent_paths) == Some(t) && r.recent_blob == b,
            None => r.recent_paths is None && !r.recent_blob,
        },
{
    let (project_folders, folders_blob) = match read_key(folders) {
        Some(k) => (Some(k.text), k.blob),
        None => (None, false),
    };
    let (recent_paths, recent_blob) = match read_key(recent) {
        Some(k) => (Some(k.text), k.blob),
        None => (None, false),
    };
    GlobalKeys { project_folders, recent_paths, folders_blob, recent_blob }
}

// ---- merging ----

/// The fields that tell items apart, the surest first.
pub open spec fn identity_keys() -> Seq<Seq<char>> {
    seq!["id"@, "uri"@, "path"@, "folderUri"@, "fileUri"@, "label"@]
}

/// The first of the fields that is a string with something in it, as key and value.
pub open spec fn identity_field(v: JsonV, keys: Seq<Seq<char>>) -> Option<Seq<char>>
    decreases keys.len(),
{
    if keys.len() == 0 {
        None
    } else {
        match v.text_at(keys[0]) {
            Some(s) => if s.len() > 0 {
                Some(keys[0] + "="@ + s)
            } else {
                identity_field(v, keys.skip(1))
            },
            None => identity_field(v, keys.skip(1)),
        }
    }
}

/// What tells an item apart: one of its fields, or all of it.
pub open spec fn identity(v: JsonV) -> Seq<char> {
    match identity_field(v, identity_keys()) {
        Some(k) => k,
        None => json::json_text(v),
    }
}

/// What tells an item apart.
pub fn item_key(v: &Json) -> (r: String)
    requires
        v@.wf(),
    ensures
        r@ == identity(v@),
{
    let keys = vec!["id", "uri", "path", "folderUri", "fileUri", "label"];
    let ghost all = text::strs(keys@);
    assert(all =~= identity_keys());
    assert(all.skip(0) =~= all);
    let mut i: usize = 0;
    while i < keys.len()
        invariant
            i <= keys@.len(),
            all == text::strs(keys@),
            all == identity_keys(),
            identity_field(v@, all) == identity_field(v@, all.skip(i as int)),
        decreases keys@.len() - i,
    {
        proof {
            assert(all.skip(i as int)[0] == keys@[i as int]@);
            assert(all.skip(i as int).skip(1) =~= all.skip(i + 1));
        }
        if let Some(s) = v.str_at(keys[i]) {
            if s.unicode_len() > 0 {
                return text::cat3(keys[i], "=", s);
            }
        }
        i += 1;
    }
    json::print_json(v)
}

/// What tells the items of a list apart.
pub open spec fn identities(list: Seq<JsonV>) -> Seq<Seq<char>> {
    list.map_values(|v: JsonV| identity(v))
}

/// The items that are not seen yet, each once, in order.
pub open spec fn unseen(seen: Seq<Seq<char>>, list: Seq<JsonV>) -> Seq<JsonV>
    decreases list.len(),
{
    if list.len() == 0 {
        Seq::empty()
    } else if seen.contains(identity(list[0])) {
        unseen(seen, list.skip(1))
    } else {
        seq![list[0]] + unseen(seen.push(identity(list[0])), list.skip(1))
    }
}

/// The items of a snapshot, and behind them those from before that it lacks.
pub open spec fn merged_list(cur: Seq<JsonV>, pre: Seq<JsonV>) -> Seq<JsonV> {
    cur + unseen(identities(cur), pre)
}

/// The items of a snapshot, and behind them those from before that it lacks; how many those are.
pub fn merge_array(cur: &Vec<Json>, pre: &Vec<Json>) -> (r: (Vec<Json>, usize))
    requires
        forall|i: int| 0 <= i < cur@.len() ==> (#[trigger] cur@[i])@.wf(),
        forall|i: int| 0 <= i < pre@.len() ==> (#[trigger] pre@[i])@.wf(),
    ensures
        json::items(r.0@) == merged_list(json::items(cur@), json::items(pre@)),
        r.1 == unseen(identities(json::items(cur@)), json::items(pre@)).len(),
        forall|i: int| 0 <= i < r.0@.len() ==> (#[trigger] r.0@[i])@.wf(),
{
    let mut seen: Vec<String> = Vec::new();
    let ghost cs = json::items(cur@);
    let ghost ids = identities(cs);
    let mut i: usize = 0;
    while i < cur.len()
        invariant
            i <= cur@.len(),
            cs == json::items(cur@),
            ids == identities(cs),
            forall|k: int| 0 <= k < cur@.len() ==> (#[trigger] cur@[k])@.wf(),
            text::texts(seen@) == ids.take(i as int),
        decreases cur@.len() - i,
    {
        let ghost before = text::texts(seen@);
        let k = item_key(&cur[i]);
        seen.push(k);
        i += 1;
        assert(text::texts(seen@) =~= before.push(k@));
        assert(text::texts(seen@) =~= ids.take(i as int));
    }
    assert(text::texts(seen@) =~= ids);
    let mut out = json::dup_list(cur);
    assert forall|k: int| 0 <= k < out@.len() implies (#[trigger] out@[k])@.wf() by {
        assert(json::items(out@)[k] == json::items(cur@)[k]);
        assert(cur@[k]@.wf());
    }
    let mut added: usize = 0;
    let ghost ps = json::items(pre@);
    let ghost goal = unseen(ids, ps);
    let ghost mut gone: Seq<JsonV> = Seq::empty();
    proof {
        assert(ps.skip(0) =~= ps);
        assert(gone + unseen(text::texts(seen@), ps) =~= goal);
        assert(cs + gone =~= cs);
    }
    let mut j: usize = 0;
    while j < pre.len()
        invariant
            j <= pre@.len(),
            ps == json::items(pre@),
            goal == gone + unseen(text::texts(seen@), ps.skip(j as int)),
            json::items(out@) == cs + gone,
            added == gone.len(),
            added <= j,
            forall|k: int| 0 <= k < pre@.len() ==> (#[trigger] pre@[k])@.wf(),
            forall|k: int| 0 <= k < out@.len() ==> (#[trigger] out@[k])@.wf(),
        decreases pre@.len() - j,
    {
        let ghost rest = ps.skip(j as int);
        proof {
            assert(rest[0] == pre@[j as int]@);
            assert(rest.skip(1) =~= ps.skip(j + 1));
        }
        let k = item_key(&pre[j]);
        if !text::is_one_of(k.as_str(), &seen) {
            let ghost before = text::texts(seen@);
            let ghost old_out = out@;
            let x = pre[j].dup();
            out.push(x);
            seen.push(k);
            added = added + 1;
            proof {
                assert(text::texts(seen@) =~= before.push(k@));
                assert(json::items(out@) =~= json::items(old_out).push(x@));
                assert((cs + gone).push(x@) =~= cs + gone.push(x@));
                assert(gone + (seq![x@] + unseen(before.push(k@), rest.skip(1))) =~= gone.push(x@) + unseen(
                    before.push(k@),
                    rest.skip(1),
                ));
                gone = gone.push(x@);
            }
        }
        j += 1;
    }
    proof {
        assert(unseen(text::texts(seen@), ps.skip(j as int)) =~= Seq::empty());
        assert(gone =~= goal);
    }
    (out, added)
}

/// The fields of a snapshot, and those from before that it lacks.
pub open spec fn merged_fields(cur: Seq<(Seq<char>, JsonV)>, pre: Seq<(Seq<char>, JsonV)>) -> (
    Seq<(Seq<char>, JsonV)>,
    int,
)
    decreases pre.len(),
{
    if pre.len() == 0 {
        (cur, 0)
    } else {
        let (o, n) = merged_fields(cur, pre.drop_last());
        if json::field(o, pre.last().0) is None {
            (json::with_field(o, pre.last().0, pre.last().1), n + 1)
        } else {
            (o, n)
        }
    }
}

/// The list of entries of an object, where it has one.
pub open spec fn entries_of(v: JsonV) -> Option<Seq<JsonV>> {
    match v.get("entries"@) {
        Some(JsonV::Arr(a)) => Some(a),
        _ => None,
    }
}

/// A snapshot's value with what it lacks of the value from before, and how much that is: lists by
/// their items, objects with entries by those, other objects by their fields. Nothing where the two
/// are not alike.
pub open spec fn merged(cur: JsonV, pre: JsonV) -> Option<(JsonV, int)> {
    match (cur, pre) {
        (JsonV::Arr(a), JsonV::Arr(b)) => Some(
            (JsonV::Arr(merged_list(a, b)), unseen(identities(a), b).len() as int),
        ),
        (JsonV::Obj(o), JsonV::Obj(p)) => match (entries_of(cur), entries_of(pre)) {
            (Some(a), Some(b)) => Some(
                (
                    JsonV::Obj(json::with_field(o, "entries"@, JsonV::Arr(merged_list(a, b)))),
                    unseen(identities(a), b).len() as int,
                ),
            ),
            _ => Some((JsonV::Obj(merged_fields(o, p).0), merged_fields(o, p).1)),
        },
        _ => None,
    }
}

fn entries<'a>(v: &'a Json) -> (r: Option<&'a Vec<Json>>)
    requires
        v@.wf(),
    ensures
        match r {
            Some(a) => entries_of(v@) == Some(json::items(a@)) && forall|i: int|
                0 <= i < a@.len() ==> (#[trigger] a@[i])@.wf(),
            None => entries_of(v@) is None,
        },
{
    match v.get("entries") {
        Some(e) => match e.as_array() {
            Some(a) => {
                proof {
                    json::lemma_get_wf(v@, "entries"@);
                    assert forall|i: int| 0 <= i < a@.len() implies (#[trigger] a@[i])@.wf() by {
                        assert(json::items(a@)[i].wf());
                    }
                }
                Some(a)
            },
            None => None,
        },
        None => None,
    }
}

fn array_of(list: Vec<Json>) -> (r: Json)
    requires
        forall|i: int| 0 <= i < list@.len() ==> (#[trigger] list@[i])@.wf(),
    ensures
        r@ == JsonV::Arr(json::items(list@)),
        r@.wf(),
{
    let r = Json::Array(list);
    proof {
        json::lemma_view_parts(r);
        let a = json::items(list@);
        assert forall|i: int| 0 <= i < a.len() implies (#[trigger] a[i]).wf() by {
            assert(list@[i]@.wf());
        }
    }
    r
}

fn merge_objects(cur: &Json, pre: &Vec<(String, Json)>) -> (r: (Json, usize))
    requires
        cur@ is Obj,
        cur@.wf(),
        forall|i: int| 0 <= i < pre@.len() ==> (#[trigger] pre@[i]).1@.wf(),
    ensures
        ({
            let m = merged_fields(cur@->Obj_0, json::fields(pre@));
            r.0@ == JsonV::Obj(m.0) && r.1 == m.1
        }),
        r.0@.wf(),
{
    let mut o = json::fields_of(cur);
    let ghost base = json::fields(o@);
    let ghost ps = json::fields(pre@);
    assert(ps.take(0) =~= Seq::empty());
    let mut added: usize = 0;
    let mut i: usize = 0;
    while i < pre.len()
        invariant
            i <= pre@.len(),
            ps == json::fields(pre@),
            forall|k: int| 0 <= k < pre@.len() ==> (#[trigger] pre@[k]).1@.wf(),
            merged_fields(base, ps.take(i as int)) == (json::fields(o@), added as int),
            added <= i,
            JsonV::Obj(json::fields(o@)).wf(),
        decreases pre@.len() - i,
    {
        proof {
            assert(ps.take(i + 1).last() == (pre@[i as int].0@, pre@[i as int].1@));
            assert(ps.take(i + 1).drop_last() =~= ps.take(i as int));
        }
        if !has_field(&o, pre[i].0.as_str()) {
            json::put(&mut o, pre[i].0.as_str(), pre[i].1.dup());
            added = added + 1;
        }
        i += 1;
    }
    assert(ps.take(ps.len() as int) =~= ps);
    (json::object(o), added)
}

fn has_field(o: &Vec<(String, Json)>, key: &str) -> (r: bool)
    ensures
        r == (json::field(json::fields(o@), key@) is Some),
{
    let ghost all = json::fields(o@);
    assert(all.skip(0) =~= all);
    let mut i: usize = 0;
    while i < o.len()
        invariant
            i <= o@.len(),
            all == json::fields(o@),
            json::field(all, key@) == json::field(all.skip(i as int), key@),
        decreases o@.len() - i,
    {
        proof {
            assert(all.skip(i as int)[0] == (o@[i as int].0@, o@[i as int].1@));
            assert(all.skip(i as int).skip(1) =~= all.skip(i + 1));
        }
        if text::same(o[i].0.as_str(), key) {
            return true;
        }
        i += 1;
    }
    false
}

/// A snapshot's value with what it lacks of the value from before, and how much that is.
pub fn merge_json(cur: &Json, pre: &Json) -> (r: Option<(Json, usize)>)
    requires
        cur@.wf(),
        pre@.wf(),
    ensures
        match r {
            Some((v, n)) => merged(cur@, pre@) == Some((v@, n as int)) && v@.wf(),
            None => merged(cur@, pre@) is None,
        },
{
    proof {
        json::lemma_view_parts(*cur);
        json::lemma_view_parts(*pre);
    }
    match (cur, pre) {
        (Json::Array(a), Json::Array(b)) => {
            proof {
                assert forall|i: int| 0 <= i < a@.len() implies (#[trigger] a@[i])@.wf() by {
                    assert(json::items(a@)[i].wf());
                }
                assert forall|i: int| 0 <= i < b@.len() implies (#[trigger] b@[i])@.wf() by {
                    assert(json::items(b@)[i].wf());
                }
            }
            let (list, n) = merge_array(a, b);
            Some((array_of(list), n))
        },
        (Json::Object(_), Json::Object(p)) => match (entries(cur), entries(pre)) {
            (Some(a), Some(b)) => {
                let (list, n) = merge_array(a, b);
                let mut o = json::fields_of(cur);
                json::put(&mut o, "entries", array_of(list));
                Some((json::object(o), n))
            },
            _ => {
                proof {
                    assert forall|i: int| 0 <= i < p@.len() implies (#[trigger] p@[i]).1@.wf() by {
                        assert(json::fields(p@)[i].1.wf());
                    }
                }
                let (v, n) = merge_objects(cur, p);
                Some((v, n))
            },
        },
        _ => None,
    }
}

/// How many items a text holds: the elements of a list, the entries of an object that has some,
/// the fields of any other.
pub open spec fn item_count(raw: Seq<char>) -> int {
    match json::json_read(raw) {
        Ok(JsonV::Arr(a)) => a.len() as int,
        Ok(JsonV::Obj(o)) => match entries_of(JsonV::Obj(o)) {
            Some(a) => a.len() as int,
            None => o.len() as int,
        },
        _ => 0,
    }
}

/// How many items a text holds.
pub fn count_items(raw: &str) -> (r: usize)
    ensures
        r == item_count(raw@),
{
    match json::read_json(raw) {
        Ok(v) => {
            proof {
                json::lemma_view_parts(v);
            }
            match &v {
                Json::Array(a) => {
                    assert(json::items(a@).len() == a@.len());
                    a.len()
                },
                Json::Object(o) => match entries(&v) {
                    Some(a) => {
                        assert(json::items(a@).len() == a@.len());
                        a.len()
                    },
                    None => {
                        assert(json::fields(o@).len() == o@.len());
                        o.len()
                    },
                },
                _ => 0,
            }
        },
        Err(_) => 0,
    }
}

/// A text with what it lacks of the text from before, and how much that is: nothing where there is
/// nothing to add. A text that is missing is taken as it was before.
pub open spec fn merged_text(cur: Option<Seq<char>>, pre: Seq<char>) -> Option<(Seq<char>, int)> {
    match cur {
        None => Some((pre, item_count(pre))),
        Some(c) => if c == pre {
            None
        } else {
            match (json::json_read(c), json::json_read(pre)) {
                (Ok(cv), Ok(pv)) => match merged(cv, pv) {
                    Some((v, n)) => if n == 0 {
                        None
                    } else {
                        Some((json::json_text(v), n))
                    },
                    None => None,
                },
                _ => None,
            }
        },
    }
}

/// What is stored once a merge is written: the merged text, or what was there where there is nothing to
/// add.
pub open spec fn text_after(cur: Option<Seq<char>>, pre: Seq<char>) -> Option<Seq<char>> {
    match merged_text(cur, pre) {
        Some((v, _)) => Some(v),
        None => cur,
    }
}

/// Whether a value that is printed is read back as it is. Every value without floats that is not too
/// deep is, and so are those with floats whose text is read as the same bits.
pub open spec fn reads_back(v: JsonV) -> bool {
    json::is_storable(v) || json::json_read(json::json_text(v)) == Ok::<JsonV, Seq<char>>(v)
}

/// Whether what a merge writes, where it writes anything, is read back as it is.
pub open spec fn is_kept_merge(cur: Option<Seq<char>>, pre: Seq<char>) -> bool {
    match cur {
        None => true,
        Some(c) => match (json::json_read(c), json::json_read(pre)) {
            (Ok(cv), Ok(pv)) => match merged(cv, pv) {
                Some((v, n)) => n == 0 || reads_back(v),
                None => true,
            },
            _ => true,
        },
    }
}

/// What an optional merge holds.
pub open spec fn opt_merge(v: Option<(String, usize)>) -> Option<(Seq<char>, int)> {
    match v {
        Some((t, n)) => Some((t@, n as int)),
        None => None,
    }
}

/// A text with what it lacks of the text from before, and how much that is. Merging again into what is
/// stored then adds nothing, wherever that is read back as it was written.
pub fn merge_value(cur: Option<&str>, pre: &str) -> (r: Option<(String, usize)>)
    ensures
        opt_merge(r) == merged_text(text::opt_str(cur), pre@),
        is_kept_merge(text::opt_str(cur), pre@) ==> merged_text(text_after(text::opt_str(cur), pre@), pre@) is None,
{
    match cur {
        None => Some((pre.to_owned(), count_items(pre))),
        Some(c) => {
            if text::same(c, pre) {
                return None;
            }
            match (json::read_json(c), json::read_json(pre)) {
                (Ok(cv), Ok(pv)) => match merge_json(&cv, &pv) {
                    Some((v, n)) => if n == 0 {
                        None
                    } else {
                        let t = json::print_json(&v);
                        proof {
                            merging_again_adds_nothing(cv@, pv@);
                            assert(reads_back(v@) ==> json::json_read(t@) == Ok::<JsonV, Seq<char>>(v@));
                        }
                        Some((t, n))
                    },
                    None => None,
                },
                _ => None,
            }
        },
    }
}

/// A value to write back, under its key and in its way of storing.
pub struct KeyWrite {
    pub key: &'static str,
    pub value: String,
    pub blob: bool,
}

/// What a merge writes, and how it is reported.
pub struct MergePlan {
    pub writes: Vec<KeyWrite>,
    pub summary: String,
}

/// The merge of one list.
pub open spec fn merge_of(cur: Option<String>, pre: Option<String>) -> Option<(Seq<char>, int)> {
    match pre {
        Some(p) => merged_text(text::opt_text(cur), p@),
        None => None,
    }
}

/// Whether a write is of the key, the value and the way of storing.
pub open spec fn is_write(w: KeyWrite, key: Seq<char>, value: Seq<char>, blob: bool) -> bool {
    w.key@ == key && w.value@ == value && w.blob == blob
}

/// What is stored of one list once a merge is written.
pub open spec fn list_after(cur: Option<String>, pre: Option<String>) -> Option<Seq<char>> {
    match pre {
        Some(p) => text_after(text::opt_text(cur), p@),
        None => text::opt_text(cur),
    }
}

/// Whether what a merge writes of one list is read back as it is.
pub open spec fn is_kept_list(cur: Option<String>, pre: Option<String>) -> bool {
    pre matches Some(p) ==> is_kept_merge(text::opt_text(cur), p@)
}

/// Whether these are the lists that are stored once a merge is written.
pub open spec fn is_written(after: GlobalKeys, cur: GlobalKeys, pre: GlobalKeys) -> bool {
    &&& text::opt_text(after.project_folders) == list_after(cur.project_folders, pre.project_folders)
    &&& text::opt_text(after.recent_paths) == list_after(cur.recent_paths, pre.recent_paths)
}

/// Whether a merge has nothing to add.
pub open spec fn is_settled(cur: GlobalKeys, pre: GlobalKeys) -> bool {
    merge_of(cur.project_folders, pre.project_folders) is None && merge_of(cur.recent_paths, pre.recent_paths) is None
}

fn merge_opt(cur: &Option<String>, pre: &Option<String>) -> (r: Option<(String, usize)>)
    ensures
        opt_merge(r) == merge_of(*cur, *pre),
        is_kept_list(*cur, *pre) ==> forall|after: Option<String>|
            text::opt_text(after) == list_after(*cur, *pre) ==> #[trigger] merge_of(after, *pre) is None,
{
    match pre {
        Some(p) => {
            let c: Option<&str> = match cur {
                Some(s) => Some(s.as_str()),
                None => None,
            };
            merge_value(c, p.as_str())
        },
        None => None,
    }
}

/// What a merge of the lists from before into those of the restored state writes: nothing where
/// there is no state, or nothing to add. A value is stored as bytes where either was. Once it is
/// written, and wherever it is read back as it was, a second merge has nothing to add.
pub fn merge_global_keys(is_file: bool, cur: &GlobalKeys, pre: &GlobalKeys) -> (r: Option<MergePlan>)
    ensures
        is_kept_list(cur.project_folders, pre.project_folders) && is_kept_list(
            cur.recent_paths,
            pre.recent_paths,
        ) ==> forall|after: GlobalKeys| #[trigger] is_written(after, *cur, *pre) ==> is_settled(after, *pre),
        ({
            let f = merge_of(cur.project_folders, pre.project_folders);
            let p = merge_of(cur.recent_paths, pre.recent_paths);
            let fb = cur.folders_blob || pre.folders_blob;
            let pb = cur.recent_blob || pre.recent_blob;
            if !is_file {
                r is None
            } else {
                match (f, p) {
                    (None, None) => r is None,
                    (Some((v, n)), None) => r matches Some(plan) && plan.writes@.len() == 1 && is_write(
                        plan.writes@[0],
                        KEY_PROJECT_FOLDERS@,
                        v,
                        fb,
                    ) && plan.summary@ == "项目列表 +"@ + digits::decimal(n),
                    (None, Some((v, n))) => r matches Some(plan) && plan.writes@.len() == 1 && is_write(
                        plan.writes@[0],
                        KEY_RECENT_PATHS@,
                        v,
                        pb,
                    ) && plan.summary@ == "最近打开 +"@ + digits::decimal(n),
                    (Some((v, n)), Some((w, m))) => r matches Some(plan) && plan.writes@.len() == 2 && is_write(
                        plan.writes@[0],
                        KEY_PROJECT_FOLDERS@,
                        v,
                        fb,
                    ) && is_write(plan.writes@[1], KEY_RECENT_PATHS@, w, pb) && plan.summary@ == "项目列表 +"@
                        + digits::decimal(n) + " / 最近打开 +"@ + digits::decimal(m),
                }
            }
        }),
{
    let folders = merge_opt(&cur.project_folders, &pre.project_folders);
    let recent = merge_opt(&cur.recent_paths, &pre.recent_paths);
    if pre.is_empty() || !is_file {
        return None;
    }
    let mut writes: Vec<KeyWrite> = Vec::new();
    let mut summary = String::new();
    assert(summary@ =~= Seq::empty());
    let both = folders.is_some() && recent.is_some();
    if folders.is_none() && recent.is_none() {
        return None;
    }
    if let Some((v, n)) = folders {
        writes.push(
            KeyWrite { key: KEY_PROJECT_FOLDERS, value: v, blob: cur.folders_blob || pre.folders_blob },
        );
        summary = text::cat("项目列表 +", digits::number(n as u64).as_str());
    }
    if let Some((v, n)) = recent {
        writes.push(KeyWrite { key: KEY_RECENT_PATHS, value: v, blob: cur.recent_blob || pre.recent_blob });
        if both {
            summary.append(" / 最近打开 +");
        } else {
            summary = "最近打开 +".to_owned();
        }
        summary.append(digits::number(n as u64).as_str());
    }
    Some(MergePlan { writes, summary })
}

/// The name of the copy that is kept while a state is written.
pub fn bak_name(name: Option<&str>) -> (r: String)
    ensures
        r@ == match name {
            Some(n) => n@,
            None => "state.vscdb"@,
        } + ".f68.bak"@,
{
    match name {
        Some(n) => text::cat(n, ".f68.bak"),
        None => text::cat("state.vscdb", ".f68.bak"),
    }
}

// ---- laws ----

/// The items of the snapshot stand first in a merge, as they were.
pub proof fn snapshot_stands_first(cur: Seq<JsonV>, pre: Seq<JsonV>)
    ensures
        merged_list(cur, pre).len() >= cur.len(),
        merged_list(cur, pre).take(cur.len() as int) == cur,
{
    assert(merged_list(cur, pre).take(cur.len() as int) =~= cur);
}

proof fn lemma_unseen(seen: Seq<Seq<char>>, list: Seq<JsonV>)
    ensures
        forall|i: int|
            0 <= i < unseen(seen, list).len() ==> list.contains(#[trigger] unseen(seen, list)[i]) && !seen.contains(
                identity(unseen(seen, list)[i]),
            ),
        forall|i: int, j: int|
            0 <= i < j < unseen(seen, list).len() ==> identity(#[trigger] unseen(seen, list)[i]) != identity(
                #[trigger] unseen(seen, list)[j],
            ),
        forall|i: int|
            0 <= i < list.len() ==> seen.contains(identity(#[trigger] list[i])) || identities(
                unseen(seen, list),
            ).contains(identity(list[i])),
    decreases list.len(),
{
    if list.len() > 0 {
        let k = identity(list[0]);
        let rest = list.skip(1);
        let u = unseen(seen, list);
        if seen.contains(k) {
            lemma_unseen(seen, rest);
            let v = unseen(seen, rest);
            assert(u == v);
            assert forall|i: int| 0 <= i < u.len() implies list.contains(#[trigger] u[i]) && !seen.contains(
                identity(u[i]),
            ) by {
                assert(rest.contains(v[i]));
                let j = choose|j: int| 0 <= j < rest.len() && rest[j] == v[i];
                assert(list[j + 1] == u[i]);
            }
            assert forall|i: int| 0 <= i < list.len() implies seen.contains(identity(#[trigger] list[i]))
                || identities(u).contains(identity(list[i])) by {
                if i > 0 {
                    assert(rest[i - 1] == list[i]);
                }
            }
        } else {
            let seen2 = seen.push(k);
            lemma_unseen(seen2, rest);
            let v = unseen(seen2, rest);
            assert(u =~= seq![list[0]] + v);
            assert(seen2.contains(k)) by {
                assert(seen2[seen.len() as int] == k);
            }
            assert forall|i: int| 0 <= i < u.len() implies list.contains(#[trigger] u[i]) && !seen.contains(
                identity(u[i]),
            ) by {
                if i == 0 {
                    assert(list[0] == u[0]);
                } else {
                    assert(u[i] == v[i - 1]);
                    let j = choose|j: int| 0 <= j < rest.len() && rest[j] == v[i - 1];
                    assert(list[j + 1] == u[i]);
                    if seen.contains(identity(u[i])) {
                        let m = choose|m: int| 0 <= m < seen.len() && seen[m] == identity(u[i]);
                        assert(seen2[m] == identity(u[i]));
                    }
                }
            }
            assert forall|i: int, j: int| 0 <= i < j < u.len() implies identity(#[trigger] u[i]) != identity(
                #[trigger] u[j],
            ) by {
                assert(u[j] == v[j - 1]);
                if i > 0 {
                    assert(u[i] == v[i - 1]);
                }
            }
            assert forall|i: int| 0 <= i < list.len() implies seen.contains(identity(#[trigger] list[i]))
                || identities(u).contains(identity(list[i])) by {
                if i == 0 {
                    assert(identities(u)[0] == k);
                } else {
                    assert(rest[i - 1] == list[i]);
                    let id = identity(list[i]);
                    if identities(v).contains(id) {
                        let m = choose|m: int| 0 <= m < identities(v).len() && identities(v)[m] == id;
                        assert(identities(u)[m + 1] == id);
                    } else {
                        let m = choose|m: int| 0 <= m < seen2.len() && seen2[m] == id;
                        if m == seen.len() {
                            assert(identities(u)[0] == id);
                        } else {
                            assert(seen[m] == id);
                        }
                    }
                }
            }
        }
    }
}

/// What a merge adds is from before the switch, is not in the snapshot, and is added once.
pub proof fn only_new_items_are_added(cur: Seq<JsonV>, pre: Seq<JsonV>, i: int)
    requires
        cur.len() <= i < merged_list(cur, pre).len(),
    ensures
        pre.contains(merged_list(cur, pre)[i]),
        !identities(cur).contains(identity(merged_list(cur, pre)[i])),
        forall|j: int|
            cur.len() <= j < i ==> identity(#[trigger] merged_list(cur, pre)[j]) != identity(merged_list(cur, pre)[i]),
{
    lemma_unseen(identities(cur), pre);
    let u = unseen(identities(cur), pre);
    assert(merged_list(cur, pre)[i] == u[i - cur.len()]);
    assert forall|j: int| cur.len() <= j < i implies identity(#[trigger] merged_list(cur, pre)[j]) != identity(
        merged_list(cur, pre)[i],
    ) by {
        assert(merged_list(cur, pre)[j] == u[j - cur.len()]);
    }
}

/// No item is lost: everything from before the switch is in the merge, under what tells it apart.
pub proof fn nothing_is_lost(cur: Seq<JsonV>, pre: Seq<JsonV>, i: int)
    requires
        0 <= i < pre.len(),
    ensures
        identities(merged_list(cur, pre)).contains(identity(pre[i])),
{
    lemma_unseen(identities(cur), pre);
    let u = unseen(identities(cur), pre);
    let m = identities(merged_list(cur, pre));
    let id = identity(pre[i]);
    if identities(cur).contains(id) {
        let k = choose|k: int| 0 <= k < identities(cur).len() && identities(cur)[k] == id;
        assert(m[k] == id);
    } else {
        let k = choose|k: int| 0 <= k < identities(u).len() && identities(u)[k] == id;
        assert(m[cur.len() + k] == id);
    }
}

/// Merging a second time adds nothing.
pub proof fn merging_twice_adds_nothing(cur: Seq<JsonV>, pre: Seq<JsonV>)
    ensures
        merged_list(merged_list(cur, pre), pre) == merged_list(cur, pre),
        unseen(identities(merged_list(cur, pre)), pre).len() == 0,
{
    let m = merged_list(cur, pre);
    lemma_unseen(identities(m), pre);
    let u = unseen(identities(m), pre);
    if u.len() > 0 {
        assert(pre.contains(u[0]));
        let i = choose|i: int| 0 <= i < pre.len() && pre[i] == u[0];
        nothing_is_lost(cur, pre, i);
        assert(false);
    }
    assert(merged_list(m, pre) =~= m);
}

/// The items of a list are all seen in it.
proof fn lemma_all_seen(seen: Seq<Seq<char>>, list: Seq<JsonV>)
    requires
        forall|i: int| 0 <= i < list.len() ==> seen.contains(identity(#[trigger] list[i])),
    ensures
        unseen(seen, list).len() == 0,
    decreases list.len(),
{
    if list.len() > 0 {
        let rest = list.skip(1);
        assert(seen.contains(identity(list[0])));
        assert forall|i: int| 0 <= i < rest.len() implies seen.contains(identity(#[trigger] rest[i])) by {
            assert(rest[i] == list[i + 1]);
        }
        lemma_all_seen(seen, rest);
    }
}

/// A merge of fields keeps those of the snapshot as they were, takes those that it lacks from before,
/// and has no others.
pub proof fn fields_are_merged(cur: Seq<(Seq<char>, JsonV)>, pre: Seq<(Seq<char>, JsonV)>, key: Seq<char>)
    ensures
        ({
            let all = merged_fields(cur, pre).0;
            &&& json::field(cur, key) is Some ==> json::field(all, key) == json::field(cur, key)
            &&& json::field(cur, key) is None ==> json::field(all, key) == json::field(pre, key)
        }),
    decreases pre.len(),
{
    if pre.len() > 0 {
        let front = pre.drop_last();
        let last = pre.last();
        let o = merged_fields(cur, front).0;
        fields_are_merged(cur, front, key);
        json::set_then_get(o, last.0, last.1, key);
        lemma_field_of_push(front, last, key);
        assert(front.push(last) =~= pre);
    }
}

proof fn lemma_field_of_push(o: Seq<(Seq<char>, JsonV)>, p: (Seq<char>, JsonV), key: Seq<char>)
    ensures
        json::field(o.push(p), key) == (match json::field(o, key) {
            Some(v) => Some(v),
            None => if p.0 == key {
                Some(p.1)
            } else {
                None
            },
        }),
    decreases o.len(),
{
    let all = o.push(p);
    if o.len() == 0 {
        assert(all[0] == p);
        assert(all.skip(1) =~= Seq::empty());
        reveal_with_fuel(json::field, 2);
    } else {
        assert(all[0] == o[0]);
        assert(all.skip(1) =~= o.skip(1).push(p));
        lemma_field_of_push(o.skip(1), p, key);
    }
}

proof fn lemma_nothing_to_add(cur: Seq<(Seq<char>, JsonV)>, pre: Seq<(Seq<char>, JsonV)>)
    requires
        forall|i: int| 0 <= i < pre.len() ==> json::field(cur, (#[trigger] pre[i]).0) is Some,
    ensures
        merged_fields(cur, pre) == (cur, 0int),
    decreases pre.len(),
{
    if pre.len() > 0 {
        let front = pre.drop_last();
        assert forall|i: int| 0 <= i < front.len() implies json::field(cur, (#[trigger] front[i]).0) is Some by {
            assert(front[i] == pre[i]);
        }
        lemma_nothing_to_add(cur, front);
        assert(json::field(cur, pre[pre.len() - 1].0) is Some);
    }
}

proof fn lemma_has_field(o: Seq<(Seq<char>, JsonV)>, i: int)
    requires
        0 <= i < o.len(),
    ensures
        json::field(o, o[i].0) is Some,
    decreases o.len(),
{
    if o[0].0 != o[i].0 {
        assert(o.skip(1)[i - 1] == o[i]);
        lemma_has_field(o.skip(1), i - 1);
    }
}

/// Merging a second time adds nothing, to lists as to objects.
pub proof fn merging_again_adds_nothing(cur: JsonV, pre: JsonV)
    ensures
        merged(cur, pre) matches Some((v, _)) ==> (merged(v, pre) matches Some((_, n)) && n == 0),
{
    match (cur, pre) {
        (JsonV::Arr(a), JsonV::Arr(b)) => {
            merging_twice_adds_nothing(a, b);
        },
        (JsonV::Obj(o), JsonV::Obj(p)) => {
            match (entries_of(cur), entries_of(pre)) {
                (Some(a), Some(b)) => {
                    let list = JsonV::Arr(merged_list(a, b));
                    json::set_then_get(o, "entries"@, list, "entries"@);
                    merging_twice_adds_nothing(a, b);
                    assert(entries_of(JsonV::Obj(json::with_field(o, "entries"@, list))) == Some(merged_list(a, b)));
                },
                _ => {
                    let all = merged_fields(o, p).0;
                    let v = JsonV::Obj(all);
                    fields_are_merged(o, p, "entries"@);
                    assert forall|i: int| 0 <= i < p.len() implies json::field(all, (#[trigger] p[i]).0) is Some by {
                        lemma_has_field(p, i);
                        fields_are_merged(o, p, p[i].0);
                    }
                    lemma_nothing_to_add(all, p);
                    if let (Some(a), Some(b)) = (entries_of(v), entries_of(pre)) {
                        assert(a == b);
                        assert forall|i: int| 0 <= i < b.len() implies identities(a).contains(
                            identity(#[trigger] b[i]),
                        ) by {
                            assert(identities(a)[i] == identity(b[i]));
                        }
                        lemma_all_seen(identities(a), b);
                    }
                },
            }
        },
        _ => {},
    }
}

// ---- what holds of items ----

/// An item is known by the first of its names that is there and not empty, in the order of the names; one
/// without any by all that it holds.
pub proof fn items_are_known_by_their_first_name(v: JsonV, s: Seq<char>)
    ensures
        v.get("id"@) == Some(JsonV::Str(s)) && s.len() > 0 ==> identity(v) == "id"@ + "="@ + s,
        v.get("id"@) is None && v.get("uri"@) == Some(JsonV::Str(s)) && s.len() > 0 ==> identity(v) == "uri"@ + "="@ + s,
        v.get("id"@) is None && v.get("uri"@) is None && v.get("path"@) == Some(JsonV::Str(s)) && s.len() > 0 ==> identity(v) == "path"@ + "="@ + s,
        v.get("id"@) is None && v.get("uri"@) is None && v.get("path"@) is None && v.get("folderUri"@) == Some(JsonV::Str(s)) && s.len() > 0 ==> identity(v) == "folderUri"@ + "="@ + s,
        v.get("id"@) is None && v.get("uri"@) is None && v.get("path"@) is None && v.get("folderUri"@) is None && v.get("fileUri"@) == Some(JsonV::Str(s)) && s.len() > 0 ==> identity(v) == "fileUri"@ + "="@ + s,
        v.get("id"@) is None && v.get("uri"@) is None && v.get("path"@) is None && v.get("folderUri"@) is None && v.get("fileUri"@) is None && v.get("label"@) == Some(JsonV::Str(s)) && s.len() > 0 ==> identity(v) == "label"@ + "="@ + s,
        v.get("id"@) is None && v.get("uri"@) is None && v.get("path"@) is None && v.get("folderUri"@) is None && v.get("fileUri"@) is None && v.get("label"@) is None ==> identity(v) == json::json_text(v),
        v.get("id"@) == Some(JsonV::Str(Seq::empty())) && v.get("uri"@) == Some(JsonV::Str(s)) && s.len() > 0 ==> identity(v)
            == "uri"@ + "="@ + s,
{
    reveal_with_fuel(identity_field, 8);
    let k = identity_keys();
    assert(k.skip(1)[0] == "uri"@);
    assert(k.skip(1).skip(1)[0] == "path"@);
    assert(k.skip(1).skip(1).skip(1)[0] == "folderUri"@);
    assert(k.skip(1).skip(1).skip(1).skip(1)[0] == "fileUri"@);
    assert(k.skip(1).skip(1).skip(1).skip(1).skip(1)[0] == "label"@);
    assert(k.skip(1).skip(1).skip(1).skip(1).skip(1).skip(1).len() == 0);
}

/// A stored text is read as it is, and stored bytes as text where they are text.
pub proof fn stored_values_are_read_as_text(s: String, b: Vec<u8>)
    ensures
        stored_text(Some(StoredValue::Text(s))) == Some((s@, false)),
        vstd::utf8::valid_utf8(b@) ==> stored_text(Some(StoredValue::Blob(b))) == Some((vstd::utf8::decode_utf8(b@), true)),
        !vstd::utf8::valid_utf8(b@) ==> stored_text(Some(StoredValue::Blob(b))) is None,
        stored_text(None) is None,
{
}

/// How many items a text holds: the elements of a list, those of its entries, or else its fields.
pub proof fn items_are_counted(raw: Seq<char>, a: Seq<JsonV>, o: Seq<(Seq<char>, JsonV)>)
    ensures
        json::json_read(raw) == Ok::<JsonV, Seq<char>>(JsonV::Arr(a)) ==> item_count(raw) == a.len(),
        json::json_read(raw) == Ok::<JsonV, Seq<char>>(JsonV::Obj(o)) && JsonV::Obj(o).get("entries"@) == Some(
            JsonV::Arr(a),
        ) ==> item_count(raw) == a.len(),
        json::json_read(raw) == Ok::<JsonV, Seq<char>>(JsonV::Obj(o)) && JsonV::Obj(o).get("entries"@) is None
            ==> item_count(raw) == o.len(),
        json::json_read(raw) is Err ==> item_count(raw) == 0,
{
}

/// Lists are merged with lists, entries with entries, fields with fields, and nothing else is merged; the
/// count is that of what was added.
pub proof fn like_is_merged_with_like(
    a: Seq<JsonV>,
    b: Seq<JsonV>,
    o: Seq<(Seq<char>, JsonV)>,
    p: Seq<(Seq<char>, JsonV)>,
    k: Seq<char>,
)
    ensures
        merged(JsonV::Arr(a), JsonV::Arr(b)) matches Some((v, n)) && v == JsonV::Arr(merged_list(a, b)) && n
            == merged_list(a, b).len() - a.len(),
        JsonV::Obj(o).get("entries"@) == Some(JsonV::Arr(a)) && JsonV::Obj(p).get("entries"@) == Some(JsonV::Arr(b)) ==> (
        merged(JsonV::Obj(o), JsonV::Obj(p)) matches Some((v, n)) && v.get("entries"@) == Some(
            JsonV::Arr(merged_list(a, b)),
        ) && n == merged_list(a, b).len() - a.len() && (k != "entries"@ ==> v.get(k) == JsonV::Obj(o).get(k))),
        JsonV::Obj(o).get("entries"@) is None ==> (merged(JsonV::Obj(o), JsonV::Obj(p)) matches Some((v, n)) && v
            == JsonV::Obj(merged_fields(o, p).0) && n == merged_fields(o, p).1),
        merged(JsonV::Arr(a), JsonV::Obj(p)) is None,
        merged(JsonV::Obj(o), JsonV::Arr(b)) is None,
{
    broadcast use json::lemma_set_then_get;

    assert(merged_list(a, b).len() == a.len() + unseen(identities(a), b).len());
}

/// As many fields are counted as were added.
pub proof fn added_fields_are_counted(cur: Seq<(Seq<char>, JsonV)>, pre: Seq<(Seq<char>, JsonV)>, k: Seq<char>, v: JsonV)
    ensures
        json::field(merged_fields(cur, pre).0, k) is None ==> merged_fields(cur, pre.push((k, v))).1 == merged_fields(
            cur,
            pre,
        ).1 + 1,
        json::field(merged_fields(cur, pre).0, k) is Some ==> merged_fields(cur, pre.push((k, v))) == merged_fields(
            cur,
            pre,
        ),
        merged_fields(cur, Seq::empty()) == (cur, 0int),
{
    assert(pre.push((k, v)).drop_last() =~= pre);
}

/// A text is written where there was none, or where merging added something; then it is the merged one.
pub proof fn texts_are_written_where_something_is_added(c: Seq<char>, pre: Seq<char>, cv: JsonV, pv: JsonV)
    ensures
        merged_text(None, pre) == Some((pre, item_count(pre))),
        merged_text(Some(pre), pre) is None,
        text_after(None, pre) == Some(pre),
        text_after(Some(pre), pre) == Some(pre),
        c != pre && json::json_read(c) == Ok::<JsonV, Seq<char>>(cv) && json::json_read(pre) == Ok::<JsonV, Seq<char>>(pv)
            ==> (merged(cv, pv) matches Some((v, n)) ==> {
            &&& n > 0 ==> merged_text(Some(c), pre) == Some((json::json_text(v), n))
            &&& n > 0 ==> text_after(Some(c), pre) == Some(json::json_text(v))
            &&& n == 0 ==> merged_text(Some(c), pre) is None && text_after(Some(c), pre) == Some(c)
        }),
        c != pre && (json::json_read(c) is Err || json::json_read(pre) is Err) ==> merged_text(Some(c), pre) is None,
{
}

/// Each of the two lists is merged with its own, and left where there is nothing to merge.
pub proof fn each_list_is_merged_with_its_own(after: GlobalKeys, cur: GlobalKeys, pre: GlobalKeys)
    requires
        is_written(after, cur, pre),
    ensures
        pre.project_folders matches Some(p) ==> text::opt_text(after.project_folders) == text_after(
            text::opt_text(cur.project_folders),
            p@,
        ),
        pre.recent_paths matches Some(p) ==> text::opt_text(after.recent_paths) == text_after(
            text::opt_text(cur.recent_paths),
            p@,
        ),
        pre.project_folders is None ==> text::opt_text(after.project_folders) == text::opt_text(cur.project_folders),
        pre.recent_paths is None ==> text::opt_text(after.recent_paths) == text::opt_text(cur.recent_paths),
{
}

/// A list is merged with the one of the snapshot where that has one; all is settled where neither adds
/// anything.
pub proof fn lists_are_merged_where_there_is_one(cur: Option<String>, p: String, a: GlobalKeys, b: GlobalKeys)
    ensures
        merge_of(cur, Some(p)) == merged_text(text::opt_text(cur), p@),
        merge_of(cur, None) is None,
        list_after(cur, Some(p)) == text_after(text::opt_text(cur), p@),
        list_after(cur, None) == text::opt_text(cur),
        is_settled(a, b) == (merge_of(a.project_folders, b.project_folders) is None && merge_of(
            a.recent_paths,
            b.recent_paths,
        ) is None),
{
}

/// What is written is written under its key, as it was kept.
pub proof fn writes_keep_their_key_and_kind(w: KeyWrite, key: Seq<char>, value: Seq<char>, blob: bool)
    requires
        is_write(w, key, value, blob),
    ensures
        w.key@ == key && w.value@ == value && w.blob == blob,
{
}

} // verus!
