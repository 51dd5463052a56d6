//! The quota of a membership: reading what the service answers, summing it up, and the round over
//! all accounts.
use vstd::prelude::*;
use crate::{clock, digits, floats, json, text};
use crate::clock::LocalTimes;
use crate::json::{Json, JsonV, Num, NumV};

verus! {

broadcast use vstd::string::group_string_axioms;

/// How deep a response is searched.
pub const DIG_MAX_DEPTH: usize = 10;

/// How many events the history keeps.
pub const HISTORY_MAX: usize = 400;

// ---- searching ----

/// The keys of a quota's name.
pub open spec fn name_keys() -> Seq<Seq<char>> {
    seq!["name"@, "title"@, "item_name"@, "metric_name"@, "label"@]
}

/// The keys of a quota's total.
pub open spec fn total_keys() -> Seq<Seq<char>> {
    seq!["total"@, "limit"@, "quota"@, "max"@, "total_count"@, "total_num"@]
}

/// The keys of what is used of a quota.
pub open spec fn used_keys() -> Seq<Seq<char>> {
    seq!["used"@, "use"@, "consume"@, "used_count"@]
}

/// The keys of what is left of a quota.
pub open spec fn left_keys() -> Seq<Seq<char>> {
    seq!["remaining"@, "left"@, "remain"@, "available"@, "left_count"@, "rest"@]
}

/// The keys of a membership's level.
pub open spec fn level_keys() -> Seq<Seq<char>> {
    seq!["level"@, "vip_level"@, "member_level"@, "grade"@, "vip_type"@, "member_type"@, "plan"@]
}

/// The keys of a membership's end.
pub open spec fn expire_keys() -> Seq<Seq<char>> {
    seq![
        "expire_time"@,
        "expire_at"@,
        "expired_time"@,
        "due_time"@,
        "due_date"@,
        "valid_end_time"@,
        "end_time"@,
        "end_date"@,
        "subscription_expire_time"@,
    ]
}

fn names() -> (r: Vec<&'static str>)
    ensures
        text::strs(r@) == name_keys(),
{
    let r = vec!["name", "title", "item_name", "metric_name", "label"];
    assert(text::strs(r@) =~= name_keys());
    r
}

fn totals() -> (r: Vec<&'static str>)
    ensures
        text::strs(r@) == total_keys(),
{
    let r = vec!["total", "limit", "quota", "max", "total_count", "total_num"];
    assert(text::strs(r@) =~= total_keys());
    r
}

fn useds() -> (r: Vec<&'static str>)
    ensures
        text::strs(r@) == used_keys(),
{
    let r = vec!["used", "use", "consume", "used_count"];
    assert(text::strs(r@) =~= used_keys());
    r
}

fn lefts() -> (r: Vec<&'static str>)
    ensures
        text::strs(r@) == left_keys(),
{
    let r = vec!["remaining", "left", "remain", "available", "left_count", "rest"];
    assert(text::strs(r@) =~= left_keys());
    r
}

fn levels() -> (r: Vec<&'static str>)
    ensures
        text::strs(r@) == level_keys(),
{
    let r = vec!["level", "vip_level", "member_level", "grade", "vip_type", "member_type", "plan"];
    assert(text::strs(r@) =~= level_keys());
    r
}

fn expires() -> (r: Vec<&'static str>)
    ensures
        text::strs(r@) == expire_keys(),
{
    let r = vec![
        "expire_time",
        "expire_at",
        "expired_time",
        "due_time",
        "due_date",
        "valid_end_time",
        "end_time",
        "end_date",
        "subscription_expire_time",
    ];
    assert(text::strs(r@) =~= expire_keys());
    r
}

/// The field of the first of the keys that an object has.
pub open spec fn first_field(v: JsonV, keys: Seq<Seq<char>>) -> Option<JsonV>
    decreases keys.len(),
{
    if keys.len() == 0 {
        None
    } else {
        match v.get(keys[0]) {
            Some(x) => Some(x),
            None => first_field(v, keys.skip(1)),
        }
    }
}

/// The values inside an object or an array, in order.
pub open spec fn children(v: JsonV) -> Seq<JsonV> {
    match v {
        JsonV::Obj(o) => o.map_values(|p: (Seq<char>, JsonV)| p.1),
        JsonV::Arr(a) => a,
        _ => Seq::empty(),
    }
}

/// The first value under one of the keys, found from the top down: a field of the object itself is
/// taken whatever it is, one further down only where it is not null.
pub open spec fn found(v: JsonV, keys: Seq<Seq<char>>, depth: int) -> Option<JsonV>
    decreases 11 - depth, 1int, 0int,
{
    if depth < 0 || depth > 10 {
        None
    } else {
        match first_field(v, keys) {
            Some(x) => Some(x),
            None => found_in(children(v), keys, depth),
        }
    }
}

/// The first value that is not null under one of the keys in one of the values.
pub open spec fn found_in(list: Seq<JsonV>, keys: Seq<Seq<char>>, depth: int) -> Option<JsonV>
    decreases 11 - depth, 0int, list.len(),
{
    if list.len() == 0 || depth < 0 || depth > 10 {
        None
    } else {
        match found(list[0], keys, depth + 1) {
            Some(x) => if x is Null {
                found_in(list.skip(1), keys, depth)
            } else {
                Some(x)
            },
            None => found_in(list.skip(1), keys, depth),
        }
    }
}

fn get_first<'a>(v: &'a Json, keys: &Vec<&str>) -> (r: Option<&'a Json>)
    ensures
        json::opt_ref(r) == first_field(v@, text::strs(keys@)),
        v@.wf() && r is Some ==> r->Some_0@.wf(),
{
    let ghost all = text::strs(keys@);
    assert(all.skip(0) =~= all);
    let mut i: usize = 0;
    while i < keys.len()
        invariant
            i <= keys@.len(),
            all == text::strs(keys@),
            first_field(v@, all) == first_field(v@, all.skip(i as int)),
        decreases keys@.len() - i,
    {
        proof {
            assert(all.skip(i as int)[0] == keys@[i as int]@);
            assert(all.skip(i as int).skip(1) =~= all.skip(i + 1));
        }
        if let Some(x) = v.get(keys[i]) {
            proof {
                if v@.wf() {
                    json::lemma_get_wf(v@, keys@[i as int]@);
                }
            }
            return Some(x);
        }
        i += 1;
    }
    None
}

/// The first value under one of the keys, found from the top down.
pub fn deep_find<'a>(v: &'a Json, keys: &Vec<&str>, depth: usize) -> (r: Option<&'a Json>)
    ensures
        json::opt_ref(r) == found(v@, text::strs(keys@), depth as int),
        v@.wf() && r is Some ==> r->Some_0@.wf(),
    decreases 11 - depth,
{
    if depth > DIG_MAX_DEPTH {
        return None;
    }
    if let Some(x) = get_first(v, keys) {
        return Some(x);
    }
    let ghost kids = children(v@);
    let ghost ks = text::strs(keys@);
    proof {
        json::lemma_view_parts(*v);
        assert(kids.skip(0) =~= kids);
    }
    match v {
        Json::Object(o) => {
            let mut i: usize = 0;
            while i < o.len()
                invariant
                    i <= o@.len(),
                    depth <= 10,
                    v@ == JsonV::Obj(json::fields(o@)),
                    kids == children(v@),
                    ks == text::strs(keys@),
                    first_field(v@, ks) is None,
                    found_in(kids, ks, depth as int) == found_in(kids.skip(i as int), ks, depth as int),
                decreases o@.len() - i,
            {
                proof {
                    assert(kids.skip(i as int)[0] == o@[i as int].1@);
                    assert(kids.skip(i as int).skip(1) =~= kids.skip(i + 1));
                }
                if let Some(hit) = deep_find(&o[i].1, keys, depth + 1) {
                    if !hit.is_null() {
                        proof {
                            if v@.wf() {
                                assert(json::fields(o@)[i as int].1.wf());
                            }
                        }
                        return Some(hit);
                    }
                }
                i += 1;
            }
            None
        },
        Json::Array(a) => {
            let mut i: usize = 0;
            while i < a.len()
                invariant
                    i <= a@.len(),
                    depth <= 10,
                    v@ == JsonV::Arr(json::items(a@)),
                    kids == children(v@),
                    ks == text::strs(keys@),
                    first_field(v@, ks) is None,
                    found_in(kids, ks, depth as int) == found_in(kids.skip(i as int), ks, depth as int),
                decreases a@.len() - i,
            {
                proof {
                    assert(kids.skip(i as int)[0] == a@[i as int]@);
                    assert(kids.skip(i as int).skip(1) =~= kids.skip(i + 1));
                }
                if let Some(hit) = deep_find(&a[i], keys, depth + 1) {
                    if !hit.is_null() {
                        proof {
                            if v@.wf() {
                                assert(json::items(a@)[i as int].wf());
                            }
                        }
                        return Some(hit);
                    }
                }
                i += 1;
            }
            None
        },
        _ => None,
    }
}

/// Whether an object has a field under one of the keys.
pub open spec fn has_any(v: JsonV, keys: Seq<Seq<char>>) -> bool {
    first_field(v, keys) is Some
}

/// The objects with a name and a total, found from the top down; inside of one no more are looked
/// for.
pub open spec fn quota_objects(v: JsonV, depth: int) -> Seq<JsonV>
    decreases 11 - depth, 1int, 0int,
{
    if depth < 0 || depth > 10 {
        Seq::empty()
    } else if has_any(v, name_keys()) && has_any(v, total_keys()) {
        seq![v]
    } else {
        quota_objects_in(children(v), depth)
    }
}

/// The objects with a name and a total in the values, in order.
pub open spec fn quota_objects_in(list: Seq<JsonV>, depth: int) -> Seq<JsonV>
    decreases 11 - depth, 0int, list.len(),
{
    if list.len() == 0 || depth < 0 || depth > 10 {
        Seq::empty()
    } else {
        quota_objects_in(list.drop_last(), depth) + quota_objects(list.last(), depth + 1)
    }
}

/// The objects with a name and a total.
pub fn find_quota_items(v: &Json, depth: usize) -> (r: Vec<Json>)
    ensures
        json::items(r@) == quota_objects(v@, depth as int),
    decreases 11 - depth,
{
    let mut out: Vec<Json> = Vec::new();
    assert(json::items(out@) =~= Seq::empty());
    if depth > DIG_MAX_DEPTH {
        return out;
    }
    if get_first(v, &names()).is_some() && get_first(v, &totals()).is_some() {
        let x = v.dup();
        out.push(x);
        assert(json::items(out@) =~= seq![v@]);
        return out;
    }
    let ghost kids = children(v@);
    proof {
        json::lemma_view_parts(*v);
        assert(kids.take(0) =~= Seq::empty());
        assert(kids.take(kids.len() as int) =~= kids);
    }
    match v {
        Json::Object(o) => {
            let mut i: usize = 0;
            while i < o.len()
                invariant
                    i <= o@.len(),
                    depth <= 10,
                    v@ == JsonV::Obj(json::fields(o@)),
                    kids == children(v@),
                    json::items(out@) == quota_objects_in(kids.take(i as int), depth as int),
                decreases o@.len() - i,
            {
                proof {
                    assert(kids.take(i + 1).last() == o@[i as int].1@);
                    assert(kids.take(i + 1).drop_last() =~= kids.take(i as int));
                }
                let ghost before = json::items(out@);
                let mut more = find_quota_items(&o[i].1, depth + 1);
                let ghost m = json::items(more@);
                out.append(&mut more);
                assert(json::items(out@) =~= before + m);
                i += 1;
            }
        },
        Json::Array(a) => {
            let mut i: usize = 0;
            while i < a.len()
                invariant
                    i <= a@.len(),
                    depth <= 10,
                    v@ == JsonV::Arr(json::items(a@)),
                    kids == children(v@),
                    json::items(out@) == quota_objects_in(kids.take(i as int), depth as int),
                decreases a@.len() - i,
            {
                proof {
                    assert(kids.take(i + 1).last() == a@[i as int]@);
                    assert(kids.take(i + 1).drop_last() =~= kids.take(i as int));
                }
                let ghost before = json::items(out@);
                let mut more = find_quota_items(&a[i], depth + 1);
                let ghost m = json::items(more@);
                out.append(&mut more);
                assert(json::items(out@) =~= before + m);
                i += 1;
            }
        },
        _ => {},
    }
    out
}

/// Every object that is found has a name and a total.
pub proof fn quota_objects_are_named(v: JsonV, depth: int, i: int)
    requires
        0 <= i < quota_objects(v, depth).len(),
    ensures
        has_any(quota_objects(v, depth)[i], name_keys()) && has_any(quota_objects(v, depth)[i], total_keys()),
    decreases 11 - depth, 1int, 0int,
{
    if !(has_any(v, name_keys()) && has_any(v, total_keys())) {
        quota_objects_in_are_named(children(v), depth, i);
    }
}

proof fn quota_objects_in_are_named(list: Seq<JsonV>, depth: int, i: int)
    requires
        0 <= i < quota_objects_in(list, depth).len(),
    ensures
        has_any(quota_objects_in(list, depth)[i], name_keys()) && has_any(
            quota_objects_in(list, depth)[i],
            total_keys(),
        ),
    decreases 11 - depth, 0int, list.len(),
{
    let first = quota_objects_in(list.drop_last(), depth);
    if i < first.len() {
        quota_objects_in_are_named(list.drop_last(), depth, i);
    } else {
        quota_objects_are_named(list.last(), depth + 1, i - first.len());
    }
}

/// The objects that are found in a valid value are valid.
proof fn quota_objects_are_valid(v: JsonV, depth: int, i: int)
    requires
        v.wf(),
        0 <= i < quota_objects(v, depth).len(),
    ensures
        quota_objects(v, depth)[i].wf(),
    decreases 11 - depth, 1int, 0int,
{
    if !(has_any(v, name_keys()) && has_any(v, total_keys())) {
        let kids = children(v);
        assert forall|k: int| 0 <= k < kids.len() implies (#[trigger] kids[k]).wf() by {
            match v {
                JsonV::Obj(o) => {
                    assert(o[k].1.wf());
                },
                _ => {},
            }
        }
        quota_objects_in_are_valid(kids, depth, i);
    }
}

proof fn quota_objects_in_are_valid(list: Seq<JsonV>, depth: int, i: int)
    requires
        forall|k: int| 0 <= k < list.len() ==> (#[trigger] list[k]).wf(),
        0 <= i < quota_objects_in(list, depth).len(),
    ensures
        quota_objects_in(list, depth)[i].wf(),
    decreases 11 - depth, 0int, list.len(),
{
    let first = quota_objects_in(list.drop_last(), depth);
    if i < first.len() {
        assert forall|k: int| 0 <= k < list.drop_last().len() implies (#[trigger] list.drop_last()[k]).wf() by {
            assert(list[k].wf());
        }
        quota_objects_in_are_valid(list.drop_last(), depth, i);
    } else {
        assert(list[list.len() - 1].wf());
        quota_objects_are_valid(list.last(), depth + 1, i - first.len());
    }
}

// ---- scalars and times ----

/// A value that can be shown: a number as it is, a string trimmed and cut to 64 characters; nothing
/// of anything else.
pub open spec fn scalar(v: Option<JsonV>) -> Option<JsonV> {
    match v {
        Some(JsonV::Num(n)) => Some(JsonV::Num(n)),
        Some(JsonV::Str(s)) => if text::trimmed(s).len() > 0 {
            Some(JsonV::Str(text::head_chars(text::trimmed(s), 64)))
        } else {
            None
        },
        _ => None,
    }
}

/// A value that can be shown.
pub fn pick_scalar(v: Option<&Json>) -> (r: Option<Json>)
    ensures
        json::opt(r) == scalar(json::opt_ref(v)),
        (v matches Some(x) ==> x@.wf()) ==> opt_wf(json::opt(r)),
{
    broadcast use json::lemma_view_parts;

    match v {
        Some(x) => match x {
            Json::Number(n) => Some(Json::Number(n.dup())),
            Json::Str(s) => {
                let t = text::trim(s.as_str());
                if t.as_str().unicode_len() > 0 {
                    Some(Json::Str(text::take_chars(t.as_str(), 64)))
                } else {
                    None
                }
            },
            _ => None,
        },
        None => None,
    }
}

/// Whether an optional value is valid.
pub open spec fn opt_wf(v: Option<JsonV>) -> bool {
    v matches Some(x) ==> x.wf()
}

/// The timestamp in seconds that a number is, of seconds or of milliseconds: one from 1973 to 3237.
pub open spec fn stamp_of(n: NumV) -> Option<int> {
    if floats::is_above(n, 1_000_000_000_000) {
        if floats::is_below(n, 40_000_000_000_000) {
            Some(floats::magnitude(n) / 1000)
        } else {
            None
        }
    } else if floats::is_above(n, 100_000_000) && floats::is_below(n, 40_000_000_000) {
        Some(floats::magnitude(n))
    } else {
        None
    }
}

/// The timestamp that a value is.
pub open spec fn stamp(v: Option<JsonV>) -> Option<int> {
    match v {
        Some(JsonV::Num(n)) => stamp_of(n),
        _ => None,
    }
}

/// What optional timestamps are.
pub open spec fn opt_int(v: Option<i64>) -> Option<int> {
    match v {
        Some(n) => Some(n as int),
        None => None,
    }
}

fn num_stamp(n: &Num) -> (r: Option<i64>)
    ensures
        opt_int(r) == stamp_of(n@),
        r matches Some(s) ==> clock::in_range(s as int),
{
    let p = floats::parts(n);
    if p.negative {
        return None;
    }
    match p.whole {
        None => None,
        Some(w) => {
            if w > 1_000_000_000_000 || (w == 1_000_000_000_000 && p.broken) {
                if w < 40_000_000_000_000 {
                    Some((w / 1000) as i64)
                } else {
                    None
                }
            } else if (w > 100_000_000 || (w == 100_000_000 && p.broken)) && w < 40_000_000_000 {
                Some(w as i64)
            } else {
                None
            }
        },
    }
}

/// The timestamp that a value is.
pub fn norm_ms_ts(v: Option<&Json>) -> (r: Option<i64>)
    ensures
        opt_int(r) == stamp(json::opt_ref(v)),
        r matches Some(s) ==> clock::in_range(s as int),
{
    broadcast use json::lemma_view_parts;

    match v {
        Some(x) => match x {
            Json::Number(n) => num_stamp(n),
            _ => None,
        },
        None => None,
    }
}

/// A time: a timestamp that is still to be put in words, or words.
pub enum When {
    At(i64),
    Words(String),
}

/// The model of a time.
pub enum WhenV {
    At(int),
    Words(Seq<char>),
}

impl View for When {
    type V = WhenV;

    open spec fn view(&self) -> WhenV {
        match *self {
            When::At(s) => WhenV::At(s as int),
            When::Words(t) => WhenV::Words(t@),
        }
    }
}

/// What an optional time is.
pub open spec fn opt_when(v: Option<When>) -> Option<WhenV> {
    match v {
        Some(w) => Some(w@),
        None => None,
    }
}

/// The time that a string is: a date in one of the usual formats, else its first 32 characters.
pub open spec fn string_when(s: Seq<char>) -> Option<WhenV> {
    let t = text::trimmed(s);
    if t.len() == 0 {
        None
    } else {
        match clock::by_formats(text::head_chars(t, 19), clock::date_formats()) {
            Some(d) => Some(WhenV::Words(d)),
            None => Some(WhenV::Words(text::head_chars(t, 32))),
        }
    }
}

/// The time that a value is; what is neither a time nor null is shown as it is.
pub open spec fn when_of(v: Option<JsonV>) -> Option<WhenV> {
    match v {
        None => None,
        Some(JsonV::Null) => None,
        Some(JsonV::Num(n)) => match stamp_of(n) {
            Some(s) => Some(WhenV::At(s)),
            None => Some(WhenV::Words(json::json_text(JsonV::Num(n)))),
        },
        Some(JsonV::Str(s)) => string_when(s),
        Some(x) => Some(WhenV::Words(json::json_text(x))),
    }
}

/// The time that a value is.
pub fn read_when(v: Option<&Json>) -> (r: Option<When>)
    requires
        v matches Some(x) ==> x@.wf(),
    ensures
        opt_when(r) == when_of(json::opt_ref(v)),
        r matches Some(When::At(s)) ==> clock::in_range(s as int),
{
    broadcast use json::lemma_view_parts;

    match v {
        None => None,
        Some(x) => match x {
            Json::Null => None,
            Json::Number(n) => match num_stamp(n) {
                Some(s) => Some(When::At(s)),
                None => Some(When::Words(json::print_json(x))),
            },
            Json::Str(s) => {
                let t = text::trim(s.as_str());
                if t.as_str().unicode_len() == 0 {
                    None
                } else {
                    match clock::read_date(text::take_chars(t.as_str(), 19).as_str()) {
                        Some(d) => Some(When::Words(d)),
                        None => Some(When::Words(text::take_chars(t.as_str(), 32))),
                    }
                }
            },
            _ => Some(When::Words(json::print_json(x))),
        },
    }
}

/// A time in words, with the local times that were asked for.
pub open spec fn in_words(w: Option<WhenV>, times: Seq<(i64, String)>) -> Option<Seq<char>> {
    match w {
        Some(WhenV::At(s)) => Some(clock::time_at(times, s)),
        Some(WhenV::Words(t)) => Some(t),
        None => None,
    }
}

fn when_words(w: &Option<When>, times: &LocalTimes) -> (r: Option<String>)
    ensures
        text::opt_text(r) == in_words(opt_when(*w), times.entries@),
{
    match w {
        Some(When::At(s)) => Some(times.at(*s)),
        Some(When::Words(t)) => Some(t.clone()),
        None => None,
    }
}

/// Whether there is a text, and it is the local time of a timestamp.
pub open spec fn is_local(t: Option<Seq<char>>, s: int) -> bool {
    t matches Some(x) && clock::is_local_text(s, x)
}

/// Whether a text is a time in words: for a timestamp, its local time.
pub open spec fn is_worded(w: Option<WhenV>, t: Option<Seq<char>>) -> bool {
    match w {
        Some(WhenV::Words(x)) => t == Some(x),
        Some(WhenV::At(s)) => is_local(t, s),
        None => t is None,
    }
}

/// The time that a value is, in words: a timestamp in local time, which the machine decides.
pub fn fmt_ts(v: &Json) -> (r: Option<String>)
    requires
        v@.wf(),
    ensures
        is_worded(when_of(Some(v@)), text::opt_text(r)),
{
    let got = read_when(Some(v));
    match &got {
        Some(When::Words(t)) => Some(t.clone()),
        Some(When::At(s)) => {
            let mut stamps: Vec<i64> = Vec::new();
            stamps.push(*s);
            let times = LocalTimes::ask(&stamps);
            assert(stamps@[0] == *s);
            assert(clock::is_known(times.entries@, *s as int));
            let t = times.at(*s);
            proof {
                clock::known_times_are_local(times.entries@, *s as int);
            }
            Some(t)
        },
        None => None,
    }
}

// ---- reading a response ----

/// A subscription as it is read.
pub struct Subscription {
    pub name: Option<Json>,
    pub period_days: Option<i64>,
    pub start: Option<i64>,
    pub expire: Option<When>,
    pub is_gift: Option<bool>,
    pub active: bool,
}

/// The model of a subscription.
#[verifier::ext_equal]
pub struct SubscriptionV {
    pub name: Option<JsonV>,
    pub period_days: Option<int>,
    pub start: Option<int>,
    pub expire: Option<WhenV>,
    pub is_gift: Option<bool>,
    pub active: bool,
}

impl View for Subscription {
    type V = SubscriptionV;

    open spec fn view(&self) -> SubscriptionV {
        SubscriptionV {
            name: json::opt(self.name),
            period_days: opt_int(self.period_days),
            start: opt_int(self.start),
            expire: opt_when(self.expire),
            is_gift: self.is_gift,
            active: self.active,
        }
    }
}

/// One quota as it is read: a window of time, or a plain amount.
pub enum Item {
    Window { name: String, used: Option<u64>, exhausted: bool, reset: Option<i64> },
    Amount { label: Json, total: Json, left: Option<Json>, spent: Option<Json> },
}

/// The model of a quota.
pub enum ItemV {
    Window(Seq<char>, Option<u64>, bool, Option<int>),
    Amount(JsonV, JsonV, Option<JsonV>, Option<JsonV>),
}

impl View for Item {
    type V = ItemV;

    open spec fn view(&self) -> ItemV {
        match *self {
            Item::Window { name, used, exhausted, reset } => ItemV::Window(name@, used, exhausted, opt_int(reset)),
            Item::Amount { label, total, left, spent } => ItemV::Amount(
                label@,
                total@,
                json::opt(left),
                json::opt(spent),
            ),
        }
    }
}

/// The models of quotas.
pub open spec fn item_views(v: Seq<Item>) -> Seq<ItemV> {
    v.map_values(|x: Item| x@)
}

/// A response as it is read.
pub struct Quota {
    pub level: Option<Json>,
    pub expire: Option<When>,
    pub is_gift: Option<bool>,
    pub has_subscription: Option<bool>,
    pub subscription: Option<Subscription>,
    pub items: Vec<Item>,
}

/// The model of a response.
#[verifier::ext_equal]
pub struct QuotaV {
    pub level: Option<JsonV>,
    pub expire: Option<WhenV>,
    pub is_gift: Option<bool>,
    pub has_subscription: Option<bool>,
    pub subscription: Option<SubscriptionV>,
    pub items: Seq<ItemV>,
}

/// What an optional subscription is.
pub open spec fn opt_subscription(v: Option<Subscription>) -> Option<SubscriptionV> {
    match v {
        Some(s) => Some(s@),
        None => None,
    }
}

impl View for Quota {
    type V = QuotaV;

    open spec fn view(&self) -> QuotaV {
        QuotaV {
            level: json::opt(self.level),
            expire: opt_when(self.expire),
            is_gift: self.is_gift,
            has_subscription: self.has_subscription,
            subscription: opt_subscription(self.subscription),
            items: item_views(self.items@),
        }
    }
}

/// A field where it is an object.
pub open spec fn object_at(v: JsonV, key: Seq<char>) -> Option<JsonV> {
    match v.get(key) {
        Some(x) => if x is Obj {
            Some(x)
        } else {
            None
        },
        None => None,
    }
}

/// The truth value of a field, where it is one.
pub open spec fn truth_at(v: JsonV, key: Seq<char>) -> Option<bool> {
    match v.get(key) {
        Some(x) => x.truth(),
        None => None,
    }
}

/// The name of a subscription: its short name, its product name, or that of the membership.
pub open spec fn plan_name(data: JsonV, sub: JsonV) -> Option<JsonV> {
    let (short, product) = match object_at(sub, "display"@) {
        Some(d) => (d.text_at("short_name"@), d.text_at("product_name"@)),
        None => (None, None),
    };
    match (short, product, data.text_at("membership_display_name"@)) {
        (Some(s), _, _) => Some(JsonV::Str(s)),
        (None, Some(s), _) => Some(JsonV::Str(s)),
        (None, None, Some(s)) => Some(JsonV::Str(s)),
        (None, None, None) => None,
    }
}

/// Whether a subscription's status says that it runs: one that is neither missing nor zero.
pub open spec fn is_running(status: Option<JsonV>) -> bool {
    match status {
        None => false,
        Some(JsonV::Null) => false,
        Some(JsonV::Num(n)) => !floats::is_zero(n),
        Some(_) => true,
    }
}

/// The days of a subscription, to the nearest, and at least one.
pub open spec fn days_between(start: Option<int>, end: Option<int>) -> Option<int> {
    match (start, end) {
        (Some(s), Some(e)) => {
            let days = (e - s + 43200) / 86400;
            Some(
                if days > 1 {
                    days
                } else {
                    1
                },
            )
        },
        _ => None,
    }
}

/// A subscription out of a response's data.
pub open spec fn subscription_of(data: JsonV, sub: JsonV) -> SubscriptionV {
    SubscriptionV {
        name: plan_name(data, sub),
        period_days: days_between(stamp(sub.get("start_time"@)), stamp(sub.get("end_time"@))),
        start: stamp(sub.get("start_time"@)),
        expire: when_of(sub.get("end_time"@)),
        is_gift: truth_at(sub, "is_gift"@),
        active: is_running(sub.get("status"@)),
    }
}

/// The name of a window: by its type, else by its group and type.
pub open spec fn window_name(w: JsonV, group: Seq<char>) -> Seq<char> {
    let kind = w.get("window_type"@);
    let number = match kind {
        Some(k) => k.whole(),
        None => None,
    };
    if number == Some(1int) {
        "当前时段"@
    } else if number == Some(2int) {
        "近 7 天"@
    } else {
        let shown = match kind {
            Some(k) => json::shown(k),
            None => "None"@,
        };
        if group.len() == 0 {
            "窗口"@ + shown
        } else {
            group + "·窗口"@ + shown
        }
    }
}

/// Whether a percentage is a hundred or more.
pub open spec fn is_full(v: Option<JsonV>) -> bool {
    match v {
        Some(JsonV::Num(n)) => !floats::is_below(n, 100),
        _ => false,
    }
}

/// The double that a field is.
pub open spec fn double_at(v: JsonV, key: Seq<char>) -> Option<u64> {
    match v.get(key) {
        Some(x) => json::double_of(x),
        None => None,
    }
}

/// A window out of a response; nothing where it says neither what is used nor when it starts again.
pub open spec fn window_of(w: JsonV, group: Seq<char>) -> Option<ItemV> {
    let used = double_at(w, "used_percent"@);
    let reset = stamp(w.get("end_time"@));
    if w !is Obj || (used is None && reset is None) {
        None
    } else {
        Some(
            ItemV::Window(
                window_name(w, group),
                used,
                truth_at(w, "usage_exhausted"@) == Some(true) || is_full(w.get("used_percent"@)),
                reset,
            ),
        )
    }
}

/// The windows of a group, in order.
pub open spec fn windows_in(list: Seq<JsonV>, group: Seq<char>) -> Seq<ItemV>
    decreases list.len(),
{
    if list.len() == 0 {
        Seq::empty()
    } else {
        match window_of(list.last(), group) {
            Some(x) => windows_in(list.drop_last(), group).push(x),
            None => windows_in(list.drop_last(), group),
        }
    }
}

/// The windows of one group.
pub open spec fn group_windows(g: JsonV) -> Seq<ItemV> {
    if g is Obj {
        windows_in(
            g.elements_at("window_limits"@),
            match g.text_at("feature_group_name"@) {
                Some(s) => s,
                None => Seq::empty(),
            },
        )
    } else {
        Seq::empty()
    }
}

/// The windows of all groups, in order.
pub open spec fn all_windows(groups: Seq<JsonV>) -> Seq<ItemV>
    decreases groups.len(),
{
    if groups.len() == 0 {
        Seq::empty()
    } else {
        all_windows(groups.drop_last()) + group_windows(groups.last())
    }
}

/// The windows of groups are those of the first groups and behind them those of the others; those of one
/// group are its own.
pub proof fn windows_of_groups_add_up(a: Seq<JsonV>, b: Seq<JsonV>, g: JsonV)
    ensures
        all_windows(a + b) == all_windows(a) + all_windows(b),
        all_windows(seq![g]) == group_windows(g),
    decreases b.len(),
{
    assert(seq![g].drop_last() =~= Seq::empty());
    reveal_with_fuel(all_windows, 2);
    assert(all_windows(seq![g]) =~= group_windows(g));
    if b.len() == 0 {
        assert(a + b =~= a);
        assert(all_windows(a) + all_windows(b) =~= all_windows(a));
    } else {
        windows_of_groups_add_up(a, b.drop_last(), g);
        assert((a + b).drop_last() =~= a + b.drop_last());
        assert(all_windows(a) + all_windows(b) =~= (all_windows(a) + all_windows(b.drop_last())) + group_windows(
            b.last(),
        ));
    }
}

/// The windows of a group are read one by one, in order; only those that say neither what is used nor
/// when they start again are left out.
pub proof fn windows_are_read_one_by_one(a: Seq<JsonV>, b: Seq<JsonV>, w: JsonV, group: Seq<char>)
    ensures
        windows_in(a + b, group) == windows_in(a, group) + windows_in(b, group),
        windows_in(seq![w], group).len() == if w is Obj && (double_at(w, "used_percent"@) is Some || stamp(
            w.get("end_time"@),
        ) is Some) {
            1nat
        } else {
            0
        },
        window_of(w, group) matches Some(x) ==> windows_in(seq![w], group) == seq![x],
    decreases b.len(),
{
    assert(seq![w].drop_last() =~= Seq::empty());
    reveal_with_fuel(windows_in, 2);
    if let Some(x) = window_of(w, group) {
        assert(windows_in(seq![w], group) =~= seq![x]);
    }
    if b.len() == 0 {
        assert(a + b =~= a);
        assert(windows_in(a, group) + windows_in(b, group) =~= windows_in(a, group));
    } else {
        windows_are_read_one_by_one(a, b.drop_last(), w, group);
        assert((a + b).drop_last() =~= a + b.drop_last());
        assert(windows_in(a, group) + windows_in(b, group) =~= windows_in(a + b, group));
    }
}

/// What a window says is what is read of it: how much is used, when it starts again, and that it is used
/// up where it says so or where a hundred percent or more are used. The first two kinds have names of
/// their own; others are named by their group and kind.
pub proof fn windows_are_read_as_they_are(w: JsonV, group: Seq<char>)
    ensures
        window_of(w, group) matches Some(ItemV::Window(name, used, exhausted, reset)) ==> {
            &&& used == double_at(w, "used_percent"@)
            &&& reset == stamp(w.get("end_time"@))
            &&& w.get("usage_exhausted"@) == Some(JsonV::Bool(true)) ==> exhausted
            &&& w.get("used_percent"@) matches Some(JsonV::Num(NumV::Pos(n))) ==> n >= 100 ==> exhausted
            &&& w.get("used_percent"@) matches Some(JsonV::Num(NumV::Pos(n))) ==> n < 100 ==> w.get(
                "usage_exhausted"@,
            ) != Some(JsonV::Bool(true)) ==> !exhausted
            &&& w.get("used_percent"@) matches Some(JsonV::Num(n)) ==> (exhausted == (w.get("usage_exhausted"@) == Some(
                JsonV::Bool(true),
            ) || !floats::is_below(n, 100)))
            &&& w.get("used_percent"@) is None && w.get("usage_exhausted"@) != Some(JsonV::Bool(true)) ==> !exhausted
            &&& w.get("window_type"@) == Some(JsonV::Num(NumV::Pos(1))) ==> name == "当前时段"@
            &&& w.get("window_type"@) == Some(JsonV::Num(NumV::Pos(2))) ==> name == "近 7 天"@
            &&& w.get("window_type"@) matches Some(JsonV::Num(NumV::Pos(n))) ==> n > 2 ==> name == (if group.len() > 0 {
                group + "·窗口"@ + digits::decimal(n as int)
            } else {
                "窗口"@ + digits::decimal(n as int)
            })
        },
        window_of(w, group) !is None ==> window_of(w, group)->Some_0 is Window,
        w is Obj && (w.get("used_percent"@) matches Some(JsonV::Num(_))) ==> window_of(w, group) is Some,
        w is Obj && stamp(w.get("end_time"@)) is Some ==> window_of(w, group) is Some,
{
}

/// Every readable window of every group of a response is among what is read of it.
pub proof fn no_window_is_lost(resp: JsonV, i: int, j: int)
    requires
        resp.get("data"@) matches Some(JsonV::Obj(_)),
        resp.get("data"@)->Some_0.get("window_limit_section"@) matches Some(JsonV::Obj(_)),
        ({
            let groups = resp.get("data"@)->Some_0.get("window_limit_section"@)->Some_0.elements_at(
                "window_limit_groups"@,
            );
            &&& 0 <= i < groups.len()
            &&& groups[i] is Obj
            &&& 0 <= j < groups[i].elements_at("window_limits"@).len()
            &&& window_of(
                groups[i].elements_at("window_limits"@)[j],
                match groups[i].text_at("feature_group_name"@) {
                    Some(s) => s,
                    None => Seq::empty(),
                },
            ) is Some
        }),
    ensures
        ({
            let group = resp.get("data"@)->Some_0.get("window_limit_section"@)->Some_0.elements_at(
                "window_limit_groups"@,
            )[i];
            quota_of(resp).items.contains(
                window_of(
                    group.elements_at("window_limits"@)[j],
                    match group.text_at("feature_group_name"@) {
                        Some(s) => s,
                        None => Seq::empty(),
                    },
                )->Some_0,
            )
        }),
{
    let groups = resp.get("data"@)->Some_0.get("window_limit_section"@)->Some_0.elements_at("window_limit_groups"@);
    let g = groups[i];
    let list = g.elements_at("window_limits"@);
    let name = match g.text_at("feature_group_name"@) {
        Some(s) => s,
        None => Seq::empty(),
    };
    let x = window_of(list[j], name)->Some_0;
    assert(list =~= list.take(j) + seq![list[j]] + list.skip(j + 1));
    windows_are_read_one_by_one(list.take(j), seq![list[j]], list[j], name);
    windows_are_read_one_by_one(list.take(j) + seq![list[j]], list.skip(j + 1), list[j], name);
    let n = windows_in(list.take(j), name).len();
    assert(group_windows(g)[n as int] == x);
    assert(groups =~= groups.take(i) + seq![g] + groups.skip(i + 1));
    windows_of_groups_add_up(groups.take(i), seq![g], g);
    windows_of_groups_add_up(groups.take(i) + seq![g], groups.skip(i + 1), g);
    let m = all_windows(groups.take(i)).len();
    assert(all_windows(groups)[(m + n) as int] == x);
    assert(quota_of(resp).items == all_windows(groups));
}

/// What is read where a response has data of the known form.
pub open spec fn exact_quota(data: JsonV) -> QuotaV {
    let sub = match object_at(data, "current_subscription"@) {
        Some(s) => Some(subscription_of(data, s)),
        None => None,
    };
    let named = match sub {
        Some(s) => s.name,
        None => None,
    };
    QuotaV {
        level: match named {
            Some(n) => Some(n),
            None => match data.text_at("membership_display_name"@) {
                Some(s) => Some(JsonV::Str(s)),
                None => None,
            },
        },
        expire: match sub {
            Some(s) => s.expire,
            None => None,
        },
        is_gift: match sub {
            Some(s) => s.is_gift,
            None => None,
        },
        has_subscription: match sub {
            Some(s) => Some(s.active),
            None => truth_at(data, "has_active_subscription"@),
        },
        subscription: sub,
        items: match object_at(data, "window_limit_section"@) {
            Some(w) => all_windows(w.elements_at("window_limit_groups"@)),
            None => Seq::empty(),
        },
    }
}

/// A plain amount out of an object; nothing where its name or total cannot be shown.
pub open spec fn amount_of(obj: JsonV) -> Option<ItemV> {
    match (scalar(found(obj, name_keys(), 0)), scalar(found(obj, total_keys(), 0))) {
        (Some(name), Some(total)) => Some(
            ItemV::Amount(name, total, scalar(found(obj, left_keys(), 0)), scalar(found(obj, used_keys(), 0))),
        ),
        _ => None,
    }
}

/// The plain amounts of the objects, in order.
pub open spec fn amounts(objs: Seq<JsonV>) -> Seq<ItemV>
    decreases objs.len(),
{
    if objs.len() == 0 {
        Seq::empty()
    } else {
        match amount_of(objs.last()) {
            Some(x) => amounts(objs.drop_last()).push(x),
            None => amounts(objs.drop_last()),
        }
    }
}

/// The first sixteen.
pub open spec fn first16(objs: Seq<JsonV>) -> Seq<JsonV> {
    if objs.len() > 16 {
        objs.take(16)
    } else {
        objs
    }
}

/// What is read out of a response: by the known form where it gives a level, an end or a window;
/// else by searching all of it.
pub open spec fn quota_of(resp: JsonV) -> QuotaV {
    let nothing = QuotaV {
        level: None,
        expire: None,
        is_gift: None,
        has_subscription: None,
        subscription: None,
        items: Seq::empty(),
    };
    let q = match object_at(resp, "data"@) {
        Some(d) => exact_quota(d),
        None => nothing,
    };
    if q.level is None && q.expire is None && q.items.len() == 0 {
        QuotaV {
            level: scalar(found(resp, level_keys(), 0)),
            expire: when_of(found(resp, expire_keys(), 0)),
            items: amounts(first16(quota_objects(resp, 0))),
            ..q
        }
    } else {
        q
    }
}

/// Whether every timestamp of a time is in range.
pub open spec fn when_in_range(w: Option<WhenV>) -> bool {
    w matches Some(WhenV::At(s)) ==> clock::in_range(s)
}

/// Whether every timestamp of a response is in range.
pub open spec fn stamps_in_range(q: QuotaV) -> bool {
    &&& when_in_range(q.expire)
    &&& q.subscription matches Some(s) ==> when_in_range(s.expire) && (s.start matches Some(t) ==> clock::in_range(t))
    &&& forall|i: int| 0 <= i < q.items.len() ==> item_in_range(#[trigger] q.items[i])
}

/// Whether the timestamp of a quota is in range.
pub open spec fn item_in_range(x: ItemV) -> bool {
    x matches ItemV::Window(_, _, _, Some(t)) ==> clock::in_range(t)
}

/// Whether the values of a quota are valid.
pub open spec fn item_wf(x: ItemV) -> bool {
    match x {
        ItemV::Window(_, used, _, _) => used matches Some(b) ==> json::num_wf(NumV::Flt(b)),
        ItemV::Amount(name, total, left, used) => name.wf() && total.wf() && opt_wf(left) && opt_wf(used),
    }
}

/// Whether the values of what was read are valid.
pub open spec fn quota_wf(q: QuotaV) -> bool {
    &&& opt_wf(q.level)
    &&& q.subscription matches Some(s) ==> opt_wf(s.name)
    &&& forall|i: int| 0 <= i < q.items.len() ==> item_wf(#[trigger] q.items[i])
}

fn object_field<'a>(v: &'a Json, key: &str) -> (r: Option<&'a Json>)
    ensures
        json::opt_ref(r) == object_at(v@, key@),
        v@.wf() && r is Some ==> r->Some_0@.wf(),
{
    match v.get(key) {
        Some(x) => {
            proof {
                if v@.wf() {
                    json::lemma_get_wf(v@, key@);
                }
            }
            if x.is_object() {
                Some(x)
            } else {
                None
            }
        },
        None => None,
    }
}

fn truth_field(v: &Json, key: &str) -> (r: Option<bool>)
    ensures
        r == truth_at(v@, key@),
{
    match v.get(key) {
        Some(x) => x.as_bool(),
        None => None,
    }
}

fn read_name(data: &Json, sub: &Json) -> (r: Option<Json>)
    ensures
        json::opt(r) == plan_name(data@, sub@),
{
    let display = object_field(sub, "display");
    let short = match display {
        Some(d) => d.str_at("short_name"),
        None => None,
    };
    if let Some(s) = short {
        return Some(json::jstr(s));
    }
    let product = match display {
        Some(d) => d.str_at("product_name"),
        None => None,
    };
    if let Some(s) = product {
        return Some(json::jstr(s));
    }
    match data.str_at("membership_display_name") {
        Some(s) => Some(json::jstr(s)),
        None => None,
    }
}

fn read_running(status: Option<&Json>) -> (r: bool)
    ensures
        r == is_running(json::opt_ref(status)),
{
    broadcast use json::lemma_view_parts;

    match status {
        None => false,
        Some(v) => match v {
            Json::Null => false,
            Json::Number(n) => !floats::num_is_zero(n),
            _ => true,
        },
    }
}

fn read_subscription(data: &Json, sub: &Json) -> (r: Subscription)
    requires
        sub@.wf(),
    ensures
        r@ == subscription_of(data@, sub@),
        when_in_range(r@.expire),
        r@.start matches Some(t) ==> clock::in_range(t),
{
    broadcast use json::lemma_get_wf;

    let start = norm_ms_ts(sub.get("start_time"));
    let end = norm_ms_ts(sub.get("end_time"));
    let period_days: Option<i64> = match (start, end) {
        (Some(s), Some(e)) => {
            let secs: i64 = e - s + 43200;
            if secs >= 86400 {
                let days: i64 = secs / 86400;
                Some(days)
            } else {
                Some(1)
            }
        },
        _ => None,
    };
    let expire = read_when(sub.get("end_time"));
    let r = Subscription {
        name: read_name(data, sub),
        period_days,
        start,
        expire,
        is_gift: truth_field(sub, "is_gift"),
        active: read_running(sub.get("status")),
    };
    assert(r@.period_days == days_between(stamp(sub@.get("start_time"@)), stamp(sub@.get("end_time"@)))) by {
        if let (Some(s), Some(e)) = (start, end) {
            let d = (e - s + 43200) as int;
            if d < 86400 {
                assert(d / 86400 <= 0);
            } else {
                assert(d / 86400 >= 1);
            }
        }
    }
    r
}

fn read_window_name(w: &Json, group: &str) -> (r: String)
    requires
        w@.wf(),
    ensures
        r@ == window_name(w@, group@),
{
    broadcast use json::lemma_get_wf;

    let kind = w.get("window_type");
    let number: Option<i64> = match kind {
        Some(k) => k.as_i64(),
        None => None,
    };
    if let Some(n) = number {
        if n == 1 {
            return "当前时段".to_owned();
        }
        if n == 2 {
            return "近 7 天".to_owned();
        }
    }
    let shown = match kind {
        Some(k) => json::value_to_str(k),
        None => "None".to_owned(),
    };
    if group.unicode_len() == 0 {
        text::cat("窗口", shown.as_str())
    } else {
        text::cat3(group, "·窗口", shown.as_str())
    }
}

fn full(v: Option<&Json>) -> (r: bool)
    ensures
        r == is_full(json::opt_ref(v)),
{
    broadcast use json::lemma_view_parts;

    match v {
        Some(x) => match x {
            Json::Number(n) => !floats::num_below(n, 100),
            _ => false,
        },
        None => false,
    }
}

fn double_field(v: &Json, key: &str) -> (r: Option<u64>)
    requires
        v@.wf(),
    ensures
        r == double_at(v@, key@),
        r matches Some(b) ==> json::num_wf(NumV::Flt(b)),
{
    broadcast use json::lemma_get_wf;

    match v.get(key) {
        Some(x) => json::as_double(x),
        None => None,
    }
}

fn read_window(w: &Json, group: &str) -> (r: Option<Item>)
    requires
        w@.wf(),
    ensures
        match r {
            Some(x) => window_of(w@, group@) == Some(x@) && item_in_range(x@) && item_wf(x@),
            None => window_of(w@, group@) is None,
        },
{
    if !w.is_object() {
        return None;
    }
    let used: Option<u64> = double_field(w, "used_percent");
    let reset: Option<i64> = norm_ms_ts(w.get("end_time"));
    if used.is_none() && reset.is_none() {
        return None;
    }
    let exhausted = match truth_field(w, "usage_exhausted") {
        Some(b) => b,
        None => false,
    } || full(w.get("used_percent"));
    Some(Item::Window { name: read_window_name(w, group), used, exhausted, reset })
}

fn read_group(g: &Json) -> (r: Vec<Item>)
    requires
        g@.wf(),
    ensures
        item_views(r@) == group_windows(g@),
        forall|i: int| 0 <= i < r@.len() ==> item_in_range((#[trigger] r@[i])@) && item_wf(r@[i]@),
{
    let mut out: Vec<Item> = Vec::new();
    assert(item_views(out@) =~= Seq::empty());
    if !g.is_object() {
        return out;
    }
    let group = match g.str_at("feature_group_name") {
        Some(s) => s.to_owned(),
        None => {
            let e = String::new();
            assert(e@ =~= Seq::empty());
            e
        },
    };
    let list = match g.get("window_limits") {
        Some(v) => v.as_array(),
        None => None,
    };
    if let Some(a) = list {
        let ghost all = json::items(a@);
        proof {
            json::lemma_get_wf(g@, "window_limits"@);
            assert(all.take(0) =~= Seq::empty());
            assert(g@.elements_at("window_limits"@) == all);
            assert forall|k: int| 0 <= k < a@.len() implies (#[trigger] a@[k])@.wf() by {
                assert(all[k].wf());
            }
        }
        let mut i: usize = 0;
        while i < a.len()
            invariant
                i <= a@.len(),
                all == json::items(a@),
                forall|k: int| 0 <= k < a@.len() ==> (#[trigger] a@[k])@.wf(),
                item_views(out@) == windows_in(all.take(i as int), group@),
                forall|k: int| 0 <= k < out@.len() ==> item_in_range((#[trigger] out@[k])@) && item_wf(out@[k]@),
            decreases a@.len() - i,
        {
            let ghost before = item_views(out@);
            proof {
                assert(all.take(i + 1).last() == a@[i as int]@);
                assert(all.take(i + 1).drop_last() =~= all.take(i as int));
            }
            if let Some(x) = read_window(&a[i], group.as_str()) {
                out.push(x);
                assert(item_views(out@) =~= before.push(x@));
            }
            i += 1;
        }
        assert(all.take(all.len() as int) =~= all);
    }
    out
}

fn read_windows(section: &Json) -> (r: Vec<Item>)
    requires
        section@.wf(),
    ensures
        item_views(r@) == all_windows(section@.elements_at("window_limit_groups"@)),
        forall|i: int| 0 <= i < r@.len() ==> item_in_range((#[trigger] r@[i])@) && item_wf(r@[i]@),
{
    let mut out: Vec<Item> = Vec::new();
    assert(item_views(out@) =~= Seq::empty());
    let list = match section.get("window_limit_groups") {
        Some(v) => v.as_array(),
        None => None,
    };
    if let Some(a) = list {
        let ghost all = json::items(a@);
        proof {
            json::lemma_get_wf(section@, "window_limit_groups"@);
            assert(all.take(0) =~= Seq::empty());
            assert(section@.elements_at("window_limit_groups"@) == all);
            assert forall|k: int| 0 <= k < a@.len() implies (#[trigger] a@[k])@.wf() by {
                assert(all[k].wf());
            }
        }
        let mut i: usize = 0;
        while i < a.len()
            invariant
                i <= a@.len(),
                all == json::items(a@),
                forall|k: int| 0 <= k < a@.len() ==> (#[trigger] a@[k])@.wf(),
                item_views(out@) == all_windows(all.take(i as int)),
                forall|k: int| 0 <= k < out@.len() ==> item_in_range((#[trigger] out@[k])@) && item_wf(out@[k]@),
            decreases a@.len() - i,
        {
            let ghost before = out@;
            proof {
                assert(all.take(i + 1).last() == a@[i as int]@);
                assert(all.take(i + 1).drop_last() =~= all.take(i as int));
            }
            let mut more = read_group(&a[i]);
            let ghost m = more@;
            out.append(&mut more);
            proof {
                assert(item_views(out@) =~= item_views(before) + item_views(m));
                assert forall|k: int| 0 <= k < out@.len() implies item_in_range((#[trigger] out@[k])@) && item_wf(
                    out@[k]@,
                ) by {
                    if k < before.len() {
                        assert(out@[k] == before[k]);
                    } else {
                        assert(out@[k] == m[k - before.len()]);
                    }
                }
            }
            i += 1;
        }
        assert(all.take(all.len() as int) =~= all);
    }
    out
}

fn read_amount(obj: &Json) -> (r: Option<Item>)
    ensures
        match r {
            Some(x) => amount_of(obj@) == Some(x@) && (obj@.wf() ==> item_wf(x@)),
            None => amount_of(obj@) is None,
        },
{
    let name = pick_scalar(deep_find(obj, &names(), 0));
    let total = pick_scalar(deep_find(obj, &totals(), 0));
    match (name, total) {
        (Some(n), Some(t)) => Some(
            Item::Amount {
                label: n,
                total: t,
                left: pick_scalar(deep_find(obj, &lefts(), 0)),
                spent: pick_scalar(deep_find(obj, &useds(), 0)),
            },
        ),
        _ => None,
    }
}

fn read_amounts(resp: &Json) -> (r: Vec<Item>)
    requires
        resp@.wf(),
    ensures
        item_views(r@) == amounts(first16(quota_objects(resp@, 0))),
        forall|i: int| 0 <= i < r@.len() ==> item_wf((#[trigger] r@[i])@),
{
    let objs = find_quota_items(resp, 0);
    proof {
        assert forall|k: int| 0 <= k < objs@.len() implies (#[trigger] objs@[k])@.wf() by {
            quota_objects_are_valid(resp@, 0, k);
            assert(json::items(objs@)[k] == objs@[k]@);
        }
    }
    let n: usize = if objs.len() > 16 {
        16
    } else {
        objs.len()
    };
    let ghost all = first16(json::items(objs@));
    assert(all.take(0) =~= Seq::empty());
    let mut out: Vec<Item> = Vec::new();
    assert(item_views(out@) =~= Seq::empty());
    let mut i: usize = 0;
    while i < n
        invariant
            i <= n,
            n <= objs@.len(),
            n == all.len(),
            all == first16(json::items(objs@)),
            forall|k: int| 0 <= k < objs@.len() ==> (#[trigger] objs@[k])@.wf(),
            forall|k: int| 0 <= k < out@.len() ==> item_wf((#[trigger] out@[k])@),
            item_views(out@) == amounts(all.take(i as int)),
        decreases n - i,
    {
        let ghost before = item_views(out@);
        proof {
            assert(all.take(i + 1).last() == objs@[i as int]@);
            assert(all.take(i + 1).drop_last() =~= all.take(i as int));
        }
        if let Some(x) = read_amount(&objs[i]) {
            out.push(x);
            assert(item_views(out@) =~= before.push(x@));
        }
        i += 1;
    }
    assert(all.take(all.len() as int) =~= all);
    out
}

fn read_exact(data: &Json) -> (r: Quota)
    requires
        data@.wf(),
    ensures
        r@ == exact_quota(data@),
        stamps_in_range(r@),
        quota_wf(r@),
{
    let subscription = match object_field(data, "current_subscription") {
        Some(s) => Some(read_subscription(data, s)),
        None => None,
    };
    let level = match &subscription {
        Some(s) => match &s.name {
            Some(n) => Some(n.dup()),
            None => None,
        },
        None => None,
    };
    let level = match level {
        Some(n) => Some(n),
        None => match data.str_at("membership_display_name") {
            Some(s) => Some(json::jstr(s)),
            None => None,
        },
    };
    let has_subscription = match &subscription {
        Some(s) => Some(s.active),
        None => truth_field(data, "has_active_subscription"),
    };
    let expire = match &subscription {
        Some(s) => match &s.expire {
            Some(When::At(t)) => Some(When::At(*t)),
            Some(When::Words(t)) => Some(When::Words(t.clone())),
            None => None,
        },
        None => None,
    };
    let is_gift = match &subscription {
        Some(s) => s.is_gift,
        None => None,
    };
    let items = match object_field(data, "window_limit_section") {
        Some(w) => read_windows(w),
        None => {
            let e: Vec<Item> = Vec::new();
            assert(item_views(e@) =~= Seq::empty());
            e
        },
    };
    let r = Quota { level, expire, is_gift, has_subscription, subscription, items };
    assert(forall|i: int| 0 <= i < r@.items.len() ==> (#[trigger] r@.items[i]) == r.items@[i]@);
    r
}

/// What is read out of a response, with its timestamps still to be put in words.
pub fn read_quota(resp: &Json) -> (r: Quota)
    requires
        resp@.wf(),
    ensures
        r@ == quota_of(resp@),
        stamps_in_range(r@),
        quota_wf(r@),
{
    let mut q = match object_field(resp, "data") {
        Some(d) => read_exact(d),
        None => {
            let e: Vec<Item> = Vec::new();
            assert(item_views(e@) =~= Seq::empty());
            Quota {
                level: None,
                expire: None,
                is_gift: None,
                has_subscription: None,
                subscription: None,
                items: e,
            }
        },
    };
    assert(q@.items.len() == q.items@.len());
    if q.level.is_none() && q.expire.is_none() && q.items.len() == 0 {
        let level = pick_scalar(deep_find(resp, &levels(), 0));
        let expire = read_when(deep_find(resp, &expires(), 0));
        let items = read_amounts(resp);
        q = Quota {
            level,
            expire,
            is_gift: q.is_gift,
            has_subscription: q.has_subscription,
            subscription: q.subscription,
            items,
        };
        proof {
            assert(when_in_range(q@.expire));
            let objs = first16(quota_objects(resp@, 0));
            assert forall|i: int| 0 <= i < q@.items.len() implies item_in_range(#[trigger] q@.items[i]) by {
                lemma_amounts_plain(objs, i);
            }
        }
    }
    q
}

proof fn lemma_amounts_plain(objs: Seq<JsonV>, i: int)
    requires
        0 <= i < amounts(objs).len(),
    ensures
        amounts(objs)[i] is Amount,
    decreases objs.len(),
{
    if objs.len() > 0 {
        let before = amounts(objs.drop_last());
        if i < before.len() {
            lemma_amounts_plain(objs.drop_last(), i);
        }
    }
}

// ---- a response in words ----

/// A double, or null.
pub open spec fn double_or_null(b: Option<u64>) -> JsonV {
    match b {
        Some(x) => JsonV::Num(NumV::Flt(x)),
        None => JsonV::Null,
    }
}

/// A timestamp in words, as far as it was asked for.
pub open spec fn stamp_words(s: Option<int>, times: Seq<(i64, String)>) -> Option<Seq<char>> {
    match s {
        Some(t) => Some(clock::time_at(times, t)),
        None => None,
    }
}

/// The day of a timestamp.
pub open spec fn stamp_day(s: Option<int>, times: Seq<(i64, String)>) -> Option<Seq<char>> {
    match s {
        Some(t) => Some(text::head_chars(clock::time_at(times, t), 10)),
        None => None,
    }
}

/// A subscription as JSON.
pub open spec fn subscription_json(s: SubscriptionV, times: Seq<(i64, String)>) -> JsonV {
    let a = json::with_field(Seq::empty(), "name"@, json::or_null(s.name));
    let b = json::with_field(a, "period_days"@, json::int_or_null(s.period_days));
    let c = json::with_field(b, "start_at"@, json::str_or_null(stamp_day(s.start, times)));
    let d = json::with_field(c, "expire_at"@, json::str_or_null(in_words(s.expire, times)));
    let e = json::with_field(d, "is_gift"@, json::truth_or_null(s.is_gift));
    JsonV::Obj(json::with_field(e, "active"@, JsonV::Bool(s.active)))
}

/// A quota as JSON.
pub open spec fn item_json(x: ItemV, times: Seq<(i64, String)>) -> JsonV {
    match x {
        ItemV::Window(name, used, exhausted, reset) => {
            let a = json::with_field(Seq::empty(), "name"@, JsonV::Str(name));
            let b = json::with_field(a, "used_percent"@, double_or_null(used));
            let c = json::with_field(b, "exhausted"@, JsonV::Bool(exhausted));
            JsonV::Obj(json::with_field(c, "reset_at"@, json::str_or_null(stamp_words(reset, times))))
        },
        ItemV::Amount(name, total, left, used) => {
            let a = json::with_field(Seq::empty(), "name"@, name);
            let b = json::with_field(a, "total"@, total);
            let c = json::with_field(b, "left"@, json::or_null(left));
            JsonV::Obj(json::with_field(c, "used"@, json::or_null(used)))
        },
    }
}

/// What was read, as JSON.
pub open spec fn quota_json(q: QuotaV, times: Seq<(i64, String)>) -> JsonV {
    let a = json::with_field(Seq::empty(), "level"@, json::or_null(q.level));
    let b = json::with_field(a, "expire_at"@, json::str_or_null(in_words(q.expire, times)));
    let c = json::with_field(b, "is_gift"@, json::truth_or_null(q.is_gift));
    let d = json::with_field(c, "has_subscription"@, json::truth_or_null(q.has_subscription));
    let e = json::with_field(
        d,
        "subscription"@,
        match q.subscription {
            Some(s) => subscription_json(s, times),
            None => JsonV::Null,
        },
    );
    JsonV::Obj(
        json::with_field(e, "items"@, JsonV::Arr(q.items.map_values(|x: ItemV| item_json(x, times)))),
    )
}

fn write_subscription(s: &Subscription, times: &LocalTimes) -> (r: Json)
    ensures
        r@ == subscription_json(s@, times.entries@),
        opt_wf(s@.name) ==> r@.wf(),
{
    let mut o = json::new_fields();
    json::put(&mut o, "name", json::dup_or_null(&s.name));
    let days = match s.period_days {
        Some(n) => json::jint(n),
        None => Json::Null,
    };
    json::put(&mut o, "period_days", days);
    let start = match s.start {
        Some(t) => Some(text::take_chars(times.at(t).as_str(), 10)),
        None => None,
    };
    json::put(&mut o, "start_at", json::jopt(&start));
    json::put(&mut o, "expire_at", json::jopt(&when_words(&s.expire, times)));
    let gift = match s.is_gift {
        Some(b) => Json::Bool(b),
        None => Json::Null,
    };
    json::put(&mut o, "is_gift", gift);
    json::put(&mut o, "active", Json::Bool(s.active));
    json::object(o)
}

fn write_item(x: &Item, times: &LocalTimes) -> (r: Json)
    ensures
        r@ == item_json(x@, times.entries@),
        item_wf(x@) ==> r@.wf(),
{
    let mut o = json::new_fields();
    match x {
        Item::Window { name, used, exhausted, reset } => {
            json::put(&mut o, "name", json::jstr(name.as_str()));
            let u = match used {
                Some(b) => Json::Number(Num::Float(*b)),
                None => Json::Null,
            };
            json::put(&mut o, "used_percent", u);
            json::put(&mut o, "exhausted", Json::Bool(*exhausted));
            let t = match reset {
                Some(s) => Some(times.at(*s)),
                None => None,
            };
            json::put(&mut o, "reset_at", json::jopt(&t));
        },
        Item::Amount { label, total, left, spent } => {
            json::put(&mut o, "name", label.dup());
            json::put(&mut o, "total", total.dup());
            json::put(&mut o, "left", json::dup_or_null(left));
            json::put(&mut o, "used", json::dup_or_null(spent));
        },
    }
    json::object(o)
}

/// What was read, as JSON, with the local times that were asked for.
pub fn write_quota(q: &Quota, times: &LocalTimes) -> (r: Json)
    ensures
        r@ == quota_json(q@, times.entries@),
        quota_wf(q@) ==> r@.wf(),
{
    let mut o = json::new_fields();
    json::put(&mut o, "level", json::dup_or_null(&q.level));
    json::put(&mut o, "expire_at", json::jopt(&when_words(&q.expire, times)));
    let gift = match q.is_gift {
        Some(b) => Json::Bool(b),
        None => Json::Null,
    };
    json::put(&mut o, "is_gift", gift);
    let has = match q.has_subscription {
        Some(b) => Json::Bool(b),
        None => Json::Null,
    };
    json::put(&mut o, "has_subscription", has);
    let sub = match &q.subscription {
        Some(s) => write_subscription(s, times),
        None => Json::Null,
    };
    json::put(&mut o, "subscription", sub);
    let ghost want = q@.items.map_values(|x: ItemV| item_json(x, times.entries@));
    let mut items: Vec<Json> = Vec::new();
    let mut i: usize = 0;
    while i < q.items.len()
        invariant
            i <= q.items@.len(),
            want == q@.items.map_values(|x: ItemV| item_json(x, times.entries@)),
            json::items(items@) == want.take(i as int),
            quota_wf(q@) ==> forall|k: int| 0 <= k < items@.len() ==> (#[trigger] items@[k])@.wf(),
        decreases q.items@.len() - i,
    {
        assert(q@.items[i as int] == q.items@[i as int]@);
        let ghost before = json::items(items@);
        let x = write_item(&q.items[i], times);
        items.push(x);
        i += 1;
        assert(json::items(items@) =~= before.push(x@));
        assert(json::items(items@) =~= want.take(i as int));
    }
    assert(json::items(items@) =~= want);
    let arr = Json::Array(items);
    proof {
        json::lemma_view_parts(arr);
        if quota_wf(q@) {
            assert forall|k: int| 0 <= k < want.len() implies (#[trigger] want[k]).wf() by {
                assert(items@[k]@.wf());
            }
        }
    }
    json::put(&mut o, "items", arr);
    json::object(o)
}

/// The timestamp of a time.
pub open spec fn when_stamp(w: Option<WhenV>) -> Option<int> {
    match w {
        Some(WhenV::At(s)) => Some(s),
        _ => None,
    }
}

/// Whether all the timestamps of a response have been asked for, and their local times are told.
pub open spec fn is_covered(q: QuotaV, times: Seq<(i64, String)>) -> bool {
    &&& clock::tells(times)
    &&& when_stamp(q.expire) matches Some(s) ==> clock::is_known(times, s)
    &&& q.subscription matches Some(x) ==> {
        &&& when_stamp(x.expire) matches Some(s) ==> clock::is_known(times, s)
        &&& x.start matches Some(s) ==> clock::is_known(times, s)
    }
    &&& forall|i: int| 0 <= i < q.items.len() ==> item_covered(#[trigger] q.items[i], times)
}

/// Whether the timestamp of a quota has been asked for.
pub open spec fn item_covered(x: ItemV, times: Seq<(i64, String)>) -> bool {
    x matches ItemV::Window(_, _, _, Some(s)) ==> clock::is_known(times, s)
}

fn push_when(stamps: &mut Vec<i64>, w: &Option<When>)
    requires
        forall|i: int| 0 <= i < old(stamps)@.len() ==> clock::in_range(#[trigger] old(stamps)@[i] as int),
        when_in_range(opt_when(*w)),
    ensures
        forall|i: int| 0 <= i < final(stamps)@.len() ==> clock::in_range(#[trigger] final(stamps)@[i] as int),
        when_stamp(opt_when(*w)) matches Some(s) ==> is_listed(final(stamps)@, s),
        forall|s: int| is_listed(old(stamps)@, s) ==> #[trigger] is_listed(final(stamps)@, s),
{
    if let Some(When::At(s)) = w {
        push_stamp(stamps, *s);
    }
}

/// Whether a timestamp is in a list.
pub open spec fn is_listed(list: Seq<i64>, s: int) -> bool {
    exists|i: int| 0 <= i < list.len() && (#[trigger] list[i]) == s
}

fn push_stamp(stamps: &mut Vec<i64>, s: i64)
    requires
        forall|i: int| 0 <= i < old(stamps)@.len() ==> clock::in_range(#[trigger] old(stamps)@[i] as int),
        clock::in_range(s as int),
    ensures
        forall|i: int| 0 <= i < final(stamps)@.len() ==> clock::in_range(#[trigger] final(stamps)@[i] as int),
        is_listed(final(stamps)@, s as int),
        forall|t: int| is_listed(old(stamps)@, t) ==> #[trigger] is_listed(final(stamps)@, t),
{
    let ghost before = stamps@;
    stamps.push(s);
    proof {
        assert(stamps@[before.len() as int] == s);
        assert forall|t: int| is_listed(before, t) implies #[trigger] is_listed(stamps@, t) by {
            let i = choose|i: int| 0 <= i < before.len() && (#[trigger] before[i]) == t;
            assert(stamps@[i] == t);
        }
    }
}

/// Asks for the local times of all the timestamps of a response.
pub fn ask_times(q: &Quota) -> (r: LocalTimes)
    requires
        stamps_in_range(q@),
    ensures
        is_covered(q@, r.entries@),
{
    let mut stamps: Vec<i64> = Vec::new();
    push_when(&mut stamps, &q.expire);
    let ghost s0 = stamps@;
    if let Some(s) = &q.subscription {
        push_when(&mut stamps, &s.expire);
        if let Some(t) = s.start {
            push_stamp(&mut stamps, t);
        }
    }
    let ghost s1 = stamps@;
    let mut i: usize = 0;
    while i < q.items.len()
        invariant
            i <= q.items@.len(),
            forall|k: int| 0 <= k < q.items@.len() ==> item_in_range(#[trigger] q@.items[k]),
            forall|k: int| 0 <= k < stamps@.len() ==> clock::in_range(#[trigger] stamps@[k] as int),
            forall|t: int| is_listed(s1, t) ==> #[trigger] is_listed(stamps@, t),
            forall|k: int|
                0 <= k < i ==> (#[trigger] q@.items[k] matches ItemV::Window(_, _, _, Some(s)) ==> is_listed(stamps@, s)),
        decreases q.items@.len() - i,
    {
        assert(q@.items[i as int] == q.items@[i as int]@);
        assert(item_in_range(q@.items[i as int]));
        if let Item::Window { reset: Some(s), .. } = &q.items[i] {
            push_stamp(&mut stamps, *s);
        }
        i += 1;
    }
    let times = LocalTimes::ask(&stamps);
    proof {
        assert forall|t: int| #[trigger] is_listed(stamps@, t) implies clock::is_known(times.entries@, t) by {
            let k = choose|k: int| 0 <= k < stamps@.len() && (#[trigger] stamps@[k]) == t;
            assert(clock::is_known(times.entries@, stamps@[k] as int));
        }
        let v = q@;
        if let Some(s) = when_stamp(v.expire) {
            assert(is_listed(s0, s));
            assert(is_listed(s1, s));
            assert(is_listed(stamps@, s));
        }
        if let Some(x) = v.subscription {
            if let Some(s) = when_stamp(x.expire) {
                assert(is_listed(s1, s));
                assert(is_listed(stamps@, s));
            }
            if let Some(s) = x.start {
                assert(is_listed(s1, s));
                assert(is_listed(stamps@, s));
            }
        }
        assert forall|k: int| 0 <= k < v.items.len() implies item_covered(#[trigger] v.items[k], times.entries@) by {
            if let ItemV::Window(_, _, _, Some(s)) = v.items[k] {
                assert(is_listed(stamps@, s));
            }
        }
    }
    times
}

/// Whether a value is what a response comes to, with the local times that the machine gave.
pub open spec fn is_parsed(resp: JsonV, r: JsonV) -> bool {
    exists|times: Seq<(i64, String)>|
        #[trigger] is_covered(quota_of(resp), times) && r == quota_json(quota_of(resp), times)
}

/// A response of the quota service, read and put in words: a timestamp in local time, which the
/// machine decides.
pub fn parse_quota(resp: &Json) -> (r: Json)
    requires
        resp@.wf(),
    ensures
        is_parsed(resp@, r@),
        r@.wf(),
{
    let q = read_quota(resp);
    let times = ask_times(&q);
    let r = write_quota(&q, &times);
    assert(is_covered(quota_of(resp@), times.entries@));
    r
}

// ---- summing up ----

/// Text put together of the parts of a window that starts again, behind its first five characters.
pub open spec fn reset_note(reset: Option<Seq<char>>) -> Seq<char> {
    match reset {
        Some(t) => if t.len() > 5 {
            "（"@ + t.skip(5) + " 重置）"@
        } else {
            Seq::empty()
        },
        None => Seq::empty(),
    }
}

/// The name of a quota; a word for quotas where it has none.
pub open spec fn item_name(it: JsonV) -> Seq<char> {
    match it.get("name"@) {
        Some(v) => if json::shown(v).len() > 0 {
            json::shown(v)
        } else {
            "额度"@
        },
        None => "额度"@,
    }
}

/// A field where it is not null.
pub open spec fn filled_at(v: JsonV, key: Seq<char>) -> Option<JsonV> {
    match v.get(key) {
        Some(x) => if x is Null {
            None
        } else {
            Some(x)
        },
        None => None,
    }
}

/// A quota in a few words: of a window how much is used, of an amount what is left.
pub open spec fn item_summary(it: JsonV) -> Option<Seq<char>> {
    match double_at(it, "used_percent"@) {
        Some(bits) => {
            let done = truth_at(it, "exhausted"@) == Some(true) || is_full(it.get("used_percent"@));
            let state = if done {
                "已用完"@
            } else {
                "已用 "@ + floats::rounded_words(bits) + "%"@
            };
            Some(item_name(it) + " "@ + (state + reset_note(it.text_at("reset_at"@))))
        },
        None => match (filled_at(it, "total"@), filled_at(it, "left"@)) {
            (Some(t), Some(l)) => Some(item_name(it) + " "@ + json::shown(l) + "/"@ + json::shown(t)),
            (Some(t), None) => Some(item_name(it) + " 总量 "@ + json::shown(t)),
            (None, _) => None,
        },
    }
}

/// The quotas in a few words each, in order.
pub open spec fn item_summaries(items: Seq<JsonV>) -> Seq<Seq<char>>
    decreases items.len(),
{
    if items.len() == 0 {
        Seq::empty()
    } else {
        match item_summary(items.last()) {
            Some(t) => item_summaries(items.drop_last()).push(t),
            None => item_summaries(items.drop_last()),
        }
    }
}

/// The first four quotas in a few words each.
pub open spec fn summary_parts(parsed: JsonV) -> Seq<Seq<char>> {
    let items = parsed.elements_at("items"@);
    item_summaries(
        if items.len() > 4 {
            items.take(4)
        } else {
            items
        },
    )
}

fn filled_field<'a>(v: &'a Json, key: &str) -> (r: Option<&'a Json>)
    requires
        v@.wf(),
    ensures
        json::opt_ref(r) == filled_at(v@, key@),
        r matches Some(x) ==> x@.wf(),
{
    broadcast use json::lemma_get_wf;

    match v.get(key) {
        Some(x) => if x.is_null() {
            None
        } else {
            Some(x)
        },
        None => None,
    }
}

fn summarize_item(it: &Json) -> (r: Option<String>)
    requires
        it@.wf(),
    ensures
        text::opt_text(r) == item_summary(it@),
{
    broadcast use json::lemma_get_wf;

    let name = match it.get("name") {
        Some(v) => {
            let t = json::value_to_str(v);
            if t.as_str().unicode_len() > 0 {
                t
            } else {
                "额度".to_owned()
            }
        },
        None => "额度".to_owned(),
    };
    match double_field(it, "used_percent") {
        Some(bits) => {
            let done = match truth_field(it, "exhausted") {
                Some(b) => b,
                None => false,
            } || full(it.get("used_percent"));
            let mut state = if done {
                "已用完".to_owned()
            } else {
                text::cat3("已用 ", floats::round_words(bits).as_str(), "%")
            };
            let mut note = String::new();
            if let Some(t) = it.str_at("reset_at") {
                if t.unicode_len() > 5 {
                    note = text::cat3("（", text::drop_chars(t, 5).as_str(), " 重置）");
                }
            }
            assert(note@ =~= reset_note(it@.text_at("reset_at"@)));
            state.append(note.as_str());
            Some(text::cat3(name.as_str(), " ", state.as_str()))
        },
        None => match filled_field(it, "total") {
            Some(t) => match filled_field(it, "left") {
                Some(l) => {
                    let mut r = text::cat3(name.as_str(), " ", json::value_to_str(l).as_str());
                    r.append("/");
                    r.append(json::value_to_str(t).as_str());
                    Some(r)
                },
                None => Some(text::cat3(name.as_str(), " 总量 ", json::value_to_str(t).as_str())),
            },
            None => None,
        },
    }
}

/// What was read in one line: at most four quotas; nothing where none of them says anything.
pub fn summarize_parsed(parsed: &Json) -> (r: Option<String>)
    requires
        parsed@.wf(),
    ensures
        text::opt_text(r) == if summary_parts(parsed@).len() == 0 {
            None
        } else {
            Some(text::joined(summary_parts(parsed@), " · "@))
        },
{
    let mut parts: Vec<String> = Vec::new();
    assert(text::texts(parts@) =~= Seq::empty());
    let list = match parsed.get("items") {
        Some(v) => v.as_array(),
        None => None,
    };
    if let Some(a) = list {
        let n: usize = if a.len() > 4 {
            4
        } else {
            a.len()
        };
        let ghost all = json::items(a@);
        let ghost used = if all.len() > 4 {
            all.take(4)
        } else {
            all
        };
        proof {
            json::lemma_get_wf(parsed@, "items"@);
            assert(parsed@.elements_at("items"@) == all);
            assert(used.take(0) =~= Seq::empty());
            assert forall|k: int| 0 <= k < a@.len() implies (#[trigger] a@[k])@.wf() by {
                assert(all[k].wf());
            }
        }
        let mut i: usize = 0;
        while i < n
            invariant
                i <= n,
                n <= a@.len(),
                n == used.len(),
                forall|k: int| 0 <= k < n ==> used[k] == (#[trigger] a@[k])@,
                forall|k: int| 0 <= k < a@.len() ==> (#[trigger] a@[k])@.wf(),
                text::texts(parts@) == item_summaries(used.take(i as int)),
            decreases n - i,
        {
            let ghost before = text::texts(parts@);
            proof {
                assert(used.take(i + 1).last() == a@[i as int]@);
                assert(used.take(i + 1).drop_last() =~= used.take(i as int));
            }
            if let Some(t) = summarize_item(&a[i]) {
                parts.push(t);
                assert(text::texts(parts@) =~= before.push(t@));
            }
            i += 1;
        }
        assert(used.take(n as int) =~= used);
    }
    assert(text::texts(parts@).len() == parts@.len());
    if parts.len() == 0 {
        None
    } else {
        Some(text::join(&parts, " · "))
    }
}

// ---- asking the service ----

/// The cookie of a request: the session, and its guard where there is one.
pub open spec fn cookie_of(sid: Seq<char>, guard: Option<Seq<char>>) -> Seq<char> {
    "sessionid="@ + sid + match guard {
        Some(g) => if g.len() > 0 {
            "; sid_guard="@ + g
        } else {
            Seq::empty()
        },
        None => Seq::empty(),
    }
}

/// The cookie of a request.
pub fn request_cookie(sid: &str, sid_guard: Option<&str>) -> (r: String)
    ensures
        r@ == cookie_of(sid@, text::opt_str(sid_guard)),
{
    let mut r = text::cat("sessionid=", sid);
    let ghost before = r@;
    match sid_guard {
        Some(g) => {
            if g.unicode_len() > 0 {
                r.append("; sid_guard=");
                r.append(g);
                assert(r@ =~= before + ("; sid_guard="@ + g@));
            } else {
                assert(r@ =~= before + Seq::<char>::empty());
            }
        },
        None => {
            assert(r@ =~= before + Seq::<char>::empty());
        },
    }
    r
}

/// What came back of a request.
pub enum Reply {
    /// A body.
    Body(String),
    /// An error status.
    Status(u16),
    /// No answer, in words.
    Failed(String),
}

/// Whether a response's code says that it is good: a code that is missing or zero.
pub open spec fn is_good_code(code: Option<JsonV>) -> bool {
    match code {
        None => true,
        Some(JsonV::Null) => true,
        Some(JsonV::Num(n)) => floats::is_zero(n),
        Some(_) => false,
    }
}

/// Why a body is not good.
pub open spec fn code_error(code: Option<JsonV>) -> Seq<char> {
    let shown = match code {
        Some(c) => json::shown(c),
        None => "?"@,
    };
    let number = match code {
        Some(c) => c.whole(),
        None => None,
    };
    if number == Some(710012001int) {
        "接口返回异常 code="@ + shown + "：登录态已失效，请开启代理重新抓取凭证或重新保存该账号登录态"@
    } else {
        "接口返回异常 code="@ + shown
    }
}

/// What is wrong with a body, if anything.
pub open spec fn body_error(body: JsonV) -> Option<Seq<char>> {
    if body !is Obj {
        Some("接口返回异常 code=?"@)
    } else if !is_good_code(body.get("code"@)) {
        Some(code_error(body.get("code"@)))
    } else {
        None
    }
}

/// What is wrong with a body, if anything.
pub fn check_body(body: &Json) -> (r: Option<String>)
    requires
        body@.wf(),
    ensures
        text::opt_text(r) == body_error(body@),
{
    broadcast use {json::lemma_get_wf, json::lemma_view_parts};

    if !body.is_object() {
        return Some("接口返回异常 code=?".to_owned());
    }
    let code = body.get("code");
    let good = match code {
        None => true,
        Some(c) => match c {
            Json::Null => true,
            Json::Number(n) => floats::num_is_zero(n),
            _ => false,
        },
    };
    if good {
        return None;
    }
    let shown = match code {
        Some(c) => json::value_to_str(c),
        None => "?".to_owned(),
    };
    let number: Option<i64> = match code {
        Some(c) => c.as_i64(),
        None => None,
    };
    let mut r = text::cat("接口返回异常 code=", shown.as_str());
    if let Some(n) = number {
        if n == 710012001 {
            r.append("：登录态已失效，请开启代理重新抓取凭证或重新保存该账号登录态");
        }
    }
    Some(r)
}

/// What a reply comes to: a body that is good JSON, or an error in words.
pub open spec fn reply_body(reply: Reply) -> Result<JsonV, Seq<char>> {
    match reply {
        Reply::Body(raw) => match json::json_read(raw@) {
            Ok(body) => match body_error(body) {
                Some(e) => Err(e),
                None => Ok(body),
            },
            Err(e) => Err("响应解析失败: "@ + e),
        },
        Reply::Status(code) => Err("HTTP "@ + digits::decimal(code as int)),
        Reply::Failed(e) => Err("请求失败: "@ + e@),
    }
}

/// Whether a value is the result of a query with the given body.
pub open spec fn is_query_result(body: JsonV, r: JsonV) -> bool {
    exists|parsed: JsonV|
        #[trigger] is_parsed(body, parsed) && r == JsonV::Obj(
            json::with_field(json::with_field(Seq::empty(), "ok"@, JsonV::Bool(true)), "parsed"@, parsed),
        )
}

/// Reads the reply to a query: what the membership comes to, or an error in words.
pub fn query_account(reply: &Reply) -> (r: Result<Json, String>)
    ensures
        match reply_body(*reply) {
            Ok(body) => r is Ok && is_query_result(body, r->Ok_0@) && r->Ok_0@.wf(),
            Err(e) => r is Err && r->Err_0@ == e,
        },
{
    match reply {
        Reply::Status(code) => Err(text::cat("HTTP ", digits::number(*code as u64).as_str())),
        Reply::Failed(e) => Err(text::cat("请求失败: ", e.as_str())),
        Reply::Body(raw) => match json::read_json(raw.as_str()) {
            Err(e) => Err(text::cat("响应解析失败: ", e.as_str())),
            Ok(body) => match check_body(&body) {
                Some(e) => Err(e),
                None => {
                    let parsed = parse_quota(&body);
                    let ghost p = parsed@;
                    let mut o = json::new_fields();
                    json::put(&mut o, "ok", Json::Bool(true));
                    json::put(&mut o, "parsed", parsed);
                    let r = json::object(o);
                    assert(is_parsed(body@, p));
                    assert(is_query_result(body@, r@));
                    Ok(r)
                },
            },
        },
    }
}

/// The credentials of an account of the pool.
pub struct Credentials {
    pub session_id: String,
    pub sid_guard: Option<String>,
}

/// The first account of a user.
pub open spec fn pool_account(accounts: Seq<JsonV>, uid: Seq<char>) -> Option<JsonV>
    decreases accounts.len(),
{
    if accounts.len() == 0 {
        None
    } else if accounts[0].text_at("user_id"@) == Some(uid) {
        Some(accounts[0])
    } else {
        pool_account(accounts.skip(1), uid)
    }
}

/// The credentials of a user in the pool, or what is missing.
pub fn fetch_single(pool: &Json, uid: &str) -> (r: Result<Credentials, String>)
    ensures
        match pool_account(pool@.elements_at("accounts"@), uid@) {
            None => r matches Err(e) && e@ == "账号 "@ + uid@ + " 不在账号池中"@,
            Some(acc) => {
                let sid = match acc.text_at("session_id"@) {
                    Some(s) => s,
                    None => Seq::empty(),
                };
                if sid.len() == 0 {
                    r matches Err(e) && e@ == "该账号未录入 sessionid 凭证（开代理自动写入，或账号管理 → 编辑 手动录入）"@
                } else {
                    r matches Ok(c) && c.session_id@ == sid && text::opt_text(c.sid_guard) == acc.text_at("sid_guard"@)
                }
            },
        },
{
    let list = match pool.get("accounts") {
        Some(v) => v.as_array(),
        None => None,
    };
    if let Some(a) = list {
        let ghost all = json::items(a@);
        assert(pool@.elements_at("accounts"@) == all);
        assert(all.skip(0) =~= all);
        let mut i: usize = 0;
        while i < a.len()
            invariant
                i <= a@.len(),
                all == json::items(a@),
                all == pool@.elements_at("accounts"@),
                pool_account(all, uid@) == pool_account(all.skip(i as int), uid@),
            decreases a@.len() - i,
        {
            proof {
                assert(all.skip(i as int)[0] == a@[i as int]@);
                assert(all.skip(i as int).skip(1) =~= all.skip(i + 1));
            }
            let acc = &a[i];
            let is_it = match acc.str_at("user_id") {
                Some(u) => text::same(u, uid),
                None => false,
            };
            if is_it {
                let sid = match acc.str_at("session_id") {
                    Some(s) => s.to_owned(),
                    None => String::new(),
                };
                if sid.as_str().unicode_len() == 0 {
                    return Err(
                        "该账号未录入 sessionid 凭证（开代理自动写入，或账号管理 → 编辑 手动录入）".to_owned(),
                    );
                }
                let guard = match acc.str_at("sid_guard") {
                    Some(g) => Some(g.to_owned()),
                    None => None,
                };
                return Ok(Credentials { session_id: sid, sid_guard: guard });
            }
            i += 1;
        }
    }
    Err(text::cat3("账号 ", uid, " 不在账号池中"))
}

/// The record of one query.
pub open spec fn single_record(url: Seq<char>, uid: Seq<char>, parsed: JsonV, finished: Seq<char>) -> JsonV {
    let a = json::with_field(Seq::empty(), "ok"@, JsonV::Bool(true));
    let b = json::with_field(a, "http_status"@, json::int_v(200));
    let c = json::with_field(b, "url"@, JsonV::Str(url));
    let d = json::with_field(c, "user_id"@, JsonV::Str(uid));
    let e = json::with_field(d, "parsed"@, parsed);
    let f = json::with_field(e, "finished_at"@, JsonV::Str(finished));
    JsonV::Obj(json::with_field(f, "logs"@, JsonV::Arr(Seq::empty())))
}

/// The record of one query, with what it came to.
pub fn single_summary(url: &str, uid: &str, result: &Json, finished: &str) -> (r: Json)
    ensures
        r@ == single_record(url@, uid@, json::or_null(result@.get("parsed"@)), finished@),
{
    let mut o = json::new_fields();
    json::put(&mut o, "ok", Json::Bool(true));
    json::put(&mut o, "http_status", json::jint(200));
    json::put(&mut o, "url", json::jstr(url));
    json::put(&mut o, "user_id", json::jstr(uid));
    json::put(&mut o, "parsed", json::field_or_null(result, "parsed"));
    json::put(&mut o, "finished_at", json::jstr(finished));
    let empty: Vec<Json> = Vec::new();
    let arr = Json::Array(empty);
    proof {
        json::lemma_view_parts(arr);
        assert(json::items(empty@) =~= Seq::empty());
    }
    json::put(&mut o, "logs", arr);
    json::object(o)
}

/// The events with one more, the oldest dropped where there would be more than are kept.
pub open spec fn with_event(events: Seq<JsonV>, event: JsonV) -> Seq<JsonV> {
    let all = events.push(event);
    if all.len() > 400 {
        all.skip(all.len() - 400)
    } else {
        all
    }
}

/// Adds an event to the history.
pub fn append_history(events: &mut Vec<Json>, event: Json)
    ensures
        json::items(final(events)@) == with_event(json::items(old(events)@), event@),
{
    let ghost before = json::items(events@);
    events.push(event);
    assert(json::items(events@) =~= before.push(event@));
    let n: usize = events.len();
    if n > HISTORY_MAX {
        let tail = events.split_off(n - HISTORY_MAX);
        *events = tail;
        assert(json::items(events@) =~= with_event(before, event@));
    }
}

/// The history never holds more than its limit, and what was added last is there.
pub proof fn history_is_bounded(events: Seq<JsonV>, event: JsonV)
    requires
        events.len() <= 400,
    ensures
        with_event(events, event).len() <= 400,
        with_event(events, event).last() == event,
{
}

// ---- the round over all accounts ----

/// An account that can be asked about.
pub struct Target {
    pub index: usize,
    pub user_id: String,
    pub session_id: String,
    pub sid_guard: Option<String>,
}

/// The model of an account that can be asked about.
#[verifier::ext_equal]
pub struct TargetV {
    pub index: int,
    pub user_id: Seq<char>,
    pub session_id: Seq<char>,
    pub sid_guard: Option<Seq<char>>,
}

impl View for Target {
    type V = TargetV;

    open spec fn view(&self) -> TargetV {
        TargetV {
            index: self.index as int,
            user_id: self.user_id@,
            session_id: self.session_id@,
            sid_guard: text::opt_text(self.sid_guard),
        }
    }
}

/// An account as a target: one with a user and a session.
pub open spec fn target_of(acc: JsonV, index: int) -> Option<TargetV> {
    match (acc.text_at("user_id"@), acc.text_at("session_id"@)) {
        (Some(u), Some(s)) => if u.len() > 0 && s.len() > 0 {
            Some(TargetV { index, user_id: u, session_id: s, sid_guard: acc.text_at("sid_guard"@) })
        } else {
            None
        },
        _ => None,
    }
}

/// The targets among the first accounts, in order.
pub open spec fn targets_of(accounts: Seq<JsonV>) -> Seq<TargetV>
    decreases accounts.len(),
{
    if accounts.len() == 0 {
        Seq::empty()
    } else {
        match target_of(accounts.last(), accounts.len() - 1) {
            Some(t) => targets_of(accounts.drop_last()).push(t),
            None => targets_of(accounts.drop_last()),
        }
    }
}

/// The models of targets.
pub open spec fn target_views(v: Seq<Target>) -> Seq<TargetV> {
    v.map_values(|t: Target| t@)
}

/// The accounts of the pool; why there are none where there is no pool, or it cannot be read.
pub fn open_pool(pool: Option<&Json>, path: &str) -> (r: Result<Vec<Json>, String>)
    ensures
        match pool {
            None => r matches Err(e) && e@ == "账号池不存在: "@ + path@,
            Some(p) => match p@.get("accounts"@) {
                Some(JsonV::Arr(list)) => r matches Ok(v) && json::items(v@) == list,
                _ => r matches Err(e) && e@ == "账号池解析失败"@,
            },
        },
{
    broadcast use json::lemma_view_parts;

    match pool {
        None => Err(text::cat("账号池不存在: ", path)),
        Some(p) => match p.get("accounts") {
            Some(v) => match v.as_array() {
                Some(list) => Ok(json::dup_list(list)),
                None => Err("账号池解析失败".to_owned()),
            },
            None => Err("账号池解析失败".to_owned()),
        },
    }
}

/// The address that is asked: the one that is set, without white space around it, else the usual
/// one.
pub fn quota_url(setting: Option<&str>, usual: &str) -> (r: String)
    ensures
        r@ == match setting {
            Some(u) => if text::trimmed(u@).len() > 0 {
                text::trimmed(u@)
            } else {
                usual@
            },
            None => usual@,
        },
{
    match setting {
        Some(u) => {
            let t = text::trim(u);
            if t.as_str().unicode_len() > 0 {
                t
            } else {
                usual.to_owned()
            }
        },
        None => usual.to_owned(),
    }
}

/// The accounts that can be asked about, in order.
pub fn batch_targets(accounts: &Vec<Json>) -> (r: Vec<Target>)
    ensures
        target_views(r@) == targets_of(json::items(accounts@)),
        forall|i: int| 0 <= i < r@.len() ==> (#[trigger] r@[i]).index < accounts@.len(),
{
    let ghost all = json::items(accounts@);
    let mut out: Vec<Target> = Vec::new();
    assert(all.take(0) =~= Seq::empty());
    assert(target_views(out@) =~= Seq::empty());
    let mut i: usize = 0;
    while i < accounts.len()
        invariant
            i <= accounts@.len(),
            all == json::items(accounts@),
            target_views(out@) == targets_of(all.take(i as int)),
            forall|k: int| 0 <= k < out@.len() ==> (#[trigger] out@[k]).index < accounts@.len(),
        decreases accounts@.len() - i,
    {
        let ghost before = target_views(out@);
        proof {
            assert(all.take(i + 1).last() == accounts@[i as int]@);
            assert(all.take(i + 1).drop_last() =~= all.take(i as int));
        }
        let acc = &accounts[i];
        match (acc.str_at("user_id"), acc.str_at("session_id")) {
            (Some(u), Some(s)) => {
                if u.unicode_len() > 0 && s.unicode_len() > 0 {
                    let guard = match acc.str_at("sid_guard") {
                        Some(g) => Some(g.to_owned()),
                        None => None,
                    };
                    let t = Target { index: i, user_id: u.to_owned(), session_id: s.to_owned(), sid_guard: guard };
                    out.push(t);
                    assert(target_views(out@) =~= before.push(t@));
                }
            },
            _ => {},
        }
        i += 1;
    }
    assert(all.take(all.len() as int) =~= all);
    out
}

/// The windows of what was read, cut down to name, use and time.
pub open spec fn window_records(items: Seq<JsonV>) -> Seq<JsonV>
    decreases items.len(),
{
    if items.len() == 0 {
        Seq::empty()
    } else {
        let it = items.last();
        let before = window_records(items.drop_last());
        if double_at(it, "used_percent"@) is Some {
            let a = json::with_field(Seq::empty(), "name"@, json::or_null(it.get("name"@)));
            let b = json::with_field(a, "used_percent"@, json::or_null(it.get("used_percent"@)));
            before.push(JsonV::Obj(json::with_field(b, "reset_at"@, json::or_null(it.get("reset_at"@)))))
        } else {
            before
        }
    }
}

/// Whether one of the windows is used up.
pub open spec fn any_full(items: Seq<JsonV>) -> bool
    decreases items.len(),
{
    items.len() > 0 && (any_full(items.drop_last()) || is_full(items.last().get("used_percent"@)))
}

/// When the first window that says so starts again.
pub open spec fn first_reset(items: Seq<JsonV>) -> Option<Seq<char>>
    decreases items.len(),
{
    if items.len() == 0 {
        None
    } else {
        match first_reset(items.drop_last()) {
            Some(t) => Some(t),
            None => if double_at(items.last(), "used_percent"@) is Some {
                items.last().text_at("reset_at"@)
            } else {
                None
            },
        }
    }
}

/// What the windows of a result come to.
pub struct Windows {
    pub records: Vec<Json>,
    pub full: bool,
    pub reset: Option<String>,
}

fn read_result_windows(parsed: &Json) -> (r: Windows)
    requires
        parsed@.wf(),
    ensures
        ({
            let items = parsed@.elements_at("items"@);
            &&& json::items(r.records@) == window_records(items)
            &&& r.full == any_full(items)
            &&& text::opt_text(r.reset) == first_reset(items)
        }),
{
    broadcast use json::lemma_get_wf;

    let mut records: Vec<Json> = Vec::new();
    let mut is_any_full = false;
    let mut reset: Option<String> = None;
    assert(json::items(records@) =~= Seq::empty());
    let list = match parsed.get("items") {
        Some(v) => v.as_array(),
        None => None,
    };
    if let Some(a) = list {
        let ghost all = json::items(a@);
        proof {
            assert(parsed@.elements_at("items"@) == all);
            assert(all.take(0) =~= Seq::empty());
            assert forall|k: int| 0 <= k < a@.len() implies (#[trigger] a@[k])@.wf() by {
                assert(all[k].wf());
            }
        }
        let mut i: usize = 0;
        while i < a.len()
            invariant
                i <= a@.len(),
                all == json::items(a@),
                forall|k: int| 0 <= k < a@.len() ==> (#[trigger] a@[k])@.wf(),
                json::items(records@) == window_records(all.take(i as int)),
                is_any_full == any_full(all.take(i as int)),
                text::opt_text(reset) == first_reset(all.take(i as int)),
            decreases a@.len() - i,
        {
            let ghost before = json::items(records@);
            proof {
                assert(all.take(i + 1).last() == a@[i as int]@);
                assert(all.take(i + 1).drop_last() =~= all.take(i as int));
            }
            let it = &a[i];
            if full(it.get("used_percent")) {
                is_any_full = true;
            }
            if double_field(it, "used_percent").is_some() {
                let mut o = json::new_fields();
                json::put(&mut o, "name", json::field_or_null(it, "name"));
                json::put(&mut o, "used_percent", json::field_or_null(it, "used_percent"));
                json::put(&mut o, "reset_at", json::field_or_null(it, "reset_at"));
                let x = json::object(o);
                records.push(x);
                assert(json::items(records@) =~= before.push(x@));
                if reset.is_none() {
                    reset = match it.str_at("reset_at") {
                        Some(t) => Some(t.to_owned()),
                        None => None,
                    };
                }
            }
            i += 1;
        }
        assert(all.take(all.len() as int) =~= all);
    }
    Windows { records, full: is_any_full, reset }
}

/// A round over all accounts, as far as it has come.
pub struct Batch {
    pub accounts: Vec<Json>,
    pub success: usize,
    pub failed: usize,
    pub exhausted: Vec<Json>,
    pub errors: Vec<Json>,
    pub changed: bool,
}

/// An account with what a query came to.
pub open spec fn with_quota(acc: JsonV, parsed: JsonV, summary: Option<Seq<char>>, now: Seq<char>) -> JsonV {
    match acc {
        JsonV::Obj(o) => {
            let a = json::with_field(o, "quota_level"@, json::or_null(parsed.get("level"@)));
            let b = json::with_field(a, "quota_expire_at"@, json::or_null(parsed.get("expire_at"@)));
            let c = json::with_field(b, "quota_summary"@, json::str_or_null(summary));
            JsonV::Obj(json::with_field(c, "quota_checked_at"@, JsonV::Str(now)))
        },
        _ => acc,
    }
}

/// What was read in one line.
pub open spec fn summary_of(parsed: JsonV) -> Option<Seq<char>> {
    if summary_parts(parsed).len() == 0 {
        None
    } else {
        Some(text::joined(summary_parts(parsed), " · "@))
    }
}

/// The record of an account that has used a window up.
pub open spec fn exhausted_record(acc: JsonV, uid: Seq<char>, reset: Option<Seq<char>>) -> JsonV {
    let name = match acc.text_at("name"@) {
        Some(n) => if n.len() > 0 {
            n
        } else {
            uid
        },
        None => uid,
    };
    let a = json::with_field(Seq::empty(), "user_id"@, JsonV::Str(uid));
    let b = json::with_field(a, "name"@, JsonV::Str(name));
    JsonV::Obj(json::with_field(b, "reset_at"@, json::str_or_null(reset)))
}

/// The event of a query that came to something.
pub open spec fn good_event(uid: Seq<char>, parsed: JsonV, now: Seq<char>) -> JsonV {
    let a = json::with_field(Seq::empty(), "ts"@, JsonV::Str(now));
    let b = json::with_field(a, "kind"@, JsonV::Str("quota"@));
    let c = json::with_field(b, "uid"@, JsonV::Str(uid));
    let d = json::with_field(c, "ok"@, JsonV::Bool(true));
    let e = json::with_field(d, "level"@, json::or_null(parsed.get("level"@)));
    let f = json::with_field(e, "summary"@, json::str_or_null(summary_of(parsed)));
    let g = json::with_field(f, "windows"@, JsonV::Arr(window_records(parsed.elements_at("items"@))));
    JsonV::Obj(json::with_field(g, "source"@, JsonV::Str("task"@)))
}

/// The event of a query that failed.
pub open spec fn bad_event(uid: Seq<char>, error: Seq<char>, now: Seq<char>) -> JsonV {
    let a = json::with_field(Seq::empty(), "ts"@, JsonV::Str(now));
    let b = json::with_field(a, "kind"@, JsonV::Str("quota"@));
    let c = json::with_field(b, "uid"@, JsonV::Str(uid));
    let d = json::with_field(c, "ok"@, JsonV::Bool(false));
    let e = json::with_field(d, "summary"@, JsonV::Str(error));
    JsonV::Obj(json::with_field(e, "source"@, JsonV::Str("task"@)))
}

/// The record of a query that failed.
pub open spec fn error_record(uid: Seq<char>, error: Seq<char>) -> JsonV {
    JsonV::Obj(
        json::with_field(
            json::with_field(Seq::empty(), "user_id"@, JsonV::Str(uid)),
            "error"@,
            JsonV::Str(error),
        ),
    )
}

/// The record of a round.
pub open spec fn batch_record(
    url: Seq<char>,
    success: int,
    failed: int,
    exhausted: Seq<JsonV>,
    errors: Seq<JsonV>,
    finished: Seq<char>,
) -> JsonV {
    let a = json::with_field(Seq::empty(), "ok"@, JsonV::Bool(true));
    let b = json::with_field(a, "mode"@, JsonV::Str("all"@));
    let c = json::with_field(b, "url"@, JsonV::Str(url));
    let d = json::with_field(c, "total"@, json::int_v(success + failed));
    let e = json::with_field(d, "success"@, json::int_v(success));
    let f = json::with_field(e, "failed"@, json::int_v(failed));
    let g = json::with_field(f, "exhausted"@, JsonV::Arr(exhausted));
    let h = json::with_field(g, "errors"@, JsonV::Arr(errors));
    JsonV::Obj(json::with_field(h, "finished_at"@, JsonV::Str(finished)))
}

fn put_quota(acc: &Json, parsed: &Json, summary: &Option<String>, now: &str) -> (r: Json)
    ensures
        r@ == with_quota(acc@, parsed@, text::opt_text(*summary), now@),
{
    match acc.dup() {
        Json::Object(o) => {
            proof {
                json::lemma_view_parts(*acc);
                json::lemma_view_parts(Json::Object(o));
            }
            let mut f = o;
            json::put(&mut f, "quota_level", json::field_or_null(parsed, "level"));
            json::put(&mut f, "quota_expire_at", json::field_or_null(parsed, "expire_at"));
            json::put(&mut f, "quota_summary", json::jopt(summary));
            json::put(&mut f, "quota_checked_at", json::jstr(now));
            json::object(f)
        },
        other => {
            proof {
                json::lemma_view_parts(*acc);
                json::lemma_view_parts(other);
            }
            other
        },
    }
}

/// The model of a round over all accounts, as far as it has come.
#[verifier::ext_equal]
pub struct BatchV {
    pub accounts: Seq<JsonV>,
    pub success: int,
    pub failed: int,
    pub exhausted: Seq<JsonV>,
    pub errors: Seq<JsonV>,
    pub changed: bool,
}

impl View for Batch {
    type V = BatchV;

    open spec fn view(&self) -> BatchV {
        BatchV {
            accounts: json::items(self.accounts@),
            success: self.success as int,
            failed: self.failed as int,
            exhausted: json::items(self.exhausted@),
            errors: json::items(self.errors@),
            changed: self.changed,
        }
    }
}

/// A round that is about to start.
pub open spec fn batch_start(accounts: Seq<JsonV>) -> BatchV {
    BatchV {
        accounts,
        success: 0,
        failed: 0,
        exhausted: Seq::empty(),
        errors: Seq::empty(),
        changed: false,
    }
}

/// A round after what came of asking about an account: an answer is put into the account, and noted
/// where it has used a window up; an error is noted.
pub open spec fn batch_after(b: BatchV, t: TargetV, result: Result<JsonV, Seq<char>>, now: Seq<char>) -> BatchV {
    match result {
        Ok(v) => {
            let parsed = json::or_null(v.get("parsed"@));
            let items = parsed.elements_at("items"@);
            let acc = b.accounts[t.index];
            BatchV {
                accounts: b.accounts.update(t.index, with_quota(acc, parsed, summary_of(parsed), now)),
                success: b.success + 1,
                exhausted: if any_full(items) {
                    b.exhausted.push(exhausted_record(acc, t.user_id, first_reset(items)))
                } else {
                    b.exhausted
                },
                changed: true,
                ..b
            }
        },
        Err(e) => BatchV { failed: b.failed + 1, errors: b.errors.push(error_record(t.user_id, e)), ..b },
    }
}

/// The event of a query.
pub open spec fn event_of(uid: Seq<char>, result: Result<JsonV, Seq<char>>, now: Seq<char>) -> JsonV {
    match result {
        Ok(v) => good_event(uid, json::or_null(v.get("parsed"@)), now),
        Err(e) => bad_event(uid, e, now),
    }
}

/// What came of a query, and when.
pub struct AnswerV {
    pub result: Result<JsonV, Seq<char>>,
    pub now: Seq<char>,
}

/// A round after its targets were asked about one after another.
pub open spec fn batch_of(accounts: Seq<JsonV>, targets: Seq<TargetV>, answers: Seq<AnswerV>) -> BatchV
    decreases targets.len(),
{
    if targets.len() == 0 || targets.len() != answers.len() {
        batch_start(accounts)
    } else {
        batch_after(
            batch_of(accounts, targets.drop_last(), answers.drop_last()),
            targets.last(),
            answers.last().result,
            answers.last().now,
        )
    }
}

/// The events of a round, in the order of its targets.
pub open spec fn events_of(targets: Seq<TargetV>, answers: Seq<AnswerV>) -> Seq<JsonV> {
    Seq::new(targets.len(), |i: int| event_of(targets[i].user_id, answers[i].result, answers[i].now))
}

/// How many queries were answered.
pub open spec fn answered(answers: Seq<AnswerV>) -> int
    decreases answers.len(),
{
    if answers.len() == 0 {
        0
    } else if answers.last().result is Ok {
        answered(answers.drop_last()) + 1
    } else {
        answered(answers.drop_last())
    }
}

/// The records of the queries that failed, in order.
pub open spec fn failures(targets: Seq<TargetV>, answers: Seq<AnswerV>) -> Seq<JsonV>
    decreases targets.len(),
{
    if targets.len() == 0 || targets.len() != answers.len() {
        Seq::empty()
    } else {
        let before = failures(targets.drop_last(), answers.drop_last());
        match answers.last().result {
            Ok(_) => before,
            Err(e) => before.push(error_record(targets.last().user_id, e)),
        }
    }
}

/// The targets of a round stand in the order of the accounts, and no account is asked about twice.
pub proof fn targets_are_asked_about_once(accounts: Seq<JsonV>)
    ensures
        forall|i: int|
            0 <= i < targets_of(accounts).len() ==> 0 <= (#[trigger] targets_of(accounts)[i]).index < accounts.len(),
        ascend(targets_of(accounts)),
        forall|i: int|
            0 <= i < targets_of(accounts).len() ==> target_of(
                accounts[(#[trigger] targets_of(accounts)[i]).index],
                targets_of(accounts)[i].index,
            ) == Some(targets_of(accounts)[i]),
    decreases accounts.len(),
{
    if accounts.len() > 0 {
        let front = accounts.drop_last();
        targets_are_asked_about_once(front);
        let before = targets_of(front);
        let all = targets_of(accounts);
        assert forall|i: int| 0 <= i < all.len() implies 0 <= (#[trigger] all[i]).index < accounts.len() && target_of(
            accounts[all[i].index],
            all[i].index,
        ) == Some(all[i]) by {
            if i < before.len() {
                assert(all[i] == before[i]);
                assert(front[before[i].index] == accounts[before[i].index]);
            }
        }
        assert forall|i: int, j: int| 0 <= i < j < all.len() implies (#[trigger] all[i]).index < (
        #[trigger] all[j]).index by {
            assert(all[i] == before[i]);
            if j < before.len() {
                assert(all[j] == before[j]);
            }
        }
    }
}

/// Whether an account is among the targets.
pub open spec fn is_asked(targets: Seq<TargetV>, index: int) -> bool {
    exists|i: int| 0 <= i < targets.len() && (#[trigger] targets[i]).index == index
}

/// Whether targets stand in the order of the accounts, each of them once.
pub open spec fn ascend(targets: Seq<TargetV>) -> bool {
    forall|i: int, j: int|
        0 <= i < j < targets.len() ==> (#[trigger] targets[i]).index < (#[trigger] targets[j]).index
}

/// An account after what came of asking about it.
pub open spec fn account_after(acc: JsonV, answer: AnswerV) -> JsonV {
    match answer.result {
        Ok(v) => {
            let parsed = json::or_null(v.get("parsed"@));
            with_quota(acc, parsed, summary_of(parsed), answer.now)
        },
        Err(_) => acc,
    }
}

/// A whole round reports every target once and in order, and its counts add up: as many are counted as
/// were asked about, those that answered as good ones and the others as failed, each of which has its
/// record in order. Every account that answered holds its own answer, and all others stay as they were.
pub proof fn a_round_reports_every_target_once(
    accounts: Seq<JsonV>,
    targets: Seq<TargetV>,
    answers: Seq<AnswerV>,
)
    requires
        targets.len() == answers.len(),
        forall|i: int| 0 <= i < targets.len() ==> 0 <= (#[trigger] targets[i]).index < accounts.len(),
        ascend(targets),
    ensures
        ({
            let b = batch_of(accounts, targets, answers);
            &&& events_of(targets, answers).len() == targets.len()
            &&& b.success == answered(answers)
            &&& b.success + b.failed == targets.len()
            &&& b.errors == failures(targets, answers)
            &&& b.errors.len() == b.failed
            &&& b.exhausted.len() <= b.success
            &&& b.changed == (b.success > 0)
            &&& b.accounts.len() == accounts.len()
            &&& forall|k: int|
                0 <= k < accounts.len() && !is_asked(targets, k) ==> #[trigger] b.accounts[k] == accounts[k]
            &&& forall|i: int|
                0 <= i < targets.len() ==> b.accounts[(#[trigger] targets[i]).index] == account_after(
                    accounts[targets[i].index],
                    answers[i],
                )
        }),
    decreases targets.len(),
{
    if targets.len() > 0 {
        let t = targets.drop_last();
        let a = answers.drop_last();
        assert forall|i: int| 0 <= i < t.len() implies 0 <= (#[trigger] t[i]).index < accounts.len() by {
            assert(t[i] == targets[i]);
        }
        assert forall|i: int, j: int| 0 <= i < j < t.len() implies (#[trigger] t[i]).index < (#[trigger] t[j]).index by {
            assert(t[i] == targets[i] && t[j] == targets[j]);
        }
        a_round_reports_every_target_once(accounts, t, a);
        let n = targets.len() - 1;
        let last = targets[n];
        assert(targets.last() == last);
        let before = batch_of(accounts, t, a);
        let b = batch_of(accounts, targets, answers);
        assert(!is_asked(t, last.index)) by {
            if is_asked(t, last.index) {
                let i = choose|i: int| 0 <= i < t.len() && (#[trigger] t[i]).index == last.index;
                assert(targets[i] == t[i]);
            }
        }
        assert(before.accounts[last.index] == accounts[last.index]);
        assert forall|k: int| 0 <= k < accounts.len() && !is_asked(targets, k) implies #[trigger] b.accounts[k]
            == accounts[k] by {
            assert(last.index != k);
            assert(!is_asked(t, k)) by {
                if is_asked(t, k) {
                    let i = choose|i: int| 0 <= i < t.len() && (#[trigger] t[i]).index == k;
                    assert(targets[i].index == k);
                }
            }
            assert(before.accounts[k] == accounts[k]);
        }
        assert forall|i: int| 0 <= i < targets.len() implies b.accounts[(#[trigger] targets[i]).index]
            == account_after(accounts[targets[i].index], answers[i]) by {
            if i < n {
                assert(t[i] == targets[i] && a[i] == answers[i]);
                assert(targets[i].index < targets[n].index);
                assert(before.accounts[t[i].index] == account_after(accounts[t[i].index], a[i]));
            } else {
                assert(answers[i] == answers.last());
            }
        }
    }
}

impl Batch {
    /// A round that is about to start.
    pub fn new(accounts: Vec<Json>) -> (r: Batch)
        ensures
            r.accounts@ == accounts@,
            r@ == batch_start(json::items(accounts@)),
            r.wf(),
    {
        let exhausted: Vec<Json> = Vec::new();
        let errors: Vec<Json> = Vec::new();
        assert(json::items(exhausted@) =~= Seq::empty());
        assert(json::items(errors@) =~= Seq::empty());
        Batch { accounts, success: 0, failed: 0, exhausted, errors, changed: false }
    }

    /// How many accounts have been asked about.
    pub open spec fn total(self) -> int {
        self.success + self.failed
    }

    /// Whether each query that failed has its record, no more accounts have used a window up than
    /// have answered, and the accounts have changed where one has answered.
    pub open spec fn wf(self) -> bool {
        &&& self.errors@.len() == self.failed
        &&& self.exhausted@.len() <= self.success
        &&& self.changed == (self.success > 0)
    }

    /// Takes in what came of asking about an account: the event for the history.
    pub fn take_result(&mut self, target: &Target, result: &Result<Json, String>, now: &str) -> (event: Json)
        requires
            old(self).wf(),
            target.index < old(self).accounts@.len(),
            old(self).total() < usize::MAX,
            result matches Ok(v) ==> v@.wf(),
        ensures
            final(self).wf(),
            final(self).accounts@.len() == old(self).accounts@.len(),
            final(self).total() == old(self).total() + 1,
            final(self)@ == batch_after(old(self)@, target@, json::read_result(*result), now@),
            event@ == event_of(target.user_id@, json::read_result(*result), now@),
    {
        let uid = target.user_id.as_str();
        let mut o = json::new_fields();
        json::put(&mut o, "ts", json::jstr(now));
        json::put(&mut o, "kind", json::jstr("quota"));
        json::put(&mut o, "uid", json::jstr(uid));
        match result {
            Ok(v) => {
                let parsed = json::field_or_null(v, "parsed");
                let summary = summarize_parsed(&parsed);
                let w = read_result_windows(&parsed);
                let name = match self.accounts[target.index].str_at("name") {
                    Some(n) => if n.unicode_len() > 0 {
                        n.to_owned()
                    } else {
                        target.user_id.clone()
                    },
                    None => target.user_id.clone(),
                };
                let acc = put_quota(&self.accounts[target.index], &parsed, &summary, now);
                let ghost before = json::items(self.accounts@);
                self.accounts.set(target.index, acc);
                assert(json::items(self.accounts@) =~= before.update(target.index as int, acc@));
                self.changed = true;
                self.success = self.success + 1;
                if w.full {
                    let mut x = json::new_fields();
                    json::put(&mut x, "user_id", json::jstr(uid));
                    json::put(&mut x, "name", json::jstr(name.as_str()));
                    json::put(&mut x, "reset_at", json::jopt(&w.reset));
                    json::push_item(&mut self.exhausted, json::object(x));
                }
                json::put(&mut o, "ok", Json::Bool(true));
                json::put(&mut o, "level", json::field_or_null(&parsed, "level"));
                json::put(&mut o, "summary", json::jopt(&summary));
                let arr = Json::Array(w.records);
                proof {
                    json::lemma_view_parts(arr);
                }
                json::put(&mut o, "windows", arr);
                json::put(&mut o, "source", json::jstr("task"));
                json::object(o)
            },
            Err(e) => {
                self.failed = self.failed + 1;
                let mut x = json::new_fields();
                json::put(&mut x, "user_id", json::jstr(uid));
                json::put(&mut x, "error", json::jstr(e.as_str()));
                json::push_item(&mut self.errors, json::object(x));
                json::put(&mut o, "ok", Json::Bool(false));
                json::put(&mut o, "summary", json::jstr(e.as_str()));
                json::put(&mut o, "source", json::jstr("task"));
                json::object(o)
            },
        }
    }

    /// The record of the round.
    pub fn record(&self, url: &str, finished: &str) -> (r: Json)
        requires
            self.total() <= i64::MAX,
        ensures
            r@ == batch_record(
                url@,
                self.success as int,
                self.failed as int,
                json::items(self.exhausted@),
                json::items(self.errors@),
                finished@,
            ),
    {
        let mut o = json::new_fields();
        json::put(&mut o, "ok", Json::Bool(true));
        json::put(&mut o, "mode", json::jstr("all"));
        json::put(&mut o, "url", json::jstr(url));
        json::put(&mut o, "total", json::jint(self.success as i64 + self.failed as i64));
        json::put(&mut o, "success", json::jint(self.success as i64));
        json::put(&mut o, "failed", json::jint(self.failed as i64));
        let exhausted = Json::Array(json::dup_list(&self.exhausted));
        let errors = Json::Array(json::dup_list(&self.errors));
        proof {
            json::lemma_view_parts(exhausted);
            json::lemma_view_parts(errors);
        }
        json::put(&mut o, "exhausted", exhausted);
        json::put(&mut o, "errors", errors);
        json::put(&mut o, "finished_at", json::jstr(finished));
        json::object(o)
    }
}

/// Taking in a result writes the four fields of the quota alone: every other field of the account,
/// its credentials too, is as it was.
pub proof fn quota_leaves_other_fields(
    acc: JsonV,
    parsed: JsonV,
    summary: Option<Seq<char>>,
    now: Seq<char>,
    key: Seq<char>,
)
    requires
        key != "quota_level"@,
        key != "quota_expire_at"@,
        key != "quota_summary"@,
        key != "quota_checked_at"@,
    ensures
        with_quota(acc, parsed, summary, now).get(key) == acc.get(key),
{
    if let JsonV::Obj(o) = acc {
        let l = json::or_null(parsed.get("level"@));
        let e = json::or_null(parsed.get("expire_at"@));
        let a = json::with_field(o, "quota_level"@, l);
        let b = json::with_field(a, "quota_expire_at"@, e);
        let c = json::with_field(b, "quota_summary"@, json::str_or_null(summary));
        json::set_then_get(o, "quota_level"@, l, key);
        json::set_then_get(a, "quota_expire_at"@, e, key);
        json::set_then_get(b, "quota_summary"@, json::str_or_null(summary), key);
        json::set_then_get(c, "quota_checked_at"@, JsonV::Str(now), key);
    }
}

// ---- what holds of quotas ----

/// The first of two that is there.
pub open spec fn or_else(a: Option<JsonV>, b: Option<JsonV>) -> Option<JsonV> {
    match a {
        Some(_) => a,
        None => b,
    }
}

/// Names, totals, what is used, what is left, levels and ends are found under their own names, the
/// likeliest first.
#[verifier::rlimit(40)]
pub proof fn likelier_names_come_first(v: JsonV)
    ensures
        first_field(v, name_keys()) == or_else(v.get("name"@), or_else(v.get("title"@), or_else(v.get("item_name"@), or_else(v.get("metric_name"@), v.get("label"@))))),
        first_field(v, total_keys()) == or_else(v.get("total"@), or_else(v.get("limit"@), or_else(v.get("quota"@), or_else(v.get("max"@), or_else(v.get("total_count"@), v.get("total_num"@)))))),
        first_field(v, used_keys()) == or_else(v.get("used"@), or_else(v.get("use"@), or_else(v.get("consume"@), v.get("used_count"@)))),
        first_field(v, left_keys()) == or_else(v.get("remaining"@), or_else(v.get("left"@), or_else(v.get("remain"@), or_else(v.get("available"@), or_else(v.get("left_count"@), v.get("rest"@)))))),
        first_field(v, level_keys()) == or_else(v.get("level"@), or_else(v.get("vip_level"@), or_else(v.get("member_level"@), or_else(v.get("grade"@), or_else(v.get("vip_type"@), or_else(v.get("member_type"@), v.get("plan"@))))))),
        first_field(v, expire_keys()) == or_else(v.get("expire_time"@), or_else(v.get("expire_at"@), or_else(v.get("expired_time"@), or_else(v.get("due_time"@), or_else(v.get("due_date"@), or_else(v.get("valid_end_time"@), or_else(v.get("end_time"@), or_else(v.get("end_date"@), v.get("subscription_expire_time"@))))))))),
{
    reveal_with_fuel(first_field, 11);
    assert(name_keys().skip(1)[0] == "title"@);
    assert(name_keys().skip(1).skip(1)[0] == "item_name"@);
    assert(name_keys().skip(1).skip(1).skip(1)[0] == "metric_name"@);
    assert(name_keys().skip(1).skip(1).skip(1).skip(1)[0] == "label"@);
    assert(name_keys().skip(1).skip(1).skip(1).skip(1).skip(1).len() == 0);
    assert(total_keys().skip(1)[0] == "limit"@);
    assert(total_keys().skip(1).skip(1)[0] == "quota"@);
    assert(total_keys().skip(1).skip(1).skip(1)[0] == "max"@);
    assert(total_keys().skip(1).skip(1).skip(1).skip(1)[0] == "total_count"@);
    assert(total_keys().skip(1).skip(1).skip(1).skip(1).skip(1)[0] == "total_num"@);
    assert(total_keys().skip(1).skip(1).skip(1).skip(1).skip(1).skip(1).len() == 0);
    assert(used_keys().skip(1)[0] == "use"@);
    assert(used_keys().skip(1).skip(1)[0] == "consume"@);
    assert(used_keys().skip(1).skip(1).skip(1)[0] == "used_count"@);
    assert(used_keys().skip(1).skip(1).skip(1).skip(1).len() == 0);
    assert(left_keys().skip(1)[0] == "left"@);
    assert(left_keys().skip(1).skip(1)[0] == "remain"@);
    assert(left_keys().skip(1).skip(1).skip(1)[0] == "available"@);
    assert(left_keys().skip(1).skip(1).skip(1).skip(1)[0] == "left_count"@);
    assert(left_keys().skip(1).skip(1).skip(1).skip(1).skip(1)[0] == "rest"@);
    assert(left_keys().skip(1).skip(1).skip(1).skip(1).skip(1).skip(1).len() == 0);
    assert(level_keys().skip(1)[0] == "vip_level"@);
    assert(level_keys().skip(1).skip(1)[0] == "member_level"@);
    assert(level_keys().skip(1).skip(1).skip(1)[0] == "grade"@);
    assert(level_keys().skip(1).skip(1).skip(1).skip(1)[0] == "vip_type"@);
    assert(level_keys().skip(1).skip(1).skip(1).skip(1).skip(1)[0] == "member_type"@);
    assert(level_keys().skip(1).skip(1).skip(1).skip(1).skip(1).skip(1)[0] == "plan"@);
    assert(level_keys().skip(1).skip(1).skip(1).skip(1).skip(1).skip(1).skip(1).len() == 0);
    assert(expire_keys().skip(1)[0] == "expire_at"@);
    assert(expire_keys().skip(1).skip(1)[0] == "expired_time"@);
    assert(expire_keys().skip(1).skip(1).skip(1)[0] == "due_time"@);
    assert(expire_keys().skip(1).skip(1).skip(1).skip(1)[0] == "due_date"@);
    assert(expire_keys().skip(1).skip(1).skip(1).skip(1).skip(1)[0] == "valid_end_time"@);
    assert(expire_keys().skip(1).skip(1).skip(1).skip(1).skip(1).skip(1)[0] == "end_time"@);
    assert(expire_keys().skip(1).skip(1).skip(1).skip(1).skip(1).skip(1).skip(1)[0] == "end_date"@);
    assert(expire_keys().skip(1).skip(1).skip(1).skip(1).skip(1).skip(1).skip(1).skip(1)[0] == "subscription_expire_time"@);
    assert(expire_keys().skip(1).skip(1).skip(1).skip(1).skip(1).skip(1).skip(1).skip(1).skip(1).len() == 0);
}

/// A field of the value itself is found before any deeper one; else the values in it are searched one
/// after another, and null is passed over. Beyond ten levels nothing is found.
pub proof fn fields_are_found_from_the_outside_in(
    v: JsonV,
    keys: Seq<Seq<char>>,
    depth: int,
    a: Seq<JsonV>,
    b: Seq<JsonV>,
    x: JsonV,
)
    requires
        0 <= depth <= 10,
    ensures
        first_field(v, keys) is Some ==> found(v, keys, depth) == first_field(v, keys),
        first_field(v, keys) is None ==> found(v, keys, depth) == found_in(children(v), keys, depth),
        found_in(a + b, keys, depth) == or_else(found_in(a, keys, depth), found_in(b, keys, depth)),
        found_in(seq![x], keys, depth) == (match found(x, keys, depth + 1) {
            Some(JsonV::Null) => None,
            r => r,
        }),
        found(v, keys, 11) is None,
    decreases a.len(),
{
    reveal_with_fuel(found_in, 2);
    assert(seq![x].skip(1) =~= Seq::empty());
    if a.len() == 0 {
        assert(a + b =~= b);
    } else {
        fields_are_found_from_the_outside_in(v, keys, depth, a.skip(1), b, x);
        assert((a + b).skip(1) =~= a.skip(1) + b);
        assert((a + b)[0] == a[0]);
    }
}

/// What may hold a field is searched: the values of an object's fields and the elements of a list, all of
/// them and in order.
pub proof fn all_inner_values_are_searched(o: Seq<(Seq<char>, JsonV)>, a: Seq<JsonV>, i: int)
    ensures
        children(JsonV::Arr(a)) == a,
        children(JsonV::Obj(o)).len() == o.len(),
        0 <= i < o.len() ==> children(JsonV::Obj(o))[i] == o[i].1,
{
}

/// Objects with a name and a total are quotas, wherever they stand; what is not one is searched for them,
/// in order.
pub proof fn quotas_are_found_in_order(v: JsonV, depth: int, a: Seq<JsonV>, b: Seq<JsonV>, x: JsonV)
    requires
        0 <= depth <= 10,
    ensures
        first_field(v, name_keys()) is Some && first_field(v, total_keys()) is Some ==> quota_objects(v, depth)
            == seq![v],
        first_field(v, name_keys()) is None || first_field(v, total_keys()) is None ==> quota_objects(v, depth)
            == quota_objects_in(children(v), depth),
        quota_objects_in(a + b, depth) == quota_objects_in(a, depth) + quota_objects_in(b, depth),
        quota_objects_in(seq![x], depth) == quota_objects(x, depth + 1),
    decreases b.len(),
{
    reveal_with_fuel(quota_objects_in, 2);
    assert(seq![x].drop_last() =~= Seq::empty());
    assert(quota_objects_in(seq![x], depth) =~= quota_objects(x, depth + 1));
    if b.len() == 0 {
        assert(a + b =~= a);
        assert(quota_objects_in(a, depth) + quota_objects_in(b, depth) =~= quota_objects_in(a, depth));
    } else {
        quotas_are_found_in_order(v, depth, a, b.drop_last(), x);
        assert((a + b).drop_last() =~= a + b.drop_last());
        assert(quota_objects_in(a + b, depth) =~= quota_objects_in(a, depth) + quota_objects_in(b, depth));
    }
}

/// A timestamp is taken in seconds, and in seconds too where it is given in milliseconds; what can be
/// neither is none.
pub proof fn timestamps_are_taken_in_seconds(n: u64)
    ensures
        100_000_000 < n < 40_000_000_000 ==> stamp(Some(JsonV::Num(NumV::Pos(n)))) == Some(n as int),
        1_000_000_000_000 < n < 40_000_000_000_000 ==> stamp(Some(JsonV::Num(NumV::Pos(n)))) == Some(
            n as int / 1000,
        ),
        n <= 100_000_000 || 40_000_000_000 <= n <= 1_000_000_000_000 || n >= 40_000_000_000_000 ==> stamp(
            Some(JsonV::Num(NumV::Pos(n))),
        ) is None,
        stamp(None) is None,
        stamp(Some(JsonV::Null)) is None,
        100_000_000 < n < 40_000_000_000 ==> when_of(Some(JsonV::Num(NumV::Pos(n)))) == Some(WhenV::At(n as int)),
        when_of(None) is None,
        when_of(Some(JsonV::Null)) is None,
{
}

/// A subscription lasts as many days as lie between its start and its end, to the nearest, and at least
/// one.
pub proof fn subscriptions_last_from_start_to_end(start: int, end: int, days: int)
    ensures
        days >= 1 && 2 * (end - start - days * 86400) >= -86400 && 2 * (end - start - days * 86400) < 86400
            ==> days_between(Some(start), Some(end)) == Some(days),
        end - start < 43200 ==> days_between(Some(start), Some(end)) == Some(1int),
        days_between(None, Some(end)) is None,
        days_between(Some(start), None) is None,
{
    let n = end - start + 43200;
    if days >= 1 && 2 * (end - start - days * 86400) >= -86400 && 2 * (end - start - days * 86400) < 86400 {
        assert(n / 86400 == days) by (nonlinear_arith)
            requires
                days * 86400 <= n < days * 86400 + 86400,
        ;
    }
}

/// A subscription is read from its own fields: when it starts and ends, whether it is a gift, whether it
/// runs, and its name, short before long, and that of the membership where it has none.
pub proof fn subscriptions_are_read_from_their_fields(data: JsonV, sub: JsonV)
    ensures
        ({
            let s = subscription_of(data, sub);
            &&& s.start == stamp(sub.get("start_time"@))
            &&& s.expire == when_of(sub.get("end_time"@))
            &&& sub.get("is_gift"@) matches Some(JsonV::Bool(b)) ==> s.is_gift == Some(b)
            &&& sub.get("is_gift"@) is None ==> s.is_gift is None
            &&& sub.get("status"@) is None ==> !s.active
            &&& sub.get("status"@) == Some(JsonV::Null) ==> !s.active
            &&& sub.get("status"@) matches Some(JsonV::Num(NumV::Pos(n))) ==> s.active == (n != 0)
            &&& s.period_days == days_between(stamp(sub.get("start_time"@)), stamp(sub.get("end_time"@)))
            &&& sub.get("display"@) matches Some(JsonV::Obj(d)) ==> (JsonV::Obj(d).get("short_name"@) matches Some(
                JsonV::Str(n),
            ) ==> s.name == Some(JsonV::Str(n)))
            &&& sub.get("display"@) matches Some(JsonV::Obj(d)) ==> JsonV::Obj(d).get("short_name"@) is None ==> (
            JsonV::Obj(d).get("product_name"@) matches Some(JsonV::Str(n)) ==> s.name == Some(JsonV::Str(n)))
            &&& sub.get("display"@) is None ==> (data.get("membership_display_name"@) matches Some(JsonV::Str(n))
                ==> s.name == Some(JsonV::Str(n)))
            &&& sub.get("display"@) is None && data.get("membership_display_name"@) is None ==> s.name is None
        }),
{
}

/// The level of a membership is the name of its subscription, and its end, whether it is a gift and
/// whether it runs are those of the subscription; without one the membership speaks for itself.
pub proof fn memberships_are_read_from_their_data(resp: JsonV)
    requires
        resp.get("data"@) matches Some(JsonV::Obj(_)),
        quota_of(resp).items.len() > 0 || exact_quota(resp.get("data"@)->Some_0).level is Some,
    ensures
        ({
            let d = resp.get("data"@)->Some_0;
            let q = quota_of(resp);
            &&& d.get("current_subscription"@) matches Some(JsonV::Obj(s)) ==> exact_quota(d).level is Some ==> {
                let sub = subscription_of(d, JsonV::Obj(s));
                &&& q.subscription == Some(sub)
                &&& q.expire == sub.expire
                &&& q.is_gift == sub.is_gift
                &&& q.has_subscription == Some(sub.active)
                &&& sub.name is Some ==> q.level == sub.name
            }
            &&& d.get("current_subscription"@) is None ==> exact_quota(d).level is Some ==> {
                &&& q.subscription is None
                &&& q.expire is None
                &&& d.get("has_active_subscription"@) matches Some(JsonV::Bool(b)) ==> q.has_subscription == Some(b)
                &&& d.get("membership_display_name"@) matches Some(JsonV::Str(n)) ==> q.level == Some(JsonV::Str(n))
            }
        }),
{
}

/// Where a response has no data of the known form, all of it is searched: for a level, for an end, and for
/// the first sixteen plain amounts.
pub proof fn other_responses_are_searched(resp: JsonV)
    requires
        resp.get("data"@) is None,
    ensures
        quota_of(resp).level == scalar(found(resp, level_keys(), 0)),
        quota_of(resp).expire == when_of(found(resp, expire_keys(), 0)),
        quota_of(resp).subscription is None,
        quota_objects(resp, 0).len() <= 16 ==> quota_of(resp).items == amounts(quota_objects(resp, 0)),
        quota_of(resp).items.len() <= 16,
{
    lemma_amounts_len(first16(quota_objects(resp, 0)));
}

proof fn lemma_amounts_len(objs: Seq<JsonV>)
    ensures
        amounts(objs).len() <= objs.len(),
    decreases objs.len(),
{
    if objs.len() > 0 {
        lemma_amounts_len(objs.drop_last());
    }
}

/// Plain amounts are read one by one, in order, each with its own name, total, rest and use.
pub proof fn amounts_are_read_one_by_one(a: Seq<JsonV>, b: Seq<JsonV>, x: JsonV)
    ensures
        amounts(a + b) == amounts(a) + amounts(b),
        amount_of(x) matches Some(i) ==> amounts(seq![x]) == seq![i],
        amount_of(x) is None ==> amounts(seq![x]).len() == 0,
        x.get("name"@) matches Some(JsonV::Num(n)) ==> (x.get("total"@) matches Some(JsonV::Num(t)) ==> (amount_of(
            x,
        ) matches Some(ItemV::Amount(name, total, left, used)) && name == JsonV::Num(n) && total == JsonV::Num(t) && (
        x.get("remaining"@) matches Some(JsonV::Num(l)) ==> left == Some(JsonV::Num(l))) && (x.get("used"@) matches Some(
            JsonV::Num(u),
        ) ==> used == Some(JsonV::Num(u))))),
    decreases b.len(),
{
    reveal_with_fuel(amounts, 2);
    likelier_names_come_first(x);
    assert(seq![x].drop_last() =~= Seq::empty());
    if let Some(i) = amount_of(x) {
        assert(amounts(seq![x]) =~= seq![i]);
    }
    if b.len() == 0 {
        assert(a + b =~= a);
        assert(amounts(a) + amounts(b) =~= amounts(a));
    } else {
        amounts_are_read_one_by_one(a, b.drop_last(), x);
        assert((a + b).drop_last() =~= a + b.drop_last());
        assert(amounts(a + b) =~= amounts(a) + amounts(b));
    }
}

/// Quotas are summed up one by one, in order: of a window how much is used, or that it is used up, and
/// when it starts again; of an amount what is left.
pub proof fn quotas_are_summed_up_one_by_one(a: Seq<JsonV>, b: Seq<JsonV>, x: JsonV, name: Seq<char>)
    ensures
        item_summaries(a + b) == item_summaries(a) + item_summaries(b),
        item_summary(x) matches Some(t) ==> item_summaries(seq![x]) == seq![t],
        item_summary(x) is None ==> item_summaries(seq![x]).len() == 0,
        name.len() > 0 && x.get("name"@) == Some(JsonV::Str(name)) && x.get("reset_at"@) is None ==> {
            &&& x.get("used_percent"@) matches Some(JsonV::Num(NumV::Pos(n))) ==> n >= 100 ==> item_summary(x) == Some(
                name + " "@ + ("已用完"@ + Seq::<char>::empty()),
            )
            &&& x.get("used_percent"@) matches Some(JsonV::Num(NumV::Flt(n))) ==> floats::is_below(NumV::Flt(n), 100)
                && x.get("exhausted"@) != Some(JsonV::Bool(true)) ==> item_summary(x) == Some(
                name + " "@ + ("已用 "@ + floats::rounded_words(n) + "%"@ + Seq::<char>::empty()),
            )
            &&& x.get("used_percent"@) is None ==> (x.get("total"@) matches Some(JsonV::Num(t)) ==> (x.get(
                "left"@,
            ) matches Some(JsonV::Num(l)) ==> item_summary(x) == Some(
                name + " "@ + json::json_text(JsonV::Num(l)) + "/"@ + json::json_text(JsonV::Num(t)),
            )))
        },
    decreases b.len(),
{
    reveal_with_fuel(item_summaries, 2);
    assert(seq![x].drop_last() =~= Seq::empty());
    if let Some(t) = item_summary(x) {
        assert(item_summaries(seq![x]) =~= seq![t]);
    }
    if b.len() == 0 {
        assert(a + b =~= a);
        assert(item_summaries(a) + item_summaries(b) =~= item_summaries(a));
    } else {
        quotas_are_summed_up_one_by_one(a, b.drop_last(), x, name);
        assert((a + b).drop_last() =~= a + b.drop_last());
        assert(item_summaries(a + b) =~= item_summaries(a) + item_summaries(b));
    }
}

/// The first four quotas are summed up, and all where there are fewer.
pub proof fn the_first_four_are_summed_up(parsed: JsonV)
    ensures
        parsed.elements_at("items"@).len() <= 4 ==> summary_parts(parsed) == item_summaries(
            parsed.elements_at("items"@),
        ),
        parsed.elements_at("items"@).len() > 4 ==> summary_parts(parsed) == item_summaries(
            parsed.elements_at("items"@).subrange(0, 4),
        ),
{
    let items = parsed.elements_at("items"@);
    if items.len() > 4 {
        assert(items.subrange(0, 4) =~= items.take(4));
    }
}

/// A window starts again at the time that stands behind the year.
pub proof fn resets_are_noted_without_the_year(t: Seq<char>, year: Seq<char>)
    requires
        year.len() == 5,
        t.len() > 0,
    ensures
        reset_note(Some(year + t)) == "（"@ + t + " 重置）"@,
        reset_note(None).len() == 0,
{
    assert((year + t).skip(5) =~= t);
}

/// A query goes with the account's own session, and with its guard where it has one.
pub proof fn queries_go_with_the_session(sid: Seq<char>, guard: Seq<char>)
    ensures
        cookie_of(sid, None) == "sessionid="@ + sid,
        cookie_of(sid, Some(Seq::empty())) == "sessionid="@ + sid,
        guard.len() > 0 ==> cookie_of(sid, Some(guard)) == "sessionid="@ + sid + ("; sid_guard="@ + guard),
{
    assert("sessionid="@ + sid + Seq::<char>::empty() =~= "sessionid="@ + sid);
}

/// An answer is good where it is an object whose code is zero or missing; any other code is an error that
/// shows it, and that of a dead login says so.
pub proof fn answers_are_good_by_their_code(o: Seq<(Seq<char>, JsonV)>, v: JsonV)
    ensures
        JsonV::Obj(o).get("code"@) is None ==> body_error(JsonV::Obj(o)) is None,
        JsonV::Obj(o).get("code"@) matches Some(JsonV::Num(NumV::Pos(n))) ==> body_error(JsonV::Obj(o)) is None == (n
            == 0),
        JsonV::Obj(o).get("code"@) matches Some(JsonV::Num(NumV::Pos(n))) ==> n > 0 && n != 710012001 ==> body_error(
            JsonV::Obj(o),
        ) == Some("接口返回异常 code="@ + digits::decimal(n as int)),
        JsonV::Obj(o).get("code"@) == Some(JsonV::Num(NumV::Pos(710012001))) ==> body_error(JsonV::Obj(o)) == Some(
            "接口返回异常 code="@ + digits::decimal(710012001) + "：登录态已失效，请开启代理重新抓取凭证或重新保存该账号登录态"@,
        ),
        v !is Obj ==> body_error(v) is Some,
{
}

/// An answer to a query is its body where that is good; every other reply is an error that says what
/// happened.
pub proof fn replies_are_bodies_or_errors(raw: String, code: u16, error: String)
    ensures
        json::json_read(raw@) matches Ok(v) ==> body_error(v) is None ==> reply_body(Reply::Body(raw)) == Ok::<
            JsonV,
            Seq<char>,
        >(v),
        json::json_read(raw@) matches Ok(v) ==> (body_error(v) matches Some(e) ==> reply_body(Reply::Body(raw)) == Err::<
            JsonV,
            Seq<char>,
        >(e)),
        json::json_read(raw@) is Err ==> reply_body(Reply::Body(raw)) is Err,
        reply_body(Reply::Status(code)) == Err::<JsonV, Seq<char>>("HTTP "@ + digits::decimal(code as int)),
        reply_body(Reply::Failed(error)) == Err::<JsonV, Seq<char>>("请求失败: "@ + error@),
{
}

/// The account of a user in the pool is the first that names the user, and there is one wherever one does.
pub proof fn pool_accounts_are_found(accounts: Seq<JsonV>, uid: Seq<char>, i: int)
    requires
        0 <= i < accounts.len(),
        accounts[i].text_at("user_id"@) == Some(uid),
        forall|k: int| 0 <= k < i ==> (#[trigger] accounts[k]).text_at("user_id"@) != Some(uid),
    ensures
        pool_account(accounts, uid) == Some(accounts[i]),
    decreases i,
{
    if i > 0 {
        assert(accounts[0].text_at("user_id"@) != Some(uid));
        let rest = accounts.skip(1);
        assert forall|k: int| 0 <= k < i - 1 implies (#[trigger] rest[k]).text_at("user_id"@) != Some(uid) by {
            assert(rest[k] == accounts[k + 1]);
        }
        pool_accounts_are_found(rest, uid, i - 1);
    }
}

/// An account can be asked about where it has a user and a session, and is asked about with its own.
pub proof fn targets_are_accounts_with_a_session(acc: JsonV, index: int)
    ensures
        target_of(acc, index) is Some == ((acc.text_at("user_id"@) matches Some(u) && u.len() > 0) && (acc.text_at(
            "session_id"@,
        ) matches Some(s) && s.len() > 0)),
        target_of(acc, index) matches Some(t) ==> t.index == index && Some(t.user_id) == acc.text_at("user_id"@)
            && Some(t.session_id) == acc.text_at("session_id"@) && t.sid_guard == acc.text_at("sid_guard"@),
{
}

/// Some window is used up exactly where one of them is used to a hundred percent or more.
pub proof fn full_windows_are_seen(items: Seq<JsonV>)
    ensures
        any_full(items) == exists|i: int| 0 <= i < items.len() && is_full((#[trigger] items[i]).get("used_percent"@)),
    decreases items.len(),
{
    if items.len() > 0 {
        let front = items.drop_last();
        full_windows_are_seen(front);
        if any_full(front) {
            let i = choose|i: int| 0 <= i < front.len() && is_full((#[trigger] front[i]).get("used_percent"@));
            assert(items[i] == front[i]);
        }
        if is_full(items.last().get("used_percent"@)) {
            assert(items[items.len() - 1] == items.last());
        }
        if exists|i: int| 0 <= i < items.len() && is_full((#[trigger] items[i]).get("used_percent"@)) {
            let i = choose|i: int| 0 <= i < items.len() && is_full((#[trigger] items[i]).get("used_percent"@));
            if i < front.len() {
                assert(front[i] == items[i]);
            }
        }
    }
}

/// A percentage is full from a hundred on.
pub proof fn a_hundred_percent_are_full(n: u64, i: i64)
    ensures
        is_full(Some(JsonV::Num(NumV::Pos(n)))) == (n >= 100),
        i < 0 ==> !is_full(Some(JsonV::Num(NumV::Neg(i)))),
        !is_full(None),
        !is_full(Some(JsonV::Null)),
{
}

/// The windows that are noted are those that say what is used, one by one and in order.
pub proof fn windows_are_noted_one_by_one(a: Seq<JsonV>, b: Seq<JsonV>, x: JsonV)
    ensures
        window_records(a + b) == window_records(a) + window_records(b),
        double_at(x, "used_percent"@) is None ==> window_records(seq![x]).len() == 0,
        double_at(x, "used_percent"@) is Some ==> window_records(seq![x]).len() == 1 && {
            let r = window_records(seq![x])[0];
            &&& r.get("name"@) == Some(json::or_null(x.get("name"@)))
            &&& r.get("used_percent"@) == Some(json::or_null(x.get("used_percent"@)))
            &&& r.get("reset_at"@) == Some(json::or_null(x.get("reset_at"@)))
        },
        first_reset(a) is Some ==> first_reset(a + b) == first_reset(a),
        first_reset(a) is None ==> first_reset(a + b) == first_reset(b),
        first_reset(seq![x]) == (if double_at(x, "used_percent"@) is Some {
            x.text_at("reset_at"@)
        } else {
            None
        }),
    decreases b.len(),
{
    broadcast use json::lemma_set_then_get;

    reveal_with_fuel(window_records, 2);
    reveal_with_fuel(first_reset, 2);
    reveal_strlit("name");
    reveal_strlit("used_percent");
    reveal_strlit("reset_at");
    assert("name"@.len() == 4 && "used_percent"@.len() == 12 && "reset_at"@.len() == 8);
    assert(seq![x].drop_last() =~= Seq::empty());
    if b.len() == 0 {
        assert(a + b =~= a);
        assert(window_records(a) + window_records(b) =~= window_records(a));
    } else {
        windows_are_noted_one_by_one(a, b.drop_last(), x);
        assert((a + b).drop_last() =~= a + b.drop_last());
        assert(window_records(a + b) =~= window_records(a) + window_records(b));
    }
}

/// What is shown of a response holds what was read of it, and every quota in order.
pub proof fn memberships_are_shown(q: QuotaV, times: Seq<(i64, String)>)
    ensures
        quota_json(q, times).get("level"@) == Some(json::or_null(q.level)),
        quota_json(q, times).get("expire_at"@) == Some(json::str_or_null(in_words(q.expire, times))),
        quota_json(q, times).get("is_gift"@) == Some(json::truth_or_null(q.is_gift)),
        quota_json(q, times).get("has_subscription"@) == Some(json::truth_or_null(q.has_subscription)),
        quota_json(q, times).get("subscription"@) == Some(match q.subscription { Some(s) => subscription_json(s, times), None => JsonV::Null }),
        quota_json(q, times).get("items"@) == Some(JsonV::Arr(q.items.map_values(|x: ItemV| item_json(x, times)))),
        forall|k: Seq<char>| k != "level"@ && k != "expire_at"@ && k != "is_gift"@ && k != "has_subscription"@ && k != "subscription"@ && k != "items"@ ==> (#[trigger] quota_json(q, times).get(k)) is None,
{
    broadcast use json::lemma_set_then_get;

    reveal_strlit("level");
    reveal_strlit("expire_at");
    reveal_strlit("is_gift");
    reveal_strlit("has_subscription");
    reveal_strlit("subscription");
    reveal_strlit("items");
    assert("level"@.len() == 5 && "expire_at"@.len() == 9 && "is_gift"@.len() == 7);
    assert("has_subscription"@.len() == 16 && "subscription"@.len() == 12 && "items"@.len() == 5);
    assert("level"@[0] != "items"@[0]);
}

/// What is shown of a subscription holds what was read of it.
pub proof fn subscriptions_are_shown(s: SubscriptionV, times: Seq<(i64, String)>)
    ensures
        subscription_json(s, times).get("name"@) == Some(json::or_null(s.name)),
        subscription_json(s, times).get("period_days"@) == Some(json::int_or_null(s.period_days)),
        subscription_json(s, times).get("start_at"@) == Some(json::str_or_null(stamp_day(s.start, times))),
        subscription_json(s, times).get("expire_at"@) == Some(json::str_or_null(in_words(s.expire, times))),
        subscription_json(s, times).get("is_gift"@) == Some(json::truth_or_null(s.is_gift)),
        subscription_json(s, times).get("active"@) == Some(JsonV::Bool(s.active)),
        forall|k: Seq<char>| k != "name"@ && k != "period_days"@ && k != "start_at"@ && k != "expire_at"@ && k != "is_gift"@ && k != "active"@ ==> (#[trigger] subscription_json(s, times).get(k)) is None,
{
    broadcast use json::lemma_set_then_get;

    reveal_strlit("name");
    reveal_strlit("period_days");
    reveal_strlit("start_at");
    reveal_strlit("expire_at");
    reveal_strlit("is_gift");
    reveal_strlit("active");
    assert("name"@.len() == 4 && "period_days"@.len() == 11 && "start_at"@.len() == 8);
    assert("expire_at"@.len() == 9 && "is_gift"@.len() == 7 && "active"@.len() == 6);
}

/// What is shown of a window holds what was read of it.
pub proof fn windows_are_shown(name: Seq<char>, used: Option<u64>, exhausted: bool, reset: Option<int>, times: Seq<(i64, String)>)
    ensures
        item_json(ItemV::Window(name, used, exhausted, reset), times).get("name"@) == Some(JsonV::Str(name)),
        item_json(ItemV::Window(name, used, exhausted, reset), times).get("used_percent"@) == Some(double_or_null(used)),
        item_json(ItemV::Window(name, used, exhausted, reset), times).get("exhausted"@) == Some(JsonV::Bool(exhausted)),
        item_json(ItemV::Window(name, used, exhausted, reset), times).get("reset_at"@) == Some(json::str_or_null(stamp_words(reset, times))),
        forall|k: Seq<char>| k != "name"@ && k != "used_percent"@ && k != "exhausted"@ && k != "reset_at"@ ==> (#[trigger] item_json(ItemV::Window(name, used, exhausted, reset), times).get(k)) is None,
{
    broadcast use json::lemma_set_then_get;

    reveal_strlit("name");
    reveal_strlit("used_percent");
    reveal_strlit("exhausted");
    reveal_strlit("reset_at");
    assert("name"@.len() == 4 && "used_percent"@.len() == 12 && "exhausted"@.len() == 9);
    assert("reset_at"@.len() == 8);
}

/// What is shown of an amount holds what was read of it.
pub proof fn amounts_are_shown(name: JsonV, total: JsonV, left: Option<JsonV>, used: Option<JsonV>, times: Seq<(i64, String)>)
    ensures
        item_json(ItemV::Amount(name, total, left, used), times).get("name"@) == Some(name),
        item_json(ItemV::Amount(name, total, left, used), times).get("total"@) == Some(total),
        item_json(ItemV::Amount(name, total, left, used), times).get("left"@) == Some(json::or_null(left)),
        item_json(ItemV::Amount(name, total, left, used), times).get("used"@) == Some(json::or_null(used)),
        forall|k: Seq<char>| k != "name"@ && k != "total"@ && k != "left"@ && k != "used"@ ==> (#[trigger] item_json(ItemV::Amount(name, total, left, used), times).get(k)) is None,
{
    broadcast use json::lemma_set_then_get;

    reveal_strlit("name");
    reveal_strlit("total");
    reveal_strlit("left");
    reveal_strlit("used");
    assert("name"@.len() == 4 && "total"@.len() == 5 && "left"@.len() == 4);
    assert("used"@.len() == 4);
    assert("name"@[0] != "left"@[0]);
    assert("name"@[0] != "used"@[0]);
    assert("left"@[0] != "used"@[0]);
}

/// The event of an answer holds the user, the level, the summary and the windows.
pub proof fn answers_are_noted(uid: Seq<char>, parsed: JsonV, now: Seq<char>)
    ensures
        good_event(uid, parsed, now).get("ts"@) == Some(JsonV::Str(now)),
        good_event(uid, parsed, now).get("kind"@) == Some(JsonV::Str("quota"@)),
        good_event(uid, parsed, now).get("uid"@) == Some(JsonV::Str(uid)),
        good_event(uid, parsed, now).get("ok"@) == Some(JsonV::Bool(true)),
        good_event(uid, parsed, now).get("level"@) == Some(json::or_null(parsed.get("level"@))),
        good_event(uid, parsed, now).get("summary"@) == Some(json::str_or_null(summary_of(parsed))),
        good_event(uid, parsed, now).get("windows"@) == Some(JsonV::Arr(window_records(parsed.elements_at("items"@)))),
        good_event(uid, parsed, now).get("source"@) == Some(JsonV::Str("task"@)),
        forall|k: Seq<char>| k != "ts"@ && k != "kind"@ && k != "uid"@ && k != "ok"@ && k != "level"@ && k != "summary"@ && k != "windows"@ && k != "source"@ ==> (#[trigger] good_event(uid, parsed, now).get(k)) is None,
{
    broadcast use json::lemma_set_then_get;

    reveal_strlit("ts");
    reveal_strlit("kind");
    reveal_strlit("uid");
    reveal_strlit("ok");
    reveal_strlit("level");
    reveal_strlit("summary");
    reveal_strlit("windows");
    reveal_strlit("source");
    assert("ts"@.len() == 2 && "kind"@.len() == 4 && "uid"@.len() == 3);
    assert("ok"@.len() == 2 && "level"@.len() == 5 && "summary"@.len() == 7);
    assert("windows"@.len() == 7 && "source"@.len() == 6);
    assert("ts"@[0] != "ok"@[0]);
    assert("summary"@[0] != "windows"@[0]);
}

/// The event of a query that failed holds the user and why.
pub proof fn failures_are_noted(uid: Seq<char>, error: Seq<char>, now: Seq<char>)
    ensures
        bad_event(uid, error, now).get("ts"@) == Some(JsonV::Str(now)),
        bad_event(uid, error, now).get("kind"@) == Some(JsonV::Str("quota"@)),
        bad_event(uid, error, now).get("uid"@) == Some(JsonV::Str(uid)),
        bad_event(uid, error, now).get("ok"@) == Some(JsonV::Bool(false)),
        bad_event(uid, error, now).get("summary"@) == Some(JsonV::Str(error)),
        bad_event(uid, error, now).get("source"@) == Some(JsonV::Str("task"@)),
        forall|k: Seq<char>| k != "ts"@ && k != "kind"@ && k != "uid"@ && k != "ok"@ && k != "summary"@ && k != "source"@ ==> (#[trigger] bad_event(uid, error, now).get(k)) is None,
{
    broadcast use json::lemma_set_then_get;

    reveal_strlit("ts");
    reveal_strlit("kind");
    reveal_strlit("uid");
    reveal_strlit("ok");
    reveal_strlit("summary");
    reveal_strlit("source");
    assert("ts"@.len() == 2 && "kind"@.len() == 4 && "uid"@.len() == 3);
    assert("ok"@.len() == 2 && "summary"@.len() == 7 && "source"@.len() == 6);
    assert("ts"@[0] != "ok"@[0]);
}

/// The record of a query that failed holds the user and why.
pub proof fn failures_are_recorded(uid: Seq<char>, error: Seq<char>)
    ensures
        error_record(uid, error).get("user_id"@) == Some(JsonV::Str(uid)),
        error_record(uid, error).get("error"@) == Some(JsonV::Str(error)),
        forall|k: Seq<char>| k != "user_id"@ && k != "error"@ ==> (#[trigger] error_record(uid, error).get(k)) is None,
{
    broadcast use json::lemma_set_then_get;

    reveal_strlit("user_id");
    reveal_strlit("error");
    assert("user_id"@.len() == 7 && "error"@.len() == 5);
}

/// The record of an account that has used a window up holds the user, its name, and when the window starts
/// again.
pub proof fn used_up_accounts_are_recorded(acc: JsonV, uid: Seq<char>, reset: Option<Seq<char>>)
    ensures
        exhausted_record(acc, uid, reset).get("user_id"@) == Some(JsonV::Str(uid)),
        exhausted_record(acc, uid, reset).get("name"@) == Some(JsonV::Str(match acc.text_at("name"@) { Some(n) => if n.len() > 0 { n } else { uid }, None => uid })),
        exhausted_record(acc, uid, reset).get("reset_at"@) == Some(json::str_or_null(reset)),
        forall|k: Seq<char>| k != "user_id"@ && k != "name"@ && k != "reset_at"@ ==> (#[trigger] exhausted_record(acc, uid, reset).get(k)) is None,
{
    broadcast use json::lemma_set_then_get;

    reveal_strlit("user_id");
    reveal_strlit("name");
    reveal_strlit("reset_at");
    assert("user_id"@.len() == 7 && "name"@.len() == 4 && "reset_at"@.len() == 8);
}

/// The record of a round holds its counts, which add up, and what was noted.
pub proof fn rounds_are_recorded(url: Seq<char>, success: int, failed: int, exhausted: Seq<JsonV>, errors: Seq<JsonV>, finished: Seq<char>)
    ensures
        batch_record(url, success, failed, exhausted, errors, finished).get("ok"@) == Some(JsonV::Bool(true)),
        batch_record(url, success, failed, exhausted, errors, finished).get("mode"@) == Some(JsonV::Str("all"@)),
        batch_record(url, success, failed, exhausted, errors, finished).get("url"@) == Some(JsonV::Str(url)),
        batch_record(url, success, failed, exhausted, errors, finished).get("total"@) == Some(json::int_v(success + failed)),
        batch_record(url, success, failed, exhausted, errors, finished).get("success"@) == Some(json::int_v(success)),
        batch_record(url, success, failed, exhausted, errors, finished).get("failed"@) == Some(json::int_v(failed)),
        batch_record(url, success, failed, exhausted, errors, finished).get("exhausted"@) == Some(JsonV::Arr(exhausted)),
        batch_record(url, success, failed, exhausted, errors, finished).get("errors"@) == Some(JsonV::Arr(errors)),
        batch_record(url, success, failed, exhausted, errors, finished).get("finished_at"@) == Some(JsonV::Str(finished)),
        forall|k: Seq<char>| k != "ok"@ && k != "mode"@ && k != "url"@ && k != "total"@ && k != "success"@ && k != "failed"@ && k != "exhausted"@ && k != "errors"@ && k != "finished_at"@ ==> (#[trigger] batch_record(url, success, failed, exhausted, errors, finished).get(k)) is None,
{
    broadcast use json::lemma_set_then_get;

    reveal_strlit("ok");
    reveal_strlit("mode");
    reveal_strlit("url");
    reveal_strlit("total");
    reveal_strlit("success");
    reveal_strlit("failed");
    reveal_strlit("exhausted");
    reveal_strlit("errors");
    reveal_strlit("finished_at");
    assert("ok"@.len() == 2 && "mode"@.len() == 4 && "url"@.len() == 3);
    assert("total"@.len() == 5 && "success"@.len() == 7 && "failed"@.len() == 6);
    assert("exhausted"@.len() == 9 && "errors"@.len() == 6 && "finished_at"@.len() == 11);
    assert("failed"@[0] != "errors"@[0]);
}

/// The record of a single query holds the user and what was read.
pub proof fn single_queries_are_recorded(url: Seq<char>, uid: Seq<char>, parsed: JsonV, finished: Seq<char>)
    ensures
        single_record(url, uid, parsed, finished).get("ok"@) == Some(JsonV::Bool(true)),
        single_record(url, uid, parsed, finished).get("http_status"@) == Some(json::int_v(200)),
        single_record(url, uid, parsed, finished).get("url"@) == Some(JsonV::Str(url)),
        single_record(url, uid, parsed, finished).get("user_id"@) == Some(JsonV::Str(uid)),
        single_record(url, uid, parsed, finished).get("parsed"@) == Some(parsed),
        single_record(url, uid, parsed, finished).get("finished_at"@) == Some(JsonV::Str(finished)),
        single_record(url, uid, parsed, finished).get("logs"@) == Some(JsonV::Arr(Seq::empty())),
        forall|k: Seq<char>| k != "ok"@ && k != "http_status"@ && k != "url"@ && k != "user_id"@ && k != "parsed"@ && k != "finished_at"@ && k != "logs"@ ==> (#[trigger] single_record(url, uid, parsed, finished).get(k)) is None,
{
    broadcast use json::lemma_set_then_get;

    reveal_strlit("ok");
    reveal_strlit("http_status");
    reveal_strlit("url");
    reveal_strlit("user_id");
    reveal_strlit("parsed");
    reveal_strlit("finished_at");
    reveal_strlit("logs");
    assert("ok"@.len() == 2 && "http_status"@.len() == 11 && "url"@.len() == 3);
    assert("user_id"@.len() == 7 && "parsed"@.len() == 6 && "finished_at"@.len() == 11);
    assert("logs"@.len() == 4);
    assert("http_status"@[0] != "finished_at"@[0]);
}

/// An account holds what was last read of it.
pub proof fn quotas_are_kept_with_their_account(o: Seq<(Seq<char>, JsonV)>, parsed: JsonV, summary: Option<Seq<char>>, now: Seq<char>)
    ensures
        with_quota(JsonV::Obj(o), parsed, summary, now).get("quota_level"@) == Some(json::or_null(parsed.get("level"@))),
        with_quota(JsonV::Obj(o), parsed, summary, now).get("quota_expire_at"@) == Some(json::or_null(parsed.get("expire_at"@))),
        with_quota(JsonV::Obj(o), parsed, summary, now).get("quota_summary"@) == Some(json::str_or_null(summary)),
        with_quota(JsonV::Obj(o), parsed, summary, now).get("quota_checked_at"@) == Some(JsonV::Str(now)),
{
    broadcast use json::lemma_set_then_get;

    reveal_strlit("quota_level");
    reveal_strlit("quota_expire_at");
    reveal_strlit("quota_summary");
    reveal_strlit("quota_checked_at");
    assert("quota_level"@.len() == 11 && "quota_expire_at"@.len() == 15 && "quota_summary"@.len() == 13);
    assert("quota_checked_at"@.len() == 16);
}

/// A time is a timestamp, or else the words it is written in: a date in one of the known forms as such, other
/// words as far as their first part, and blank ones not at all.
pub proof fn times_are_stamps_or_words(s: Seq<char>, n: NumV, d: Seq<char>)
    ensures
        text::trimmed(s).len() == 0 ==> when_of(Some(JsonV::Str(s))) is None,
        text::trimmed(s).len() > 0 && clock::by_formats(
            text::head_chars(text::trimmed(s), 19),
            clock::date_formats(),
        ) == Some(d) ==> when_of(Some(JsonV::Str(s))) == Some(WhenV::Words(d)),
        0 < text::trimmed(s).len() <= 32 && clock::by_formats(
            text::head_chars(text::trimmed(s), 19),
            clock::date_formats(),
        ) is None ==> when_of(Some(JsonV::Str(s))) == Some(WhenV::Words(text::trimmed(s))),
        text::trimmed(s).len() > 32 && clock::by_formats(
            text::head_chars(text::trimmed(s), 19),
            clock::date_formats(),
        ) is None ==> when_of(Some(JsonV::Str(s))) == Some(WhenV::Words(text::trimmed(s).subrange(0, 32))),
        stamp(Some(JsonV::Num(n))) matches Some(t) ==> when_of(Some(JsonV::Num(n))) == Some(WhenV::At(t)),
        stamp(Some(JsonV::Num(n))) is None ==> when_of(Some(JsonV::Num(n))) == Some(
            WhenV::Words(json::json_text(JsonV::Num(n))),
        ),
{
    let t = text::trimmed(s);
    if t.len() > 32 {
        assert(t.take(32) =~= t.subrange(0, 32));
    }
}

/// A time is told as the machine tells its second, and words as they are; a day by its first ten characters.
pub proof fn times_are_told(s: int, w: Seq<char>, times: Seq<(i64, String)>)
    ensures
        in_words(Some(WhenV::At(s)), times) == Some(clock::time_at(times, s)),
        in_words(Some(WhenV::Words(w)), times) == Some(w),
        in_words(None, times) is None,
        stamp_words(Some(s), times) == Some(clock::time_at(times, s)),
        stamp_words(None, times) is None,
        stamp_day(None, times) is None,
        clock::time_at(times, s).len() > 10 ==> stamp_day(Some(s), times) == Some(
            clock::time_at(times, s).subrange(0, 10),
        ),
        is_worded(Some(WhenV::Words(w)), Some(w)),
        !is_worded(Some(WhenV::Words(w)), None),
        is_worded(Some(WhenV::At(s)), Some(w)) == clock::is_local_text(s, w),
        is_worded(None, None) && !is_worded(None, Some(w)),
{
    let t = clock::time_at(times, s);
    if t.len() > 10 {
        assert(t.take(10) =~= t.subrange(0, 10));
    }
}

/// A subscription runs where its status is told and is not zero, whatever it is told as.
pub proof fn told_subscriptions_run(i: i64, b: bool, s: Seq<char>, f: u64)
    ensures
        i < 0 ==> is_running(Some(JsonV::Num(NumV::Neg(i)))),
        is_running(Some(JsonV::Bool(b))) && is_running(Some(JsonV::Str(s))),
        is_running(Some(JsonV::Num(NumV::Flt(f)))) == (floats::whole_part(f) != 0 || floats::has_fraction(f)),
        !is_good_code(Some(JsonV::Str(s))) && !is_good_code(Some(JsonV::Bool(b))),
        i < 0 ==> !is_good_code(Some(JsonV::Num(NumV::Neg(i)))),
        is_good_code(None) && is_good_code(Some(JsonV::Null)) && is_good_code(Some(JsonV::Num(NumV::Pos(0)))),
{
}

/// A window is called by its kind where that is known, and else by its group and its kind.
pub proof fn windows_are_called_by_their_kind(w: JsonV, group: Seq<char>, k: JsonV)
    ensures
        w.get("window_type"@) == Some(JsonV::Num(NumV::Pos(1))) ==> window_name(w, group) == "当前时段"@,
        w.get("window_type"@) == Some(JsonV::Num(NumV::Pos(2))) ==> window_name(w, group) == "近 7 天"@,
        w.get("window_type"@) == Some(k) && k.whole() != Some(1int) && k.whole() != Some(2int) && group.len() > 0
            ==> window_name(w, group) == group + "·窗口"@ + json::shown(k),
        w.get("window_type"@) == Some(k) && k.whole() != Some(1int) && k.whole() != Some(2int) && group.len() == 0
            ==> window_name(w, group) == "窗口"@ + json::shown(k),
{
}

/// A quota without a name is called one, and an amount without a rest is summed up by its total; null is as
/// good as nothing.
pub proof fn quotas_without_a_name_are_called_so(x: JsonV, t: NumV, name: Seq<char>)
    ensures
        x.get("used_percent"@) is None && x.get("total"@) == Some(JsonV::Num(t)) && x.get("left"@) is None && x.get(
            "name"@,
        ) == Some(JsonV::Str(name)) && name.len() > 0 ==> item_summary(x) == Some(
            name + " 总量 "@ + json::json_text(JsonV::Num(t)),
        ),
        x.get("used_percent"@) is None && x.get("total"@) == Some(JsonV::Num(t)) && x.get("left"@) == Some(JsonV::Null)
            && x.get("name"@) is None ==> item_summary(x) == Some("额度"@ + " 总量 "@ + json::json_text(JsonV::Num(t))),
        x.get("used_percent"@) is None && x.get("total"@) is None ==> item_summary(x) is None,
        x.get("used_percent"@) is None && x.get("total"@) == Some(JsonV::Null) ==> item_summary(x) is None,
{
}

/// An answer counts as a success, is kept with its account and leaves all others; an error counts as a
/// failure and changes no account. Each is recorded where it belongs.
pub proof fn answers_are_counted_and_kept(b: BatchV, t: TargetV, v: JsonV, parsed: JsonV, e: Seq<char>, now: Seq<char>, i: int)
    requires
        0 <= t.index < b.accounts.len(),
        v.get("parsed"@) == Some(parsed),
    ensures
        ({
            let a = batch_after(b, t, Ok(v), now);
            &&& a.success == b.success + 1 && a.failed == b.failed && a.changed && a.errors == b.errors
            &&& a.accounts.len() == b.accounts.len()
            &&& a.accounts[t.index] == with_quota(b.accounts[t.index], parsed, summary_of(parsed), now)
            &&& 0 <= i < b.accounts.len() && i != t.index ==> a.accounts[i] == b.accounts[i]
            &&& any_full(parsed.elements_at("items"@)) ==> a.exhausted == b.exhausted.push(
                exhausted_record(b.accounts[t.index], t.user_id, first_reset(parsed.elements_at("items"@))),
            )
            &&& !any_full(parsed.elements_at("items"@)) ==> a.exhausted == b.exhausted
        }),
        ({
            let a = batch_after(b, t, Err(e), now);
            &&& a.success == b.success && a.failed == b.failed + 1 && a.changed == b.changed
            &&& a.accounts == b.accounts && a.exhausted == b.exhausted
            &&& a.errors == b.errors.push(error_record(t.user_id, e))
        }),
        event_of(t.user_id, Ok(v), now) == good_event(t.user_id, parsed, now),
        event_of(t.user_id, Err(e), now) == bad_event(t.user_id, e, now),
        batch_start(b.accounts).success == 0 && batch_start(b.accounts).failed == 0 && !batch_start(b.accounts).changed,
        batch_start(b.accounts).accounts == b.accounts && batch_start(b.accounts).errors.len() == 0 && batch_start(
            b.accounts,
        ).exhausted.len() == 0,
{
}

/// What is parsed of a response is what was read of it, told in times of the machine.
pub proof fn responses_are_parsed_as_read(body: JsonV, r: JsonV)
    requires
        is_query_result(body, r),
    ensures
        r.get("ok"@) == Some(JsonV::Bool(true)),
        r.get("parsed"@) matches Some(p) && is_parsed(body, p),
{
    broadcast use json::lemma_set_then_get;

    reveal_strlit("ok");
    reveal_strlit("parsed");
    assert("ok"@.len() == 2 && "parsed"@.len() == 6);
}

/// Every account that can be asked about is a target, under its own place and in order, and no other is.
pub proof fn every_account_with_a_session_is_a_target(accounts: Seq<JsonV>, x: JsonV, i: int)
    ensures
        target_of(x, accounts.len() as int) matches Some(t) ==> targets_of(accounts.push(x)) == targets_of(accounts).push(
            t,
        ),
        target_of(x, accounts.len() as int) is None ==> targets_of(accounts.push(x)) == targets_of(accounts),
        targets_of(Seq::empty()).len() == 0,
        0 <= i < accounts.len() && target_of(accounts[i], i) is Some ==> targets_of(accounts).contains(
            target_of(accounts[i], i)->Some_0,
        ),
    decreases accounts.len(),
{
    assert(accounts.push(x).drop_last() =~= accounts);
    if 0 <= i < accounts.len() && target_of(accounts[i], i) is Some {
        let front = accounts.drop_last();
        let t = target_of(accounts[i], i)->Some_0;
        let all = targets_of(accounts);
        if i == accounts.len() - 1 {
            assert(all[all.len() - 1] == t);
        } else {
            every_account_with_a_session_is_a_target(front, x, i);
            assert(front[i] == accounts[i]);
            let k = choose|k: int| 0 <= k < targets_of(front).len() && targets_of(front)[k] == t;
            assert(all[k] == t);
        }
    }
}

/// The history keeps all events until there are four hundred, and then the newest; they stay in order.
pub proof fn the_newest_events_are_kept(events: Seq<JsonV>, event: JsonV, i: int)
    ensures
        events.len() < 400 ==> with_event(events, event) == events.push(event),
        events.len() >= 400 ==> with_event(events, event).len() == 400,
        events.len() >= 400 && 0 <= i < 399 ==> with_event(events, event)[i] == events[events.len() - 399 + i],
        with_event(events, event).last() == event,
{
}

/// What is parsed is what was read, with every time in it told.
pub proof fn parsed_answers_have_their_times(resp: JsonV, r: JsonV)
    requires
        is_parsed(resp, r),
    ensures
        exists|times: Seq<(i64, String)>| #[trigger] is_covered(quota_of(resp), times) && r == quota_json(
            quota_of(resp),
            times,
        ),
{
}

} // verus!
