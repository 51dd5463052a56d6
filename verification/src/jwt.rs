//! JSON web tokens: what their payload says of the user and of the expiry.
use vstd::prelude::*;
use crate::{codec, json, text};
use crate::json::{Json, JsonV, NumV};

verus! {

broadcast use vstd::string::group_string_axioms;

/// The text without the `c`s it ends with.
pub open spec fn trim_end_char(s: Seq<char>, c: char) -> Seq<char>
    decreases s.len(),
{
    if s.len() > 0 && s.last() == c {
        trim_end_char(s.drop_last(), c)
    } else {
        s
    }
}

/// The text without the `c`s it ends with.
pub fn drop_end_char(s: &str, c: char) -> (r: String)
    ensures
        r@ == trim_end_char(s@, c),
{
    let v = text::chars_of(s);
    let mut n: usize = v.len();
    assert(v@.take(n as int) =~= v@);
    while n > 0 && v[n - 1] == c
        invariant
            n <= v@.len(),
            v@ == s@,
            trim_end_char(s@, c) == trim_end_char(v@.take(n as int), c),
        decreases n,
    {
        assert(v@.take(n as int).drop_last() =~= v@.take(n - 1));
        n -= 1;
    }
    assert(v@.take(n as int) =~= v@.subrange(0, n as int));
    text::text_of(&v[0..n])
}

/// One part of a token, decoded: base64 of JSON, with padding let through.
pub open spec fn part_of(s: Seq<char>) -> Option<JsonV> {
    match codec::b64url_decoded(trim_end_char(s, '=')) {
        Some(b) => json::json_of_bytes(b),
        None => None,
    }
}

/// One part of a token, decoded.
pub fn decode_part(s: &str) -> (r: Option<Json>)
    ensures
        json::opt(r) == part_of(s@),
        r matches Some(v) ==> v@.wf(),
{
    match codec::b64url_decode(drop_end_char(s, '=').as_str()) {
        Some(b) => json::read_json_bytes(b.as_slice()),
        None => None,
    }
}

/// What a token says.
pub struct Claims {
    pub user_id: Option<String>,
    pub exp_timestamp: Option<i64>,
}

/// The text of an id: a string that is not empty, or a number as it is printed.
pub open spec fn id_text(v: Option<JsonV>) -> Option<Seq<char>> {
    match v {
        Some(JsonV::Str(s)) => if s.len() > 0 {
            Some(s)
        } else {
            None
        },
        Some(JsonV::Num(n)) => Some(json::json_text(JsonV::Num(n))),
        _ => None,
    }
}

/// The user that a payload names: the id in its data, else the authorising id, else the subject.
pub open spec fn user_in(payload: JsonV) -> Option<Seq<char>> {
    let data_id = match payload.get("data"@) {
        Some(d) => id_text(d.get("id"@)),
        None => None,
    };
    match (data_id, id_text(payload.get("auth_id"@)), id_text(payload.get("sub"@))) {
        (Some(u), _, _) => Some(u),
        (None, Some(u), _) => Some(u),
        (None, None, u) => u,
    }
}

fn id_of(v: Option<&Json>) -> (r: Option<String>)
    requires
        v matches Some(x) ==> x@.wf(),
    ensures
        text::opt_text(r) == id_text(json::opt_ref(v)),
{
    broadcast use json::lemma_view_parts;

    match v {
        Some(x) => match x {
            Json::Str(s) => if s.as_str().unicode_len() > 0 {
                Some(s.clone())
            } else {
                None
            },
            Json::Number(_) => Some(json::print_json(x)),
            _ => None,
        },
        None => None,
    }
}

/// What a payload says.
pub fn claims_of(payload: &Json) -> (r: Claims)
    requires
        payload@.wf(),
    ensures
        text::opt_text(r.user_id) == user_in(payload@),
        match r.exp_timestamp {
            Some(t) => payload@.int_at("exp"@) == Some(t as int),
            None => payload@.int_at("exp"@) is None,
        },
{
    broadcast use json::lemma_get_wf;

    let data_id = match payload.get("data") {
        Some(d) => id_of(d.get("id")),
        None => None,
    };
    let user_id = match data_id {
        Some(u) => Some(u),
        None => match id_of(payload.get("auth_id")) {
            Some(u) => Some(u),
            None => id_of(payload.get("sub")),
        },
    };
    Claims { user_id, exp_timestamp: payload.i64_at("exp") }
}

/// The token in a header's value, without the words that may stand before it.
pub open spec fn bare_token(auth: Seq<char>) -> Seq<char> {
    let t = text::trimmed(auth);
    match (text::stripped(t, "Cloud-IDE-JWT "@), text::stripped(t, "Bearer "@)) {
        (Some(x), _) => text::trimmed(x),
        (None, Some(x)) => text::trimmed(x),
        (None, None) => t,
    }
}

/// The payload of the token in a header's value; nothing where it has no three parts or does not
/// decode.
pub open spec fn payload_of(auth: Seq<char>) -> Option<JsonV> {
    let parts = text::split_on(bare_token(auth), '.');
    if parts.len() == 3 {
        part_of(parts[1])
    } else {
        None
    }
}

/// The payload of the token in a header's value.
pub fn read_payload(auth: &str) -> (r: Option<Json>)
    ensures
        json::opt(r) == payload_of(auth@),
        r matches Some(v) ==> v@.wf(),
{
    let t = text::trim(auth);
    let bare = match text::strip_prefix(t.as_str(), "Cloud-IDE-JWT ") {
        Some(x) => text::trim(x.as_str()),
        None => match text::strip_prefix(t.as_str(), "Bearer ") {
            Some(x) => text::trim(x.as_str()),
            None => t,
        },
    };
    let parts = text::split(bare.as_str(), '.');
    assert(text::texts(parts@).len() == parts@.len());
    if parts.len() == 3 {
        assert(text::texts(parts@)[1] == parts@[1]@);
        decode_part(parts[1].as_str())
    } else {
        None
    }
}

/// The user of the token in a header's value.
pub open spec fn token_user(auth: Seq<char>) -> Option<Seq<char>> {
    match payload_of(auth) {
        Some(p) => user_in(p),
        None => None,
    }
}

/// The expiry of the token in a header's value, in seconds.
pub open spec fn token_expiry(auth: Seq<char>) -> Option<int> {
    match payload_of(auth) {
        Some(p) => p.int_at("exp"@),
        None => None,
    }
}

/// What the token in a header's value says; nothing where it does not decode.
pub fn parse(auth: &str) -> (r: Claims)
    ensures
        text::opt_text(r.user_id) == token_user(auth@),
        match r.exp_timestamp {
            Some(t) => token_expiry(auth@) == Some(t as int),
            None => token_expiry(auth@) is None,
        },
{
    match read_payload(auth) {
        Some(p) => claims_of(&p),
        None => Claims { user_id: None, exp_timestamp: None },
    }
}

/// The user of the token in a header's value.
pub fn extract_user_id(auth_header: &str) -> (r: Option<String>)
    ensures
        text::opt_text(r) == token_user(auth_header@),
{
    parse(auth_header).user_id
}

/// The expiry of the token in a header's value, in seconds.
pub fn jwt_exp_ts(jwt_full: &str) -> (r: Option<i64>)
    ensures
        match r {
            Some(t) => token_expiry(jwt_full@) == Some(t as int),
            None => token_expiry(jwt_full@) is None,
        },
{
    parse(jwt_full).exp_timestamp
}

/// Whether the parts of a token make it one that can be captured: signed with RS256, and with an
/// id in its data.
pub open spec fn is_capturable(header: JsonV, payload: JsonV) -> bool {
    header.text_at("alg"@) == Some("RS256"@) && match payload.get("data"@) {
        Some(d) => match d.get("id"@) {
            Some(v) => v !is Null,
            None => false,
        },
        None => false,
    }
}

/// Whether the parts of a token make it one that can be captured.
pub fn capturable(header: &Json, payload: &Json) -> (r: bool)
    ensures
        r == is_capturable(header@, payload@),
{
    let rs = match header.str_at("alg") {
        Some(a) => text::same(a, "RS256"),
        None => false,
    };
    let id = match payload.get("data") {
        Some(d) => match d.get("id") {
            Some(v) => !v.is_null(),
            None => false,
        },
        None => false,
    };
    rs && id
}

/// The canonical form of a token that can be captured.
pub open spec fn captured_token(tok: Seq<char>) -> Option<Seq<char>> {
    let parts = text::split_on(text::trimmed(tok), '.');
    if parts.len() != 3 {
        None
    } else {
        match (part_of(parts[0]), part_of(parts[1])) {
            (Some(h), Some(p)) => if is_capturable(h, p) {
                Some("Cloud-IDE-JWT "@ + text::trimmed(tok))
            } else {
                None
            },
            _ => None,
        }
    }
}

/// The canonical form of a token that can be captured.
pub fn valid_cloud_ide_jwt(tok: &str) -> (r: Option<String>)
    ensures
        text::opt_text(r) == captured_token(tok@),
{
    let t = text::trim(tok);
    let parts = text::split(t.as_str(), '.');
    assert(text::texts(parts@).len() == parts@.len());
    if parts.len() != 3 {
        return None;
    }
    assert(text::texts(parts@)[0] == parts@[0]@);
    assert(text::texts(parts@)[1] == parts@[1]@);
    match (decode_part(parts[0].as_str()), decode_part(parts[1].as_str())) {
        (Some(h), Some(p)) => if capturable(&h, &p) {
            Some(text::cat("Cloud-IDE-JWT ", t.as_str()))
        } else {
            None
        },
        _ => None,
    }
}

// ---- what holds of tokens ----

/// The user of a token is that of its data, or else the one it was given to, or else its subject; a number
/// is taken in digits, and an empty text is none.
pub proof fn users_of_tokens_are_found_in_order(p: JsonV, d: JsonV, u: Seq<char>, n: NumV)
    requires
        u.len() > 0,
    ensures
        p.get("data"@) == Some(d) && d.get("id"@) == Some(JsonV::Str(u)) ==> user_in(p) == Some(u),
        p.get("data"@) == Some(d) && d.get("id"@) == Some(JsonV::Num(n)) ==> user_in(p) == Some(
            json::json_text(JsonV::Num(n)),
        ),
        p.get("data"@) is None || (p.get("data"@) == Some(d) && d.get("id"@) is None) ==> {
            &&& p.get("auth_id"@) == Some(JsonV::Str(u)) ==> user_in(p) == Some(u)
            &&& p.get("auth_id"@) is None && p.get("sub"@) == Some(JsonV::Str(u)) ==> user_in(p) == Some(u)
            &&& p.get("auth_id"@) is None && p.get("sub"@) is None ==> user_in(p) is None
        },
        id_text(Some(JsonV::Str(Seq::empty()))) is None,
{
}

/// A token is read without its mark, whichever it carries, and without white ends.
pub proof fn tokens_are_read_without_their_mark(auth: Seq<char>, t: Seq<char>)
    ensures
        text::trimmed(auth) == "Cloud-IDE-JWT "@ + t ==> bare_token(auth) == text::trimmed(t),
        text::trimmed(auth) == "Bearer "@ + t ==> bare_token(auth) == text::trimmed(t),
        !text::has_prefix(text::trimmed(auth), "Cloud-IDE-JWT "@) && !text::has_prefix(text::trimmed(auth), "Bearer "@)
            ==> bare_token(auth) == text::trimmed(auth),
{
    let a = "Cloud-IDE-JWT "@;
    let b = "Bearer "@;
    assert((a + t).take(a.len() as int) =~= a);
    assert((a + t).skip(a.len() as int) =~= t);
    assert((b + t).take(b.len() as int) =~= b);
    assert((b + t).skip(b.len() as int) =~= t);
    reveal_strlit("Cloud-IDE-JWT ");
    reveal_strlit("Bearer ");
    if text::has_prefix(b + t, a) {
        assert((b + t).take(a.len() as int)[0] == 'B');
        assert(a[0] == 'C');
    }
}

/// A token has three parts, and says who it is for and when it ends in the second.
pub proof fn tokens_speak_in_their_second_part(auth: Seq<char>, parts: Seq<Seq<char>>)
    requires
        parts.len() > 0,
        forall|i: int| 0 <= i < parts.len() ==> !(#[trigger] parts[i]).contains('.'),
        bare_token(auth) == text::glued(parts, seq!['.']),
    ensures
        parts.len() == 3 ==> payload_of(auth) == part_of(parts[1]),
        parts.len() != 3 ==> payload_of(auth) is None,
        payload_of(auth) matches Some(p) ==> token_user(auth) == user_in(p),
        payload_of(auth) matches Some(p) ==> (p.get("exp"@) matches Some(JsonV::Num(NumV::Pos(n))) ==> n <= i64::MAX
            ==> token_expiry(auth) == Some(n as int)),
        payload_of(auth) is None ==> token_user(auth) is None && token_expiry(auth) is None,
{
    text::splitting_undoes_gluing(parts, '.');
}

/// A token is captured, with its mark in front, where it has three parts, is signed as the service signs,
/// and has data with a user; no other is.
pub proof fn signed_tokens_are_captured(tok: Seq<char>, parts: Seq<Seq<char>>, h: JsonV, p: JsonV)
    requires
        parts.len() > 0,
        forall|i: int| 0 <= i < parts.len() ==> !(#[trigger] parts[i]).contains('.'),
        text::trimmed(tok) == text::glued(parts, seq!['.']),
    ensures
        parts.len() == 3 && part_of(parts[0]) == Some(h) && part_of(parts[1]) == Some(p) ==> captured_token(tok) == (
        if is_capturable(h, p) {
            Some("Cloud-IDE-JWT "@ + text::trimmed(tok))
        } else {
            None
        }),
        parts.len() != 3 ==> captured_token(tok) is None,
        h.get("alg"@) == Some(JsonV::Str("RS256"@)) ==> is_capturable(h, p) == (p.get("data"@) matches Some(d)
            && d.get("id"@) is Some && d.get("id"@) != Some(JsonV::Null)),
        h.get("alg"@) != Some(JsonV::Str("RS256"@)) ==> !is_capturable(h, p),
{
    text::splitting_undoes_gluing(parts, '.');
}

/// Taking an end away leaves the front: what is left ends otherwise, and only such characters are gone.
pub proof fn only_the_end_is_taken_away(s: Seq<char>, c: char)
    ensures
        trim_end_char(s, c).len() <= s.len(),
        s.take(trim_end_char(s, c).len() as int) == trim_end_char(s, c),
        forall|i: int| trim_end_char(s, c).len() <= i < s.len() ==> #[trigger] s[i] == c,
        trim_end_char(s, c).len() > 0 ==> trim_end_char(s, c).last() != c,
    decreases s.len(),
{
    if s.len() > 0 && s.last() == c {
        let f = s.drop_last();
        only_the_end_is_taken_away(f, c);
        let t = trim_end_char(f, c);
        assert(s.take(t.len() as int) =~= f.take(t.len() as int));
        assert forall|i: int| t.len() <= i < s.len() implies #[trigger] s[i] == c by {
            if i < f.len() {
                assert(f[i] == s[i]);
            }
        }
    } else {
        assert(s.take(s.len() as int) =~= s);
    }
}

} // verus!
