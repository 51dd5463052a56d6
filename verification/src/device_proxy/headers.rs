//! Header lists: names are compared without regard to the case of ASCII letters.
use vstd::prelude::*;
use crate::text;
use crate::text::same_ignoring_case;

verus! {

broadcast use vstd::string::group_string_axioms;

/// The contents of a list of headers.
pub open spec fn pairs(v: Seq<(String, String)>) -> Seq<(Seq<char>, Seq<char>)> {
    v.map_values(|p: (String, String)| (p.0@, p.1@))
}

/// Whether two header names are the same.
pub open spec fn same_name(a: Seq<char>, b: Seq<char>) -> bool {
    text::smalls(a) == text::smalls(b)
}

/// The value of the first header with the name.
pub open spec fn header(h: Seq<(Seq<char>, Seq<char>)>, name: Seq<char>) -> Option<Seq<char>>
    decreases h.len(),
{
    if h.len() == 0 {
        None
    } else if same_name(h[0].0, name) {
        Some(h[0].1)
    } else {
        header(h.skip(1), name)
    }
}

/// The value of the first header with the name.
pub fn find_header<'a>(h: &'a Vec<(String, String)>, name: &str) -> (r: Option<&'a str>)
    ensures
        text::opt_str(r) == header(pairs(h@), name@),
{
    let mut i: usize = 0;
    let ghost all = pairs(h@);
    assert(all.skip(0) =~= all);
    while i < h.len()
        invariant
            i <= h@.len(),
            all == pairs(h@),
            header(all, name@) == header(all.skip(i as int), name@),
        decreases h@.len() - i,
    {
        let ghost rest = all.skip(i as int);
        assert(rest[0] == (h@[i as int].0@, h@[i as int].1@));
        if same_ignoring_case(h[i].0.as_str(), name) {
            return Some(h[i].1.as_str());
        }
        assert(rest.skip(1) =~= all.skip(i + 1));
        i += 1;
    }
    None
}

/// Whether a character may stand in the name of a header: a letter or digit of ASCII, or one of the marks
/// of a token.
pub open spec fn is_token_char(c: char) -> bool {
    ||| 'a' <= c <= 'z' || 'A' <= c <= 'Z' || '0' <= c <= '9'
    ||| c == '!' || c == '#' || c == '$' || c == '%' || c == '&' || c == '\'' || c == '*' || c == '+'
    ||| c == '-' || c == '.' || c == '^' || c == '_' || c == '`' || c == '|' || c == '~'
}

/// Whether a text is the name of a header: a token of up to 65535 characters.
pub open spec fn is_header_name(k: Seq<char>) -> bool {
    0 < k.len() <= 65535 && forall|i: int| 0 <= i < k.len() ==> is_token_char(#[trigger] k[i])
}

/// Whether a text is the value of a header: it holds no control character of ASCII but tabs.
pub open spec fn is_header_value(v: Seq<char>) -> bool {
    forall|i: int| 0 <= i < v.len() ==> (#[trigger] v[i] == '\t' || (v[i] >= ' ' && v[i] != '\u{7f}'))
}

/// Whether a header can be sent.
pub open spec fn can_be_sent(k: Seq<char>, v: Seq<char>) -> bool {
    is_header_name(k) && is_header_value(v)
}

/// Whether `hyper::header::HeaderName` reads a name, through its `FromStr`: it is a token and not too
/// long.
#[verifier::external_body]
fn reads_name(k: &str) -> (r: bool)
    ensures
        r == is_header_name(k@),
{
    k.parse::<hyper::header::HeaderName>().is_ok()
}

/// Whether `hyper::header::HeaderValue` reads a value, through its `FromStr`: it refuses control
/// characters of ASCII but tabs, and takes all else.
#[verifier::external_body]
fn reads_value(v: &str) -> (r: bool)
    ensures
        r == is_header_value(v@),
{
    v.parse::<hyper::header::HeaderValue>().is_ok()
}

/// Whether a header can be sent.
pub fn sendable(k: &str, v: &str) -> (r: bool)
    ensures
        r == can_be_sent(k@, v@),
{
    reads_name(k) && reads_value(v)
}

/// The first header of a name counts, however its name is written.
pub proof fn first_headers_count(
    a: Seq<(Seq<char>, Seq<char>)>,
    b: Seq<(Seq<char>, Seq<char>)>,
    k: Seq<char>,
    v: Seq<char>,
    name: Seq<char>,
)
    ensures
        header(a, name) is Some ==> header(a + b, name) == header(a, name),
        header(a, name) is None ==> header(a + b, name) == header(b, name),
        text::smalls(k) == text::smalls(name) ==> header(seq![(k, v)], name) == Some(v),
        text::smalls(k) != text::smalls(name) ==> header(seq![(k, v)], name) is None,
    decreases a.len(),
{
    reveal_with_fuel(header, 2);
    assert(seq![(k, v)].skip(1) =~= Seq::<(Seq<char>, Seq<char>)>::empty());
    if a.len() == 0 {
        assert(a + b =~= b);
    } else {
        first_headers_count(a.skip(1), b, k, v, name);
        assert((a + b).skip(1) =~= a.skip(1) + b);
        assert((a + b)[0] == a[0]);
    }
}

/// A header can be sent where its name is a word of letters, digits and the fifteen marks, and its value
/// has no control characters but tabs.
pub proof fn headers_can_be_sent(k: Seq<char>, v: Seq<char>, i: int)
    ensures
        can_be_sent(k, v) ==> 0 < k.len() <= 65535,
        can_be_sent(k, v) && 0 <= i < k.len() ==> ('a' <= k[i] <= 'z') || ('A' <= k[i] <= 'Z') || ('0' <= k[i] <= '9')
            || "!#$%&'*+-.^_`|~"@.contains(k[i]),
        can_be_sent(k, v) && 0 <= i < v.len() ==> v[i] == '\t' || (v[i] as int >= 32 && v[i] as int != 127),
        0 < k.len() <= 65535 && (forall|j: int|
            0 <= j < k.len() ==> ('a' <= #[trigger] k[j] <= 'z') || ('A' <= k[j] <= 'Z') || ('0' <= k[j] <= '9')
                || "!#$%&'*+-.^_`|~"@.contains(k[j])) && (forall|j: int|
            0 <= j < v.len() ==> #[trigger] v[j] == '\t' || (v[j] as int >= 32 && v[j] as int != 127)) ==> can_be_sent(
            k,
            v,
        ),
{
    reveal_strlit("!#$%&'*+-.^_`|~");
    let m = "!#$%&'*+-.^_`|~"@;
    assert(m.len() == 15);
    assert(m[0] == '!' && m[1] == '#' && m[2] == '$' && m[3] == '%' && m[4] == '&');
    assert(m[5] == '\'' && m[6] == '*' && m[7] == '+' && m[8] == '-' && m[9] == '.');
    assert(m[10] == '^' && m[11] == '_' && m[12] == '`' && m[13] == '|' && m[14] == '~');
    assert forall|c: char| #[trigger] m.contains(c) == (is_token_char(c) && !('a' <= c <= 'z' || 'A' <= c <= 'Z' || '0'
        <= c <= '9')) by {
        if m.contains(c) {
            let j = choose|j: int| 0 <= j < m.len() && m[j] == c;
            assert(0 <= j < 15);
        }
    }
}

} // verus!
