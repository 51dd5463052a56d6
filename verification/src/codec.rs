//! Encodings and digests.
use vstd::prelude::*;
use crate::text;

verus! {

/// The name for what base64 in the URL alphabet, without padding, decodes to.
pub uninterp spec fn b64url_decoded(text: Seq<char>) -> Option<Seq<u8>>;

/// The name for bytes in base64 in the URL alphabet, without padding.
pub uninterp spec fn b64url_encoded(bytes: Seq<u8>) -> Seq<char>;

/// The name for what base64 in the standard alphabet, with padding, decodes to, or the error in
/// words.
pub uninterp spec fn b64_decoded(text: Seq<char>) -> Result<Seq<u8>, Seq<char>>;

/// The name for the SHA-256 digest of bytes.
pub uninterp spec fn sha256_of(bytes: Seq<u8>) -> Seq<u8>;

/// Whether a byte stands for itself in percent encoding: a letter, a digit, or one of `-`, `.`, `_`
/// and `~`.
pub open spec fn is_unreserved(b: u8) -> bool {
    (0x30 <= b <= 0x39) || (0x41 <= b <= 0x5a) || (0x61 <= b <= 0x7a) || b == 0x2d || b == 0x2e || b == 0x5f || b == 0x7e
}

/// The character of a hexadecimal digit, in capitals.
pub open spec fn capital_digit(d: int) -> char {
    if d < 10 {
        (0x30 + d) as char
    } else {
        (0x37 + d) as char
    }
}

/// Bytes with percent encoding.
pub open spec fn percent_encoded(bytes: Seq<u8>) -> Seq<char>
    decreases bytes.len(),
{
    if bytes.len() == 0 {
        Seq::empty()
    } else if is_unreserved(bytes[0]) {
        seq![bytes[0] as char] + percent_encoded(bytes.skip(1))
    } else {
        seq!['%', capital_digit(bytes[0] as int / 16), capital_digit(bytes[0] as int % 16)] + percent_encoded(
            bytes.skip(1),
        )
    }
}

/// A text with percent encoding.
pub open spec fn url_encoded(text: Seq<char>) -> Seq<char> {
    percent_encoded(vstd::utf8::encode_utf8(text))
}

/// The value of a hexadecimal digit.
pub open spec fn hex_value(b: u8) -> Option<int> {
    if 0x30 <= b <= 0x39 {
        Some(b - 0x30)
    } else if 0x41 <= b <= 0x46 {
        Some(b - 0x37)
    } else if 0x61 <= b <= 0x66 {
        Some(b - 0x57)
    } else {
        None
    }
}

/// What percent encoding stands for: a percent sign with two digits for a byte, and everything else
/// for itself.
pub open spec fn percent_decoded(bytes: Seq<u8>) -> Seq<u8>
    decreases bytes.len(),
{
    if bytes.len() == 0 {
        Seq::empty()
    } else if bytes.len() >= 3 && bytes[0] == 0x25 && hex_value(bytes[1]) is Some && hex_value(bytes[2]) is Some {
        seq![(16 * hex_value(bytes[1]).unwrap() + hex_value(bytes[2]).unwrap()) as u8] + percent_decoded(bytes.skip(3))
    } else {
        seq![bytes[0]] + percent_decoded(bytes.skip(1))
    }
}

/// What percent encoding stands for; nothing where that is no UTF-8.
pub open spec fn url_decoded(text: Seq<char>) -> Option<Seq<char>> {
    let bytes = percent_decoded(vstd::utf8::encode_utf8(text));
    if vstd::utf8::valid_utf8(bytes) {
        Some(vstd::utf8::decode_utf8(bytes))
    } else {
        None
    }
}

/// Percent encoding in bytes.
spec fn encoded_bytes(bytes: Seq<u8>) -> Seq<u8> {
    percent_encoded(bytes).map_values(|c: char| c as u8)
}

proof fn lemma_encoded_is_ascii(bytes: Seq<u8>)
    ensures
        vstd::utf8::is_ascii_chars(percent_encoded(bytes)),
    decreases bytes.len(),
{
    if bytes.len() > 0 {
        lemma_encoded_is_ascii(bytes.skip(1));
        let rest = percent_encoded(bytes.skip(1));
        let b = bytes[0];
        let head = if is_unreserved(b) {
            seq![b as char]
        } else {
            seq!['%', capital_digit(b as int / 16), capital_digit(b as int % 16)]
        };
        assert(forall|i: int| 0 <= i < head.len() ==> '\0' <= #[trigger] head[i] <= '\u{7f}');
        assert forall|i: int| 0 <= i < (head + rest).len() implies '\0' <= #[trigger] (head + rest)[i] <= '\u{7f}' by {
            if i < head.len() {
                assert((head + rest)[i] == head[i]);
            } else {
                assert((head + rest)[i] == rest[i - head.len()]);
            }
        }
    }
}

proof fn lemma_bytes_decoded(bytes: Seq<u8>)
    ensures
        percent_decoded(encoded_bytes(bytes)) == bytes,
    decreases bytes.len(),
{
    let all = encoded_bytes(bytes);
    if bytes.len() == 0 {
        assert(all =~= Seq::empty());
        assert(bytes =~= Seq::empty());
    } else {
        let rest = encoded_bytes(bytes.skip(1));
        let b = bytes[0];
        lemma_bytes_decoded(bytes.skip(1));
        if is_unreserved(b) {
            assert(all =~= seq![(b as char) as u8] + rest);
            assert(all[0] == b);
            assert(all.skip(1) =~= rest);
        } else {
            let h = capital_digit(b as int / 16) as u8;
            let l = capital_digit(b as int % 16) as u8;
            assert(all =~= seq![0x25u8, h, l] + rest);
            assert(hex_value(h) == Some(b as int / 16));
            assert(hex_value(l) == Some(b as int % 16));
            assert(all.skip(3) =~= rest);
        }
        assert(seq![b] + bytes.skip(1) =~= bytes);
    }
}

/// What a text is encoded to is decoded to the text.
pub proof fn encoded_text_is_decoded(text: Seq<char>)
    ensures
        url_decoded(url_encoded(text)) == Some(text),
{
    broadcast use vstd::utf8::group_utf8_lib;

    let bytes = vstd::utf8::encode_utf8(text);
    lemma_encoded_is_ascii(bytes);
    let shown = percent_encoded(bytes);
    assert(vstd::utf8::encode_utf8(shown) =~= encoded_bytes(bytes));
    lemma_bytes_decoded(bytes);
}

/// What optional bytes hold.
pub open spec fn opt_bytes(v: Option<Vec<u8>>) -> Option<Seq<u8>> {
    match v {
        Some(b) => Some(b@),
        None => None,
    }
}

/// `decode` of base64's `URL_SAFE_NO_PAD` engine.
#[verifier::external_body]
pub(crate) fn b64url_decode(text: &str) -> (r: Option<Vec<u8>>)
    ensures
        opt_bytes(r) == b64url_decoded(text@),
{
    base64::Engine::decode(&base64::engine::general_purpose::URL_SAFE_NO_PAD, text).ok()
}

/// `encode` of base64's `URL_SAFE_NO_PAD` engine.
#[verifier::external_body]
pub(crate) fn b64url_encode(bytes: &[u8]) -> (r: String)
    ensures
        r@ == b64url_encoded(bytes@),
{
    base64::Engine::encode(&base64::engine::general_purpose::URL_SAFE_NO_PAD, bytes)
}

/// `decode` of base64's `STANDARD` engine, with the error printed.
#[verifier::external_body]
pub(crate) fn b64_decode(text: &str) -> (r: Result<Vec<u8>, String>)
    ensures
        match (r, b64_decoded(text@)) {
            (Ok(b), Ok(s)) => b@ == s,
            (Err(e), Err(m)) => e@ == m,
            _ => false,
        },
{
    base64::Engine::decode(&base64::engine::general_purpose::STANDARD, text).map_err(|e| e.to_string())
}

/// `sha2::Sha256::digest`.
#[verifier::external_body]
pub(crate) fn sha256(bytes: &[u8]) -> (r: Vec<u8>)
    ensures
        r@ == sha256_of(bytes@),
        r@.len() == 32,
{
    <sha2::Sha256 as sha2::Digest>::digest(bytes).to_vec()
}

/// `urlencoding::encode`: percent encoding of every byte of the text that does not stand for itself.
#[verifier::external_body]
pub(crate) fn url_encode(text: &str) -> (r: String)
    ensures
        r@ == url_encoded(text@),
{
    urlencoding::encode(text).into_owned()
}

/// `urlencoding::decode`: a percent sign that two digits do not follow is left as it is, and so is a
/// plus sign; it fails where the bytes that come out are no UTF-8.
#[verifier::external_body]
pub(crate) fn url_decode(text: &str) -> (r: Option<String>)
    ensures
        text::opt_text(r) == url_decoded(text@),
{
    urlencoding::decode(text).ok().map(|t| t.into_owned())
}

/// Letters, digits and the four marks that need no escape are written as they are, each other byte as a
/// percent sign and two capital hexadecimal digits.
pub proof fn bytes_are_escaped_one_by_one(a: Seq<u8>, b: Seq<u8>, x: u8)
    ensures
        percent_encoded(a + b) == percent_encoded(a) + percent_encoded(b),
        ('0' as u8 <= x <= '9' as u8) || ('A' as u8 <= x <= 'Z' as u8) || ('a' as u8 <= x <= 'z' as u8) || x == '-' as u8
            || x == '.' as u8 || x == '_' as u8 || x == '~' as u8 ==> percent_encoded(seq![x]) == seq![x as char],
        !(('0' as u8 <= x <= '9' as u8) || ('A' as u8 <= x <= 'Z' as u8) || ('a' as u8 <= x <= 'z' as u8) || x
            == '-' as u8 || x == '.' as u8 || x == '_' as u8 || x == '~' as u8) ==> percent_encoded(seq![x]) == seq![
            '%',
            "0123456789ABCDEF"@[x as int / 16],
            "0123456789ABCDEF"@[x as int % 16],
        ],
    decreases a.len(),
{
    reveal_with_fuel(percent_encoded, 2);
    reveal_strlit("0123456789ABCDEF");
    assert(seq![x].skip(1) =~= Seq::<u8>::empty());
    let h = x as int / 16;
    let l = x as int % 16;
    assert(0 <= h < 16 && 0 <= l < 16);
    assert(capital_digit(h) == "0123456789ABCDEF"@[h]);
    assert(capital_digit(l) == "0123456789ABCDEF"@[l]);
    if is_unreserved(x) {
        assert(percent_encoded(seq![x]) =~= seq![x as char]);
    } else {
        assert(percent_encoded(seq![x]) =~= seq!['%', capital_digit(h), capital_digit(l)]);
    }
    if a.len() == 0 {
        assert(a + b =~= b);
        assert(percent_encoded(a) + percent_encoded(b) =~= percent_encoded(b));
    } else {
        bytes_are_escaped_one_by_one(a.skip(1), b, x);
        assert((a + b).skip(1) =~= a.skip(1) + b);
        assert((a + b)[0] == a[0]);
        assert(percent_encoded(a + b) =~= percent_encoded(a) + percent_encoded(b));
    }
}

/// Escapes are read back byte by byte, whichever letters their digits are written in; anything else stands
/// for itself.
pub proof fn escapes_are_read_byte_by_byte(h: u8, l: u8, x: u8, rest: Seq<u8>)
    ensures
        hex_value(h) is Some && hex_value(l) is Some ==> percent_decoded(seq![0x25u8, h, l] + rest) == seq![
            (16 * hex_value(h)->Some_0 + hex_value(l)->Some_0) as u8,
        ] + percent_decoded(rest),
        x != 0x25 ==> percent_decoded(seq![x] + rest) == seq![x] + percent_decoded(rest),
        0x30 <= x <= 0x39 ==> hex_value(x) == Some(x - 0x30),
        0x41 <= x <= 0x46 ==> hex_value(x) == Some(x - 0x41 + 10),
        0x61 <= x <= 0x66 ==> hex_value(x) == Some(x - 0x61 + 10),
        !(0x30 <= x <= 0x39 || 0x41 <= x <= 0x46 || 0x61 <= x <= 0x66) ==> hex_value(x) is None,
        percent_decoded(Seq::empty()).len() == 0,
{
    let a = seq![0x25u8, h, l] + rest;
    let b = seq![x] + rest;
    assert(a[0] == 0x25u8 && a[1] == h && a[2] == l);
    assert(a.skip(3) =~= rest);
    assert(b[0] == x);
    assert(b.skip(1) =~= rest);
}

} // verus!
