//! Log lines and blocks of the proxy: masking of credentials, summaries, dumps, rolling files.
use vstd::prelude::*;
use crate::{digits, json, text};
use crate::device_proxy::headers;
use crate::device_proxy::headers::find_header;
use crate::digits::number;
use crate::json::{read_json, Json, JsonV, NumV};
use crate::text::{
    bytes_text, chars_of, contains, find_chars, join, one_of, same, same_ignoring_case, split, strip_prefix,
    take_bytes, take_chars, text_of, to_smalls, trim,
};

verus! {

broadcast use vstd::string::group_string_axioms;

/// The headers whose values are masked, in small letters.
pub open spec fn sensitive_names() -> Seq<Seq<char>> {
    seq![
        "authorization"@,
        "cookie"@,
        "set-cookie"@,
        "x-api-key"@,
        "proxy-authorization"@,
        "x-cloudide-token"@,
        "x-icube-token"@,
        "x-auth-token"@,
        "x-session-token"@,
    ]
}

fn sensitive_headers() -> (r: Vec<&'static str>)
    ensures
        text::strs(r@) == sensitive_names(),
{
    let r = vec![
        "authorization",
        "cookie",
        "set-cookie",
        "x-api-key",
        "proxy-authorization",
        "x-cloudide-token",
        "x-icube-token",
        "x-auth-token",
        "x-session-token",
    ];
    assert(text::strs(r@) =~= sensitive_names());
    r
}

/// What is left of a header's value in a log: of a credential's value at most its ends.
pub open spec fn masked_header(name: Seq<char>, value: Seq<char>) -> Seq<char> {
    if !sensitive_names().contains(text::smalls(name)) {
        value
    } else if value.len() > 16 {
        value.take(8) + "…"@ + value.skip(value.len() - 4)
    } else {
        "***"@
    }
}

/// What is left of a header's value in a log.
pub fn mask_header_value(name: &str, value: &str) -> (r: String)
    ensures
        r@ == masked_header(name@, value@),
{
    let low = to_smalls(name);
    if one_of(low.as_str(), &sensitive_headers()) {
        let v = chars_of(value);
        let n: usize = v.len();
        if n > 16 {
            let mut r = text_of(&v[0..8]);
            let tail = text_of(&v[n - 4..n]);
            r.append("…");
            r.append(tail.as_str());
            assert(value@.subrange(0, 8) =~= value@.take(8));
            assert(tail@ =~= value@.skip(n - 4));
            r
        } else {
            "***".to_owned()
        }
    } else {
        value.to_owned()
    }
}

/// The pattern of a credential's key and value in a body: the key with its separator is the first
/// group.
pub const BODY_MASK: &'static str = "(?i)((?:\"(?:access_token|refresh_token|id_token|session_token|sessionid|sid_guard|ttwid|jwt|api_key|apikey|secret|client_secret|token|authorization|password|pass_token)\"|\\b(?:access_token|refresh_token|id_token|session_token|sessionid|sid_guard|ttwid|jwt|api_key|apikey|client_secret|token|authorization|password|pass_token)\\b)\\s*[=:]\\s*)(\"[^\"]*\"|'[^']*'|[^,;&\\s}]+)";

/// What stands for a credential's pair: the key as it was, and three stars.
pub const BODY_STARS: &'static str = "$1\"***\"";

/// The name for what `Regex::replace_all` returns: the text with each match of the pattern
/// replaced.
pub uninterp spec fn regex_replaced(pattern: Seq<char>, text: Seq<char>, with: Seq<char>) -> Seq<char>;

/// `regex::Regex::new` on the pattern and `replace_all` on the text. The pattern is one that
/// compiles; the result is a function of the three texts.
#[verifier::external_body]
fn regex_replace_all(pattern: &str, text: &str, with: &str) -> (r: String)
    requires
        pattern@ == BODY_MASK@,
    ensures
        r@ == regex_replaced(pattern@, text@, with@),
{
    regex::Regex::new(pattern).expect("body mask").replace_all(text, with).to_string()
}

/// A body with the values of its credentials starred out.
pub open spec fn masked_body(text: Seq<char>) -> Seq<char> {
    regex_replaced(BODY_MASK@, text, BODY_STARS@)
}

/// A body with the values of its credentials starred out.
pub fn mask_body(text: &str) -> (r: String)
    ensures
        r@ == masked_body(text@),
{
    regex_replace_all(BODY_MASK, text, BODY_STARS)
}

/// The name for what `flate2::read::MultiGzDecoder` reads out of bytes; nothing where it fails.
pub uninterp spec fn gunzipped(body: Seq<u8>) -> Option<Seq<u8>>;

/// The name for what `flate2::read::ZlibDecoder` reads out of bytes; nothing where it fails.
pub uninterp spec fn unzlibbed(body: Seq<u8>) -> Option<Seq<u8>>;

/// The name for what `flate2::read::DeflateDecoder` reads out of bytes; nothing where it fails.
pub uninterp spec fn inflated(body: Seq<u8>) -> Option<Seq<u8>>;

/// What optional bytes hold.
pub open spec fn opt_bytes(v: Option<Vec<u8>>) -> Option<Seq<u8>> {
    match v {
        Some(b) => Some(b@),
        None => None,
    }
}

/// `flate2::read::MultiGzDecoder` read to its end.
#[verifier::external_body]
fn gunzip(body: &[u8]) -> (r: Option<Vec<u8>>)
    ensures
        opt_bytes(r) == gunzipped(body@),
{
    let mut out = Vec::new();
    match std::io::Read::read_to_end(&mut flate2::read::MultiGzDecoder::new(body), &mut out) {
        Ok(_) => Some(out),
        Err(_) => None,
    }
}

/// `flate2::read::ZlibDecoder` read to its end.
#[verifier::external_body]
fn unzlib(body: &[u8]) -> (r: Option<Vec<u8>>)
    ensures
        opt_bytes(r) == unzlibbed(body@),
{
    let mut out = Vec::new();
    match std::io::Read::read_to_end(&mut flate2::read::ZlibDecoder::new(body), &mut out) {
        Ok(_) => Some(out),
        Err(_) => None,
    }
}

/// `flate2::read::DeflateDecoder` read to its end.
#[verifier::external_body]
fn inflate(body: &[u8]) -> (r: Option<Vec<u8>>)
    ensures
        opt_bytes(r) == inflated(body@),
{
    let mut out = Vec::new();
    match std::io::Read::read_to_end(&mut flate2::read::DeflateDecoder::new(body), &mut out) {
        Ok(_) => Some(out),
        Err(_) => None,
    }
}

/// How a body is encoded, as far as it can be undone.
pub enum Encoding {
    Gzip,
    Deflate,
    Other,
}

/// The encoding that the response headers name.
pub open spec fn encoding_of(headers: Seq<(Seq<char>, Seq<char>)>) -> Encoding {
    match headers::header(headers, "content-encoding"@) {
        Some(v) => {
            let name = text::smalls(text::trimmed(v));
            if name == "gzip"@ {
                Encoding::Gzip
            } else if name == "deflate"@ {
                Encoding::Deflate
            } else {
                Encoding::Other
            }
        },
        None => Encoding::Other,
    }
}

/// A body with its encoding undone: what does not decode stays as it is, and deflate is tried in
/// its zlib wrapping first.
pub open spec fn decompressed(
    encoding: Encoding,
    body: Seq<u8>,
    gunzipped: Option<Seq<u8>>,
    unzlibbed: Option<Seq<u8>>,
    inflated: Option<Seq<u8>>,
) -> Seq<u8> {
    match encoding {
        Encoding::Gzip => match gunzipped {
            Some(b) => b,
            None => body,
        },
        Encoding::Deflate => match (unzlibbed, inflated) {
            (Some(b), _) => b,
            (None, Some(b)) => b,
            (None, None) => body,
        },
        Encoding::Other => body,
    }
}

/// The encoding that the response headers name.
pub fn response_encoding(headers: &Vec<(String, String)>) -> (r: Encoding)
    ensures
        r == encoding_of(headers::pairs(headers@)),
{
    match find_header(headers, "content-encoding") {
        Some(v) => {
            let name = to_smalls(trim(v).as_str());
            if same(name.as_str(), "gzip") {
                Encoding::Gzip
            } else if same(name.as_str(), "deflate") {
                Encoding::Deflate
            } else {
                Encoding::Other
            }
        },
        None => Encoding::Other,
    }
}

/// The body that stands in the log for a response body.
pub open spec fn plain_body(body: Seq<u8>, headers: Seq<(Seq<char>, Seq<char>)>) -> Seq<u8> {
    decompressed(encoding_of(headers), body, gunzipped(body), unzlibbed(body), inflated(body))
}

/// A response body with its encoding undone.
pub fn decompress_body(body: &[u8], headers: &Vec<(String, String)>) -> (r: Vec<u8>)
    ensures
        r@ == plain_body(body@, headers::pairs(headers@)),
{
    match response_encoding(headers) {
        Encoding::Gzip => match gunzip(body) {
            Some(b) => b,
            None => vstd::slice::slice_to_vec(body),
        },
        Encoding::Deflate => match unzlib(body) {
            Some(b) => b,
            None => match inflate(body) {
                Some(b) => b,
                None => vstd::slice::slice_to_vec(body),
            },
        },
        Encoding::Other => vstd::slice::slice_to_vec(body),
    }
}

/// The user id behind the key's first place in a line: digits alone, up to the first character
/// that is neither a digit nor an underscore.
pub open spec fn uid_after(line: Seq<char>, key: Seq<char>) -> Option<Seq<char>> {
    match text::find_from(line, key, 0) {
        Some(i) => {
            let run = id_run(line.skip(i + key.len()));
            if run.len() > 0 && forall|k: int| 0 <= k < run.len() ==> '0' <= #[trigger] run[k] <= '9' {
                Some(run)
            } else {
                None
            }
        },
        None => None,
    }
}

/// The digits and underscores that a text starts with.
pub open spec fn id_run(s: Seq<char>) -> Seq<char>
    decreases s.len(),
{
    if s.len() > 0 && ('0' <= s[0] <= '9' || s[0] == '_') {
        seq![s[0]] + id_run(s.skip(1))
    } else {
        Seq::empty()
    }
}

/// The user id that a log line reports.
pub open spec fn uid_in(line: Seq<char>) -> Option<Seq<char>> {
    match uid_after(line, "user="@) {
        Some(u) => Some(u),
        None => uid_after(line, "user_id="@),
    }
}

fn find_uid(line: &str, key: &str) -> (r: Option<String>)
    ensures
        text::opt_text(r) == uid_after(line@, key@),
{
    let v = chars_of(line);
    let k = chars_of(key);
    proof {
        text::lemma_find_from(v@, k@, 0);
    }
    match find_chars(&v, &k, 0) {
        Some(at) => {
            let n: usize = v.len();
            let start: usize = at + k.len();
            let mut i: usize = start;
            let mut digits = true;
            let ghost tail = v@.skip(start as int);
            assert(v@.subrange(start as int, start as int) + id_run(tail) =~= id_run(tail));
            while i < n && (('0' <= v[i] && v[i] <= '9') || v[i] == '_')
                invariant
                    n == v@.len(),
                    start <= i <= n,
                    id_run(tail) == v@.subrange(start as int, i as int) + id_run(v@.skip(i as int)),
                    digits == forall|j: int|
                        0 <= j < i - start ==> '0' <= #[trigger] v@.subrange(start as int, i as int)[j] <= '9',
                decreases n - i,
            {
                let ghost rest = v@.skip(i as int);
                let ghost run = v@.subrange(start as int, i as int);
                let ghost next = v@.subrange(start as int, i + 1);
                assert(rest.skip(1) =~= v@.skip(i + 1));
                assert(next =~= run + seq![rest[0]]);
                assert(next + id_run(rest.skip(1)) =~= run + (seq![rest[0]] + id_run(rest.skip(1))));
                assert(next[i - start] == v@[i as int]);
                proof {
                    if digits {
                        assert forall|j: int| 0 <= j < i - start implies '0' <= #[trigger] next[j] <= '9' by {
                            assert(run[j] == next[j]);
                        }
                    } else {
                        let j = choose|j: int| 0 <= j < i - start && !('0' <= #[trigger] run[j] <= '9');
                        assert(next[j] == run[j]);
                    }
                }
                if v[i] == '_' {
                    digits = false;
                }
                i += 1;
            }
            let run = text_of(&v[start..i]);
            assert(id_run(v@.skip(i as int)) =~= Seq::<char>::empty());
            assert(run@ =~= id_run(tail));
            if i > start && digits {
                Some(run)
            } else {
                None
            }
        },
        None => None,
    }
}

/// The user id that a log line reports.
pub fn extract_uid(line: &str) -> (r: Option<String>)
    ensures
        text::opt_text(r) == uid_in(line@),
{
    match find_uid(line, "user=") {
        Some(u) => Some(u),
        None => find_uid(line, "user_id="),
    }
}

/// What has been gathered of an event stream: the event at hand, the summary, the output events.
pub struct SseV {
    pub event: Seq<char>,
    pub summary: Seq<(Seq<char>, Seq<char>)>,
    pub outputs: int,
}

/// The pairs with `key` set to `val`: in its place where it is there, else at the end.
pub open spec fn with_pair(
    pairs: Seq<(Seq<char>, Seq<char>)>,
    key: Seq<char>,
    val: Seq<char>,
) -> Seq<(Seq<char>, Seq<char>)>
    decreases pairs.len(),
{
    if pairs.len() == 0 {
        seq![(key, val)]
    } else if pairs[0].0 == key {
        seq![(key, val)] + pairs.skip(1)
    } else {
        seq![pairs[0]] + with_pair(pairs.skip(1), key, val)
    }
}

/// The pairs with `key` set, where there is a value for it.
pub open spec fn with_some(
    pairs: Seq<(Seq<char>, Seq<char>)>,
    key: Seq<char>,
    val: Option<Seq<char>>,
) -> Seq<(Seq<char>, Seq<char>)> {
    match val {
        Some(v) => with_pair(pairs, key, v),
        None => pairs,
    }
}

/// A whole number of a field, in decimal.
pub open spec fn count_at(data: JsonV, key: Seq<char>) -> Option<Seq<char>> {
    match data.int_at(key) {
        Some(n) => Some(digits::decimal(n)),
        None => None,
    }
}

/// The model that an event names.
pub open spec fn model_in(data: JsonV) -> Option<Seq<char>> {
    match data.get("model"@) {
        Some(v) => v.text(),
        None => data.text_at("model_name"@),
    }
}

/// The session that an event names, cut short.
pub open spec fn session_in(data: JsonV) -> Option<Seq<char>> {
    match data.text_at("session_id"@) {
        Some(s) => Some(text::head_chars(s, 16) + "..."@),
        None => None,
    }
}

/// What is gathered after the data of the event at hand.
pub open spec fn sse_data(st: SseV, data: JsonV) -> SseV {
    if st.event == "metadata"@ {
        SseV {
            summary: with_some(with_some(st.summary, "model"@, model_in(data)), "session_id"@, session_in(data)),
            ..st
        }
    } else if st.event == "output"@ {
        SseV { outputs: st.outputs + 1, ..st }
    } else if st.event == "token_usage"@ {
        let a = with_some(st.summary, "prompt_tokens"@, count_at(data, "prompt_tokens"@));
        let b = with_some(a, "completion_tokens"@, count_at(data, "completion_tokens"@));
        SseV { summary: with_some(b, "total_tokens"@, count_at(data, "total_tokens"@)), ..st }
    } else if st.event == "done"@ {
        SseV { summary: with_some(st.summary, "finish_reason"@, data.text_at("finish_reason"@)), ..st }
    } else {
        st
    }
}

/// What a line of an event stream says.
pub enum SseLineV {
    Event(Seq<char>),
    Data(Seq<char>),
    Other,
}

/// What a line of an event stream says. Empty data says nothing.
pub open spec fn sse_line(raw: Seq<char>) -> SseLineV {
    let line = text::trimmed(raw);
    match (text::stripped(line, "event:"@), text::stripped(line, "data:"@)) {
        (Some(ev), _) => SseLineV::Event(text::trimmed(ev)),
        (None, Some(d)) => if text::trimmed(d).len() == 0 {
            SseLineV::Other
        } else {
            SseLineV::Data(text::trimmed(d))
        },
        (None, None) => SseLineV::Other,
    }
}

/// What is gathered after a line. Data that is no JSON is passed over.
pub open spec fn sse_step(st: SseV, raw: Seq<char>) -> SseV {
    match sse_line(raw) {
        SseLineV::Event(ev) => SseV { event: ev, ..st },
        SseLineV::Data(d) => match json::json_read(d) {
            Ok(data) => sse_data(st, data),
            Err(_) => st,
        },
        SseLineV::Other => st,
    }
}

/// What is gathered after all the lines.
pub open spec fn sse_run(st: SseV, lines: Seq<Seq<char>>) -> SseV
    decreases lines.len(),
{
    if lines.len() == 0 {
        st
    } else {
        sse_run(sse_step(st, lines[0]), lines.skip(1))
    }
}

/// The summary of an event stream's text.
pub open spec fn sse_summary(text: Seq<char>) -> Seq<(Seq<char>, Seq<char>)> {
    let start = SseV { event: Seq::empty(), summary: Seq::empty(), outputs: 0 };
    let end = sse_run(start, text::split_on(text, '\n'));
    if end.outputs > 0 {
        with_pair(end.summary, "output_chunks"@, digits::decimal(end.outputs))
    } else {
        end.summary
    }
}

/// Whether a header says that the body is an event stream.
pub open spec fn says_event_stream(h: (Seq<char>, Seq<char>)) -> bool {
    headers::same_name(h.0, "content-type"@) && text::has_text(
        text::smalls(h.1),
        "event-stream"@,
    )
}

/// What has been gathered of an event stream.
pub struct Sse {
    pub event: String,
    pub summary: Vec<(String, String)>,
    pub outputs: usize,
}

impl View for Sse {
    type V = SseV;

    open spec fn view(&self) -> SseV {
        SseV {
            event: self.event@,
            summary: headers::pairs(self.summary@),
            outputs: self.outputs as int,
        }
    }
}

/// Sets a pair.
pub fn put_pair(list: &mut Vec<(String, String)>, key: &str, val: String)
    ensures
        headers::pairs(final(list)@) == with_pair(
            headers::pairs(old(list)@),
            key@,
            val@,
        ),
{
    let ghost start = headers::pairs(list@);
    let mut i: usize = 0;
    assert(start.skip(0) =~= start);
    assert(start.take(0) + with_pair(start, key@, val@) =~= with_pair(start, key@, val@));
    while i < list.len()
        invariant
            i <= list@.len(),
            list@ == old(list)@,
            start == headers::pairs(list@),
            with_pair(start, key@, val@) == start.take(i as int) + with_pair(start.skip(i as int), key@, val@),
        decreases list@.len() - i,
    {
        let ghost rest = start.skip(i as int);
        assert(rest[0] == (list@[i as int].0@, list@[i as int].1@));
        if same(list[i].0.as_str(), key) {
            let entry = (key.to_owned(), val);
            list.set(i, entry);
            assert(headers::pairs(list@) =~= start.take(i as int) + with_pair(rest, key@, val@));
            return;
        }
        assert(rest.skip(1) =~= start.skip(i + 1));
        assert(start.take(i as int) + with_pair(rest, key@, val@) =~= start.take(i + 1) + with_pair(
            start.skip(i + 1),
            key@,
            val@,
        ));
        i += 1;
    }
    let entry = (key.to_owned(), val);
    list.push(entry);
    assert(headers::pairs(list@) =~= start.take(i as int) + with_pair(
        start.skip(i as int),
        key@,
        val@,
    ));
}

fn put_count(list: &mut Vec<(String, String)>, key: &str, data: &Json)
    ensures
        headers::pairs(final(list)@) == with_some(
            headers::pairs(old(list)@),
            key@,
            count_at(data@, key@),
        ),
{
    if let Some(n) = data.i64_at(key) {
        put_pair(list, key, digits::signed_number(n));
    }
}

impl Sse {
    /// Takes in the data of the event at hand.
    pub fn take_data(&mut self, data: &Json)
        requires
            old(self).outputs < usize::MAX,
        ensures
            final(self)@ == sse_data(old(self)@, data@),
    {
        if same(self.event.as_str(), "metadata") {
            let model = match data.get("model") {
                Some(v) => v.as_str(),
                None => data.str_at("model_name"),
            };
            if let Some(m) = model {
                put_pair(&mut self.summary, "model", m.to_owned());
            }
            if let Some(sid) = data.str_at("session_id") {
                let mut t = take_chars(sid, 16);
                t.append("...");
                put_pair(&mut self.summary, "session_id", t);
            }
        } else if same(self.event.as_str(), "output") {
            self.outputs = self.outputs + 1;
        } else if same(self.event.as_str(), "token_usage") {
            put_count(&mut self.summary, "prompt_tokens", data);
            put_count(&mut self.summary, "completion_tokens", data);
            put_count(&mut self.summary, "total_tokens", data);
        } else if same(self.event.as_str(), "done") {
            if let Some(fr) = data.str_at("finish_reason") {
                put_pair(&mut self.summary, "finish_reason", fr.to_owned());
            }
        }
    }

    fn take_line(&mut self, raw: &str)
        requires
            old(self).outputs < usize::MAX,
        ensures
            final(self)@ == sse_step(old(self)@, raw@),
    {
        let line = trim(raw);
        if let Some(ev) = strip_prefix(line.as_str(), "event:") {
            self.event = trim(ev.as_str());
        } else if let Some(d) = strip_prefix(line.as_str(), "data:") {
            let d = trim(d.as_str());
            if d.as_str().unicode_len() > 0 {
                if let Ok(data) = read_json(d.as_str()) {
                    self.take_data(&data);
                }
            }
        }
    }
}

proof fn lemma_step_outputs(st: SseV, raw: Seq<char>)
    ensures
        st.outputs <= sse_step(st, raw).outputs <= st.outputs + 1,
{
}

/// Whether the headers say that the body is an event stream.
pub fn is_event_stream(headers: &Vec<(String, String)>) -> (r: bool)
    ensures
        r == exists|i: int|
            0 <= i < headers@.len() && says_event_stream(
                #[trigger] headers::pairs(headers@)[i],
            ),
{
    let mut i: usize = 0;
    while i < headers.len()
        invariant
            i <= headers@.len(),
            forall|j: int|
                0 <= j < i ==> !says_event_stream(#[trigger] headers::pairs(headers@)[j]),
        decreases headers@.len() - i,
    {
        let ghost h = headers::pairs(headers@)[i as int];
        if same_ignoring_case(headers[i].0.as_str(), "content-type") && contains(
            to_smalls(headers[i].1.as_str()).as_str(),
            "event-stream",
        ) {
            assert(says_event_stream(h));
            return true;
        }
        assert(!says_event_stream(h));
        i += 1;
    }
    false
}

/// The model, token counts and the like of an event stream's response, where there are any.
pub fn extract_sse_summary(headers: &Vec<(String, String)>, body: &[u8]) -> (r: Option<Vec<(String, String)>>)
    ensures
        ({
            let h = headers::pairs(headers@);
            let summary = sse_summary(text::bytes_shown(body@));
            let sse = exists|i: int| 0 <= i < h.len() && says_event_stream(#[trigger] h[i]);
            match r {
                Some(v) => sse && body@.len() > 0 && summary.len() > 0 && headers::pairs(v@)
                    == summary,
                None => !sse || body@.len() == 0 || summary.len() == 0,
            }
        }),
{
    if !is_event_stream(headers) || body.len() == 0 {
        return None;
    }
    let text = bytes_text(body);
    let lines = split(text.as_str(), '\n');
    let mut st = Sse { event: String::new(), summary: Vec::new(), outputs: 0 };
    let ghost all = text::texts(lines@);
    let ghost start = SseV { event: Seq::empty(), summary: Seq::empty(), outputs: 0 };
    assert(all.skip(0) =~= all);
    assert(st@.summary =~= Seq::empty());
    assert(st@.event =~= Seq::empty());
    let mut i: usize = 0;
    while i < lines.len()
        invariant
            i <= lines@.len(),
            st.outputs <= i,
            all == text::texts(lines@),
            sse_run(start, all) == sse_run(st@, all.skip(i as int)),
        decreases lines@.len() - i,
    {
        proof {
            lemma_step_outputs(st@, lines@[i as int]@);
            assert(all.skip(i as int).skip(1) =~= all.skip(i + 1));
            assert(all.skip(i as int)[0] == lines@[i as int]@);
        }
        st.take_line(lines[i].as_str());
        i += 1;
    }
    if st.outputs > 0 {
        put_pair(&mut st.summary, "output_chunks", number(st.outputs as u64));
    }
    if st.summary.len() > 0 {
        Some(st.summary)
    } else {
        None
    }
}

/// The header lines of a log block.
pub open spec fn header_lines(h: Seq<(Seq<char>, Seq<char>)>) -> Seq<char>
    decreases h.len(),
{
    if h.len() == 0 {
        Seq::empty()
    } else {
        header_lines(h.drop_last()) + "  "@ + h.last().0 + ": "@ + masked_header(h.last().0, h.last().1) + "\n"@
    }
}

/// The lines of a summary in a log block.
pub open spec fn summary_lines(h: Seq<(Seq<char>, Seq<char>)>) -> Seq<char>
    decreases h.len(),
{
    if h.len() == 0 {
        Seq::empty()
    } else {
        summary_lines(h.drop_last()) + "  "@ + h.last().0 + ": "@ + h.last().1 + "\n"@
    }
}

/// The line that opens a block: a rule, the time, and what the block is about.
pub open spec fn block_head(time: Seq<char>, subject: Seq<char>) -> Seq<char> {
    "\n================================================================================\n["@ + time + "] "@ + subject
        + "\n--- Request Headers ---\n"@
}

fn append_headers(out: &mut String, h: &Vec<(String, String)>)
    ensures
        final(out)@ == old(out)@ + header_lines(headers::pairs(h@)),
{
    let ghost all = headers::pairs(h@);
    let ghost before = out@;
    assert(all.take(0) =~= Seq::empty());
    assert(before =~= before + header_lines(all.take(0)));
    let mut i: usize = 0;
    while i < h.len()
        invariant
            i <= h@.len(),
            all == headers::pairs(h@),
            out@ == before + header_lines(all.take(i as int)),
        decreases h@.len() - i,
    {
        proof {
            assert(all.take(i + 1).drop_last() =~= all.take(i as int));
            assert(all.take(i + 1).last() == (h@[i as int].0@, h@[i as int].1@));
        }
        let v = mask_header_value(h[i].0.as_str(), h[i].1.as_str());
        out.append("  ");
        out.append(h[i].0.as_str());
        out.append(": ");
        out.append(v.as_str());
        out.append("\n");
        i += 1;
        assert(out@ =~= before + header_lines(all.take(i as int)));
    }
    assert(all.take(all.len() as int) =~= all);
}

fn append_summary(out: &mut String, h: &Vec<(String, String)>)
    ensures
        final(out)@ == old(out)@ + summary_lines(headers::pairs(h@)),
{
    let ghost all = headers::pairs(h@);
    let ghost before = out@;
    assert(all.take(0) =~= Seq::empty());
    assert(before =~= before + summary_lines(all.take(0)));
    let mut i: usize = 0;
    while i < h.len()
        invariant
            i <= h@.len(),
            all == headers::pairs(h@),
            out@ == before + summary_lines(all.take(i as int)),
        decreases h@.len() - i,
    {
        proof {
            assert(all.take(i + 1).drop_last() =~= all.take(i as int));
            assert(all.take(i + 1).last() == (h@[i as int].0@, h@[i as int].1@));
        }
        out.append("  ");
        out.append(h[i].0.as_str());
        out.append(": ");
        out.append(h[i].1.as_str());
        out.append("\n");
        i += 1;
        assert(out@ =~= before + summary_lines(all.take(i as int)));
    }
    assert(all.take(all.len() as int) =~= all);
}

/// The part of a block that shows the request's body.
pub open spec fn request_body_part(body: Seq<u8>) -> Seq<char> {
    if body.len() == 0 {
        Seq::empty()
    } else {
        "--- Request Body ("@ + digits::decimal(body.len() as int) + " bytes) ---\n"@ + masked_body(
            text::bytes_shown(text::head_bytes(body, 4096)),
        ) + "\n"@
    }
}

/// The part of a block that shows the response's body.
pub open spec fn response_body_part(body: Seq<u8>, plain: Seq<u8>) -> Seq<char> {
    if body.len() == 0 {
        Seq::empty()
    } else {
        "--- Response Body ("@ + digits::decimal(body.len() as int) + " bytes, decompressed "@
            + digits::decimal(plain.len() as int) + " bytes) ---\n"@ + masked_body(
            text::bytes_shown(text::head_bytes(plain, 8192)),
        ) + "\n"@
    }
}

/// The part of a block that sums an event stream up.
pub open spec fn summary_part(headers: Seq<(Seq<char>, Seq<char>)>, body: Seq<u8>) -> Seq<char> {
    let sse = exists|i: int| 0 <= i < headers.len() && says_event_stream(#[trigger] headers[i]);
    let summary = sse_summary(text::bytes_shown(body));
    if sse && body.len() > 0 && summary.len() > 0 {
        "--- SSE Summary ---\n"@ + summary_lines(summary)
    } else {
        Seq::empty()
    }
}

/// One exchange, as it is logged.
pub struct Exchange {
    pub method: String,
    pub host: String,
    pub path: String,
    pub req_headers: Vec<(String, String)>,
    pub req_body: Vec<u8>,
    pub status: u16,
    pub reason: String,
    pub resp_headers: Vec<(String, String)>,
    pub resp_body: Vec<u8>,
}

/// The block of one exchange. Every header value goes through the mask, and so does every body.
pub open spec fn exchange_block(time: Seq<char>, x: Exchange) -> Seq<char> {
    let rh = headers::pairs(x.resp_headers@);
    block_head(time, x.method@ + " "@ + x.host@ + x.path@) + header_lines(
        headers::pairs(x.req_headers@),
    ) + request_body_part(x.req_body@) + "--- Response: "@ + digits::decimal(x.status as int) + " "@ + x.reason@
        + " ---\n"@ + header_lines(rh) + response_body_part(x.resp_body@, plain_body(x.resp_body@, rh)) + summary_part(
        rh,
        x.resp_body@,
    ) + "\n"@
}

fn open_block(time: &str, subject: &str) -> (r: String)
    ensures
        r@ == block_head(time@, subject@),
{
    let mut out = "\n================================================================================\n[".to_owned();
    out.append(time);
    out.append("] ");
    out.append(subject);
    out.append("\n--- Request Headers ---\n");
    out
}

/// The block of one exchange, at the given local time.
pub fn log_request(time: &str, x: &Exchange) -> (r: String)
    ensures
        r@ == exchange_block(time@, *x),
{
    let mut subject = x.method.clone();
    subject.append(" ");
    subject.append(x.host.as_str());
    subject.append(x.path.as_str());
    let mut out = open_block(time, subject.as_str());
    append_headers(&mut out, &x.req_headers);
    let ghost s1 = out@;
    if x.req_body.len() > 0 {
        out.append("--- Request Body (");
        out.append(number(x.req_body.len() as u64).as_str());
        out.append(" bytes) ---\n");
        let head = take_bytes(x.req_body.as_slice(), 4096);
        out.append(mask_body(bytes_text(head.as_slice()).as_str()).as_str());
        out.append("\n");
    }
    assert(out@ =~= s1 + request_body_part(x.req_body@));
    out.append("--- Response: ");
    out.append(number(x.status as u64).as_str());
    out.append(" ");
    out.append(x.reason.as_str());
    out.append(" ---\n");
    append_headers(&mut out, &x.resp_headers);
    let ghost s2 = out@;
    let ghost rh = headers::pairs(x.resp_headers@);
    if x.resp_body.len() > 0 {
        let plain = decompress_body(x.resp_body.as_slice(), &x.resp_headers);
        out.append("--- Response Body (");
        out.append(number(x.resp_body.len() as u64).as_str());
        out.append(" bytes, decompressed ");
        out.append(number(plain.len() as u64).as_str());
        out.append(" bytes) ---\n");
        let head = take_bytes(plain.as_slice(), 8192);
        out.append(mask_body(bytes_text(head.as_slice()).as_str()).as_str());
        out.append("\n");
    }
    assert(out@ =~= s2 + response_body_part(x.resp_body@, plain_body(x.resp_body@, rh)));
    let ghost s3 = out@;
    if let Some(summary) = extract_sse_summary(&x.resp_headers, x.resp_body.as_slice()) {
        out.append("--- SSE Summary ---\n");
        append_summary(&mut out, &summary);
    }
    assert(out@ =~= s3 + summary_part(rh, x.resp_body@));
    out.append("\n");
    out
}

/// The block of a WebSocket upgrade.
pub open spec fn websocket_block(
    time: Seq<char>,
    host: Seq<char>,
    path: Seq<char>,
    headers: Seq<(Seq<char>, Seq<char>)>,
) -> Seq<char> {
    block_head(time, "[WebSocket Upgrade] "@ + host + path) + header_lines(headers)
        + "--- WebSocket tunnel established: 双向帧载荷将在隧道中按 SEQ 记录 ---\n\n"@
}

/// The block of a WebSocket upgrade, at the given local time.
pub fn log_websocket(time: &str, host: &str, path: &str, headers: &Vec<(String, String)>) -> (r: String)
    ensures
        r@ == websocket_block(time@, host@, path@, headers::pairs(headers@)),
{
    let mut subject = "[WebSocket Upgrade] ".to_owned();
    subject.append(host);
    subject.append(path);
    let mut out = open_block(time, subject.as_str());
    append_headers(&mut out, headers);
    out.append("--- WebSocket tunnel established: 双向帧载荷将在隧道中按 SEQ 记录 ---\n\n");
    out
}

/// The mask shows nothing of a short credential and at most its first eight and last four
/// characters of a long one: two credentials with the same ends are logged alike.
pub proof fn mask_hides_the_middle(name: Seq<char>, a: Seq<char>, b: Seq<char>)
    requires
        sensitive_names().contains(text::smalls(name)),
        (a.len() <= 16 && b.len() <= 16) || (a.len() > 16 && b.len() > 16 && a.take(8) == b.take(8) && a.skip(
            a.len() - 4,
        ) == b.skip(b.len() - 4)),
    ensures
        masked_header(name, a) == masked_header(name, b),
{
}

/// An exchange's block depends on a header's value through the mask alone: exchanges whose headers
/// are masked alike have the same header lines.
pub proof fn header_lines_show_masked_values(a: Seq<(Seq<char>, Seq<char>)>, b: Seq<(Seq<char>, Seq<char>)>)
    requires
        a.len() == b.len(),
        forall|i: int|
            0 <= i < a.len() ==> (#[trigger] a[i]).0 == b[i].0 && masked_header(a[i].0, a[i].1) == masked_header(
                b[i].0,
                b[i].1,
            ),
    ensures
        header_lines(a) == header_lines(b),
    decreases a.len(),
{
    if a.len() > 0 {
        assert forall|i: int| 0 <= i < a.drop_last().len() implies (#[trigger] a.drop_last()[i]).0 == b.drop_last()[i].0
            && masked_header(a.drop_last()[i].0, a.drop_last()[i].1) == masked_header(
            b.drop_last()[i].0,
            b.drop_last()[i].1,
        ) by {
            assert(a[i].0 == b[i].0);
        }
        header_lines_show_masked_values(a.drop_last(), b.drop_last());
        assert(a[a.len() - 1].0 == b[a.len() - 1].0);
    }
}

/// The size at which the operation log is rolled over.
pub const PROXY_LOG_MAX: u64 = 10485760;

/// A line of the operation log: whether the file is rolled over first, the stamped line, and the
/// account that the line reports.
pub struct LogLine {
    pub rotate: bool,
    pub stamped: String,
    pub captured: Option<String>,
}

/// A line of the operation log at the given local time, for a file of the given size.
pub fn log_line(time: &str, line: &str, file_size: u64) -> (r: LogLine)
    ensures
        r.rotate == (file_size >= 10 * 1024 * 1024),
        r.stamped@ == "["@ + time@ + "] "@ + line@,
        text::opt_text(r.captured) == uid_in(line@),
{
    let mut stamped = "[".to_owned();
    stamped.append(time);
    stamped.append("] ");
    stamped.append(line);
    LogLine { rotate: file_size >= PROXY_LOG_MAX, stamped, captured: extract_uid(line) }
}

/// Where the request log stands: the open file's day, number and size.
pub struct RollingState {
    pub open: bool,
    pub day: String,
    pub seq: u32,
    pub size: u64,
}

/// The largest size of a request log file.
pub const REQUEST_LOG_MAX: u64 = 104857600;

/// The name of the `seq`-th request log of a day.
pub open spec fn request_log_name(day: Seq<char>, seq: int) -> Seq<char> {
    if seq == 0 {
        "proxy_req_"@ + day + ".log"@
    } else {
        "proxy_req_"@ + day + ".log."@ + digits::decimal(seq)
    }
}

impl RollingState {
    /// Nothing open yet.
    pub fn new() -> (r: RollingState)
        ensures
            !r.open && r.day@ == Seq::<char>::empty() && r.seq == 0 && r.size == 0,
    {
        RollingState { open: false, day: String::new(), seq: 0, size: 0 }
    }

    /// Gets ready to write on a day: whether the open file serves, or one has to be opened. The
    /// numbers start again with each day.
    pub fn begin(&mut self, today: &str, max_size: u64) -> (serves: bool)
        ensures
            serves == (old(self).open && old(self).day@ == today@ && old(self).size < max_size),
            serves ==> *final(self) == *old(self),
            !serves ==> !final(self).open && final(self).day@ == today@ && final(self).size == old(self).size
                && final(self).seq == if old(self).day@ == today@ {
                old(self).seq
            } else {
                0
            },
    {
        let same_day = same(self.day.as_str(), today);
        if self.open && same_day && self.size < max_size {
            return true;
        }
        self.open = false;
        if !same_day {
            self.day = today.to_owned();
            self.seq = 0;
        }
        false
    }

    /// The name of the file to try.
    pub fn file_name(&self) -> (r: String)
        ensures
            r@ == request_log_name(self.day@, self.seq as int),
    {
        let mut r = "proxy_req_".to_owned();
        r.append(self.day.as_str());
        if self.seq == 0 {
            r.append(".log");
        } else {
            r.append(".log.");
            r.append(number(self.seq as u64).as_str());
        }
        r
    }

    /// Takes the file of the tried name where there is room in it, else goes on to the next.
    pub fn offer(&mut self, size: u64, max_size: u64) -> (taken: bool)
        requires
            old(self).seq < u32::MAX,
        ensures
            taken == (size < max_size),
            final(self).day@ == old(self).day@,
            taken ==> final(self).open && final(self).size == size && final(self).seq == old(self).seq,
            !taken ==> final(self).open == old(self).open && final(self).size == old(self).size && final(self).seq
                == old(self).seq + 1,
    {
        if size < max_size {
            self.open = true;
            self.size = size;
            true
        } else {
            self.seq = self.seq + 1;
            false
        }
    }

    /// Counts what was written.
    pub fn wrote(&mut self, bytes: u64)
        requires
            old(self).size + bytes <= u64::MAX,
        ensures
            final(self).size == old(self).size + bytes,
            final(self).open == old(self).open,
            final(self).day@ == old(self).day@,
            final(self).seq == old(self).seq,
    {
        self.size = self.size + bytes;
    }
}

/// Whether a byte is a printable ASCII character.
pub open spec fn printable(b: u8) -> bool {
    0x20 <= b <= 0x7e
}

/// A byte as two hexadecimal digits.
pub open spec fn hex2(b: u8) -> Seq<char> {
    seq![digits::digit_char(b as int / 16), digits::digit_char(b as int % 16)]
}

/// Bytes in hexadecimal, with a space between them.
pub open spec fn hex_row(b: Seq<u8>) -> Seq<char>
    decreases b.len(),
{
    if b.len() == 0 {
        Seq::empty()
    } else if b.len() == 1 {
        hex2(b[0])
    } else {
        hex_row(b.drop_last()) + " "@ + hex2(b.last())
    }
}

/// Bytes as characters, with a dot for what cannot be printed.
pub open spec fn ascii_row(b: Seq<u8>) -> Seq<char> {
    b.map_values(|x: u8| if printable(x) { x as char } else { '.' })
}

/// The text with spaces behind it up to a width.
pub open spec fn padded(s: Seq<char>, width: int) -> Seq<char>
    decreases width - s.len(),
{
    if s.len() >= width {
        s
    } else {
        padded(s.push(' '), width)
    }
}

/// The text with zeros in front of it up to a width.
pub open spec fn zero_padded(s: Seq<char>, width: int) -> Seq<char>
    decreases width - s.len(),
{
    if s.len() >= width {
        s
    } else {
        zero_padded(seq!['0'] + s, width)
    }
}

/// One line of a dump: the offset, the bytes, and the characters.
pub open spec fn dump_line(offset: int, chunk: Seq<u8>) -> Seq<char> {
    "    "@ + zero_padded(digits::in_digits(offset as nat, 16), 4) + ": "@ + padded(hex_row(chunk), 48) + "  "@
        + ascii_row(chunk)
}

/// The lines of a dump from an offset on, sixteen bytes to a line.
pub open spec fn dump_lines(data: Seq<u8>, offset: int) -> Seq<Seq<char>>
    decreases data.len() - offset,
{
    if offset < 0 || offset >= data.len() {
        Seq::empty()
    } else {
        let end = if offset + 16 < data.len() {
            offset + 16
        } else {
            data.len() as int
        };
        seq![dump_line(offset, data.subrange(offset, end))] + dump_lines(data, end)
    }
}

/// A dump of at most `max` bytes, with a last line that says how many there are in all.
pub open spec fn hexdump(data: Seq<u8>, max: int) -> Seq<char> {
    let lines = dump_lines(text::head_bytes(data, max), 0);
    let all = if data.len() > max {
        lines.push("    ... (截断，完整 "@ + digits::decimal(data.len() as int) + " bytes)"@)
    } else {
        lines
    };
    text::joined(all, "\n"@)
}

fn push_hex2(out: &mut String, b: u8)
    ensures
        final(out)@ == old(out)@ + hex2(b),
{
    let ghost before = out@;
    out.push(digits::digit_of((b / 16) as u64));
    out.push(digits::digit_of((b % 16) as u64));
    assert(out@ =~= before + hex2(b));
}

fn dump_row(offset: usize, chunk: &[u8]) -> (r: String)
    ensures
        r@ == dump_line(offset as int, chunk@),
{
    let mut hex = String::new();
    let mut asc = String::new();
    let mut i: usize = 0;
    assert(chunk@.take(0) =~= Seq::<u8>::empty());
    while i < chunk.len()
        invariant
            i <= chunk@.len(),
            hex@ == hex_row(chunk@.take(i as int)),
            asc@ == ascii_row(chunk@.take(i as int)),
        decreases chunk@.len() - i,
    {
        let b: u8 = chunk[i];
        proof {
            assert(chunk@.take(i + 1).drop_last() =~= chunk@.take(i as int));
            assert(chunk@.take(i + 1).last() == b);
        }
        if i > 0 {
            hex.append(" ");
        }
        push_hex2(&mut hex, b);
        proof {
            if i == 0 {
                assert(hex@ =~= hex2(b));
            }
        }
        if 0x20 <= b && b <= 0x7e {
            asc.push(b as char);
        } else {
            asc.push('.');
        }
        i += 1;
        assert(asc@ =~= ascii_row(chunk@.take(i as int)));
    }
    assert(chunk@.take(chunk@.len() as int) =~= chunk@);
    let ghost target = padded(hex@, 48);
    let mut n: usize = hex.as_str().unicode_len();
    while n < 48
        invariant
            n == hex@.len(),
            padded(hex@, 48) == target,
        decreases 48 - n,
    {
        hex.push(' ');
        n += 1;
    }
    let mut off = digits::digits(offset as u64, 16);
    let ghost wide = zero_padded(off@, 4);
    let mut m: usize = off.as_str().unicode_len();
    while m < 4
        invariant
            m == off@.len(),
            zero_padded(off@, 4) == wide,
        decreases 4 - m,
    {
        let mut z = "0".to_owned();
        proof {
            reveal_strlit("0");
            assert(z@ =~= seq!['0']);
        }
        z.append(off.as_str());
        off = z;
        m += 1;
    }
    let mut r = "    ".to_owned();
    r.append(off.as_str());
    r.append(": ");
    r.append(hex.as_str());
    r.append("  ");
    r.append(asc.as_str());
    r
}

/// A dump of at most `max_bytes` bytes in hexadecimal and in characters.
pub fn ws_hexdump(data: &[u8], max_bytes: usize) -> (r: String)
    ensures
        r@ == hexdump(data@, max_bytes as int),
{
    let head = take_bytes(data, max_bytes);
    let n: usize = head.len();
    let mut lines: Vec<String> = Vec::new();
    let mut at: usize = 0;
    let ghost all = dump_lines(head@, 0);
    assert(text::texts(lines@) + dump_lines(head@, 0) =~= all);
    while at < n
        invariant
            n == head@.len(),
            all == text::texts(lines@) + dump_lines(head@, at as int),
        decreases n - at,
    {
        let end: usize = if n - at > 16 { at + 16 } else { n };
        let line = dump_row(at, &head[at..end]);
        let ghost before = text::texts(lines@);
        lines.push(line);
        assert(text::texts(lines@) =~= before.push(line@));
        proof {
            assert(text::texts(lines@) + dump_lines(head@, end as int) =~= before + dump_lines(
                head@,
                at as int,
            ));
        }
        at = end;
    }
    assert(dump_lines(head@, at as int) =~= Seq::empty());
    assert(text::texts(lines@) =~= all);
    if data.len() > n {
        let mut last = "    ... (截断，完整 ".to_owned();
        last.append(number(data.len() as u64).as_str());
        last.append(" bytes)");
        let ghost before = text::texts(lines@);
        lines.push(last);
        assert(text::texts(lines@) =~= before.push(last@));
    }
    join(&lines, "\n")
}

/// The runs of printable characters in the bytes, of at least the given length, in order; `run` is
/// the one that is going on.
pub open spec fn runs(data: Seq<u8>, run: Seq<char>, min_len: int) -> Seq<Seq<char>>
    decreases data.len(),
{
    if data.len() == 0 {
        if run.len() >= min_len {
            seq![run]
        } else {
            Seq::empty()
        }
    } else if printable(data[0]) {
        runs(data.skip(1), run.push(data[0] as char), min_len)
    } else if run.len() >= min_len {
        seq![run] + runs(data.skip(1), Seq::empty(), min_len)
    } else {
        runs(data.skip(1), Seq::empty(), min_len)
    }
}

/// The first runs of at least `min_len` printable characters, at most `max_strings` of them.
pub fn ws_extract_strings(data: &[u8], min_len: usize, max_strings: usize) -> (r: Vec<String>)
    ensures
        ({
            let all = runs(data@, Seq::empty(), min_len as int);
            text::texts(r@) == if max_strings < all.len() {
                all.take(max_strings as int)
            } else {
                all
            }
        }),
{
    let mut out: Vec<String> = Vec::new();
    let mut buf: Vec<char> = Vec::new();
    let ghost all = runs(data@, Seq::empty(), min_len as int);
    assert(data@.skip(0) =~= data@);
    assert(buf@ =~= Seq::empty());
    assert(text::texts(out@) + all =~= all);
    let mut i: usize = 0;
    while i < data.len()
        invariant
            i <= data@.len(),
            all == text::texts(out@) + runs(data@.skip(i as int), buf@, min_len as int),
        decreases data@.len() - i,
    {
        let b: u8 = data[i];
        let ghost rest = data@.skip(i as int);
        let ghost done = text::texts(out@);
        assert(rest.skip(1) =~= data@.skip(i + 1));
        if 0x20 <= b && b <= 0x7e {
            buf.push(b as char);
        } else {
            if buf.len() >= min_len {
                let t = text_of(buf.as_slice());
                out.push(t);
                assert(text::texts(out@) =~= done.push(t@));
                assert(done.push(t@) + runs(data@.skip(i + 1), Seq::empty(), min_len as int) =~= done + runs(
                    rest,
                    buf@,
                    min_len as int,
                ));
            }
            buf.clear();
            assert(buf@ =~= Seq::empty());
        }
        i += 1;
    }
    let ghost done = text::texts(out@);
    if buf.len() >= min_len {
        let t = text_of(buf.as_slice());
        out.push(t);
        assert(text::texts(out@) =~= done.push(t@));
    }
    assert(text::texts(out@) =~= all);
    if max_strings < out.len() {
        out.truncate(max_strings);
        assert(text::texts(out@) =~= all.take(max_strings as int));
    }
    out
}

// ---- what holds of logs ----

/// The nine headers that carry secrets are masked, however they are written, and no other is: of a long
/// value the first eight and the last four characters are shown, of a short one none.
pub proof fn secrets_are_masked(name: Seq<char>, value: Seq<char>)
    ensures
        ({
            let n = text::smalls(name);
            let secret = n == "authorization"@ || n == "cookie"@ || n == "set-cookie"@ || n == "x-api-key"@ || n == "proxy-authorization"@ || n == "x-cloudide-token"@ || n == "x-icube-token"@ || n == "x-auth-token"@ || n == "x-session-token"@;
            &&& !secret ==> masked_header(name, value) == value
            &&& secret && value.len() <= 16 ==> masked_header(name, value) == "***"@
            &&& secret && value.len() > 16 ==> masked_header(name, value) == value.subrange(0, 8) + "…"@ + value.subrange(
                value.len() - 4,
                value.len() as int,
            )
        }),
{
    let s = sensitive_names();
    assert(s[0] == "authorization"@ && s[1] == "cookie"@ && s[2] == "set-cookie"@ && s[3] == "x-api-key"@ && s[4] == "proxy-authorization"@ && s[5] == "x-cloudide-token"@ && s[6] == "x-icube-token"@ && s[7] == "x-auth-token"@ && s[8] == "x-session-token"@);
    if value.len() > 16 {
        assert(value.take(8) =~= value.subrange(0, 8));
        assert(value.skip(value.len() - 4) =~= value.subrange(value.len() - 4, value.len() as int));
    }
}

/// The encoding of a body is the first that its headers name, however it is written.
pub proof fn encodings_are_named_by_their_header(h: Seq<(Seq<char>, Seq<char>)>, v: Seq<char>)
    ensures
        headers::header(h, "content-encoding"@) is None ==> encoding_of(h) is Other,
        headers::header(h, "content-encoding"@) == Some(v) ==> {
            &&& text::smalls(text::trimmed(v)) == "gzip"@ ==> encoding_of(h) is Gzip
            &&& text::smalls(text::trimmed(v)) == "deflate"@ ==> encoding_of(h) is Deflate
            &&& text::smalls(text::trimmed(v)) != "gzip"@ && text::smalls(text::trimmed(v)) != "deflate"@ ==> encoding_of(
                h,
            ) is Other
        },
{
    reveal_strlit("gzip");
    reveal_strlit("deflate");
    assert("gzip"@.len() == 4 && "deflate"@.len() == 7);
}

/// A body is unpacked as its encoding says, with a header before without one, and shown as it came where
/// that fails.
pub proof fn bodies_are_unpacked_as_encoded(
    body: Seq<u8>,
    g: Option<Seq<u8>>,
    z: Option<Seq<u8>>,
    i: Option<Seq<u8>>,
    b: Seq<u8>,
)
    ensures
        decompressed(Encoding::Other, body, g, z, i) == body,
        decompressed(Encoding::Gzip, body, Some(b), z, i) == b,
        decompressed(Encoding::Gzip, body, None, z, i) == body,
        decompressed(Encoding::Deflate, body, g, Some(b), i) == b,
        decompressed(Encoding::Deflate, body, g, None, Some(b)) == b,
        decompressed(Encoding::Deflate, body, g, None, None) == body,
{
}

/// An identifier runs as far as its digits do.
pub proof fn identifiers_run_as_far_as_their_digits(run: Seq<char>, rest: Seq<char>)
    requires
        forall|i: int| 0 <= i < run.len() ==> ('0' <= #[trigger] run[i] <= '9' || run[i] == '_'),
        rest.len() > 0 ==> !('0' <= rest[0] <= '9' || rest[0] == '_'),
    ensures
        id_run(run + rest) == run,
    decreases run.len(),
{
    if run.len() == 0 {
        assert(run + rest =~= rest);
        assert(id_run(rest) =~= run);
    } else {
        let tail = run.skip(1);
        assert forall|i: int| 0 <= i < tail.len() implies ('0' <= #[trigger] tail[i] <= '9' || tail[i] == '_') by {
            assert(tail[i] == run[i + 1]);
        }
        identifiers_run_as_far_as_their_digits(tail, rest);
        assert((run + rest).skip(1) =~= tail + rest);
        assert((run + rest)[0] == run[0]);
        assert(id_run(run + rest) =~= run);
    }
}

/// A line is of the user that stands behind the first mark for one, the short before the long, where it
/// is a number.
pub proof fn lines_are_of_their_user(line: Seq<char>, key: Seq<char>, i: int, run: Seq<char>, rest: Seq<char>)
    requires
        text::find_from(line, key, 0) == Some(i),
        line.skip(i + key.len()) == run + rest,
        forall|k: int| 0 <= k < run.len() ==> '0' <= #[trigger] run[k] <= '9',
        rest.len() > 0 ==> !('0' <= rest[0] <= '9' || rest[0] == '_'),
    ensures
        run.len() > 0 ==> uid_after(line, key) == Some(run),
        run.len() == 0 ==> uid_after(line, key) is None,
        key == "user="@ && run.len() > 0 ==> uid_in(line) == Some(run),
        key == "user_id="@ && run.len() > 0 && text::find_from(line, "user="@, 0) is None ==> uid_in(line) == Some(run),
{
    identifiers_run_as_far_as_their_digits(run, rest);
}

/// The value that is noted under a key.
pub open spec fn noted(pairs: Seq<(Seq<char>, Seq<char>)>, key: Seq<char>) -> Option<Seq<char>>
    decreases pairs.len(),
{
    if pairs.len() == 0 {
        None
    } else if pairs[0].0 == key {
        Some(pairs[0].1)
    } else {
        noted(pairs.skip(1), key)
    }
}

/// A note replaces the one of its key and leaves all others.
pub proof fn notes_replace_their_own(pairs: Seq<(Seq<char>, Seq<char>)>, key: Seq<char>, val: Seq<char>, other: Seq<char>)
    ensures
        noted(with_pair(pairs, key, val), key) == Some(val),
        other != key ==> noted(with_pair(pairs, key, val), other) == noted(pairs, other),
        noted(pairs, key) is Some ==> with_pair(pairs, key, val).len() == pairs.len(),
        noted(pairs, key) is None ==> with_pair(pairs, key, val) == pairs.push((key, val)),
    decreases pairs.len(),
{
    reveal_with_fuel(noted, 2);
    if pairs.len() == 0 {
        assert(seq![(key, val)].skip(1) =~= Seq::<(Seq<char>, Seq<char>)>::empty());
        assert(with_pair(pairs, key, val) =~= pairs.push((key, val)));
    } else {
        let rest = pairs.skip(1);
        let w = with_pair(pairs, key, val);
        notes_replace_their_own(rest, key, val, other);
        if pairs[0].0 == key {
            assert(w.skip(1) =~= rest);
        } else {
            assert(w.skip(1) =~= with_pair(rest, key, val));
            if noted(pairs, key) is None {
                assert(w =~= pairs.push((key, val)));
            }
        }
    }
}

/// What a stream tells is noted by its events: the model and the session, the tokens each in its own
/// place, why it ended, and how many pieces it came in. Other events tell nothing.
#[verifier::rlimit(40)]
pub proof fn streams_are_noted_by_their_events(st: SseV, data: JsonV, s: Seq<char>)
    ensures
        st.event == "output"@ ==> sse_data(st, data) == (SseV { outputs: st.outputs + 1, ..st }),
        st.event != "output"@ ==> sse_data(st, data).outputs == st.outputs,
        sse_data(st, data).event == st.event,
        st.event == "metadata"@ ==> {
            &&& data.get("model"@) == Some(JsonV::Str(s)) ==> noted(sse_data(st, data).summary, "model"@) == Some(s)
            &&& data.get("model"@) is None && data.get("model_name"@) == Some(JsonV::Str(s)) ==> noted(
                sse_data(st, data).summary,
                "model"@,
            ) == Some(s)
            &&& data.get("session_id"@) == Some(JsonV::Str(s)) && s.len() <= 16 ==> noted(
                sse_data(st, data).summary,
                "session_id"@,
            ) == Some(s + "..."@)
            &&& data.get("session_id"@) == Some(JsonV::Str(s)) && s.len() > 16 ==> noted(
                sse_data(st, data).summary,
                "session_id"@,
            ) == Some(s.subrange(0, 16) + "..."@)
        },
        st.event == "token_usage"@ ==> {
            &&& data.get("prompt_tokens"@) matches Some(JsonV::Num(NumV::Pos(n))) ==> n <= i64::MAX ==> noted(
                sse_data(st, data).summary,
                "prompt_tokens"@,
            ) == Some(digits::decimal(n as int))
            &&& data.get("completion_tokens"@) matches Some(JsonV::Num(NumV::Pos(n))) ==> n <= i64::MAX ==> noted(
                sse_data(st, data).summary,
                "completion_tokens"@,
            ) == Some(digits::decimal(n as int))
            &&& data.get("total_tokens"@) matches Some(JsonV::Num(NumV::Pos(n))) ==> n <= i64::MAX ==> noted(
                sse_data(st, data).summary,
                "total_tokens"@,
            ) == Some(digits::decimal(n as int))
        },
        st.event == "done"@ && data.get("finish_reason"@) == Some(JsonV::Str(s)) ==> noted(
            sse_data(st, data).summary,
            "finish_reason"@,
        ) == Some(s),
        st.event != "metadata"@ && st.event != "output"@ && st.event != "token_usage"@ && st.event != "done"@ ==> sse_data(
            st,
            data,
        ) == st,
{
    reveal_strlit("metadata");
    reveal_strlit("output");
    reveal_strlit("token_usage");
    reveal_strlit("done");
    assert("metadata"@.len() == 8 && "output"@.len() == 6 && "token_usage"@.len() == 11);
    assert("done"@.len() == 4);
    reveal_strlit("model");
    reveal_strlit("session_id");
    reveal_strlit("prompt_tokens");
    reveal_strlit("completion_tokens");
    reveal_strlit("total_tokens");
    assert("model"@.len() == 5 && "session_id"@.len() == 10 && "prompt_tokens"@.len() == 13);
    assert("completion_tokens"@.len() == 17 && "total_tokens"@.len() == 12);
    if s.len() > 16 {
        assert(s.take(16) =~= s.subrange(0, 16));
    }
    assert forall|p: Seq<(Seq<char>, Seq<char>)>, k: Seq<char>, v: Seq<char>, o: Seq<char>|
        #[trigger] noted(with_pair(p, k, v), o) == (if o == k {
            Some(v)
        } else {
            noted(p, o)
        }) by {
        notes_replace_their_own(p, k, v, o);
    }
}

/// A line of a stream names an event, or brings data, or neither.
pub proof fn lines_name_events_or_bring_data(raw: Seq<char>, t: Seq<char>)
    ensures
        text::trimmed(raw) == "event:"@ + t ==> sse_line(raw) == SseLineV::Event(text::trimmed(t)),
        text::trimmed(raw) == "data:"@ + t && text::trimmed(t).len() > 0 ==> sse_line(raw) == SseLineV::Data(
            text::trimmed(t),
        ),
        text::trimmed(raw) == "data:"@ + t && text::trimmed(t).len() == 0 ==> sse_line(raw) is Other,
        !text::has_prefix(text::trimmed(raw), "event:"@) && !text::has_prefix(text::trimmed(raw), "data:"@) ==> sse_line(
            raw,
        ) is Other,
{
    let e = "event:"@;
    let d = "data:"@;
    reveal_strlit("event:");
    reveal_strlit("data:");
    assert((e + t).take(e.len() as int) =~= e);
    assert((e + t).skip(e.len() as int) =~= t);
    assert((d + t).take(d.len() as int) =~= d);
    assert((d + t).skip(d.len() as int) =~= t);
    if text::has_prefix(d + t, e) {
        assert((d + t).take(e.len() as int)[0] == 'd');
        assert(e[0] == 'e');
    }
}

/// A stream is read line by line: an event holds for the data behind it, and data that cannot be read
/// change nothing.
pub proof fn streams_are_read_line_by_line(st: SseV, a: Seq<Seq<char>>, b: Seq<Seq<char>>, raw: Seq<char>)
    ensures
        sse_run(st, a + b) == sse_run(sse_run(st, a), b),
        sse_run(st, seq![raw]) == sse_step(st, raw),
        sse_line(raw) matches SseLineV::Event(e) ==> sse_step(st, raw) == (SseV { event: e, ..st }),
        sse_line(raw) matches SseLineV::Data(d) ==> (json::json_read(d) matches Ok(v) ==> sse_step(st, raw) == sse_data(
            st,
            v,
        )),
        sse_line(raw) matches SseLineV::Data(d) ==> json::json_read(d) is Err ==> sse_step(st, raw) == st,
        sse_line(raw) is Other ==> sse_step(st, raw) == st,
    decreases a.len(),
{
    reveal_with_fuel(sse_run, 2);
    assert(seq![raw].skip(1) =~= Seq::<Seq<char>>::empty());
    if a.len() == 0 {
        assert(a + b =~= b);
    } else {
        streams_are_read_line_by_line(sse_step(st, a[0]), a.skip(1), b, raw);
        assert((a + b).skip(1) =~= a.skip(1) + b);
        assert((a + b)[0] == a[0]);
    }
}

proof fn lemma_line(x: Seq<char>, a: Seq<char>, b: Seq<char>, c: Seq<char>, d: Seq<char>, e: Seq<char>)
    ensures
        x + a + b + c + d + e == x + (a + b + c + d + e),
        x.len() == 0 ==> x + a + b + c + d + e == a + b + c + d + e,
{
    assert(x + a + b + c + d + e =~= x + (a + b + c + d + e));
    if x.len() == 0 {
        assert(x + (a + b + c + d + e) =~= a + b + c + d + e);
    }
}

/// Headers are written line by line, in order, their values masked.
pub proof fn headers_are_written_line_by_line(
    a: Seq<(Seq<char>, Seq<char>)>,
    b: Seq<(Seq<char>, Seq<char>)>,
    k: Seq<char>,
    v: Seq<char>,
)
    ensures
        header_lines(a + b) == header_lines(a) + header_lines(b),
        header_lines(seq![(k, v)]) == "  "@ + k + ": "@ + masked_header(k, v) + "\n"@,
    decreases b.len(),
{
    let none = Seq::<(Seq<char>, Seq<char>)>::empty();
    let one = seq![(k, v)];
    assert(header_lines(one) == "  "@ + k + ": "@ + masked_header(k, v) + "\n"@) by {
        assert(one.drop_last() =~= none);
        assert(header_lines(none) =~= Seq::empty());
        lemma_line(Seq::empty(), "  "@, k, ": "@, masked_header(k, v), "\n"@);
    }
    if b.len() == 0 {
        assert(a + b =~= a);
        assert(header_lines(a) + header_lines(b) =~= header_lines(a));
    } else {
        let f = b.drop_last();
        let h = b.last();
        headers_are_written_line_by_line(a, f, k, v);
        assert((a + b).drop_last() =~= a + f);
        assert((a + b).last() == h);
        lemma_line(header_lines(a) + header_lines(f), "  "@, h.0, ": "@, masked_header(h.0, h.1), "\n"@);
        lemma_line(header_lines(f), "  "@, h.0, ": "@, masked_header(h.0, h.1), "\n"@);
        let line = "  "@ + h.0 + ": "@ + masked_header(h.0, h.1) + "\n"@;
        assert(header_lines(a) + header_lines(f) + line =~= header_lines(a) + (header_lines(f) + line));
    }
}

/// Summaries are written line by line, in order.
pub proof fn summaries_are_written_line_by_line(
    a: Seq<(Seq<char>, Seq<char>)>,
    b: Seq<(Seq<char>, Seq<char>)>,
    k: Seq<char>,
    v: Seq<char>,
)
    ensures
        summary_lines(a + b) == summary_lines(a) + summary_lines(b),
        summary_lines(seq![(k, v)]) == "  "@ + k + ": "@ + v + "\n"@,
    decreases b.len(),
{
    let none = Seq::<(Seq<char>, Seq<char>)>::empty();
    let one = seq![(k, v)];
    assert(summary_lines(one) == "  "@ + k + ": "@ + v + "\n"@) by {
        assert(one.drop_last() =~= none);
        assert(summary_lines(none) =~= Seq::empty());
        lemma_line(Seq::empty(), "  "@, k, ": "@, v, "\n"@);
    }
    if b.len() == 0 {
        assert(a + b =~= a);
        assert(summary_lines(a) + summary_lines(b) =~= summary_lines(a));
    } else {
        let f = b.drop_last();
        let h = b.last();
        summaries_are_written_line_by_line(a, f, k, v);
        assert((a + b).drop_last() =~= a + f);
        assert((a + b).last() == h);
        lemma_line(summary_lines(a) + summary_lines(f), "  "@, h.0, ": "@, h.1, "\n"@);
        lemma_line(summary_lines(f), "  "@, h.0, ": "@, h.1, "\n"@);
        let line = "  "@ + h.0 + ": "@ + h.1 + "\n"@;
        assert(summary_lines(a) + summary_lines(f) + line =~= summary_lines(a) + (summary_lines(f) + line));
    }
}

/// What is shown of a body: how long it was, and its first part with the secrets masked; of an empty one
/// nothing.
pub proof fn bodies_are_shown_in_part(body: Seq<u8>, plain: Seq<u8>)
    ensures
        body.len() == 0 ==> request_body_part(body).len() == 0 && response_body_part(body, plain).len() == 0,
        0 < body.len() <= 4096 ==> request_body_part(body) == "--- Request Body ("@ + digits::decimal(body.len() as int)
            + " bytes) ---\n"@ + masked_body(text::bytes_shown(body)) + "\n"@,
        body.len() > 4096 ==> request_body_part(body) == "--- Request Body ("@ + digits::decimal(body.len() as int)
            + " bytes) ---\n"@ + masked_body(text::bytes_shown(body.subrange(0, 4096))) + "\n"@,
        0 < body.len() && plain.len() <= 8192 ==> response_body_part(body, plain) == "--- Response Body ("@
            + digits::decimal(body.len() as int) + " bytes, decompressed "@ + digits::decimal(plain.len() as int)
            + " bytes) ---\n"@ + masked_body(text::bytes_shown(plain)) + "\n"@,
        0 < body.len() && plain.len() > 8192 ==> response_body_part(body, plain) == "--- Response Body ("@
            + digits::decimal(body.len() as int) + " bytes, decompressed "@ + digits::decimal(plain.len() as int)
            + " bytes) ---\n"@ + masked_body(text::bytes_shown(plain.subrange(0, 8192))) + "\n"@,
{
    if body.len() > 4096 {
        assert(body.take(4096) =~= body.subrange(0, 4096));
    }
    if plain.len() > 8192 {
        assert(plain.take(8192) =~= plain.subrange(0, 8192));
    }
}

/// The logs of a day are numbered, and the first has no number.
pub proof fn logs_are_named_by_their_day(day: Seq<char>, n: int)
    ensures
        request_log_name(day, 0) == "proxy_req_"@ + day + ".log"@,
        n != 0 ==> request_log_name(day, n) == "proxy_req_"@ + day + ".log."@ + digits::decimal(n),
{
}

/// Bytes are shown in two digits each with a blank between, and as characters where they are printable.
pub proof fn bytes_are_shown_twice(a: Seq<u8>, x: u8, i: int)
    ensures
        a.len() > 0 ==> hex_row(a.push(x)) == hex_row(a) + " "@ + hex_row(seq![x]),
        hex_row(seq![x]) == seq![digits::digit_char(x as int / 16), digits::digit_char(x as int % 16)],
        ascii_row(a).len() == a.len(),
        0 <= i < a.len() && 32 <= a[i] <= 126 ==> ascii_row(a)[i] as u32 == a[i],
        0 <= i < a.len() && !(32 <= a[i] <= 126) ==> ascii_row(a)[i] == '.',
{
    assert(a.push(x).drop_last() =~= a);
}

/// A text that is too short is filled up with blanks behind it, a number with zeros before it.
pub proof fn short_texts_are_filled_up(s: Seq<char>, width: int)
    ensures
        s.len() >= width ==> padded(s, width) == s && zero_padded(s, width) == s,
        s.len() < width ==> padded(s, width).len() == width && zero_padded(s, width).len() == width,
        padded(s, width).take(s.len() as int) == s,
        zero_padded(s, width).skip(zero_padded(s, width).len() - s.len()) == s,
        forall|i: int| s.len() <= i < width ==> #[trigger] padded(s, width)[i] == ' ',
        forall|i: int| 0 <= i < width - s.len() ==> #[trigger] zero_padded(s, width)[i] == '0',
    decreases width - s.len(),
{
    if s.len() >= width {
        assert(s.take(s.len() as int) =~= s);
        assert(s.skip(0) =~= s);
    } else {
        let p = s.push(' ');
        let z = seq!['0'] + s;
        short_texts_are_filled_up(p, width);
        short_texts_are_filled_up(z, width);
        assert(padded(s, width).take(s.len() as int) =~= padded(p, width).take(p.len() as int).take(s.len() as int));
        assert(p.take(s.len() as int) =~= s);
        let zp = zero_padded(z, width);
        assert(zp.skip(zp.len() - s.len()) =~= zp.skip(zp.len() - z.len()).skip(1));
        assert(z.skip(1) =~= s);
        assert forall|i: int| s.len() <= i < width implies #[trigger] padded(s, width)[i] == ' ' by {
            if i == s.len() {
                assert(padded(p, width).take(p.len() as int)[i] == p[i]);
            }
        }
        assert forall|i: int| 0 <= i < width - s.len() implies #[trigger] zero_padded(s, width)[i] == '0' by {
            if i == width - s.len() - 1 {
                assert(zp.skip(zp.len() - z.len())[0] == z[0]);
            }
        }
    }
}

/// A dump has a line for each sixteen bytes, in order, and each shows its own.
pub proof fn dumps_show_all_bytes(data: Seq<u8>, at: int, k: int)
    requires
        0 <= at,
        0 <= k,
        at + 16 * k < data.len(),
    ensures
        k < dump_lines(data, at).len(),
        at + 16 * k + 16 <= data.len() ==> dump_lines(data, at)[k] == dump_line(
            at + 16 * k,
            data.subrange(at + 16 * k, at + 16 * k + 16),
        ),
        at + 16 * k + 16 > data.len() ==> dump_lines(data, at)[k] == dump_line(
            at + 16 * k,
            data.subrange(at + 16 * k, data.len() as int),
        ),
        at + 16 * k + 16 >= data.len() ==> dump_lines(data, at).len() == k + 1,
    decreases k,
{
    reveal_with_fuel(dump_lines, 2);
    if k > 0 {
        dumps_show_all_bytes(data, at + 16, k - 1);
        assert(dump_lines(data, at)[k] == dump_lines(data, at + 16)[k - 1]);
    }
}

/// The printable runs of bytes are found in order, each as long as it is, and short ones are passed over.
pub proof fn printable_runs_are_found(a: Seq<u8>, x: u8, b: Seq<u8>, run: Seq<char>, min_len: int)
    requires
        forall|i: int| 0 <= i < a.len() ==> 32 <= #[trigger] a[i] <= 126,
        !(32 <= x <= 126),
    ensures
        ({
            let all = run + a.map_values(|c: u8| c as char);
            let first = if all.len() >= min_len {
                seq![all]
            } else {
                Seq::empty()
            };
            &&& runs(a, run, min_len) == first
            &&& runs(a + seq![x] + b, run, min_len) == first + runs(b, Seq::empty(), min_len)
        }),
    decreases a.len(),
{
    let whole = a + seq![x] + b;
    let all = run + a.map_values(|c: u8| c as char);
    if a.len() == 0 {
        assert(all =~= run);
        assert(whole.skip(1) =~= b);
        assert(whole[0] == x);
        assert(Seq::<Seq<char>>::empty() + runs(b, Seq::empty(), min_len) =~= runs(b, Seq::empty(), min_len));
    } else {
        let rest = a.skip(1);
        assert forall|i: int| 0 <= i < rest.len() implies 32 <= #[trigger] rest[i] <= 126 by {
            assert(rest[i] == a[i + 1]);
        }
        let next = run.push(a[0] as char);
        printable_runs_are_found(rest, x, b, next, min_len);
        assert(whole.skip(1) =~= rest + seq![x] + b);
        assert(whole[0] == a[0]);
        assert(next + rest.map_values(|c: u8| c as char) =~= all);
    }
}

/// The pieces of a stream are noted last, where there were any; a summary is written for a stream of events
/// with a body that told something, and for nothing else.
pub proof fn summaries_are_of_streams(t: Seq<char>, h: Seq<(Seq<char>, Seq<char>)>, body: Seq<u8>, i: int)
    ensures
        ({
            let end = sse_run(
                SseV { event: Seq::empty(), summary: Seq::empty(), outputs: 0 },
                text::split_on(t, '\n'),
            );
            &&& end.outputs <= 0 ==> sse_summary(t) == end.summary
            &&& end.outputs > 0 ==> noted(sse_summary(t), "output_chunks"@) == Some(digits::decimal(end.outputs))
        }),
        says_event_stream(h[i]) == (text::smalls(h[i].0) == text::smalls("content-type"@) && text::has_text(
            text::smalls(h[i].1),
            "event-stream"@,
        )),
        body.len() == 0 ==> summary_part(h, body).len() == 0,
        0 <= i < h.len() && says_event_stream(h[i]) && body.len() > 0 && sse_summary(text::bytes_shown(body)).len() > 0
            ==> summary_part(h, body) == "--- SSE Summary ---\n"@ + summary_lines(sse_summary(text::bytes_shown(body))),
        (forall|k: int| 0 <= k < h.len() ==> !says_event_stream(#[trigger] h[k])) ==> summary_part(h, body).len() == 0,
{
    let end = sse_run(SseV { event: Seq::empty(), summary: Seq::empty(), outputs: 0 }, text::split_on(t, '\n'));
    notes_replace_their_own(end.summary, "output_chunks"@, digits::decimal(end.outputs), "output_chunks"@);
}

/// A body is shown unpacked as its own headers say.
pub proof fn bodies_are_shown_unpacked(body: Seq<u8>, h: Seq<(Seq<char>, Seq<char>)>, b: Seq<u8>)
    ensures
        encoding_of(h) is Other ==> plain_body(body, h) == body,
        encoding_of(h) is Gzip && gunzipped(body) == Some(b) ==> plain_body(body, h) == b,
        encoding_of(h) is Gzip && gunzipped(body) is None ==> plain_body(body, h) == body,
        encoding_of(h) is Deflate && unzlibbed(body) == Some(b) ==> plain_body(body, h) == b,
        encoding_of(h) is Deflate && unzlibbed(body) is None && inflated(body) == Some(b) ==> plain_body(body, h) == b,
        encoding_of(h) is Deflate && unzlibbed(body) is None && inflated(body) is None ==> plain_body(body, h) == body,
{
}

/// An exchange is written with its place, the request's headers and body, the answer's status, headers and
/// body, and the summary, in this order; the opening of a socket with its place and its headers.
pub proof fn exchanges_are_written_in_order(
    time: Seq<char>,
    x: Exchange,
    host: Seq<char>,
    path: Seq<char>,
    h: Seq<(Seq<char>, Seq<char>)>,
)
    ensures
        exchange_block(time, x)
            == "\n================================================================================\n["@ + time + "] "@ + (
        x.method@ + " "@ + x.host@ + x.path@) + "\n--- Request Headers ---\n"@ + header_lines(
            headers::pairs(x.req_headers@),
        ) + request_body_part(x.req_body@) + "--- Response: "@ + digits::decimal(x.status as int) + " "@ + x.reason@
            + " ---\n"@ + header_lines(headers::pairs(x.resp_headers@)) + response_body_part(
            x.resp_body@,
            plain_body(x.resp_body@, headers::pairs(x.resp_headers@)),
        ) + summary_part(headers::pairs(x.resp_headers@), x.resp_body@) + "\n"@,
        websocket_block(time, host, path, h)
            == "\n================================================================================\n["@ + time + "] "@ + (
        "[WebSocket Upgrade] "@ + host + path) + "\n--- Request Headers ---\n"@ + header_lines(h)
            + "--- WebSocket tunnel established: 双向帧载荷将在隧道中按 SEQ 记录 ---\n\n"@,
{
}

/// A dump shows the bytes as far as the limit, and says how many there were where some are left out.
pub proof fn dumps_say_what_they_leave_out(data: Seq<u8>, max: int)
    ensures
        0 <= max && data.len() <= max ==> hexdump(data, max) == text::joined(dump_lines(data, 0), "\n"@),
        0 <= max < data.len() ==> hexdump(data, max) == text::joined(
            dump_lines(data.subrange(0, max), 0).push(
                "    ... (截断，完整 "@ + digits::decimal(data.len() as int) + " bytes)"@,
            ),
            "\n"@,
        ),
{
    if 0 <= max < data.len() {
        assert(data.take(max) =~= data.subrange(0, max));
    }
}

/// A line of a dump shows where it starts, its bytes in digits, and its bytes as characters.
pub proof fn dump_lines_show_place_digits_and_characters(offset: nat, chunk: Seq<u8>)
    ensures
        dump_line(offset as int, chunk) == "    "@ + zero_padded(digits::in_digits(offset, 16), 4) + ": "@ + padded(
            hex_row(chunk),
            48,
        ) + "  "@ + ascii_row(chunk),
{
}

} // verus!
