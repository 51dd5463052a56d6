//! HTTP/1.1 as the proxy reads and writes it: request heads, bodies by length or in chunks,
//! response heads, chunk frames.
use vstd::prelude::*;
use crate::{digits, text};
use crate::device_proxy::headers;
use crate::digits::{digits, number, read_number};
use crate::text::{bytes_text, contains, one_of, same_ignoring_case, split, split_once, split_text, to_smalls, trim};

verus! {

broadcast use vstd::string::group_string_axioms;

/// The largest request head.
pub const MAX_HEAD: usize = 10485760;

/// The largest request body.
pub const MAX_BODY: usize = 67108864;

/// The longest line that gives a chunk's size.
pub const MAX_SIZE_LINE: usize = 1048576;

/// The two line ends behind a head.
pub open spec fn head_end() -> Seq<u8> {
    seq![13u8, 10u8, 13u8, 10u8]
}

/// A request as it was read.
pub struct RawRequest {
    pub method: String,
    pub path: String,
    /// The headers as they came, repeated ones too.
    pub headers: Vec<(String, String)>,
    pub body: Vec<u8>,
}

/// The model of a request.
#[verifier::ext_equal]
pub struct RequestV {
    pub method: Seq<char>,
    pub path: Seq<char>,
    pub headers: Seq<(Seq<char>, Seq<char>)>,
    pub body: Seq<u8>,
}

impl View for RawRequest {
    type V = RequestV;

    open spec fn view(&self) -> RequestV {
        RequestV {
            method: self.method@,
            path: self.path@,
            headers: headers::pairs(self.headers@),
            body: self.body@,
        }
    }
}

/// The value of the last header with the name.
pub open spec fn last_header(h: Seq<(Seq<char>, Seq<char>)>, name: Seq<char>) -> Option<Seq<char>>
    decreases h.len(),
{
    if h.len() == 0 {
        None
    } else if headers::same_name(h.last().0, name) {
        Some(h.last().1)
    } else {
        last_header(h.drop_last(), name)
    }
}

/// The headers without those of the name.
pub open spec fn without_header(h: Seq<(Seq<char>, Seq<char>)>, name: Seq<char>) -> Seq<(Seq<char>, Seq<char>)>
    decreases h.len(),
{
    if h.len() == 0 {
        h
    } else if headers::same_name(h.last().0, name) {
        without_header(h.drop_last(), name)
    } else {
        without_header(h.drop_last(), name).push(h.last())
    }
}

/// The headers with one set: those of its name are gone, and it stands at the end.
pub open spec fn with_header(
    h: Seq<(Seq<char>, Seq<char>)>,
    name: Seq<char>,
    value: Seq<char>,
) -> Seq<(Seq<char>, Seq<char>)> {
    without_header(h, name).push((name, value))
}

/// Taking the headers of a name out hides that name and no other.
pub proof fn lemma_without_header(h: Seq<(Seq<char>, Seq<char>)>, name: Seq<char>, other: Seq<char>)
    ensures
        last_header(without_header(h, name), other) == if headers::same_name(name, other) {
            None
        } else {
            last_header(h, other)
        },
        without_header(h, name).len() <= h.len(),
    decreases h.len(),
{
    if h.len() > 0 {
        lemma_without_header(h.drop_last(), name, other);
        let w = without_header(h.drop_last(), name);
        assert(w.push(h.last()).drop_last() =~= w);
    }
}

/// A header that is set is read back under every spelling of its name, and the other headers are
/// as they were.
pub proof fn hset_then_hget(h: Seq<(Seq<char>, Seq<char>)>, name: Seq<char>, value: Seq<char>, other: Seq<char>)
    ensures
        last_header(with_header(h, name, value), other) == if headers::same_name(name, other) {
            Some(value)
        } else {
            last_header(h, other)
        },
{
    lemma_without_header(h, name, other);
    assert(with_header(h, name, value).drop_last() =~= without_header(h, name));
}

/// Setting the same header twice is setting it once, to the later value.
pub proof fn hset_twice(h: Seq<(Seq<char>, Seq<char>)>, name: Seq<char>, first: Seq<char>, second: Seq<char>)
    ensures
        with_header(with_header(h, name, first), name, second) == with_header(h, name, second),
{
    let w = without_header(h, name);
    lemma_without_twice(h, name);
    assert(w.push((name, first)).drop_last() =~= w);
}

proof fn lemma_without_twice(h: Seq<(Seq<char>, Seq<char>)>, name: Seq<char>)
    ensures
        without_header(without_header(h, name), name) == without_header(h, name),
    decreases h.len(),
{
    if h.len() > 0 {
        lemma_without_twice(h.drop_last(), name);
        let w = without_header(h.drop_last(), name);
        assert(w.push(h.last()).drop_last() =~= w);
    }
}

/// The value of the last header with the name.
pub fn header_value<'a>(h: &'a Vec<(String, String)>, name: &str) -> (r: Option<&'a str>)
    ensures
        text::opt_str(r) == last_header(headers::pairs(h@), name@),
{
    let mut i: usize = h.len();
    let ghost all = headers::pairs(h@);
    assert(all.take(all.len() as int) =~= all);
    while i > 0
        invariant
            i <= h@.len(),
            all == headers::pairs(h@),
            last_header(all, name@) == last_header(all.take(i as int), name@),
        decreases i,
    {
        proof {
            assert(all.take(i as int).last() == (h@[i - 1].0@, h@[i - 1].1@));
            assert(all.take(i as int).drop_last() =~= all.take(i - 1));
        }
        if same_ignoring_case(h[i - 1].0.as_str(), name) {
            return Some(h[i - 1].1.as_str());
        }
        i -= 1;
    }
    None
}

impl RawRequest {
    /// The value of the last header with the name, in any case.
    pub fn hget(&self, name: &str) -> (r: Option<&str>)
        ensures
            text::opt_str(r) == last_header(self@.headers, name@),
    {
        header_value(&self.headers, name)
    }

    /// Sets a header: those of its name are taken out, and it is put at the end.
    pub fn hset(&mut self, name: &str, value: String)
        ensures
            final(self)@ == (RequestV { headers: with_header(old(self)@.headers, name@, value@), ..old(self)@ }),
    {
        let mut kept: Vec<(String, String)> = Vec::new();
        let mut i: usize = 0;
        let ghost all = self@.headers;
        assert(all.take(0) =~= Seq::empty());
        assert(headers::pairs(kept@) =~= Seq::empty());
        while i < self.headers.len()
            invariant
                i <= self.headers@.len(),
                *self == *old(self),
                all == self@.headers,
                headers::pairs(kept@) == without_header(all.take(i as int), name@),
            decreases self.headers@.len() - i,
        {
            let ghost before = headers::pairs(kept@);
            proof {
                assert(all.take(i + 1).last() == (self.headers@[i as int].0@, self.headers@[i as int].1@));
                assert(all.take(i + 1).drop_last() =~= all.take(i as int));
            }
            if !same_ignoring_case(self.headers[i].0.as_str(), name) {
                let entry = (self.headers[i].0.clone(), self.headers[i].1.clone());
                kept.push(entry);
                assert(headers::pairs(kept@) =~= before.push((entry.0@, entry.1@)));
            }
            i += 1;
        }
        assert(all.take(all.len() as int) =~= all);
        let ghost before = headers::pairs(kept@);
        let entry = (name.to_owned(), value);
        kept.push(entry);
        assert(headers::pairs(kept@) =~= before.push((name@, value@)));
        self.headers = kept;
    }

    /// Whether the request asks for an upgrade to a WebSocket.
    pub fn is_websocket_upgrade(&self) -> (r: bool)
        ensures
            r == match last_header(self@.headers, "upgrade"@) {
                Some(v) => headers::same_name(v, "websocket"@),
                None => false,
            },
    {
        match self.hget("upgrade") {
            Some(v) => same_ignoring_case(v, "websocket"),
            None => false,
        }
    }
}

fn bytes_at(s: &[u8], p: &[u8], i: usize) -> (r: bool)
    requires
        i + p@.len() <= s@.len(),
    ensures
        r == text::occurs_at(s@, p@, i as int),
{
    let n: usize = s.len();
    let mut k: usize = 0;
    while k < p.len()
        invariant
            n == s@.len(),
            k <= p@.len(),
            i + p@.len() <= s@.len(),
            forall|j: int| 0 <= j < k ==> s@[i + j] == p@[j],
        decreases p@.len() - k,
    {
        if s[i + k] != p[k] {
            assert(s@.subrange(i as int, i + p@.len())[k as int] != p@[k as int]);
            return false;
        }
        k += 1;
    }
    assert(s@.subrange(i as int, i + p@.len()) =~= p@);
    true
}

/// The first position at which `p` stands in `s`.
pub fn find_bytes(s: &[u8], p: &[u8]) -> (r: Option<usize>)
    ensures
        match r {
            Some(k) => text::find_from(s@, p@, 0) == Some(k as int),
            None => text::find_from(s@, p@, 0) is None,
        },
{
    let n: usize = s.len();
    let m: usize = p.len();
    if m > n {
        return None;
    }
    let mut i: usize = 0;
    while i < n - m
        invariant
            n == s@.len(),
            m == p@.len(),
            i <= n - m,
            text::find_from(s@, p@, 0) == text::find_from(s@, p@, i as int),
        decreases n - i,
    {
        if bytes_at(s, p, i) {
            return Some(i);
        }
        i += 1;
    }
    proof {
        reveal_with_fuel(text::find_from, 2);
    }
    if bytes_at(s, p, i) {
        Some(i)
    } else {
        None
    }
}

/// Where the head ends: the position of the first empty line's line ends.
pub fn find_head_end(buf: &[u8]) -> (r: Option<usize>)
    ensures
        match r {
            Some(k) => text::find_from(buf@, head_end(), 0) == Some(k as int) && k + 4 <= buf@.len(),
            None => text::find_from(buf@, head_end(), 0) is None,
        },
{
    let p: Vec<u8> = vec![13, 10, 13, 10];
    assert(p@ =~= head_end());
    proof {
        text::lemma_find_from(buf@, head_end(), 0);
    }
    find_bytes(buf, p.as_slice())
}

/// What is behind the head in a buffer; nothing where there is no whole head.
pub open spec fn behind_head(buf: Seq<u8>) -> Seq<u8> {
    match text::find_from(buf, head_end(), 0) {
        Some(i) => if i + 4 < buf.len() {
            buf.skip(i + 4)
        } else {
            Seq::empty()
        },
        None => Seq::empty(),
    }
}

/// What is behind the head in a buffer.
pub fn head_after_head_end(buf: &[u8]) -> (r: Vec<u8>)
    ensures
        r@ == behind_head(buf@),
{
    match find_head_end(buf) {
        Some(i) => {
            let n: usize = buf.len();
            let r = vstd::slice::slice_to_vec(vstd::slice::slice_subrange(buf, i + 4, n));
            assert(r@ =~= behind_head(buf@));
            r
        },
        None => Vec::new(),
    }
}

/// What to do with the bytes of a head read so far.
pub enum HeadStep {
    /// The head ends at this position.
    At(usize),
    /// More has to be read.
    More,
    /// The client is gone.
    Closed,
    /// The head is too long.
    TooLong(String),
}

/// What to do with the bytes of a head read so far, where `eof` says that no more will come.
pub fn head_step(buf: &[u8], eof: bool) -> (r: HeadStep)
    ensures
        match text::find_from(buf@, head_end(), 0) {
            Some(i) => r == HeadStep::At(i as usize) && 0 <= i && i + 4 <= buf@.len(),
            None => if buf@.len() > 10 * 1024 * 1024 {
                r matches HeadStep::TooLong(m) && m@ == "请求头缓冲区超限 ("@ + digits::decimal(
                    buf@.len() as int,
                ) + ")"@
            } else if eof {
                r is Closed
            } else {
                r is More
            },
        },
{
    match find_head_end(buf) {
        Some(i) => HeadStep::At(i),
        None => {
            if buf.len() > MAX_HEAD {
                let mut m = "请求头缓冲区超限 (".to_owned();
                m.append(number(buf.len() as u64).as_str());
                m.append(")");
                HeadStep::TooLong(m)
            } else if eof {
                HeadStep::Closed
            } else {
                HeadStep::More
            }
        },
    }
}

/// The headers that the lines of a head hold: those with a colon, trimmed on both sides of it.
pub open spec fn header_list(lines: Seq<Seq<char>>) -> Seq<(Seq<char>, Seq<char>)>
    decreases lines.len(),
{
    if lines.len() == 0 {
        Seq::empty()
    } else {
        let before = header_list(lines.drop_last());
        match text::cut_at(lines.last(), ':') {
            Some((k, v)) => before.push((text::trimmed(k), text::trimmed(v))),
            None => before,
        }
    }
}

/// The request that a head's text holds, without its body.
pub open spec fn request_of(head: Seq<char>) -> RequestV {
    let lines = text::split_by(head, "\r\n"@);
    let first = text::split_on(lines[0], ' ');
    RequestV {
        method: first[0],
        path: if first.len() > 1 {
            first[1]
        } else {
            "/"@
        },
        headers: header_list(lines.skip(1)),
        body: Seq::empty(),
    }
}

/// The request that a head holds, without its body.
pub fn parse_head(head: &[u8]) -> (r: RawRequest)
    ensures
        r@ == request_of(text::bytes_shown(head@)),
{
    let text = bytes_text(head);
    proof {
        reveal_strlit("\r\n");
    }
    let lines = split_text(text.as_str(), "\r\n");
    let first = split(lines[0].as_str(), ' ');
    let ghost all = text::texts(lines@);
    let ghost words = text::texts(first@);
    assert(all[0] == lines@[0]@);
    assert(words[0] == first@[0]@);
    let method = first[0].clone();
    let path = if first.len() > 1 {
        assert(words[1] == first@[1]@);
        first[1].clone()
    } else {
        "/".to_owned()
    };
    let mut headers: Vec<(String, String)> = Vec::new();
    let ghost rest = all.skip(1);
    assert(rest.take(0) =~= Seq::empty());
    assert(headers::pairs(headers@) =~= Seq::empty());
    let mut i: usize = 1;
    while i < lines.len()
        invariant
            1 <= i <= lines@.len(),
            all == text::texts(lines@),
            rest == all.skip(1),
            headers::pairs(headers@) == header_list(rest.take(i - 1)),
        decreases lines@.len() - i,
    {
        let ghost before = headers::pairs(headers@);
        proof {
            assert(rest.take(i as int).last() == lines@[i as int]@);
            assert(rest.take(i as int).drop_last() =~= rest.take(i - 1));
        }
        if let Some((k, v)) = split_once(lines[i].as_str(), ':') {
            let entry = (trim(k.as_str()), trim(v.as_str()));
            headers.push(entry);
            assert(headers::pairs(headers@) =~= before.push((entry.0@, entry.1@)));
        }
        i += 1;
    }
    assert(rest.take(lines@.len() - 1) =~= rest);
    RawRequest { method, path, headers, body: Vec::new() }
}

/// How a request's body is read.
pub enum BodyPlan {
    /// In chunks.
    Chunked,
    /// So many bytes.
    Length(usize),
    /// Not at all: it is too large, in words.
    TooLarge(String),
}

/// Whether the last transfer encoding is chunked.
pub open spec fn is_chunked(h: Seq<(Seq<char>, Seq<char>)>) -> bool {
    match last_header(h, "transfer-encoding"@) {
        Some(v) => text::has_text(text::smalls(v), "chunked"@),
        None => false,
    }
}

/// The length that the headers give; zero where they give none that can be read.
pub open spec fn content_length(h: Seq<(Seq<char>, Seq<char>)>) -> int {
    match last_header(h, "content-length"@) {
        Some(v) => match digits::at_most(
            digits::read_unsigned(text::trimmed(v), 10),
            usize::MAX as int,
        ) {
            Some(n) => n,
            None => 0,
        },
        None => 0,
    }
}

/// How a request's body is read: in chunks where it says so, else by its length.
pub fn body_plan(headers: &Vec<(String, String)>) -> (r: BodyPlan)
    ensures
        ({
            let h = headers::pairs(headers@);
            if is_chunked(h) {
                r is Chunked
            } else if content_length(h) > 64 * 1024 * 1024 {
                r matches BodyPlan::TooLarge(m) && m@ == "请求体超限 ("@ + digits::decimal(content_length(h))
                    + " > 67108864)"@
            } else {
                r == BodyPlan::Length(content_length(h) as usize)
            }
        }),
{
    if let Some(te) = header_value(headers, "transfer-encoding") {
        if contains(to_smalls(te).as_str(), "chunked") {
            return BodyPlan::Chunked;
        }
    }
    let cl: usize = match header_value(headers, "content-length") {
        Some(v) => match read_number(trim(v).as_str(), 10, usize::MAX as u64) {
            Some(n) => n as usize,
            None => 0,
        },
        None => 0,
    };
    if cl > MAX_BODY {
        let mut m = "请求体超限 (".to_owned();
        m.append(number(cl as u64).as_str());
        m.append(" > 67108864)");
        BodyPlan::TooLarge(m)
    } else {
        BodyPlan::Length(cl)
    }
}

/// The size that a chunk's line gives: what stands before a semicolon, in hexadecimal.
pub open spec fn chunk_size(line: Seq<char>) -> Option<int> {
    let t = text::trimmed(line);
    let s = text::trimmed(text::split_on(t, ';')[0]);
    digits::at_most(digits::read_unsigned(s, 16), usize::MAX as int)
}

/// Where the decoding of a body in chunks stands.
#[verifier::ext_equal]
pub enum ChunksV {
    /// This much is decoded, and this much is left to decode once more is there.
    More(Seq<u8>, Seq<u8>),
    /// The body is whole.
    Done(Seq<u8>),
    /// The body cannot be read, in words.
    Fail(Seq<char>),
}

/// What decoding chunks comes to, with `out` decoded and `buf` left, where `eof` says that no more
/// will come. A chunk of size zero ends the body; each other one has a line end behind it.
pub open spec fn decode_chunks(out: Seq<u8>, buf: Seq<u8>, eof: bool) -> ChunksV
    decreases buf.len(),
{
    let nl = text::index_of(buf, 10u8);
    if !(0 <= nl < buf.len()) {
        if buf.len() > 1024 * 1024 {
            ChunksV::Fail("chunk size 行超限"@)
        } else if eof {
            ChunksV::Fail("chunked body 意外 EOF"@)
        } else {
            ChunksV::More(out, buf)
        }
    } else {
        let line = text::bytes_shown(buf.take(nl + 1));
        let data = buf.skip(nl + 1);
        match chunk_size(line) {
            None => ChunksV::Fail("非法 chunk size: "@ + line),
            Some(size) => if size == 0 {
                ChunksV::Done(out)
            } else if out.len() + size > 64 * 1024 * 1024 {
                ChunksV::Fail("chunked 请求体超限"@)
            } else if size < 0 || data.len() < size + 2 {
                if eof {
                    ChunksV::Fail("chunked body 意外 EOF"@)
                } else {
                    ChunksV::More(out, buf)
                }
            } else {
                decode_chunks(out + data.take(size), data.skip(size + 2), eof)
            },
        }
    }
}

/// A body in chunks, as far as it is decoded.
pub struct ChunkDecoder {
    pub out: Vec<u8>,
    pub buf: Vec<u8>,
}

/// What decoding came to.
pub enum ChunkStep {
    More,
    Done,
    Fail(String),
}

impl ChunkDecoder {
    /// Starts with the bytes that were read with the head.
    pub fn new(rest: Vec<u8>) -> (r: ChunkDecoder)
        ensures
            r.out@ == Seq::<u8>::empty(),
            r.buf@ == rest@,
    {
        ChunkDecoder { out: Vec::new(), buf: rest }
    }

    /// Takes in more bytes.
    pub fn feed(&mut self, bytes: &[u8])
        ensures
            final(self).out@ == old(self).out@,
            final(self).buf@ == old(self).buf@ + bytes@,
    {
        let mut i: usize = 0;
        let ghost start = self.buf@;
        assert(start =~= start + bytes@.take(0));
        while i < bytes.len()
            invariant
                i <= bytes@.len(),
                self.out@ == old(self).out@,
                self.buf@ == start + bytes@.take(i as int),
            decreases bytes@.len() - i,
        {
            self.buf.push(bytes[i]);
            i += 1;
            assert(self.buf@ =~= start + bytes@.take(i as int));
        }
        assert(bytes@.take(bytes@.len() as int) =~= bytes@);
    }

    /// Decodes as far as the bytes go.
    pub fn step(&mut self, eof: bool) -> (r: ChunkStep)
        ensures
            match decode_chunks(old(self).out@, old(self).buf@, eof) {
                ChunksV::More(o, b) => r is More && final(self).out@ == o && final(self).buf@ == b,
                ChunksV::Done(o) => r is Done && final(self).out@ == o,
                ChunksV::Fail(m) => r matches ChunkStep::Fail(t) && t@ == m,
            },
    {
        let mut at: usize = 0;
        let ghost all = self.buf@;
        let ghost goal = decode_chunks(self.out@, self.buf@, eof);
        assert(all.skip(0) =~= all);
        loop
            invariant
                at <= self.buf@.len(),
                self.buf@ == all,
                goal == decode_chunks(old(self).out@, old(self).buf@, eof),
                goal == decode_chunks(self.out@, all.skip(at as int), eof),
            decreases all.len() - at,
        {
            let ghost cur = all.skip(at as int);
            let n: usize = self.buf.len();
            let nl: usize = index_byte(self.buf.as_slice(), 10, at);
            if nl == n {
                if n - at > MAX_SIZE_LINE {
                    return ChunkStep::Fail("chunk size 行超限".to_owned());
                }
                if eof {
                    return ChunkStep::Fail("chunked body 意外 EOF".to_owned());
                }
                self.keep_from(at);
                return ChunkStep::More;
            }
            proof {
                text::lemma_index_of(cur, 10u8);
            }
            let line = bytes_text(vstd::slice::slice_subrange(self.buf.as_slice(), at, nl + 1));
            assert(all.subrange(at as int, nl + 1) =~= cur.take(nl - at + 1));
            let t = trim(line.as_str());
            let words = split(t.as_str(), ';');
            assert(text::texts(words@)[0] == words@[0]@);
            let size_text = trim(words[0].as_str());
            let ghost data = cur.skip(nl - at + 1);
            assert(data =~= all.skip(nl + 1));
            match read_number(size_text.as_str(), 16, usize::MAX as u64) {
                None => {
                    let mut m = "非法 chunk size: ".to_owned();
                    m.append(line.as_str());
                    return ChunkStep::Fail(m);
                },
                Some(v) => {
                    let size: usize = v as usize;
                    if size == 0 {
                        return ChunkStep::Done;
                    }
                    if self.out.len() > MAX_BODY || size > MAX_BODY - self.out.len() {
                        return ChunkStep::Fail("chunked 请求体超限".to_owned());
                    }
                    if n - (nl + 1) < size + 2 {
                        if eof {
                            return ChunkStep::Fail("chunked body 意外 EOF".to_owned());
                        }
                        self.keep_from(at);
                        return ChunkStep::More;
                    }
                    let start: usize = nl + 1;
                    self.take_data(start, start + size);
                    assert(all.subrange(start as int, start + size) =~= data.take(size as int));
                    assert(all.skip(start + size + 2) =~= data.skip(size + 2));
                    at = start + size + 2;
                },
            }
        }
    }

    /// Hands out what is decoded.
    pub fn take_out(&mut self) -> (r: Vec<u8>)
        ensures
            r@ == old(self).out@,
            final(self).out@.len() == 0,
            final(self).buf@ == old(self).buf@,
    {
        let mut out: Vec<u8> = Vec::new();
        std::mem::swap(&mut out, &mut self.out);
        out
    }

    fn keep_from(&mut self, at: usize)
        requires
            at <= old(self).buf@.len(),
        ensures
            final(self).out@ == old(self).out@,
            final(self).buf@ == old(self).buf@.skip(at as int),
    {
        let n: usize = self.buf.len();
        let kept = vstd::slice::slice_to_vec(vstd::slice::slice_subrange(self.buf.as_slice(), at, n));
        assert(kept@ =~= self.buf@.skip(at as int));
        self.buf = kept;
    }

    fn take_data(&mut self, from: usize, to: usize)
        requires
            from <= to <= old(self).buf@.len(),
        ensures
            final(self).out@ == old(self).out@ + old(self).buf@.subrange(from as int, to as int),
            final(self).buf@ == old(self).buf@,
    {
        let mut i: usize = from;
        let ghost start = self.out@;
        assert(start =~= start + self.buf@.subrange(from as int, from as int));
        while i < to
            invariant
                from <= i <= to <= self.buf@.len(),
                self.buf@ == old(self).buf@,
                self.out@ == start + self.buf@.subrange(from as int, i as int),
            decreases to - i,
        {
            let b: u8 = self.buf[i];
            self.out.push(b);
            i += 1;
            assert(self.out@ =~= start + self.buf@.subrange(from as int, i as int));
        }
    }
}

/// The position of the first `c` from `from` on; the length where there is none.
fn index_byte(s: &[u8], c: u8, from: usize) -> (r: usize)
    requires
        from <= s@.len(),
    ensures
        from <= r <= s@.len(),
        r == from + text::index_of(s@.skip(from as int), c),
{
    let mut i: usize = from;
    while i < s.len() && s[i] != c
        invariant
            from <= i <= s@.len(),
            forall|j: int| from <= j < i ==> s@[j] != c,
        decreases s@.len() - i,
    {
        i += 1;
    }
    proof {
        text::lemma_index_is(s@.skip(from as int), c, i - from);
    }
    i
}

/// One chunk as it is sent: its size in hexadecimal, the data, each with a line end.
pub open spec fn chunk_frame(data: Seq<u8>) -> Seq<u8> {
    digits::in_digits(data.len(), 16).map_values(|c: char| c as u8) + seq![13u8, 10u8] + data + seq![13u8, 10u8]
}

/// The chunk that ends a body.
pub open spec fn last_chunk() -> Seq<u8> {
    seq![48u8, 13u8, 10u8, 13u8, 10u8]
}

/// A body that is sent in the given pieces, and ended.
pub open spec fn chunked_body(pieces: Seq<Seq<u8>>) -> Seq<u8>
    decreases pieces.len(),
{
    if pieces.len() == 0 {
        last_chunk()
    } else {
        chunk_frame(pieces[0]) + chunked_body(pieces.skip(1))
    }
}

/// The pieces, one behind the other.
pub open spec fn concat(pieces: Seq<Seq<u8>>) -> Seq<u8>
    decreases pieces.len(),
{
    if pieces.len() == 0 {
        Seq::empty()
    } else {
        pieces[0] + concat(pieces.skip(1))
    }
}

/// One chunk as it is sent.
pub fn frame_chunk(data: &[u8]) -> (r: Vec<u8>)
    ensures
        r@ == chunk_frame(data@),
{
    let size = digits(data.len() as u64, 16);
    let chars = text::chars_of(size.as_str());
    let mut r: Vec<u8> = Vec::new();
    let mut i: usize = 0;
    proof {
        digits::digits_read_back(data@.len(), 16);
    }
    let ghost hex = digits::in_digits(data@.len(), 16);
    while i < chars.len()
        invariant
            i <= chars@.len(),
            chars@ == hex,
            forall|j: int| 0 <= j < hex.len() ==> digits::is_digit_char(#[trigger] hex[j]),
            r@ == hex.take(i as int).map_values(|c: char| c as u8),
        decreases chars@.len() - i,
    {
        assert(digits::is_digit_char(hex[i as int]));
        r.push(chars[i] as u8);
        i += 1;
        assert(r@ =~= hex.take(i as int).map_values(|c: char| c as u8));
    }
    assert(hex.take(hex.len() as int) =~= hex);
    r.push(13);
    r.push(10);
    r.extend_from_slice(data);
    r.push(13);
    r.push(10);
    assert(r@ =~= chunk_frame(data@));
    r
}

/// The chunk that ends a body.
pub fn end_chunk() -> (r: Vec<u8>)
    ensures
        r@ == last_chunk(),
{
    let r: Vec<u8> = vec![48, 13, 10, 13, 10];
    assert(r@ =~= last_chunk());
    r
}

/// The line of a chunk's frame gives the chunk's size.
proof fn lemma_size_line(n: nat)
    requires
        n <= usize::MAX,
    ensures
        ({
            let line = digits::in_digits(n, 16).map_values(|c: char| c as u8) + seq![13u8, 10u8];
            &&& chunk_size(text::bytes_shown(line)) == Some(n as int)
            &&& forall|i: int| 0 <= i < line.len() - 1 ==> #[trigger] line[i] != 10
        }),
{
    let hex = digits::in_digits(n, 16);
    let line = hex.map_values(|c: char| c as u8) + seq![13u8, 10u8];
    digits::digits_read_back(n, 16);
    assert forall|i: int| 0 <= i < line.len() implies (#[trigger] line[i]) < 0x80 && (i < line.len() - 1 ==> line[i]
        != 10) by {
        if i < hex.len() {
            assert(digits::is_digit_char(hex[i]));
            assert(line[i] == hex[i] as u8);
        }
    }
    let text = text::bytes_shown(line);
    assert(text =~= hex + seq!['\r', '\n']) by {
        assert forall|i: int| 0 <= i < text.len() implies text[i] == (hex + seq!['\r', '\n'])[i] by {
            if i < hex.len() {
                assert(digits::is_digit_char(hex[i]));
                assert(line[i] == hex[i] as u8);
            }
        }
    }
    assert(digits::is_digit_char(hex[0]));
    assert(digits::is_digit_char(hex[hex.len() - 1]));
    assert(text::trim_front(text) == text);
    assert(text.drop_last() =~= hex.push('\r'));
    assert(text.drop_last().drop_last() =~= hex);
    assert(text::trim_back(text) == hex) by {
        reveal_with_fuel(text::trim_back, 3);
    }
    assert forall|i: int| 0 <= i < hex.len() implies hex[i] != ';' by {
        assert(digits::is_digit_char(hex[i]));
    }
    text::lemma_index_is(hex, ';', hex.len() as int);
    assert(text::trimmed(hex) == hex);
}

/// A chunk's frame decodes to the chunk.
proof fn lemma_frame_decodes(out: Seq<u8>, data: Seq<u8>, more: Seq<u8>, eof: bool)
    requires
        data.len() > 0,
        out.len() + data.len() <= 64 * 1024 * 1024,
    ensures
        decode_chunks(out, chunk_frame(data) + more, eof) == decode_chunks(out + data, more, eof),
{
    let hex = digits::in_digits(data.len(), 16);
    let line = hex.map_values(|c: char| c as u8) + seq![13u8, 10u8];
    let buf = chunk_frame(data) + more;
    lemma_size_line(data.len());
    let k = line.len() - 1;
    assert(buf.take(line.len() as int) =~= line);
    assert(forall|i: int| 0 <= i < k ==> buf[i] == line[i]);
    assert(buf[k] == 10);
    text::lemma_index_is(buf, 10u8, k);
    let rest = buf.skip(k + 1);
    assert(rest =~= data + seq![13u8, 10u8] + more);
    assert(rest.take(data.len() as int) =~= data);
    assert(rest.skip(data.len() as int + 2) =~= more);
}

/// What is sent in chunks is read back as it was, whatever the pieces: a body of pieces that are
/// not empty and no longer together than a request body may be.
pub proof fn chunks_round_trip(out: Seq<u8>, pieces: Seq<Seq<u8>>, eof: bool)
    requires
        forall|i: int| 0 <= i < pieces.len() ==> (#[trigger] pieces[i]).len() > 0,
        out.len() + concat(pieces).len() <= 64 * 1024 * 1024,
    ensures
        decode_chunks(out, chunked_body(pieces), eof) == ChunksV::Done(out + concat(pieces)),
    decreases pieces.len(),
{
    if pieces.len() == 0 {
        let buf = last_chunk();
        text::lemma_index_is(buf, 10u8, 2);
        lemma_size_line(0);
        let line = digits::in_digits(0, 16).map_values(|c: char| c as u8) + seq![13u8, 10u8];
        assert(buf.take(3) =~= line);
        assert(out + concat(pieces) =~= out);
    } else {
        let rest = pieces.skip(1);
        assert forall|i: int| 0 <= i < rest.len() implies (#[trigger] rest[i]).len() > 0 by {
            assert(rest[i] == pieces[i + 1]);
        }
        assert(pieces[0].len() > 0);
        lemma_frame_decodes(out, pieces[0], chunked_body(rest), eof);
        chunks_round_trip(out + pieces[0], rest, eof);
        assert(out + pieces[0] + concat(rest) =~= out + concat(pieces));
    }
}

/// Decoding may stop for want of bytes and go on when they come: the outcome is that of decoding
/// them all at once.
pub proof fn decoding_in_parts(out: Seq<u8>, buf: Seq<u8>, more: Seq<u8>, eof: bool)
    ensures
        decode_chunks(out, buf, false) matches ChunksV::More(o, b) ==> decode_chunks(out, buf + more, eof)
            == decode_chunks(o, b + more, eof),
        decode_chunks(out, buf, false) matches ChunksV::Done(o) ==> decode_chunks(out, buf + more, eof)
            == ChunksV::Done(o),
    decreases buf.len(),
{
    let nl = text::index_of(buf, 10u8);
    text::lemma_index_of(buf, 10u8);
    if nl < buf.len() {
        let all = buf + more;
        assert forall|i: int| 0 <= i < nl implies all[i] != 10 by {
            assert(buf[i] != 10);
        }
        text::lemma_index_is(all, 10u8, nl);
        assert(all.take(nl + 1) =~= buf.take(nl + 1));
        let data = buf.skip(nl + 1);
        assert(all.skip(nl + 1) =~= data + more);
        match chunk_size(text::bytes_shown(buf.take(nl + 1))) {
            Some(size) => {
                if size != 0 && out.len() + size <= 64 * 1024 * 1024 && size >= 0 && data.len() >= size + 2 {
                    assert((data + more).take(size) =~= data.take(size));
                    assert((data + more).skip(size + 2) =~= data.skip(size + 2) + more);
                    decoding_in_parts(out + data.take(size), data.skip(size + 2), more, eof);
                }
            },
            None => {},
        }
    }
}

/// The headers that are not passed on to the client.
pub open spec fn response_hops() -> Seq<Seq<char>> {
    seq!["transfer-encoding"@, "connection"@, "keep-alive"@, "content-length"@]
}

/// The header lines that are passed on to the client.
pub open spec fn response_lines(h: Seq<(Seq<char>, Seq<char>)>) -> Seq<char>
    decreases h.len(),
{
    if h.len() == 0 {
        Seq::empty()
    } else {
        let before = response_lines(h.drop_last());
        if response_hops().contains(text::smalls(h.last().0)) {
            before
        } else {
            before + h.last().0 + ": "@ + h.last().1 + "\r\n"@
        }
    }
}

/// The status line of a response.
pub open spec fn status_line(status: int, reason: Seq<char>) -> Seq<char> {
    "HTTP/1.1 "@ + digits::decimal(status) + " "@ + reason + "\r\n"@
}

fn passed_on(status: u16, reason: &str, headers: &Vec<(String, String)>) -> (r: String)
    ensures
        r@ == status_line(status as int, reason@) + response_lines(headers::pairs(headers@)),
{
    let mut r = "HTTP/1.1 ".to_owned();
    r.append(number(status as u64).as_str());
    r.append(" ");
    r.append(reason);
    r.append("\r\n");
    let hops = vec!["transfer-encoding", "connection", "keep-alive", "content-length"];
    assert(text::strs(hops@) =~= response_hops());
    let ghost first = r@;
    let ghost all = headers::pairs(headers@);
    assert(all.take(0) =~= Seq::empty());
    assert(first =~= first + response_lines(all.take(0)));
    let mut i: usize = 0;
    while i < headers.len()
        invariant
            i <= headers@.len(),
            all == headers::pairs(headers@),
            text::strs(hops@) == response_hops(),
            r@ == first + response_lines(all.take(i as int)),
        decreases headers@.len() - i,
    {
        proof {
            assert(all.take(i + 1).drop_last() =~= all.take(i as int));
            assert(all.take(i + 1).last() == (headers@[i as int].0@, headers@[i as int].1@));
        }
        if !one_of(to_smalls(headers[i].0.as_str()).as_str(), &hops) {
            r.append(headers[i].0.as_str());
            r.append(": ");
            r.append(headers[i].1.as_str());
            r.append("\r\n");
        }
        i += 1;
        assert(r@ =~= first + response_lines(all.take(i as int)));
    }
    assert(all.take(all.len() as int) =~= all);
    r
}

/// The head of a response that is sent whole: the length is that of the body, and the connection
/// stays open.
pub fn response_head(status: u16, reason: &str, headers: &Vec<(String, String)>, body_len: usize) -> (r: String)
    ensures
        r@ == status_line(status as int, reason@) + response_lines(headers::pairs(headers@))
            + "Content-Length: "@ + digits::decimal(body_len as int) + "\r\nConnection: keep-alive\r\n\r\n"@,
{
    let mut r = passed_on(status, reason, headers);
    r.append("Content-Length: ");
    r.append(number(body_len as u64).as_str());
    r.append("\r\nConnection: keep-alive\r\n\r\n");
    r
}

/// The head of a response that is sent in chunks.
pub fn stream_head(status: u16, reason: &str, headers: &Vec<(String, String)>) -> (r: String)
    ensures
        r@ == status_line(status as int, reason@) + response_lines(headers::pairs(headers@))
            + "Transfer-Encoding: chunked\r\nConnection: keep-alive\r\n\r\n"@,
{
    let mut r = passed_on(status, reason, headers);
    r.append("Transfer-Encoding: chunked\r\nConnection: keep-alive\r\n\r\n");
    r
}

/// The standard phrase of a status code; empty for those that the proxy does not know.
pub open spec fn phrase(status: u16) -> Seq<char> {
    if status == 200 { "OK"@ }
    else if status == 201 { "Created"@ }
    else if status == 204 { "No Content"@ }
    else if status == 301 { "Moved Permanently"@ }
    else if status == 302 { "Found"@ }
    else if status == 304 { "Not Modified"@ }
    else if status == 400 { "Bad Request"@ }
    else if status == 401 { "Unauthorized"@ }
    else if status == 403 { "Forbidden"@ }
    else if status == 404 { "Not Found"@ }
    else if status == 405 { "Method Not Allowed"@ }
    else if status == 408 { "Request Timeout"@ }
    else if status == 413 { "Payload Too Large"@ }
    else if status == 429 { "Too Many Requests"@ }
    else if status == 500 { "Internal Server Error"@ }
    else if status == 502 { "Bad Gateway"@ }
    else if status == 503 { "Service Unavailable"@ }
    else if status == 504 { "Gateway Timeout"@ }
    else { ""@ }
}

/// The standard phrase of a status code.
pub fn reason_phrase(status: u16) -> (r: &'static str)
    ensures
        r@ == phrase(status),
{
    match status {
        200 => "OK",
        201 => "Created",
        204 => "No Content",
        301 => "Moved Permanently",
        302 => "Found",
        304 => "Not Modified",
        400 => "Bad Request",
        401 => "Unauthorized",
        403 => "Forbidden",
        404 => "Not Found",
        405 => "Method Not Allowed",
        408 => "Request Timeout",
        413 => "Payload Too Large",
        429 => "Too Many Requests",
        500 => "Internal Server Error",
        502 => "Bad Gateway",
        503 => "Service Unavailable",
        504 => "Gateway Timeout",
        _ => "",
    }
}

// ---- what holds of heads ----

/// The last header of a name counts, however its name is written.
pub proof fn later_headers_count(
    a: Seq<(Seq<char>, Seq<char>)>,
    b: Seq<(Seq<char>, Seq<char>)>,
    k: Seq<char>,
    v: Seq<char>,
    name: Seq<char>,
)
    ensures
        last_header(b, name) is Some ==> last_header(a + b, name) == last_header(b, name),
        last_header(b, name) is None ==> last_header(a + b, name) == last_header(a, name),
        text::smalls(k) == text::smalls(name) ==> last_header(seq![(k, v)], name) == Some(v),
        text::smalls(k) != text::smalls(name) ==> last_header(seq![(k, v)], name) is None,
    decreases b.len(),
{
    reveal_with_fuel(last_header, 2);
    assert(seq![(k, v)].drop_last() =~= Seq::<(Seq<char>, Seq<char>)>::empty());
    if b.len() == 0 {
        assert(a + b =~= a);
    } else {
        later_headers_count(a, b.drop_last(), k, v, name);
        assert((a + b).drop_last() =~= a + b.drop_last());
        assert((a + b).last() == b.last());
    }
}

/// Taking a header out leaves all others, in order.
pub proof fn other_headers_stay(h: Seq<(Seq<char>, Seq<char>)>, name: Seq<char>)
    ensures
        without_header(h, name) == h.filter(|p: (Seq<char>, Seq<char>)| text::smalls(p.0) != text::smalls(name)),
    decreases h.len(),
{
    reveal(Seq::filter);
    if h.len() > 0 {
        other_headers_stay(h.drop_last(), name);
    }
}

/// A header that was set is found as it was set, whatever there was before, and no other has changed.
pub proof fn set_headers_are_found(h: Seq<(Seq<char>, Seq<char>)>, name: Seq<char>, value: Seq<char>, other: Seq<char>)
    ensures
        last_header(with_header(h, name, value), name) == Some(value),
        !headers::same_name(other, name) ==> last_header(with_header(h, name, value), other) == last_header(h, other),
    decreases h.len(),
{
    let w = with_header(h, name, value);
    reveal_with_fuel(last_header, 3);
    assert(w.drop_last() =~= without_header(h, name));
    if !headers::same_name(other, name) && h.len() > 0 {
        let front = h.drop_last();
        set_headers_are_found(front, name, value, other);
        assert(with_header(front, name, value).drop_last() =~= without_header(front, name));
        if !headers::same_name(h.last().0, name) {
            assert(without_header(h, name).drop_last() =~= without_header(front, name));
        }
    }
}

/// The headers of a head are read line by line, in order: the name stands before the first colon, the
/// value behind it, both without white ends. A line without a colon is none.
pub proof fn headers_are_read_line_by_line(a: Seq<Seq<char>>, b: Seq<Seq<char>>, k: Seq<char>, v: Seq<char>)
    requires
        !k.contains(':'),
    ensures
        header_list(a + b) == header_list(a) + header_list(b),
        header_list(seq![k + seq![':'] + v]) == seq![(text::trimmed(k), text::trimmed(v))],
        header_list(seq![k]).len() == 0,
    decreases b.len(),
{
    reveal_with_fuel(header_list, 2);
    text::cutting_finds_the_first(k, v, ':');
    assert(seq![k + seq![':'] + v].drop_last() =~= Seq::<Seq<char>>::empty());
    assert(seq![k].drop_last() =~= Seq::<Seq<char>>::empty());
    assert(header_list(seq![k + seq![':'] + v]) =~= seq![(text::trimmed(k), text::trimmed(v))]);
    if b.len() == 0 {
        assert(a + b =~= a);
        assert(header_list(a) + header_list(b) =~= header_list(a));
    } else {
        headers_are_read_line_by_line(a, b.drop_last(), k, v);
        assert((a + b).drop_last() =~= a + b.drop_last());
        assert(header_list(a + b) =~= header_list(a) + header_list(b));
    }
}

/// A request is read from its first line, the method before the path, and its headers from the others.
pub proof fn requests_are_read_from_their_head(head: Seq<char>, words: Seq<Seq<char>>)
    requires
        words.len() > 0,
        forall|i: int| 0 <= i < words.len() ==> !(#[trigger] words[i]).contains(' '),
        text::split_by(head, "\r\n"@)[0] == text::glued(words, seq![' ']),
    ensures
        request_of(head).method == words[0],
        words.len() > 1 ==> request_of(head).path == words[1],
        words.len() == 1 ==> request_of(head).path == "/"@,
        request_of(head).headers == header_list(text::split_by(head, "\r\n"@).skip(1)),
        request_of(head).body.len() == 0,
{
    text::splitting_undoes_gluing(words, ' ');
}

/// A body is as long as its header says, in decimal digits and with white ends left out; without one it is
/// empty.
pub proof fn bodies_are_as_long_as_told(h: Seq<(Seq<char>, Seq<char>)>, v: Seq<char>, n: nat)
    requires
        n <= usize::MAX,
    ensures
        last_header(h, "content-length"@) == Some(v) && text::trimmed(v) == digits::decimal(n as int)
            ==> content_length(h) == n,
        last_header(h, "content-length"@) is None ==> content_length(h) == 0,
        last_header(h, "transfer-encoding"@) is None ==> !is_chunked(h),
        last_header(h, "transfer-encoding"@) == Some(v) ==> is_chunked(h) == text::has_text(
            text::smalls(v),
            "chunked"@,
        ),
{
    digits::decimals_read_back(n as int);
}

/// An answer's headers are written one by one, in order, but for those that speak of the connection or of
/// how the body was sent.
pub proof fn answers_are_written_header_by_header(
    a: Seq<(Seq<char>, Seq<char>)>,
    b: Seq<(Seq<char>, Seq<char>)>,
    k: Seq<char>,
    v: Seq<char>,
)
    ensures
        response_lines(a + b) == response_lines(a) + response_lines(b),
        response_lines(seq![(k, v)]) == (if text::smalls(k) == "transfer-encoding"@ || text::smalls(k)
            == "connection"@ || text::smalls(k) == "keep-alive"@ || text::smalls(k) == "content-length"@ {
            Seq::empty()
        } else {
            k + ": "@ + v + "\r\n"@
        }),
    decreases b.len(),
{
    reveal_with_fuel(response_lines, 2);
    let hops = response_hops();
    assert(hops[0] == "transfer-encoding"@ && hops[1] == "connection"@ && hops[2] == "keep-alive"@ && hops[3]
        == "content-length"@);
    assert(hops.contains(text::smalls(k)) == (text::smalls(k) == hops[0] || text::smalls(k) == hops[1]
        || text::smalls(k) == hops[2] || text::smalls(k) == hops[3]));
    assert(seq![(k, v)].drop_last() =~= Seq::<(Seq<char>, Seq<char>)>::empty());
    assert(Seq::<char>::empty() + k + ": "@ + v + "\r\n"@ =~= k + ": "@ + v + "\r\n"@);
    if b.len() == 0 {
        assert(a + b =~= a);
        assert(response_lines(a) + response_lines(b) =~= response_lines(a));
    } else {
        answers_are_written_header_by_header(a, b.drop_last(), k, v);
        assert((a + b).drop_last() =~= a + b.drop_last());
        assert((a + b).last() == b.last());
        assert(response_lines(a + b) =~= response_lines(a) + response_lines(b));
    }
}

/// The size of a chunk is told in hexadecimal digits; what follows a semicolon is left out.
pub proof fn chunks_tell_their_size(line: Seq<char>, s: Seq<char>, rest: Seq<Seq<char>>, n: nat)
    requires
        n <= usize::MAX,
        forall|i: int| 0 <= i < rest.len() ==> !(#[trigger] rest[i]).contains(';'),
        !s.contains(';'),
        text::trimmed(line) == text::glued(seq![s] + rest, seq![';']),
        text::trimmed(s) == digits::in_digits(n, 16),
    ensures
        chunk_size(line) == Some(n as int),
{
    let parts = seq![s] + rest;
    assert forall|i: int| 0 <= i < parts.len() implies !(#[trigger] parts[i]).contains(';') by {
        if i > 0 {
            assert(parts[i] == rest[i - 1]);
        }
    }
    text::splitting_undoes_gluing(parts, ';');
    digits::digits_read_back(n, 16);
}

/// The phrases of the statuses that are answered with; others have none.
pub proof fn statuses_have_their_phrases(s: u16)
    ensures
        phrase(200) == "OK"@,
        phrase(201) == "Created"@,
        phrase(204) == "No Content"@,
        phrase(301) == "Moved Permanently"@,
        phrase(302) == "Found"@,
        phrase(304) == "Not Modified"@,
        phrase(400) == "Bad Request"@,
        phrase(401) == "Unauthorized"@,
        phrase(403) == "Forbidden"@,
        phrase(404) == "Not Found"@,
        phrase(405) == "Method Not Allowed"@,
        phrase(408) == "Request Timeout"@,
        phrase(413) == "Payload Too Large"@,
        phrase(429) == "Too Many Requests"@,
        phrase(500) == "Internal Server Error"@,
        phrase(502) == "Bad Gateway"@,
        phrase(503) == "Service Unavailable"@,
        phrase(504) == "Gateway Timeout"@,
        s != 200 && s != 201 && s != 204 && s != 301 && s != 302 && s != 304 && s != 400 && s != 401 && s != 403 && s != 404 && s != 405 && s != 408 && s != 413 && s != 429 && s != 500 && s != 502 && s != 503 && s != 504
            ==> phrase(s) == ""@,
{
}

/// What came behind a head is what follows the blank line; without one nothing has.
pub proof fn the_rest_follows_the_blank_line(buf: Seq<u8>, i: int)
    ensures
        text::find_from(buf, seq![13u8, 10u8, 13u8, 10u8], 0) is None ==> behind_head(buf).len() == 0,
        text::find_from(buf, seq![13u8, 10u8, 13u8, 10u8], 0) == Some(i) && 0 <= i && i + 4 <= buf.len() ==> behind_head(buf)
            == buf.subrange(i + 4, buf.len() as int),
{
    assert(head_end() =~= seq![13u8, 10u8, 13u8, 10u8]);
    if 0 <= i && i + 4 <= buf.len() {
        assert(buf.skip(i + 4) =~= buf.subrange(i + 4, buf.len() as int));
    }
}

/// A status line names the version, the status and the reason.
pub proof fn status_lines_name_the_status(status: int, reason: Seq<char>)
    ensures
        status_line(status, reason) == "HTTP/1.1 "@ + digits::decimal(status) + " "@ + reason + "\r\n"@,
{
}

} // verus!
