//! Reading a request as its bytes come in.
use vstd::prelude::*;
use crate::{digits, text};
use crate::device_proxy::http;
use crate::device_proxy::http::{BodyPlan, ChunkDecoder, ChunkStep, ChunksV, HeadStep, RawRequest, RequestV};

verus! {

broadcast use vstd::string::group_string_axioms;

/// What reading a request comes to.
#[verifier::ext_equal]
pub enum ReadV {
    /// More has to be read.
    More,
    /// The client is gone.
    Closed,
    /// The request.
    Request(RequestV),
    /// It cannot be read, in words.
    Fail(Seq<char>),
}

/// What a request with a body in chunks comes to.
pub open spec fn with_chunks(req: RequestV, chunks: ChunksV) -> ReadV {
    match chunks {
        ChunksV::More(_, _) => ReadV::More,
        ChunksV::Done(body) => ReadV::Request(RequestV { body, ..req }),
        ChunksV::Fail(m) => ReadV::Fail(m),
    }
}

/// What a request with a body of a given length comes to: where no more will come, the body is what
/// there is.
pub open spec fn with_length(req: RequestV, rest: Seq<u8>, eof: bool) -> ReadV {
    let n = http::content_length(req.headers);
    if n > 64 * 1024 * 1024 {
        ReadV::Fail("请求体超限 ("@ + digits::decimal(n) + " > 67108864)"@)
    } else if rest.len() >= n {
        ReadV::Request(RequestV { body: rest.take(n), ..req })
    } else if eof {
        ReadV::Request(RequestV { body: rest, ..req })
    } else {
        ReadV::More
    }
}

/// What a request comes to whose head has been read, with the bytes behind the head.
pub open spec fn with_body(req: RequestV, rest: Seq<u8>, eof: bool) -> ReadV {
    if http::is_chunked(req.headers) {
        with_chunks(req, http::decode_chunks(Seq::empty(), rest, eof))
    } else {
        with_length(req, rest, eof)
    }
}

/// The request that a head of bytes holds, without its body.
pub open spec fn head_of(bytes: Seq<u8>, at: int) -> RequestV {
    http::request_of(text::bytes_shown(bytes.take(at + 4)))
}

/// What reading comes to with the bytes that have come, where `eof` says that no more will.
pub open spec fn read_of(bytes: Seq<u8>, eof: bool) -> ReadV {
    match text::find_from(bytes, http::head_end(), 0) {
        Some(i) => with_body(head_of(bytes, i), bytes.skip(i + 4), eof),
        None => if bytes.len() > 10 * 1024 * 1024 {
            ReadV::Fail("请求头缓冲区超限 ("@ + digits::decimal(bytes.len() as int) + ")"@)
        } else if eof {
            ReadV::Closed
        } else {
            ReadV::More
        },
    }
}

/// What reading comes to when the parts come one after another behind what is there, and then no
/// more: after each part it is looked whether the request is whole.
pub open spec fn read_in_parts(there: Seq<u8>, parts: Seq<Seq<u8>>) -> ReadV
    decreases parts.len(),
{
    if read_of(there, false) !is More {
        read_of(there, false)
    } else if parts.len() == 0 {
        read_of(there, true)
    } else {
        read_in_parts(there + parts[0], parts.skip(1))
    }
}

/// A request, as far as it has come in.
pub struct RequestReader {
    /// The head, once it has been read.
    pub head: Option<RawRequest>,
    /// The bytes that have not been used yet, and what is decoded of a body in chunks.
    pub rest: ChunkDecoder,
    /// All the bytes that have come.
    pub seen: Ghost<Seq<u8>>,
}

/// What reading came to.
pub enum ReadStep {
    More,
    Closed,
    Request(RawRequest),
    Fail(String),
}

/// Whether decoding goes on from here as from the start, whatever comes.
pub open spec fn goes_on_from(body: Seq<u8>, out: Seq<u8>, buf: Seq<u8>) -> bool {
    forall|more: Seq<u8>, eof: bool|
        #[trigger] http::decode_chunks(out, buf + more, eof) == http::decode_chunks(Seq::empty(), body + more, eof)
}

/// The head's end stays where it is when more bytes come.
proof fn lemma_head_stays(bytes: Seq<u8>, more: Seq<u8>)
    requires
        text::find_from(bytes, http::head_end(), 0) is Some,
    ensures
        ({
            let i = text::find_from(bytes, http::head_end(), 0)->Some_0;
            &&& 0 <= i && i + 4 <= bytes.len()
            &&& text::find_from(bytes + more, http::head_end(), 0) == Some(i)
            &&& head_of(bytes + more, i) == head_of(bytes, i)
            &&& (bytes + more).skip(i + 4) == bytes.skip(i + 4) + more
        }),
{
    let p = http::head_end();
    let all = bytes + more;
    text::lemma_find_from(bytes, p, 0);
    text::lemma_find_from(all, p, 0);
    let i = text::find_from(bytes, p, 0)->Some_0;
    assert(all.subrange(i, i + p.len()) =~= bytes.subrange(i, i + p.len()));
    assert(text::occurs_at(all, p, i));
    let k = text::find_from(all, p, 0)->Some_0;
    if k < i {
        assert(all.subrange(k, k + p.len()) =~= bytes.subrange(k, k + p.len()));
        assert(text::occurs_at(bytes, p, k));
    }
    assert(all.take(i + 4) =~= bytes.take(i + 4));
    assert(all.skip(i + 4) =~= bytes.skip(i + 4) + more);
}

proof fn lemma_length(h: Seq<(Seq<char>, Seq<char>)>)
    ensures
        0 <= http::content_length(h) <= usize::MAX,
{
    if let Some(v) = http::last_header(h, "content-length"@) {
        let s = text::trimmed(v);
        digits::lemma_value_nonneg(s, 10);
        digits::lemma_value_nonneg(s.skip(1), 10);
    }
}

/// Where no more will come, decoding comes to an end.
proof fn lemma_chunks_end(out: Seq<u8>, buf: Seq<u8>)
    ensures
        http::decode_chunks(out, buf, true) !is More,
    decreases buf.len(),
{
    let nl = text::index_of(buf, 10u8);
    text::lemma_index_of(buf, 10u8);
    if 0 <= nl < buf.len() {
        let data = buf.skip(nl + 1);
        if let Some(size) = http::chunk_size(text::bytes_shown(buf.take(nl + 1))) {
            if size != 0 && out.len() + size <= 64 * 1024 * 1024 && size >= 0 && data.len() >= size + 2 {
                lemma_chunks_end(out + data.take(size), data.skip(size + 2));
            }
        }
    }
}

impl RequestReader {
    /// Whether the parts are those of the bytes that have come.
    pub open spec fn wf(self) -> bool {
        match self.head {
            None => self.rest.buf@ == self.seen@ && self.rest.out@.len() == 0,
            Some(h) => {
                let i = text::find_from(self.seen@, http::head_end(), 0);
                &&& i is Some
                &&& h@ == head_of(self.seen@, i->Some_0)
                &&& if http::is_chunked(h@.headers) {
                    goes_on_from(self.seen@.skip(i->Some_0 + 4), self.rest.out@, self.rest.buf@)
                } else {
                    self.rest.buf@ == self.seen@.skip(i->Some_0 + 4)
                }
            },
        }
    }

    /// Takes in more bytes.
    pub fn feed(&mut self, bytes: &[u8])
        requires
            old(self).wf(),
        ensures
            final(self).wf(),
            final(self).seen@ == old(self).seen@ + bytes@,
    {
        self.rest.feed(bytes);
        self.seen = Ghost(self.seen@ + bytes@);
        proof {
            if let Some(h) = old(self).head {
                let was = old(self).seen@;
                lemma_head_stays(was, bytes@);
                let i = text::find_from(was, http::head_end(), 0)->Some_0;
                if http::is_chunked(h@.headers) {
                    let body = was.skip(i + 4);
                    assert forall|more: Seq<u8>, eof: bool|
                        #[trigger] http::decode_chunks(self.rest.out@, self.rest.buf@ + more, eof)
                            == http::decode_chunks(Seq::empty(), body + bytes@ + more, eof) by {
                        let all = bytes@ + more;
                        assert(self.rest.buf@ + more =~= old(self).rest.buf@ + all);
                        assert(body + bytes@ + more =~= body + all);
                        assert(http::decode_chunks(old(self).rest.out@, old(self).rest.buf@ + all, eof)
                            == http::decode_chunks(Seq::empty(), body + all, eof));
                    }
                }
            }
        }
    }

    /// Reads as far as the bytes go, where `eof` says that no more will come.
    pub fn step(&mut self, eof: bool) -> (r: ReadStep)
        requires
            old(self).wf(),
        ensures
            match read_of(old(self).seen@, eof) {
                ReadV::More => r is More && final(self).wf() && final(self).seen@ == old(self).seen@,
                ReadV::Closed => r is Closed,
                ReadV::Request(q) => r matches ReadStep::Request(x) && x@ == q,
                ReadV::Fail(m) => r matches ReadStep::Fail(t) && t@ == m,
            },
    {
        let ghost seen = self.seen@;
        if self.head.is_none() {
            match http::head_step(self.rest.buf.as_slice(), eof) {
                HeadStep::More => {
                    return ReadStep::More;
                },
                HeadStep::Closed => {
                    return ReadStep::Closed;
                },
                HeadStep::TooLong(m) => {
                    return ReadStep::Fail(m);
                },
                HeadStep::At(i) => {
                    let n: usize = self.rest.buf.len();
                    let bytes = vstd::slice::slice_subrange(self.rest.buf.as_slice(), 0, i + 4);
                    assert(bytes@ =~= seen.take(i + 4));
                    let h = http::parse_head(bytes);
                    let body = vstd::slice::slice_to_vec(
                        vstd::slice::slice_subrange(self.rest.buf.as_slice(), i + 4, n),
                    );
                    assert(body@ =~= seen.skip(i + 4));
                    self.head = Some(h);
                    self.rest = ChunkDecoder::new(body);
                },
            }
        }
        assert(self.wf());
        let ghost at = text::find_from(seen, http::head_end(), 0)->Some_0;
        let ghost body = seen.skip(at + 4);
        let h = match self.head.take() {
            Some(h) => h,
            None => {
                return ReadStep::More;
            },
        };
        let ghost out = self.rest.out@;
        let ghost buf = self.rest.buf@;
        match http::body_plan(&h.headers) {
            BodyPlan::TooLarge(m) => ReadStep::Fail(m),
            BodyPlan::Chunked => {
                proof {
                    assert(goes_on_from(body, out, buf));
                    assert(buf + Seq::empty() =~= buf);
                    assert(body + Seq::empty() =~= body);
                    assert(http::decode_chunks(out, buf + Seq::empty(), eof) == http::decode_chunks(
                        Seq::empty(),
                        body + Seq::empty(),
                        eof,
                    ));
                }
                match self.rest.step(eof) {
                    ChunkStep::More => {
                        proof {
                            if eof {
                                lemma_chunks_end(out, buf);
                            }
                            assert forall|more: Seq<u8>, e: bool|
                                #[trigger] http::decode_chunks(self.rest.out@, self.rest.buf@ + more, e)
                                    == http::decode_chunks(Seq::empty(), body + more, e) by {
                                http::decoding_in_parts(out, buf, more, e);
                                assert(http::decode_chunks(out, buf + more, e) == http::decode_chunks(
                                    Seq::empty(),
                                    body + more,
                                    e,
                                ));
                            }
                        }
                        self.head = Some(h);
                        ReadStep::More
                    },
                    ChunkStep::Fail(m) => ReadStep::Fail(m),
                    ChunkStep::Done => {
                        let mut req = h;
                        req.body = self.rest.take_out();
                        ReadStep::Request(req)
                    },
                }
            },
            BodyPlan::Length(n) => {
                proof {
                    lemma_length(h@.headers);
                }
                if self.rest.buf.len() < n && !eof {
                    self.head = Some(h);
                    return ReadStep::More;
                }
                let mut req = h;
                req.body = text::take_bytes(self.rest.buf.as_slice(), n);
                assert(buf.len() == n ==> buf.take(n as int) =~= buf);
                ReadStep::Request(req)
            },
        }
    }
}

/// A reader of a request whose first bytes are there already.
pub fn read_raw_request_buf(there: Vec<u8>) -> (r: RequestReader)
    ensures
        r.wf(),
        r.seen@ == there@,
{
    let ghost seen = there@;
    RequestReader { head: None, rest: ChunkDecoder::new(there), seen: Ghost(seen) }
}

/// A reader of a request of which nothing is there yet.
pub fn read_raw_request() -> (r: RequestReader)
    ensures
        r.wf(),
        r.seen@ == Seq::<u8>::empty(),
{
    read_raw_request_buf(Vec::new())
}

/// Whether the size lines of a body in chunks keep their limit, as far as they are read.
pub open spec fn lines_keep_limit(out: Seq<u8>, buf: Seq<u8>) -> bool
    decreases buf.len(),
{
    let nl = text::index_of(buf, 10u8);
    if nl < 0 || nl >= buf.len() {
        buf.len() <= 1024 * 1024
    } else {
        let data = buf.skip(nl + 1);
        nl <= 1024 * 1024 && match http::chunk_size(text::bytes_shown(buf.take(nl + 1))) {
            Some(size) => if size > 0 && out.len() + size <= 64 * 1024 * 1024 && data.len() >= size + 2 {
                lines_keep_limit(out + data.take(size), data.skip(size + 2))
            } else {
                true
            },
            None => true,
        }
    }
}

/// Whether the head of a request and the size lines of its body keep their own limits. Its body may be
/// of any length.
pub open spec fn keeps_limits(bytes: Seq<u8>) -> bool {
    match text::find_from(bytes, http::head_end(), 0) {
        Some(i) => {
            &&& i + 3 <= 10 * 1024 * 1024
            &&& http::is_chunked(head_of(bytes, i).headers) ==> lines_keep_limit(Seq::empty(), bytes.skip(i + 4))
        },
        None => bytes.len() <= 10 * 1024 * 1024,
    }
}

proof fn lemma_chunks_settled(out: Seq<u8>, buf: Seq<u8>, more: Seq<u8>, eof: bool)
    requires
        lines_keep_limit(out, buf + more),
    ensures
        http::decode_chunks(out, buf, false) is Fail ==> http::decode_chunks(out, buf + more, eof)
            == http::decode_chunks(out, buf, false),
    decreases buf.len(),
{
    let all = buf + more;
    let nl = text::index_of(buf, 10u8);
    text::lemma_index_of(buf, 10u8);
    text::lemma_index_of(all, 10u8);
    if nl < buf.len() {
        assert forall|i: int| 0 <= i < nl implies all[i] != 10 by {
            assert(buf[i] != 10);
        }
        text::lemma_index_is(all, 10u8, nl);
        assert(all.take(nl + 1) =~= buf.take(nl + 1));
        let data = buf.skip(nl + 1);
        assert(all.skip(nl + 1) =~= data + more);
        if let Some(size) = http::chunk_size(text::bytes_shown(buf.take(nl + 1))) {
            if size != 0 && out.len() + size <= 64 * 1024 * 1024 && size >= 0 && data.len() >= size + 2 {
                assert((data + more).take(size) =~= data.take(size));
                assert((data + more).skip(size + 2) =~= data.skip(size + 2) + more);
                lemma_chunks_settled(out + data.take(size), data.skip(size + 2), more, eof);
            }
        }
    } else {
        let k = text::index_of(all, 10u8);
        if k < buf.len() {
            assert(buf[k] == all[k]);
        }
    }
}

/// What has been read stays so, whatever comes behind it.
proof fn lemma_settled(bytes: Seq<u8>, more: Seq<u8>)
    requires
        keeps_limits(bytes + more),
        read_of(bytes, false) !is More,
    ensures
        read_of(bytes + more, true) == read_of(bytes, false),
{
    let p = http::head_end();
    if text::find_from(bytes, p, 0) is Some {
        lemma_head_stays(bytes, more);
        let i = text::find_from(bytes, p, 0)->Some_0;
        let req = head_of(bytes, i);
        let rest = bytes.skip(i + 4);
        if http::is_chunked(req.headers) {
            http::decoding_in_parts(Seq::empty(), rest, more, true);
            lemma_chunks_settled(Seq::empty(), rest, more, true);
        } else {
            let n = http::content_length(req.headers);
            lemma_length(req.headers);
            if n <= rest.len() {
                assert((rest + more).take(n) =~= rest.take(n));
            }
        }
    } else {
        let all = bytes + more;
        text::lemma_find_from(bytes, p, 0);
        text::lemma_find_from(all, p, 0);
        if let Some(i) = text::find_from(all, p, 0) {
            if i + p.len() <= bytes.len() {
                assert(all.subrange(i, i + p.len()) =~= bytes.subrange(i, i + p.len()));
                assert(text::occurs_at(bytes, p, i));
            }
        }
    }
}

/// Reading a request does not depend on where its bytes were split: whatever was there at the start
/// and whatever the parts, it comes to what all the bytes come to at once. No byte is lost or read
/// twice. This holds of every request whose head and size lines keep their own limits, however long its
/// body is: beyond a limit, it depends on the parts how many bytes are there when that shows.
pub proof fn reading_does_not_depend_on_the_parts(there: Seq<u8>, parts: Seq<Seq<u8>>)
    requires
        keeps_limits(there + http::concat(parts)),
    ensures
        read_in_parts(there, parts) == read_of(there + http::concat(parts), true),
        read_in_parts(there, parts) == read_in_parts(Seq::empty(), seq![there + http::concat(parts)]),
    decreases parts.len(),
{
    lemma_parts(there, parts);
    let all = there + http::concat(parts);
    let one = seq![all];
    assert(one.skip(1) =~= Seq::empty());
    assert(http::concat(one.skip(1)) =~= Seq::empty());
    assert(http::concat(one) =~= all);
    assert(Seq::<u8>::empty() + http::concat(one) =~= all);
    lemma_parts(Seq::empty(), one);
}

proof fn lemma_parts(there: Seq<u8>, parts: Seq<Seq<u8>>)
    requires
        keeps_limits(there + http::concat(parts)),
    ensures
        read_in_parts(there, parts) == read_of(there + http::concat(parts), true),
    decreases parts.len(),
{
    if read_of(there, false) !is More {
        lemma_settled(there, http::concat(parts));
    } else if parts.len() == 0 {
        assert(there + http::concat(parts) =~= there);
    } else {
        assert(there + http::concat(parts) =~= there + parts[0] + http::concat(parts.skip(1)));
        lemma_parts(there + parts[0], parts.skip(1));
    }
}

// ---- what holds of reading ----

/// A request is read when its head has ended and its body is there: as many bytes as it tells of, or its
/// chunks. A client that stops early has sent the rest; one that sends no head is gone.
pub proof fn requests_end_with_their_body(bytes: Seq<u8>, eof: bool, i: int, n: int)
    ensures
        text::find_from(bytes, seq![13u8, 10u8, 13u8, 10u8], 0) is None ==> {
            &&& bytes.len() > 10485760 ==> read_of(bytes, eof) is Fail
            &&& bytes.len() <= 10485760 && eof ==> read_of(bytes, eof) is Closed
            &&& bytes.len() <= 10485760 && !eof ==> read_of(bytes, eof) is More
        },
        text::find_from(bytes, seq![13u8, 10u8, 13u8, 10u8], 0) == Some(i) && 0 <= i && i + 4 <= bytes.len() ==> {
            let head = http::request_of(text::bytes_shown(bytes.subrange(0, i + 4)));
            &&& !http::is_chunked(head.headers) && http::content_length(head.headers) == n && n >= 0 ==> {
                &&& n > 67108864 ==> read_of(bytes, eof) is Fail
                &&& n <= 67108864 && i + 4 + n <= bytes.len() ==> read_of(bytes, eof) == ReadV::Request(
                    (RequestV { body: bytes.subrange(i + 4, i + 4 + n), ..head }),
                )
                &&& n <= 67108864 && i + 4 + n > bytes.len() && eof ==> read_of(bytes, eof) == ReadV::Request(
                    (RequestV { body: bytes.subrange(i + 4, bytes.len() as int), ..head }),
                )
                &&& n <= 67108864 && i + 4 + n > bytes.len() && !eof ==> read_of(bytes, eof) is More
            }
            &&& http::is_chunked(head.headers) ==> (match http::decode_chunks(
                Seq::empty(),
                bytes.subrange(i + 4, bytes.len() as int),
                eof,
            ) {
                ChunksV::Done(body) => read_of(bytes, eof) == ReadV::Request((RequestV { body, ..head })),
                ChunksV::Fail(m) => read_of(bytes, eof) == ReadV::Fail(m),
                ChunksV::More(_, _) => read_of(bytes, eof) is More,
            })
        },
{
    assert(http::head_end() =~= seq![13u8, 10u8, 13u8, 10u8]);
    if 0 <= i && i + 4 <= bytes.len() {
        assert(bytes.take(i + 4) =~= bytes.subrange(0, i + 4));
        assert(bytes.skip(i + 4) =~= bytes.subrange(i + 4, bytes.len() as int));
        if n >= 0 && i + 4 + n <= bytes.len() {
            assert(bytes.skip(i + 4).take(n) =~= bytes.subrange(i + 4, i + 4 + n));
        }
    }
}

} // verus!
