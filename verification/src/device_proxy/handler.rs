//! Decisions on decrypted requests: which hosts are watched, what is captured, how a request is
//! passed on and how its response is relayed.
use vstd::prelude::*;
use crate::{assoc, digits, jwt, text};
use crate::device_proxy::{headers, http};
use crate::device_proxy::http::RawRequest;

verus! {

broadcast use vstd::string::group_string_axioms;

/// The path at which credits are claimed.
pub const SIGNIN_PATH: &'static str = "/trae/api/v2/ug/checkin_credits/claim";

/// So many handshakes in a row that the client breaks off make a host one that pins certificates.
pub const PIN_FAIL_THRESHOLD: u32 = 3;

/// How much of a streamed response is kept for the log.
pub const MAX_LOG_BODY: usize = 10485760;

/// What the proxy knows while it runs.
pub struct ProxyCtx {
    /// The watched domains, in small letters.
    pub targets: Vec<String>,
    /// Whether tokens are taken into the accounts.
    pub auto_capture_jwt: bool,
    /// For each host, the handshakes in a row that the client broke off.
    pub pin_state: Vec<(String, u32)>,
}

/// Whether a host is a domain or below it.
pub open spec fn is_within(host: Seq<char>, domain: Seq<char>) -> bool {
    host == domain || text::has_suffix(host, "."@ + domain)
}

/// Whether a host is in one of the domains.
pub open spec fn is_target(targets: Seq<Seq<char>>, host: Seq<char>) -> bool {
    exists|i: int| 0 <= i < targets.len() && is_within(text::smalls(host), #[trigger] targets[i])
}

/// The first of the domains that a name is in.
pub open spec fn first_target(targets: Seq<Seq<char>>, name: Seq<char>) -> Option<Seq<char>>
    decreases targets.len(),
{
    if targets.len() == 0 {
        None
    } else if is_within(name, targets[0]) {
        Some(targets[0])
    } else {
        first_target(targets.skip(1), name)
    }
}

/// There is a first domain exactly where there is one.
proof fn lemma_first_target(targets: Seq<Seq<char>>, host: Seq<char>)
    ensures
        first_target(targets, text::smalls(host)) is Some <==> is_target(targets, host),
    decreases targets.len(),
{
    if targets.len() > 0 {
        let rest = targets.skip(1);
        lemma_first_target(rest, host);
        if !is_within(text::smalls(host), targets[0]) {
            if is_target(rest, host) {
                let i = choose|i: int| 0 <= i < rest.len() && is_within(text::smalls(host), #[trigger] rest[i]);
                assert(rest[i] == targets[i + 1]);
            }
            if is_target(targets, host) {
                let i = choose|i: int| 0 <= i < targets.len() && is_within(text::smalls(host), #[trigger] targets[i]);
                assert(rest[i - 1] == targets[i]);
            }
        }
    }
}

/// The broken handshakes counted for a host.
pub open spec fn pin_count(pins: Seq<(String, u32)>, host: Seq<char>) -> int {
    match assoc::lookup(pins, host) {
        Some(c) => c as int,
        None => 0,
    }
}

/// The count after one more broken handshake.
pub open spec fn one_more(count: int) -> int {
    if count < u32::MAX {
        count + 1
    } else {
        count
    }
}

/// The known paths and what they are for.
pub open spec fn known_paths() -> Seq<(Seq<char>, Seq<char>)> {
    seq![
        ("/trae/api/v2/ug/checkin_credits/claim"@, "签到领取"@),
        ("/trae/api/v2/ug/checkin_credits/status"@, "签到状态"@),
        ("/cloudide/api"@, "CloudIDE网关"@),
        ("/oauth/"@, "OAuth"@),
        ("ExchangeToken"@, "换Token"@),
        ("ide_user_ent_usage"@, "积分用量"@),
        ("/api/agent/v3/llm_utils_chat"@, "大模型对话"@),
        ("/api/ide/v1/get_detail_param"@, "模型列表"@),
        ("/api/remote/v1/plugins"@, "插件接口"@),
        ("/api/remote/v1/skills"@, "技能列表"@),
    ]
}

/// What the first entry that stands in the path says it is for.
pub open spec fn path_label(known: Seq<(Seq<char>, Seq<char>)>, path: Seq<char>) -> Option<Seq<char>>
    decreases known.len(),
{
    if known.len() == 0 {
        None
    } else if text::has_text(path, known[0].0) {
        Some(known[0].1)
    } else {
        path_label(known.skip(1), path)
    }
}

/// The contents of a list of pairs of borrowed strings.
pub open spec fn str_pairs(v: Seq<(&str, &str)>) -> Seq<(Seq<char>, Seq<char>)> {
    v.map_values(|p: (&str, &str)| (p.0@, p.1@))
}

fn count_of(pins: &Vec<(String, u32)>, host: &str) -> (r: u32)
    ensures
        r == pin_count(pins@, host@),
{
    match assoc::find(pins, host) {
        Some(c) => *c,
        None => 0,
    }
}

impl ProxyCtx {
    /// The broken handshakes in a row of a host.
    pub open spec fn broken(self, host: Seq<char>) -> int {
        pin_count(self.pin_state@, host)
    }

    /// Whether a host is in a watched domain, in any case.
    pub fn host_in_targets(&self, host: &str) -> (r: bool)
        ensures
            r == is_target(text::texts(self.targets@), host@),
    {
        proof {
            lemma_first_target(text::texts(self.targets@), host@);
        }
        let h = text::to_smalls(host);
        self.matching_target(h.as_str()).is_some()
    }

    /// The first watched domain that a name is in, as it is written.
    pub fn matching_target(&self, name: &str) -> (r: Option<&str>)
        ensures
            text::opt_str(r) == first_target(text::texts(self.targets@), name@),
    {
        let ghost all = text::texts(self.targets@);
        let mut i: usize = 0;
        assert(all.skip(0) =~= all);
        while i < self.targets.len()
            invariant
                i <= self.targets@.len(),
                all == text::texts(self.targets@),
                first_target(all, name@) == first_target(all.skip(i as int), name@),
            decreases self.targets@.len() - i,
        {
            let d = self.targets[i].as_str();
            proof {
                assert(all.skip(i as int)[0] == d@);
                assert(all.skip(i as int).skip(1) =~= all.skip(i + 1));
            }
            if text::same(name, d) || text::ends_with(name, text::cat(".", d).as_str()) {
                return Some(d);
            }
            i += 1;
        }
        None
    }

    /// A handshake went through: the host's count is gone, the others stay.
    pub fn note_handshake_ok(&mut self, host: &str)
        ensures
            final(self).broken(host@) == 0,
            forall|h: Seq<char>| h != host@ ==> #[trigger] final(self).broken(h) == old(self).broken(h),
            final(self).targets == old(self).targets,
            final(self).auto_capture_jwt == old(self).auto_capture_jwt,
    {
        let ghost before = self.pin_state@;
        assoc::unset(&mut self.pin_state, host);
        assert forall|h: Seq<char>| h != host@ implies #[trigger] self.broken(h) == pin_count(before, h) by {
            assert(assoc::lookup(self.pin_state@, h) == assoc::lookup(before, h));
        }
    }

    /// The client broke a handshake off: the host's count goes up by one, the others stay. Whether
    /// it has just reached the threshold.
    pub fn note_handshake_fail(&mut self, host: &str) -> (r: bool)
        ensures
            final(self).broken(host@) == one_more(old(self).broken(host@)),
            forall|h: Seq<char>| h != host@ ==> #[trigger] final(self).broken(h) == old(self).broken(h),
            r == (final(self).broken(host@) == 3),
            final(self).targets == old(self).targets,
            final(self).auto_capture_jwt == old(self).auto_capture_jwt,
    {
        let c: u32 = count_of(&self.pin_state, host).saturating_add(1);
        let ghost before = self.pin_state@;
        assoc::set(&mut self.pin_state, host, c);
        assert forall|h: Seq<char>| h != host@ implies #[trigger] self.broken(h) == pin_count(before, h) by {
            assert(assoc::lookup(self.pin_state@, h) == assoc::lookup(before, h));
        }
        c == PIN_FAIL_THRESHOLD
    }

    /// Whether a host has been found to pin certificates.
    pub fn is_pinned(&self, host: &str) -> (r: bool)
        ensures
            r == (self.broken(host@) >= 3),
    {
        count_of(&self.pin_state, host) >= PIN_FAIL_THRESHOLD
    }

    /// What a path is for, where it is a known one.
    pub fn classify_path(&self, path: &str) -> (r: Option<&'static str>)
        ensures
            text::opt_str(r) == path_label(known_paths(), path@),
    {
        let known = vec![
            ("/trae/api/v2/ug/checkin_credits/claim", "签到领取"),
            ("/trae/api/v2/ug/checkin_credits/status", "签到状态"),
            ("/cloudide/api", "CloudIDE网关"),
            ("/oauth/", "OAuth"),
            ("ExchangeToken", "换Token"),
            ("ide_user_ent_usage", "积分用量"),
            ("/api/agent/v3/llm_utils_chat", "大模型对话"),
            ("/api/ide/v1/get_detail_param", "模型列表"),
            ("/api/remote/v1/plugins", "插件接口"),
            ("/api/remote/v1/skills", "技能列表"),
        ];
        let ghost all = str_pairs(known@);
        assert(all =~= known_paths());
        assert(all.skip(0) =~= all);
        let mut i: usize = 0;
        while i < known.len()
            invariant
                i <= known@.len(),
                all == str_pairs(known@),
                all == known_paths(),
                path_label(all, path@) == path_label(all.skip(i as int), path@),
            decreases known@.len() - i,
        {
            proof {
                assert(all.skip(i as int)[0] == (known@[i as int].0@, known@[i as int].1@));
                assert(all.skip(i as int).skip(1) =~= all.skip(i + 1));
            }
            if text::contains(path, known[i].0) {
                return Some(known[i].1);
            }
            i += 1;
        }
        None
    }
}

/// The count of a host after a run of handshakes, each broken off or not.
pub open spec fn count_after(count: int, broken: Seq<bool>) -> int
    decreases broken.len(),
{
    if broken.len() == 0 {
        count
    } else if broken.last() {
        one_more(count_after(count, broken.drop_last()))
    } else {
        0
    }
}

/// A host is taken to pin certificates exactly when its last three handshakes, or more, were all
/// broken off: one that goes through starts the count again.
pub proof fn pinned_after_three_in_a_row(broken: Seq<bool>)
    requires
        broken.len() < u32::MAX,
    ensures
        count_after(0, broken) >= 3 <==> broken.len() >= 3 && broken[broken.len() - 1] && broken[broken.len() - 2]
            && broken[broken.len() - 3],
{
    lemma_count_bound(broken);
    if broken.len() >= 1 && broken.last() {
        let b = broken.drop_last();
        lemma_count_bound(b);
        if b.len() >= 1 && b.last() {
            let c = b.drop_last();
            lemma_count_bound(c);
            assert(b.last() == broken[broken.len() - 2]);
            if c.len() >= 1 && c.last() {
                assert(c.last() == broken[broken.len() - 3]);
                lemma_count_bound(c.drop_last());
            } else if c.len() >= 1 {
                assert(c.last() == broken[broken.len() - 3]);
            }
        } else if b.len() >= 1 {
            assert(b.last() == broken[broken.len() - 2]);
        }
    }
}

proof fn lemma_count_bound(broken: Seq<bool>)
    ensures
        0 <= count_after(0, broken) <= broken.len(),
    decreases broken.len(),
{
    if broken.len() > 0 {
        lemma_count_bound(broken.drop_last());
    }
}

/// The headers that may hold a token, in the order they are asked.
pub open spec fn auth_of(h: Seq<(Seq<char>, Seq<char>)>) -> Option<Seq<char>> {
    match (
        filled(h, "authorization"@),
        filled(h, "x-cloudide-token"@),
        filled(h, "x-icube-token"@),
    ) {
        (Some(v), _, _) => Some(v),
        (None, Some(v), _) => Some(v),
        (None, None, v) => v,
    }
}

/// A header's value, trimmed, where something is left.
pub open spec fn filled(h: Seq<(Seq<char>, Seq<char>)>, name: Seq<char>) -> Option<Seq<char>> {
    match http::last_header(h, name) {
        Some(v) => if text::trimmed(v).len() > 0 {
            Some(text::trimmed(v))
        } else {
            None
        },
        None => None,
    }
}

fn filled_header(req: &RawRequest, name: &str) -> (r: Option<String>)
    ensures
        text::opt_text(r) == filled(req@.headers, name@),
{
    match req.hget(name) {
        Some(v) => {
            let t = text::trim(v);
            if t.as_str().unicode_len() > 0 {
                Some(t)
            } else {
                None
            }
        },
        None => None,
    }
}

/// The token that a request carries.
pub fn auth_header_value(req: &RawRequest) -> (r: Option<String>)
    ensures
        text::opt_text(r) == auth_of(req@.headers),
{
    match filled_header(req, "authorization") {
        Some(v) => Some(v),
        None => match filled_header(req, "x-cloudide-token") {
            Some(v) => Some(v),
            None => filled_header(req, "x-icube-token"),
        },
    }
}

// ---- passing a request on ----

/// The headers that are not passed on to the server.
pub open spec fn request_hops() -> Seq<Seq<char>> {
    seq![
        "proxy-connection"@,
        "connection"@,
        "keep-alive"@,
        "proxy-authorization"@,
        "host"@,
        "content-length"@,
    ]
}

/// The headers that are passed on, which are those that can be sent; where `recode` holds, the encodings
/// asked for are those that can be undone.
pub open spec fn passed_headers(h: Seq<(Seq<char>, Seq<char>)>, recode: bool) -> Seq<(Seq<char>, Seq<char>)>
    decreases h.len(),
{
    if h.len() == 0 {
        Seq::empty()
    } else {
        let before = passed_headers(h.drop_last(), recode);
        let k = h.last().0;
        let v = if recode && headers::same_name(k, "accept-encoding"@) {
            "gzip, deflate"@
        } else {
            h.last().1
        };
        if request_hops().contains(text::smalls(k)) || !headers::can_be_sent(k, v) {
            before
        } else {
            before.push((k, v))
        }
    }
}

/// No header that concerns one connection alone is passed on, and none that cannot be sent.
pub proof fn hops_are_dropped(h: Seq<(Seq<char>, Seq<char>)>, recode: bool, i: int)
    requires
        0 <= i < passed_headers(h, recode).len(),
    ensures
        !request_hops().contains(text::smalls(passed_headers(h, recode)[i].0)),
        headers::can_be_sent(passed_headers(h, recode)[i].0, passed_headers(h, recode)[i].1),
    decreases h.len(),
{
    if h.len() > 0 {
        let before = passed_headers(h.drop_last(), recode);
        if i < before.len() {
            hops_are_dropped(h.drop_last(), recode, i);
        }
    }
}

/// Every header but the six that concern one connection alone, and those that cannot be sent, is passed on
/// as it is, once and in order. Where bodies are decoded, only the encodings that are asked for change.
pub proof fn all_other_headers_are_passed_on(h: Seq<(Seq<char>, Seq<char>)>, recode: bool)
    ensures
        passed_headers(h, recode) == h.map_values(
            |p: (Seq<char>, Seq<char>)|
                (
                    p.0,
                    if recode && text::smalls(p.0) == text::smalls("accept-encoding"@) {
                        "gzip, deflate"@
                    } else {
                        p.1
                    },
                ),
        ).filter(
            |p: (Seq<char>, Seq<char>)|
                {
                    let name = text::smalls(p.0);
                    &&& name != "proxy-connection"@
                    &&& name != "connection"@
                    &&& name != "keep-alive"@
                    &&& name != "proxy-authorization"@
                    &&& name != "host"@
                    &&& name != "content-length"@
                    &&& headers::can_be_sent(p.0, p.1)
                },
        ),
    decreases h.len(),
{
    reveal(Seq::filter);
    let hops = request_hops();
    assert(hops[0] == "proxy-connection"@ && hops[1] == "connection"@ && hops[2] == "keep-alive"@);
    assert(hops[3] == "proxy-authorization"@ && hops[4] == "host"@ && hops[5] == "content-length"@);
    if h.len() > 0 {
        all_other_headers_are_passed_on(h.drop_last(), recode);
        let rewrite = |p: (Seq<char>, Seq<char>)|
            (
                p.0,
                if recode && text::smalls(p.0) == text::smalls("accept-encoding"@) {
                    "gzip, deflate"@
                } else {
                    p.1
                },
            );
        assert(h.map_values(rewrite).drop_last() =~= h.drop_last().map_values(rewrite));
        assert(h.map_values(rewrite).last() == rewrite(h.last()));
    }
}

/// The headers that are passed on.
pub fn forward_headers(h: &Vec<(String, String)>, recode: bool) -> (r: Vec<(String, String)>)
    ensures
        headers::pairs(r@) == passed_headers(headers::pairs(h@), recode),
{
    let hops = vec!["proxy-connection", "connection", "keep-alive", "proxy-authorization", "host", "content-length"];
    assert(text::strs(hops@) =~= request_hops());
    let mut r: Vec<(String, String)> = Vec::new();
    let ghost all = headers::pairs(h@);
    assert(all.take(0) =~= Seq::empty());
    assert(headers::pairs(r@) =~= Seq::empty());
    let mut i: usize = 0;
    while i < h.len()
        invariant
            i <= h@.len(),
            all == headers::pairs(h@),
            text::strs(hops@) == request_hops(),
            headers::pairs(r@) == passed_headers(all.take(i as int), recode),
        decreases h@.len() - i,
    {
        let ghost before = headers::pairs(r@);
        proof {
            assert(all.take(i + 1).drop_last() =~= all.take(i as int));
            assert(all.take(i + 1).last() == (h@[i as int].0@, h@[i as int].1@));
        }
        if !text::one_of(text::to_smalls(h[i].0.as_str()).as_str(), &hops) {
            let v = if recode && text::same_ignoring_case(h[i].0.as_str(), "accept-encoding") {
                "gzip, deflate".to_owned()
            } else {
                h[i].1.clone()
            };
            if headers::sendable(h[i].0.as_str(), v.as_str()) {
                let e = (h[i].0.clone(), v);
                r.push(e);
                assert(headers::pairs(r@) =~= before.push((e.0@, e.1@)));
            }
        }
        i += 1;
    }
    assert(all.take(all.len() as int) =~= all);
    r
}

/// The body that is passed on: a GET has none.
pub fn forward_body(req: &RawRequest) -> (r: Vec<u8>)
    ensures
        r@ == if headers::same_name(req.method@, "GET"@) {
            Seq::empty()
        } else {
            req.body@
        },
{
    if text::same_ignoring_case(req.method.as_str(), "GET") {
        Vec::new()
    } else {
        vstd::slice::slice_to_vec(req.body.as_slice())
    }
}

/// Whether the response to a request is streamed.
pub open spec fn is_streamed(req: http::RequestV) -> bool {
    text::has_text(req.path, "llm_utils_chat"@) || match http::last_header(req.headers, "accept"@) {
        Some(v) => text::has_text(v, "event-stream"@),
        None => false,
    }
}

/// How a request is passed on.
pub struct ForwardPlan {
    pub method: String,
    pub uri: String,
    pub host: String,
    pub headers: Vec<(String, String)>,
    pub body: Vec<u8>,
    pub stream: bool,
    pub timeout_secs: u64,
    pub line: String,
}

/// How a request of a decrypted connection is passed on: with five minutes for a stream, half a
/// minute for anything else.
pub fn forward_upstream(host: &str, port: u16, req: &RawRequest) -> (r: ForwardPlan)
    ensures
        ({
            let place = host@ + ":"@ + digits::decimal(port as int);
            &&& r.method@ == req.method@
            &&& r.uri@ == "https://"@ + place + req.path@
            &&& r.host@ == place
            &&& headers::pairs(r.headers@) == passed_headers(req@.headers, true)
            &&& r.body@ == if headers::same_name(req.method@, "GET"@) {
                Seq::<u8>::empty()
            } else {
                req.body@
            }
            &&& r.stream == is_streamed(req@)
            &&& r.timeout_secs == if is_streamed(req@) {
                300
            } else {
                30u64
            }
            &&& r.line@ == "  [forward] -> "@ + req.method@ + " https://"@ + place + req.path@ + " ("@ + digits::decimal(
                req.body@.len() as int,
            ) + " bytes body)"@
        }),
{
    let place = text::cat3(host, ":", digits::number(port as u64).as_str());
    let stream = text::contains(req.path.as_str(), "llm_utils_chat") || match req.hget("accept") {
        Some(v) => text::contains(v, "event-stream"),
        None => false,
    };
    let mut line = text::cat3("  [forward] -> ", req.method.as_str(), " https://");
    line.append(place.as_str());
    line.append(req.path.as_str());
    line.append(" (");
    line.append(digits::number(req.body.len() as u64).as_str());
    line.append(" bytes body)");
    ForwardPlan {
        method: req.method.clone(),
        uri: text::cat3("https://", place.as_str(), req.path.as_str()),
        host: place,
        headers: forward_headers(&req.headers, true),
        body: forward_body(req),
        stream,
        timeout_secs: if stream {
            300
        } else {
            30
        },
        line,
    }
}

/// Why a request could not be answered from the server.
pub enum Failure {
    /// The exchange failed, in words.
    Error(String),
    /// The server did not answer in time.
    Timeout,
    /// The body of the answer could not be read, in words.
    Body(String),
}

/// What the client is answered where the server did not.
pub struct Refusal {
    pub status: u16,
    pub reason: &'static str,
    pub line: String,
}

/// What the client is answered where the server did not: 504 where it was too slow, else 502. The
/// phrase is the body too, and the connection is closed.
pub fn refuse(failure: &Failure, timeout_secs: u64, host: &str, path: &str) -> (r: Refusal)
    ensures
        r.status == if failure is Timeout {
            504
        } else {
            502u16
        },
        r.reason@ == http::phrase(r.status),
        r.line@ == match *failure {
            Failure::Error(e) => "  [forward] 错误: "@ + e@ + " (host="@ + host@ + ", path="@ + path@ + ")"@,
            Failure::Timeout => "  [forward] 超时 (timeout="@ + digits::decimal(timeout_secs as int) + "s): "@ + host@
                + path@,
            Failure::Body(e) => "  [forward] 读上游响应失败: "@ + e@ + " (host="@ + host@ + ", path="@ + path@ + ")"@,
        },
{
    match failure {
        Failure::Error(e) => {
            let mut line = text::cat3("  [forward] 错误: ", e.as_str(), " (host=");
            line.append(host);
            line.append(", path=");
            line.append(path);
            line.append(")");
            Refusal { status: 502, reason: "Bad Gateway", line }
        },
        Failure::Timeout => {
            let mut line = text::cat3("  [forward] 超时 (timeout=", digits::number(timeout_secs).as_str(), "s): ");
            line.append(host);
            line.append(path);
            Refusal { status: 504, reason: "Gateway Timeout", line }
        },
        Failure::Body(e) => {
            let mut line = text::cat3("  [forward] 读上游响应失败: ", e.as_str(), " (host=");
            line.append(host);
            line.append(", path=");
            line.append(path);
            line.append(")");
            Refusal { status: 502, reason: "Bad Gateway", line }
        },
    }
}

/// Whether a header asks to close the connection.
pub open spec fn asks_to_close(h: (Seq<char>, Seq<char>)) -> bool {
    headers::same_name(h.0, "connection"@) && headers::same_name(h.1, "close"@)
}

/// Whether the connection stays open after a response: unless a header asks to close it.
pub fn keeps_open(resp: &Vec<(String, String)>) -> (r: bool)
    ensures
        r == forall|i: int| 0 <= i < resp@.len() ==> !asks_to_close(#[trigger] headers::pairs(resp@)[i]),
{
    let mut i: usize = 0;
    while i < resp.len()
        invariant
            i <= resp@.len(),
            forall|k: int| 0 <= k < i ==> !asks_to_close(#[trigger] headers::pairs(resp@)[k]),
        decreases resp@.len() - i,
    {
        assert(headers::pairs(resp@)[i as int] == (resp@[i as int].0@, resp@[i as int].1@));
        if text::same_ignoring_case(resp[i].0.as_str(), "connection") && text::same_ignoring_case(
            resp[i].1.as_str(),
            "close",
        ) {
            return false;
        }
        i += 1;
    }
    true
}

/// The line that reports a response.
pub fn response_line(status: u16, reason: &str, length: Option<usize>, host: &str, path: &str) -> (r: String)
    ensures
        r@ == "  [forward] <- "@ + digits::decimal(status as int) + " "@ + reason@ + (match length {
            Some(n) => " ("@ + digits::decimal(n as int) + ") bytes from "@,
            None => " (streaming) from "@,
        }) + host@ + path@,
{
    let mut r = text::cat3("  [forward] <- ", digits::number(status as u64).as_str(), " ");
    r.append(reason);
    let ghost a = r@;
    match length {
        Some(n) => {
            r.append(" (");
            r.append(digits::number(n as u64).as_str());
            r.append(") bytes from ");
            assert(r@ =~= a + (" ("@ + digits::decimal(n as int) + ") bytes from "@));
        },
        None => {
            r.append(" (streaming) from ");
        },
    }
    r.append(host);
    r.append(path);
    r
}

// ---- relaying a stream ----

/// A response that is being relayed: how much went to the client, and what is kept for the log.
pub struct Relay {
    pub total: usize,
    pub logged: Vec<u8>,
    pub interrupted: bool,
}

/// What happened on a stream.
pub enum StreamEvent {
    /// A piece of the body was sent on.
    Sent(Vec<u8>),
    /// The client could not be written to.
    ClientGone,
    /// The server sent nothing for too long.
    Idle,
    /// The stream broke, in words.
    Broken(String),
    /// The body is over.
    End,
}

/// What is kept for the log after a piece: whole pieces, until the limit is passed.
pub open spec fn kept(logged: Seq<u8>, piece: Seq<u8>) -> Seq<u8> {
    if logged.len() < 10 * 1024 * 1024 {
        logged + piece
    } else {
        logged
    }
}

impl Relay {
    /// Nothing sent yet.
    pub fn new() -> (r: Relay)
        ensures
            r.total == 0 && r.logged@ == Seq::<u8>::empty() && !r.interrupted,
    {
        Relay { total: 0, logged: Vec::new(), interrupted: false }
    }

    /// Takes in what happened: whether the relay goes on, and a line to log.
    pub fn step(&mut self, event: &StreamEvent) -> (r: (bool, Option<String>))
        requires
            event matches StreamEvent::Sent(piece) ==> old(self).total + piece@.len() <= usize::MAX,
        ensures
            r.0 == (event is Sent),
            match *event {
                StreamEvent::Sent(piece) => final(self).total == old(self).total + piece@.len() && final(self).logged@
                    == kept(old(self).logged@, piece@) && final(self).interrupted == old(self).interrupted && r.1 is None,
                StreamEvent::ClientGone => final(self).total == old(self).total && final(self).logged@
                    == old(self).logged@ && final(self).interrupted && r.1 is None,
                StreamEvent::Idle => final(self).total == old(self).total && final(self).logged@ == old(self).logged@
                    && final(self).interrupted && text::opt_text(r.1) == Some(
                    "  [forward] 流式空闲超时 (300s)，中断 (已转发 "@ + digits::decimal(old(self).total as int) + " bytes)"@,
                ),
                StreamEvent::Broken(e) => final(self).total == old(self).total && final(self).logged@
                    == old(self).logged@ && final(self).interrupted && text::opt_text(r.1) == Some(
                    "  [forward] 流式转发中断: "@ + e@ + " (已转发 "@ + digits::decimal(old(self).total as int) + " bytes)"@,
                ),
                StreamEvent::End => *final(self) == *old(self) && r.1 is None,
            },
    {
        match event {
            StreamEvent::Sent(piece) => {
                self.total = self.total + piece.len();
                if self.logged.len() < MAX_LOG_BODY {
                    self.logged.extend_from_slice(piece.as_slice());
                }
                (true, None)
            },
            StreamEvent::ClientGone => {
                self.interrupted = true;
                (false, None)
            },
            StreamEvent::Idle => {
                self.interrupted = true;
                (
                    false,
                    Some(
                        text::cat3(
                            "  [forward] 流式空闲超时 (300s)，中断 (已转发 ",
                            digits::number(self.total as u64).as_str(),
                            " bytes)",
                        ),
                    ),
                )
            },
            StreamEvent::Broken(e) => {
                self.interrupted = true;
                let mut line = text::cat3("  [forward] 流式转发中断: ", e.as_str(), " (已转发 ");
                line.append(digits::number(self.total as u64).as_str());
                line.append(" bytes)");
                (false, Some(line))
            },
            StreamEvent::End => (false, None),
        }
    }

    /// The line that reports the end.
    pub fn end_line(&self) -> (r: String)
        ensures
            r@ == "  [forward] 流式转发"@ + (if self.interrupted {
                "中断"@
            } else {
                "完成"@
            }) + "，共 "@ + digits::decimal(self.total as int) + " bytes"@,
    {
        let mut r = text::cat3(
            "  [forward] 流式转发",
            if self.interrupted {
                "中断"
            } else {
                "完成"
            },
            "，共 ",
        );
        r.append(digits::number(self.total as u64).as_str());
        r.append(" bytes");
        r
    }
}

// ---- a decrypted connection ----

/// What to do with a request.
pub enum MitmAction {
    /// Pass it on with the device of this user.
    Signin(String),
    /// Hand the connection over to a WebSocket.
    WebSocket,
    /// Pass it on.
    Forward,
}

/// The model of what to do with a request.
pub enum MitmActionV {
    Signin(Seq<char>),
    WebSocket,
    Forward,
}

impl View for MitmAction {
    type V = MitmActionV;

    open spec fn view(&self) -> MitmActionV {
        match *self {
            MitmAction::Signin(u) => MitmActionV::Signin(u@),
            MitmAction::WebSocket => MitmActionV::WebSocket,
            MitmAction::Forward => MitmActionV::Forward,
        }
    }
}

/// What a request is logged as, what it gives to capture, and what to do with it.
pub struct MitmPlan {
    /// The line of the request.
    pub line: String,
    /// The line that reports a token on a host for the first time.
    pub hint: Option<String>,
    /// A user and the token to take in.
    pub capture: Option<(String, String)>,
    /// The line on a claim without a user.
    pub note: Option<String>,
    pub action: MitmAction,
}

/// The token to take in, with its user.
pub open spec fn capture_of(auth: Seq<char>) -> Option<(Seq<char>, Seq<char>)> {
    let raw = match text::stripped(auth, "Cloud-IDE-JWT "@) {
        Some(t) => t,
        None => auth,
    };
    match jwt::captured_token(raw) {
        Some(full) => match jwt::token_user(full) {
            Some(uid) => Some((uid, full)),
            None => None,
        },
        None => None,
    }
}

/// The user of the token that a request carries.
pub open spec fn claimant(h: Seq<(Seq<char>, Seq<char>)>) -> Option<Seq<char>> {
    match auth_of(h) {
        Some(a) => jwt::token_user(a),
        None => None,
    }
}

/// Whether a request asks for an upgrade to a WebSocket.
pub open spec fn wants_websocket(h: Seq<(Seq<char>, Seq<char>)>) -> bool {
    match http::last_header(h, "upgrade"@) {
        Some(v) => headers::same_name(v, "websocket"@),
        None => false,
    }
}

/// What to do with a request: a claim whose user is known is rewritten, whatever else it asks for.
pub open spec fn mitm_action(req: http::RequestV) -> MitmActionV {
    let claim = text::has_text(req.path, SIGNIN_PATH@);
    match claimant(req.headers) {
        Some(uid) => if claim {
            MitmActionV::Signin(uid)
        } else if wants_websocket(req.headers) {
            MitmActionV::WebSocket
        } else {
            MitmActionV::Forward
        },
        None => if wants_websocket(req.headers) {
            MitmActionV::WebSocket
        } else {
            MitmActionV::Forward
        },
    }
}

/// The line of a request.
pub open spec fn request_text(method: Seq<char>, host: Seq<char>, path: Seq<char>, target: bool) -> Seq<char> {
    "  "@ + method + " "@ + host + path + (if target {
        " [TRAE]"@
    } else {
        Seq::empty()
    }) + (match path_label(known_paths(), path) {
        Some(l) => "  <"@ + l + ">"@,
        None => Seq::empty(),
    })
}

/// The line that reports a token on a host.
pub open spec fn hint_text(host: Seq<char>, auth: Seq<char>, capturable: bool) -> Seq<char> {
    "  [JWT-DEBUG] 在 "@ + host + " 发现鉴权头 (类型: "@ + (if capturable {
        "Cloud-IDE-JWT ✅可捕获"@
    } else {
        "其他/不可识别"@
    }) + ": "@ + text::head_chars(auth, 18) + "…)"@
}

fn request_line(ctx: &ProxyCtx, host: &str, req: &RawRequest) -> (r: String)
    ensures
        r@ == request_text(req.method@, host@, req.path@, is_target(text::texts(ctx.targets@), host@)),
{
    let mut r = text::cat3("  ", req.method.as_str(), " ");
    r.append(host);
    r.append(req.path.as_str());
    let ghost a = r@;
    if ctx.host_in_targets(host) {
        r.append(" [TRAE]");
    }
    let ghost b = r@;
    proof {
        assert(b =~= a + (if is_target(text::texts(ctx.targets@), host@) {
            " [TRAE]"@
        } else {
            Seq::empty()
        }));
    }
    match ctx.classify_path(req.path.as_str()) {
        Some(l) => {
            r.append("  <");
            r.append(l);
            r.append(">");
            assert(r@ =~= b + ("  <"@ + l@ + ">"@));
        },
        None => {
            assert(r@ =~= b + Seq::<char>::empty());
        },
    }
    r
}

/// What a request of a decrypted connection is logged as, what it gives to capture, and what to do
/// with it. `hinted` holds the hosts on which a token was reported before.
pub fn serve_mitm(ctx: &ProxyCtx, host: &str, req: &RawRequest, hinted: &mut Vec<String>) -> (r: MitmPlan)
    ensures
        r.line@ == request_text(req.method@, host@, req.path@, is_target(text::texts(ctx.targets@), host@)),
        r.action@ == mitm_action(req@),
        match auth_of(req@.headers) {
            Some(auth) => if ctx.auto_capture_jwt {
                let first = !text::texts(old(hinted)@).contains(host@);
                let raw = match text::stripped(auth, "Cloud-IDE-JWT "@) {
                    Some(t) => t,
                    None => auth,
                };
                &&& text::opt_pair(r.capture) == capture_of(auth)
                &&& text::opt_text(r.hint) == if first {
                    Some(hint_text(host@, auth, jwt::captured_token(raw) is Some))
                } else {
                    None
                }
                &&& text::texts(final(hinted)@) == if first {
                    text::texts(old(hinted)@).push(host@)
                } else {
                    text::texts(old(hinted)@)
                }
            } else {
                r.capture is None && r.hint is None && final(hinted)@ == old(hinted)@
            },
            None => r.capture is None && r.hint is None && final(hinted)@ == old(hinted)@,
        },
        text::opt_text(r.note) == if text::has_text(req.path@, SIGNIN_PATH@) && claimant(req@.headers) is None {
            Some("  [签到] 未解析到 user id，未改写"@)
        } else {
            None
        },
{
    let line = request_line(ctx, host, req);
    let auth = auth_header_value(req);
    let mut hint: Option<String> = None;
    let mut capture: Option<(String, String)> = None;
    if ctx.auto_capture_jwt {
        if let Some(a) = &auth {
            let raw = match text::strip_prefix(a.as_str(), "Cloud-IDE-JWT ") {
                Some(t) => t,
                None => a.clone(),
            };
            let valid = jwt::valid_cloud_ide_jwt(raw.as_str());
            if !text::is_one_of(host, hinted) {
                let ghost before = text::texts(hinted@);
                let h = host.to_owned();
                hinted.push(h);
                assert(text::texts(hinted@) =~= before.push(host@));
                let mut t = text::cat3("  [JWT-DEBUG] 在 ", host, " 发现鉴权头 (类型: ");
                t.append(
                    if valid.is_some() {
                        "Cloud-IDE-JWT ✅可捕获"
                    } else {
                        "其他/不可识别"
                    },
                );
                t.append(": ");
                t.append(text::take_chars(a.as_str(), 18).as_str());
                t.append("…)");
                hint = Some(t);
            }
            if let Some(full) = valid {
                if let Some(uid) = jwt::extract_user_id(full.as_str()) {
                    capture = Some((uid, full));
                }
            }
        }
    }
    let uid = match &auth {
        Some(a) => jwt::extract_user_id(a.as_str()),
        None => None,
    };
    let claim = text::contains(req.path.as_str(), SIGNIN_PATH);
    let ws = req.is_websocket_upgrade();
    match uid {
        Some(u) => {
            let action = if claim {
                MitmAction::Signin(u)
            } else if ws {
                MitmAction::WebSocket
            } else {
                MitmAction::Forward
            };
            MitmPlan { line, hint, capture, note: None, action }
        },
        None => {
            let note = if claim {
                Some("  [签到] 未解析到 user id，未改写".to_owned())
            } else {
                None
            };
            let action = if ws {
                MitmAction::WebSocket
            } else {
                MitmAction::Forward
            };
            MitmPlan { line, hint, capture, note, action }
        },
    }
}

/// How reading from a decrypted connection ended.
pub enum ReadEnd {
    /// Nothing came in time.
    Timeout,
    /// The client closed it.
    Closed,
    /// It failed, in words.
    Error(String),
}

/// The line that reports a decrypted connection.
pub fn enter_line(host: &str, port: u16) -> (r: String)
    ensures
        r@ == "  [MITM] 进入 HTTPS 解密隧道: "@ + host@ + ":"@ + digits::decimal(port as int),
{
    let mut r = text::cat3("  [MITM] 进入 HTTPS 解密隧道: ", host, ":");
    r.append(digits::number(port as u64).as_str());
    r
}

/// The line that reports how reading ended.
pub fn read_end_line(end: &ReadEnd, host: &str, port: u16) -> (r: String)
    ensures
        r@ == match *end {
            ReadEnd::Timeout => "  [MITM] 读取 TLS 请求超时: "@ + host@ + ":"@ + digits::decimal(port as int),
            ReadEnd::Closed => "  [MITM] 客户端关闭连接: "@ + host@ + ":"@ + digits::decimal(port as int),
            ReadEnd::Error(e) => "  [MITM] 读取 TLS 请求错误: "@ + e@,
        },
{
    match end {
        ReadEnd::Timeout => {
            let mut r = text::cat3("  [MITM] 读取 TLS 请求超时: ", host, ":");
            r.append(digits::number(port as u64).as_str());
            r
        },
        ReadEnd::Closed => {
            let mut r = text::cat3("  [MITM] 客户端关闭连接: ", host, ":");
            r.append(digits::number(port as u64).as_str());
            r
        },
        ReadEnd::Error(e) => text::cat("  [MITM] 读取 TLS 请求错误: ", e.as_str()),
    }
}

/// The line that reports an upgrade to a WebSocket.
pub fn websocket_line(host: &str, port: u16, req: &RawRequest) -> (r: String)
    ensures
        r@ == "  [WebSocket] 检测到升级请求: "@ + req.method@ + " "@ + host@ + ":"@ + digits::decimal(port as int) + req.path@
            + " (Connection="@ + (match http::last_header(req@.headers, "connection"@) {
            Some(v) => v,
            None => "?"@,
        }) + ")"@,
{
    let mut r = text::cat3("  [WebSocket] 检测到升级请求: ", req.method.as_str(), " ");
    r.append(host);
    r.append(":");
    r.append(digits::number(port as u64).as_str());
    r.append(req.path.as_str());
    r.append(" (Connection=");
    match req.hget("connection") {
        Some(v) => {
            r.append(v);
        },
        None => {
            r.append("?");
        },
    }
    r.append(")");
    r
}

/// The device that stands for a user.
pub struct Device {
    pub device_id: String,
    pub market_user_id: Option<String>,
    pub session_id: Option<String>,
}

/// The headers of a claim with the device of its user; what the device lacks is left alone.
pub open spec fn claim_headers(h: Seq<(Seq<char>, Seq<char>)>, dev: Device) -> Seq<(Seq<char>, Seq<char>)> {
    let a = http::with_header(h, "x-device-id"@, dev.device_id@);
    let b = match dev.market_user_id {
        Some(m) => http::with_header(a, "x-market-user-id"@, m@),
        None => a,
    };
    match dev.session_id {
        Some(s) => http::with_header(b, "vscode-sessionid"@, s@),
        None => b,
    }
}

/// An optional text, or a mark that there is none.
pub open spec fn or_none(v: Option<String>) -> Seq<char> {
    match v {
        Some(s) => s@,
        None => "无"@,
    }
}

fn text_or_none(v: &Option<String>) -> (r: &str)
    ensures
        r@ == or_none(*v),
{
    match v {
        Some(s) => s.as_str(),
        None => "无",
    }
}

/// Puts the device of its user into a claim; the line that reports it.
pub fn rewrite_signin(req: &mut RawRequest, uid: &str, dev: &Device) -> (r: String)
    ensures
        final(req)@ == (http::RequestV { headers: claim_headers(old(req)@.headers, *dev), ..old(req)@ }),
        r@ == "  [签到改写] uid="@ + uid@ + " -> x-device-id="@ + dev.device_id@ + " x-market-user-id="@ + or_none(
            dev.market_user_id,
        ) + " vscode-sessionid="@ + or_none(dev.session_id),
{
    req.hset("x-device-id", dev.device_id.clone());
    if let Some(m) = &dev.market_user_id {
        req.hset("x-market-user-id", m.clone());
    }
    if let Some(s) = &dev.session_id {
        req.hset("vscode-sessionid", s.clone());
    }
    let mut line = text::cat3("  [签到改写] uid=", uid, " -> x-device-id=");
    line.append(dev.device_id.as_str());
    line.append(" x-market-user-id=");
    line.append(text_or_none(&dev.market_user_id));
    line.append(" vscode-sessionid=");
    line.append(text_or_none(&dev.session_id));
    line
}

// ---- what holds of requests ----

/// A host is within a domain where it is the domain, or ends with a dot and the domain; nothing else is.
pub proof fn hosts_are_within_their_domains(front: Seq<char>, domain: Seq<char>, host: Seq<char>)
    ensures
        is_within(domain, domain),
        is_within(front + "."@ + domain, domain),
        is_within(host, domain) ==> host == domain || exists|f: Seq<char>| host == f + #[trigger] ("."@ + domain),
{
    let h = front + "."@ + domain;
    let p = "."@ + domain;
    assert(h.skip(h.len() - p.len()) =~= p);
    if is_within(host, domain) && host != domain {
        let f = host.take(host.len() - p.len());
        assert(host =~= f + p);
        assert(exists|f: Seq<char>| host == f + #[trigger] ("."@ + domain));
    }
}

/// A host is watched where it is within one of the domains, and the domain that is shown is the first.
pub proof fn hosts_are_watched_by_any_domain(a: Seq<Seq<char>>, b: Seq<Seq<char>>, d: Seq<char>, host: Seq<char>)
    ensures
        is_target(a + b, host) == (is_target(a, host) || is_target(b, host)),
        is_target(seq![d], host) == is_within(text::smalls(host), d),
        first_target(a, host) is Some ==> first_target(a + b, host) == first_target(a, host),
        first_target(a, host) is None ==> first_target(a + b, host) == first_target(b, host),
        first_target(seq![d], host) == (if is_within(host, d) {
            Some(d)
        } else {
            None
        }),
    decreases a.len(),
{
    let s = text::smalls(host);
    if is_target(a, host) {
        let i = choose|i: int| 0 <= i < a.len() && is_within(s, #[trigger] a[i]);
        assert((a + b)[i] == a[i]);
    }
    if is_target(b, host) {
        let i = choose|i: int| 0 <= i < b.len() && is_within(s, #[trigger] b[i]);
        assert((a + b)[i + a.len()] == b[i]);
    }
    if is_target(a + b, host) {
        let i = choose|i: int| 0 <= i < (a + b).len() && is_within(s, #[trigger] (a + b)[i]);
        if i < a.len() {
            assert(a[i] == (a + b)[i]);
        } else {
            assert(b[i - a.len()] == (a + b)[i]);
        }
    }
    assert(seq![d][0] == d);
    reveal_with_fuel(first_target, 2);
    if a.len() == 0 {
        assert(a + b =~= b);
    } else {
        hosts_are_watched_by_any_domain(a.skip(1), b, d, host);
        assert((a + b).skip(1) =~= a.skip(1) + b);
    }
}

/// A path is labelled by the first of the known routes that it holds.
pub proof fn paths_are_labelled_by_their_route(path: Seq<char>)
    ensures
        path_label(known_paths(), path) == (if text::has_text(path, "/trae/api/v2/ug/checkin_credits/claim"@) {
            Some("签到领取"@)
        } else {
            if text::has_text(path, "/trae/api/v2/ug/checkin_credits/status"@) {
            Some("签到状态"@)
        } else {
            if text::has_text(path, "/cloudide/api"@) {
            Some("CloudIDE网关"@)
        } else {
            if text::has_text(path, "/oauth/"@) {
            Some("OAuth"@)
        } else {
            if text::has_text(path, "ExchangeToken"@) {
            Some("换Token"@)
        } else {
            if text::has_text(path, "ide_user_ent_usage"@) {
            Some("积分用量"@)
        } else {
            if text::has_text(path, "/api/agent/v3/llm_utils_chat"@) {
            Some("大模型对话"@)
        } else {
            if text::has_text(path, "/api/ide/v1/get_detail_param"@) {
            Some("模型列表"@)
        } else {
            if text::has_text(path, "/api/remote/v1/plugins"@) {
            Some("插件接口"@)
        } else {
            if text::has_text(path, "/api/remote/v1/skills"@) {
            Some("技能列表"@)
        } else {
            None
        }
        }
        }
        }
        }
        }
        }
        }
        }
        }),
{
    reveal_with_fuel(path_label, 12);
    assert(known_paths().skip(1)[0] == ("/trae/api/v2/ug/checkin_credits/status"@, "签到状态"@));
    assert(known_paths().skip(1).skip(1)[0] == ("/cloudide/api"@, "CloudIDE网关"@));
    assert(known_paths().skip(1).skip(1).skip(1)[0] == ("/oauth/"@, "OAuth"@));
    assert(known_paths().skip(1).skip(1).skip(1).skip(1)[0] == ("ExchangeToken"@, "换Token"@));
    assert(known_paths().skip(1).skip(1).skip(1).skip(1).skip(1)[0] == ("ide_user_ent_usage"@, "积分用量"@));
    assert(known_paths().skip(1).skip(1).skip(1).skip(1).skip(1).skip(1)[0] == ("/api/agent/v3/llm_utils_chat"@, "大模型对话"@));
    assert(known_paths().skip(1).skip(1).skip(1).skip(1).skip(1).skip(1).skip(1)[0] == ("/api/ide/v1/get_detail_param"@, "模型列表"@));
    assert(known_paths().skip(1).skip(1).skip(1).skip(1).skip(1).skip(1).skip(1).skip(1)[0] == ("/api/remote/v1/plugins"@, "插件接口"@));
    assert(known_paths().skip(1).skip(1).skip(1).skip(1).skip(1).skip(1).skip(1).skip(1).skip(1)[0] == ("/api/remote/v1/skills"@, "技能列表"@));
    assert(known_paths().skip(1).skip(1).skip(1).skip(1).skip(1).skip(1).skip(1).skip(1).skip(1).skip(1).len() == 0);
}

/// Each connection that breaks counts one more, and one that holds starts the count anew.
pub proof fn broken_connections_are_counted(count: int, before: Seq<bool>)
    ensures
        count_after(count, before.push(false)) == 0,
        count_after(count, before) < 0xffff_ffff ==> count_after(count, before.push(true)) == count_after(count, before)
            + 1,
        count_after(count, Seq::empty()) == count,
{
    assert(before.push(false).drop_last() =~= before);
    assert(before.push(true).drop_last() =~= before);
}

/// A request says who it is for by its authorization, or else by the token of the gateway, or else by that
/// of the client; a blank one says nothing.
pub proof fn tokens_are_looked_for_in_order(h: Seq<(Seq<char>, Seq<char>)>, v: Seq<char>)
    requires
        text::trimmed(v).len() > 0,
    ensures
        http::last_header(h, "authorization"@) == Some(v) ==> auth_of(h) == Some(text::trimmed(v)),
        (http::last_header(h, "authorization"@) matches Some(w) ==> text::trimmed(w).len() == 0) ==> {
            &&& http::last_header(h, "x-cloudide-token"@) == Some(v) ==> auth_of(h) == Some(text::trimmed(v))
            &&& (http::last_header(h, "x-cloudide-token"@) matches Some(w) ==> text::trimmed(w).len() == 0) ==> {
                &&& http::last_header(h, "x-icube-token"@) == Some(v) ==> auth_of(h) == Some(text::trimmed(v))
                &&& http::last_header(h, "x-icube-token"@) is None ==> auth_of(h) is None
            }
        },
{
}

/// An answer is handed on as it comes for the chat route and where a stream of events is accepted, and
/// nowhere else.
pub proof fn streams_are_those_asked_for(req: http::RequestV)
    ensures
        text::has_text(req.path, "llm_utils_chat"@) ==> is_streamed(req),
        http::last_header(req.headers, "accept"@) matches Some(v) ==> text::has_text(v, "event-stream"@) ==> is_streamed(
            req,
        ),
        !text::has_text(req.path, "llm_utils_chat"@) && http::last_header(req.headers, "accept"@) is None
            ==> !is_streamed(req),
        !text::has_text(req.path, "llm_utils_chat"@) ==> (http::last_header(req.headers, "accept"@) matches Some(v)
            ==> !text::has_text(v, "event-stream"@) ==> !is_streamed(req)),
{
}

/// What is logged of an answer grows piece by piece until it has reached ten mebibytes, and then no more.
pub proof fn logged_pieces_are_all_kept(logged: Seq<u8>, piece: Seq<u8>)
    ensures
        logged.len() < 10485760 ==> kept(logged, piece) == logged + piece,
        logged.len() >= 10485760 ==> kept(logged, piece) == logged,
{
}

/// A claim is answered for the user that its token names; else a request for a socket gets one, and all
/// others are handed on.
pub proof fn claims_are_answered_for_their_user(req: http::RequestV)
    ensures
        claimant(req.headers) matches Some(uid) ==> text::has_text(
            req.path,
            "/trae/api/v2/ug/checkin_credits/claim"@,
        ) ==> mitm_action(req) == MitmActionV::Signin(uid),
        claimant(req.headers) is None || !text::has_text(req.path, "/trae/api/v2/ug/checkin_credits/claim"@) ==> {
            &&& wants_websocket(req.headers) ==> mitm_action(req) == MitmActionV::WebSocket
            &&& !wants_websocket(req.headers) ==> mitm_action(req) == MitmActionV::Forward
        },
        auth_of(req.headers) matches Some(a) ==> claimant(req.headers) == jwt::token_user(a),
        auth_of(req.headers) is None ==> claimant(req.headers) is None,
        http::last_header(req.headers, "upgrade"@) is None ==> !wants_websocket(req.headers),
        http::last_header(req.headers, "upgrade"@) matches Some(v) ==> wants_websocket(req.headers) == (text::smalls(v)
            == text::smalls("websocket"@)),
{
}

/// A token is captured with or without its mark, and kept with it under its own user.
pub proof fn captured_tokens_are_kept_with_their_mark(t: Seq<char>, full: Seq<char>)
    requires
        !text::has_prefix(t, "Cloud-IDE-JWT "@),
    ensures
        capture_of("Cloud-IDE-JWT "@ + t) == capture_of(t),
        jwt::captured_token(t) is None ==> capture_of(t) is None,
        jwt::captured_token(t) == Some(full) ==> (match jwt::token_user(full) {
            Some(u) => capture_of(t) == Some((u, full)),
            None => capture_of(t) is None,
        }),
{
    let p = "Cloud-IDE-JWT "@;
    assert((p + t).take(p.len() as int) =~= p);
    assert((p + t).skip(p.len() as int) =~= t);
}

/// A claim goes out with the device's headers, each once and in place of those that came; of the market
/// and the session only where the device has one. All other headers stay.
pub proof fn claims_carry_the_device(h: Seq<(Seq<char>, Seq<char>)>, dev: Device, name: Seq<char>)
    ensures
        http::last_header(claim_headers(h, dev), "x-device-id"@) == Some(dev.device_id@),
        dev.market_user_id matches Some(m) ==> http::last_header(claim_headers(h, dev), "x-market-user-id"@) == Some(m@),
        dev.market_user_id is None ==> http::last_header(claim_headers(h, dev), "x-market-user-id"@)
            == http::last_header(h, "x-market-user-id"@),
        dev.session_id matches Some(s) ==> http::last_header(claim_headers(h, dev), "vscode-sessionid"@) == Some(s@),
        dev.session_id is None ==> http::last_header(claim_headers(h, dev), "vscode-sessionid"@) == http::last_header(
            h,
            "vscode-sessionid"@,
        ),
        !headers::same_name(name, "x-device-id"@) && !headers::same_name(name, "x-market-user-id"@)
            && !headers::same_name(name, "vscode-sessionid"@) ==> http::last_header(claim_headers(h, dev), name)
            == http::last_header(h, name),
{
    let d = "x-device-id"@;
    let m = "x-market-user-id"@;
    let s = "vscode-sessionid"@;
    reveal_strlit("x-device-id");
    reveal_strlit("x-market-user-id");
    reveal_strlit("vscode-sessionid");
    assert("x-device-id"@.len() == 11 && "x-market-user-id"@.len() == 16 && "vscode-sessionid"@.len() == 16);
    assert("x-market-user-id"@[0] != "vscode-sessionid"@[0]);
    assert(text::smalls(d).len() == 11 && text::smalls(m).len() == 16 && text::smalls(s).len() == 16);
    assert(text::smalls(m)[0] == 'x' && text::smalls(s)[0] == 'v');
    assert(!headers::same_name(d, m) && !headers::same_name(d, s) && !headers::same_name(m, s));
    let a = http::with_header(h, d, dev.device_id@);
    http::set_headers_are_found(h, d, dev.device_id@, name);
    http::set_headers_are_found(h, d, dev.device_id@, m);
    http::set_headers_are_found(h, d, dev.device_id@, s);
    let b = match dev.market_user_id {
        Some(v) => http::with_header(a, m, v@),
        None => a,
    };
    if let Some(v) = dev.market_user_id {
        http::set_headers_are_found(a, m, v@, name);
        http::set_headers_are_found(a, m, v@, d);
        http::set_headers_are_found(a, m, v@, s);
    }
    if let Some(v) = dev.session_id {
        http::set_headers_are_found(b, s, v@, name);
        http::set_headers_are_found(b, s, v@, d);
        http::set_headers_are_found(b, s, v@, m);
    }
}

/// A host's broken connections are counted under its own name, and none is none.
pub proof fn hosts_are_counted_apart(pins: Seq<(String, u32)>, host: Seq<char>)
    ensures
        assoc::lookup(pins, host) matches Some(c) ==> pin_count(pins, host) == c,
        assoc::lookup(pins, host) is None ==> pin_count(pins, host) == 0,
{
}

/// A connection is asked to be closed by the header of that name, however both are written.
pub proof fn connections_are_asked_to_close(k: Seq<char>, v: Seq<char>)
    ensures
        asks_to_close((k, v)) == (text::smalls(k) == text::smalls("connection"@) && text::smalls(v) == text::smalls(
            "close"@,
        )),
{
}

/// A request is shown by its method and place, with a mark where its host is watched, and its label where it
/// has one; a token by its kind and its first characters.
pub proof fn requests_are_shown_by_their_place(
    method: Seq<char>,
    host: Seq<char>,
    path: Seq<char>,
    l: Seq<char>,
    auth: Seq<char>,
)
    ensures
        path_label(known_paths(), path) == Some(l) ==> request_text(method, host, path, true) == "  "@ + method + " "@ + host
            + path + " [TRAE]"@ + ("  <"@ + l + ">"@),
        path_label(known_paths(), path) == Some(l) ==> request_text(method, host, path, false) == "  "@ + method + " "@
            + host + path + Seq::<char>::empty() + ("  <"@ + l + ">"@),
        path_label(known_paths(), path) is None ==> request_text(method, host, path, true) == "  "@ + method + " "@ + host
            + path + " [TRAE]"@ + Seq::<char>::empty(),
        auth.len() <= 18 ==> hint_text(host, auth, true) == "  [JWT-DEBUG] 在 "@ + host + " 发现鉴权头 (类型: "@
            + "Cloud-IDE-JWT ✅可捕获"@ + ": "@ + auth + "…)"@,
        auth.len() > 18 ==> hint_text(host, auth, true) == "  [JWT-DEBUG] 在 "@ + host + " 发现鉴权头 (类型: "@
            + "Cloud-IDE-JWT ✅可捕获"@ + ": "@ + auth.subrange(0, 18) + "…)"@,
        auth.len() > 18 ==> hint_text(host, auth, false) == "  [JWT-DEBUG] 在 "@ + host + " 发现鉴权头 (类型: "@
            + "其他/不可识别"@ + ": "@ + auth.subrange(0, 18) + "…)"@,
{
    if auth.len() > 18 {
        assert(auth.take(18) =~= auth.subrange(0, 18));
    }
}

/// What is not told is shown as missing.
pub proof fn missing_texts_are_shown_as_such(s: String)
    ensures
        or_none(Some(s)) == s@,
        or_none(None) == "无"@,
{
}

} // verus!
