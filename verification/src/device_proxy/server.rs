//! The proxy as a whole: how it is set up, how connections are dispatched and routed, and the
//! devices of the accounts.
use vstd::prelude::*;
use crate::{digits, json, text};
use crate::device_proxy::{capture, handler, headers, http};
use crate::device_proxy::handler::{Device, Failure, ProxyCtx};
use crate::device_proxy::http::RawRequest;
use crate::json::{Json, JsonV};

verus! {

broadcast use vstd::string::group_string_axioms;

/// The largest head that is read before a connection is dispatched.
pub const MAX_DISPATCH_HEAD: usize = 65536;

/// The most connections at a time.
pub const MAX_CONNS: usize = 128;

/// A proxy that stands between this one and the network.
#[derive(Debug, Clone)]
pub enum UpstreamProxy {
    Http(String),
    Socks5(String),
}

impl UpstreamProxy {
    /// Where it listens.
    pub open spec fn place(self) -> Seq<char> {
        match self {
            UpstreamProxy::Http(a) => a@,
            UpstreamProxy::Socks5(a) => a@,
        }
    }

    /// Where it listens.
    pub fn addr(&self) -> (r: &str)
        ensures
            r@ == self.place(),
    {
        match self {
            UpstreamProxy::Http(a) => a.as_str(),
            UpstreamProxy::Socks5(a) => a.as_str(),
        }
    }
}

/// How the proxy is set up.
#[derive(Debug, Clone)]
pub struct ProxyConfig {
    /// The port on the loopback address.
    pub port: u16,
    /// The watched domains; the usual ones where there are none.
    pub targets: Vec<String>,
    /// Whether tokens are taken into the accounts.
    pub auto_capture_jwt: bool,
    pub accounts_path: String,
    pub cooldowns_path: String,
    pub doubao_cred_path: String,
    pub certs_dir: String,
    pub log_path: String,
    pub req_log_dir: String,
    /// The proxy that traffic goes through first.
    pub upstream: Option<UpstreamProxy>,
}

/// The usual domains to watch.
pub open spec fn usual_targets() -> Seq<Seq<char>> {
    seq![
        "trae.cn"@,
        "trae.com.cn"@,
        "mchost.guru"@,
        "zijieapi.com"@,
        "bytedance.com"@,
        "volcengine.com"@,
        "volces.com"@,
        "treecode.com"@,
        "doubao.com"@,
    ]
}

/// The usual domains to watch.
pub fn default_targets() -> (r: Vec<String>)
    ensures
        text::texts(r@) == usual_targets(),
{
    let list = vec![
        "trae.cn",
        "trae.com.cn",
        "mchost.guru",
        "zijieapi.com",
        "bytedance.com",
        "volcengine.com",
        "volces.com",
        "treecode.com",
        "doubao.com",
    ];
    let mut r: Vec<String> = Vec::new();
    let mut i: usize = 0;
    while i < list.len()
        invariant
            i <= list@.len(),
            text::texts(r@) == text::strs(list@).take(i as int),
        decreases list@.len() - i,
    {
        let ghost before = text::texts(r@);
        let t = list[i].to_owned();
        r.push(t);
        i += 1;
        assert(text::texts(r@) =~= before.push(t@));
        assert(text::texts(r@) =~= text::strs(list@).take(i as int));
    }
    assert(text::texts(r@) =~= usual_targets());
    r
}

/// The domains that are watched under a set-up: those it names, in small letters, else the usual
/// ones.
pub open spec fn watched(targets: Seq<Seq<char>>) -> Seq<Seq<char>> {
    if targets.len() == 0 {
        usual_targets()
    } else {
        targets.map_values(|t: Seq<char>| text::smalls(t))
    }
}

fn small_list(list: &Vec<String>) -> (r: Vec<String>)
    ensures
        text::texts(r@) == text::texts(list@).map_values(|t: Seq<char>| text::smalls(t)),
{
    let mut r: Vec<String> = Vec::new();
    let mut i: usize = 0;
    while i < list.len()
        invariant
            i <= list@.len(),
            text::texts(r@) == text::texts(list@).map_values(|t: Seq<char>| text::smalls(t)).take(i as int),
        decreases list@.len() - i,
    {
        let ghost before = text::texts(r@);
        let t = text::to_smalls(list[i].as_str());
        r.push(t);
        i += 1;
        assert(text::texts(r@) =~= before.push(t@));
        assert(text::texts(r@) =~= text::texts(list@).map_values(|t: Seq<char>| text::smalls(t)).take(i as int));
    }
    assert(text::texts(r@) =~= text::texts(list@).map_values(|t: Seq<char>| text::smalls(t)));
    r
}

impl ProxyConfig {
    /// What the proxy knows when it starts.
    pub fn context(&self) -> (r: ProxyCtx)
        ensures
            text::texts(r.targets@) == watched(text::texts(self.targets@)),
            r.auto_capture_jwt == self.auto_capture_jwt,
            forall|h: Seq<char>| r.broken(h) == 0,
    {
        assert(text::texts(self.targets@).len() == self.targets@.len());
        let targets = if self.targets.len() == 0 {
            default_targets()
        } else {
            small_list(&self.targets)
        };
        ProxyCtx { targets, auto_capture_jwt: self.auto_capture_jwt, pin_state: Vec::new() }
    }

    /// The lines that are logged when the proxy has started.
    pub fn banner(&self) -> (r: Vec<String>)
        ensures
            text::texts(r@) == banner_of(*self),
    {
        let ctx = self.context();
        let mut stars: Vec<String> = Vec::new();
        let ghost all = text::texts(ctx.targets@);
        let ghost starred = all.map_values(|t: Seq<char>| "*."@ + t);
        let mut i: usize = 0;
        while i < ctx.targets.len()
            invariant
                i <= ctx.targets@.len(),
                all == text::texts(ctx.targets@),
                starred == all.map_values(|t: Seq<char>| "*."@ + t),
                text::texts(stars@) == starred.take(i as int),
            decreases ctx.targets@.len() - i,
        {
            let ghost before = text::texts(stars@);
            let t = text::cat("*.", ctx.targets[i].as_str());
            stars.push(t);
            i += 1;
            assert(text::texts(stars@) =~= before.push(t@));
            assert(text::texts(stars@) =~= starred.take(i as int));
        }
        assert(text::texts(stars@) =~= starred);
        let mut r: Vec<String> = Vec::new();
        r.push(
            text::cat3(
                "代理已启动: 127.0.0.1:",
                digits::number(self.port as u64).as_str(),
                "  (TRAE 多域 MITM 拦截 + JWT 自动捕获)",
            ),
        );
        r.push(text::cat("监听 TRAE 域名: ", text::join(&stars, ", ").as_str()));
        r.push("  → 命中上述域名的请求会在面板中以 [TRAE] 标记；JWT 捕获不限 host（兼容未列出的子域）".to_owned());
        r.push("  → 未在监听域名列表中的请求将透明转发（不记录日志），不影响其他 App 正常上网".to_owned());
        r.push(text::cat("accounts: ", self.accounts_path.as_str()));
        r.push(text::cat3("代理请求日志: ", self.req_log_dir.as_str(), " (100MB 滚动)"));
        r.push(
            text::cat(
                "自动捕获 JWT 写回 accounts.json: ",
                if self.auto_capture_jwt {
                    "开"
                } else {
                    "关"
                },
            ),
        );
        if let Some(up) = &self.upstream {
            r.push(text::cat("上游代理(用户VPN)透传: ", up.addr()));
        }
        r.push("请把 CA 证书 certs/ca.cer 安装到 Windows 受信任根证书颁发机构(管理员)。".to_owned());
        assert(text::texts(r@) =~= banner_of(*self));
        r
    }
}

/// The lines that are logged when the proxy has started.
pub open spec fn banner_of(c: ProxyConfig) -> Seq<Seq<char>> {
    let list = watched(text::texts(c.targets@)).map_values(|t: Seq<char>| "*."@ + t);
    seq![
        "代理已启动: 127.0.0.1:"@ + digits::decimal(c.port as int) + "  (TRAE 多域 MITM 拦截 + JWT 自动捕获)"@,
        "监听 TRAE 域名: "@ + text::joined(list, ", "@),
        "  → 命中上述域名的请求会在面板中以 [TRAE] 标记；JWT 捕获不限 host（兼容未列出的子域）"@,
        "  → 未在监听域名列表中的请求将透明转发（不记录日志），不影响其他 App 正常上网"@,
        "accounts: "@ + c.accounts_path@,
        "代理请求日志: "@ + c.req_log_dir@ + " (100MB 滚动)"@,
        "自动捕获 JWT 写回 accounts.json: "@ + if c.auto_capture_jwt {
            "开"@
        } else {
            "关"@
        },
    ] + (match c.upstream {
        Some(up) => seq!["上游代理(用户VPN)透传: "@ + up.place()],
        None => Seq::empty(),
    }) + seq!["请把 CA 证书 certs/ca.cer 安装到 Windows 受信任根证书颁发机构(管理员)。"@]
}

/// The line to log where a new connection is not taken on because so many are open.
pub fn overload_line(open: usize, peer: &str) -> (r: Option<String>)
    ensures
        text::opt_text(r) == if open < 128 {
            None
        } else {
            Some("[overload] 并发连接已达上限 128，拒绝来自 "@ + peer@ + " 的新连接"@)
        },
{
    if open < MAX_CONNS {
        None
    } else {
        Some(text::cat3("[overload] 并发连接已达上限 128，拒绝来自 ", peer, " 的新连接"))
    }
}

// ---- dispatch ----

/// What to do with the bytes read before dispatch.
pub enum DispatchStep {
    /// There is enough to dispatch.
    Ready,
    /// More has to be read.
    More,
    /// There is too much, in words.
    TooLong(String),
}

/// What to do with the bytes read before dispatch: up to the end of the head, or of the stream.
/// `fresh` says that bytes have just come in.
pub fn read_head(buf: &[u8], eof: bool, fresh: bool) -> (r: DispatchStep)
    ensures
        if fresh && buf@.len() > 64 * 1024 {
            r matches DispatchStep::TooLong(m) && m@ == "请求头超过分发缓冲上限 (65536)"@
        } else if text::find_from(buf@, http::head_end(), 0) is Some || eof {
            r is Ready
        } else {
            r is More
        },
{
    if fresh && buf.len() > MAX_DISPATCH_HEAD {
        DispatchStep::TooLong("请求头超过分发缓冲上限 (65536)".to_owned())
    } else if eof || http::find_head_end(buf).is_some() {
        DispatchStep::Ready
    } else {
        DispatchStep::More
    }
}

/// Where a tunnel is asked to.
pub struct Place {
    pub host: String,
    pub port: u16,
}

/// The position of the last `c`; minus one where there is none.
pub open spec fn last_index(s: Seq<char>, c: char) -> int
    decreases s.len(),
{
    if s.len() == 0 {
        -1
    } else if s.last() == c {
        s.len() - 1
    } else {
        last_index(s.drop_last(), c)
    }
}

/// Where a tunnel is asked to: the port is 443 where none can be read.
pub open spec fn place_of(target: Seq<char>) -> (Seq<char>, int) {
    let i = last_index(target, ':');
    if i >= 0 {
        (
            target.take(i),
            match digits::at_most(digits::read_unsigned(target.skip(i + 1), 10), 65535) {
                Some(p) => p,
                None => 443,
            },
        )
    } else {
        (target, 443)
    }
}

/// Where a tunnel is asked to.
pub fn parse_place(target: &str) -> (r: Place)
    ensures
        (r.host@, r.port as int) == place_of(target@),
{
    let v = text::chars_of(target);
    let mut i: usize = v.len();
    assert(v@.take(i as int) =~= v@);
    while i > 0 && v[i - 1] != ':'
        invariant
            i <= v@.len(),
            v@ == target@,
            last_index(v@, ':') == last_index(v@.take(i as int), ':'),
        decreases i,
    {
        proof {
            assert(v@.take(i as int).drop_last() =~= v@.take(i - 1));
            assert(v@.take(i as int).last() == v@[i - 1]);
        }
        i -= 1;
    }
    proof {
        if i > 0 {
            assert(v@.take(i as int).last() == v@[i - 1]);
        }
    }
    if i == 0 {
        return Place { host: target.to_owned(), port: 443 };
    }
    let host = text::text_of(&v[0..i - 1]);
    let tail = text::text_of(&v[i..v.len()]);
    assert(host@ =~= target@.take(i - 1));
    assert(tail@ =~= target@.skip(i as int));
    let port: u16 = match digits::read_number(tail.as_str(), 10, 65535) {
        Some(p) => p as u16,
        None => 443,
    };
    Place { host, port }
}

/// Where a connection goes.
pub enum Dispatch {
    /// It is decrypted: where to, and the domain that is reported.
    Mitm { place: Place, domain: String },
    /// It is tunnelled as it is.
    Tunnel(Place),
    /// It is a plain request.
    Plain,
}

/// The words of a head's first line.
pub open spec fn first_words(head: Seq<u8>) -> Seq<Seq<char>> {
    text::split_on(text::trimmed(text::bytes_shown(text::split_on(head, 10u8)[0])), ' ')
}

/// Whether a head asks for a tunnel.
pub open spec fn is_connect(head: Seq<u8>) -> bool {
    text::smalls(first_words(head)[0]) == text::smalls("CONNECT"@)
}

/// Where a head asks for a tunnel to.
pub open spec fn connect_place(head: Seq<u8>) -> (Seq<char>, int) {
    let w = first_words(head);
    place_of(if w.len() > 1 {
        w[1]
    } else {
        Seq::empty()
    })
}

fn first_line(head: &[u8]) -> (r: String)
    ensures
        r@ == text::trimmed(text::bytes_shown(text::split_on(head@, 10u8)[0])),
{
    let mut i: usize = 0;
    while i < head.len() && head[i] != 10
        invariant
            i <= head@.len(),
            forall|k: int| 0 <= k < i ==> head@[k] != 10,
        decreases head@.len() - i,
    {
        i += 1;
    }
    proof {
        text::lemma_index_is(head@, 10u8, i as int);
        assert(head@.subrange(0, i as int) =~= head@.take(i as int));
        if i == head@.len() {
            assert(head@.take(i as int) =~= head@);
        }
    }
    text::trim(text::bytes_text(vstd::slice::slice_subrange(head, 0, i)).as_str())
}

/// The domain that is reported of a host: the first that it is in as it is written, or a mark.
pub open spec fn shown_domain(targets: Seq<Seq<char>>, host: Seq<char>) -> Seq<char> {
    match handler::first_target(targets, host) {
        Some(d) => d,
        None => "?"@,
    }
}

/// Where a connection goes, by its head: a tunnel to a watched host is decrypted, unless the host
/// has been found to pin certificates.
pub fn dispatch(ctx: &ProxyCtx, head: &[u8]) -> (r: Dispatch)
    ensures
        if !is_connect(head@) {
            r is Plain
        } else {
            let (host, port) = connect_place(head@);
            let watched = handler::is_target(text::texts(ctx.targets@), host);
            if watched && ctx.broken(host) < 3 {
                match r {
                    Dispatch::Mitm { place, domain } => place.host@ == host && place.port == port && domain@
                        == shown_domain(text::texts(ctx.targets@), host),
                    _ => false,
                }
            } else {
                match r {
                    Dispatch::Tunnel(place) => place.host@ == host && place.port == port,
                    _ => false,
                }
            }
        },
{
    let line = first_line(head);
    let words = text::split(line.as_str(), ' ');
    assert(text::texts(words@)[0] == words@[0]@);
    assert(text::texts(words@).len() == words@.len());
    if !text::same_ignoring_case(words[0].as_str(), "CONNECT") {
        return Dispatch::Plain;
    }
    let target = if words.len() > 1 {
        assert(text::texts(words@)[1] == words@[1]@);
        words[1].clone()
    } else {
        let e = String::new();
        assert(e@ =~= Seq::empty());
        e
    };
    let place = parse_place(target.as_str());
    if ctx.is_pinned(place.host.as_str()) || !ctx.host_in_targets(place.host.as_str()) {
        return Dispatch::Tunnel(place);
    }
    let domain = match ctx.matching_target(place.host.as_str()) {
        Some(d) => d.to_owned(),
        None => "?".to_owned(),
    };
    Dispatch::Mitm { place, domain }
}

/// The line that reports a tunnel that is decrypted.
pub fn connect_line(place: &Place, domain: &str) -> (r: String)
    ensures
        r@ == "CONNECT "@ + place.host@ + ":"@ + digits::decimal(place.port as int) + "  [TRAE/MITM] 匹配域名: "@
            + domain@,
{
    let mut r = text::cat3("CONNECT ", place.host.as_str(), ":");
    r.append(digits::number(place.port as u64).as_str());
    r.append("  [TRAE/MITM] 匹配域名: ");
    r.append(domain);
    r
}

/// The line that reports a handshake that came to nothing: why, or that it took too long.
pub fn handshake_line(place: &Place, error: Option<&str>) -> (r: String)
    ensures
        r@ == match error {
            Some(e) => "  [MITM] TLS 握手失败 "@ + place.host@ + ":"@ + digits::decimal(place.port as int) + ": "@ + e@,
            None => "  [MITM] TLS 握手超时 (30s) "@ + place.host@ + ":"@ + digits::decimal(place.port as int),
        },
{
    match error {
        Some(e) => {
            let mut r = text::cat3("  [MITM] TLS 握手失败 ", place.host.as_str(), ":");
            r.append(digits::number(place.port as u64).as_str());
            r.append(": ");
            r.append(e);
            r
        },
        None => {
            let mut r = text::cat3("  [MITM] TLS 握手超时 (30s) ", place.host.as_str(), ":");
            r.append(digits::number(place.port as u64).as_str());
            r
        },
    }
}

// ---- routes ----

/// What a connection to a server goes through.
#[derive(Clone, Copy, PartialEq, Eq, Structural, Debug)]
pub enum Route {
    /// The proxy in between.
    Upstream,
    /// Nothing.
    Direct,
    /// There is no way; the client is answered 502.
    Refused,
}

/// How connecting has gone so far.
pub enum Tried {
    Nothing,
    UpstreamFailed,
    DirectFailed,
}

/// What to try next: the proxy in between comes first where there is one, whatever the host; then
/// the server itself.
pub fn next_route(has_upstream: bool, tried: &Tried) -> (r: Route)
    ensures
        match *tried {
            Tried::Nothing => if has_upstream {
                r is Upstream
            } else {
                r is Direct
            },
            Tried::UpstreamFailed => r is Direct,
            Tried::DirectFailed => r is Refused,
        },
{
    match tried {
        Tried::Nothing => if has_upstream {
            Route::Upstream
        } else {
            Route::Direct
        },
        Tried::UpstreamFailed => Route::Direct,
        Tried::DirectFailed => Route::Refused,
    }
}

/// The line that reports how a tunnel goes through the proxy in between.
pub fn tunnel_line(up: &UpstreamProxy, host: &str, port: u16, failed: Option<&str>) -> (r: String)
    ensures
        r@ == match failed {
            None => "  [raw-tunnel] 经上游代理 "@ + up.place() + " 建立隧道 "@ + host@ + ":"@ + digits::decimal(
                port as int,
            ),
            Some(e) => "  [raw-tunnel] 上游代理连接失败("@ + e@ + ")，回退直连"@,
        },
{
    match failed {
        None => {
            let mut r = text::cat3("  [raw-tunnel] 经上游代理 ", up.addr(), " 建立隧道 ");
            r.append(host);
            r.append(":");
            r.append(digits::number(port as u64).as_str());
            r
        },
        Some(e) => text::cat3("  [raw-tunnel] 上游代理连接失败(", e, ")，回退直连"),
    }
}

// ---- plain requests ----

/// The parts of an address.
pub struct UriParts {
    pub scheme: Option<String>,
    pub host: Option<String>,
    pub port: Option<u16>,
    pub path: Option<String>,
}

/// The model of the parts of an address.
pub struct UriV {
    pub scheme: Option<Seq<char>>,
    pub host: Option<Seq<char>>,
    pub port: Option<u16>,
    pub path: Option<Seq<char>>,
}

impl View for UriParts {
    type V = UriV;

    open spec fn view(&self) -> UriV {
        UriV {
            scheme: text::opt_text(self.scheme),
            host: text::opt_text(self.host),
            port: self.port,
            path: text::opt_text(self.path),
        }
    }
}

/// The name for what `hyper::Uri` makes of a text; nothing where it is no address.
pub uninterp spec fn uri_of(text: Seq<char>) -> Option<UriV>;

/// A text parsed as `hyper::Uri`, with its scheme, host, port, and path and query read off.
#[verifier::external_body]
fn parse_uri(text: &str) -> (r: Option<UriParts>)
    ensures
        match r {
            Some(u) => uri_of(text@) == Some(u@),
            None => uri_of(text@) is None,
        },
{
    text.parse::<hyper::Uri>().ok().map(
        |u| UriParts {
            scheme: u.scheme_str().map(|s| s.to_string()),
            host: u.host().map(|s| s.to_string()),
            port: u.port_u16(),
            path: u.path_and_query().map(|p| p.as_str().to_string()),
        },
    )
}

/// How a plain request is passed on.
pub struct PlainPlan {
    pub method: String,
    pub host: String,
    pub scheme: String,
    pub port: u16,
    pub path: String,
    /// What is tried first to get there.
    pub route: Route,
    /// Whether the host is watched: only then is anything logged.
    pub watched: bool,
    pub line: Option<String>,
    pub headers: Vec<(String, String)>,
    pub body: Vec<u8>,
}

/// Whether a plan is that of a request to an address with the host: whatever the host, it goes through
/// the proxy in between where there is one.
pub open spec fn plans_plain(
    p: PlainPlan,
    targets: Seq<Seq<char>>,
    has_upstream: bool,
    req: http::RequestV,
    uri: UriV,
    host: Seq<char>,
) -> bool {
    let scheme = match uri.scheme {
        Some(s) => s,
        None => "http"@,
    };
    let watched = handler::is_target(targets, host);
    &&& p.method@ == req.method
    &&& p.host@ == host
    &&& p.scheme@ == scheme
    &&& p.route == if has_upstream {
        Route::Upstream
    } else {
        Route::Direct
    }
    &&& p.port == match uri.port {
        Some(n) => n,
        None => if scheme == "https"@ {
            443
        } else {
            80u16
        },
    }
    &&& p.path@ == match uri.path {
        Some(s) => s,
        None => "/"@,
    }
    &&& p.watched == watched
    &&& text::opt_text(p.line) == if watched {
        Some(
            "  [plain] "@ + req.method + " "@ + scheme + "://"@ + host + ":"@ + digits::decimal(p.port as int) + p.path@,
        )
    } else {
        None
    }
    &&& headers::pairs(p.headers@) == handler::passed_headers(req.headers, false)
    &&& p.body@ == if headers::same_name(req.method, "GET"@) {
        Seq::<u8>::empty()
    } else {
        req.body
    }
}

/// How a plain request to an address is passed on; nothing where the address has no host, which is
/// answered 400.
pub fn plan_plain(ctx: &ProxyCtx, req: &RawRequest, uri: &UriParts, has_upstream: bool) -> (r: Option<PlainPlan>)
    ensures
        match r {
            Some(p) => uri@.host is Some && plans_plain(
                p,
                text::texts(ctx.targets@),
                has_upstream,
                req@,
                uri@,
                uri@.host->Some_0,
            ),
            None => uri@.host is None,
        },
{
    match &uri.host {
        None => None,
        Some(h) => {
            let scheme = match &uri.scheme {
                Some(s) => s.clone(),
                None => "http".to_owned(),
            };
            let port: u16 = match uri.port {
                Some(n) => n,
                None => if text::same(scheme.as_str(), "https") {
                    443
                } else {
                    80
                },
            };
            let path = match &uri.path {
                Some(s) => s.clone(),
                None => "/".to_owned(),
            };
            let watched = ctx.host_in_targets(h.as_str());
            let line = if watched {
                let mut l = text::cat3("  [plain] ", req.method.as_str(), " ");
                l.append(scheme.as_str());
                l.append("://");
                l.append(h.as_str());
                l.append(":");
                l.append(digits::number(port as u64).as_str());
                l.append(path.as_str());
                Some(l)
            } else {
                None
            };
            Some(
                PlainPlan {
                    method: req.method.clone(),
                    route: next_route(has_upstream, &Tried::Nothing),
                    host: h.clone(),
                    scheme,
                    port,
                    path,
                    watched,
                    line,
                    headers: handler::forward_headers(&req.headers, false),
                    body: handler::forward_body(req),
                },
            )
        },
    }
}

/// How a plain request is passed on; nothing where its path is no address with a host, which is
/// answered 400.
pub fn handle_plain(ctx: &ProxyCtx, req: &RawRequest, has_upstream: bool) -> (r: Option<PlainPlan>)
    ensures
        match uri_of(req.path@) {
            Some(uri) => match uri.host {
                Some(host) => r matches Some(p) && plans_plain(
                    p,
                    text::texts(ctx.targets@),
                    has_upstream,
                    req@,
                    uri,
                    host,
                ),
                None => r is None,
            },
            None => r is None,
        },
{
    match parse_uri(req.path.as_str()) {
        Some(uri) => plan_plain(ctx, req, &uri, has_upstream),
        None => None,
    }
}

/// What the client of a plain request is answered where the server did not, and the line to log
/// for a watched host.
pub fn refuse_plain(failure: &Failure, host: &str, path: &str) -> (r: handler::Refusal)
    ensures
        r.status == if failure is Timeout {
            504
        } else {
            502u16
        },
        r.reason@ == http::phrase(r.status),
        r.line@ == "  [plain] 错误: "@ + (match *failure {
            Failure::Error(e) => e@,
            Failure::Timeout => "上游超时 (30s)"@,
            Failure::Body(e) => "读上游响应失败: "@ + e@,
        }) + " (host="@ + host@ + ", path="@ + path@ + ")"@,
{
    let what = match failure {
        Failure::Error(e) => e.clone(),
        Failure::Timeout => "上游超时 (30s)".to_owned(),
        Failure::Body(e) => text::cat("读上游响应失败: ", e.as_str()),
    };
    let mut line = text::cat3("  [plain] 错误: ", what.as_str(), " (host=");
    line.append(host);
    line.append(", path=");
    line.append(path);
    line.append(")");
    match failure {
        Failure::Timeout => handler::Refusal { status: 504, reason: "Gateway Timeout", line },
        _ => handler::Refusal { status: 502, reason: "Bad Gateway", line },
    }
}

/// The line that reports the response to a plain request.
pub fn plain_response_line(status: u16, length: usize, host: &str, path: &str) -> (r: String)
    ensures
        r@ == "  [plain] <- "@ + digits::decimal(status as int) + " "@ + http::phrase(status) + " ("@ + digits::decimal(
            length as int,
        ) + ") bytes from "@ + host@ + path@,
{
    let mut r = text::cat3("  [plain] <- ", digits::number(status as u64).as_str(), " ");
    r.append(http::reason_phrase(status));
    r.append(" (");
    r.append(digits::number(length as u64).as_str());
    r.append(") bytes from ");
    r.append(host);
    r.append(path);
    r
}

// ---- bytes read too far ----

/// A stream with bytes that are read before it.
pub struct PrefixedStream<S> {
    pub inner: S,
    pub prefix: Vec<u8>,
    pub pos: usize,
}

impl<S> PrefixedStream<S> {
    /// Whether the position is within the bytes.
    pub open spec fn wf(self) -> bool {
        self.pos <= self.prefix@.len()
    }

    /// The bytes that have not been read yet.
    pub open spec fn left(self) -> Seq<u8> {
        self.prefix@.skip(self.pos as int)
    }

    /// A stream with bytes that are read before it.
    pub fn new(inner: S, prefix: Vec<u8>) -> (r: Self)
        ensures
            r.wf(),
            r.inner == inner,
            r.left() == prefix@,
    {
        assert(prefix@.skip(0) =~= prefix@);
        PrefixedStream { inner, prefix, pos: 0 }
    }

    /// The next bytes in front of the stream, at most `max`; empty once they are all read, and
    /// then the stream itself is next.
    pub fn replay(&mut self, max: usize) -> (r: Vec<u8>)
        requires
            old(self).wf(),
        ensures
            final(self).wf(),
            final(self).inner == old(self).inner,
            r@ + final(self).left() == old(self).left(),
            r@.len() == if max < old(self).left().len() {
                max as int
            } else {
                old(self).left().len() as int
            },
    {
        let have: usize = self.prefix.len() - self.pos;
        let n: usize = if max < have {
            max
        } else {
            have
        };
        let r = vstd::slice::slice_to_vec(
            vstd::slice::slice_subrange(self.prefix.as_slice(), self.pos, self.pos + n),
        );
        let ghost before = self.left();
        self.pos = self.pos + n;
        assert(r@ + self.left() =~= before);
        r
    }
}

// ---- devices of accounts ----

/// The user id of an account, where it has one.
pub open spec fn account_uid(acc: JsonV) -> Option<Seq<char>> {
    let t = match (acc.get("UserID"@), acc.get("user_id"@)) {
        (Some(v), _) => capture::uid_text(v),
        (None, Some(v)) => capture::uid_text(v),
        (None, None) => Seq::empty(),
    };
    if t.len() > 0 {
        Some(t)
    } else {
        None
    }
}

/// The model of a device.
pub struct DeviceV {
    pub device_id: Seq<char>,
    pub market_user_id: Option<Seq<char>>,
    pub session_id: Option<Seq<char>>,
}

impl View for Device {
    type V = DeviceV;

    open spec fn view(&self) -> DeviceV {
        DeviceV {
            device_id: self.device_id@,
            market_user_id: text::opt_text(self.market_user_id),
            session_id: text::opt_text(self.session_id),
        }
    }
}

/// Whether an account holds a device.
pub open spec fn holds_device(acc: JsonV, dev: DeviceV) -> bool {
    acc.text_at("device_id"@) == Some(dev.device_id) && acc.text_at("session_id"@) == dev.session_id && acc.text_at(
        "market_user_id"@,
    ) == dev.market_user_id
}

/// An account with a device.
pub open spec fn with_device(acc: JsonV, dev: DeviceV) -> JsonV {
    match acc {
        JsonV::Obj(o) => {
            let a = json::with_field(o, "device_id"@, JsonV::Str(dev.device_id));
            let b = json::with_field(a, "session_id"@, json::str_or_null(dev.session_id));
            JsonV::Obj(json::with_field(b, "market_user_id"@, json::str_or_null(dev.market_user_id)))
        },
        _ => acc,
    }
}

/// An account after the device of its user has been put in; one without a user stays as it is.
pub open spec fn synced(acc: JsonV, dev: Option<DeviceV>) -> JsonV {
    match (account_uid(acc), dev) {
        (Some(_), Some(d)) => if holds_device(acc, d) {
            acc
        } else {
            with_device(acc, d)
        },
        _ => acc,
    }
}

fn uid_of_account(acc: &Json) -> (r: Option<String>)
    requires
        acc@.wf(),
    ensures
        text::opt_text(r) == account_uid(acc@),
{
    broadcast use json::lemma_get_wf;

    let t = match acc.get("UserID") {
        Some(v) => capture::uid_of(v),
        None => match acc.get("user_id") {
            Some(v) => capture::uid_of(v),
            None => {
                let e = String::new();
                assert(e@ =~= Seq::empty());
                e
            },
        },
    };
    if t.as_str().unicode_len() > 0 {
        Some(t)
    } else {
        None
    }
}

/// The users of the accounts, each in its place: those whose devices are wanted.
pub fn account_uids(accounts: &Vec<Json>) -> (r: Vec<Option<String>>)
    requires
        forall|i: int| 0 <= i < accounts@.len() ==> (#[trigger] accounts@[i])@.wf(),
    ensures
        r@.len() == accounts@.len(),
        forall|i: int| 0 <= i < r@.len() ==> text::opt_text(#[trigger] r@[i]) == account_uid(accounts@[i]@),
{
    let mut r: Vec<Option<String>> = Vec::new();
    let mut i: usize = 0;
    while i < accounts.len()
        invariant
            i <= accounts@.len(),
            r@.len() == i,
            forall|k: int| 0 <= k < accounts@.len() ==> (#[trigger] accounts@[k])@.wf(),
            forall|k: int| 0 <= k < r@.len() ==> text::opt_text(#[trigger] r@[k]) == account_uid(accounts@[k]@),
        decreases accounts@.len() - i,
    {
        r.push(uid_of_account(&accounts[i]));
        i += 1;
    }
    r
}

fn same_as(v: Option<&str>, t: &Option<String>) -> (r: bool)
    ensures
        r == (text::opt_str(v) == text::opt_text(*t)),
{
    match (v, t) {
        (Some(a), Some(b)) => text::same(a, b.as_str()),
        (None, None) => true,
        _ => false,
    }
}

fn device_held(acc: &Json, dev: &Device) -> (r: bool)
    ensures
        r == holds_device(acc@, dev@),
{
    let id = match acc.str_at("device_id") {
        Some(d) => text::same(d, dev.device_id.as_str()),
        None => false,
    };
    id && same_as(acc.str_at("session_id"), &dev.session_id) && same_as(
        acc.str_at("market_user_id"),
        &dev.market_user_id,
    )
}

fn put_device(acc: &Json, dev: &Device) -> (r: Json)
    ensures
        r@ == with_device(acc@, dev@),
{
    match acc.dup() {
        Json::Object(o) => {
            proof {
                json::lemma_view_parts(*acc);
                json::lemma_view_parts(Json::Object(o));
            }
            let mut f = o;
            json::put(&mut f, "device_id", json::jstr(dev.device_id.as_str()));
            json::put(&mut f, "session_id", json::jopt(&dev.session_id));
            json::put(&mut f, "market_user_id", json::jopt(&dev.market_user_id));
            let r = Json::Object(f);
            proof {
                json::lemma_view_parts(r);
            }
            r
        },
        other => {
            proof {
                json::lemma_view_parts(*acc);
                json::lemma_view_parts(other);
            }
            other
        },
    }
}

/// What optional devices hold.
pub open spec fn opt_device(d: Option<Device>) -> Option<DeviceV> {
    match d {
        Some(x) => Some(x@),
        None => None,
    }
}

/// Puts the devices of their users into the accounts, each in its place; whether anything changed.
pub fn sync_account_devices(accounts: &Vec<Json>, devices: &Vec<Option<Device>>) -> (r: (Vec<Json>, bool))
    requires
        accounts@.len() == devices@.len(),
        forall|i: int| 0 <= i < accounts@.len() ==> (#[trigger] accounts@[i])@.wf(),
    ensures
        r.0@.len() == accounts@.len(),
        forall|i: int|
            0 <= i < accounts@.len() ==> (#[trigger] r.0@[i])@ == synced(accounts@[i]@, opt_device(devices@[i])),
        r.1 == exists|i: int| 0 <= i < accounts@.len() && needs_sync(#[trigger] accounts@[i]@, opt_device(devices@[i])),
{
    let mut out: Vec<Json> = Vec::new();
    let mut changed = false;
    let mut i: usize = 0;
    while i < accounts.len()
        invariant
            i <= accounts@.len(),
            out@.len() == i,
            accounts@.len() == devices@.len(),
            forall|k: int| 0 <= k < accounts@.len() ==> (#[trigger] accounts@[k])@.wf(),
            forall|k: int| 0 <= k < i ==> (#[trigger] out@[k])@ == synced(accounts@[k]@, opt_device(devices@[k])),
            changed == exists|k: int| 0 <= k < i && needs_sync(#[trigger] accounts@[k]@, opt_device(devices@[k])),
        decreases accounts@.len() - i,
    {
        let next = match (uid_of_account(&accounts[i]), &devices[i]) {
            (Some(_), Some(d)) => {
                if device_held(&accounts[i], d) {
                    accounts[i].dup()
                } else {
                    changed = true;
                    put_device(&accounts[i], d)
                }
            },
            _ => accounts[i].dup(),
        };
        out.push(next);
        i += 1;
    }
    (out, changed)
}

/// Whether an account lacks the device of its user.
pub open spec fn needs_sync(acc: JsonV, dev: Option<DeviceV>) -> bool {
    account_uid(acc) is Some && dev is Some && !holds_device(acc, dev->Some_0)
}

/// Putting the devices in a second time changes nothing: an account that has been through it
/// holds its device, and its user is the same.
pub proof fn sync_settles(acc: JsonV, dev: Option<DeviceV>)
    ensures
        !needs_sync(synced(acc, dev), dev),
        synced(synced(acc, dev), dev) == synced(acc, dev),
        account_uid(synced(acc, dev)) == account_uid(acc),
{
    if needs_sync(acc, dev) {
        let d = dev->Some_0;
        let o = acc->Obj_0;
        let sid = json::str_or_null(d.session_id);
        let mid = json::str_or_null(d.market_user_id);
        let a = json::with_field(o, "device_id"@, JsonV::Str(d.device_id));
        let b = json::with_field(a, "session_id"@, sid);
        reveal_strlit("device_id");
        reveal_strlit("session_id");
        reveal_strlit("market_user_id");
        reveal_strlit("UserID");
        reveal_strlit("user_id");
        assert("device_id"@.len() == 9 && "session_id"@.len() == 10 && "market_user_id"@.len() == 14);
        assert("UserID"@.len() == 6 && "user_id"@.len() == 7);
        json::set_then_get(o, "device_id"@, JsonV::Str(d.device_id), "device_id"@);
        json::set_then_get(a, "session_id"@, sid, "device_id"@);
        json::set_then_get(b, "market_user_id"@, mid, "device_id"@);
        json::set_then_get(a, "session_id"@, sid, "session_id"@);
        json::set_then_get(b, "market_user_id"@, mid, "session_id"@);
        json::set_then_get(b, "market_user_id"@, mid, "market_user_id"@);
        json::set_then_get(o, "device_id"@, JsonV::Str(d.device_id), "UserID"@);
        json::set_then_get(a, "session_id"@, sid, "UserID"@);
        json::set_then_get(b, "market_user_id"@, mid, "UserID"@);
        json::set_then_get(o, "device_id"@, JsonV::Str(d.device_id), "user_id"@);
        json::set_then_get(a, "session_id"@, sid, "user_id"@);
        json::set_then_get(b, "market_user_id"@, mid, "user_id"@);
    }
}

// ---- what holds of connections ----

/// A place is a host and a port behind its last colon; without a port, or with one that is none, it is that
/// of secure pages.
pub proof fn places_are_taken_apart(host: Seq<char>, port: nat, plain: Seq<char>)
    requires
        port <= 65535,
        !plain.contains(':'),
    ensures
        place_of(host + ":"@ + digits::decimal(port as int)) == (host, port as int),
        place_of(plain) == (plain, 443int),
{
    reveal_strlit(":");
    let d = digits::decimal(port as int);
    let t = host + ":"@ + d;
    digits::decimals_read_back(port as int);
    lemma_last_index(host + ":"@, d);
    lemma_no_index(plain);
    assert((host + ":"@).last() == ':');
    assert(t.take(host.len() as int) =~= host);
    assert(t.skip(host.len() + 1int) =~= d);
}

proof fn lemma_last_index(a: Seq<char>, b: Seq<char>)
    requires
        a.len() > 0,
        a.last() == ':',
        forall|i: int| 0 <= i < b.len() ==> #[trigger] b[i] != ':',
    ensures
        last_index(a + b, ':') == a.len() - 1,
    decreases b.len(),
{
    if b.len() == 0 {
        assert(a + b =~= a);
    } else {
        let front = b.drop_last();
        assert forall|i: int| 0 <= i < front.len() implies #[trigger] front[i] != ':' by {
            assert(front[i] == b[i]);
        }
        lemma_last_index(a, front);
        assert((a + b).drop_last() =~= a + front);
        assert((a + b).last() == b[b.len() - 1]);
    }
}

proof fn lemma_no_index(s: Seq<char>)
    requires
        !s.contains(':'),
    ensures
        last_index(s, ':') == -1,
    decreases s.len(),
{
    if s.len() > 0 {
        assert(s[s.len() - 1] == s.last());
        let front = s.drop_last();
        assert(!front.contains(':')) by {
            if front.contains(':') {
                let i = choose|i: int| 0 <= i < front.len() && front[i] == ':';
                assert(s[i] == ':');
            }
        }
        lemma_no_index(front);
    }
}

/// A first line that says to connect does so however it is written, and to the place that it names.
pub proof fn connections_go_where_they_say(head: Seq<u8>, words: Seq<Seq<char>>)
    requires
        words.len() > 1,
        first_words(head) == words,
    ensures
        is_connect(head) == (text::smalls(words[0]) == text::smalls("CONNECT"@)),
        connect_place(head) == place_of(words[1]),
{
}

/// The domains that are watched are those of the settings, in small letters, and the usual ones where
/// none is set.
pub proof fn settings_say_what_is_watched(t: Seq<Seq<char>>, i: int)
    requires
        0 <= i < t.len(),
    ensures
        watched(t).len() == t.len(),
        watched(t)[i] == text::smalls(t[i]),
        watched(Seq::empty()) == seq![
            "trae.cn"@,
            "trae.com.cn"@,
            "mchost.guru"@,
            "zijieapi.com"@,
            "bytedance.com"@,
            "volcengine.com"@,
            "volces.com"@,
            "treecode.com"@,
            "doubao.com"@,
        ],
{
}

/// A plain request is handed on as it came: its method, its place, its headers but for those of the
/// connection, and its body, but for a get, which has none.
pub proof fn plain_requests_are_handed_on(
    p: PlainPlan,
    targets: Seq<Seq<char>>,
    has_upstream: bool,
    req: http::RequestV,
    uri: UriV,
    host: Seq<char>,
)
    requires
        plans_plain(p, targets, has_upstream, req, uri, host),
    ensures
        p.method@ == req.method,
        p.host@ == host,
        uri.scheme matches Some(s) ==> p.scheme@ == s,
        uri.scheme is None ==> p.scheme@ == "http"@,
        uri.port matches Some(n) ==> p.port == n,
        uri.port is None && uri.scheme == Some("https"@) ==> p.port == 443,
        uri.port is None && uri.scheme is None ==> p.port == 80,
        uri.path matches Some(s) ==> p.path@ == s,
        uri.path is None ==> p.path@ == "/"@,
        has_upstream ==> p.route is Upstream,
        !has_upstream ==> p.route is Direct,
        p.watched == handler::is_target(targets, host),
        p.line is Some == p.watched,
        headers::pairs(p.headers@) == handler::passed_headers(req.headers, false),
        text::smalls(req.method) == text::smalls("GET"@) ==> p.body@.len() == 0,
        text::smalls(req.method) != text::smalls("GET"@) ==> p.body@ == req.body,
{
    reveal_strlit("http");
    reveal_strlit("https");
    assert("http"@.len() == 4 && "https"@.len() == 5);
}

/// The user of an account is told under either name, the first before the second, in letters or as a
/// number; an empty one is none.
pub proof fn users_of_accounts_are_found(acc: JsonV, u: Seq<char>)
    requires
        u.len() > 0,
    ensures
        acc.get("UserID"@) == Some(JsonV::Str(u)) ==> account_uid(acc) == Some(u),
        acc.get("UserID"@) is None && acc.get("user_id"@) == Some(JsonV::Str(u)) ==> account_uid(acc) == Some(u),
        acc.get("UserID"@) is None && acc.get("user_id"@) is None ==> account_uid(acc) is None,
        acc.get("UserID"@) == Some(JsonV::Str(Seq::empty())) ==> account_uid(acc) is None,
{
}

/// A device is written to an account where the account has a user and does not hold it, and then all of
/// it is; nothing else of the account changes.
pub proof fn devices_are_written_where_they_differ(acc: JsonV, dev: DeviceV, k: Seq<char>)
    ensures
        needs_sync(acc, Some(dev)) ==> synced(acc, Some(dev)) == with_device(acc, dev),
        !needs_sync(acc, Some(dev)) ==> synced(acc, Some(dev)) == acc,
        synced(acc, None) == acc,
        !needs_sync(acc, None),
        account_uid(acc) is None ==> !needs_sync(acc, Some(dev)),
        account_uid(acc) is Some ==> needs_sync(acc, Some(dev)) == !(acc.text_at("device_id"@) == Some(dev.device_id)
            && acc.text_at("session_id"@) == dev.session_id && acc.text_at("market_user_id"@) == dev.market_user_id),
        acc is Obj ==> {
            &&& with_device(acc, dev).get("device_id"@) == Some(JsonV::Str(dev.device_id))
            &&& with_device(acc, dev).get("session_id"@) == Some(json::str_or_null(dev.session_id))
            &&& with_device(acc, dev).get("market_user_id"@) == Some(json::str_or_null(dev.market_user_id))
        },
        k != "device_id"@ && k != "session_id"@ && k != "market_user_id"@ ==> with_device(acc, dev).get(k) == acc.get(k),
{
    broadcast use json::lemma_set_then_get;

    reveal_strlit("device_id");
    reveal_strlit("session_id");
    reveal_strlit("market_user_id");
    assert("device_id"@.len() == 9 && "session_id"@.len() == 10 && "market_user_id"@.len() == 14);
}

/// An upstream is where it says, whichever kind it is, and a host is shown by the first domain it is within.
pub proof fn upstreams_are_where_they_say(a: String, targets: Seq<Seq<char>>, host: Seq<char>, d: Seq<char>)
    ensures
        UpstreamProxy::Http(a).place() == a@,
        UpstreamProxy::Socks5(a).place() == a@,
        handler::first_target(targets, host) == Some(d) ==> shown_domain(targets, host) == d,
        handler::first_target(targets, host) is None ==> shown_domain(targets, host) == "?"@,
{
}

/// What is told at the start: the port, the domains, the files, whether tokens are captured, and the
/// upstream where there is one.
pub proof fn the_start_tells_the_settings(c: ProxyConfig)
    ensures
        banner_of(c)[0] == "代理已启动: 127.0.0.1:"@ + digits::decimal(c.port as int)
            + "  (TRAE 多域 MITM 拦截 + JWT 自动捕获)"@,
        banner_of(c)[1] == "监听 TRAE 域名: "@ + text::joined(
            watched(text::texts(c.targets@)).map_values(|t: Seq<char>| "*."@ + t),
            ", "@,
        ),
        banner_of(c)[4] == "accounts: "@ + c.accounts_path@,
        banner_of(c)[5] == "代理请求日志: "@ + c.req_log_dir@ + " (100MB 滚动)"@,
        c.auto_capture_jwt ==> banner_of(c)[6] == "自动捕获 JWT 写回 accounts.json: "@ + "开"@,
        !c.auto_capture_jwt ==> banner_of(c)[6] == "自动捕获 JWT 写回 accounts.json: "@ + "关"@,
        c.upstream matches Some(up) ==> banner_of(c).len() == 9 && banner_of(c)[7] == "上游代理(用户VPN)透传: "@ + up.place(),
        c.upstream is None ==> banner_of(c).len() == 8,
{
}

} // verus!
