//! Logging in through the browser: the address that is opened, the callback that comes back, the
//! exchange of codes and tokens, and the account that results.
use vstd::prelude::*;
use crate::{codec, digits, json, jwt, text};
use crate::device_proxy::headers;
use crate::json::{Json, JsonV, NumV};
use crate::models::RawAccount;

verus! {

broadcast use vstd::string::group_string_axioms;

/// The address that the callback comes to.
pub const OAUTH_REDIRECT_URI: &'static str = "http://127.0.0.1:17388/authorize";

/// The port that the callback comes to.
pub const OAUTH_LOOPBACK_PORT: u16 = 17388;

// ---- the client ----

/// What the application is known as to the service.
pub struct OAuthClientConfig {
    pub client_id: String,
    pub client_secret: String,
    pub exchange_url: String,
}

/// The usual client.
pub fn default_client_id() -> (r: String)
    ensures
        r@ == "ono9krqynydwx5"@,
{
    "ono9krqynydwx5".to_owned()
}

/// The usual secret, which is none.
pub fn default_client_secret() -> (r: String)
    ensures
        r@ == "-"@,
{
    "-".to_owned()
}

/// Where tokens are exchanged.
pub fn default_exchange_url() -> (r: String)
    ensures
        r@ == "https://api.trae.com.cn/cloudide/api/v3/trae/oauth/ExchangeToken"@,
{
    "https://api.trae.com.cn/cloudide/api/v3/trae/oauth/ExchangeToken".to_owned()
}

impl Default for OAuthClientConfig {
    fn default() -> (r: OAuthClientConfig)
        ensures
            r.client_id@ == "ono9krqynydwx5"@,
            r.client_secret@ == "-"@,
            r.exchange_url@ == "https://api.trae.com.cn/cloudide/api/v3/trae/oauth/ExchangeToken"@,
    {
        OAuthClientConfig {
            client_id: default_client_id(),
            client_secret: default_client_secret(),
            exchange_url: default_exchange_url(),
        }
    }
}

/// Whether a field is a string or missing.
pub open spec fn text_or_missing(v: JsonV, key: Seq<char>) -> bool {
    match v.get(key) {
        Some(x) => x is Str,
        None => true,
    }
}

/// Whether a stored configuration can be used: an object whose fields are strings, or a list of
/// strings, one for each field.
pub open spec fn is_config(v: JsonV) -> bool {
    match v {
        JsonV::Obj(_) => text_or_missing(v, "client_id"@) && text_or_missing(v, "client_secret"@) && text_or_missing(
            v,
            "exchange_url"@,
        ),
        JsonV::Arr(a) => a.len() <= 3 && forall|i: int| 0 <= i < a.len() ==> (#[trigger] a[i]) is Str,
        _ => false,
    }
}

/// A field of a stored configuration, by its name or its place; the usual value where it is left out or
/// the configuration cannot be used.
pub open spec fn config_field(v: JsonV, key: Seq<char>, place: int, usual: Seq<char>) -> Seq<char> {
    let told = match v {
        JsonV::Arr(a) => if 0 <= place < a.len() {
            a[place].text()
        } else {
            None
        },
        _ => v.text_at(key),
    };
    match told {
        Some(s) => if is_config(v) {
            s
        } else {
            usual
        },
        None => usual,
    }
}

fn text_if_any(v: &Json, key: &str) -> (r: bool)
    ensures
        r == text_or_missing(v@, key@),
{
    match v.get(key) {
        Some(x) => x.as_str().is_some(),
        None => true,
    }
}

fn field_or(v: &Json, key: &str, usual: String) -> (r: String)
    ensures
        r@ == match v@.text_at(key@) {
            Some(s) => s,
            None => usual@,
        },
{
    match v.str_at(key) {
        Some(s) => s.to_owned(),
        None => usual,
    }
}

fn all_texts(list: &Vec<Json>) -> (r: bool)
    ensures
        r == forall|i: int| 0 <= i < list@.len() ==> (#[trigger] json::items(list@)[i]) is Str,
{
    let mut i: usize = 0;
    while i < list.len()
        invariant
            i <= list@.len(),
            forall|k: int| 0 <= k < i ==> (#[trigger] json::items(list@)[k]) is Str,
        decreases list@.len() - i,
    {
        assert(json::items(list@)[i as int] == list@[i as int]@);
        if list[i].as_str().is_none() {
            return false;
        }
        i += 1;
    }
    true
}

fn text_in(list: &Vec<Json>, place: usize, usual: String) -> (r: String)
    ensures
        r@ == match (if place < list@.len() {
            json::items(list@)[place as int].text()
        } else {
            None
        }) {
            Some(s) => s,
            None => usual@,
        },
{
    if place < list.len() {
        assert(json::items(list@)[place as int] == list@[place as int]@);
        match list[place].as_str() {
            Some(s) => s.to_owned(),
            None => usual,
        }
    } else {
        usual
    }
}

/// The client out of a stored configuration: what it leaves out is as usual, and so is all of it
/// where it cannot be used.
pub fn oauth_client(stored: &Json) -> (r: OAuthClientConfig)
    ensures
        r.client_id@ == config_field(stored@, "client_id"@, 0, "ono9krqynydwx5"@),
        r.client_secret@ == config_field(stored@, "client_secret"@, 1, "-"@),
        r.exchange_url@ == config_field(
            stored@,
            "exchange_url"@,
            2,
            "https://api.trae.com.cn/cloudide/api/v3/trae/oauth/ExchangeToken"@,
        ),
{
    broadcast use json::lemma_view_parts;

    if let Some(list) = stored.as_array() {
        assert(json::items(list@) == stored@->Arr_0);
        if list.len() <= 3 && all_texts(list) {
            return OAuthClientConfig {
                client_id: text_in(list, 0, default_client_id()),
                client_secret: text_in(list, 1, default_client_secret()),
                exchange_url: text_in(list, 2, default_exchange_url()),
            };
        }
        return OAuthClientConfig::default();
    }
    let usable = stored.is_object() && text_if_any(stored, "client_id") && text_if_any(stored, "client_secret")
        && text_if_any(stored, "exchange_url");
    if usable {
        OAuthClientConfig {
            client_id: field_or(stored, "client_id", default_client_id()),
            client_secret: field_or(stored, "client_secret", default_client_secret()),
            exchange_url: field_or(stored, "exchange_url", default_exchange_url()),
        }
    } else {
        OAuthClientConfig::default()
    }
}

// ---- certificates and random text ----

/// The text without white space.
pub open spec fn without_white(s: Seq<char>) -> Seq<char>
    decreases s.len(),
{
    if s.len() == 0 {
        s
    } else if text::is_white(s.last()) {
        without_white(s.drop_last())
    } else {
        without_white(s.drop_last()).push(s.last())
    }
}

fn drop_white(s: &str) -> (r: String)
    ensures
        r@ == without_white(s@),
{
    let v = text::chars_of(s);
    let mut r = String::new();
    let mut i: usize = 0;
    assert(v@.take(0) =~= Seq::empty());
    assert(r@ =~= Seq::empty());
    while i < v.len()
        invariant
            i <= v@.len(),
            v@ == s@,
            r@ == without_white(v@.take(i as int)),
        decreases v@.len() - i,
    {
        proof {
            assert(v@.take(i + 1).drop_last() =~= v@.take(i as int));
            assert(v@.take(i + 1).last() == v@[i as int]);
        }
        if !text::white(v[i]) {
            r.push(v[i]);
        }
        i += 1;
    }
    assert(v@.take(v@.len() as int) =~= v@);
    r
}

/// What stands between the first two lines of a certificate in a text.
pub open spec fn pem_body(pem: Seq<char>) -> Option<Seq<char>> {
    let parts = text::split_by(pem, "-----BEGIN CERTIFICATE-----"@);
    if parts.len() > 1 {
        Some(text::split_by(parts[1], "-----END CERTIFICATE-----"@)[0])
    } else {
        None
    }
}

/// The bytes of the first certificate in a text, or why there are none.
pub open spec fn pem_der(pem: Seq<char>) -> Result<Seq<u8>, Seq<char>> {
    match pem_body(pem) {
        None => Err("本地 CA 文件缺少 CERTIFICATE PEM 块"@),
        Some(body) => match codec::b64_decoded(without_white(body)) {
            Ok(b) => Ok(b),
            Err(m) => Err("本地 CA base64 解码失败: "@ + m),
        },
    }
}

/// The bytes of the first certificate in a text.
pub fn pem_cert_der(pem: &str) -> (r: Result<Vec<u8>, String>)
    ensures
        match pem_der(pem@) {
            Ok(b) => r matches Ok(v) && v@ == b,
            Err(m) => r matches Err(e) && e@ == m,
        },
{
    proof {
        reveal_strlit("-----BEGIN CERTIFICATE-----");
        reveal_strlit("-----END CERTIFICATE-----");
    }
    let parts = text::split_text(pem, "-----BEGIN CERTIFICATE-----");
    assert(text::texts(parts@).len() == parts@.len());
    if parts.len() < 2 {
        return Err("本地 CA 文件缺少 CERTIFICATE PEM 块".to_owned());
    }
    assert(text::texts(parts@)[1] == parts@[1]@);
    let inner = text::split_text(parts[1].as_str(), "-----END CERTIFICATE-----");
    assert(text::texts(inner@)[0] == inner@[0]@);
    let cleaned = drop_white(inner[0].as_str());
    match codec::b64_decode(cleaned.as_str()) {
        Ok(b) => Ok(b),
        Err(e) => Err(text::cat("本地 CA base64 解码失败: ", e.as_str())),
    }
}

/// How the exchanges are sent.
pub enum AgentPlan {
    /// Straight to the service, with a line to log where another way was asked for.
    Direct(Option<String>),
    /// Through a proxy, whose certificate is trusted.
    Through { addr: String, ca_der: Vec<u8> },
}

/// The address of the proxy that was asked for.
pub open spec fn proxy_asked(setting: Option<Seq<char>>) -> Option<Seq<char>> {
    match setting {
        Some(s) => if text::trimmed(s).len() > 0 {
            Some(text::trimmed(s))
        } else {
            None
        },
        None => None,
    }
}

/// How the exchanges are sent: through the proxy that was asked for, where its certificate is
/// there, else straight. A certificate that cannot be read is an error.
pub fn exchange_agent(setting: Option<&str>, ca_pem: Option<&str>) -> (r: Result<AgentPlan, String>)
    ensures
        match (proxy_asked(text::opt_str(setting)), ca_pem) {
            (None, _) => r matches Ok(AgentPlan::Direct(None)),
            (Some(_), None) => r matches Ok(AgentPlan::Direct(Some(line))) && line@
                == "[OAuth] AIWORK_OAUTH_DEBUG_PROXY 已设置但本地 CA 缺失/读取失败，交换请求降级直连；如需抓包请先启动一次代理生成证书"@,
            (Some(a), Some(pem)) => match pem_der(pem@) {
                Ok(b) => r matches Ok(AgentPlan::Through { addr, ca_der }) && addr@ == a && ca_der@ == b,
                Err(m) => r matches Err(e) && e@ == m,
            },
        },
{
    let addr = match setting {
        Some(s) => text::trim(s),
        None => {
            return Ok(AgentPlan::Direct(None));
        },
    };
    if addr.as_str().unicode_len() == 0 {
        return Ok(AgentPlan::Direct(None));
    }
    match ca_pem {
        None => Ok(
            AgentPlan::Direct(
                Some(
                    "[OAuth] AIWORK_OAUTH_DEBUG_PROXY 已设置但本地 CA 缺失/读取失败，交换请求降级直连；如需抓包请先启动一次代理生成证书".to_owned(),
                ),
            ),
        ),
        Some(pem) => match pem_cert_der(pem) {
            Ok(ca_der) => Ok(AgentPlan::Through { addr, ca_der }),
            Err(e) => Err(e),
        },
    }
}

/// The hexadecimal digits of bytes.
pub open spec fn hex_digits(bytes: Seq<u8>) -> Seq<char>
    decreases bytes.len(),
{
    if bytes.len() == 0 {
        Seq::empty()
    } else {
        hex_digits(bytes.drop_last()).push(digits::digit_char(bytes.last() as int / 16)).push(
            digits::digit_char(bytes.last() as int % 16),
        )
    }
}

/// The next number of the generator that stands in where the system gives no random bytes.
pub open spec fn next_seed(seed: u64) -> u64 {
    seed.wrapping_mul(6364136223846793005).wrapping_add(1442695040888963407)
}

/// So many digits of the generator that stands in.
pub open spec fn generated(seed: u64, len: int) -> Seq<char>
    decreases len,
{
    if len <= 0 {
        Seq::empty()
    } else {
        let s = next_seed(seed);
        seq![digits::digit_char(((s / 0x1_0000_0000) % 16) as int)] + generated(s, len - 1)
    }
}

/// A text of so many hexadecimal digits: out of random bytes where there are any, else generated
/// from a seed.
pub fn random_hex(len: usize, bytes: Option<&[u8]>, seed: u64) -> (r: String)
    requires
        bytes matches Some(b) ==> len <= 2 * b@.len(),
    ensures
        r@ == match bytes {
            Some(b) => hex_digits(b@).take(len as int),
            None => generated(seed, len as int),
        },
        r@.len() == len,
{
    match bytes {
        Some(b) => {
            let mut all: Vec<char> = Vec::new();
            let mut i: usize = 0;
            assert(b@.take(0) =~= Seq::empty());
            assert(all@ =~= Seq::empty());
            while i < b.len()
                invariant
                    i <= b@.len(),
                    all@ == hex_digits(b@.take(i as int)),
                    all@.len() == 2 * i,
                decreases b@.len() - i,
            {
                proof {
                    assert(b@.take(i + 1).drop_last() =~= b@.take(i as int));
                    assert(b@.take(i + 1).last() == b@[i as int]);
                }
                all.push(digits::digit_of((b[i] / 16) as u64));
                all.push(digits::digit_of((b[i] % 16) as u64));
                i += 1;
            }
            assert(b@.take(b@.len() as int) =~= b@);
            let r = text::text_of(&all[0..len]);
            assert(r@ =~= hex_digits(b@).take(len as int));
            r
        },
        None => {
            let mut r = String::new();
            let mut s: u64 = seed;
            let mut i: usize = 0;
            assert(r@ =~= Seq::empty());
            assert(r@ + generated(seed, len as int) =~= generated(seed, len as int));
            while i < len
                invariant
                    i <= len,
                    r@.len() == i,
                    generated(seed, len as int) == r@ + generated(s, len - i),
                decreases len - i,
            {
                let ghost before = r@;
                let t: u64 = s.wrapping_mul(6364136223846793005).wrapping_add(1442695040888963407);
                let c = digits::digit_of((t / 0x1_0000_0000) % 16);
                r.push(c);
                proof {
                    assert(t == next_seed(s));
                    assert(before + (seq![c] + generated(t, len - i - 1)) =~= r@ + generated(t, len - i - 1));
                }
                s = t;
                i += 1;
            }
            assert(r@ + generated(s, 0) =~= r@);
            r
        },
    }
}

// ---- the device ----

/// The device that logs in.
pub struct OAuthDevice {
    pub machine_id: String,
    pub device_id: String,
}

/// The position of the smallest key; minus one in an empty list.
pub open spec fn smallest(map: Seq<(Seq<char>, Seq<char>)>) -> int
    decreases map.len(),
{
    if map.len() == 0 {
        -1
    } else {
        let k = smallest(map.drop_last());
        if k < 0 || json::before(map.last().0, map[k].0) {
            map.len() - 1
        } else {
            k
        }
    }
}

/// `smallest` is the position of a key that no other stands before.
pub proof fn lemma_smallest(map: Seq<(Seq<char>, Seq<char>)>)
    ensures
        map.len() > 0 ==> 0 <= smallest(map) < map.len() && forall|i: int|
            0 <= i < map.len() ==> !json::before(#[trigger] map[i].0, map[smallest(map)].0),
        map.len() == 0 ==> smallest(map) == -1,
    decreases map.len(),
{
    if map.len() > 0 {
        let rest = map.drop_last();
        lemma_smallest(rest);
        let k = smallest(rest);
        let m = smallest(map);
        assert forall|i: int| 0 <= i < map.len() implies !json::before(#[trigger] map[i].0, map[m].0) by {
            json::lemma_before_total(map[m].0, map[m].0);
            if i < rest.len() {
                assert(rest[i] == map[i]);
                if m == map.len() - 1 {
                    if json::before(map[i].0, map[m].0) {
                        json::lemma_before_trans(map[i].0, map[m].0, map[k].0);
                    }
                }
            }
        }
    }
}

/// The digits made of hexadecimal ones.
pub open spec fn plain_digits(hex: Seq<char>) -> Seq<char> {
    hex.map_values(|c: char| digits::digit_char((c as int) % 10))
}

/// The identifier of a device: the one that is stored, else the one of the smallest user in the
/// map, else made of random digits.
pub open spec fn device_id_of(stored: Seq<char>, map: Seq<(Seq<char>, Seq<char>)>, hex: Seq<char>) -> Seq<char> {
    let k = smallest(map);
    if stored.len() > 0 {
        stored
    } else if 0 <= k < map.len() && map[k].1.len() > 0 {
        map[k].1
    } else {
        plain_digits(hex)
    }
}

/// The device that logs in, and whether it has to be stored: what is stored stays as it is, so
/// that the device is the same at every login. The map holds a device for each user; the random
/// text serves for what is missing.
pub fn load_or_create_oauth_device(
    stored: &OAuthDevice,
    map: &Vec<(String, String)>,
    machine_hex: &str,
    device_hex: &str,
) -> (r: (OAuthDevice, bool))
    requires
        forall|i: int| 0 <= i < device_hex@.len() ==> digits::is_digit_char(#[trigger] device_hex@[i]),
    ensures
        r.0.device_id@ == device_id_of(
            stored.device_id@,
            headers::pairs(map@),
            device_hex@,
        ),
        r.0.machine_id@ == if stored.machine_id@.len() > 0 {
            stored.machine_id@
        } else {
            machine_hex@
        },
        r.1 == (stored.machine_id@.len() == 0 || stored.device_id@.len() == 0),
{
    let ghost all = headers::pairs(map@);
    let lacks = stored.machine_id.as_str().unicode_len() == 0 || stored.device_id.as_str().unicode_len() == 0;
    let machine_id = if stored.machine_id.as_str().unicode_len() > 0 {
        stored.machine_id.clone()
    } else {
        machine_hex.to_owned()
    };
    if stored.device_id.as_str().unicode_len() > 0 {
        return (OAuthDevice { machine_id, device_id: stored.device_id.clone() }, lacks);
    }
    let mut best: usize = 0;
    let mut i: usize = 0;
    assert(all.take(0) =~= Seq::empty());
    while i < map.len()
        invariant
            i <= map@.len(),
            all == headers::pairs(map@),
            i > 0 ==> best < i && smallest(all.take(i as int)) == best,
            i == 0 ==> smallest(all.take(i as int)) == -1,
        decreases map@.len() - i,
    {
        proof {
            assert(all.take(i + 1).drop_last() =~= all.take(i as int));
            assert(all.take(i + 1).last() == (map@[i as int].0@, map@[i as int].1@));
            if i > 0 {
                assert(all.take(i + 1)[best as int] == all[best as int]);
                assert(all.take(i as int)[best as int] == all[best as int]);
            }
        }
        if i == 0 || json::is_before(map[i].0.as_str(), map[best].0.as_str()) {
            best = i;
        }
        i += 1;
    }
    assert(all.take(all.len() as int) =~= all);
    if map.len() > 0 {
        assert(all[best as int] == (map@[best as int].0@, map@[best as int].1@));
        if map[best].1.as_str().unicode_len() > 0 {
            return (OAuthDevice { machine_id, device_id: map[best].1.clone() }, lacks);
        }
    }
    let v = text::chars_of(device_hex);
    let mut id = String::new();
    let mut j: usize = 0;
    let ghost want = plain_digits(device_hex@);
    assert(id@ =~= want.take(0));
    while j < v.len()
        invariant
            j <= v@.len(),
            v@ == device_hex@,
            forall|k: int| 0 <= k < device_hex@.len() ==> digits::is_digit_char(#[trigger] device_hex@[k]),
            want == plain_digits(device_hex@),
            id@ == want.take(j as int),
        decreases v@.len() - j,
    {
        assert(digits::is_digit_char(device_hex@[j as int]));
        let n: u8 = v[j] as u8;
        id.push(digits::digit_of((n % 10) as u64));
        j += 1;
        assert(id@ =~= want.take(j as int));
    }
    assert(id@ =~= want);
    (OAuthDevice { machine_id, device_id: id }, lacks)
}

/// Once a device is complete it is never replaced, whatever the map or the random text.
pub proof fn device_is_stable(
    stored: Seq<char>,
    map: Seq<(Seq<char>, Seq<char>)>,
    other_map: Seq<(Seq<char>, Seq<char>)>,
    hex: Seq<char>,
    other_hex: Seq<char>,
)
    requires
        stored.len() > 0,
    ensures
        device_id_of(stored, map, hex) == device_id_of(stored, other_map, other_hex),
        device_id_of(stored, map, hex) == stored,
{
}

// ---- the address ----

/// The challenge of a verifier: its digest, in base64 for addresses.
pub open spec fn challenge_of(verifier: Seq<char>) -> Seq<char> {
    codec::b64url_encoded(codec::sha256_of(vstd::utf8::encode_utf8(verifier)))
}

/// The challenge of a verifier.
pub fn pkce_challenge(verifier: &str) -> (r: String)
    ensures
        r@ == challenge_of(verifier@),
{
    let d = codec::sha256(verifier.as_bytes());
    codec::b64url_encode(d.as_slice())
}

/// A login that has been started: what its callback has to name, and the verifier of its code.
pub struct PendingLogin {
    pub state: String,
    pub pkce_verifier: String,
}

/// The address to open, and what its callback has to name.
pub struct OAuthLoginUrl {
    pub url: String,
    pub state: String,
    pub redirect_uri: String,
}

/// The address of a login.
pub open spec fn login_address(
    client_id: Seq<char>,
    trace_id: Seq<char>,
    machine_id: Seq<char>,
    device_id: Seq<char>,
    hostname: Seq<char>,
    challenge: Seq<char>,
) -> Seq<char> {
    "https://www.trae.cn/authorization?login_version=1&auth_from=trae&login_channel=native_ide&plugin_version=2.3.83560&auth_type=local&client_id="@
        + client_id + "&redirect=0&login_trace_id="@ + trace_id + "&auth_callback_url="@ + codec::url_encoded(
        OAUTH_REDIRECT_URI@,
    ) + "&machine_id="@ + machine_id + "&device_id="@ + device_id + "&x_device_id="@ + device_id + "&x_machine_id="@
        + machine_id + "&x_device_brand="@ + codec::url_encoded(hostname) + "&x_device_type=windows&x_os_version="@
        + codec::url_encoded("Windows"@) + "&x_env=&x_app_version=3.3.100&x_app_type=stable&code_challenge="@ + challenge
        + "&code_challenge_method=S256&channel_name=common"@
}

/// Starts a login: the address, and what is remembered until the callback. The name of the
/// computer stands in where it is not known.
pub fn oauth_get_login_url(
    client_id: &str,
    dev: &OAuthDevice,
    hostname: Option<&str>,
    trace_id: &str,
    verifier: &str,
) -> (r: (OAuthLoginUrl, PendingLogin))
    ensures
        r.0.url@ == login_address(
            client_id@,
            trace_id@,
            dev.machine_id@,
            dev.device_id@,
            match hostname {
                Some(h) => h@,
                None => "Windows-PC"@,
            },
            challenge_of(verifier@),
        ),
        r.0.state@ == trace_id@,
        r.0.redirect_uri@ == OAUTH_REDIRECT_URI@,
        r.1.state@ == trace_id@,
        r.1.pkce_verifier@ == verifier@,
{
    let host = match hostname {
        Some(h) => h,
        None => "Windows-PC",
    };
    let challenge = pkce_challenge(verifier);
    let mut url =
        "https://www.trae.cn/authorization?login_version=1&auth_from=trae&login_channel=native_ide&plugin_version=2.3.83560&auth_type=local&client_id=".to_owned();
    url.append(client_id);
    url.append("&redirect=0&login_trace_id=");
    url.append(trace_id);
    url.append("&auth_callback_url=");
    url.append(codec::url_encode(OAUTH_REDIRECT_URI).as_str());
    url.append("&machine_id=");
    url.append(dev.machine_id.as_str());
    url.append("&device_id=");
    url.append(dev.device_id.as_str());
    url.append("&x_device_id=");
    url.append(dev.device_id.as_str());
    url.append("&x_machine_id=");
    url.append(dev.machine_id.as_str());
    url.append("&x_device_brand=");
    url.append(codec::url_encode(host).as_str());
    url.append("&x_device_type=windows&x_os_version=");
    url.append(codec::url_encode("Windows").as_str());
    url.append("&x_env=&x_app_version=3.3.100&x_app_type=stable&code_challenge=");
    url.append(challenge.as_str());
    url.append("&code_challenge_method=S256&channel_name=common");
    (
        OAuthLoginUrl { url, state: trace_id.to_owned(), redirect_uri: OAUTH_REDIRECT_URI.to_owned() },
        PendingLogin { state: trace_id.to_owned(), pkce_verifier: verifier.to_owned() },
    )
}

// ---- the callback ----

/// What a callback gives.
pub struct OAuthCallbackInfo {
    pub refresh_token: String,
    pub access_token: Option<String>,
    pub user_id: Option<String>,
    pub user_name: Option<String>,
    pub avatar: Option<String>,
}

/// The value of the last parameter with the name.
pub open spec fn param(params: Seq<(Seq<char>, Seq<char>)>, name: Seq<char>) -> Option<Seq<char>>
    decreases params.len(),
{
    if params.len() == 0 {
        None
    } else if params.last().0 == name {
        Some(params.last().1)
    } else {
        param(params.drop_last(), name)
    }
}

/// One parameter of a query: what stands on both sides of the first equals sign, decoded behind it
/// as far as that can be done.
pub open spec fn param_of(pair: Seq<char>) -> (Seq<char>, Seq<char>) {
    let (k, v) = match text::cut_at(pair, '=') {
        Some((k, v)) => (k, v),
        None => (pair, Seq::empty()),
    };
    (
        k,
        match codec::url_decoded(v) {
            Some(d) => d,
            None => v,
        },
    )
}

/// The query of an address: what stands behind the first question mark, up to the next.
pub open spec fn query_of(url: Seq<char>) -> Option<Seq<char>> {
    let parts = text::split_on(url, '?');
    if parts.len() > 1 {
        Some(parts[1])
    } else {
        None
    }
}

/// The parameters of a query.
pub open spec fn params_of(query: Seq<char>) -> Seq<(Seq<char>, Seq<char>)> {
    text::split_on(query, '&').map_values(|p: Seq<char>| param_of(p))
}

fn get_param<'a>(params: &'a Vec<(String, String)>, name: &str) -> (r: Option<&'a str>)
    ensures
        text::opt_str(r) == param(headers::pairs(params@), name@),
{
    let ghost all = headers::pairs(params@);
    let mut i: usize = params.len();
    assert(all.take(all.len() as int) =~= all);
    while i > 0
        invariant
            i <= params@.len(),
            all == headers::pairs(params@),
            param(all, name@) == param(all.take(i as int), name@),
        decreases i,
    {
        proof {
            assert(all.take(i as int).last() == (params@[i - 1].0@, params@[i - 1].1@));
            assert(all.take(i as int).drop_last() =~= all.take(i - 1));
        }
        if text::same(params[i - 1].0.as_str(), name) {
            return Some(params[i - 1].1.as_str());
        }
        i -= 1;
    }
    None
}

fn own(v: Option<&str>) -> (r: Option<String>)
    ensures
        text::opt_text(r) == text::opt_str(v),
{
    match v {
        Some(s) => Some(s.to_owned()),
        None => None,
    }
}

/// The parameters of a query.
pub fn read_params(query: &str) -> (r: Vec<(String, String)>)
    ensures
        headers::pairs(r@) == params_of(query@),
{
    let parts = text::split(query, '&');
    let ghost all = text::texts(parts@);
    let ghost want = params_of(query@);
    let mut out: Vec<(String, String)> = Vec::new();
    let mut i: usize = 0;
    while i < parts.len()
        invariant
            i <= parts@.len(),
            all == text::texts(parts@),
            all == text::split_on(query@, '&'),
            want == params_of(query@),
            headers::pairs(out@) == want.take(i as int),
        decreases parts@.len() - i,
    {
        let ghost before = headers::pairs(out@);
        assert(all[i as int] == parts@[i as int]@);
        let (k, v) = match text::split_once(parts[i].as_str(), '=') {
            Some((k, v)) => (k, v),
            None => {
                let e = String::new();
                assert(e@ =~= Seq::empty());
                (parts[i].clone(), e)
            },
        };
        let d = match codec::url_decode(v.as_str()) {
            Some(d) => d,
            None => v,
        };
        let entry = (k, d);
        out.push(entry);
        i += 1;
        assert(headers::pairs(out@) =~= before.push((entry.0@, entry.1@)));
        assert(headers::pairs(out@) =~= want.take(i as int));
    }
    assert(headers::pairs(out@) =~= want);
    out
}

/// The first of two that is there.
pub open spec fn either(a: Option<Seq<char>>, b: Option<Seq<char>>) -> Option<Seq<char>> {
    match a {
        Some(x) => Some(x),
        None => b,
    }
}

/// The code in what the page says of it, or why there is none.
pub open spec fn auth_code_of(info: Option<Result<JsonV, Seq<char>>>) -> Result<Option<Seq<char>>, Seq<char>> {
    match info {
        None => Ok(None),
        Some(Err(e)) => Err("authCodeInfo 解析失败（"@ + e + "）：授权页回调格式异常"@),
        Some(Ok(v)) => match v.text_at("AuthCode"@) {
            Some(c) => if c.len() > 0 {
                Ok(Some(c))
            } else {
                Err("authCodeInfo 中缺少 AuthCode 字段"@)
            },
            None => Err("authCodeInfo 中缺少 AuthCode 字段"@),
        },
    }
}

/// The name in what the page says of the user.
pub open spec fn screen_name(v: JsonV) -> Option<Seq<char>> {
    match v.get("ScreenName"@) {
        Some(x) => x.text(),
        None => v.text_at("NickName"@),
    }
}

/// The user that the parameters name by themselves.
pub open spec fn named_user(params: Seq<(Seq<char>, Seq<char>)>) -> Option<Seq<char>> {
    either(param(params, "userId"@), either(param(params, "user_id"@), param(params, "UserID"@)))
}

/// The user of a callback: what the page says of the user fills in what the parameters leave out.
pub open spec fn callback_user(params: Seq<(Seq<char>, Seq<char>)>, info: Option<JsonV>) -> Option<Seq<char>> {
    let told = match info {
        Some(v) => if named_user(params) is None {
            v.text_at("UserID"@)
        } else {
            None
        },
        None => None,
    };
    either(told, either(param(params, "UserID"@), named_user(params)))
}

/// The name of a callback's user: what the page says of it counts first.
pub open spec fn callback_name(params: Seq<(Seq<char>, Seq<char>)>, info: Option<JsonV>) -> Option<Seq<char>> {
    let told = match info {
        Some(v) => screen_name(v),
        None => None,
    };
    either(
        told,
        either(param(params, "userName"@), either(param(params, "user_name"@), param(params, "nickname"@))),
    )
}

/// The picture of a callback's user.
pub open spec fn callback_avatar(params: Seq<(Seq<char>, Seq<char>)>, info: Option<JsonV>) -> Option<Seq<char>> {
    let told = match info {
        Some(v) => v.text_at("AvatarUrl"@),
        None => None,
    };
    either(told, param(params, "avatar"@))
}

/// What is wrong with where a callback says it comes from: it names another login than the one
/// that was started, or none although it brings a code.
pub open spec fn trace_error(
    params: Seq<(Seq<char>, Seq<char>)>,
    has_code: bool,
    issued: Option<Seq<char>>,
) -> Option<Seq<char>> {
    match either(param(params, "loginTraceID"@), param(params, "login_trace_id"@)) {
        Some(t) => match issued {
            Some(e) => if e.len() > 0 && t != e {
                Some(
                    "OAuth loginTraceID 校验失败：回调 URL 与本机发起的登录请求不匹配（可能为伪造或重放），已拒绝"@,
                )
            } else {
                None
            },
            None => None,
        },
        None => if has_code && issued is Some {
            Some("OAuth 回调缺少 loginTraceID，无法确认与本机登录请求的对应关系，已拒绝"@)
        } else {
            None
        },
    }
}

/// What a callback comes to.
pub enum Callback {
    /// It brings the tokens.
    Ready(OAuthCallbackInfo),
    /// It brings a code that has to be exchanged.
    Exchange { code: String, user_id: Option<String>, user_name: Option<String>, avatar: Option<String> },
}

/// The model of what a callback comes to.
pub enum CallbackV {
    Ready(Seq<char>, Option<Seq<char>>, Option<Seq<char>>, Option<Seq<char>>, Option<Seq<char>>),
    Exchange(Seq<char>, Option<Seq<char>>, Option<Seq<char>>, Option<Seq<char>>),
}

impl View for Callback {
    type V = CallbackV;

    open spec fn view(&self) -> CallbackV {
        match *self {
            Callback::Ready(i) => CallbackV::Ready(
                i.refresh_token@,
                text::opt_text(i.access_token),
                text::opt_text(i.user_id),
                text::opt_text(i.user_name),
                text::opt_text(i.avatar),
            ),
            Callback::Exchange { code, user_id, user_name, avatar } => CallbackV::Exchange(
                code@,
                text::opt_text(user_id),
                text::opt_text(user_name),
                text::opt_text(avatar),
            ),
        }
    }
}

/// What the parameters of a callback come to, with what the page says of the code and of the user,
/// and what was started.
pub open spec fn callback_of(
    params: Seq<(Seq<char>, Seq<char>)>,
    code_info: Option<Result<JsonV, Seq<char>>>,
    user_info: Option<JsonV>,
    issued: Option<Seq<char>>,
) -> Result<CallbackV, Seq<char>> {
    let user_id = callback_user(params, user_info);
    let user_name = callback_name(params, user_info);
    let avatar = callback_avatar(params, user_info);
    match auth_code_of(code_info) {
        Err(e) => Err(e),
        Ok(code) => match trace_error(params, code is Some, issued) {
            Some(e) => Err(e),
            None => match either(param(params, "refreshToken"@), param(params, "refresh_token"@)) {
                Some(rt) => Ok(
                    CallbackV::Ready(
                        rt,
                        either(param(params, "accessToken"@), param(params, "access_token"@)),
                        user_id,
                        user_name,
                        avatar,
                    ),
                ),
                None => match either(code, param(params, "code"@)) {
                    Some(c) => Ok(CallbackV::Exchange(c, user_id, user_name, avatar)),
                    None => Err("回调 URL 中缺少 authCodeInfo/refreshToken 参数"@),
                },
            },
        },
    }
}

/// What a result of a callback holds.
pub open spec fn callback_view(r: Result<Callback, String>) -> Result<CallbackV, Seq<char>> {
    match r {
        Ok(c) => Ok(c@),
        Err(e) => Err(e@),
    }
}

fn first_of(params: &Vec<(String, String)>, a: &str, b: &str) -> (r: Option<String>)
    ensures
        text::opt_text(r) == either(
            param(headers::pairs(params@), a@),
            param(headers::pairs(params@), b@),
        ),
{
    match get_param(params, a) {
        Some(v) => Some(v.to_owned()),
        None => own(get_param(params, b)),
    }
}

fn first_text(a: Option<String>, b: Option<String>) -> (r: Option<String>)
    ensures
        text::opt_text(r) == either(text::opt_text(a), text::opt_text(b)),
{
    match a {
        Some(v) => Some(v),
        None => b,
    }
}

/// What optional results of reading hold.
pub open spec fn opt_read(v: Option<Result<Json, String>>) -> Option<Result<JsonV, Seq<char>>> {
    match v {
        Some(r) => Some(json::read_result(r)),
        None => None,
    }
}

/// What the parameters of a callback come to, with what the page says of the code and of the user,
/// and what was started.
pub fn resolve_callback(
    params: &Vec<(String, String)>,
    code_info: &Option<Result<Json, String>>,
    user_info: &Option<Json>,
    issued: Option<&str>,
) -> (r: Result<Callback, String>)
    ensures
        callback_view(r) == callback_of(
            headers::pairs(params@),
            opt_read(*code_info),
            json::opt(*user_info),
            text::opt_str(issued),
        ),
{
    let code = match code_info {
        None => None,
        Some(Err(e)) => {
            return Err(text::cat3("authCodeInfo 解析失败（", e.as_str(), "）：授权页回调格式异常"));
        },
        Some(Ok(v)) => match v.str_at("AuthCode") {
            Some(c) => {
                if c.unicode_len() == 0 {
                    return Err("authCodeInfo 中缺少 AuthCode 字段".to_owned());
                }
                Some(c.to_owned())
            },
            None => {
                return Err("authCodeInfo 中缺少 AuthCode 字段".to_owned());
            },
        },
    };
    let named = first_text(own(get_param(params, "userId")), first_of(params, "user_id", "UserID"));
    let told_user = match user_info {
        Some(v) => if named.is_none() {
            own(v.str_at("UserID"))
        } else {
            None
        },
        None => None,
    };
    let user_id = first_text(told_user, first_text(own(get_param(params, "UserID")), named));
    let told_name = match user_info {
        Some(v) => match v.get("ScreenName") {
            Some(x) => own(x.as_str()),
            None => own(v.str_at("NickName")),
        },
        None => None,
    };
    let user_name = first_text(
        told_name,
        first_text(own(get_param(params, "userName")), first_of(params, "user_name", "nickname")),
    );
    let told_avatar = match user_info {
        Some(v) => own(v.str_at("AvatarUrl")),
        None => None,
    };
    let avatar = first_text(told_avatar, own(get_param(params, "avatar")));
    match first_of(params, "loginTraceID", "login_trace_id") {
        Some(t) => {
            if let Some(e) = issued {
                if e.unicode_len() > 0 && !text::same(t.as_str(), e) {
                    return Err(
                        "OAuth loginTraceID 校验失败：回调 URL 与本机发起的登录请求不匹配（可能为伪造或重放），已拒绝".to_owned(),
                    );
                }
            }
        },
        None => {
            if code.is_some() && issued.is_some() {
                return Err(
                    "OAuth 回调缺少 loginTraceID，无法确认与本机登录请求的对应关系，已拒绝".to_owned(),
                );
            }
        },
    }
    match first_of(params, "refreshToken", "refresh_token") {
        Some(rt) => Ok(
            Callback::Ready(
                OAuthCallbackInfo {
                    refresh_token: rt,
                    access_token: first_of(params, "accessToken", "access_token"),
                    user_id,
                    user_name,
                    avatar,
                },
            ),
        ),
        None => match first_text(code, own(get_param(params, "code"))) {
            Some(c) => Ok(Callback::Exchange { code: c, user_id, user_name, avatar }),
            None => Err("回调 URL 中缺少 authCodeInfo/refreshToken 参数".to_owned()),
        },
    }
}

/// What the page says of the code, read.
pub open spec fn code_info_of(params: Seq<(Seq<char>, Seq<char>)>) -> Option<Result<JsonV, Seq<char>>> {
    match param(params, "authCodeInfo"@) {
        Some(raw) => Some(json::json_read(raw)),
        None => None,
    }
}

/// What the page says of the user, read; nothing where it cannot be.
pub open spec fn user_info_of(params: Seq<(Seq<char>, Seq<char>)>) -> Option<JsonV> {
    match param(params, "userInfo"@) {
        Some(raw) => match json::json_read(raw) {
            Ok(v) => Some(v),
            Err(_) => None,
        },
        None => None,
    }
}

/// What a callback comes to, with what was started.
pub fn oauth_parse_callback(callback_url: &str, issued: Option<&str>) -> (r: Result<Callback, String>)
    ensures
        match query_of(callback_url@) {
            None => callback_view(r) == Err::<CallbackV, Seq<char>>("回调 URL 中缺少查询参数"@),
            Some(q) => callback_view(r) == callback_of(
                params_of(q),
                code_info_of(params_of(q)),
                user_info_of(params_of(q)),
                text::opt_str(issued),
            ),
        },
{
    let parts = text::split(callback_url, '?');
    assert(text::texts(parts@).len() == parts@.len());
    if parts.len() < 2 {
        return Err("回调 URL 中缺少查询参数".to_owned());
    }
    assert(text::texts(parts@)[1] == parts@[1]@);
    let params = read_params(parts[1].as_str());
    let code_info = match get_param(&params, "authCodeInfo") {
        Some(raw) => Some(json::read_json(raw)),
        None => None,
    };
    let user_info = match get_param(&params, "userInfo") {
        Some(raw) => match json::read_json(raw) {
            Ok(v) => Some(v),
            Err(_) => None,
        },
        None => None,
    };
    resolve_callback(&params, &code_info, &user_info, issued)
}

/// A callback that names another login than the one that was started is refused, whatever else it
/// brings; so is one that brings a code and names none.
pub proof fn foreign_callbacks_are_refused(
    params: Seq<(Seq<char>, Seq<char>)>,
    code_info: Option<Result<JsonV, Seq<char>>>,
    user_info: Option<JsonV>,
    issued: Seq<char>,
)
    requires
        issued.len() > 0,
        match either(param(params, "loginTraceID"@), param(params, "login_trace_id"@)) {
            Some(t) => t != issued,
            None => code_info is Some,
        },
    ensures
        callback_of(params, code_info, user_info, Some(issued)) is Err,
{
}

/// The end of a callback that brought a code, with what the exchange came to.
pub fn finish_exchange(
    exchanged: Result<(String, String), String>,
    user_id: Option<String>,
    user_name: Option<String>,
    avatar: Option<String>,
) -> (r: Result<OAuthCallbackInfo, String>)
    ensures
        match exchanged {
            Ok((at, rt)) => r == Ok::<OAuthCallbackInfo, String>(
                (OAuthCallbackInfo { refresh_token: rt, access_token: Some(at), user_id, user_name, avatar }),
            ),
            Err(e) => r matches Err(m) && m@ == "AuthCode 交换失败（"@ + e@
                + "）；可复制完整回调 URL 与 app.log 中的交换诊断反馈排查，或改用手动登录兜底"@,
        },
{
    match exchanged {
        Ok((at, rt)) => Ok(OAuthCallbackInfo { refresh_token: rt, access_token: Some(at), user_id, user_name, avatar }),
        Err(e) => Err(
            text::cat3(
                "AuthCode 交换失败（",
                e.as_str(),
                "）；可复制完整回调 URL 与 app.log 中的交换诊断反馈排查，或改用手动登录兜底",
            ),
        ),
    }
}

// ---- exchanges ----

/// The request that exchanges a code.
pub open spec fn code_request(client: OAuthClientConfig, code: Seq<char>, verifier: Seq<char>, device_id: Seq<char>) -> JsonV {
    let a = json::with_field(Seq::empty(), "ClientID"@, JsonV::Str(client.client_id@));
    let b = json::with_field(a, "Code"@, JsonV::Str(code));
    let c = json::with_field(b, "CodeVerifier"@, JsonV::Str(verifier));
    let d = json::with_field(c, "ClientSecret"@, JsonV::Str(client.client_secret@));
    let e = json::with_field(d, "DeviceID"@, JsonV::Str(device_id));
    let f = json::with_field(e, "PlatformCode"@, JsonV::Str("IDE_PC"@));
    JsonV::Obj(json::with_field(f, "UserID"@, JsonV::Str(""@)))
}

/// The request that exchanges a code.
pub fn code_exchange_body(client: &OAuthClientConfig, code: &str, verifier: Option<&str>, device_id: &str) -> (r: Json)
    ensures
        r@ == code_request(
            *client,
            code@,
            match verifier {
                Some(v) => v@,
                None => ""@,
            },
            device_id@,
        ),
{
    let mut o = json::new_fields();
    json::put(&mut o, "ClientID", json::jstr(client.client_id.as_str()));
    json::put(&mut o, "Code", json::jstr(code));
    let v = match verifier {
        Some(v) => v,
        None => "",
    };
    json::put(&mut o, "CodeVerifier", json::jstr(v));
    json::put(&mut o, "ClientSecret", json::jstr(client.client_secret.as_str()));
    json::put(&mut o, "DeviceID", json::jstr(device_id));
    json::put(&mut o, "PlatformCode", json::jstr("IDE_PC"));
    json::put(&mut o, "UserID", json::jstr(""));
    json::object(o)
}

/// The request that exchanges a refresh token.
pub open spec fn token_request(client: OAuthClientConfig, refresh_token: Seq<char>) -> JsonV {
    let a = json::with_field(Seq::empty(), "ClientID"@, JsonV::Str(client.client_id@));
    let b = json::with_field(a, "RefreshToken"@, JsonV::Str(refresh_token));
    let c = json::with_field(b, "ClientSecret"@, JsonV::Str(client.client_secret@));
    JsonV::Obj(json::with_field(c, "UserID"@, JsonV::Str(""@)))
}

/// The request that exchanges a refresh token.
pub fn token_exchange_body(client: &OAuthClientConfig, refresh_token: &str) -> (r: Json)
    ensures
        r@ == token_request(*client, refresh_token@),
{
    let mut o = json::new_fields();
    json::put(&mut o, "ClientID", json::jstr(client.client_id.as_str()));
    json::put(&mut o, "RefreshToken", json::jstr(refresh_token));
    json::put(&mut o, "ClientSecret", json::jstr(client.client_secret.as_str()));
    json::put(&mut o, "UserID", json::jstr(""));
    json::object(o)
}

/// Why an answer to an exchange is no good, by its code.
pub open spec fn exchange_error(body: JsonV) -> Option<Seq<char>> {
    let code = match body.int_at("code"@) {
        Some(c) => c,
        None => -1,
    };
    if code == 0 {
        None
    } else {
        Some(
            "ExchangeToken 失败 (code="@ + digits::decimal(code) + "): "@ + match body.text_at("message"@) {
                Some(m) => m,
                None => "未知错误"@,
            },
        )
    }
}

fn check_exchange(body: &Json) -> (r: Option<String>)
    ensures
        text::opt_text(r) == exchange_error(body@),
{
    let code: i64 = match body.i64_at("code") {
        Some(c) => c,
        None => -1,
    };
    if code == 0 {
        return None;
    }
    let mut m = text::cat3("ExchangeToken 失败 (code=", digits::signed_number(code).as_str(), "): ");
    match body.str_at("message") {
        Some(t) => {
            m.append(t);
        },
        None => {
            m.append("未知错误");
        },
    }
    Some(m)
}

/// The first of the fields that is there, where it is a string.
pub open spec fn first_named(v: JsonV, keys: Seq<Seq<char>>) -> Option<Seq<char>>
    decreases keys.len(),
{
    if keys.len() == 0 {
        None
    } else {
        match v.get(keys[0]) {
            Some(x) => x.text(),
            None => first_named(v, keys.skip(1)),
        }
    }
}

fn named_text(v: &Json, keys: &Vec<&str>) -> (r: Option<String>)
    ensures
        text::opt_text(r) == first_named(v@, text::strs(keys@)),
{
    let ghost all = text::strs(keys@);
    assert(all.skip(0) =~= all);
    let mut i: usize = 0;
    while i < keys.len()
        invariant
            i <= keys@.len(),
            all == text::strs(keys@),
            first_named(v@, all) == first_named(v@, all.skip(i as int)),
        decreases keys@.len() - i,
    {
        proof {
            assert(all.skip(i as int)[0] == keys@[i as int]@);
            assert(all.skip(i as int).skip(1) =~= all.skip(i + 1));
        }
        if let Some(x) = v.get(keys[i]) {
            return own(x.as_str());
        }
        i += 1;
    }
    None
}

/// What an exchange of a code comes to: both tokens, or why not.
pub open spec fn code_exchange(body: JsonV) -> Result<(Seq<char>, Seq<char>), Seq<char>> {
    match exchange_error(body) {
        Some(e) => Err(e),
        None => match body.get("data"@) {
            None => Err("响应中缺少 data 字段"@),
            Some(d) => match first_named(d, seq!["access_token"@, "AccessToken"@, "token"@]) {
                None => Err("响应中缺少 access_token"@),
                Some(at) => match first_named(d, seq!["refresh_token"@, "RefreshToken"@]) {
                    None => Err("响应中缺少 refresh_token"@),
                    Some(rt) => Ok((at, rt)),
                },
            },
        },
    }
}

/// What a result of an exchange holds.
pub open spec fn pair_view(r: Result<(String, String), String>) -> Result<(Seq<char>, Seq<char>), Seq<char>> {
    match r {
        Ok((a, b)) => Ok((a@, b@)),
        Err(e) => Err(e@),
    }
}

/// What an exchange of a code comes to.
pub fn exchange_code(body: &Json) -> (r: Result<(String, String), String>)
    ensures
        pair_view(r) == code_exchange(body@),
{
    if let Some(e) = check_exchange(body) {
        return Err(e);
    }
    match body.get("data") {
        None => Err("响应中缺少 data 字段".to_owned()),
        Some(d) => {
            let at_keys = vec!["access_token", "AccessToken", "token"];
            let rt_keys = vec!["refresh_token", "RefreshToken"];
            assert(text::strs(at_keys@) =~= seq!["access_token"@, "AccessToken"@, "token"@]);
            assert(text::strs(rt_keys@) =~= seq!["refresh_token"@, "RefreshToken"@]);
            match named_text(d, &at_keys) {
                None => Err("响应中缺少 access_token".to_owned()),
                Some(at) => match named_text(d, &rt_keys) {
                    None => Err("响应中缺少 refresh_token".to_owned()),
                    Some(rt) => Ok((at, rt)),
                },
            }
        },
    }
}

/// What an exchange of a refresh token comes to: an access token, it may be with a new refresh
/// token, or why not.
pub open spec fn token_exchange(body: JsonV) -> Result<(Seq<char>, Option<Seq<char>>), Seq<char>> {
    match exchange_error(body) {
        Some(e) => Err(e),
        None => match body.get("data"@) {
            None => Err("响应中缺少 data 字段"@),
            Some(d) => match first_named(d, seq!["access_token"@, "token"@]) {
                None => Err("响应中缺少 access_token"@),
                Some(at) => Ok((at, d.text_at("refresh_token"@))),
            },
        },
    }
}

/// What an exchange of a refresh token comes to.
pub fn exchange_token(body: &Json) -> (r: Result<(String, Option<String>), String>)
    ensures
        match r {
            Ok((at, rt)) => token_exchange(body@) == Ok::<_, Seq<char>>((at@, text::opt_text(rt))),
            Err(e) => token_exchange(body@) == Err::<(Seq<char>, Option<Seq<char>>), _>(e@),
        },
{
    if let Some(e) = check_exchange(body) {
        return Err(e);
    }
    match body.get("data") {
        None => Err("响应中缺少 data 字段".to_owned()),
        Some(d) => {
            let keys = vec!["access_token", "token"];
            assert(text::strs(keys@) =~= seq!["access_token"@, "token"@]);
            match named_text(d, &keys) {
                None => Err("响应中缺少 access_token".to_owned()),
                Some(at) => Ok((at, own(d.str_at("refresh_token")))),
            }
        },
    }
}

/// An exchange of a refresh token with code 0 comes to the access token and the refresh token of its data,
/// in that order, and to no refresh token where there is none; which one it is depends on the field
/// "refresh_token" alone. Without code 0 or data there are no tokens.
pub proof fn tokens_are_taken_from_their_fields(body: JsonV, other: JsonV)
    ensures
        body.int_at("code"@) == Some(0int) ==> (body.get("data"@) matches Some(d) ==> {
            &&& d.get("access_token"@) matches Some(JsonV::Str(a)) ==> {
                &&& token_exchange(body) matches Ok(t) && t.0 == a
                &&& d.get("refresh_token"@) matches Some(JsonV::Str(r)) ==> token_exchange(body)->Ok_0.1 == Some(r)
                &&& d.get("refresh_token"@) is None ==> token_exchange(body)->Ok_0.1 is None
            }
            &&& d.get("access_token"@) is None ==> (d.get("token"@) matches Some(JsonV::Str(a)) ==> token_exchange(
                body,
            ) matches Ok(t) && t.0 == a)
            &&& d.get("access_token"@) is None && d.get("token"@) is None ==> token_exchange(body) is Err
        }),
        body.int_at("code"@) == Some(0int) && body.get("data"@) is None ==> token_exchange(body) is Err,
        body.int_at("code"@) != Some(0int) ==> token_exchange(body) is Err,
        token_exchange(body) is Ok && token_exchange(other) is Ok && body.get("data"@)->Some_0.get("refresh_token"@)
            == other.get("data"@)->Some_0.get("refresh_token"@) ==> token_exchange(body)->Ok_0.1 == token_exchange(
            other,
        )->Ok_0.1,
{
    reveal_with_fuel(first_named, 3);
    assert(seq!["access_token"@, "token"@].skip(1)[0] == "token"@);
}

/// An exchange of a code with code 0 comes to the access token and the refresh token of its data, in that
/// order, under whichever of their names they stand; without either of them, without data or with another
/// code there are none.
pub proof fn both_tokens_are_taken_from_their_fields(body: JsonV)
    ensures
        body.int_at("code"@) == Some(0int) ==> (body.get("data"@) matches Some(d) ==> {
            &&& d.get("access_token"@) matches Some(JsonV::Str(a)) ==> (d.get("refresh_token"@) matches Some(
                JsonV::Str(r),
            ) ==> code_exchange(body) == Ok::<_, Seq<char>>((a, r)))
            &&& d.get("access_token"@) is None ==> (d.get("AccessToken"@) matches Some(JsonV::Str(a)) ==> (d.get(
                "refresh_token"@,
            ) is None ==> (d.get("RefreshToken"@) matches Some(JsonV::Str(r)) ==> code_exchange(body) == Ok::<
                _,
                Seq<char>,
            >((a, r)))))
            &&& d.get("access_token"@) is None && d.get("AccessToken"@) is None ==> (d.get("token"@) matches Some(
                JsonV::Str(a),
            ) ==> (d.get("refresh_token"@) matches Some(JsonV::Str(r)) ==> code_exchange(body) == Ok::<
                _,
                Seq<char>,
            >((a, r))))
            &&& d.get("refresh_token"@) is None && d.get("RefreshToken"@) is None ==> code_exchange(body) is Err
            &&& d.get("access_token"@) is None && d.get("AccessToken"@) is None && d.get("token"@) is None
                ==> code_exchange(body) is Err
        }),
        body.int_at("code"@) == Some(0int) && body.get("data"@) is None ==> code_exchange(body) is Err,
        body.int_at("code"@) != Some(0int) ==> code_exchange(body) is Err,
{
    reveal_with_fuel(first_named, 4);
    let k = seq!["access_token"@, "AccessToken"@, "token"@];
    assert(k.skip(1)[0] == "AccessToken"@ && k.skip(1).skip(1)[0] == "token"@);
    assert(seq!["refresh_token"@, "RefreshToken"@].skip(1)[0] == "RefreshToken"@);
}

/// What a user's record says: the user and the name, empty where it does not.
pub open spec fn user_record(body: JsonV) -> Option<(Seq<char>, Seq<char>)> {
    let data = match body.get("data"@) {
        Some(d) => Some(d),
        None => body.get("result"@),
    };
    match data {
        None => None,
        Some(d) => Some(
            (
                match first_named(d, seq!["user_id"@, "UserID"@, "userId"@]) {
                    Some(u) => u,
                    None => Seq::empty(),
                },
                match first_named(d, seq!["name"@, "user_name"@, "userName"@, "nickname"@]) {
                    Some(n) => n,
                    None => Seq::empty(),
                },
            ),
        ),
    }
}

/// What a user's record says.
pub fn get_user_info(body: &Json) -> (r: Result<(String, String), String>)
    ensures
        match user_record(body@) {
            Some((u, n)) => pair_view(r) == Ok::<_, Seq<char>>((u, n)),
            None => pair_view(r) == Err::<(Seq<char>, Seq<char>), _>("响应中缺少 data 字段"@),
        },
{
    let data = match body.get("data") {
        Some(d) => Some(d),
        None => body.get("result"),
    };
    match data {
        None => Err("响应中缺少 data 字段".to_owned()),
        Some(d) => {
            let ids = vec!["user_id", "UserID", "userId"];
            let names = vec!["name", "user_name", "userName", "nickname"];
            assert(text::strs(ids@) =~= seq!["user_id"@, "UserID"@, "userId"@]);
            assert(text::strs(names@) =~= seq!["name"@, "user_name"@, "userName"@, "nickname"@]);
            let u = match named_text(d, &ids) {
                Some(u) => u,
                None => {
                    let e = String::new();
                    assert(e@ =~= Seq::empty());
                    e
                },
            };
            let n = match named_text(d, &names) {
                Some(n) => n,
                None => {
                    let e = String::new();
                    assert(e@ =~= Seq::empty());
                    e
                },
            };
            Ok((u, n))
        },
    }
}

// ---- key paths ----

/// The path of a field.
pub open spec fn field_path(prefix: Seq<char>, key: Seq<char>) -> Seq<char> {
    if prefix.len() == 0 {
        key
    } else {
        prefix + "."@ + key
    }
}

/// The paths of the keys in a value, added to those that are there: down to the sixth level, and
/// not further once there are forty.
pub open spec fn key_paths(v: JsonV, prefix: Seq<char>, depth: int, out: Seq<Seq<char>>) -> Seq<Seq<char>>
    decreases 7 - depth, 1int, 0int,
{
    if depth < 0 || depth > 6 || out.len() >= 40 {
        out
    } else {
        match v {
            JsonV::Obj(o) => field_paths(o, prefix, depth, out),
            JsonV::Arr(a) => element_paths(
                if a.len() > 3 {
                    a.take(3)
                } else {
                    a
                },
                prefix,
                depth,
                out,
            ),
            _ => out,
        }
    }
}

/// The paths of the fields, and of the keys in them.
pub open spec fn field_paths(o: Seq<(Seq<char>, JsonV)>, prefix: Seq<char>, depth: int, out: Seq<Seq<char>>) -> Seq<
    Seq<char>,
>
    decreases 7 - depth, 0int, o.len(),
{
    if o.len() == 0 || depth < 0 || depth > 6 {
        out
    } else {
        let before = field_paths(o.drop_last(), prefix, depth, out);
        let p = field_path(prefix, o.last().0);
        key_paths(o.last().1, p, depth + 1, before.push(p))
    }
}

/// The paths of the keys in the elements.
pub open spec fn element_paths(a: Seq<JsonV>, prefix: Seq<char>, depth: int, out: Seq<Seq<char>>) -> Seq<Seq<char>>
    decreases 7 - depth, 0int, a.len(),
{
    if a.len() == 0 || depth < 0 || depth > 6 {
        out
    } else {
        let before = element_paths(a.drop_last(), prefix, depth, out);
        key_paths(a.last(), prefix + "["@ + digits::decimal(a.len() - 1) + "]"@, depth + 1, before)
    }
}

/// Adds the paths of the keys in a value: keys alone, no values.
pub fn collect_key_paths(v: &Json, prefix: &str, depth: usize, out: &mut Vec<String>)
    ensures
        text::texts(final(out)@) == key_paths(v@, prefix@, depth as int, text::texts(old(out)@)),
    decreases 7 - depth,
{
    assert(text::texts(out@).len() == out@.len());
    if depth > 6 || out.len() >= 40 {
        return;
    }
    proof {
        json::lemma_view_parts(*v);
    }
    let ghost start = text::texts(out@);
    match v {
        Json::Object(o) => {
            let ghost all = json::fields(o@);
            assert(all.take(0) =~= Seq::empty());
            let mut i: usize = 0;
            while i < o.len()
                invariant
                    i <= o@.len(),
                    depth <= 6,
                    all == json::fields(o@),
                    text::texts(out@) == field_paths(all.take(i as int), prefix@, depth as int, start),
                decreases o@.len() - i,
            {
                proof {
                    assert(all.take(i + 1).last() == (o@[i as int].0@, o@[i as int].1@));
                    assert(all.take(i + 1).drop_last() =~= all.take(i as int));
                }
                let p = if prefix.unicode_len() == 0 {
                    o[i].0.clone()
                } else {
                    text::cat3(prefix, ".", o[i].0.as_str())
                };
                let ghost before = text::texts(out@);
                let q = p.clone();
                out.push(q);
                assert(text::texts(out@) =~= before.push(p@));
                collect_key_paths(&o[i].1, p.as_str(), depth + 1, out);
                i += 1;
            }
            assert(all.take(all.len() as int) =~= all);
        },
        Json::Array(a) => {
            let n: usize = if a.len() > 3 {
                3
            } else {
                a.len()
            };
            let ghost all = json::items(a@);
            let ghost used = if all.len() > 3 {
                all.take(3)
            } else {
                all
            };
            assert(used.take(0) =~= Seq::empty());
            let mut i: usize = 0;
            while i < n
                invariant
                    i <= n,
                    n <= a@.len(),
                    n == used.len(),
                    depth <= 6,
                    forall|k: int| 0 <= k < n ==> used[k] == (#[trigger] a@[k])@,
                    text::texts(out@) == element_paths(used.take(i as int), prefix@, depth as int, start),
                decreases n - i,
            {
                proof {
                    assert(used.take(i + 1).last() == a@[i as int]@);
                    assert(used.take(i + 1).drop_last() =~= used.take(i as int));
                }
                let mut p = text::cat3(prefix, "[", digits::number(i as u64).as_str());
                p.append("]");
                collect_key_paths(&a[i], p.as_str(), depth + 1, out);
                i += 1;
            }
            assert(used.take(n as int) =~= used);
        },
        _ => {},
    }
}

/// The line that reports an answer to an exchange that is no good: its keys, none of its values.
pub fn exchange_diagnosis(body: &Json) -> (r: Option<String>)
    ensures
        text::opt_text(r) == match exchange_error(body@) {
            None => None,
            Some(_) => Some(
                "OAuth AuthCode 交换失败 (code="@ + digits::decimal(
                    match body@.int_at("code"@) {
                        Some(c) => c,
                        None => -1,
                    },
                ) + "): 响应键路径: "@ + text::joined(key_paths(body@, Seq::empty(), 0, Seq::empty()), " | "@),
            ),
        },
{
    let code: i64 = match body.i64_at("code") {
        Some(c) => c,
        None => -1,
    };
    if code == 0 {
        return None;
    }
    let mut paths: Vec<String> = Vec::new();
    let top = String::new();
    assert(text::texts(paths@) =~= Seq::empty());
    assert(top@ =~= Seq::empty());
    collect_key_paths(body, top.as_str(), 0, &mut paths);
    let mut m = text::cat3(
        "OAuth AuthCode 交换失败 (code=",
        digits::signed_number(code).as_str(),
        "): 响应键路径: ",
    );
    m.append(text::join(&paths, " | ").as_str());
    Some(m)
}

// ---- the account ----

/// The account of a login.
pub struct OAuthLoginResult {
    pub user_id: String,
    pub name: String,
    pub jwt: String,
    pub refresh_token: String,
    pub has_refresh_token: bool,
}

/// The token with its word in front.
pub open spec fn full_token(access_token: Seq<char>) -> Seq<char> {
    if text::has_prefix(access_token, "Cloud-IDE-JWT "@) {
        access_token
    } else {
        "Cloud-IDE-JWT "@ + access_token
    }
}

/// The token with its word in front.
pub fn auth_token(access_token: &str) -> (r: String)
    ensures
        r@ == full_token(access_token@),
{
    if text::starts_with(access_token, "Cloud-IDE-JWT ") {
        access_token.to_owned()
    } else {
        text::cat("Cloud-IDE-JWT ", access_token)
    }
}

/// What a login is made of.
pub struct LoginParts {
    pub callback: OAuthCallbackInfo,
    pub access_token: String,
    /// A refresh token that came with the access token.
    pub new_refresh_token: Option<String>,
    pub account_name: Option<String>,
    /// What the service says of the user, where it was asked.
    pub user_info: Option<(String, String)>,
}

/// Whether the service has to be asked for the user's name.
pub fn needs_user_info(callback: &OAuthCallbackInfo, account_name: &Option<String>) -> (r: bool)
    ensures
        r == (account_name is None && callback.user_name is None),
{
    account_name.is_none() && callback.user_name.is_none()
}

/// The user of a login: the one of the callback, else the one of the token.
pub open spec fn login_user(p: LoginParts) -> Option<Seq<char>> {
    either(text::opt_text(p.callback.user_id), jwt::token_user(full_token(p.access_token@)))
}

/// The name of a login's account: the one that was asked for, the one of the callback, the one of
/// the service, else one made of the user.
pub open spec fn login_name(p: LoginParts, user_id: Seq<char>) -> Seq<char> {
    match either(text::opt_text(p.account_name), text::opt_text(p.callback.user_name)) {
        Some(n) => n,
        None => match p.user_info {
            Some((u, n)) => if n@.len() == 0 {
                u@
            } else {
                n@
            },
            None => "账号_"@ + text::head_chars(user_id, 8),
        },
    }
}

/// The account of a login, or that its user cannot be told.
pub fn oauth_login(p: &LoginParts) -> (r: Result<OAuthLoginResult, String>)
    ensures
        match login_user(*p) {
            None => r matches Err(e) && e@ == "无法从回调或 JWT 中获取 user_id"@,
            Some(uid) => r matches Ok(a) && a.user_id@ == uid && a.name@ == login_name(*p, uid) && a.jwt@ == full_token(
                p.access_token@,
            ) && a.refresh_token@ == (match p.new_refresh_token {
                Some(t) => t@,
                None => p.callback.refresh_token@,
            }) && a.has_refresh_token,
        },
{
    let jwt = auth_token(p.access_token.as_str());
    let user = match &p.callback.user_id {
        Some(u) => Some(u.clone()),
        None => jwt::extract_user_id(jwt.as_str()),
    };
    match user {
        None => Err("无法从回调或 JWT 中获取 user_id".to_owned()),
        Some(user_id) => {
            let name = match &p.account_name {
                Some(n) => n.clone(),
                None => match &p.callback.user_name {
                    Some(n) => n.clone(),
                    None => match &p.user_info {
                        Some((u, n)) => if n.as_str().unicode_len() == 0 {
                            u.clone()
                        } else {
                            n.clone()
                        },
                        None => text::cat("账号_", text::take_chars(user_id.as_str(), 8).as_str()),
                    },
                },
            };
            let refresh_token = match &p.new_refresh_token {
                Some(t) => t.clone(),
                None => p.callback.refresh_token.clone(),
            };
            Ok(OAuthLoginResult { user_id, name, jwt, refresh_token, has_refresh_token: true })
        },
    }
}

/// Whether an account is that of the user.
pub open spec fn is_account_of(a: RawAccount, uid: Seq<char>) -> bool {
    text::opt_text(a.user_id) == Some(uid)
}

/// Whether `after` is the account `before` with new tokens: its failures are forgotten.
pub open spec fn is_renewed(before: RawAccount, after: RawAccount, login: OAuthLoginResult, now: Seq<char>) -> bool {
    &&& after.jwt@ == login.jwt@
    &&& text::opt_text(after.refresh_token) == Some(login.refresh_token@)
    &&& text::opt_text(after.updated_at) == Some(now)
    &&& after.refresh_token_fails == 0
    &&& !after.refresh_token_invalid
    &&& after.name == before.name
    &&& after.user_id == before.user_id
    &&& after.added_at == before.added_at
    &&& after.dc_id == before.dc_id
    &&& after.refresh_token_expires_at == before.refresh_token_expires_at
    &&& after.auth_saved_at == before.auth_saved_at
}

/// Whether an account is the one made for a new user.
pub open spec fn is_fresh(a: RawAccount, login: OAuthLoginResult, now: Seq<char>) -> bool {
    &&& a.name@ == login.name@
    &&& text::opt_text(a.user_id) == Some(login.user_id@)
    &&& a.jwt@ == login.jwt@
    &&& text::opt_text(a.refresh_token) == Some(login.refresh_token@)
    &&& text::opt_text(a.added_at) == Some(now)
    &&& text::opt_text(a.updated_at) == Some(now)
    &&& text::opt_text(a.auth_saved_at) == Some(now)
    &&& a.dc_id is None
    &&& a.refresh_token_expires_at is None
    &&& a.refresh_token_fails == 0
    &&& !a.refresh_token_invalid
}

/// The position of the user's first account; the number of accounts where there is none.
pub open spec fn account_at(accounts: Seq<RawAccount>, uid: Seq<char>) -> int
    decreases accounts.len(),
{
    if accounts.len() == 0 || is_account_of(accounts[0], uid) {
        0
    } else {
        1 + account_at(accounts.skip(1), uid)
    }
}

/// Takes a login into the accounts: the user's first account gets the tokens, a new user gets an
/// account, and all others stay. Whether the account is new, and the line to log.
pub fn save_login(accounts: &mut Vec<RawAccount>, login: &OAuthLoginResult, now: &str) -> (r: (bool, String))
    ensures
        ({
            let before = old(accounts)@;
            let after = final(accounts)@;
            let i = account_at(before, login.user_id@);
            if 0 <= i < before.len() {
                &&& !r.0
                &&& after == before.update(i, after[i])
                &&& is_renewed(before[i], after[i], *login, now@)
                &&& r.1@ == "OAuth 登录：更新已有账号 ["@ + login.name@ + "] jwt + refresh_token"@
            } else {
                &&& r.0
                &&& after == before.push(after.last())
                &&& is_fresh(after.last(), *login, now@)
                &&& r.1@ == "OAuth 登录：新增账号 ["@ + login.name@ + "] user_id="@ + login.user_id@
            }
        }),
{
    let ghost start = accounts@;
    assert(start.skip(0) =~= start);
    let mut i: usize = 0;
    while i < accounts.len()
        invariant
            i <= accounts@.len(),
            accounts@ == start,
            start == old(accounts)@,
            account_at(start, login.user_id@) == i + account_at(start.skip(i as int), login.user_id@),
        decreases accounts@.len() - i,
    {
        proof {
            assert(start.skip(i as int)[0] == start[i as int]);
            assert(start.skip(i as int).skip(1) =~= start.skip(i + 1));
        }
        let is_it = match &accounts[i].user_id {
            Some(u) => text::same(u.as_str(), login.user_id.as_str()),
            None => false,
        };
        if is_it {
            let a = &accounts[i];
            let renewed = RawAccount {
                name: a.name.clone(),
                user_id: a.user_id.clone(),
                jwt: login.jwt.clone(),
                refresh_token: Some(login.refresh_token.clone()),
                added_at: a.added_at.clone(),
                updated_at: Some(now.to_owned()),
                dc_id: a.dc_id.clone(),
                refresh_token_expires_at: a.refresh_token_expires_at,
                refresh_token_fails: 0,
                refresh_token_invalid: false,
                auth_saved_at: a.auth_saved_at.clone(),
            };
            assert(is_account_of(start[i as int], login.user_id@));
            accounts.set(i, renewed);
            assert(accounts@ =~= start.update(i as int, accounts@[i as int]));
            return (
                false,
                text::cat3("OAuth 登录：更新已有账号 [", login.name.as_str(), "] jwt + refresh_token"),
            );
        }
        i += 1;
    }
    accounts.push(
        RawAccount {
            name: login.name.clone(),
            user_id: Some(login.user_id.clone()),
            jwt: login.jwt.clone(),
            refresh_token: Some(login.refresh_token.clone()),
            added_at: Some(now.to_owned()),
            updated_at: Some(now.to_owned()),
            dc_id: None,
            refresh_token_expires_at: None,
            refresh_token_fails: 0,
            refresh_token_invalid: false,
            auth_saved_at: Some(now.to_owned()),
        },
    );
    assert(accounts@ =~= start.push(accounts@.last()));
    let mut line = text::cat3("OAuth 登录：新增账号 [", login.name.as_str(), "] user_id=");
    line.append(login.user_id.as_str());
    (true, line)
}

// ---- what holds of logins ----

/// The parameters of a query are looked up by name; of two of one name the later counts.
pub proof fn later_parameters_count(
    a: Seq<(Seq<char>, Seq<char>)>,
    b: Seq<(Seq<char>, Seq<char>)>,
    name: Seq<char>,
    value: Seq<char>,
    other: Seq<char>,
)
    ensures
        param(b, name) is Some ==> param(a + b, name) == param(b, name),
        param(b, name) is None ==> param(a + b, name) == param(a, name),
        param(seq![(name, value)], name) == Some(value),
        other != name ==> param(seq![(other, value)], name) is None,
    decreases b.len(),
{
    reveal_with_fuel(param, 2);
    assert(seq![(other, value)].drop_last() =~= Seq::<(Seq<char>, Seq<char>)>::empty());
    if b.len() == 0 {
        assert(a + b =~= a);
    } else {
        later_parameters_count(a, b.drop_last(), name, value, other);
        assert((a + b).drop_last() =~= a + b.drop_last());
        assert((a + b).last() == b.last());
    }
}

/// A query whose parts are glued with ampersands, each a name and an escaped value, is taken apart again:
/// the name stands before the first equals sign, the value behind it, unescaped.
pub proof fn queries_are_taken_apart(parts: Seq<Seq<char>>, k: Seq<char>, v: Seq<char>, path: Seq<char>, query: Seq<char>)
    requires
        parts.len() > 0,
        forall|i: int| 0 <= i < parts.len() ==> !(#[trigger] parts[i]).contains('&'),
        !k.contains('='),
        !path.contains('?'),
        !query.contains('?'),
    ensures
        params_of(text::glued(parts, seq!['&'])).len() == parts.len(),
        forall|i: int| 0 <= i < parts.len() ==> #[trigger] params_of(text::glued(parts, seq!['&']))[i] == param_of(parts[i]),
        param_of(k + seq!['='] + v).0 == k,
        codec::url_decoded(v) matches Some(d) ==> param_of(k + seq!['='] + v).1 == d,
        codec::url_decoded(v) is None ==> param_of(k + seq!['='] + v).1 == v,
        query_of(path + seq!['?'] + query) == Some(query),
        query_of(path) is None,
{
    text::splitting_undoes_gluing(parts, '&');
    text::cutting_finds_the_first(k, v, '=');
    text::splitting_undoes_gluing(seq![path, query], '?');
    text::splitting_undoes_gluing(seq![path], '?');
    reveal_with_fuel(text::glued, 3);
    assert(seq![path, query].skip(1) =~= seq![query]);
    assert(text::glued(seq![path, query], seq!['?']) =~= path + seq!['?'] + query);
    assert(text::glued(seq![path], seq!['?']) =~= path);
}

/// Who logged in is told by the user record where the query names no user, else by the query; the name
/// and the picture by the record before the query.
pub proof fn callbacks_tell_the_user(params: Seq<(Seq<char>, Seq<char>)>, info: JsonV)
    ensures
        callback_user(params, None) == either(param(params, "UserID"@), either(param(params, "userId"@), param(params, "user_id"@))),
        param(params, "userId"@) is None && param(params, "user_id"@) is None && param(params, "UserID"@) is None
            ==> callback_user(params, Some(info)) == (match info.get("UserID"@) {
            Some(JsonV::Str(u)) => Some(u),
            _ => None,
        }),
        param(params, "userId"@) is Some || param(params, "user_id"@) is Some || param(params, "UserID"@) is Some
            ==> callback_user(params, Some(info)) == callback_user(params, None),
        callback_name(params, None) == either(param(params, "userName"@), either(param(params, "user_name"@), param(params, "nickname"@))),
        info.get("ScreenName"@) matches Some(JsonV::Str(n)) ==> callback_name(params, Some(info)) == Some(n),
        info.get("ScreenName"@) is None ==> (info.get("NickName"@) matches Some(JsonV::Str(n)) ==> callback_name(
            params,
            Some(info),
        ) == Some(n)),
        info.get("ScreenName"@) is None && info.get("NickName"@) is None ==> callback_name(params, Some(info))
            == callback_name(params, None),
        callback_avatar(params, None) == param(params, "avatar"@),
        info.get("AvatarUrl"@) matches Some(JsonV::Str(n)) ==> callback_avatar(params, Some(info)) == Some(n),
        info.get("AvatarUrl"@) is None ==> callback_avatar(params, Some(info)) == param(params, "avatar"@),
{
}

/// A callback with a refresh token is ready, with the access token that came with it; one with a code has
/// it exchanged; any other is refused. What it tells of the user is handed on.
pub proof fn callbacks_bring_tokens_or_codes(
    params: Seq<(Seq<char>, Seq<char>)>,
    info: Option<Result<JsonV, Seq<char>>>,
    user: Option<JsonV>,
    issued: Option<Seq<char>>,
    rt: Seq<char>,
    code: Seq<char>,
)
    requires
        auth_code_of(info) is Ok,
        trace_error(params, auth_code_of(info)->Ok_0 is Some, issued) is None,
    ensures
        param(params, "refreshToken"@) == Some(rt) || (param(params, "refreshToken"@) is None && param(
            params,
            "refresh_token"@,
        ) == Some(rt)) ==> callback_of(params, info, user, issued) == Ok::<CallbackV, Seq<char>>(
            CallbackV::Ready(
                rt,
                (match param(params, "accessToken"@) {
                    Some(a) => Some(a),
                    None => param(params, "access_token"@),
                }),
                callback_user(params, user),
                callback_name(params, user),
                callback_avatar(params, user),
            ),
        ),
        param(params, "refreshToken"@) is None && param(params, "refresh_token"@) is None ==> {
            &&& auth_code_of(info) == Ok::<Option<Seq<char>>, Seq<char>>(Some(code)) ==> callback_of(
                params,
                info,
                user,
                issued,
            ) == Ok::<CallbackV, Seq<char>>(
                CallbackV::Exchange(
                    code,
                    callback_user(params, user),
                    callback_name(params, user),
                    callback_avatar(params, user),
                ),
            )
            &&& info is None && param(params, "code"@) == Some(code) ==> callback_of(params, info, user, issued) == Ok::<
                CallbackV,
                Seq<char>,
            >(
                CallbackV::Exchange(
                    code,
                    callback_user(params, user),
                    callback_name(params, user),
                    callback_avatar(params, user),
                ),
            )
            &&& info is None && param(params, "code"@) is None ==> callback_of(params, info, user, issued) is Err
        },
{
}

/// The code stands in its record; a record that cannot be read, or that has none, is an error.
pub proof fn codes_are_taken_from_their_record(v: JsonV, e: Seq<char>, c: Seq<char>)
    ensures
        auth_code_of(None) == Ok::<Option<Seq<char>>, Seq<char>>(None),
        auth_code_of(Some(Err(e))) is Err,
        v.get("AuthCode"@) == Some(JsonV::Str(c)) && c.len() > 0 ==> auth_code_of(Some(Ok(v))) == Ok::<
            Option<Seq<char>>,
            Seq<char>,
        >(Some(c)),
        v.get("AuthCode"@) == Some(JsonV::Str(c)) && c.len() == 0 ==> auth_code_of(Some(Ok(v))) is Err,
        v.get("AuthCode"@) is None ==> auth_code_of(Some(Ok(v))) is Err,
{
}

/// A callback must carry the trace that was issued: another is refused, and so is a code without any; where
/// none was issued nothing is refused.
pub proof fn callbacks_carry_the_trace(params: Seq<(Seq<char>, Seq<char>)>, has_code: bool, e: Seq<char>, t: Seq<char>)
    requires
        e.len() > 0,
    ensures
        trace_error(params, has_code, None) is None,
        param(params, "loginTraceID"@) == Some(t) ==> trace_error(params, has_code, Some(e)) is Some == (t != e),
        param(params, "loginTraceID"@) is None && param(params, "login_trace_id"@) == Some(t) ==> trace_error(
            params,
            has_code,
            Some(e),
        ) is Some == (t != e),
        param(params, "loginTraceID"@) is None && param(params, "login_trace_id"@) is None ==> trace_error(
            params,
            has_code,
            Some(e),
        ) is Some == has_code,
{
}

/// An exchange failed exactly where its code is not zero, and then says why.
pub proof fn exchanges_fail_by_their_code(body: JsonV, m: Seq<char>)
    ensures
        body.get("code"@) == Some(JsonV::Num(NumV::Pos(0))) ==> exchange_error(body) is None,
        body.get("code"@) is None ==> exchange_error(body) is Some,
        body.get("code"@) matches Some(JsonV::Num(NumV::Pos(n))) ==> 0 < n <= i64::MAX && body.get("message"@) == Some(
            JsonV::Str(m),
        ) ==> exchange_error(body) == Some("ExchangeToken 失败 (code="@ + digits::decimal(n as int) + "): "@ + m),
        body.get("code"@) matches Some(JsonV::Num(NumV::Pos(n))) ==> 0 < n <= i64::MAX && body.get("message"@) is None
            ==> exchange_error(body) == Some(
            "ExchangeToken 失败 (code="@ + digits::decimal(n as int) + "): "@ + "未知错误"@,
        ),
{
}

/// A user record stands in the data, or else in the result, and holds the user and its name each under the
/// first of its names that is there.
pub proof fn user_records_are_read_from_their_fields(body: JsonV, d: JsonV, u: Seq<char>, n: Seq<char>)
    requires
        body.get("data"@) == Some(d) || (body.get("data"@) is None && body.get("result"@) == Some(d)),
    ensures
        user_record(body) is Some,
        d.get("user_id"@) == Some(JsonV::Str(u)) ==> user_record(body)->Some_0.0 == u,
        d.get("user_id"@) is None && d.get("UserID"@) == Some(JsonV::Str(u)) ==> user_record(body)->Some_0.0 == u,
        d.get("user_id"@) is None && d.get("UserID"@) is None && d.get("userId"@) == Some(JsonV::Str(u))
            ==> user_record(body)->Some_0.0 == u,
        d.get("name"@) == Some(JsonV::Str(n)) ==> user_record(body)->Some_0.1 == n,
        d.get("name"@) is None && d.get("user_name"@) == Some(JsonV::Str(n)) ==> user_record(body)->Some_0.1 == n,
        d.get("name"@) is None && d.get("user_name"@) is None && d.get("userName"@) == Some(JsonV::Str(n))
            ==> user_record(body)->Some_0.1 == n,
        d.get("name"@) is None && d.get("user_name"@) is None && d.get("userName"@) is None && d.get("nickname"@)
            == Some(JsonV::Str(n)) ==> user_record(body)->Some_0.1 == n,
{
    reveal_with_fuel(first_named, 5);
    let us = seq!["user_id"@, "UserID"@, "userId"@];
    let ns = seq!["name"@, "user_name"@, "userName"@, "nickname"@];
    assert(us.skip(1)[0] == us[1] && us.skip(1).skip(1)[0] == us[2]);
    assert(ns.skip(1)[0] == ns[1] && ns.skip(1).skip(1)[0] == ns[2] && ns.skip(1).skip(1).skip(1)[0] == ns[3]);
}

/// A token carries its mark exactly once.
pub proof fn tokens_carry_their_mark_once(t: Seq<char>)
    ensures
        full_token("Cloud-IDE-JWT "@ + t) == "Cloud-IDE-JWT "@ + t,
        !text::has_prefix(t, "Cloud-IDE-JWT "@) ==> full_token(t) == "Cloud-IDE-JWT "@ + t,
{
    assert(text::has_prefix("Cloud-IDE-JWT "@ + t, "Cloud-IDE-JWT "@)) by {
        assert(("Cloud-IDE-JWT "@ + t).take("Cloud-IDE-JWT "@.len() as int) =~= "Cloud-IDE-JWT "@);
    }
}

/// Who logged in is the user of the callback, or else of the token; the account is called as asked for, or
/// else as the callback says, or else as the service says, or else after its user.
pub proof fn logins_are_named(p: LoginParts, uid: Seq<char>)
    ensures
        p.callback.user_id matches Some(u) ==> login_user(p) == Some(u@),
        p.callback.user_id is None ==> login_user(p) == jwt::token_user(full_token(p.access_token@)),
        p.account_name matches Some(n) ==> login_name(p, uid) == n@,
        p.account_name is None ==> (p.callback.user_name matches Some(n) ==> login_name(p, uid) == n@),
        p.account_name is None && p.callback.user_name is None ==> (p.user_info matches Some((u, n)) ==> login_name(
            p,
            uid,
        ) == (if n@.len() > 0 {
            n@
        } else {
            u@
        })),
        p.account_name is None && p.callback.user_name is None && p.user_info is None && uid.len() <= 8 ==> login_name(
            p,
            uid,
        ) == "账号_"@ + uid,
        p.account_name is None && p.callback.user_name is None && p.user_info is None && uid.len() > 8 ==> login_name(
            p,
            uid,
        ) == "账号_"@ + uid.subrange(0, 8),
{
    if uid.len() > 8 {
        assert(uid.take(8) =~= uid.subrange(0, 8));
    }
}

/// The account of a user is the first that has the user, and there is none only where no account has.
pub proof fn accounts_are_found_by_user(accounts: Seq<RawAccount>, uid: Seq<char>)
    ensures
        0 <= account_at(accounts, uid) <= accounts.len(),
        account_at(accounts, uid) < accounts.len() ==> text::opt_text(accounts[account_at(accounts, uid)].user_id)
            == Some(uid),
        forall|i: int|
            0 <= i < account_at(accounts, uid) ==> text::opt_text((#[trigger] accounts[i]).user_id) != Some(uid),
    decreases accounts.len(),
{
    if accounts.len() > 0 && !is_account_of(accounts[0], uid) {
        let rest = accounts.skip(1);
        accounts_are_found_by_user(rest, uid);
        let k = account_at(rest, uid);
        assert(k < rest.len() ==> accounts[k + 1] == rest[k]);
        assert forall|i: int| 0 <= i < k + 1 implies text::opt_text((#[trigger] accounts[i]).user_id) != Some(uid) by {
            if i > 0 {
                assert(rest[i - 1] == accounts[i]);
            }
        }
    }
}

/// A login renews the tokens of an account and forgets its failures, and leaves everything else.
pub proof fn logins_renew_the_tokens_alone(before: RawAccount, after: RawAccount, login: OAuthLoginResult, now: Seq<char>)
    requires
        is_renewed(before, after, login, now),
    ensures
        after.jwt@ == login.jwt@,
        text::opt_text(after.refresh_token) == Some(login.refresh_token@),
        text::opt_text(after.updated_at) == Some(now),
        after.refresh_token_fails == 0 && !after.refresh_token_invalid,
        after.name == before.name && after.user_id == before.user_id && after.added_at == before.added_at,
        after.dc_id == before.dc_id && after.refresh_token_expires_at == before.refresh_token_expires_at,
        after.auth_saved_at == before.auth_saved_at,
{
}

/// A new account holds what the login brought, from now on, and nothing else.
pub proof fn new_accounts_hold_the_login(a: RawAccount, login: OAuthLoginResult, now: Seq<char>)
    requires
        is_fresh(a, login, now),
    ensures
        a.name@ == login.name@,
        text::opt_text(a.user_id) == Some(login.user_id@),
        a.jwt@ == login.jwt@,
        text::opt_text(a.refresh_token) == Some(login.refresh_token@),
        text::opt_text(a.added_at) == Some(now) && text::opt_text(a.updated_at) == Some(now),
        text::opt_text(a.auth_saved_at) == Some(now),
        a.dc_id is None && a.refresh_token_expires_at is None,
        a.refresh_token_fails == 0 && !a.refresh_token_invalid,
{
}

/// The fields of a client are taken by name from an object and by place from a list; what is not told is
/// as usual, and so is all of a document of another form.
pub proof fn clients_are_read_by_name_or_place(v: JsonV, key: Seq<char>, place: int, usual: Seq<char>, s: Seq<char>)
    ensures
        !is_config(v) ==> config_field(v, key, place, usual) == usual,
        is_config(v) && v is Obj ==> (v.get(key) == Some(JsonV::Str(s)) ==> config_field(v, key, place, usual) == s),
        is_config(v) && v is Obj && v.get(key) is None ==> config_field(v, key, place, usual) == usual,
        is_config(v) ==> (v matches JsonV::Arr(a) ==> (0 <= place < a.len() ==> a[place] == JsonV::Str(
            config_field(v, key, place, usual),
        ))),
        is_config(v) ==> (v matches JsonV::Arr(a) ==> (place >= a.len() ==> config_field(v, key, place, usual)
            == usual)),
        v matches JsonV::Arr(a) ==> a.len() > 3 ==> !is_config(v),
        v is Obj && v.get("client_id"@) is None && v.get("client_secret"@) is None && v.get("exchange_url"@) is None
            ==> is_config(v),
        v.get("client_id"@) == Some(JsonV::Null) || v.get("client_secret"@) == Some(JsonV::Null) || v.get(
            "exchange_url"@,
        ) == Some(JsonV::Null) ==> !is_config(v),
{
}

/// White space is taken out of a text, and nothing else.
pub proof fn white_space_is_taken_out(s: Seq<char>)
    ensures
        without_white(s) == s.filter(|c: char| !text::is_white(c)),
    decreases s.len(),
{
    reveal(Seq::filter);
    if s.len() > 0 {
        white_space_is_taken_out(s.drop_last());
    }
}

/// A proxy is asked for where the setting is not blank, without its white ends.
pub proof fn proxies_are_asked_for(s: Seq<char>)
    ensures
        proxy_asked(None) is None,
        text::trimmed(s).len() > 0 ==> proxy_asked(Some(s)) == Some(text::trimmed(s)),
        text::trimmed(s).len() == 0 ==> proxy_asked(Some(s)) is None,
{
}

/// The device of a login is the stored one, or else that of the first user that has one, or else made of
/// the digits of the machine.
pub proof fn stored_devices_come_first(stored: Seq<char>, map: Seq<(Seq<char>, Seq<char>)>, hex: Seq<char>, k: int)
    requires
        0 <= k < map.len(),
        forall|i: int| 0 <= i < map.len() && i != k ==> json::before(map[k].0, (#[trigger] map[i]).0),
    ensures
        stored.len() > 0 ==> device_id_of(stored, map, hex) == stored,
        stored.len() == 0 && map[k].1.len() > 0 ==> device_id_of(stored, map, hex) == map[k].1,
        stored.len() == 0 && map[k].1.len() == 0 ==> device_id_of(stored, map, hex) == device_id_of(
            stored,
            Seq::empty(),
            hex,
        ),
        device_id_of(Seq::empty(), Seq::empty(), hex).len() == hex.len(),
        forall|i: int|
            0 <= i < hex.len() ==> #[trigger] device_id_of(Seq::empty(), Seq::empty(), hex)[i] == digits::digit_char(
                hex[i] as int % 10,
            ),
{
    lemma_smallest(map);
    let m = smallest(map);
    if m != k {
        assert(json::before(map[k].0, map[m].0));
        assert(!json::before(map[k].0, map[m].0));
    }
    assert(stored.len() == 0 ==> stored =~= Seq::empty());
}

/// Bytes are written as two hexadecimal digits each, the higher one first.
pub proof fn bytes_are_written_in_two_digits(a: Seq<u8>, b: Seq<u8>, x: u8)
    ensures
        hex_digits(a + b) == hex_digits(a) + hex_digits(b),
        hex_digits(seq![x]) == seq![digits::digit_char(x as int / 16), digits::digit_char(x as int % 16)],
    decreases b.len(),
{
    reveal_with_fuel(hex_digits, 2);
    assert(seq![x].drop_last() =~= Seq::empty());
    assert(hex_digits(seq![x]) =~= seq![digits::digit_char(x as int / 16), digits::digit_char(x as int % 16)]);
    if b.len() == 0 {
        assert(a + b =~= a);
        assert(hex_digits(a) + hex_digits(b) =~= hex_digits(a));
    } else {
        bytes_are_written_in_two_digits(a, b.drop_last(), x);
        assert((a + b).drop_last() =~= a + b.drop_last());
        assert(hex_digits(a + b) =~= hex_digits(a) + hex_digits(b));
    }
}

/// The request that exchanges a code holds the client, the code, its verifier and the device.
pub proof fn codes_are_exchanged_with_their_verifier(client: OAuthClientConfig, code: Seq<char>, verifier: Seq<char>, device_id: Seq<char>)
    ensures
        code_request(client, code, verifier, device_id).get("ClientID"@) == Some(JsonV::Str(client.client_id@)),
        code_request(client, code, verifier, device_id).get("Code"@) == Some(JsonV::Str(code)),
        code_request(client, code, verifier, device_id).get("CodeVerifier"@) == Some(JsonV::Str(verifier)),
        code_request(client, code, verifier, device_id).get("ClientSecret"@) == Some(JsonV::Str(client.client_secret@)),
        code_request(client, code, verifier, device_id).get("DeviceID"@) == Some(JsonV::Str(device_id)),
        code_request(client, code, verifier, device_id).get("PlatformCode"@) == Some(JsonV::Str("IDE_PC"@)),
        code_request(client, code, verifier, device_id).get("UserID"@) == Some(JsonV::Str(""@)),
        forall|k: Seq<char>| k != "ClientID"@ && k != "Code"@ && k != "CodeVerifier"@ && k != "ClientSecret"@ && k != "DeviceID"@ && k != "PlatformCode"@ && k != "UserID"@ ==> (#[trigger] code_request(client, code, verifier, device_id).get(k)) is None,
{
    broadcast use json::lemma_set_then_get;

    reveal_strlit("ClientID");
    reveal_strlit("Code");
    reveal_strlit("CodeVerifier");
    reveal_strlit("ClientSecret");
    reveal_strlit("DeviceID");
    reveal_strlit("PlatformCode");
    reveal_strlit("UserID");
    assert("ClientID"@.len() == 8 && "Code"@.len() == 4 && "CodeVerifier"@.len() == 12);
    assert("ClientSecret"@.len() == 12 && "DeviceID"@.len() == 8 && "PlatformCode"@.len() == 12);
    assert("UserID"@.len() == 6);
    assert("ClientID"@[0] != "DeviceID"@[0]);
    assert("CodeVerifier"@[1] != "ClientSecret"@[1]);
    assert("CodeVerifier"@[0] != "PlatformCode"@[0]);
    assert("ClientSecret"@[0] != "PlatformCode"@[0]);
}

/// The request that exchanges a refresh token holds the client and the token.
pub proof fn tokens_are_exchanged_by_their_client(client: OAuthClientConfig, refresh_token: Seq<char>)
    ensures
        token_request(client, refresh_token).get("ClientID"@) == Some(JsonV::Str(client.client_id@)),
        token_request(client, refresh_token).get("RefreshToken"@) == Some(JsonV::Str(refresh_token)),
        token_request(client, refresh_token).get("ClientSecret"@) == Some(JsonV::Str(client.client_secret@)),
        token_request(client, refresh_token).get("UserID"@) == Some(JsonV::Str(""@)),
        forall|k: Seq<char>| k != "ClientID"@ && k != "RefreshToken"@ && k != "ClientSecret"@ && k != "UserID"@ ==> (#[trigger] token_request(client, refresh_token).get(k)) is None,
{
    broadcast use json::lemma_set_then_get;

    reveal_strlit("ClientID");
    reveal_strlit("RefreshToken");
    reveal_strlit("ClientSecret");
    reveal_strlit("UserID");
    assert("ClientID"@.len() == 8 && "RefreshToken"@.len() == 12 && "ClientSecret"@.len() == 12);
    assert("UserID"@.len() == 6);
    assert("RefreshToken"@[0] != "ClientSecret"@[0]);
}

/// A certificate is what stands between its marks, without white space, decoded; without a mark it is none.
pub proof fn certificates_stand_between_their_marks(pem: Seq<char>, parts: Seq<Seq<char>>, b: Seq<u8>, m: Seq<char>)
    requires
        text::split_by(pem, "-----BEGIN CERTIFICATE-----"@) == parts,
    ensures
        parts.len() <= 1 ==> pem_der(pem) == Err::<Seq<u8>, Seq<char>>("本地 CA 文件缺少 CERTIFICATE PEM 块"@),
        parts.len() > 1 ==> {
            let body = text::split_by(parts[1], "-----END CERTIFICATE-----"@)[0];
            let plain = body.filter(|c: char| !text::is_white(c));
            &&& codec::b64_decoded(plain) == Ok::<Seq<u8>, Seq<char>>(b) ==> pem_der(pem) == Ok::<Seq<u8>, Seq<char>>(b)
            &&& codec::b64_decoded(plain) == Err::<Seq<u8>, Seq<char>>(m) ==> pem_der(pem) == Err::<Seq<u8>, Seq<char>>(
                "本地 CA base64 解码失败: "@ + m,
            )
        },
{
    if parts.len() > 1 {
        white_space_is_taken_out(text::split_by(parts[1], "-----END CERTIFICATE-----"@)[0]);
    }
}

/// A seed gives as many hexadecimal digits as asked for, one for each step of the generator, and the steps
/// that follow go on from where it stands.
pub proof fn digits_follow_from_the_seed(seed: u64, len: int, i: int)
    requires
        0 <= i < len,
    ensures
        generated(seed, len).len() == len,
        digits::is_digit_char(generated(seed, len)[i]),
        generated(seed, len).skip(1) == generated(next_seed(seed), len - 1),
        next_seed(seed) == (seed * 6364136223846793005 + 1442695040888963407) % 0x1_0000_0000_0000_0000,
        generated(seed, len)[0] == digits::digit_char((next_seed(seed) / 0x1_0000_0000) as int % 16),
    decreases len,
{
    reveal_with_fuel(generated, 2);
    let s = next_seed(seed);
    let rest = generated(s, len - 1);
    let d = ((s / 0x1_0000_0000) % 16) as int;
    assert(0 <= d < 16);
    if len > 1 {
        digits_follow_from_the_seed(s, len - 1, if i > 0 {
            i - 1
        } else {
            0
        });
        assert(generated(seed, len)[i] == if i > 0 {
            rest[i - 1]
        } else {
            digits::digit_char(d)
        });
    }
    assert(generated(seed, len).skip(1) =~= rest);
    lemma_next_seed(seed);
}

proof fn lemma_next_seed(seed: u64)
    ensures
        next_seed(seed) == (seed * 6364136223846793005 + 1442695040888963407) % 0x1_0000_0000_0000_0000,
{
    let m = 6364136223846793005int;
    let c = 1442695040888963407int;
    let n = 0x1_0000_0000_0000_0000int;
    let a = seed.wrapping_mul(6364136223846793005);
    assert(a == (seed * m) % n);
    vstd::arithmetic::div_mod::lemma_add_mod_noop_right(c, seed * m, n);
    assert((c + (seed * m) % n) % n == (c + seed * m) % n);
    assert(seed * m + c == c + seed * m);
}

/// The records of a callback are those of its own parameters, read as documents.
pub proof fn records_are_read_from_their_parameters(params: Seq<(Seq<char>, Seq<char>)>, raw: Seq<char>)
    ensures
        param(params, "authCodeInfo"@) == Some(raw) ==> code_info_of(params) == Some(json::json_read(raw)),
        param(params, "authCodeInfo"@) is None ==> code_info_of(params) is None,
        param(params, "userInfo"@) == Some(raw) ==> (json::json_read(raw) matches Ok(v) ==> user_info_of(params) == Some(v)),
        param(params, "userInfo"@) == Some(raw) && json::json_read(raw) is Err ==> user_info_of(params) is None,
        param(params, "userInfo"@) is None ==> user_info_of(params) is None,
{
}

/// A login opens the service's page for this client, with the trace, the machine and the device, the
/// challenge of the verifier, and the address that the callback comes to.
pub proof fn logins_open_the_page_of_the_service(
    client: Seq<char>,
    trace: Seq<char>,
    machine: Seq<char>,
    device: Seq<char>,
    host: Seq<char>,
    challenge: Seq<char>,
    verifier: Seq<char>,
)
    ensures
        login_address(client, trace, machine, device, host, challenge)
            == "https://www.trae.cn/authorization?login_version=1&auth_from=trae&login_channel=native_ide&plugin_version=2.3.83560&auth_type=local&client_id="@
            + client + "&redirect=0&login_trace_id="@ + trace + "&auth_callback_url="@ + codec::url_encoded(
            "http://127.0.0.1:17388/authorize"@,
        ) + "&machine_id="@ + machine + "&device_id="@ + device + "&x_device_id="@ + device + "&x_machine_id="@ + machine
            + "&x_device_brand="@ + codec::url_encoded(host) + "&x_device_type=windows&x_os_version="@
            + codec::url_encoded("Windows"@) + "&x_env=&x_app_version=3.3.100&x_app_type=stable&code_challenge="@
            + challenge + "&code_challenge_method=S256&channel_name=common"@,
        challenge_of(verifier) == codec::b64url_encoded(codec::sha256_of(vstd::utf8::encode_utf8(verifier))),
{
}

/// The paths of a value's keys are listed field by field, each with its own name behind that of the value,
/// and each followed by those inside it; a value that holds none adds none.
pub proof fn paths_are_listed_field_by_field(
    a: Seq<(Seq<char>, JsonV)>,
    k: Seq<char>,
    v: JsonV,
    prefix: Seq<char>,
    depth: int,
    out: Seq<Seq<char>>,
    s: Seq<char>,
)
    requires
        0 <= depth <= 6,
        prefix.len() > 0,
    ensures
        field_paths(a.push((k, v)), prefix, depth, out) == key_paths(
            v,
            prefix + "."@ + k,
            depth + 1,
            field_paths(a, prefix, depth, out).push(prefix + "."@ + k),
        ),
        field_paths(a.push((k, v)), Seq::empty(), depth, out) == key_paths(
            v,
            k,
            depth + 1,
            field_paths(a, Seq::empty(), depth, out).push(k),
        ),
        field_paths(Seq::empty(), prefix, depth, out) == out,
        key_paths(JsonV::Str(s), prefix, depth, out) == out && key_paths(JsonV::Null, prefix, depth, out) == out,
        out.len() < 40 ==> key_paths(JsonV::Obj(a), prefix, depth, out) == field_paths(a, prefix, depth, out),
        out.len() >= 40 ==> key_paths(JsonV::Obj(a), prefix, depth, out) == out,
        key_paths(v, prefix, 7, out) == out,
{
    assert(a.push((k, v)).drop_last() =~= a);
    reveal_with_fuel(key_paths, 2);
    reveal_with_fuel(field_paths, 2);
}

/// Of a list the first three elements are looked into, each under its place.
pub proof fn paths_are_listed_for_three_elements(
    a: Seq<JsonV>,
    v: JsonV,
    prefix: Seq<char>,
    depth: int,
    out: Seq<Seq<char>>,
)
    requires
        0 <= depth <= 6,
        out.len() < 40,
    ensures
        element_paths(a.push(v), prefix, depth, out) == key_paths(
            v,
            prefix + "["@ + digits::decimal(a.len() as int) + "]"@,
            depth + 1,
            element_paths(a, prefix, depth, out),
        ),
        element_paths(Seq::empty(), prefix, depth, out) == out,
        a.len() <= 3 ==> key_paths(JsonV::Arr(a), prefix, depth, out) == element_paths(a, prefix, depth, out),
        a.len() > 3 ==> key_paths(JsonV::Arr(a), prefix, depth, out) == element_paths(
            a.subrange(0, 3),
            prefix,
            depth,
            out,
        ),
{
    assert(a.push(v).drop_last() =~= a);
    if a.len() > 3 {
        assert(a.take(3) =~= a.subrange(0, 3));
    }
    reveal_with_fuel(element_paths, 2);
    reveal_with_fuel(key_paths, 2);
}

} // verus!
