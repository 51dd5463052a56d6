//! The daily check-in of many accounts: requests, what replies come to, cooldowns, credits, and
//! the round over all accounts.
use vstd::prelude::*;
use crate::{assoc, clock, digits, floats, json, jwt, text};
use crate::device_proxy::handler::Device;
use crate::device_proxy::headers;
use crate::json::{Json, JsonV, NumV};
use crate::models::RawAccount;

verus! {

broadcast use vstd::string::group_string_axioms;

/// Where credits are claimed.
pub const SIGNIN_URL: &'static str = "https://api.trae.cn/trae/api/v2/ug/checkin_credits/claim";

/// Where it is asked whether they have been claimed.
pub const STATUS_URL: &'static str = "https://api.trae.cn/trae/api/v2/ug/checkin_credits/status";

// ---- requests ----

/// The value of the authorising header: the token with its word in front.
pub open spec fn auth_value(jwt: Seq<char>) -> Seq<char> {
    if text::has_prefix(jwt, "Cloud-IDE-JWT "@) {
        jwt
    } else {
        "Cloud-IDE-JWT "@ + text::trimmed(jwt)
    }
}

/// An optional text, or an empty one.
pub open spec fn or_empty(v: Option<String>) -> Seq<char> {
    match v {
        Some(s) => s@,
        None => ""@,
    }
}

/// The headers of a request, with the identifiers made up for it.
pub open spec fn request_headers(jwt: Seq<char>, dev: Device, request_id: Seq<char>, trace_id: Seq<char>) -> Seq<
    (Seq<char>, Seq<char>),
> {
    seq![
        ("accept"@, "*/*"@),
        ("accept-language"@, "zh-CN"@),
        ("authorization"@, auth_value(jwt)),
        ("content-type"@, "application/json"@),
        ("user-agent"@, "VSCode 1.107.1 (TRAE SOLO CN)"@),
        ("x-market-client-id"@, "VSCode 1.107.1"@),
        ("x-market-user-id"@, or_empty(dev.market_user_id)),
        ("x-user-region"@, "CN"@),
        ("x-device-id"@, dev.device_id@),
        ("x-lgw-req-sdk-type"@, "3"@),
        ("package-type"@, "stable_cn"@),
        ("x-request-id"@, request_id),
        ("x-lscbd-aid"@, "787976"@),
        ("x-lscbd-platform"@, "windows"@),
        ("app-version"@, "0.1.45"@),
        ("x-tt-trace-id"@, "00-"@ + trace_id + "-01"@),
        ("vscode-sessionid"@, or_empty(dev.session_id)),
        ("sec-fetch-dest"@, "empty"@),
        ("sec-fetch-mode"@, "no-cors"@),
        ("sec-fetch-site"@, "none"@),
    ]
}

fn pair(k: &str, v: &str) -> (r: (String, String))
    ensures
        r.0@ == k@ && r.1@ == v@,
{
    (k.to_owned(), v.to_owned())
}

fn text_or_empty(v: &Option<String>) -> (r: &str)
    ensures
        r@ == or_empty(*v),
{
    match v {
        Some(s) => s.as_str(),
        None => "",
    }
}

/// The headers of a request, with the identifiers made up for it.
pub fn build_headers(jwt: &str, dev: &Device, request_id: &str, trace_id: &str) -> (r: Vec<(String, String)>)
    ensures
        headers::pairs(r@) == request_headers(jwt@, *dev, request_id@, trace_id@),
{
    let auth = if text::starts_with(jwt, "Cloud-IDE-JWT ") {
        jwt.to_owned()
    } else {
        text::cat("Cloud-IDE-JWT ", text::trim(jwt).as_str())
    };
    let trace = text::cat3("00-", trace_id, "-01");
    let mut r: Vec<(String, String)> = Vec::new();
    r.push(pair("accept", "*/*"));
    r.push(pair("accept-language", "zh-CN"));
    r.push(pair("authorization", auth.as_str()));
    r.push(pair("content-type", "application/json"));
    r.push(pair("user-agent", "VSCode 1.107.1 (TRAE SOLO CN)"));
    r.push(pair("x-market-client-id", "VSCode 1.107.1"));
    r.push(pair("x-market-user-id", text_or_empty(&dev.market_user_id)));
    r.push(pair("x-user-region", "CN"));
    r.push(pair("x-device-id", dev.device_id.as_str()));
    r.push(pair("x-lgw-req-sdk-type", "3"));
    r.push(pair("package-type", "stable_cn"));
    r.push(pair("x-request-id", request_id));
    r.push(pair("x-lscbd-aid", "787976"));
    r.push(pair("x-lscbd-platform", "windows"));
    r.push(pair("app-version", "0.1.45"));
    r.push(pair("x-tt-trace-id", trace.as_str()));
    r.push(pair("vscode-sessionid", text_or_empty(&dev.session_id)));
    r.push(pair("sec-fetch-dest", "empty"));
    r.push(pair("sec-fetch-mode", "no-cors"));
    r.push(pair("sec-fetch-site", "none"));
    assert(headers::pairs(r@) =~= request_headers(jwt@, *dev, request_id@, trace_id@));
    r
}

/// What came back of a request.
pub enum Post {
    /// A status and a body.
    Answer(u16, String),
    /// No answer, in words.
    Failed(String),
}

/// The device that a map of devices holds for a user: one with an identifier that is not empty.
pub open spec fn mapped_device(map: JsonV, uid: Seq<char>) -> Option<JsonV> {
    match map.get(uid) {
        Some(rec) => match rec.text_at("device_id"@) {
            Some(d) => if d.len() > 0 && optional_text(rec, "market_user_id"@) && optional_text(rec, "session_id"@) {
                Some(rec)
            } else {
                None
            },
            None => None,
        },
        None => None,
    }
}

/// Whether a field is a string, null, or missing.
pub open spec fn optional_text(v: JsonV, key: Seq<char>) -> bool {
    match v.get(key) {
        Some(x) => x is Str || x is Null,
        None => true,
    }
}

/// The device of a user: the one that the map holds, else the one that is derived, which is then
/// put into the map.
pub struct DeviceChoice {
    pub device: Device,
    /// The map to write, where it has changed.
    pub map: Option<Json>,
}

/// A device as it stands in the map.
pub open spec fn device_record(dev: Device) -> JsonV {
    let a = json::with_field(Seq::empty(), "device_id"@, JsonV::Str(dev.device_id@));
    let b = json::with_field(a, "market_user_id"@, json::str_or_null(text::opt_text(dev.market_user_id)));
    JsonV::Obj(json::with_field(b, "session_id"@, json::str_or_null(text::opt_text(dev.session_id))))
}

fn optional_ok(v: &Json, key: &str) -> (r: bool)
    ensures
        r == optional_text(v@, key@),
{
    broadcast use json::lemma_view_parts;

    match v.get(key) {
        Some(x) => match x {
            Json::Str(_) => true,
            Json::Null => true,
            _ => false,
        },
        None => true,
    }
}

fn own(v: Option<&str>) -> (r: Option<String>)
    ensures
        text::opt_text(r) == text::opt_str(v),
{
    match v {
        Some(s) => Some(s.to_owned()),
        None => None,
    }
}

/// The device of a user, out of the map or derived.
pub fn get_device_for(map: &Json, uid: &str, derived: Device) -> (r: DeviceChoice)
    ensures
        match mapped_device(map@, uid@) {
            Some(rec) => Some(r.device.device_id@) == rec.text_at("device_id"@) && text::opt_text(
                r.device.market_user_id,
            ) == rec.text_at("market_user_id"@) && text::opt_text(r.device.session_id) == rec.text_at("session_id"@)
                && r.map is None,
            None => r.device == derived && match map@ {
                JsonV::Obj(o) => json::opt(r.map) == Some(
                    JsonV::Obj(json::with_field(o, uid@, device_record(derived))),
                ),
                _ => r.map is None,
            },
        },
{
    if let Some(rec) = map.get(uid) {
        if let Some(d) = rec.str_at("device_id") {
            if d.unicode_len() > 0 && optional_ok(rec, "market_user_id") && optional_ok(rec, "session_id") {
                let device = Device {
                    device_id: d.to_owned(),
                    market_user_id: own(rec.str_at("market_user_id")),
                    session_id: own(rec.str_at("session_id")),
                };
                return DeviceChoice { device, map: None };
            }
        }
    }
    if map.is_object() {
        let mut rec = json::new_fields();
        json::put(&mut rec, "device_id", json::jstr(derived.device_id.as_str()));
        json::put(&mut rec, "market_user_id", json::jopt(&derived.market_user_id));
        json::put(&mut rec, "session_id", json::jopt(&derived.session_id));
        let mut o = json::fields_of(map);
        json::put(&mut o, uid, json::object(rec));
        DeviceChoice { device: derived, map: Some(json::object(o)) }
    } else {
        DeviceChoice { device: derived, map: None }
    }
}

// ---- values ----

/// Whether a value counts as true: neither null, nor false, nor zero, nor empty. An object always
/// does.
pub open spec fn is_truthy(v: JsonV) -> bool {
    match v {
        JsonV::Null => false,
        JsonV::Bool(b) => b,
        JsonV::Num(n) => !floats::is_zero(n),
        JsonV::Str(s) => s.len() > 0,
        JsonV::Arr(a) => a.len() > 0,
        JsonV::Obj(_) => true,
    }
}

/// Whether a value counts as true.
pub fn py_truthy(v: &Json) -> (r: bool)
    ensures
        r == is_truthy(v@),
{
    broadcast use json::lemma_view_parts;

    match v {
        Json::Null => false,
        Json::Bool(b) => *b,
        Json::Number(n) => !floats::num_is_zero(n),
        Json::Str(s) => s.as_str().unicode_len() > 0,
        Json::Array(a) => {
            assert(json::items(a@).len() == a@.len());
            a.len() > 0
        },
        Json::Object(_) => true,
    }
}

/// At most the largest whole number of 64 bits with a sign.
pub open spec fn capped(n: int) -> int {
    if n > i64::MAX {
        i64::MAX as int
    } else {
        n
    }
}

/// The whole number that a value stands for: one that is not below zero, as a number or as a
/// string of digits.
pub open spec fn whole_of(v: JsonV) -> Option<int> {
    match v {
        JsonV::Num(n) => if (floats::is_negative(n) && !floats::is_zero(n)) || floats::is_broken(n) {
            None
        } else {
            Some(capped(floats::magnitude(n)))
        },
        JsonV::Str(s) => match digits::read_signed(text::trimmed(s)) {
            Some(n) => if 0 <= n <= i64::MAX {
                Some(n)
            } else {
                None
            },
            None => None,
        },
        _ => None,
    }
}

/// What an optional number is.
pub open spec fn opt_int(v: Option<i64>) -> Option<int> {
    match v {
        Some(n) => Some(n as int),
        None => None,
    }
}

/// The whole number that a value stands for.
pub fn int_candidate(v: &Json) -> (r: Option<i64>)
    ensures
        opt_int(r) == whole_of(v@),
        r matches Some(n) ==> n >= 0,
{
    broadcast use json::lemma_view_parts;

    match v {
        Json::Number(n) => {
            let p = floats::parts(n);
            if p.broken {
                return None;
            }
            match p.whole {
                Some(w) => {
                    if p.negative && w != 0 {
                        None
                    } else if w > 0x7fff_ffff_ffff_ffff {
                        Some(i64::MAX)
                    } else {
                        Some(w as i64)
                    }
                },
                None => if p.negative {
                    None
                } else {
                    Some(i64::MAX)
                },
            }
        },
        Json::Str(s) => match digits::read_i64(text::trim(s.as_str()).as_str()) {
            Some(n) => if n >= 0 {
                Some(n)
            } else {
                None
            },
            None => None,
        },
        _ => None,
    }
}

// ---- replies ----

/// The first 200 characters of a body that is no JSON.
pub open spec fn not_json(raw: Seq<char>) -> Seq<char> {
    "非 JSON 响应: "@ + text::head_chars(raw, 200)
}

/// The JSON object that a body holds.
pub open spec fn object_in(raw: Seq<char>) -> Option<JsonV> {
    match json::json_read(raw) {
        Ok(v) => if v is Obj {
            Some(v)
        } else {
            None
        },
        Err(_) => None,
    }
}

fn read_object(raw: &str) -> (r: Option<Json>)
    ensures
        json::opt(r) == object_in(raw@),
        r matches Some(v) ==> v@.wf(),
{
    match json::read_json(raw) {
        Ok(v) => if v.is_object() {
            Some(v)
        } else {
            None
        },
        Err(_) => None,
    }
}

/// Why there was no answer: in words, or a word for trouble with the network.
pub open spec fn network_error(e: Seq<char>) -> Seq<char> {
    if e.len() == 0 {
        "网络异常"@
    } else {
        e
    }
}

fn network_words(e: &String) -> (r: String)
    ensures
        r@ == network_error(e@),
{
    if e.as_str().unicode_len() == 0 {
        "网络异常".to_owned()
    } else {
        e.clone()
    }
}

/// What asking for the status came to.
pub struct StatusOutcome {
    pub ok: bool,
    pub checked_in: Option<bool>,
    pub credits: Option<i64>,
    pub message: String,
}

/// The model of what asking for the status came to.
#[verifier::ext_equal]
pub struct StatusV {
    pub ok: bool,
    pub checked_in: Option<bool>,
    pub credits: Option<int>,
    pub message: Seq<char>,
}

impl View for StatusOutcome {
    type V = StatusV;

    open spec fn view(&self) -> StatusV {
        StatusV {
            ok: self.ok,
            checked_in: self.checked_in,
            credits: opt_int(self.credits),
            message: self.message@,
        }
    }
}

/// What the data of a status comes to.
pub open spec fn status_of(status: u16, data: JsonV) -> StatusV {
    let message = match data.text_at("message"@) {
        Some(m) => m,
        None => ""@,
    };
    let ok = data.int_at("code"@) == Some(0int);
    StatusV {
        ok,
        checked_in: match data.get("checked_in"@) {
            Some(v) => Some(is_truthy(v)),
            None => None,
        },
        credits: match data.get("credits"@) {
            Some(v) => whole_of(v),
            None => None,
        },
        message: if !ok && message.len() == 0 {
            "HTTP "@ + digits::decimal(status as int)
        } else {
            message
        },
    }
}

/// What the data of a status comes to.
pub fn read_status(status: u16, data: &Json) -> (r: StatusOutcome)
    ensures
        r@ == status_of(status, data@),
        r.credits matches Some(c) ==> c >= 0,
{
    let ok = match data.i64_at("code") {
        Some(c) => c == 0,
        None => false,
    };
    let checked_in = match data.get("checked_in") {
        Some(v) => Some(py_truthy(v)),
        None => None,
    };
    let credits = match data.get("credits") {
        Some(v) => int_candidate(v),
        None => None,
    };
    let message = match data.str_at("message") {
        Some(m) => m.to_owned(),
        None => "".to_owned(),
    };
    let message = if !ok && message.as_str().unicode_len() == 0 {
        text::cat("HTTP ", digits::number(status as u64).as_str())
    } else {
        message
    };
    StatusOutcome { ok, checked_in, credits, message }
}

/// What asking for the status came to, of a user that is known.
pub open spec fn status_reply(reply: Post) -> StatusV {
    match reply {
        Post::Failed(e) => StatusV { ok: false, checked_in: None, credits: None, message: network_error(e@) },
        Post::Answer(status, raw) => match object_in(raw@) {
            Some(data) => status_of(status, data),
            None => StatusV { ok: false, checked_in: None, credits: None, message: not_json(raw@) },
        },
    }
}

/// What asking for the status came to. Without a user nothing is asked.
pub fn status_check(user_id: Option<&str>, reply: &Post) -> (r: StatusOutcome)
    ensures
        match user_id {
            Some(_) => r@ == status_reply(*reply),
            None => r@ == (StatusV {
                ok: false,
                checked_in: None,
                credits: None,
                message: "无法从 JWT 解析 user id"@,
            }),
        },
        r.credits matches Some(c) ==> c >= 0,
{
    if user_id.is_none() {
        return StatusOutcome {
            ok: false,
            checked_in: None,
            credits: None,
            message: "无法从 JWT 解析 user id".to_owned(),
        };
    }
    match reply {
        Post::Failed(e) => StatusOutcome { ok: false, checked_in: None, credits: None, message: network_words(e) },
        Post::Answer(status, raw) => match read_object(raw.as_str()) {
            Some(data) => read_status(*status, &data),
            None => StatusOutcome {
                ok: false,
                checked_in: None,
                credits: None,
                message: text::cat("非 JSON 响应: ", text::take_chars(raw.as_str(), 200).as_str()),
            },
        },
    }
}

/// What a claim came to. The code is missing where the request did not get through.
pub struct ClaimOutcome {
    pub ok: bool,
    pub message: String,
    pub code: Option<i64>,
    pub http_status: i32,
    pub data: Option<Json>,
}

/// The model of what a claim came to.
#[verifier::ext_equal]
pub struct ClaimV {
    pub ok: bool,
    pub message: Seq<char>,
    pub code: Option<int>,
    pub http_status: int,
    pub data: Option<JsonV>,
}

impl View for ClaimOutcome {
    type V = ClaimV;

    open spec fn view(&self) -> ClaimV {
        ClaimV {
            ok: self.ok,
            message: self.message@,
            code: opt_int(self.code),
            http_status: self.http_status as int,
            data: json::opt(self.data),
        }
    }
}

/// What a claim came to, of a user that is known.
pub open spec fn claim_reply(reply: Post) -> ClaimV {
    match reply {
        Post::Failed(e) => ClaimV {
            ok: false,
            message: network_error(e@),
            code: None,
            http_status: 0,
            data: None,
        },
        Post::Answer(status, raw) => match object_in(raw@) {
            Some(data) => ClaimV {
                ok: data.int_at("code"@) == Some(0int),
                message: match data.text_at("message"@) {
                    Some(m) => m,
                    None => "HTTP "@ + digits::decimal(status as int),
                },
                code: data.int_at("code"@),
                http_status: status as int,
                data: Some(data),
            },
            None => ClaimV {
                ok: false,
                message: "HTTP "@ + digits::decimal(status as int) + ": 非 JSON 响应: "@ + text::head_chars(raw@, 200),
                code: None,
                http_status: status as int,
                data: None,
            },
        },
    }
}

/// What a claim came to. Without a user nothing is claimed.
pub fn signin_request(user_id: Option<&str>, reply: &Post) -> (r: ClaimOutcome)
    ensures
        match user_id {
            Some(_) => r@ == claim_reply(*reply),
            None => r@ == (ClaimV {
                ok: false,
                message: "无法从 JWT 解析 user id"@,
                code: None,
                http_status: 0,
                data: None,
            }),
        },
        r.data matches Some(d) ==> d@.wf(),
{
    if user_id.is_none() {
        return ClaimOutcome {
            ok: false,
            message: "无法从 JWT 解析 user id".to_owned(),
            code: None,
            http_status: 0,
            data: None,
        };
    }
    match reply {
        Post::Failed(e) => ClaimOutcome {
            ok: false,
            message: network_words(e),
            code: None,
            http_status: 0,
            data: None,
        },
        Post::Answer(status, raw) => match read_object(raw.as_str()) {
            Some(data) => {
                let code: Option<i64> = data.i64_at("code");
                let message = match data.str_at("message") {
                    Some(m) => m.to_owned(),
                    None => text::cat("HTTP ", digits::number(*status as u64).as_str()),
                };
                let ok = match code {
                    Some(c) => c == 0,
                    None => false,
                };
                ClaimOutcome { ok, message, code, http_status: *status as i32, data: Some(data) }
            },
            None => {
                let mut message = text::cat3("HTTP ", digits::number(*status as u64).as_str(), ": 非 JSON 响应: ");
                message.append(text::take_chars(raw.as_str(), 200).as_str());
                ClaimOutcome { ok: false, message, code: None, http_status: *status as i32, data: None }
            },
        },
    }
}

/// Whether a claim is tried again after so many tries: only where it did not get through, and at
/// most `retry` times.
pub fn signin_with_retry(last: &ClaimOutcome, attempt: u32, retry: u32) -> (r: bool)
    ensures
        r == (!last@.ok && last@.code is None && attempt < retry),
{
    !last.ok && last.code.is_none() && attempt < retry
}

// ---- errors and cooldowns ----

/// What an error is called, and for how long the account rests: minus one for good, zero not at
/// all.
pub open spec fn error_of(http_status: int, code: Option<int>) -> (Seq<char>, int) {
    if http_status == 200 && code == Some(1005int) {
        ("PlanLimit"@, 43200)
    } else if http_status == 429 {
        ("SoftRate"@, 60)
    } else if http_status == 401 {
        ("SessionDead"@, -1)
    } else if http_status == 404 {
        ("NotFound"@, 60)
    } else if 500 <= http_status < 600 {
        ("Server"@, 600)
    } else if 400 <= http_status < 500 {
        ("Client"@, 600)
    } else if code is Some && code != Some(0int) {
        ("BusinessError"@, 300)
    } else {
        ("Unknown"@, 0)
    }
}

/// What an error is called, and for how long the account rests.
pub fn classify_error(http_status: i32, code: Option<i64>) -> (r: (&'static str, i64))
    ensures
        (r.0@, r.1 as int) == error_of(http_status as int, opt_int(code)),
        -1 <= r.1 <= 43200,
{
    if http_status == 200 {
        if let Some(c) = code {
            if c == 1005 {
                return ("PlanLimit", 43200);
            }
        }
    }
    if http_status == 429 {
        return ("SoftRate", 60);
    }
    if http_status == 401 {
        return ("SessionDead", -1);
    }
    if http_status == 404 {
        return ("NotFound", 60);
    }
    if 500 <= http_status && http_status < 600 {
        return ("Server", 600);
    }
    if 400 <= http_status && http_status < 500 {
        return ("Client", 600);
    }
    if let Some(c) = code {
        if c != 0 {
            return ("BusinessError", 300);
        }
    }
    ("Unknown", 0)
}

/// How long an account rests, and why.
pub struct CooldownEntry {
    pub error_type: String,
    pub until: i64,
    pub reason: String,
    pub error_count: u32,
}

/// The model of an account's rest.
#[verifier::ext_equal]
pub struct CooldownV {
    pub error_type: Seq<char>,
    pub until: int,
    pub reason: Seq<char>,
    pub error_count: int,
}

impl View for CooldownEntry {
    type V = CooldownV;

    open spec fn view(&self) -> CooldownV {
        CooldownV {
            error_type: self.error_type@,
            until: self.until as int,
            reason: self.reason@,
            error_count: self.error_count as int,
        }
    }
}

/// The rest of an account.
pub open spec fn rest_of(list: Seq<(String, CooldownEntry)>, uid: Seq<char>) -> Option<CooldownV> {
    match assoc::lookup(list, uid) {
        Some(e) => Some(e@),
        None => None,
    }
}

/// Whether errors of the kind are only counted at first.
pub open spec fn is_counted(error_type: Seq<char>) -> bool {
    error_type == "Server"@ || error_type == "Client"@
}

/// The rest of an account after an error: none where it does not rest, for good, or for so many
/// seconds. Errors of the server or the request are counted, and the third starts the rest.
pub open spec fn rest_after(
    before: Option<CooldownV>,
    error_type: Seq<char>,
    seconds: int,
    reason: Seq<char>,
    now: int,
) -> Option<CooldownV> {
    let count = match before {
        Some(e) => e.error_count + 1,
        None => 1,
    };
    if seconds == 0 {
        None
    } else if seconds == -1 {
        Some(CooldownV { error_type, until: 9_999_999_999, reason, error_count: 0 })
    } else if is_counted(error_type) && count < 3 {
        Some(CooldownV { error_type, until: 0, reason, error_count: count })
    } else {
        Some(CooldownV { error_type, until: now + seconds, reason, error_count: 0 })
    }
}

/// Takes an error into the rests of the accounts; those of other accounts stay.
pub fn save_cooldown(
    list: &mut Vec<(String, CooldownEntry)>,
    uid: &str,
    error_type: &str,
    cooldown_seconds: i64,
    reason: &str,
    now: i64,
)
    requires
        is_counted(error_type@) ==> (rest_of(old(list)@, uid@) matches Some(e) ==> e.error_count < u32::MAX),
        i64::MIN <= now + cooldown_seconds <= i64::MAX,
    ensures
        rest_of(final(list)@, uid@) == rest_after(
            rest_of(old(list)@, uid@),
            error_type@,
            cooldown_seconds as int,
            reason@,
            now as int,
        ),
        forall|u: Seq<char>| u != uid@ ==> #[trigger] rest_of(final(list)@, u) == rest_of(old(list)@, u),
{
    let ghost start = list@;
    if cooldown_seconds == 0 {
        assoc::unset(list, uid);
    } else {
        let counted = text::same(error_type, "Server") || text::same(error_type, "Client");
        let count: u32 = match assoc::find(list, uid) {
            Some(e) => if counted {
                e.error_count + 1
            } else {
                0
            },
            None => 1,
        };
        let (until, error_count): (i64, u32) = if cooldown_seconds == -1 {
            (9_999_999_999, 0)
        } else if counted && count < 3 {
            (0, count)
        } else {
            (now + cooldown_seconds, 0)
        };
        let e = CooldownEntry { error_type: error_type.to_owned(), until, reason: reason.to_owned(), error_count };
        assoc::set(list, uid, e);
    }
    assert forall|u: Seq<char>| u != uid@ implies #[trigger] rest_of(list@, u) == rest_of(start, u) by {
        assert(assoc::lookup(list@, u) == assoc::lookup(start, u));
    }
}

/// Takes an account's rest away; those of other accounts stay.
pub fn clear_cooldown(list: &mut Vec<(String, CooldownEntry)>, uid: &str)
    ensures
        rest_of(final(list)@, uid@) is None,
        forall|u: Seq<char>| u != uid@ ==> #[trigger] rest_of(final(list)@, u) == rest_of(old(list)@, u),
{
    let ghost start = list@;
    assoc::unset(list, uid);
    assert forall|u: Seq<char>| u != uid@ implies #[trigger] rest_of(list@, u) == rest_of(start, u) by {
        assert(assoc::lookup(list@, u) == assoc::lookup(start, u));
    }
}

/// An account rests only from the third error of the server or the request on, when there was no
/// other in between; after that the count starts again.
pub proof fn third_error_starts_the_rest(error_type: Seq<char>, seconds: int, reason: Seq<char>, now: int)
    requires
        is_counted(error_type),
        seconds > 0,
        now > 0,
    ensures
        ({
            let one = rest_after(None, error_type, seconds, reason, now);
            let two = rest_after(one, error_type, seconds, reason, now);
            let three = rest_after(two, error_type, seconds, reason, now);
            let four = rest_after(three, error_type, seconds, reason, now);
            &&& one->Some_0.until == 0 && one->Some_0.error_count == 1
            &&& two->Some_0.until == 0 && two->Some_0.error_count == 2
            &&& three->Some_0.until == now + seconds && three->Some_0.error_count == 0
            &&& four->Some_0.until == 0 && four->Some_0.error_count == 1
        }),
{
}

// ---- credits ----

/// The keys of a reward, the likeliest first.
pub open spec fn reward_keys() -> Seq<Seq<char>> {
    seq![
        "reward"@,
        "reward_credits"@,
        "claim_credits"@,
        "checkin_credits"@,
        "delta"@,
        "increase"@,
        "obtain"@,
        "gained"@,
        "credits"@,
        "amount"@,
    ]
}

/// The first number under one of the keys.
pub open spec fn first_number(v: JsonV, keys: Seq<Seq<char>>) -> Option<int>
    decreases keys.len(),
{
    if keys.len() == 0 {
        None
    } else {
        let here = match v.get(keys[0]) {
            Some(x) => whole_of(x),
            None => None,
        };
        match here {
            Some(n) => Some(n),
            None => first_number(v, keys.skip(1)),
        }
    }
}

/// The reward that a claim's data names: in its own data first, then at the top.
pub open spec fn reward_of(data: Option<JsonV>) -> Option<int> {
    match data {
        None => None,
        Some(d) => {
            let nested = match d.get("data"@) {
                Some(x) => if x is Obj {
                    first_number(x, reward_keys())
                } else {
                    None
                },
                None => None,
            };
            match nested {
                Some(n) => Some(n),
                None => first_number(d, reward_keys()),
            }
        },
    }
}

/// The number under a key, where there is one.
pub open spec fn number_at(v: JsonV, key: Seq<char>) -> Option<int> {
    match v.get(key) {
        Some(x) => whole_of(x),
        None => None,
    }
}

/// A number under "reward" is the reward, whatever else there is. The other names of a reward count in
/// their order, and what may be a balance, under "credits" and "amount", only where there is no number
/// under any of them.
pub proof fn a_named_reward_comes_first(v: JsonV)
    ensures
        ({
            let r = first_number(v, reward_keys());
            let named = first_some(
                first_some(
                    first_some(number_at(v, "reward"@), number_at(v, "reward_credits"@)),
                    first_some(number_at(v, "claim_credits"@), number_at(v, "checkin_credits"@)),
                ),
                first_some(
                    first_some(number_at(v, "delta"@), number_at(v, "increase"@)),
                    first_some(number_at(v, "obtain"@), number_at(v, "gained"@)),
                ),
            );
            &&& number_at(v, "reward"@) is Some ==> r == number_at(v, "reward"@)
            &&& named is Some ==> r == named
            &&& named is None && number_at(v, "credits"@) is Some ==> r == number_at(v, "credits"@)
            &&& named is None && number_at(v, "credits"@) is None ==> r == number_at(v, "amount"@)
        }),
{
    reveal_with_fuel(first_number, 12);
    let k = reward_keys();
    assert(k.skip(1)[0] == "reward_credits"@);
    assert(k.skip(1).skip(1)[0] == "claim_credits"@);
    assert(k.skip(1).skip(1).skip(1)[0] == "checkin_credits"@);
    assert(k.skip(1).skip(1).skip(1).skip(1)[0] == "delta"@);
    assert(k.skip(1).skip(1).skip(1).skip(1).skip(1)[0] == "increase"@);
    assert(k.skip(1).skip(1).skip(1).skip(1).skip(1).skip(1)[0] == "obtain"@);
    assert(k.skip(1).skip(1).skip(1).skip(1).skip(1).skip(1).skip(1)[0] == "gained"@);
    assert(k.skip(1).skip(1).skip(1).skip(1).skip(1).skip(1).skip(1).skip(1)[0] == "credits"@);
    assert(k.skip(1).skip(1).skip(1).skip(1).skip(1).skip(1).skip(1).skip(1).skip(1)[0] == "amount"@);
}

/// The first of two that is there.
pub open spec fn first_some(a: Option<int>, b: Option<int>) -> Option<int> {
    match a {
        Some(_) => a,
        None => b,
    }
}

/// A reward that the inner data name is the reward, whatever stands around them; where they name none,
/// or are no object, it is what the outer data name. Without data there is none.
pub proof fn inner_data_name_the_reward(d: JsonV)
    ensures
        reward_of(None) is None,
        d.get("data"@) matches Some(JsonV::Obj(o)) ==> first_number(JsonV::Obj(o), reward_keys()) is Some
            ==> reward_of(Some(d)) == first_number(JsonV::Obj(o), reward_keys()),
        (d.get("data"@) matches Some(JsonV::Obj(o)) ==> first_number(JsonV::Obj(o), reward_keys()) is None)
            ==> reward_of(Some(d)) == first_number(d, reward_keys()),
{
}

fn find_number(v: &Json) -> (r: Option<i64>)
    ensures
        opt_int(r) == first_number(v@, reward_keys()),
        r matches Some(n) ==> n >= 0,
{
    let keys = vec![
        "reward",
        "reward_credits",
        "claim_credits",
        "checkin_credits",
        "delta",
        "increase",
        "obtain",
        "gained",
        "credits",
        "amount",
    ];
    let ghost all = text::strs(keys@);
    assert(all =~= reward_keys());
    assert(all.skip(0) =~= all);
    let mut i: usize = 0;
    while i < keys.len()
        invariant
            i <= keys@.len(),
            all == text::strs(keys@),
            all == reward_keys(),
            first_number(v@, all) == first_number(v@, all.skip(i as int)),
        decreases keys@.len() - i,
    {
        proof {
            assert(all.skip(i as int)[0] == keys@[i as int]@);
            assert(all.skip(i as int).skip(1) =~= all.skip(i + 1));
        }
        if let Some(x) = v.get(keys[i]) {
            if let Some(n) = int_candidate(x) {
                return Some(n);
            }
        }
        i += 1;
    }
    None
}

/// The reward that a claim's data names.
pub fn parse_claim_reward(data: Option<&Json>) -> (r: Option<i64>)
    ensures
        opt_int(r) == reward_of(json::opt_ref(data)),
        r matches Some(n) ==> n >= 0,
{
    match data {
        None => None,
        Some(d) => {
            if let Some(x) = d.get("data") {
                if x.is_object() {
                    if let Some(n) = find_number(x) {
                        return Some(n);
                    }
                }
            }
            find_number(d)
        },
    }
}

/// Where the credits of a claim come from.
#[derive(Clone, Copy, PartialEq, Eq, Structural)]
pub enum CreditSource {
    ClaimReward,
    BalanceDiff,
    Legacy,
}

impl CreditSource {
    /// The word for it.
    pub fn as_str(self) -> (r: &'static str)
        ensures
            r@ == match self {
                CreditSource::ClaimReward => "claim_reward"@,
                CreditSource::BalanceDiff => "balance_diff"@,
                CreditSource::Legacy => "legacy"@,
            },
    {
        match self {
            CreditSource::ClaimReward => "claim_reward",
            CreditSource::BalanceDiff => "balance_diff",
            CreditSource::Legacy => "legacy",
        }
    }
}

/// Whether the status is asked for again after a claim: where the claim names no reward and the
/// balance before it is known.
pub fn needs_recheck(claim_data: Option<&Json>, credits_before: Option<i64>) -> (r: bool)
    ensures
        r == (reward_of(json::opt_ref(claim_data)) is None && credits_before is Some),
{
    parse_claim_reward(claim_data).is_none() && credits_before.is_some()
}

/// The credits after a claim, what was added, and where that comes from: the reward that the claim
/// names, else how much the balance grew, else the balance before.
pub open spec fn credits_of(reward: Option<int>, before: Option<int>, recheck: Option<(bool, Option<int>)>) -> (
    Option<int>,
    int,
    CreditSource,
) {
    match reward {
        Some(n) => (before, n, CreditSource::ClaimReward),
        None => match (before, recheck) {
            (Some(b), Some((true, Some(a)))) => if a - b >= 0 {
                (Some(a), a - b, CreditSource::BalanceDiff)
            } else {
                (Some(b), b, CreditSource::Legacy)
            },
            (Some(b), _) => (Some(b), b, CreditSource::Legacy),
            (None, _) => (None, 0, CreditSource::Legacy),
        },
    }
}

/// What a recheck came to.
pub open spec fn opt_recheck(v: Option<(bool, Option<i64>)>) -> Option<(bool, Option<int>)> {
    match v {
        Some((ok, c)) => Some((ok, opt_int(c))),
        None => None,
    }
}

/// The credits after a claim, what was added, and where that comes from.
pub fn resolve_claim_credits(
    claim_data: Option<&Json>,
    credits_before: Option<i64>,
    recheck: Option<(bool, Option<i64>)>,
) -> (r: (Option<i64>, i64, CreditSource))
    requires
        credits_before matches Some(b) ==> (recheck matches Some((_, Some(a))) ==> i64::MIN <= a - b <= i64::MAX),
    ensures
        (opt_int(r.0), r.1 as int, r.2) == credits_of(
            reward_of(json::opt_ref(claim_data)),
            opt_int(credits_before),
            opt_recheck(recheck),
        ),
{
    if let Some(n) = parse_claim_reward(claim_data) {
        return (credits_before, n, CreditSource::ClaimReward);
    }
    match credits_before {
        Some(b) => {
            if let Some((ok, Some(a))) = recheck {
                if ok && a - b >= 0 {
                    return (Some(a), a - b, CreditSource::BalanceDiff);
                }
            }
            (Some(b), b, CreditSource::Legacy)
        },
        None => (None, 0, CreditSource::Legacy),
    }
}

/// One line of the history of credits.
pub open spec fn credit_record(today: Seq<char>, uid: Seq<char>, credits: int, delta: int) -> JsonV {
    let a = json::with_field(Seq::empty(), "date"@, JsonV::Str(today));
    let b = json::with_field(a, "user_id"@, JsonV::Str(uid));
    let c = json::with_field(b, "credits"@, json::int_v(credits));
    JsonV::Obj(json::with_field(c, "delta"@, json::int_v(delta)))
}

/// Whether a record is from the cutoff day or later.
pub open spec fn is_recent(r: JsonV, cutoff: Seq<char>) -> bool {
    let date = match r.text_at("date"@) {
        Some(d) => d,
        None => ""@,
    };
    !json::before(date, cutoff)
}

/// The records from the cutoff day on.
pub open spec fn recent(records: Seq<JsonV>, cutoff: Seq<char>) -> Seq<JsonV>
    decreases records.len(),
{
    if records.len() == 0 {
        Seq::empty()
    } else if is_recent(records.last(), cutoff) {
        recent(records.drop_last(), cutoff).push(records.last())
    } else {
        recent(records.drop_last(), cutoff)
    }
}

/// The history with one record more: those from before the cutoff day are dropped. A history
/// without a list of records starts anew.
pub open spec fn history_after(data: JsonV, record: JsonV, cutoff: Seq<char>) -> JsonV {
    let o = match data {
        JsonV::Obj(o) => o,
        _ => json::with_field(Seq::empty(), "records"@, JsonV::Arr(Seq::empty())),
    };
    let records = match json::field(o, "records"@) {
        Some(JsonV::Arr(a)) => recent(a.push(record), cutoff),
        _ => seq![record],
    };
    JsonV::Obj(json::with_field(o, "records"@, JsonV::Arr(records)))
}

fn drop_old(records: &Vec<Json>, cutoff: &str) -> (r: Vec<Json>)
    ensures
        json::items(r@) == recent(json::items(records@), cutoff@),
{
    let ghost all = json::items(records@);
    let mut out: Vec<Json> = Vec::new();
    assert(all.take(0) =~= Seq::empty());
    assert(json::items(out@) =~= Seq::empty());
    let mut i: usize = 0;
    while i < records.len()
        invariant
            i <= records@.len(),
            all == json::items(records@),
            json::items(out@) == recent(all.take(i as int), cutoff@),
        decreases records@.len() - i,
    {
        proof {
            assert(all.take(i + 1).last() == records@[i as int]@);
            assert(all.take(i + 1).drop_last() =~= all.take(i as int));
        }
        let date = match records[i].str_at("date") {
            Some(d) => d.to_owned(),
            None => "".to_owned(),
        };
        if !json::is_before(date.as_str(), cutoff) {
            json::push_item(&mut out, records[i].dup());
        }
        i += 1;
    }
    assert(all.take(all.len() as int) =~= all);
    out
}

/// The history of credits with one record more, on the given day and with the given cutoff.
pub fn save_credits_history(data: &Json, uid: &str, credits: i64, delta: i64, today: &str, cutoff: &str) -> (r: Json)
    ensures
        r@ == history_after(data@, credit_record(today@, uid@, credits as int, delta as int), cutoff@),
{
    let mut rec = json::new_fields();
    json::put(&mut rec, "date", json::jstr(today));
    json::put(&mut rec, "user_id", json::jstr(uid));
    json::put(&mut rec, "credits", json::jint(credits));
    json::put(&mut rec, "delta", json::jint(delta));
    let record = json::object(rec);
    let o = if data.is_object() {
        json::fields_of(data)
    } else {
        let mut e = json::new_fields();
        let none: Vec<Json> = Vec::new();
        let arr = Json::Array(none);
        proof {
            json::lemma_view_parts(arr);
            assert(json::items(none@) =~= Seq::empty());
        }
        json::put(&mut e, "records", arr);
        e
    };
    let holder = json::object(o);
    let records = match holder.get("records") {
        Some(v) => match v.as_array() {
            Some(a) => {
                let mut list = json::dup_list(a);
                json::push_item(&mut list, record);
                drop_old(&list, cutoff)
            },
            None => {
                let mut list: Vec<Json> = Vec::new();
                assert(json::items(list@) =~= Seq::empty());
                json::push_item(&mut list, record);
                assert(json::items(list@) =~= seq![record@]);
                list
            },
        },
        None => {
            let mut list: Vec<Json> = Vec::new();
            assert(json::items(list@) =~= Seq::empty());
            json::push_item(&mut list, record);
            assert(json::items(list@) =~= seq![record@]);
            list
        },
    };
    let arr = Json::Array(records);
    proof {
        json::lemma_view_parts(arr);
    }
    let mut fields = json::fields_of(&holder);
    json::put(&mut fields, "records", arr);
    json::object(fields)
}

/// Every record that is kept is from the cutoff day or later.
pub proof fn kept_records_are_recent(records: Seq<JsonV>, cutoff: Seq<char>, i: int)
    requires
        0 <= i < recent(records, cutoff).len(),
    ensures
        is_recent(recent(records, cutoff)[i], cutoff),
    decreases records.len(),
{
    if records.len() > 0 {
        let before = recent(records.drop_last(), cutoff);
        if i < before.len() {
            kept_records_are_recent(records.drop_last(), cutoff, i);
        }
    }
}

// ---- the summary of a day ----

/// Whether one of the results is of the user.
pub open spec fn has_user(results: Seq<JsonV>, uid: Seq<char>) -> bool {
    exists|i: int| 0 <= i < results.len() && (#[trigger] results[i]).text_at("user_id"@) == Some(uid)
}

/// Whether one of the results has the name.
pub open spec fn has_name(results: Seq<JsonV>, name: Seq<char>) -> bool {
    exists|i: int| 0 <= i < results.len() && (#[trigger] results[i]).text_at("name"@) == Some(name)
}

/// The text of a field; empty where it holds none.
pub open spec fn text_or_blank(v: JsonV, key: Seq<char>) -> Seq<char> {
    match v.text_at(key) {
        Some(t) => t,
        None => Seq::empty(),
    }
}

/// Whether new results take the place of an old one: one of the same user, or of the same name
/// where the old one has no user.
pub open spec fn is_superseded(new: Seq<JsonV>, old: JsonV) -> bool {
    let uid = text_or_blank(old, "user_id"@);
    if uid.len() > 0 {
        has_user(new, uid)
    } else {
        has_name(new, text_or_blank(old, "name"@))
    }
}

/// The old results that new ones do not take the place of, in order.
pub open spec fn survivors(new: Seq<JsonV>, old: Seq<JsonV>) -> Seq<JsonV>
    decreases old.len(),
{
    if old.len() == 0 {
        Seq::empty()
    } else if is_superseded(new, old.last()) {
        survivors(new, old.drop_last())
    } else {
        survivors(new, old.drop_last()).push(old.last())
    }
}

/// The results of a day: the new ones, and behind them those of the same day that they do not take
/// the place of.
pub open spec fn merged_results(new: Seq<JsonV>, old: JsonV, today: Seq<char>) -> Seq<JsonV> {
    if text::has_prefix(text_or_blank(old, "time"@), today) {
        new + survivors(new, old.elements_at("results"@))
    } else {
        new
    }
}

/// How many results are good.
pub open spec fn count_ok(results: Seq<JsonV>) -> int
    decreases results.len(),
{
    if results.len() == 0 {
        0
    } else {
        count_ok(results.drop_last()) + if results.last().get("ok"@) == Some(JsonV::Bool(true)) {
            1int
        } else {
            0
        }
    }
}

/// How many results were claimed before.
pub open spec fn count_already(results: Seq<JsonV>) -> int
    decreases results.len(),
{
    if results.len() == 0 {
        0
    } else {
        count_already(results.drop_last()) + if results.last().text_at("action"@) == Some("skip_already"@) {
            1int
        } else {
            0
        }
    }
}

/// The summary of a day.
pub open spec fn day_summary(now: Seq<char>, results: Seq<JsonV>, warnings: Seq<Seq<char>>) -> JsonV {
    let a = json::with_field(Seq::empty(), "time"@, JsonV::Str(now));
    let b = json::with_field(a, "results"@, JsonV::Arr(results));
    let c = json::with_field(b, "total_ok"@, json::int_v(count_ok(results)));
    let d = json::with_field(c, "already"@, json::int_v(count_already(results)));
    let e = json::with_field(d, "failed"@, json::int_v(results.len() - count_ok(results)));
    JsonV::Obj(
        json::with_field(e, "warnings"@, JsonV::Arr(warnings.map_values(|t: Seq<char>| JsonV::Str(t)))),
    )
}

fn any_text(results: &Vec<Json>, key: &str, want: &str) -> (r: bool)
    ensures
        r == exists|i: int| 0 <= i < results@.len() && (#[trigger] json::items(results@)[i]).text_at(key@) == Some(want@),
{
    let mut i: usize = 0;
    while i < results.len()
        invariant
            i <= results@.len(),
            forall|k: int| 0 <= k < i ==> (#[trigger] json::items(results@)[k]).text_at(key@) != Some(want@),
        decreases results@.len() - i,
    {
        assert(json::items(results@)[i as int] == results@[i as int]@);
        if let Some(t) = results[i].str_at(key) {
            if text::same(t, want) {
                return true;
            }
        }
        i += 1;
    }
    false
}

fn blank_or(v: &Json, key: &str) -> (r: String)
    ensures
        r@ == text_or_blank(v@, key@),
{
    match v.str_at(key) {
        Some(t) => t.to_owned(),
        None => {
            let e = String::new();
            assert(e@ =~= Seq::empty());
            e
        },
    }
}

fn superseded(new: &Vec<Json>, old: &Json) -> (r: bool)
    ensures
        r == is_superseded(json::items(new@), old@),
{
    let uid = blank_or(old, "user_id");
    if uid.as_str().unicode_len() > 0 {
        any_text(new, "user_id", uid.as_str())
    } else {
        any_text(new, "name", blank_or(old, "name").as_str())
    }
}

/// The results of a day.
pub fn merge_results(new: &Vec<Json>, old: &Json, today: &str) -> (r: Vec<Json>)
    ensures
        json::items(r@) == merged_results(json::items(new@), old@, today@),
{
    let mut out = json::dup_list(new);
    let ghost base = json::items(new@);
    if !text::starts_with(blank_or(old, "time").as_str(), today) {
        return out;
    }
    let list = match old.get("results") {
        Some(v) => v.as_array(),
        None => None,
    };
    if let Some(a) = list {
        let ghost all = json::items(a@);
        proof {
            assert(old@.elements_at("results"@) == all);
            assert(all.take(0) =~= Seq::empty());
            assert(base + survivors(base, all.take(0)) =~= base);
        }
        let mut i: usize = 0;
        while i < a.len()
            invariant
                i <= a@.len(),
                all == json::items(a@),
                base == json::items(new@),
                json::items(out@) == base + survivors(base, all.take(i as int)),
            decreases a@.len() - i,
        {
            proof {
                assert(all.take(i + 1).last() == a@[i as int]@);
                assert(all.take(i + 1).drop_last() =~= all.take(i as int));
            }
            if !superseded(new, &a[i]) {
                let ghost before = survivors(base, all.take(i as int));
                json::push_item(&mut out, a[i].dup());
                assert((base + before).push(a@[i as int]@) =~= base + before.push(a@[i as int]@));
            }
            i += 1;
        }
        assert(all.take(all.len() as int) =~= all);
    } else {
        assert(base + survivors(base, old@.elements_at("results"@)) =~= base);
    }
    out
}

/// A second round on one day keeps what the first one said of every account that it leaves out.
pub proof fn earlier_results_survive(new: Seq<JsonV>, old: JsonV, today: Seq<char>, i: int)
    requires
        text::has_prefix(text_or_blank(old, "time"@), today),
        0 <= i < old.elements_at("results"@).len(),
        !is_superseded(new, old.elements_at("results"@)[i]),
    ensures
        merged_results(new, old, today).contains(old.elements_at("results"@)[i]),
{
    let all = old.elements_at("results"@);
    lemma_survivor(new, all, i);
    let s = survivors(new, all);
    let k = choose|k: int| 0 <= k < s.len() && s[k] == all[i];
    assert((new + s)[new.len() + k] == all[i]);
}

proof fn lemma_survivor(new: Seq<JsonV>, old: Seq<JsonV>, i: int)
    requires
        0 <= i < old.len(),
        !is_superseded(new, old[i]),
    ensures
        exists|k: int| 0 <= k < survivors(new, old).len() && survivors(new, old)[k] == old[i],
    decreases old.len(),
{
    let s = survivors(new, old);
    let before = survivors(new, old.drop_last());
    if i == old.len() - 1 {
        assert(s[before.len() as int] == old[i]);
    } else {
        lemma_survivor(new, old.drop_last(), i);
        let k = choose|k: int| 0 <= k < before.len() && before[k] == old.drop_last()[i];
        assert(s[k] == old[i]);
    }
}

/// A round's results are all there, in their places, whatever the day held before.
pub proof fn new_results_stand(new: Seq<JsonV>, old: JsonV, today: Seq<char>, i: int)
    requires
        0 <= i < new.len(),
    ensures
        i < merged_results(new, old, today).len(),
        merged_results(new, old, today)[i] == new[i],
{
}

fn is_true(v: Option<&Json>) -> (r: bool)
    ensures
        r == (json::opt_ref(v) == Some(JsonV::Bool(true))),
{
    broadcast use json::lemma_view_parts;

    match v {
        Some(x) => match x {
            Json::Bool(b) => *b,
            _ => false,
        },
        None => false,
    }
}

/// The summary of a day after a round, with what the day held before.
pub fn save_summary_merged(results: &Vec<Json>, warnings: &Vec<String>, old: &Json, today: &str, now: &str) -> (r: Json)
    requires
        results@.len() + old@.elements_at("results"@).len() <= i64::MAX,
    ensures
        r@ == day_summary(
            now@,
            merged_results(json::items(results@), old@, today@),
            text::texts(warnings@),
        ),
{
    let merged = merge_results(results, old, today);
    let ghost all = json::items(merged@);
    proof {
        lemma_survivors_len(json::items(results@), old@.elements_at("results"@));
        assert(all.len() == merged@.len());
        assert(all.len() <= i64::MAX);
    }
    let mut ok: i64 = 0;
    let mut already: i64 = 0;
    let mut i: usize = 0;
    assert(all.take(0) =~= Seq::empty());
    while i < merged.len()
        invariant
            i <= merged@.len(),
            all == json::items(merged@),
            merged@.len() <= i64::MAX,
            0 <= ok <= i,
            0 <= already <= i,
            ok == count_ok(all.take(i as int)),
            already == count_already(all.take(i as int)),
        decreases merged@.len() - i,
    {
        proof {
            assert(all.take(i + 1).last() == merged@[i as int]@);
            assert(all.take(i + 1).drop_last() =~= all.take(i as int));
        }
        if is_true(merged[i].get("ok")) {
            ok = ok + 1;
        }
        if let Some(t) = merged[i].str_at("action") {
            if text::same(t, "skip_already") {
                already = already + 1;
            }
        }
        i += 1;
    }
    assert(all.take(all.len() as int) =~= all);
    let failed: i64 = merged.len() as i64 - ok;
    let mut o = json::new_fields();
    json::put(&mut o, "time", json::jstr(now));
    let arr = Json::Array(merged);
    proof {
        json::lemma_view_parts(arr);
    }
    json::put(&mut o, "results", arr);
    json::put(&mut o, "total_ok", json::jint(ok));
    json::put(&mut o, "already", json::jint(already));
    json::put(&mut o, "failed", json::jint(failed));
    json::put(&mut o, "warnings", json::jtexts(warnings));
    json::object(o)
}

proof fn lemma_survivors_len(new: Seq<JsonV>, old: Seq<JsonV>)
    ensures
        survivors(new, old).len() <= old.len(),
    decreases old.len(),
{
    if old.len() > 0 {
        lemma_survivors_len(new, old.drop_last());
    }
}

// ---- the round ----

/// What became of each account of a round, by user, and the kinds of the errors.
pub struct RoundOutcome {
    pub statuses: Vec<(String, &'static str)>,
    pub error_types: Vec<(String, String)>,
}

/// A round, as far as it has come.
pub struct Round {
    /// How many accounts have been begun.
    pub index: usize,
    pub results: Vec<Json>,
    pub warnings: Vec<String>,
    pub total_ok: usize,
    pub already: usize,
    pub failed: usize,
    pub outcome: RoundOutcome,
}

/// The account at hand.
pub struct Current {
    /// Its place in the round, from one.
    pub index: usize,
    pub name: String,
    pub jwt: String,
    pub user_id: Option<String>,
    pub exp_timestamp: Option<i64>,
}

/// The name of an account; its number where it has none.
pub open spec fn shown_name(name: Seq<char>, index: int) -> Seq<char> {
    if name.len() == 0 {
        "账号"@ + digits::decimal(index)
    } else {
        name
    }
}

/// The event that opens a round.
pub open spec fn start_event_of(total: int) -> JsonV {
    JsonV::Obj(
        json::with_field(
            json::with_field(Seq::empty(), "type"@, JsonV::Str("start"@)),
            "total"@,
            json::int_v(total),
        ),
    )
}

/// The event that opens a round.
pub fn start_event(total: usize) -> (r: Json)
    requires
        total <= i64::MAX,
    ensures
        r@ == start_event_of(total as int),
{
    let mut o = json::new_fields();
    json::put(&mut o, "type", json::jstr("start"));
    json::put(&mut o, "total", json::jint(total as i64));
    json::object(o)
}

/// The event that closes a round.
pub open spec fn done_event_of(ok: int, already: int, failed: int) -> JsonV {
    let a = json::with_field(Seq::empty(), "type"@, JsonV::Str("done"@));
    let b = json::with_field(a, "ok"@, json::int_v(ok));
    let c = json::with_field(b, "already"@, json::int_v(already));
    JsonV::Obj(json::with_field(c, "failed"@, json::int_v(failed)))
}

/// The first fields of an account's event.
pub open spec fn event_base(index: int, uid: JsonV, name: Seq<char>, status: Seq<char>) -> Seq<(Seq<char>, JsonV)> {
    let a = json::with_field(Seq::empty(), "type"@, JsonV::Str("account"@));
    let b = json::with_field(a, "index"@, json::int_v(index));
    let c = json::with_field(b, "user_id"@, uid);
    let d = json::with_field(c, "name"@, JsonV::Str(name));
    json::with_field(d, "status"@, JsonV::Str(status))
}

/// The event of an account without a token.
pub open spec fn no_jwt_event(index: int, uid: Seq<char>, name: Seq<char>) -> JsonV {
    JsonV::Obj(
        json::with_field(event_base(index, JsonV::Str(uid), name, "fail"@), "message"@, JsonV::Str("未配置 jwt"@)),
    )
}

/// The result of an account without a token.
pub open spec fn no_jwt_result(uid: Seq<char>, name: Seq<char>) -> JsonV {
    let a = json::with_field(Seq::empty(), "name"@, JsonV::Str(name));
    let b = json::with_field(a, "user_id"@, JsonV::Str(uid));
    let c = json::with_field(b, "ok"@, JsonV::Bool(false));
    JsonV::Obj(json::with_field(c, "message"@, JsonV::Str("未配置 jwt"@)))
}

/// The event of an account that had claimed before.
pub open spec fn already_event(index: int, uid: Option<Seq<char>>, name: Seq<char>, credits: Option<int>) -> JsonV {
    JsonV::Obj(
        json::with_field(
            event_base(index, json::str_or_null(uid), name, "already"@),
            "credits"@,
            json::int_or_null(credits),
        ),
    )
}

/// The result of an account that had claimed before.
pub open spec fn already_result(uid: Option<Seq<char>>, name: Seq<char>, pre: StatusV) -> JsonV {
    let a = json::with_field(Seq::empty(), "name"@, JsonV::Str(name));
    let b = json::with_field(a, "user_id"@, json::str_or_null(uid));
    let c = json::with_field(b, "ok"@, JsonV::Bool(true));
    let d = json::with_field(c, "code"@, json::int_v(0));
    let e = json::with_field(d, "action"@, JsonV::Str("skip_already"@));
    let f = json::with_field(e, "credits"@, json::int_or_null(pre.credits));
    JsonV::Obj(
        json::with_field(
            f,
            "message"@,
            JsonV::Str(
                if pre.message.len() == 0 {
                    "已签到"@
                } else {
                    pre.message
                },
            ),
        ),
    )
}

/// What is known of an account after its claim.
pub struct ClaimReport {
    /// The credits, where the claim was good and they are known.
    pub credits: Option<i64>,
    pub delta: i64,
    /// The kind of the error, where it has one.
    pub error_type: Option<String>,
    pub cooldown_until: Option<i64>,
}

/// The event of an account after its claim.
pub open spec fn claim_event(index: int, uid: Option<Seq<char>>, name: Seq<char>, claim: ClaimV, rep: ClaimReport) -> JsonV {
    let base = event_base(
        index,
        json::str_or_null(uid),
        name,
        if claim.ok {
            "success"@
        } else {
            "fail"@
        },
    );
    let a = json::with_field(base, "code"@, json::int_or_null(claim.code));
    let b = json::with_field(a, "message"@, JsonV::Str(claim.message));
    let c = json::with_field(b, "credits"@, json::int_or_null(opt_int(rep.credits)));
    let d = json::with_field(
        c,
        "delta"@,
        if rep.delta != 0 {
            json::int_v(rep.delta as int)
        } else {
            JsonV::Null
        },
    );
    let e = json::with_field(d, "error_type"@, json::str_or_null(text::opt_text(rep.error_type)));
    JsonV::Obj(json::with_field(e, "cooldown_until"@, json::int_or_null(opt_int(rep.cooldown_until))))
}

/// The result of an account after its claim.
pub open spec fn claim_result(uid: Option<Seq<char>>, name: Seq<char>, claim: ClaimV, rep: ClaimReport) -> JsonV {
    let a = json::with_field(Seq::empty(), "name"@, JsonV::Str(name));
    let b = json::with_field(a, "user_id"@, json::str_or_null(uid));
    let c = json::with_field(b, "ok"@, JsonV::Bool(claim.ok));
    let d = json::with_field(c, "code"@, json::int_or_null(claim.code));
    let e = json::with_field(d, "message"@, JsonV::Str(claim.message));
    let f = json::with_field(
        e,
        "action"@,
        JsonV::Str(
            if claim.ok {
                "claim_ok"@
            } else {
                "claim"@
            },
        ),
    );
    match rep.credits {
        Some(n) => JsonV::Obj(
            json::with_field(
                json::with_field(f, "credits"@, json::int_v(n as int)),
                "credits_delta"@,
                json::int_v(rep.delta as int),
            ),
        ),
        None => JsonV::Obj(f),
    }
}

/// How long a token is good for.
pub struct Expiry {
    /// The seconds that are left; below zero once it has expired.
    pub seconds_left: i64,
    /// The hours that are left, in words.
    pub hours: String,
    /// When it expires, in words.
    pub when: String,
}

/// Whether a text says when a token expires: the local time, or the number where there is no such time.
pub open spec fn tells_expiry(exp: int, when: Seq<char>) -> bool {
    clock::is_local_text(exp, when) || (!clock::in_range(exp) && when == digits::decimal(exp))
}

/// How long a token that expires at a second is good for, with the hours in words; nothing where the
/// seconds that are left are too many to count.
pub fn expiry_at(exp: i64, now: i64, hours: String) -> (r: Option<Expiry>)
    ensures
        match r {
            Some(e) => e.seconds_left == exp - now && e.hours == hours && tells_expiry(exp as int, e.when@),
            None => !(i64::MIN <= exp - now <= i64::MAX),
        },
{
    match exp.checked_sub(now) {
        Some(seconds_left) => {
            let when = match clock::local_minute(exp) {
                Some(t) => t,
                None => digits::signed_number(exp),
            };
            Some(Expiry { seconds_left, hours, when })
        },
        None => None,
    }
}

/// The warning about a token that has expired or expires within a day.
pub open spec fn expiry_warning(name: Seq<char>, e: Expiry) -> Option<Seq<char>> {
    if e.seconds_left < 0 {
        Some(name + ": JWT 已过期("@ + e.when@ + ")，请重新抓取"@)
    } else if e.seconds_left < 86400 {
        Some(name + ": JWT 将于 "@ + e.hours@ + "h 后过期("@ + e.when@ + ")，请重新抓取"@)
    } else {
        None
    }
}

fn base_fields(index: usize, uid: Json, name: &str, status: &str) -> (r: Vec<(String, Json)>)
    requires
        index <= i64::MAX,
    ensures
        json::fields(r@) == event_base(index as int, uid@, name@, status@),
{
    let mut o = json::new_fields();
    json::put(&mut o, "type", json::jstr("account"));
    json::put(&mut o, "index", json::jint(index as i64));
    json::put(&mut o, "user_id", uid);
    json::put(&mut o, "name", json::jstr(name));
    json::put(&mut o, "status", json::jstr(status));
    o
}

/// What comes of beginning an account.
pub enum Begun {
    /// It has no token: the event.
    Failed(Json),
    /// It is to be asked about.
    Ask(Current),
}

/// How an account of a round ends.
pub enum EndV {
    /// It has no token.
    NoToken,
    /// It had claimed before, by its status.
    Already(StatusV),
    /// It has claimed, with what is reported of that.
    Claimed(ClaimV, ClaimReport),
}

/// The counts and results of a round.
#[verifier::ext_equal]
pub struct TallyV {
    pub index: int,
    pub ok: int,
    pub already: int,
    pub failed: int,
    pub results: Seq<JsonV>,
}

/// The counts and results of a round, as far as it has come.
pub open spec fn tally_of(r: Round) -> TallyV {
    TallyV {
        index: r.index as int,
        ok: r.total_ok as int,
        already: r.already as int,
        failed: r.failed as int,
        results: json::items(r.results@),
    }
}

/// A round in which no account is done.
pub open spec fn no_tally() -> TallyV {
    TallyV { index: 0, ok: 0, already: 0, failed: 0, results: Seq::empty() }
}

/// The user that an account's token names.
pub open spec fn asked_user(acc: RawAccount) -> Option<Seq<char>> {
    jwt::token_user(text::trimmed(acc.jwt@))
}

/// The result of an account.
pub open spec fn result_of(acc: RawAccount, index: int, end: EndV) -> JsonV {
    let name = shown_name(acc.name@, index);
    match end {
        EndV::NoToken => no_jwt_result(or_empty(acc.user_id), name),
        EndV::Already(pre) => already_result(asked_user(acc), name, pre),
        EndV::Claimed(claim, report) => claim_result(asked_user(acc), name, claim, report),
    }
}

/// The event of an account.
pub open spec fn account_event(acc: RawAccount, index: int, end: EndV) -> JsonV {
    let name = shown_name(acc.name@, index);
    match end {
        EndV::NoToken => no_jwt_event(index, or_empty(acc.user_id), name),
        EndV::Already(pre) => already_event(index, asked_user(acc), name, pre.credits),
        EndV::Claimed(claim, report) => claim_event(index, asked_user(acc), name, claim, report),
    }
}

/// A round after its next account: counted once, with one result.
pub open spec fn tally_after(t: TallyV, acc: RawAccount, end: EndV) -> TallyV {
    let next = TallyV { index: t.index + 1, results: t.results.push(result_of(acc, t.index + 1, end)), ..t };
    match end {
        EndV::NoToken => TallyV { failed: t.failed + 1, ..next },
        EndV::Already(_) => TallyV { already: t.already + 1, ..next },
        EndV::Claimed(claim, _) => if claim.ok {
            TallyV { ok: t.ok + 1, ..next }
        } else {
            TallyV { failed: t.failed + 1, ..next }
        },
    }
}

/// A round before the account at hand was begun.
pub open spec fn unbegun(t: TallyV) -> TallyV {
    TallyV { index: t.index - 1, ..t }
}

/// Whether an account is the one at hand.
pub open spec fn is_at_hand(cur: Current, acc: RawAccount) -> bool {
    &&& cur.name@ == shown_name(acc.name@, cur.index as int)
    &&& text::opt_text(cur.user_id) == asked_user(acc)
}

/// A round after accounts, one after another.
pub open spec fn tally_of_all(accounts: Seq<RawAccount>, ends: Seq<EndV>) -> TallyV
    decreases accounts.len(),
{
    if accounts.len() == 0 || accounts.len() != ends.len() {
        no_tally()
    } else {
        tally_after(tally_of_all(accounts.drop_last(), ends.drop_last()), accounts.last(), ends.last())
    }
}

/// The events of the accounts of a round, in their order.
pub open spec fn account_events(accounts: Seq<RawAccount>, ends: Seq<EndV>) -> Seq<JsonV> {
    Seq::new(accounts.len(), |i: int| account_event(accounts[i], i + 1, ends[i]))
}

/// Whether an account has claimed, and the claim was good.
pub open spec fn ended_well(end: EndV) -> bool {
    end matches EndV::Claimed(claim, _) && claim.ok
}

/// How many accounts ended well, how many had claimed before, and how many failed.
pub open spec fn counts_of(ends: Seq<EndV>) -> (int, int, int)
    decreases ends.len(),
{
    if ends.len() == 0 {
        (0, 0, 0)
    } else {
        let (ok, already, failed) = counts_of(ends.drop_last());
        if ended_well(ends.last()) {
            (ok + 1, already, failed)
        } else if ends.last() is Already {
            (ok, already + 1, failed)
        } else {
            (ok, already, failed + 1)
        }
    }
}

/// A whole round reports every account once and in order, and its counts add up: each account has one
/// result and one event at its own place, and is counted as one that claimed, had claimed before, or
/// failed.
pub proof fn a_round_reports_every_account_once(accounts: Seq<RawAccount>, ends: Seq<EndV>)
    requires
        accounts.len() == ends.len(),
    ensures
        ({
            let t = tally_of_all(accounts, ends);
            &&& t.index == accounts.len()
            &&& (t.ok, t.already, t.failed) == counts_of(ends)
            &&& t.ok + t.already + t.failed == accounts.len()
            &&& t.ok >= 0 && t.already >= 0 && t.failed >= 0
            &&& t.results.len() == accounts.len()
            &&& forall|i: int|
                0 <= i < accounts.len() ==> #[trigger] t.results[i] == result_of(accounts[i], i + 1, ends[i])
            &&& account_events(accounts, ends).len() == accounts.len()
        }),
    decreases accounts.len(),
{
    if accounts.len() > 0 {
        let a = accounts.drop_last();
        let e = ends.drop_last();
        a_round_reports_every_account_once(a, e);
        let before = tally_of_all(a, e);
        let t = tally_of_all(accounts, ends);
        assert forall|i: int| 0 <= i < accounts.len() implies #[trigger] t.results[i] == result_of(
            accounts[i],
            i + 1,
            ends[i],
        ) by {
            if i < a.len() {
                assert(t.results[i] == before.results[i]);
                assert(a[i] == accounts[i] && e[i] == ends[i]);
            }
        }
    }
}

impl Round {
    /// A round that is about to start.
    pub fn new() -> (r: Round)
        ensures
            r.index == 0 && r.total_ok == 0 && r.already == 0 && r.failed == 0,
            json::items(r.results@) == Seq::<JsonV>::empty(),
            text::texts(r.warnings@) == Seq::<Seq<char>>::empty(),
            r.outcome.statuses@.len() == 0,
            r.outcome.error_types@.len() == 0,
            tally_of(r) == no_tally(),
            r.wf(),
    {
        let results: Vec<Json> = Vec::new();
        let warnings: Vec<String> = Vec::new();
        assert(json::items(results@) =~= Seq::empty());
        assert(text::texts(warnings@) =~= Seq::empty());
        Round {
            index: 0,
            results,
            warnings,
            total_ok: 0,
            already: 0,
            failed: 0,
            outcome: RoundOutcome { statuses: Vec::new(), error_types: Vec::new() },
        }
    }

    /// Whether every account that is done counts once, and has one result.
    pub open spec fn wf(self) -> bool {
        &&& self.index <= i64::MAX
        &&& self.results@.len() == self.total_ok + self.already + self.failed
        &&& self.results@.len() <= self.index
    }

    /// Begins the next account: one without a token fails at once.
    pub fn begin(&mut self, acc: &RawAccount) -> (r: Begun)
        requires
            old(self).wf(),
            old(self).index < i64::MAX,
            old(self).index < usize::MAX,
        ensures
            final(self).wf(),
            final(self).index == old(self).index + 1,
            final(self).total_ok == old(self).total_ok && final(self).already == old(self).already,
            final(self).warnings@ == old(self).warnings@,
            final(self).outcome.error_types@ == old(self).outcome.error_types@,
            ({
                let name = shown_name(acc.name@, final(self).index as int);
                let token = text::trimmed(acc.jwt@);
                let uid = or_empty(acc.user_id);
                if token.len() == 0 {
                    &&& r matches Begun::Failed(e) && e@ == no_jwt_event(final(self).index as int, uid, name)
                    &&& json::items(final(self).results@) == json::items(old(self).results@).push(
                        no_jwt_result(uid, name),
                    )
                    &&& final(self).failed == old(self).failed + 1
                    &&& status_is(*final(self), *old(self), uid, "fail"@)
                    &&& tally_of(*final(self)) == tally_after(tally_of(*old(self)), *acc, EndV::NoToken)
                } else {
                    &&& r matches Begun::Ask(c) && is_at_hand(c, *acc)
                    &&& unbegun(tally_of(*final(self))) == tally_of(*old(self))
                    &&& r matches Begun::Ask(c) && c.index == final(self).index && c.name@ == name && c.jwt@ == token
                        && text::opt_text(c.user_id) == jwt::token_user(token) && opt_int(c.exp_timestamp)
                        == jwt::token_expiry(token)
                    &&& final(self).results@ == old(self).results@
                    &&& final(self).failed == old(self).failed
                    &&& final(self).outcome.statuses@ == old(self).outcome.statuses@
                }
            }),
    {
        self.index = self.index + 1;
        let name = if acc.name.as_str().unicode_len() == 0 {
            text::cat("账号", digits::number(self.index as u64).as_str())
        } else {
            acc.name.clone()
        };
        let token = text::trim(acc.jwt.as_str());
        if token.as_str().unicode_len() == 0 {
            let uid = text_or_empty(&acc.user_id);
            let mut rec = json::new_fields();
            json::put(&mut rec, "name", json::jstr(name.as_str()));
            json::put(&mut rec, "user_id", json::jstr(uid));
            json::put(&mut rec, "ok", Json::Bool(false));
            json::put(&mut rec, "message", json::jstr("未配置 jwt"));
            json::push_item(&mut self.results, json::object(rec));
            proof {
                assert(json::items(self.results@).len() == self.results@.len());
                assert(json::items(old(self).results@).len() == old(self).results@.len());
            }
            self.failed = self.failed + 1;
            assoc::set(&mut self.outcome.statuses, uid, "fail");
            let mut ev = base_fields(self.index, json::jstr(uid), name.as_str(), "fail");
            json::put(&mut ev, "message", json::jstr("未配置 jwt"));
            return Begun::Failed(json::object(ev));
        }
        let claims = jwt::parse(token.as_str());
        Begun::Ask(
            Current {
                index: self.index,
                name,
                jwt: token,
                user_id: claims.user_id,
                exp_timestamp: claims.exp_timestamp,
            },
        )
    }

    /// Takes in how long the token at hand is good for.
    pub fn note_expiry(&mut self, cur: &Current, expiry: &Expiry)
        requires
            old(self).wf(),
        ensures
            final(self).wf(),
            text::texts(final(self).warnings@) == match expiry_warning(cur.name@, *expiry) {
                Some(w) => text::texts(old(self).warnings@).push(w),
                None => text::texts(old(self).warnings@),
            },
            final(self).results@ == old(self).results@,
            final(self).index == old(self).index,
            final(self).total_ok == old(self).total_ok && final(self).already == old(self).already && final(self).failed
                == old(self).failed,
            final(self).outcome == old(self).outcome,
    {
        let ghost before = text::texts(self.warnings@);
        if expiry.seconds_left < 0 {
            let mut w = text::cat3(cur.name.as_str(), ": JWT 已过期(", expiry.when.as_str());
            w.append(")，请重新抓取");
            self.warnings.push(w);
            assert(text::texts(self.warnings@) =~= before.push(w@));
        } else if expiry.seconds_left < 86400 {
            let mut w = text::cat3(cur.name.as_str(), ": JWT 将于 ", expiry.hours.as_str());
            w.append("h 后过期(");
            w.append(expiry.when.as_str());
            w.append(")，请重新抓取");
            self.warnings.push(w);
            assert(text::texts(self.warnings@) =~= before.push(w@));
        }
    }

    /// The account at hand had claimed before: the event, where it had; nothing where it has to
    /// claim.
    pub fn take_status(&mut self, cur: &Current, pre: &StatusOutcome) -> (r: Option<Json>)
        requires
            old(self).wf(),
            old(self).results@.len() < old(self).index,
            cur.index <= i64::MAX,
        ensures
            final(self).wf(),
            final(self).index == old(self).index,
            final(self).warnings@ == old(self).warnings@,
            final(self).total_ok == old(self).total_ok && final(self).failed == old(self).failed,
            final(self).outcome.error_types@ == old(self).outcome.error_types@,
            ({
                let uid = text::opt_text(cur.user_id);
                if pre.ok && pre.checked_in == Some(true) {
                    &&& r matches Some(e) && e@ == already_event(cur.index as int, uid, cur.name@, pre@.credits)
                    &&& json::items(final(self).results@) == json::items(old(self).results@).push(
                        already_result(uid, cur.name@, pre@),
                    )
                    &&& final(self).already == old(self).already + 1
                    &&& status_is(*final(self), *old(self), or_empty(cur.user_id), "already"@)
                    &&& forall|acc: RawAccount| #[trigger]
                        is_at_hand(*cur, acc) && cur.index == old(self).index ==> tally_of(*final(self))
                            == tally_after(unbegun(tally_of(*old(self))), acc, EndV::Already(pre@))
                } else {
                    &&& r is None
                    &&& final(self).results@ == old(self).results@
                    &&& final(self).already == old(self).already
                    &&& final(self).outcome.statuses@ == old(self).outcome.statuses@
                }
            }),
    {
        let done = match pre.checked_in {
            Some(b) => b,
            None => false,
        };
        if !(pre.ok && done) {
            return None;
        }
        let mut rec = json::new_fields();
        json::put(&mut rec, "name", json::jstr(cur.name.as_str()));
        json::put(&mut rec, "user_id", json::jopt(&cur.user_id));
        json::put(&mut rec, "ok", Json::Bool(true));
        json::put(&mut rec, "code", json::jint(0));
        json::put(&mut rec, "action", json::jstr("skip_already"));
        json::put(&mut rec, "credits", json::jint_or_null(pre.credits));
        let message = if pre.message.as_str().unicode_len() == 0 {
            "已签到".to_owned()
        } else {
            pre.message.clone()
        };
        json::put(&mut rec, "message", json::jstr(message.as_str()));
        json::push_item(&mut self.results, json::object(rec));
        proof {
            assert(json::items(self.results@).len() == self.results@.len());
            assert(json::items(old(self).results@).len() == old(self).results@.len());
        }
        self.already = self.already + 1;
        assoc::set(&mut self.outcome.statuses, text_or_empty(&cur.user_id), "already");
        let mut ev = base_fields(cur.index, json::jopt(&cur.user_id), cur.name.as_str(), "already");
        json::put(&mut ev, "credits", json::jint_or_null(pre.credits));
        Some(json::object(ev))
    }

    /// The account at hand has claimed: the event.
    pub fn take_claim(&mut self, cur: &Current, claim: &ClaimOutcome, report: &ClaimReport) -> (r: Json)
        requires
            old(self).wf(),
            old(self).results@.len() < old(self).index,
            cur.index <= i64::MAX,
        ensures
            final(self).wf(),
            final(self).index == old(self).index,
            final(self).warnings@ == old(self).warnings@,
            final(self).already == old(self).already,
            r@ == claim_event(cur.index as int, text::opt_text(cur.user_id), cur.name@, claim@, *report),
            json::items(final(self).results@) == json::items(old(self).results@).push(
                claim_result(text::opt_text(cur.user_id), cur.name@, claim@, *report),
            ),
            final(self).total_ok == old(self).total_ok + if claim.ok {
                1int
            } else {
                0
            },
            final(self).failed == old(self).failed + if claim.ok {
                0int
            } else {
                1
            },
            status_is(
                *final(self),
                *old(self),
                or_empty(cur.user_id),
                if claim.ok {
                    "success"@
                } else {
                    "fail"@
                },
            ),
            match report.error_type {
                Some(t) => error_type_of(*final(self), or_empty(cur.user_id)) == Some(t@) && forall|u: Seq<char>|
                    u != or_empty(cur.user_id) ==> #[trigger] error_type_of(*final(self), u) == error_type_of(
                        *old(self),
                        u,
                    ),
                None => final(self).outcome.error_types@ == old(self).outcome.error_types@,
            },
    {
        let status = if claim.ok {
            "success"
        } else {
            "fail"
        };
        let mut rec = json::new_fields();
        json::put(&mut rec, "name", json::jstr(cur.name.as_str()));
        json::put(&mut rec, "user_id", json::jopt(&cur.user_id));
        json::put(&mut rec, "ok", Json::Bool(claim.ok));
        json::put(&mut rec, "code", json::jint_or_null(claim.code));
        json::put(&mut rec, "message", json::jstr(claim.message.as_str()));
        json::put(
            &mut rec,
            "action",
            json::jstr(
                if claim.ok {
                    "claim_ok"
                } else {
                    "claim"
                },
            ),
        );
        if let Some(n) = report.credits {
            json::put(&mut rec, "credits", json::jint(n));
            json::put(&mut rec, "credits_delta", json::jint(report.delta));
        }
        json::push_item(&mut self.results, json::object(rec));
        proof {
            assert(json::items(self.results@).len() == self.results@.len());
            assert(json::items(old(self).results@).len() == old(self).results@.len());
        }
        if claim.ok {
            self.total_ok = self.total_ok + 1;
        } else {
            self.failed = self.failed + 1;
        }
        let uid = text_or_empty(&cur.user_id);
        if let Some(t) = &report.error_type {
            let ghost before = self.outcome.error_types@;
            assoc::set(&mut self.outcome.error_types, uid, t.clone());
            proof {
                assert forall|u: Seq<char>| u != uid@ implies #[trigger] error_type_of(*self, u) == error_type_of(
                    *old(self),
                    u,
                ) by {
                    assert(assoc::lookup(self.outcome.error_types@, u) == assoc::lookup(before, u));
                }
            }
        }
        assoc::set(&mut self.outcome.statuses, uid, status);
        let mut ev = base_fields(cur.index, json::jopt(&cur.user_id), cur.name.as_str(), status);
        json::put(&mut ev, "code", json::jint_or_null(claim.code));
        json::put(&mut ev, "message", json::jstr(claim.message.as_str()));
        json::put(&mut ev, "credits", json::jint_or_null(report.credits));
        let delta = if report.delta != 0 {
            json::jint(report.delta)
        } else {
            Json::Null
        };
        json::put(&mut ev, "delta", delta);
        json::put(&mut ev, "error_type", json::jopt(&report.error_type));
        json::put(&mut ev, "cooldown_until", json::jint_or_null(report.cooldown_until));
        json::object(ev)
    }

    /// The event that closes the round.
    pub fn done_event(&self) -> (r: Json)
        requires
            self.wf(),
        ensures
            r@ == done_event_of(self.total_ok as int, self.already as int, self.failed as int),
    {
        let mut o = json::new_fields();
        json::put(&mut o, "type", json::jstr("done"));
        json::put(&mut o, "ok", json::jint(self.total_ok as i64));
        json::put(&mut o, "already", json::jint(self.already as i64));
        json::put(&mut o, "failed", json::jint(self.failed as i64));
        json::object(o)
    }

    /// The line of the round in the log.
    pub fn log_line(&self, now: &str, total: usize) -> (r: String)
        ensures
            r@ == round_line(
                now@,
                self.total_ok as int,
                self.already as int,
                self.failed as int,
                total as int,
                text::texts(self.warnings@),
            ),
    {
        let mut r = text::cat3("[", now, "] 成功");
        r.append(digits::number(self.total_ok as u64).as_str());
        r.append("/已签到");
        r.append(digits::number(self.already as u64).as_str());
        r.append("/失败");
        r.append(digits::number(self.failed as u64).as_str());
        r.append("/总计");
        r.append(digits::number(total as u64).as_str());
        let ghost a = r@;
        assert(text::texts(self.warnings@).len() == self.warnings@.len());
        if self.warnings.len() > 0 {
            r.append(" | 告警: ");
            r.append(text::join(&self.warnings, "; ").as_str());
            assert(r@ =~= a + (" | 告警: "@ + text::joined(text::texts(self.warnings@), "; "@)));
        } else {
            assert(r@ =~= a + Seq::<char>::empty());
        }
        r.append("\n");
        r
    }
}

/// The line of a round in the log.
pub open spec fn round_line(
    now: Seq<char>,
    ok: int,
    already: int,
    failed: int,
    total: int,
    warnings: Seq<Seq<char>>,
) -> Seq<char> {
    "["@ + now + "] 成功"@ + digits::decimal(ok) + "/已签到"@ + digits::decimal(already) + "/失败"@ + digits::decimal(
        failed,
    ) + "/总计"@ + digits::decimal(total) + (if warnings.len() > 0 {
        " | 告警: "@ + text::joined(warnings, "; "@)
    } else {
        Seq::empty()
    }) + "\n"@
}

/// What became of a user.
pub open spec fn status_of_user(r: Round, uid: Seq<char>) -> Option<Seq<char>> {
    match assoc::lookup(r.outcome.statuses@, uid) {
        Some(s) => Some(s@),
        None => None,
    }
}

/// The kind of a user's error.
pub open spec fn error_type_of(r: Round, uid: Seq<char>) -> Option<Seq<char>> {
    match assoc::lookup(r.outcome.error_types@, uid) {
        Some(s) => Some(s@),
        None => None,
    }
}

/// Whether what became of a user is set, and of every other user as it was.
pub open spec fn status_is(after: Round, before: Round, uid: Seq<char>, status: Seq<char>) -> bool {
    status_of_user(after, uid) == Some(status) && forall|u: Seq<char>|
        u != uid ==> #[trigger] assoc::lookup(after.outcome.statuses@, u) == assoc::lookup(
            before.outcome.statuses@,
            u,
        )
}

/// What is reported of a claim that failed: the kind of its error and until when the account
/// rests. An error of no known kind is not reported.
pub fn failure_report(claim: &ClaimOutcome, until: Option<i64>) -> (r: ClaimReport)
    ensures
        r.credits is None && r.delta == 0,
        ({
            let (kind, _) = error_of(claim@.http_status, claim@.code);
            if kind == "Unknown"@ {
                r.error_type is None && r.cooldown_until is None
            } else {
                text::opt_text(r.error_type) == Some(kind) && r.cooldown_until == Some(
                    match until {
                        Some(t) => t,
                        None => 0,
                    },
                )
            }
        }),
{
    let (kind, _secs) = classify_error(claim.http_status, claim.code);
    if text::same(kind, "Unknown") {
        ClaimReport { credits: None, delta: 0, error_type: None, cooldown_until: None }
    } else {
        ClaimReport {
            credits: None,
            delta: 0,
            error_type: Some(kind.to_owned()),
            cooldown_until: Some(
                match until {
                    Some(t) => t,
                    None => 0,
                },
            ),
        }
    }
}

/// What is reported of a claim that was good: the credits and what was added.
pub fn success_report(credits: Option<i64>, delta: i64) -> (r: ClaimReport)
    ensures
        r.credits == credits && r.delta == delta && r.error_type is None && r.cooldown_until is None,
{
    ClaimReport { credits, delta, error_type: None, cooldown_until: None }
}

/// What is to be done once an account has claimed.
pub struct Settled {
    pub report: ClaimReport,
    /// The event of the account.
    pub event: Json,
    /// The credits and what was added, where they go into the history.
    pub history: Option<(i64, i64)>,
    /// Whether the rests of the accounts have to be written.
    pub rests_changed: bool,
}

/// Whether a claim is settled as it has to be: a good one ends the account's rest and is reported
/// with its credits, a bad one begins a rest by the kind of its error, and one of no known kind
/// changes nothing.
pub open spec fn is_settled(
    s: Settled,
    claim: ClaimV,
    before: Option<int>,
    recheck: Option<(bool, Option<int>)>,
    rest_before: Option<CooldownV>,
    rest_now: Option<CooldownV>,
    now: int,
) -> bool {
    let (kind, seconds) = error_of(claim.http_status, claim.code);
    if claim.ok {
        let (credits, delta, _) = credits_of(reward_of(claim.data), before, recheck);
        &&& rest_now is None
        &&& s.rests_changed
        &&& opt_int(s.report.credits) == credits
        &&& s.report.delta == delta
        &&& s.report.error_type is None && s.report.cooldown_until is None
        &&& match credits {
            Some(c) => s.history matches Some((c1, d)) && c1 == c && d == delta,
            None => s.history is None,
        }
    } else if kind == "Unknown"@ {
        &&& rest_now == rest_before
        &&& !s.rests_changed
        &&& s.report.credits is None && s.report.delta == 0
        &&& s.report.error_type is None && s.report.cooldown_until is None
        &&& s.history is None
    } else {
        &&& rest_now == rest_after(rest_before, kind, seconds, claim.message, now)
        &&& s.rests_changed
        &&& s.report.credits is None && s.report.delta == 0
        &&& text::opt_text(s.report.error_type) == Some(kind)
        &&& opt_int(s.report.cooldown_until) == Some(
            match rest_now {
                Some(e) => e.until,
                None => 0,
            },
        )
        &&& s.history is None
    }
}

impl Round {
    /// Settles the account at hand after its claim. `before` is the balance before the claim, and
    /// `recheck` what the status came to when it was asked for again.
    pub fn settle(
        &mut self,
        cur: &Current,
        claim: &ClaimOutcome,
        before: Option<i64>,
        recheck: Option<(bool, Option<i64>)>,
        rests: &mut Vec<(String, CooldownEntry)>,
        now: i64,
    ) -> (r: Settled)
        requires
            old(self).wf(),
            old(self).results@.len() < old(self).index,
            cur.index <= i64::MAX,
            !claim.ok && is_counted(error_of(claim@.http_status, claim@.code).0) ==> (rest_of(
                old(rests)@,
                or_empty(cur.user_id),
            ) matches Some(e) ==> e.error_count < u32::MAX),
            i64::MIN < now <= i64::MAX - 43200,
            before matches Some(b) ==> (recheck matches Some((_, Some(a))) ==> i64::MIN <= a - b <= i64::MAX),
        ensures
            is_settled(
                r,
                claim@,
                opt_int(before),
                opt_recheck(recheck),
                rest_of(old(rests)@, or_empty(cur.user_id)),
                rest_of(final(rests)@, or_empty(cur.user_id)),
                now as int,
            ),
            forall|u: Seq<char>|
                u != or_empty(cur.user_id) ==> #[trigger] rest_of(final(rests)@, u) == rest_of(old(rests)@, u),
            forall|acc: RawAccount| #[trigger]
                is_at_hand(*cur, acc) && cur.index == old(self).index ==> tally_of(*final(self)) == tally_after(
                    unbegun(tally_of(*old(self))),
                    acc,
                    EndV::Claimed(claim@, r.report),
                ),
            r.event@ == claim_event(cur.index as int, text::opt_text(cur.user_id), cur.name@, claim@, r.report),
            json::items(final(self).results@) == json::items(old(self).results@).push(
                claim_result(text::opt_text(cur.user_id), cur.name@, claim@, r.report),
            ),
            final(self).wf(),
            final(self).index == old(self).index,
            final(self).warnings@ == old(self).warnings@,
            final(self).already == old(self).already,
            final(self).total_ok == old(self).total_ok + if claim.ok {
                1int
            } else {
                0
            },
            final(self).failed == old(self).failed + if claim.ok {
                0int
            } else {
                1
            },
            status_is(
                *final(self),
                *old(self),
                or_empty(cur.user_id),
                if claim.ok {
                    "success"@
                } else {
                    "fail"@
                },
            ),
            match r.report.error_type {
                Some(t) => error_type_of(*final(self), or_empty(cur.user_id)) == Some(t@),
                None => error_type_of(*final(self), or_empty(cur.user_id)) == error_type_of(
                    *old(self),
                    or_empty(cur.user_id),
                ),
            },
            forall|u: Seq<char>|
                u != or_empty(cur.user_id) ==> #[trigger] error_type_of(*final(self), u) == error_type_of(
                    *old(self),
                    u,
                ),
    {
        let uid = text_or_empty(&cur.user_id);
        if claim.ok {
            clear_cooldown(rests, uid);
            let (credits, delta, _source) = resolve_claim_credits(claim.data.as_ref(), before, recheck);
            let report = success_report(credits, delta);
            let event = self.take_claim(cur, claim, &report);
            let history = match credits {
                Some(c) => Some((c, delta)),
                None => None,
            };
            Settled { report, event, history, rests_changed: true }
        } else {
            let (kind, seconds) = classify_error(claim.http_status, claim.code);
            let known = !text::same(kind, "Unknown");
            let mut until: Option<i64> = None;
            if known {
                save_cooldown(rests, uid, kind, seconds, claim.message.as_str(), now);
                until = match assoc::find(rests, uid) {
                    Some(e) => Some(e.until),
                    None => None,
                };
            }
            let report = failure_report(claim, until);
            let event = self.take_claim(cur, claim, &report);
            Settled { report, event, history: None, rests_changed: known }
        }
    }
}

// ---- what holds of the check-in ----

/// A status is read from its fields: it is good exactly where its code is 0, says whether credits were
/// claimed where it says so, and names the balance where that is a whole number.
pub proof fn a_status_is_read_from_its_fields(status: u16, data: JsonV)
    ensures
        ({
            let s = status_of(status, data);
            &&& s.ok == (data.int_at("code"@) == Some(0int))
            &&& data.get("checked_in"@) is None ==> s.checked_in is None
            &&& data.get("checked_in"@) matches Some(JsonV::Bool(b)) ==> s.checked_in == Some(b)
            &&& data.get("checked_in"@) matches Some(JsonV::Num(NumV::Pos(n))) ==> s.checked_in == Some(n != 0)
            &&& data.get("checked_in"@) matches Some(JsonV::Str(t)) ==> s.checked_in == Some(t.len() > 0)
            &&& data.get("checked_in"@) == Some(JsonV::Null) ==> s.checked_in == Some(false)
            &&& data.get("credits"@) is None ==> s.credits is None
            &&& data.get("credits"@) matches Some(JsonV::Num(NumV::Pos(n))) ==> n <= i64::MAX ==> s.credits == Some(
                n as int,
            )
            &&& data.get("message"@) matches Some(JsonV::Str(m)) ==> m.len() > 0 ==> s.message == m
            &&& !s.ok && data.get("message"@) is None ==> s.message == "HTTP "@ + digits::decimal(status as int)
        }),
{
    reveal_strlit("");
}

/// A whole number that is not below zero is that number, also where it stands in a text; one below zero
/// or with a fraction is none.
pub proof fn whole_numbers_are_read(n: u64, i: i64, b: u64)
    ensures
        n <= i64::MAX ==> whole_of(JsonV::Num(NumV::Pos(n))) == Some(n as int),
        n <= i64::MAX ==> whole_of(JsonV::Str(digits::decimal(n as int))) == Some(n as int),
        i < 0 ==> whole_of(JsonV::Num(NumV::Neg(i))) is None,
        i < 0 ==> whole_of(JsonV::Str(digits::decimal(i as int))) is None,
        floats::has_fraction(b) ==> whole_of(JsonV::Num(NumV::Flt(b))) is None,
        !floats::has_fraction(b) && !floats::negative(b) && floats::whole_part(b) <= i64::MAX ==> whole_of(
            JsonV::Num(NumV::Flt(b)),
        ) == Some(floats::whole_part(b)),
        whole_of(JsonV::Null) is None,
{
    digits::decimals_read_back(n as int);
    digits::decimals_read_back(i as int);
    text::trimming_leaves_the_rest(Seq::empty(), digits::decimal(n as int), Seq::empty());
    text::trimming_leaves_the_rest(Seq::empty(), digits::decimal(i as int), Seq::empty());
}

/// Numbers other than zero, texts and lists that are not empty, and objects hold; null, zero and what is
/// empty do not.
pub proof fn what_is_there_holds(n: u64, s: Seq<char>, a: Seq<JsonV>, o: Seq<(Seq<char>, JsonV)>, b: bool)
    ensures
        !is_truthy(JsonV::Null),
        is_truthy(JsonV::Bool(b)) == b,
        is_truthy(JsonV::Num(NumV::Pos(n))) == (n > 0),
        is_truthy(JsonV::Str(s)) == (s.len() > 0),
        is_truthy(JsonV::Arr(a)) == (a.len() > 0),
        is_truthy(JsonV::Obj(o)),
{
}

/// A claim is good exactly where the answer is an object with code 0; its code, status, message and data
/// are those of the answer. One that did not get through has no code, and is the only kind without a code
/// and a status.
pub proof fn a_claim_is_what_was_answered(status: u16, raw: String, error: String)
    ensures
        ({
            let c = claim_reply(Post::Answer(status, raw));
            &&& c.http_status == status
            &&& c.ok == (c.code == Some(0int))
            &&& json::json_read(raw@) matches Ok(JsonV::Obj(o)) ==> {
                &&& c.data == Some(JsonV::Obj(o))
                &&& c.code == JsonV::Obj(o).int_at("code"@)
                &&& JsonV::Obj(o).get("message"@) matches Some(JsonV::Str(m)) ==> c.message == m
                &&& JsonV::Obj(o).get("message"@) is None ==> c.message == "HTTP "@ + digits::decimal(status as int)
            }
            &&& json::json_read(raw@) is Err ==> !c.ok && c.data is None && c.code is None
        }),
        ({
            let c = claim_reply(Post::Failed(error));
            &&& !c.ok && c.code is None && c.data is None && c.http_status == 0
            &&& error@.len() > 0 ==> c.message == error@
            &&& error@.len() == 0 ==> c.message == "网络异常"@
        }),
{
}

/// An error has its kind and its rest by status and code: the daily limit rests for twelve hours, too many
/// requests and a missing page for a minute, errors of the server and of the request for ten minutes,
/// other codes for five, and a dead session for good. What says nothing of an error rests not at all.
pub proof fn errors_have_their_kinds(status: int, code: Option<int>)
    ensures
        status == 200 && code == Some(1005int) ==> error_of(status, code) == ("PlanLimit"@, 12 * 3600int),
        status == 429 ==> error_of(status, code) == ("SoftRate"@, 60int),
        status == 401 ==> error_of(status, code) == ("SessionDead"@, -1int),
        status == 404 ==> error_of(status, code) == ("NotFound"@, 60int),
        500 <= status <= 599 ==> error_of(status, code) == ("Server"@, 10 * 60int),
        400 <= status <= 499 && status != 401 && status != 404 && status != 429 ==> error_of(status, code) == (
            "Client"@,
            10 * 60int,
        ),
        (status < 400 || status > 599) && code is Some && code != Some(0int) && !(status == 200 && code == Some(
            1005int,
        )) ==> error_of(status, code) == ("BusinessError"@, 5 * 60int),
        (status < 400 || status > 599) && (code is None || code == Some(0int)) ==> error_of(status, code) == (
            "Unknown"@,
            0int,
        ),
{
}

/// A rest keeps the kind of its error and why, and lasts from now on for as long as the error says: for
/// good where it says so, and not at all where it says nothing. Only errors of the server and of the
/// request are counted first.
pub proof fn a_rest_lasts_as_long_as_the_error_says(
    before: Option<CooldownV>,
    error_type: Seq<char>,
    seconds: int,
    reason: Seq<char>,
    now: int,
)
    ensures
        ({
            let r = rest_after(before, error_type, seconds, reason, now);
            &&& seconds == 0 ==> r is None
            &&& r matches Some(e) ==> e.error_type == error_type && e.reason == reason
            &&& seconds == -1 ==> (r matches Some(e) && e.until == 9_999_999_999 && e.error_count == 0)
            &&& seconds > 0 && error_type != "Server"@ && error_type != "Client"@ ==> (r matches Some(e) && e.until
                == now + seconds && e.error_count == 0)
            &&& seconds > 0 && (error_type == "Server"@ || error_type == "Client"@) && (before matches Some(b)
                && b.error_count >= 2) ==> (r matches Some(e) && e.until == now + seconds && e.error_count == 0)
            &&& seconds > 0 && (error_type == "Server"@ || error_type == "Client"@) && before is None ==> (r matches Some(
                e,
            ) && e.until == 0 && e.error_count == 1)
        }),
{
}

/// What a claim brought is the reward that it names; else by how much the balance grew, where it did not
/// fall; else the balance before. The balance is the one that was asked for last.
pub proof fn credits_are_the_reward_or_the_growth(reward: int, before: int, after: int)
    ensures
        credits_of(Some(reward), Some(before), None) == (Some(before), reward, CreditSource::ClaimReward),
        credits_of(Some(reward), Some(before), Some((true, Some(after)))) == (
            Some(before),
            reward,
            CreditSource::ClaimReward,
        ),
        credits_of(Some(reward), None, None) == (None::<int>, reward, CreditSource::ClaimReward),
        after >= before ==> credits_of(None, Some(before), Some((true, Some(after)))) == (
            Some(after),
            after - before,
            CreditSource::BalanceDiff,
        ),
        after < before ==> credits_of(None, Some(before), Some((true, Some(after)))) == (
            Some(before),
            before,
            CreditSource::Legacy,
        ),
        credits_of(None, Some(before), None) == (Some(before), before, CreditSource::Legacy),
        credits_of(None, Some(before), Some((false, Some(after)))) == (Some(before), before, CreditSource::Legacy),
        credits_of(None, None, None) == (None::<int>, 0int, CreditSource::Legacy),
{
}

/// The records that are kept are those from the cutoff day on, in their order.
pub proof fn kept_records_are_those_from_the_cutoff_on(records: Seq<JsonV>, cutoff: Seq<char>)
    ensures
        recent(records, cutoff) == records.filter(
            |r: JsonV|
                !json::before(
                    match r.get("date"@) {
                        Some(JsonV::Str(d)) => d,
                        _ => ""@,
                    },
                    cutoff,
                ),
        ),
    decreases records.len(),
{
    reveal(Seq::filter);
    if records.len() > 0 {
        kept_records_are_those_from_the_cutoff_on(records.drop_last(), cutoff);
    }
}

/// A history keeps its other fields, and the new record stands behind those that are kept.
pub proof fn a_new_record_stands_last(o: Seq<(Seq<char>, JsonV)>, record: JsonV, cutoff: Seq<char>, other: Seq<char>)
    requires
        other != "records"@,
    ensures
        history_after(JsonV::Obj(o), record, cutoff).get(other) == JsonV::Obj(o).get(other),
        JsonV::Obj(o).get("records"@) matches Some(JsonV::Arr(a)) ==> (is_recent(record, cutoff) ==> history_after(
            JsonV::Obj(o),
            record,
            cutoff,
        ).get("records"@) == Some(JsonV::Arr(recent(a, cutoff).push(record)))),
        JsonV::Obj(o).get("records"@) is None ==> history_after(JsonV::Obj(o), record, cutoff).get("records"@) == Some(
            JsonV::Arr(seq![record]),
        ),
{
    broadcast use json::lemma_set_then_get;

    if let Some(JsonV::Arr(a)) = JsonV::Obj(o).get("records"@) {
        assert(a.push(record).drop_last() =~= a);
    }
}

/// The earlier results that survive are those of users, or of names where there is no user, that none of
/// the new ones has; they keep their order.
pub proof fn survivors_are_those_not_asked_again(new: Seq<JsonV>, old: Seq<JsonV>)
    ensures
        survivors(new, old) == old.filter(
            |r: JsonV|
                match r.get("user_id"@) {
                    Some(JsonV::Str(u)) => if u.len() > 0 {
                        !has_user(new, u)
                    } else {
                        !has_name(new, text_or_blank(r, "name"@))
                    },
                    _ => !has_name(new, text_or_blank(r, "name"@)),
                },
        ),
    decreases old.len(),
{
    reveal(Seq::filter);
    if old.len() > 0 {
        survivors_are_those_not_asked_again(new, old.drop_last());
    }
}

/// The counts of a day are those of its results: how many are good, and how many had claimed before.
pub proof fn counts_are_those_of_the_results(results: Seq<JsonV>)
    ensures
        count_ok(results) == results.filter(|r: JsonV| r.get("ok"@) == Some(JsonV::Bool(true))).len(),
        count_already(results) == results.filter(
            |r: JsonV| r.get("action"@) == Some(JsonV::Str("skip_already"@)),
        ).len(),
        0 <= count_ok(results) <= results.len(),
    decreases results.len(),
{
    reveal(Seq::filter);
    if results.len() > 0 {
        counts_are_those_of_the_results(results.drop_last());
    }
}

/// A token is warned about exactly where it has expired or expires within a day, and the warning names the
/// account first.
pub proof fn expiring_tokens_are_warned_about(name: Seq<char>, e: Expiry)
    ensures
        expiry_warning(name, e) is Some == (e.seconds_left < 24 * 3600),
        expiry_warning(name, e) matches Some(w) ==> text::has_prefix(w, name),
        e.seconds_left < 0 ==> expiry_warning(name, e) == Some(name + ": JWT 已过期("@ + e.when@ + ")，请重新抓取"@),
        0 <= e.seconds_left < 24 * 3600 ==> expiry_warning(name, e) == Some(
            name + ": JWT 将于 "@ + e.hours@ + "h 后过期("@ + e.when@ + ")，请重新抓取"@,
        ),
{
    if let Some(w) = expiry_warning(name, e) {
        assert(w.take(name.len() as int) =~= name);
    }
}

/// A request is authorised with the account's own token behind its word, and carries the identifiers of
/// the account's device and those made up for it.
pub proof fn requests_carry_token_and_device(jwt: Seq<char>, dev: Device, request_id: Seq<char>, trace_id: Seq<char>)
    ensures
        ({
            let h = request_headers(jwt, dev, request_id, trace_id);
            &&& h.len() == 20
            &&& text::has_prefix(jwt, "Cloud-IDE-JWT "@) ==> h.contains(("authorization"@, jwt))
            &&& !text::has_prefix(jwt, "Cloud-IDE-JWT "@) ==> h.contains(
                ("authorization"@, "Cloud-IDE-JWT "@ + text::trimmed(jwt)),
            )
            &&& h.contains(("x-device-id"@, dev.device_id@))
            &&& dev.market_user_id matches Some(m) ==> h.contains(("x-market-user-id"@, m@))
            &&& dev.session_id matches Some(s) ==> h.contains(("vscode-sessionid"@, s@))
            &&& h.contains(("x-request-id"@, request_id))
            &&& h.contains(("x-tt-trace-id"@, "00-"@ + trace_id + "-01"@))
            &&& h.contains(("content-type"@, "application/json"@))
        }),
{
    let h = request_headers(jwt, dev, request_id, trace_id);
    assert(h[2].0 == "authorization"@ && h[3].0 == "content-type"@);
    assert(h[6].0 == "x-market-user-id"@ && h[8].0 == "x-device-id"@ && h[11].0 == "x-request-id"@);
    assert(h[15].0 == "x-tt-trace-id"@ && h[16].0 == "vscode-sessionid"@);
}

/// The device of a user is the one of the user's own record, and a record without a device is none.
pub proof fn devices_are_those_of_their_users(map: JsonV, uid: Seq<char>)
    ensures
        mapped_device(map, uid) matches Some(r) ==> map.get(uid) == Some(r) && (r.text_at("device_id"@) matches Some(
            d,
        ) && d.len() > 0),
        map.get(uid) is None ==> mapped_device(map, uid) is None,
        map.get(uid) matches Some(r) ==> r.get("device_id"@) is None ==> mapped_device(map, uid) is None,
        map.get(uid) matches Some(r) ==> (r.get("device_id"@) matches Some(JsonV::Str(d)) ==> d.len() > 0 && r.get(
            "market_user_id"@,
        ) is None && r.get("session_id"@) is None ==> mapped_device(map, uid) == Some(r)),
{
}

/// A record of a device holds its identifiers.
pub proof fn a_device_is_recorded(dev: Device)
    ensures
        device_record(dev).get("device_id"@) == Some(JsonV::Str(dev.device_id@)),
        device_record(dev).get("market_user_id"@) == Some(json::str_or_null(text::opt_text(dev.market_user_id))),
        device_record(dev).get("session_id"@) == Some(json::str_or_null(text::opt_text(dev.session_id))),
        forall|k: Seq<char>| k != "device_id"@ && k != "market_user_id"@ && k != "session_id"@ ==> (#[trigger] device_record(dev).get(k)) is None,
{
    broadcast use json::lemma_set_then_get;

    reveal_strlit("device_id");
    reveal_strlit("market_user_id");
    reveal_strlit("session_id");
    assert("device_id"@.len() == 9 && "market_user_id"@.len() == 14 && "session_id"@.len() == 10);
}

/// A record of credits holds the day, the user, the balance and what was added.
pub proof fn credits_are_recorded(today: Seq<char>, uid: Seq<char>, credits: int, delta: int)
    ensures
        credit_record(today, uid, credits, delta).get("date"@) == Some(JsonV::Str(today)),
        credit_record(today, uid, credits, delta).get("user_id"@) == Some(JsonV::Str(uid)),
        credit_record(today, uid, credits, delta).get("credits"@) == Some(json::int_v(credits)),
        credit_record(today, uid, credits, delta).get("delta"@) == Some(json::int_v(delta)),
        forall|k: Seq<char>| k != "date"@ && k != "user_id"@ && k != "credits"@ && k != "delta"@ ==> (#[trigger] credit_record(today, uid, credits, delta).get(k)) is None,
{
    broadcast use json::lemma_set_then_get;

    reveal_strlit("date");
    reveal_strlit("user_id");
    reveal_strlit("credits");
    reveal_strlit("delta");
    assert("date"@.len() == 4 && "user_id"@.len() == 7 && "credits"@.len() == 7);
    assert("delta"@.len() == 5);
    assert("user_id"@[0] != "credits"@[0]);
}

/// The summary of a day holds its results and warnings, and counts that add up to the results.
pub proof fn a_day_is_summed_up(now: Seq<char>, results: Seq<JsonV>, warnings: Seq<Seq<char>>)
    ensures
        day_summary(now, results, warnings).get("time"@) == Some(JsonV::Str(now)),
        day_summary(now, results, warnings).get("results"@) == Some(JsonV::Arr(results)),
        day_summary(now, results, warnings).get("total_ok"@) == Some(json::int_v(count_ok(results))),
        day_summary(now, results, warnings).get("already"@) == Some(json::int_v(count_already(results))),
        day_summary(now, results, warnings).get("failed"@) == Some(json::int_v(results.len() - count_ok(results))),
        day_summary(now, results, warnings).get("warnings"@) == Some(JsonV::Arr(warnings.map_values(|t: Seq<char>| JsonV::Str(t)))),
        forall|k: Seq<char>| k != "time"@ && k != "results"@ && k != "total_ok"@ && k != "already"@ && k != "failed"@ && k != "warnings"@ ==> (#[trigger] day_summary(now, results, warnings).get(k)) is None,
{
    broadcast use json::lemma_set_then_get;

    reveal_strlit("time");
    reveal_strlit("results");
    reveal_strlit("total_ok");
    reveal_strlit("already");
    reveal_strlit("failed");
    reveal_strlit("warnings");
    assert("time"@.len() == 4 && "results"@.len() == 7 && "total_ok"@.len() == 8);
    assert("already"@.len() == 7 && "failed"@.len() == 6 && "warnings"@.len() == 8);
    assert("results"@[0] != "already"@[0]);
    assert("total_ok"@[0] != "warnings"@[0]);
}

/// The event that closes a round holds its counts.
pub proof fn a_round_is_closed_with_its_counts(ok: int, already: int, failed: int)
    ensures
        done_event_of(ok, already, failed).get("type"@) == Some(JsonV::Str("done"@)),
        done_event_of(ok, already, failed).get("ok"@) == Some(json::int_v(ok)),
        done_event_of(ok, already, failed).get("already"@) == Some(json::int_v(already)),
        done_event_of(ok, already, failed).get("failed"@) == Some(json::int_v(failed)),
        forall|k: Seq<char>| k != "type"@ && k != "ok"@ && k != "already"@ && k != "failed"@ ==> (#[trigger] done_event_of(ok, already, failed).get(k)) is None,
{
    broadcast use json::lemma_set_then_get;

    reveal_strlit("type");
    reveal_strlit("ok");
    reveal_strlit("already");
    reveal_strlit("failed");
    assert("type"@.len() == 4 && "ok"@.len() == 2 && "already"@.len() == 7);
    assert("failed"@.len() == 6);
}

/// The event of a claim holds what came of it.
pub proof fn claims_are_reported(index: int, uid: Option<Seq<char>>, name: Seq<char>, claim: ClaimV, rep: ClaimReport)
    ensures
        claim_event(index, uid, name, claim, rep).get("type"@) == Some(JsonV::Str("account"@)),
        claim_event(index, uid, name, claim, rep).get("index"@) == Some(json::int_v(index)),
        claim_event(index, uid, name, claim, rep).get("user_id"@) == Some(json::str_or_null(uid)),
        claim_event(index, uid, name, claim, rep).get("name"@) == Some(JsonV::Str(name)),
        claim_event(index, uid, name, claim, rep).get("status"@) == Some(JsonV::Str(if claim.ok { "success"@ } else { "fail"@ })),
        claim_event(index, uid, name, claim, rep).get("code"@) == Some(json::int_or_null(claim.code)),
        claim_event(index, uid, name, claim, rep).get("message"@) == Some(JsonV::Str(claim.message)),
        claim_event(index, uid, name, claim, rep).get("credits"@) == Some(json::int_or_null(opt_int(rep.credits))),
        claim_event(index, uid, name, claim, rep).get("delta"@) == Some(if rep.delta != 0 { json::int_v(rep.delta as int) } else { JsonV::Null }),
        claim_event(index, uid, name, claim, rep).get("error_type"@) == Some(json::str_or_null(text::opt_text(rep.error_type))),
        claim_event(index, uid, name, claim, rep).get("cooldown_until"@) == Some(json::int_or_null(opt_int(rep.cooldown_until))),
        forall|k: Seq<char>| k != "type"@ && k != "index"@ && k != "user_id"@ && k != "name"@ && k != "status"@ && k != "code"@ && k != "message"@ && k != "credits"@ && k != "delta"@ && k != "error_type"@ && k != "cooldown_until"@ ==> (#[trigger] claim_event(index, uid, name, claim, rep).get(k)) is None,
{
    broadcast use json::lemma_set_then_get;

    reveal_strlit("type");
    reveal_strlit("index");
    reveal_strlit("user_id");
    reveal_strlit("name");
    reveal_strlit("status");
    reveal_strlit("code");
    reveal_strlit("message");
    reveal_strlit("credits");
    reveal_strlit("delta");
    reveal_strlit("error_type");
    reveal_strlit("cooldown_until");
    assert("type"@.len() == 4 && "index"@.len() == 5 && "user_id"@.len() == 7);
    assert("name"@.len() == 4 && "status"@.len() == 6 && "code"@.len() == 4);
    assert("message"@.len() == 7 && "credits"@.len() == 7 && "delta"@.len() == 5);
    assert("error_type"@.len() == 10 && "cooldown_until"@.len() == 14);
    assert("type"@[0] != "name"@[0]);
    assert("type"@[0] != "code"@[0]);
    assert("name"@[0] != "code"@[0]);
    assert("index"@[0] != "delta"@[0]);
    assert("user_id"@[0] != "message"@[0]);
    assert("user_id"@[0] != "credits"@[0]);
    assert("message"@[0] != "credits"@[0]);
}

/// The event of an account that had claimed before says so, with its balance.
pub proof fn earlier_claims_are_reported(index: int, uid: Option<Seq<char>>, name: Seq<char>, credits: Option<int>)
    ensures
        already_event(index, uid, name, credits).get("type"@) == Some(JsonV::Str("account"@)),
        already_event(index, uid, name, credits).get("index"@) == Some(json::int_v(index)),
        already_event(index, uid, name, credits).get("user_id"@) == Some(json::str_or_null(uid)),
        already_event(index, uid, name, credits).get("name"@) == Some(JsonV::Str(name)),
        already_event(index, uid, name, credits).get("status"@) == Some(JsonV::Str("already"@)),
        already_event(index, uid, name, credits).get("credits"@) == Some(json::int_or_null(credits)),
        forall|k: Seq<char>| k != "type"@ && k != "index"@ && k != "user_id"@ && k != "name"@ && k != "status"@ && k != "credits"@ ==> (#[trigger] already_event(index, uid, name, credits).get(k)) is None,
{
    broadcast use json::lemma_set_then_get;

    reveal_strlit("type");
    reveal_strlit("index");
    reveal_strlit("user_id");
    reveal_strlit("name");
    reveal_strlit("status");
    reveal_strlit("credits");
    assert("type"@.len() == 4 && "index"@.len() == 5 && "user_id"@.len() == 7);
    assert("name"@.len() == 4 && "status"@.len() == 6 && "credits"@.len() == 7);
    assert("type"@[0] != "name"@[0]);
    assert("user_id"@[0] != "credits"@[0]);
}

/// The result of an account that had claimed before is good, says that it was passed over, and holds its
/// balance.
pub proof fn earlier_claims_are_results(uid: Option<Seq<char>>, name: Seq<char>, pre: StatusV)
    ensures
        already_result(uid, name, pre).get("name"@) == Some(JsonV::Str(name)),
        already_result(uid, name, pre).get("user_id"@) == Some(json::str_or_null(uid)),
        already_result(uid, name, pre).get("ok"@) == Some(JsonV::Bool(true)),
        already_result(uid, name, pre).get("code"@) == Some(json::int_v(0)),
        already_result(uid, name, pre).get("action"@) == Some(JsonV::Str("skip_already"@)),
        already_result(uid, name, pre).get("credits"@) == Some(json::int_or_null(pre.credits)),
        already_result(uid, name, pre).get("message"@) == Some(JsonV::Str(if pre.message.len() == 0 { "已签到"@ } else { pre.message })),
        forall|k: Seq<char>| k != "name"@ && k != "user_id"@ && k != "ok"@ && k != "code"@ && k != "action"@ && k != "credits"@ && k != "message"@ ==> (#[trigger] already_result(uid, name, pre).get(k)) is None,
{
    broadcast use json::lemma_set_then_get;

    reveal_strlit("name");
    reveal_strlit("user_id");
    reveal_strlit("ok");
    reveal_strlit("code");
    reveal_strlit("action");
    reveal_strlit("credits");
    reveal_strlit("message");
    assert("name"@.len() == 4 && "user_id"@.len() == 7 && "ok"@.len() == 2);
    assert("code"@.len() == 4 && "action"@.len() == 6 && "credits"@.len() == 7);
    assert("message"@.len() == 7);
    assert("name"@[0] != "code"@[0]);
    assert("user_id"@[0] != "credits"@[0]);
    assert("user_id"@[0] != "message"@[0]);
    assert("credits"@[0] != "message"@[0]);
}

/// The result of a claim holds what came of it, with the credits where they are known.
pub proof fn claims_are_results(uid: Option<Seq<char>>, name: Seq<char>, claim: ClaimV, rep: ClaimReport)
    ensures
        rep.credits matches Some(n) ==> claim_result(uid, name, claim, rep).get("credits"@) == Some(
            json::int_v(n as int),
        ) && claim_result(uid, name, claim, rep).get("credits_delta"@) == Some(json::int_v(rep.delta as int)),
        rep.credits is None ==> claim_result(uid, name, claim, rep).get("credits"@) is None,
        claim_result(uid, name, claim, rep).get("name"@) == Some(JsonV::Str(name)),
        claim_result(uid, name, claim, rep).get("user_id"@) == Some(json::str_or_null(uid)),
        claim_result(uid, name, claim, rep).get("ok"@) == Some(JsonV::Bool(claim.ok)),
        claim_result(uid, name, claim, rep).get("code"@) == Some(json::int_or_null(claim.code)),
        claim_result(uid, name, claim, rep).get("message"@) == Some(JsonV::Str(claim.message)),
        claim_result(uid, name, claim, rep).get("action"@) == Some(JsonV::Str(if claim.ok { "claim_ok"@ } else { "claim"@ })),
{
    broadcast use json::lemma_set_then_get;

    reveal_strlit("name");
    reveal_strlit("user_id");
    reveal_strlit("ok");
    reveal_strlit("code");
    reveal_strlit("message");
    reveal_strlit("action");
    assert("name"@.len() == 4 && "user_id"@.len() == 7 && "ok"@.len() == 2);
    assert("code"@.len() == 4 && "message"@.len() == 7 && "action"@.len() == 6);
    assert("name"@[0] != "code"@[0]);
    assert("user_id"@[0] != "message"@[0]);
    reveal_strlit("credits");
    reveal_strlit("credits_delta");
    assert("credits"@.len() == 7 && "credits_delta"@.len() == 13);
    assert("credits"@[0] != "user_id"@[0] && "credits"@[0] != "message"@[0]);
}

/// The event of an account without a token says so.
pub proof fn missing_tokens_are_reported(index: int, uid: Seq<char>, name: Seq<char>)
    ensures
        no_jwt_event(index, uid, name).get("type"@) == Some(JsonV::Str("account"@)),
        no_jwt_event(index, uid, name).get("index"@) == Some(json::int_v(index)),
        no_jwt_event(index, uid, name).get("user_id"@) == Some(JsonV::Str(uid)),
        no_jwt_event(index, uid, name).get("name"@) == Some(JsonV::Str(name)),
        no_jwt_event(index, uid, name).get("status"@) == Some(JsonV::Str("fail"@)),
        no_jwt_event(index, uid, name).get("message"@) == Some(JsonV::Str("未配置 jwt"@)),
        forall|k: Seq<char>| k != "type"@ && k != "index"@ && k != "user_id"@ && k != "name"@ && k != "status"@ && k != "message"@ ==> (#[trigger] no_jwt_event(index, uid, name).get(k)) is None,
{
    broadcast use json::lemma_set_then_get;

    reveal_strlit("type");
    reveal_strlit("index");
    reveal_strlit("user_id");
    reveal_strlit("name");
    reveal_strlit("status");
    reveal_strlit("message");
    assert("type"@.len() == 4 && "index"@.len() == 5 && "user_id"@.len() == 7);
    assert("name"@.len() == 4 && "status"@.len() == 6 && "message"@.len() == 7);
    assert("type"@[0] != "name"@[0]);
    assert("user_id"@[0] != "message"@[0]);
}

/// The result of an account without a token is bad and says why.
pub proof fn missing_tokens_are_results(uid: Seq<char>, name: Seq<char>)
    ensures
        no_jwt_result(uid, name).get("name"@) == Some(JsonV::Str(name)),
        no_jwt_result(uid, name).get("user_id"@) == Some(JsonV::Str(uid)),
        no_jwt_result(uid, name).get("ok"@) == Some(JsonV::Bool(false)),
        no_jwt_result(uid, name).get("message"@) == Some(JsonV::Str("未配置 jwt"@)),
        forall|k: Seq<char>| k != "name"@ && k != "user_id"@ && k != "ok"@ && k != "message"@ ==> (#[trigger] no_jwt_result(uid, name).get(k)) is None,
{
    broadcast use json::lemma_set_then_get;

    reveal_strlit("name");
    reveal_strlit("user_id");
    reveal_strlit("ok");
    reveal_strlit("message");
    assert("name"@.len() == 4 && "user_id"@.len() == 7 && "ok"@.len() == 2);
    assert("message"@.len() == 7);
    assert("user_id"@[0] != "message"@[0]);
}

/// A token goes out with its mark, once.
pub proof fn tokens_go_out_with_their_mark(t: Seq<char>)
    ensures
        auth_value("Cloud-IDE-JWT "@ + t) == "Cloud-IDE-JWT "@ + t,
        !text::has_prefix(t, "Cloud-IDE-JWT "@) ==> auth_value(t) == "Cloud-IDE-JWT "@ + text::trimmed(t),
{
    let p = "Cloud-IDE-JWT "@;
    assert((p + t).take(p.len() as int) =~= p);
}

/// A status that did not come through, or that cannot be read, is not good and says why.
pub proof fn broken_statuses_say_why(status: u16, raw: String, e: String)
    ensures
        json::json_read(raw@) matches Ok(JsonV::Obj(o)) ==> status_reply(Post::Answer(status, raw)) == status_of(
            status,
            JsonV::Obj(o),
        ),
        json::json_read(raw@) is Err ==> !status_reply(Post::Answer(status, raw)).ok && status_reply(
            Post::Answer(status, raw),
        ).checked_in is None && status_reply(Post::Answer(status, raw)).credits is None,
        json::json_read(raw@) is Err && raw@.len() <= 200 ==> status_reply(Post::Answer(status, raw)).message
            == "非 JSON 响应: "@ + raw@,
        !status_reply(Post::Failed(e)).ok && status_reply(Post::Failed(e)).checked_in is None,
        e@.len() > 0 ==> status_reply(Post::Failed(e)).message == e@,
        e@.len() == 0 ==> status_reply(Post::Failed(e)).message == "网络异常"@,
{
}

/// Each account counts once in a round: as claimed, as claimed before, or as failed, and its result stands
/// behind those before it.
pub proof fn accounts_count_once(t: TallyV, acc: RawAccount, end: EndV)
    ensures
        ({
            let a = tally_after(t, acc, end);
            &&& a.index == t.index + 1
            &&& a.results == t.results.push(result_of(acc, t.index + 1, end))
            &&& a.ok + a.already + a.failed == t.ok + t.already + t.failed + 1
            &&& end is NoToken ==> a.failed == t.failed + 1
            &&& end is Already ==> a.already == t.already + 1
            &&& end matches EndV::Claimed(c, _) ==> c.ok ==> a.ok == t.ok + 1
            &&& end matches EndV::Claimed(c, _) ==> !c.ok ==> a.failed == t.failed + 1
        }),
        no_tally().index == 0 && no_tally().ok == 0 && no_tally().already == 0 && no_tally().failed == 0
            && no_tally().results.len() == 0,
{
}

/// What is reported of an account is how it ended, under its place, its user and its name.
pub proof fn ends_are_reported_by_kind(acc: RawAccount, index: int, pre: StatusV, claim: ClaimV, report: ClaimReport)
    ensures
        account_event(acc, index, EndV::NoToken) == no_jwt_event(index, or_empty(acc.user_id), shown_name(acc.name@, index)),
        account_event(acc, index, EndV::Already(pre)) == already_event(
            index,
            jwt::token_user(text::trimmed(acc.jwt@)),
            shown_name(acc.name@, index),
            pre.credits,
        ),
        account_event(acc, index, EndV::Claimed(claim, report)) == claim_event(
            index,
            jwt::token_user(text::trimmed(acc.jwt@)),
            shown_name(acc.name@, index),
            claim,
            report,
        ),
        acc.name@.len() > 0 ==> shown_name(acc.name@, index) == acc.name@,
{
}

/// A round is logged by its counts, and by its warnings where it has any.
pub proof fn rounds_are_logged_by_their_counts(
    now: Seq<char>,
    ok: int,
    already: int,
    failed: int,
    total: int,
    warnings: Seq<Seq<char>>,
)
    ensures
        warnings.len() == 0 ==> round_line(now, ok, already, failed, total, warnings) == "["@ + now + "] 成功"@
            + digits::decimal(ok) + "/已签到"@ + digits::decimal(already) + "/失败"@ + digits::decimal(failed) + "/总计"@
            + digits::decimal(total) + Seq::<char>::empty() + "\n"@,
        warnings.len() > 0 ==> round_line(now, ok, already, failed, total, warnings) == "["@ + now + "] 成功"@
            + digits::decimal(ok) + "/已签到"@ + digits::decimal(already) + "/失败"@ + digits::decimal(failed) + "/总计"@
            + digits::decimal(total) + (" | 告警: "@ + text::joined(warnings, "; "@)) + "\n"@,
{
}

/// The start of a round tells how many accounts there are.
pub proof fn rounds_start_with_their_total(total: int)
    ensures
        start_event_of(total).get("type"@) == Some(JsonV::Str("start"@)),
        start_event_of(total).get("total"@) == Some(json::int_v(total)),
        forall|k: Seq<char>| k != "type"@ && k != "total"@ ==> (#[trigger] start_event_of(total).get(k)) is None,
{
    broadcast use json::lemma_set_then_get;

    reveal_strlit("type");
    reveal_strlit("total");
    assert("type"@.len() == 4 && "total"@.len() == 5);
}

/// How an account ended is noted under its user, and nothing noted of others changes.
pub proof fn statuses_are_noted_by_user(after: Round, before: Round, uid: Seq<char>, status: Seq<char>, other: Seq<char>)
    requires
        status_is(after, before, uid, status),
    ensures
        assoc::lookup(after.outcome.statuses@, uid) matches Some(s) && s@ == status,
        other != uid ==> assoc::lookup(after.outcome.statuses@, other) == assoc::lookup(before.outcome.statuses@, other),
{
}

/// When a token ends is told as the machine tells it, or as a number where that cannot be told.
pub proof fn ends_are_told_or_numbered(exp: int, when: Seq<char>)
    ensures
        clock::is_local_text(exp, when) ==> tells_expiry(exp, when),
        tells_expiry(exp, when) && 0 <= exp <= 40_000_000_000 ==> clock::is_local_text(exp, when),
        exp > 40_000_000_000 ==> tells_expiry(exp, digits::decimal(exp)),
{
}

/// The account at hand is known by its name and by the user of its token.
pub proof fn the_account_at_hand_is_known(cur: Current, acc: RawAccount)
    requires
        is_at_hand(cur, acc),
    ensures
        acc.name@.len() > 0 ==> cur.name@ == acc.name@,
        text::opt_text(cur.user_id) == jwt::token_user(text::trimmed(acc.jwt@)),
{
}

/// A round counts as many as it has results for, each where it belongs.
pub proof fn rounds_are_tallied(r: Round)
    ensures
        tally_of(r).index == r.index,
        tally_of(r).ok == r.total_ok,
        tally_of(r).already == r.already,
        tally_of(r).failed == r.failed,
        tally_of(r).results.len() == r.results@.len(),
        unbegun(tally_of(r)).index == r.index - 1,
        unbegun(tally_of(r)).ok == r.total_ok && unbegun(tally_of(r)).already == r.already && unbegun(tally_of(r)).failed
            == r.failed && unbegun(tally_of(r)).results == tally_of(r).results,
{
}

/// A rest is looked up by its user, and the first counts.
pub proof fn rests_are_found_by_user(list: Seq<(String, CooldownEntry)>, uid: Seq<char>)
    ensures
        assoc::lookup(list, uid) matches Some(e) ==> rest_of(list, uid) == Some(e@),
        assoc::lookup(list, uid) is None ==> rest_of(list, uid) is None,
{
}

/// Of an answer that is no document the first two hundred characters are shown.
pub proof fn long_answers_are_cut(raw: Seq<char>)
    ensures
        raw.len() <= 200 ==> not_json(raw) == "非 JSON 响应: "@ + raw,
        raw.len() > 200 ==> not_json(raw) == "非 JSON 响应: "@ + raw.subrange(0, 200),
{
    if raw.len() > 200 {
        assert(raw.take(200) =~= raw.subrange(0, 200));
    }
}

} // verus!
