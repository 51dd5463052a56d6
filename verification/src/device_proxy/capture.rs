//! What the proxy takes out of the traffic: tokens of accounts and session cookies.
use vstd::prelude::*;
use crate::{clock, codec, digits, json, jwt, text};
use crate::device_proxy::{headers, http};
use crate::json::{Json, JsonV, NumV};

verus! {

broadcast use vstd::string::group_string_axioms;

// ---- accounts ----

/// What became of a token.
#[derive(Clone, Copy, PartialEq, Eq, Structural)]
pub enum JwtStatus {
    Unchanged,
    Skipped,
    Updated,
    Appended,
}

impl JwtStatus {
    /// The word for it.
    pub open spec fn word(self) -> Seq<char> {
        match self {
            JwtStatus::Unchanged => "unchanged"@,
            JwtStatus::Skipped => "skipped"@,
            JwtStatus::Updated => "updated"@,
            JwtStatus::Appended => "appended"@,
        }
    }

    /// The word for it.
    pub fn as_str(self) -> (r: &'static str)
        ensures
            r@ == self.word(),
    {
        match self {
            JwtStatus::Unchanged => "unchanged",
            JwtStatus::Skipped => "skipped",
            JwtStatus::Updated => "updated",
            JwtStatus::Appended => "appended",
        }
    }
}

/// The user id of an account's field: a string, or a number as it is printed; else empty.
pub open spec fn uid_text(v: JsonV) -> Seq<char> {
    match v {
        JsonV::Str(s) => s,
        JsonV::Num(n) => json::json_text(JsonV::Num(n)),
        _ => Seq::empty(),
    }
}

/// Whether an account is that of the user.
pub open spec fn is_users(acc: JsonV, user_id: Seq<char>) -> bool {
    match (acc.get("UserID"@), acc.get("user_id"@)) {
        (Some(v), _) => uid_text(v) == user_id,
        (None, Some(v)) => uid_text(v) == user_id,
        (None, None) => false,
    }
}

/// The position of the user's first account; the number of accounts where there is none.
pub open spec fn account_of(accounts: Seq<JsonV>, user_id: Seq<char>) -> int
    decreases accounts.len(),
{
    if accounts.len() == 0 || is_users(accounts[0], user_id) {
        0
    } else {
        1 + account_of(accounts.skip(1), user_id)
    }
}

/// `account_of` is the first position of the user.
pub proof fn lemma_account_of(accounts: Seq<JsonV>, user_id: Seq<char>)
    ensures
        0 <= account_of(accounts, user_id) <= accounts.len(),
        account_of(accounts, user_id) < accounts.len() ==> is_users(
            accounts[account_of(accounts, user_id)],
            user_id,
        ),
        forall|i: int| 0 <= i < account_of(accounts, user_id) ==> !is_users(#[trigger] accounts[i], user_id),
    decreases accounts.len(),
{
    if accounts.len() == 0 || is_users(accounts[0], user_id) {
    } else {
        lemma_account_of(accounts.skip(1), user_id);
        assert forall|i: int| 0 <= i < account_of(accounts, user_id) implies !is_users(
            #[trigger] accounts[i],
            user_id,
        ) by {
            if i > 0 {
                assert(accounts.skip(1)[i - 1] == accounts[i]);
            }
        }
    }
}

/// The text of a field, or another where it holds none.
pub open spec fn text_or(v: JsonV, key: Seq<char>, other: Seq<char>) -> Seq<char> {
    match v.text_at(key) {
        Some(s) => s,
        None => other,
    }
}

/// What becomes of a token for an account that has one: the same token changes nothing, and one
/// that expires no later than the old one is passed over.
pub open spec fn jwt_fate(old_jwt: Seq<char>, new_jwt: Seq<char>) -> JwtStatus {
    if old_jwt == new_jwt {
        JwtStatus::Unchanged
    } else {
        match (jwt::token_expiry(old_jwt), jwt::token_expiry(new_jwt)) {
            (Some(o), Some(n)) => if n <= o {
                JwtStatus::Skipped
            } else {
                JwtStatus::Updated
            },
            _ => JwtStatus::Updated,
        }
    }
}

/// Whether a refresh token is new to an account.
pub open spec fn refresh_is_new(acc: JsonV, refresh: Option<Seq<char>>) -> bool {
    match refresh {
        Some(rt) => acc.text_at("refresh_token"@) != Some(rt),
        None => false,
    }
}

/// The fields of an account with a new token and the time it came.
pub open spec fn with_token(
    o: Seq<(Seq<char>, JsonV)>,
    token_key: Seq<char>,
    token: Seq<char>,
    time_key: Seq<char>,
    now: Seq<char>,
) -> Seq<(Seq<char>, JsonV)> {
    json::with_field(json::with_field(o, token_key, JsonV::Str(token)), time_key, JsonV::Str(now))
}

/// An account after a token and, it may be, a refresh token have come in.
pub open spec fn refreshed(acc: JsonV, jwt_full: Seq<char>, refresh: Option<Seq<char>>, now: Seq<char>) -> JsonV {
    match acc {
        JsonV::Obj(o) => {
            let a = if jwt_fate(text_or(acc, "jwt"@, ""@), jwt_full) is Updated {
                with_token(o, "jwt"@, jwt_full, "updated_at"@, now)
            } else {
                o
            };
            match refresh {
                Some(rt) => if json::field(a, "refresh_token"@) != Some(JsonV::Str(rt)) {
                    JsonV::Obj(with_token(a, "refresh_token"@, rt, "refresh_token_updated_at"@, now))
                } else {
                    JsonV::Obj(a)
                },
                None => JsonV::Obj(a),
            }
        },
        _ => acc,
    }
}

/// The account made for a user that is new.
pub open spec fn new_account(
    user_id: Seq<char>,
    jwt_full: Seq<char>,
    refresh: Option<Seq<char>>,
    now: Seq<char>,
) -> JsonV {
    let a = json::with_field(Seq::empty(), "name"@, JsonV::Str("auto_"@ + text::head_chars(user_id, 8)));
    let b = json::with_field(a, "UserID"@, JsonV::Str(user_id));
    let c = json::with_field(b, "jwt"@, JsonV::Str(jwt_full));
    let d = json::with_field(c, "added_at"@, JsonV::Str(now));
    match refresh {
        Some(rt) => JsonV::Obj(with_token(d, "refresh_token"@, rt, "refresh_token_updated_at"@, now)),
        None => JsonV::Obj(d),
    }
}

/// The accounts after a token and, it may be, a refresh token of a user have come in.
pub open spec fn accounts_after(
    accounts: Seq<JsonV>,
    user_id: Seq<char>,
    jwt_full: Seq<char>,
    refresh: Option<Seq<char>>,
    now: Seq<char>,
) -> Seq<JsonV> {
    let i = account_of(accounts, user_id);
    if 0 <= i < accounts.len() {
        accounts.update(i, refreshed(accounts[i], jwt_full, refresh, now))
    } else {
        accounts.push(new_account(user_id, jwt_full, refresh, now))
    }
}

/// What becomes of a token.
pub open spec fn status_after(accounts: Seq<JsonV>, user_id: Seq<char>, jwt_full: Seq<char>) -> JwtStatus {
    let i = account_of(accounts, user_id);
    if 0 <= i < accounts.len() {
        jwt_fate(text_or(accounts[i], "jwt"@, ""@), jwt_full)
    } else {
        JwtStatus::Appended
    }
}

/// Something that is reported of a capture.
pub enum CaptureEvent {
    /// A token that expires no later than the one that is there.
    Older { name: String, old_exp: i64 },
    /// A token that takes the place of the one that is there.
    Updated { name: String },
    /// A new refresh token.
    Refreshed { name: String },
    /// An account for a user that is new.
    Appended { name: String },
}

/// The model of what is reported.
pub enum CaptureEventV {
    Older(Seq<char>, int),
    Updated(Seq<char>),
    Refreshed(Seq<char>),
    Appended(Seq<char>),
}

impl View for CaptureEvent {
    type V = CaptureEventV;

    open spec fn view(&self) -> CaptureEventV {
        match *self {
            CaptureEvent::Older { name, old_exp } => CaptureEventV::Older(name@, old_exp as int),
            CaptureEvent::Updated { name } => CaptureEventV::Updated(name@),
            CaptureEvent::Refreshed { name } => CaptureEventV::Refreshed(name@),
            CaptureEvent::Appended { name } => CaptureEventV::Appended(name@),
        }
    }
}

/// The models of what is reported.
pub open spec fn events(v: Seq<CaptureEvent>) -> Seq<CaptureEventV> {
    v.map_values(|e: CaptureEvent| e@)
}

/// What is reported of a capture, in order.
pub open spec fn reported(
    accounts: Seq<JsonV>,
    user_id: Seq<char>,
    jwt_full: Seq<char>,
    refresh: Option<Seq<char>>,
) -> Seq<CaptureEventV> {
    let i = account_of(accounts, user_id);
    if 0 <= i < accounts.len() {
        let acc = accounts[i];
        let name = text_or(acc, "name"@, "?"@);
        let first = match status_after(accounts, user_id, jwt_full) {
            JwtStatus::Skipped => seq![
                CaptureEventV::Older(name, jwt::token_expiry(text_or(acc, "jwt"@, ""@))->Some_0),
            ],
            JwtStatus::Updated => seq![CaptureEventV::Updated(name)],
            _ => Seq::empty(),
        };
        if refresh_is_new(acc, refresh) {
            first.push(CaptureEventV::Refreshed(name))
        } else {
            first
        }
    } else {
        seq![CaptureEventV::Appended("auto_"@ + text::head_chars(user_id, 8))]
    }
}

/// What a capture does to the accounts.
pub struct AccountUpdate {
    pub accounts: Vec<Json>,
    pub status: JwtStatus,
    pub events: Vec<CaptureEvent>,
}

/// The user id of an account's field.
pub fn uid_of(v: &Json) -> (r: String)
    requires
        v@.wf(),
    ensures
        r@ == uid_text(v@),
{
    broadcast use json::lemma_view_parts;

    match v {
        Json::Str(s) => s.clone(),
        Json::Number(_) => json::print_json(v),
        _ => String::new(),
    }
}

fn users(acc: &Json, user_id: &str) -> (r: bool)
    requires
        acc@.wf(),
    ensures
        r == is_users(acc@, user_id@),
{
    broadcast use json::lemma_get_wf;

    match acc.get("UserID") {
        Some(v) => text::same(uid_of(v).as_str(), user_id),
        None => match acc.get("user_id") {
            Some(v) => text::same(uid_of(v).as_str(), user_id),
            None => false,
        },
    }
}

/// The position of the user's first account; the number of accounts where there is none.
pub fn find_account(accounts: &Vec<Json>, user_id: &str) -> (r: usize)
    requires
        forall|i: int| 0 <= i < accounts@.len() ==> (#[trigger] accounts@[i])@.wf(),
    ensures
        r <= accounts@.len(),
        r == account_of(json::items(accounts@), user_id@),
{
    let mut i: usize = 0;
    let ghost all = json::items(accounts@);
    assert(all.skip(0) =~= all);
    while i < accounts.len()
        invariant
            i <= accounts@.len(),
            all == json::items(accounts@),
            forall|k: int| 0 <= k < accounts@.len() ==> (#[trigger] accounts@[k])@.wf(),
            account_of(all, user_id@) == i + account_of(all.skip(i as int), user_id@),
        decreases accounts@.len() - i,
    {
        let ghost rest = all.skip(i as int);
        assert(rest[0] == accounts@[i as int]@);
        if users(&accounts[i], user_id) {
            return i;
        }
        assert(rest.skip(1) =~= all.skip(i + 1));
        i += 1;
    }
    i
}

fn string_or(v: &Json, key: &str, other: &str) -> (r: String)
    ensures
        r@ == text_or(v@, key@, other@),
{
    match v.str_at(key) {
        Some(s) => s.to_owned(),
        None => other.to_owned(),
    }
}

/// The accounts with the one at `at` put in place of the old one.
fn with_account(accounts: &Vec<Json>, at: usize, acc: Json) -> (r: Vec<Json>)
    requires
        at < accounts@.len(),
    ensures
        json::items(r@) == json::items(accounts@).update(at as int, acc@),
{
    let mut r = json::dup_list(accounts);
    let ghost before = json::items(r@);
    r.set(at, acc);
    assert(json::items(r@) =~= before.update(at as int, acc@));
    r
}

/// Takes a user's token and, where there is one, refresh token into the accounts, both at once. A
/// user that is new gets an account.
pub fn take_tokens(accounts: &Vec<Json>, user_id: &str, jwt_full: &str, refresh_token: Option<&str>, now: &str) -> (r:
    AccountUpdate)
    requires
        forall|i: int| 0 <= i < accounts@.len() ==> (#[trigger] accounts@[i])@.wf(),
    ensures
        ({
            let all = json::items(accounts@);
            let rt = text::opt_str(refresh_token);
            &&& json::items(r.accounts@) == accounts_after(all, user_id@, jwt_full@, rt, now@)
            &&& r.status == status_after(all, user_id@, jwt_full@)
            &&& events(r.events@) == reported(all, user_id@, jwt_full@, rt)
        }),
{
    let at = find_account(accounts, user_id);
    let ghost all = json::items(accounts@);
    let ghost rt = text::opt_str(refresh_token);
    let mut evs: Vec<CaptureEvent> = Vec::new();
    assert(events(evs@) =~= Seq::empty());
    if at < accounts.len() {
        let acc = &accounts[at];
        assert(acc@ == all[at as int]);
        proof {
            lemma_account_of(all, user_id@);
            assert(acc@ is Obj);
        }
        let old_jwt = string_or(acc, "jwt", "");
        let name = string_or(acc, "name", "?");
        let mut status = JwtStatus::Unchanged;
        let mut o = json::fields_of(acc);
        if !text::same(old_jwt.as_str(), jwt_full) {
            status = JwtStatus::Updated;
            match (jwt::jwt_exp_ts(old_jwt.as_str()), jwt::jwt_exp_ts(jwt_full)) {
                (Some(old_ts), Some(new_ts)) => {
                    if new_ts <= old_ts {
                        status = JwtStatus::Skipped;
                        let e = CaptureEvent::Older { name: name.clone(), old_exp: old_ts };
                        evs.push(e);
                        assert(events(evs@) =~= seq![e@]);
                    }
                },
                _ => {},
            }
            if status == JwtStatus::Updated {
                json::put(&mut o, "jwt", json::jstr(jwt_full));
                json::put(&mut o, "updated_at", json::jstr(now));
                let e = CaptureEvent::Updated { name: name.clone() };
                evs.push(e);
                assert(events(evs@) =~= seq![e@]);
            }
        }
        assert(status == jwt_fate(text_or(acc@, "jwt"@, ""@), jwt_full@));
        let ghost mid = json::fields(o@);
        let ghost first = events(evs@);
        if let Some(t) = refresh_token {
            let fresh = match acc.str_at("refresh_token") {
                Some(x) => !text::same(x, t),
                None => true,
            };
            proof {
                let of = acc@->Obj_0;
                json::set_then_get(of, "jwt"@, JsonV::Str(jwt_full@), "refresh_token"@);
                let o1 = json::with_field(of, "jwt"@, JsonV::Str(jwt_full@));
                json::set_then_get(o1, "updated_at"@, JsonV::Str(now@), "refresh_token"@);
                reveal_strlit("refresh_token");
                reveal_strlit("jwt");
                reveal_strlit("updated_at");
                assert("refresh_token"@.len() != "jwt"@.len());
                assert("refresh_token"@.len() != "updated_at"@.len());
                assert(json::field(mid, "refresh_token"@) == json::field(of, "refresh_token"@));
                match json::field(of, "refresh_token"@) {
                    Some(JsonV::Str(x)) => {
                        assert(fresh == (x != t@));
                        assert((JsonV::Str(x) == JsonV::Str(t@)) == (x == t@));
                    },
                    _ => {},
                }
            }
            if fresh {
                json::put(&mut o, "refresh_token", json::jstr(t));
                json::put(&mut o, "refresh_token_updated_at", json::jstr(now));
                let e = CaptureEvent::Refreshed { name };
                evs.push(e);
                assert(events(evs@) =~= first.push(e@));
            }
        }
        let ghost done = json::fields(o@);
        let new_acc = Json::Object(o);
        proof {
            json::lemma_view_parts(new_acc);
            assert(new_acc@ == JsonV::Obj(done));
            assert(new_acc@ == refreshed(acc@, jwt_full@, rt, now@));
        }
        AccountUpdate { accounts: with_account(accounts, at, new_acc), status, events: evs }
    } else {
        let mut name = "auto_".to_owned();
        name.append(text::take_chars(user_id, 8).as_str());
        let mut o: Vec<(String, Json)> = Vec::new();
        assert(json::fields(o@) =~= Seq::empty());
        json::put(&mut o, "name", json::jstr(name.as_str()));
        json::put(&mut o, "UserID", json::jstr(user_id));
        json::put(&mut o, "jwt", json::jstr(jwt_full));
        json::put(&mut o, "added_at", json::jstr(now));
        if let Some(t) = refresh_token {
            json::put(&mut o, "refresh_token", json::jstr(t));
            json::put(&mut o, "refresh_token_updated_at", json::jstr(now));
        }
        let acc = Json::Object(o);
        proof {
            json::lemma_view_parts(acc);
        }
        let mut list = json::dup_list(accounts);
        let ghost before = json::items(list@);
        list.push(acc);
        assert(json::items(list@) =~= before.push(acc@));
        let e = CaptureEvent::Appended { name };
        evs.push(e);
        assert(events(evs@) =~= seq![e@]);
        AccountUpdate { accounts: list, status: JwtStatus::Appended, events: evs }
    }
}

/// A stored token never gives way to one that expires no later: where both tokens say when they
/// expire, the account's expiry does not go back.
pub proof fn expiry_never_goes_back(acc: JsonV, jwt_full: Seq<char>, refresh: Option<Seq<char>>, now: Seq<char>)
    requires
        acc is Obj,
    ensures
        ({
            let before = text_or(acc, "jwt"@, ""@);
            let after = text_or(refreshed(acc, jwt_full, refresh, now), "jwt"@, ""@);
            &&& after == if jwt_fate(before, jwt_full) is Updated {
                jwt_full
            } else {
                before
            }
            &&& match (jwt::token_expiry(before), jwt::token_expiry(jwt_full), jwt::token_expiry(after)) {
                (Some(b), Some(_), Some(a)) => b <= a,
                _ => true,
            }
        }),
{
    let o = acc->Obj_0;
    reveal_strlit("refresh_token");
    reveal_strlit("refresh_token_updated_at");
    reveal_strlit("jwt");
    reveal_strlit("updated_at");
    let a = with_token(o, "jwt"@, jwt_full, "updated_at"@, now);
    let o1 = json::with_field(o, "jwt"@, JsonV::Str(jwt_full));
    json::set_then_get(o, "jwt"@, JsonV::Str(jwt_full), "jwt"@);
    json::set_then_get(o1, "updated_at"@, JsonV::Str(now), "jwt"@);
    assert("jwt"@.len() != "updated_at"@.len());
    assert("jwt"@.len() != "refresh_token"@.len());
    assert("jwt"@.len() != "refresh_token_updated_at"@.len());
    let mid = if jwt_fate(text_or(acc, "jwt"@, ""@), jwt_full) is Updated {
        a
    } else {
        o
    };
    if let Some(rt) = refresh {
        let m1 = json::with_field(mid, "refresh_token"@, JsonV::Str(rt));
        json::set_then_get(mid, "refresh_token"@, JsonV::Str(rt), "jwt"@);
        json::set_then_get(m1, "refresh_token_updated_at"@, JsonV::Str(now), "jwt"@);
    }
}

/// A capture touches the account of its user alone: every other one stays as it was, in its place.
pub proof fn other_accounts_stay(
    accounts: Seq<JsonV>,
    user_id: Seq<char>,
    jwt_full: Seq<char>,
    refresh: Option<Seq<char>>,
    now: Seq<char>,
    i: int,
)
    requires
        0 <= i < accounts.len(),
        i != account_of(accounts, user_id),
    ensures
        i < accounts_after(accounts, user_id, jwt_full, refresh, now).len(),
        accounts_after(accounts, user_id, jwt_full, refresh, now)[i] == accounts[i],
{
    lemma_account_of(accounts, user_id);
}

/// The account that a capture makes for a new user is found under that user from then on.
pub proof fn appended_user_is_found(
    accounts: Seq<JsonV>,
    user_id: Seq<char>,
    jwt_full: Seq<char>,
    refresh: Option<Seq<char>>,
    now: Seq<char>,
)
    requires
        account_of(accounts, user_id) == accounts.len(),
    ensures
        account_of(accounts_after(accounts, user_id, jwt_full, refresh, now), user_id) == accounts.len(),
{
    let acc = new_account(user_id, jwt_full, refresh, now);
    let after = accounts.push(acc);
    let a = json::with_field(Seq::empty(), "name"@, JsonV::Str("auto_"@ + text::head_chars(user_id, 8)));
    let b = json::with_field(a, "UserID"@, JsonV::Str(user_id));
    let c = json::with_field(b, "jwt"@, JsonV::Str(jwt_full));
    let d = json::with_field(c, "added_at"@, JsonV::Str(now));
    reveal_strlit("UserID");
    reveal_strlit("jwt");
    reveal_strlit("added_at");
    reveal_strlit("refresh_token");
    reveal_strlit("refresh_token_updated_at");
    assert("UserID"@.len() == 6 && "jwt"@.len() == 3 && "added_at"@.len() == 8);
    assert("refresh_token"@.len() == 13 && "refresh_token_updated_at"@.len() == 24);
    json::set_then_get(a, "UserID"@, JsonV::Str(user_id), "UserID"@);
    json::set_then_get(b, "jwt"@, JsonV::Str(jwt_full), "UserID"@);
    json::set_then_get(c, "added_at"@, JsonV::Str(now), "UserID"@);
    if let Some(rt) = refresh {
        let e = json::with_field(d, "refresh_token"@, JsonV::Str(rt));
        json::set_then_get(d, "refresh_token"@, JsonV::Str(rt), "UserID"@);
        json::set_then_get(e, "refresh_token_updated_at"@, JsonV::Str(now), "UserID"@);
    }
    assert(is_users(acc, user_id));
    lemma_account_of(accounts, user_id);
    lemma_account_of(after, user_id);
    let k = account_of(after, user_id);
    assert(after[accounts.len() as int] == acc);
    if k < accounts.len() {
        assert(after[k] == accounts[k]);
    }
}

/// The accounts of a document; none where it has no list of them.
pub open spec fn accounts_in(cfg: JsonV) -> Seq<JsonV> {
    cfg.elements_at("accounts"@)
}

/// A document with its accounts set; null is a document without anything in it.
pub open spec fn with_accounts(cfg: JsonV, accounts: Seq<JsonV>) -> JsonV {
    let o = match cfg {
        JsonV::Obj(o) => o,
        _ => Seq::empty(),
    };
    JsonV::Obj(json::with_field(o, "accounts"@, JsonV::Arr(accounts)))
}

/// The line that reports an event, with the expiry times in words.
pub open spec fn event_text(e: CaptureEventV, user_id: Seq<char>, old_exp: Seq<char>, new_exp: Seq<char>) -> Seq<char> {
    match e {
        CaptureEventV::Older(name, _) => "  [JWT 跳过(更旧)] uid="@ + user_id + " 账号="@ + name + " 旧 exp="@ + old_exp
            + " 新 exp="@ + new_exp,
        CaptureEventV::Updated(name) => "  [JWT 自动更新] user="@ + user_id + " 账号="@ + name + " exp="@ + new_exp,
        CaptureEventV::Refreshed(name) => "  [refresh_token 更新] uid="@ + user_id + " 账号="@ + name,
        CaptureEventV::Appended(name) => "  [JWT 自动追加新账号] user="@ + user_id + " -> name="@ + name + " exp="@ + new_exp,
    }
}

/// The line that reports an event.
pub fn event_line(e: &CaptureEvent, user_id: &str, old_exp: &str, new_exp: &str) -> (r: String)
    ensures
        r@ == event_text(e@, user_id@, old_exp@, new_exp@),
{
    match e {
        CaptureEvent::Older { name, .. } => {
            let mut r = text::cat3("  [JWT 跳过(更旧)] uid=", user_id, " 账号=");
            r.append(name.as_str());
            r.append(" 旧 exp=");
            r.append(old_exp);
            r.append(" 新 exp=");
            r.append(new_exp);
            r
        },
        CaptureEvent::Updated { name } => {
            let mut r = text::cat3("  [JWT 自动更新] user=", user_id, " 账号=");
            r.append(name.as_str());
            r.append(" exp=");
            r.append(new_exp);
            r
        },
        CaptureEvent::Refreshed { name } => {
            let mut r = text::cat3("  [refresh_token 更新] uid=", user_id, " 账号=");
            r.append(name.as_str());
            r
        },
        CaptureEvent::Appended { name } => {
            let mut r = text::cat3("  [JWT 自动追加新账号] user=", user_id, " -> name=");
            r.append(name.as_str());
            r.append(" exp=");
            r.append(new_exp);
            r
        },
    }
}

/// A document of accounts after a capture, and what to do about it.
pub struct DocumentUpdate {
    pub cfg: Json,
    pub status: JwtStatus,
    /// Whether the document has to be written.
    pub write: bool,
    /// The lines to log.
    pub lines: Vec<String>,
}

/// Whether a text shows an expiry: in local time, or a question mark where it is not known or is no
/// time.
pub open spec fn shows_expiry(expiry: Option<int>, t: Seq<char>) -> bool {
    match expiry {
        Some(s) => clock::is_local_text(s, t) || (!clock::in_range(s) && t == "?"@),
        None => t == "?"@,
    }
}

/// Whether a line reports a token that is older than the one that is there.
pub open spec fn is_older_line(line: Seq<char>, e: CaptureEventV, old: int, user_id: Seq<char>, new_exp: Seq<char>) -> bool {
    exists|old_exp: Seq<char>|
        #[trigger] shows_expiry(Some(old), old_exp) && line == event_text(e, user_id, old_exp, new_exp)
}

/// Whether a line reports an event.
pub open spec fn is_event_line(line: Seq<char>, e: CaptureEventV, user_id: Seq<char>, new_exp: Seq<char>) -> bool {
    match e {
        CaptureEventV::Older(_, old) => is_older_line(line, e, old, user_id, new_exp),
        _ => line == event_text(e, user_id, ""@, new_exp),
    }
}

/// Whether lines report events, one each, for a token with the given expiry.
pub open spec fn are_event_lines(
    lines: Seq<Seq<char>>,
    evs: Seq<CaptureEventV>,
    user_id: Seq<char>,
    expiry: Option<int>,
) -> bool {
    exists|new_exp: Seq<char>|
        {
            &&& #[trigger] shows_expiry(expiry, new_exp)
            &&& lines.len() == evs.len()
            &&& forall|i: int| 0 <= i < evs.len() ==> is_event_line(#[trigger] lines[i], evs[i], user_id, new_exp)
        }
}

/// Whether an event changes the accounts.
pub open spec fn is_change(e: CaptureEventV) -> bool {
    e !is Older
}

fn minute_or_mark(t: Option<i64>) -> (r: String)
    ensures
        shows_expiry(
            match t {
                Some(s) => Some(s as int),
                None => None,
            },
            r@,
        ),
{
    match t {
        Some(s) => match clock::local_minute(s) {
            Some(m) => m,
            None => "?".to_owned(),
        },
        None => "?".to_owned(),
    }
}

proof fn lemma_with_token(
    o: Seq<(Seq<char>, JsonV)>,
    key: Seq<char>,
    token: Seq<char>,
    at_key: Seq<char>,
    now: Seq<char>,
)
    requires
        JsonV::Obj(o).wf(),
    ensures
        JsonV::Obj(with_token(o, key, token, at_key, now)).wf(),
{
    json::set_keeps_valid(o, key, JsonV::Str(token));
    json::set_keeps_valid(json::with_field(o, key, JsonV::Str(token)), at_key, JsonV::Str(now));
}

/// A document of accounts stays valid when tokens come in.
pub proof fn captures_keep_documents_valid(
    cfg: JsonV,
    user_id: Seq<char>,
    jwt_full: Seq<char>,
    refresh: Option<Seq<char>>,
    now: Seq<char>,
)
    requires
        cfg.wf(),
        cfg is Obj || cfg is Null,
    ensures
        with_accounts(cfg, accounts_after(accounts_in(cfg), user_id, jwt_full, refresh, now)).wf(),
{
    let all = accounts_in(cfg);
    json::lemma_get_wf(cfg, "accounts"@);
    assert forall|k: int| 0 <= k < all.len() implies (#[trigger] all[k]).wf() by {}
    let i = account_of(all, user_id);
    let after = accounts_after(all, user_id, jwt_full, refresh, now);
    let acc = if 0 <= i < all.len() {
        refreshed(all[i], jwt_full, refresh, now)
    } else {
        new_account(user_id, jwt_full, refresh, now)
    };
    assert(acc.wf()) by {
        if 0 <= i < all.len() {
            if let JsonV::Obj(o) = all[i] {
                let a = if jwt_fate(text_or(all[i], "jwt"@, ""@), jwt_full) is Updated {
                    lemma_with_token(o, "jwt"@, jwt_full, "updated_at"@, now);
                    with_token(o, "jwt"@, jwt_full, "updated_at"@, now)
                } else {
                    o
                };
                if let Some(rt) = refresh {
                    lemma_with_token(a, "refresh_token"@, rt, "refresh_token_updated_at"@, now);
                }
            }
        } else {
            let none = Seq::<(Seq<char>, JsonV)>::empty();
            let name = JsonV::Str("auto_"@ + text::head_chars(user_id, 8));
            let a = json::with_field(none, "name"@, name);
            let b = json::with_field(a, "UserID"@, JsonV::Str(user_id));
            let c = json::with_field(b, "jwt"@, JsonV::Str(jwt_full));
            let d = json::with_field(c, "added_at"@, JsonV::Str(now));
            assert(JsonV::Obj(none).wf());
            json::set_keeps_valid(none, "name"@, name);
            json::set_keeps_valid(a, "UserID"@, JsonV::Str(user_id));
            json::set_keeps_valid(b, "jwt"@, JsonV::Str(jwt_full));
            json::set_keeps_valid(c, "added_at"@, JsonV::Str(now));
            if let Some(rt) = refresh {
                lemma_with_token(d, "refresh_token"@, rt, "refresh_token_updated_at"@, now);
            }
        }
    }
    assert forall|k: int| 0 <= k < after.len() implies (#[trigger] after[k]).wf() by {
        assert(after[k] == acc || after[k] == all[k]);
    }
    let o = match cfg {
        JsonV::Obj(o) => o,
        _ => Seq::empty(),
    };
    assert(JsonV::Obj(o).wf());
    json::set_keeps_valid(o, "accounts"@, JsonV::Arr(after));
}

/// Takes a user's token and, where there is one, refresh token into a document of accounts. The
/// lines show the expiry in local time, which the machine decides.
pub fn update_account_jwt_and_refresh(
    cfg: &Json,
    user_id: &str,
    jwt_full: &str,
    refresh_token: Option<&str>,
    now: &str,
) -> (r: DocumentUpdate)
    requires
        cfg@.wf(),
        cfg@ is Obj || cfg@ is Null,
    ensures
        r.cfg@.wf(),
        ({
            let all = accounts_in(cfg@);
            let rt = text::opt_str(refresh_token);
            let evs = reported(all, user_id@, jwt_full@, rt);
            &&& r.cfg@ == with_accounts(cfg@, accounts_after(all, user_id@, jwt_full@, rt, now@))
            &&& r.status == status_after(all, user_id@, jwt_full@)
            &&& r.write == exists|i: int| 0 <= i < evs.len() && is_change(#[trigger] evs[i])
            &&& are_event_lines(text::texts(r.lines@), evs, user_id@, jwt::token_expiry(jwt_full@))
        }),
{
    let empty: Vec<Json> = Vec::new();
    assert(json::items(empty@) =~= Seq::empty());
    let list = match cfg.get("accounts") {
        Some(v) => match v.as_array() {
            Some(a) => {
                proof {
                    json::lemma_get_wf(cfg@, "accounts"@);
                    assert forall|i: int| 0 <= i < a@.len() implies (#[trigger] a@[i])@.wf() by {
                        assert(json::items(a@)[i].wf());
                    }
                }
                a
            },
            None => &empty,
        },
        None => &empty,
    };
    let ghost all = accounts_in(cfg@);
    assert(json::items(list@) == all);
    let up = take_tokens(list, user_id, jwt_full, refresh_token, now);
    let mut o = json::fields_of(cfg);
    let arr = Json::Array(up.accounts);
    proof {
        json::lemma_view_parts(arr);
    }
    json::put(&mut o, "accounts", arr);
    let new_cfg = Json::Object(o);
    proof {
        json::lemma_view_parts(new_cfg);
        captures_keep_documents_valid(cfg@, user_id@, jwt_full@, text::opt_str(refresh_token), now@);
    }
    let new_exp = minute_or_mark(jwt::jwt_exp_ts(jwt_full));
    let mut write = false;
    let mut lines: Vec<String> = Vec::new();
    let ghost evs = events(up.events@);
    let mut i: usize = 0;
    while i < up.events.len()
        invariant
            i <= up.events@.len(),
            evs == events(up.events@),
            write == exists|k: int| 0 <= k < i && is_change(#[trigger] evs[k]),
            text::texts(lines@).len() == i,
            forall|k: int|
                0 <= k < i ==> is_event_line(#[trigger] text::texts(lines@)[k], evs[k], user_id@, new_exp@),
        decreases up.events@.len() - i,
    {
        let ghost before = text::texts(lines@);
        assert(evs[i as int] == up.events@[i as int]@);
        let line = match &up.events[i] {
            CaptureEvent::Older { old_exp: t, .. } => {
                let old_exp = minute_or_mark(Some(*t));
                assert(!is_change(evs[i as int]));
                assert(shows_expiry(Some(*t as int), old_exp@));
                event_line(&up.events[i], user_id, old_exp.as_str(), new_exp.as_str())
            },
            _ => {
                write = true;
                assert(is_change(evs[i as int]));
                event_line(&up.events[i], user_id, "", new_exp.as_str())
            },
        };
        assert(is_event_line(line@, evs[i as int], user_id@, new_exp@));
        lines.push(line);
        assert(text::texts(lines@) =~= before.push(line@));
        i += 1;
    }
    assert(shows_expiry(jwt::token_expiry(jwt_full@), new_exp@));
    DocumentUpdate { cfg: new_cfg, status: up.status, write, lines }
}

/// Takes a user's token into a document of accounts.
pub fn update_account_jwt(cfg: &Json, user_id: &str, jwt_full: &str, now: &str) -> (r: DocumentUpdate)
    requires
        cfg@.wf(),
        cfg@ is Obj || cfg@ is Null,
    ensures
        r.cfg@.wf(),
        r.cfg@ == with_accounts(cfg@, accounts_after(accounts_in(cfg@), user_id@, jwt_full@, None, now@)),
        r.status == status_after(accounts_in(cfg@), user_id@, jwt_full@),
        are_event_lines(
            text::texts(r.lines@),
            reported(accounts_in(cfg@), user_id@, jwt_full@, None),
            user_id@,
            jwt::token_expiry(jwt_full@),
        ),
        r.write == exists|i: int|
            0 <= i < reported(accounts_in(cfg@), user_id@, jwt_full@, None).len() && is_change(
                #[trigger] reported(accounts_in(cfg@), user_id@, jwt_full@, None)[i],
            ),
{
    update_account_jwt_and_refresh(cfg, user_id, jwt_full, None, now)
}

// ---- cooldowns ----

/// Whether an account's rest ends: only where its token has really been replaced.
pub fn ends_rest(status: JwtStatus) -> (r: bool)
    ensures
        r == (status is Updated),
{
    match status {
        JwtStatus::Updated => true,
        _ => false,
    }
}

/// A rest ends only for a user whose account was there, and whose token is another one after the
/// capture than before: the one that came, which expires later than the old one where both say when.
pub proof fn rest_ends_only_with_a_new_token(
    accounts: Seq<JsonV>,
    user_id: Seq<char>,
    jwt_full: Seq<char>,
    refresh: Option<Seq<char>>,
    now: Seq<char>,
)
    requires
        status_after(accounts, user_id, jwt_full) is Updated,
    ensures
        ({
            let i = account_of(accounts, user_id);
            let after = accounts_after(accounts, user_id, jwt_full, refresh, now);
            let old = text_or(accounts[i], "jwt"@, ""@);
            &&& 0 <= i < accounts.len()
            &&& is_users(accounts[i], user_id)
            &&& old != jwt_full
            &&& (jwt::token_expiry(old), jwt::token_expiry(jwt_full)) matches (Some(o), Some(n)) ==> n > o
            &&& after[i].text_at("jwt"@) == Some(jwt_full)
        }),
{
    let i = account_of(accounts, user_id);
    lemma_account_of(accounts, user_id);
    let o = accounts[i]->Obj_0;
    reveal_strlit("refresh_token");
    reveal_strlit("refresh_token_updated_at");
    reveal_strlit("jwt");
    reveal_strlit("updated_at");
    assert("jwt"@.len() == 3 && "updated_at"@.len() == 10 && "refresh_token"@.len() == 13);
    assert("refresh_token_updated_at"@.len() == 24);
    let o1 = json::with_field(o, "jwt"@, JsonV::Str(jwt_full));
    let o2 = json::with_field(o1, "updated_at"@, JsonV::Str(now));
    json::set_then_get(o, "jwt"@, JsonV::Str(jwt_full), "jwt"@);
    json::set_then_get(o1, "updated_at"@, JsonV::Str(now), "jwt"@);
    if let Some(rt) = refresh {
        let o3 = json::with_field(o2, "refresh_token"@, JsonV::Str(rt));
        json::set_then_get(o2, "refresh_token"@, JsonV::Str(rt), "jwt"@);
        json::set_then_get(o3, "refresh_token_updated_at"@, JsonV::Str(now), "jwt"@);
    }
}

/// The cooldowns without that of a user, and the line to log; nothing where the user has none.
pub fn clear_cooldown(cooldowns: &Vec<(String, Json)>, user_id: &str) -> (r: Option<(Vec<(String, Json)>, String)>)
    ensures
        match r {
            Some((rest, line)) => json::field(json::fields(cooldowns@), user_id@) is Some && json::fields(rest@)
                == json::without_field(json::fields(cooldowns@), user_id@) && line@ == "  [冷却解除] uid="@ + user_id@
                + "（新 JWT 捕获成功，自动解除登录失效标记）"@,
            None => json::field(json::fields(cooldowns@), user_id@) is None,
        },
{
    let mut rest: Vec<(String, Json)> = Vec::new();
    let mut found = false;
    let mut i: usize = 0;
    let ghost all = json::fields(cooldowns@);
    let ghost keep = |p: (Seq<char>, JsonV)| p.0 != user_id@;
    assert(all.take(0) =~= Seq::empty());
    assert(json::fields(rest@) =~= all.take(0).filter(keep)) by {
        reveal(Seq::filter);
    }
    assert(all.skip(0) =~= all);
    while i < cooldowns.len()
        invariant
            i <= cooldowns@.len(),
            all == json::fields(cooldowns@),
            keep == (|p: (Seq<char>, JsonV)| p.0 != user_id@),
            json::fields(rest@) == all.take(i as int).filter(keep),
            found ==> json::field(all, user_id@) is Some,
            !found ==> json::field(all, user_id@) == json::field(all.skip(i as int), user_id@),
        decreases cooldowns@.len() - i,
    {
        let ghost before = json::fields(rest@);
        let ghost entry = all[i as int];
        proof {
            assert(entry == (cooldowns@[i as int].0@, cooldowns@[i as int].1@));
            reveal(Seq::filter);
            assert(all.take(i + 1).drop_last() =~= all.take(i as int));
            assert(all.take(i + 1).last() == entry);
            assert(all.skip(i as int)[0] == entry);
            assert(all.skip(i as int).skip(1) =~= all.skip(i + 1));
        }
        if text::same(cooldowns[i].0.as_str(), user_id) {
            found = true;
        } else {
            let e = (cooldowns[i].0.clone(), cooldowns[i].1.dup());
            rest.push(e);
            assert(json::fields(rest@) =~= before.push((e.0@, e.1@)));
        }
        i += 1;
    }
    assert(all.take(all.len() as int) =~= all);
    if found {
        let mut line = "  [冷却解除] uid=".to_owned();
        line.append(user_id);
        line.append("（新 JWT 捕获成功，自动解除登录失效标记）");
        Some((rest, line))
    } else {
        None
    }
}

// ---- refresh tokens ----

/// What a response to a token exchange gives.
pub enum TokenCapture {
    /// Nothing to capture.
    Nothing,
    /// A refresh token whose user cannot be told.
    NoUser,
    /// A user's tokens.
    Found { user_id: String, jwt: String, refresh_token: String },
}

/// The model of what a response to a token exchange gives.
pub enum TokenCaptureV {
    Nothing,
    NoUser,
    Found(Seq<char>, Seq<char>, Seq<char>),
}

impl View for TokenCapture {
    type V = TokenCaptureV;

    open spec fn view(&self) -> TokenCaptureV {
        match *self {
            TokenCapture::Nothing => TokenCaptureV::Nothing,
            TokenCapture::NoUser => TokenCaptureV::NoUser,
            TokenCapture::Found { user_id, jwt, refresh_token } => TokenCaptureV::Found(
                user_id@,
                jwt@,
                refresh_token@,
            ),
        }
    }
}

/// The data of a response: its data field where that is an object, else all of it.
pub open spec fn inner_data(data: JsonV) -> JsonV {
    match data.get("data"@) {
        Some(d) => if d is Obj {
            d
        } else {
            data
        },
        None => data,
    }
}

/// The access token of a response; empty where there is none.
pub open spec fn access_token(inner: JsonV) -> Seq<char> {
    match (inner.text_at("access_token"@), inner.text_at("token"@)) {
        (Some(t), _) => t,
        (None, Some(t)) => t,
        (None, None) => Seq::empty(),
    }
}

/// The token as it is stored: one that has its word in front is taken as it is, any other has to
/// be one that can be captured.
pub open spec fn stored_token(at: Seq<char>) -> Option<Seq<char>> {
    if at.len() == 0 {
        None
    } else if text::has_prefix(at, "Cloud-IDE-JWT"@) {
        Some(at)
    } else {
        jwt::captured_token(at)
    }
}

/// The tokens in the data of a response.
pub open spec fn tokens_of(data: JsonV) -> TokenCaptureV {
    let inner = inner_data(data);
    match inner.text_at("refresh_token"@) {
        None => TokenCaptureV::Nothing,
        Some(rt) => match stored_token(access_token(inner)) {
            None => TokenCaptureV::NoUser,
            Some(full) => match jwt::token_user(full) {
                None => TokenCaptureV::NoUser,
                Some(uid) => TokenCaptureV::Found(uid, full, rt),
            },
        },
    }
}

/// The tokens in the data of a response.
pub fn tokens_in(data: &Json) -> (r: TokenCapture)
    ensures
        r@ == tokens_of(data@),
{
    let inner = match data.get("data") {
        Some(d) => if d.is_object() {
            d
        } else {
            data
        },
        None => data,
    };
    match inner.str_at("refresh_token") {
        None => TokenCapture::Nothing,
        Some(rt) => {
            let at = match inner.str_at("access_token") {
                Some(t) => t.to_owned(),
                None => match inner.str_at("token") {
                    Some(t) => t.to_owned(),
                    None => String::new(),
                },
            };
            let full = if at.as_str().unicode_len() == 0 {
                None
            } else if text::starts_with(at.as_str(), "Cloud-IDE-JWT") {
                Some(at)
            } else {
                jwt::valid_cloud_ide_jwt(at.as_str())
            };
            match full {
                None => TokenCapture::NoUser,
                Some(f) => match jwt::extract_user_id(f.as_str()) {
                    None => TokenCapture::NoUser,
                    Some(uid) => TokenCapture::Found { user_id: uid, jwt: f, refresh_token: rt.to_owned() },
                },
            }
        },
    }
}

/// Whether a path is one of a token exchange.
pub open spec fn is_exchange_path(path: Seq<char>) -> bool {
    text::has_text(path, "ExchangeToken"@) || text::has_text(text::smalls(path), "oauth"@)
}

/// The bytes of the words that a body with a refresh token holds.
pub open spec fn refresh_mark() -> Seq<u8> {
    seq![114u8, 101u8, 102u8, 114u8, 101u8, 115u8, 104u8, 95u8, 116u8, 111u8, 107u8, 101u8, 110u8]
}

/// The tokens in a response, where its path is one of a token exchange.
pub fn try_capture_refresh_token(path: &str, body: &[u8]) -> (r: TokenCapture)
    ensures
        r@ == if !text::has_text(body@, refresh_mark()) || !is_exchange_path(path@) {
            TokenCaptureV::Nothing
        } else {
            match json::json_of_bytes(body@) {
                Some(data) => tokens_of(data),
                None => TokenCaptureV::Nothing,
            }
        },
{
    let mark: Vec<u8> = vec![114, 101, 102, 114, 101, 115, 104, 95, 116, 111, 107, 101, 110];
    assert(mark@ =~= refresh_mark());
    proof {
        text::lemma_find_from(body@, mark@, 0);
    }
    if http::find_bytes(body, mark.as_slice()).is_none() {
        return TokenCapture::Nothing;
    }
    if !text::contains(path, "ExchangeToken") && !text::contains(text::to_smalls(path).as_str(), "oauth") {
        return TokenCapture::Nothing;
    }
    match json::read_json_bytes(body) {
        Some(data) => tokens_in(&data),
        None => TokenCapture::Nothing,
    }
}

// ---- session cookies ----

/// The text without the `c`s at either end.
pub open spec fn without_ends(s: Seq<char>, c: char) -> Seq<char> {
    jwt::trim_end_char(trim_start_char(s, c), c)
}

/// The text without the `c`s it starts with.
pub open spec fn trim_start_char(s: Seq<char>, c: char) -> Seq<char>
    decreases s.len(),
{
    if s.len() > 0 && s[0] == c {
        trim_start_char(s.skip(1), c)
    } else {
        s
    }
}

fn drop_ends(s: &str, c: char) -> (r: String)
    ensures
        r@ == without_ends(s@, c),
{
    let v = text::chars_of(s);
    let mut i: usize = 0;
    assert(v@.skip(0) =~= v@);
    while i < v.len() && v[i] == c
        invariant
            i <= v@.len(),
            v@ == s@,
            trim_start_char(s@, c) == trim_start_char(v@.skip(i as int), c),
        decreases v@.len() - i,
    {
        assert(v@.skip(i as int).skip(1) =~= v@.skip(i + 1));
        i += 1;
    }
    let t = text::text_of(&v[i..v.len()]);
    assert(t@ =~= v@.skip(i as int));
    jwt::drop_end_char(t.as_str(), c)
}

/// One cookie of a header: what stands on both sides of the equals sign, without quotes.
pub open spec fn cookie_of(part: Seq<char>) -> Option<(Seq<char>, Seq<char>)> {
    match text::cut_at(part, '=') {
        Some((k, v)) => Some((text::trimmed(k), without_ends(text::trimmed(v), '"'))),
        None => None,
    }
}

/// The cookies of the parts of a header.
pub open spec fn cookies_of(parts: Seq<Seq<char>>) -> Seq<(Seq<char>, Seq<char>)>
    decreases parts.len(),
{
    if parts.len() == 0 {
        Seq::empty()
    } else {
        match cookie_of(parts.last()) {
            Some(c) => cookies_of(parts.drop_last()).push(c),
            None => cookies_of(parts.drop_last()),
        }
    }
}

/// The cookies of a header.
pub fn parse_cookie_header(cookie: &str) -> (r: Vec<(String, String)>)
    ensures
        headers::pairs(r@) == cookies_of(text::split_on(cookie@, ';')),
{
    let parts = text::split(cookie, ';');
    let ghost all = text::texts(parts@);
    let mut r: Vec<(String, String)> = Vec::new();
    assert(all.take(0) =~= Seq::empty());
    assert(headers::pairs(r@) =~= Seq::empty());
    let mut i: usize = 0;
    while i < parts.len()
        invariant
            i <= parts@.len(),
            all == text::texts(parts@),
            headers::pairs(r@) == cookies_of(all.take(i as int)),
        decreases parts@.len() - i,
    {
        let ghost before = headers::pairs(r@);
        proof {
            assert(all.take(i + 1).drop_last() =~= all.take(i as int));
            assert(all.take(i + 1).last() == parts@[i as int]@);
        }
        if let Some((k, v)) = text::split_once(parts[i].as_str(), '=') {
            let e = (text::trim(k.as_str()), drop_ends(text::trim(v.as_str()).as_str(), '"'));
            r.push(e);
            assert(headers::pairs(r@) =~= before.push((e.0@, e.1@)));
        }
        i += 1;
    }
    assert(all.take(all.len() as int) =~= all);
    r
}

/// The pattern of the cookie that lists the sessions of all users.
pub const MULTI_SIDS: &'static str = "multi_sids=([^;\\s]+)";

/// The name for the first group of the first match of a pattern in a text.
pub uninterp spec fn regex_group(pattern: Seq<char>, text: Seq<char>) -> Option<Seq<char>>;

/// `regex::Regex::new` on the pattern, and the first group that `captures` finds in the text. The
/// pattern is one that compiles; the result is a function of the two texts.
#[verifier::external_body]
fn regex_capture(pattern: &str, text: &str) -> (r: Option<String>)
    requires
        pattern@ == MULTI_SIDS@,
    ensures
        text::opt_text(r) == regex_group(pattern@, text@),
{
    regex::Regex::new(pattern).expect("multi_sids").captures(text).and_then(
        |c| c.get(1).map(|g| g.as_str().to_string()),
    )
}

/// Whether a pair of a user and a session is that of the session: the user in digits, both sides
/// trimmed.
pub open spec fn session_user(pair: Seq<char>, session_id: Seq<char>) -> Option<Seq<char>> {
    match text::cut_at(pair, ':') {
        Some((u, s)) => {
            let uid = text::trimmed(u);
            if uid.len() > 0 && digits::all_digits(uid, 10) && text::trimmed(s) == session_id {
                Some(uid)
            } else {
                None
            }
        },
        None => None,
    }
}

/// The user of the first pair that is that of the session; empty where there is none.
pub open spec fn first_session_user(pairs: Seq<Seq<char>>, session_id: Seq<char>) -> Seq<char>
    decreases pairs.len(),
{
    if pairs.len() == 0 {
        Seq::empty()
    } else {
        match session_user(pairs[0], session_id) {
            Some(u) => u,
            None => first_session_user(pairs.skip(1), session_id),
        }
    }
}

/// The user of a session in a list of pairs, which bars or semicolons part.
pub open spec fn listed_user(list: Seq<char>, session_id: Seq<char>) -> Seq<char> {
    first_session_user(text::split_on(text::replaced(list, ';', "|"@), '|'), session_id)
}

fn all_decimal(s: &str) -> (r: bool)
    ensures
        r == digits::all_digits(s@, 10),
{
    let v = text::chars_of(s);
    let mut i: usize = 0;
    while i < v.len()
        invariant
            i <= v@.len(),
            v@ == s@,
            forall|j: int| 0 <= j < i ==> digits::digit_value(#[trigger] s@[j]) < 10,
        decreases v@.len() - i,
    {
        if !('0' <= v[i] && v[i] <= '9') {
            assert(digits::digit_value(s@[i as int]) >= 10);
            return false;
        }
        i += 1;
    }
    true
}

/// The user of a session in a list of pairs.
pub fn user_in_list(list: &str, session_id: &str) -> (r: String)
    ensures
        r@ == listed_user(list@, session_id@),
{
    let flat = text::replace_char(list, ';', "|");
    let pairs = text::split(flat.as_str(), '|');
    let ghost all = text::texts(pairs@);
    assert(all.skip(0) =~= all);
    let mut i: usize = 0;
    while i < pairs.len()
        invariant
            i <= pairs@.len(),
            all == text::texts(pairs@),
            all == text::split_on(text::replaced(list@, ';', "|"@), '|'),
            first_session_user(all, session_id@) == first_session_user(all.skip(i as int), session_id@),
        decreases pairs@.len() - i,
    {
        proof {
            assert(all.skip(i as int)[0] == pairs@[i as int]@);
            assert(all.skip(i as int).skip(1) =~= all.skip(i + 1));
        }
        if let Some((u, s)) = text::split_once(pairs[i].as_str(), ':') {
            let uid = text::trim(u.as_str());
            let sid = text::trim(s.as_str());
            if uid.as_str().unicode_len() > 0 && all_decimal(uid.as_str()) && text::same(sid.as_str(), session_id) {
                return uid;
            }
        }
        i += 1;
    }
    let r = String::new();
    assert(r@ =~= Seq::empty());
    r
}

/// The user of a session, out of the cookie that lists the sessions of all users.
pub open spec fn multi_sids_user(cookie: Seq<char>, session_id: Seq<char>) -> Seq<char> {
    match regex_group(MULTI_SIDS@, cookie) {
        None => Seq::empty(),
        Some(raw) => match codec::url_decoded(raw) {
            Some(list) => listed_user(list, session_id),
            None => listed_user(Seq::empty(), session_id),
        },
    }
}

/// The user of a session, out of the cookie that lists the sessions of all users; empty where it
/// does not tell.
pub fn doubao_uid_from_multi_sids(cookie: &str, session_id: &str) -> (r: String)
    ensures
        r@ == multi_sids_user(cookie@, session_id@),
{
    match regex_capture(MULTI_SIDS, cookie) {
        None => {
            let r = String::new();
            assert(r@ =~= Seq::empty());
            r
        },
        Some(raw) => match codec::url_decode(raw.as_str()) {
            Some(list) => user_in_list(list.as_str(), session_id),
            None => {
                let e = String::new();
                assert(e@ =~= Seq::empty());
                user_in_list(e.as_str(), session_id)
            },
        },
    }
}

/// The cookies that make up a session.
pub open spec fn session_cookies() -> Seq<Seq<char>> {
    seq!["sessionid"@, "sid_guard"@, "ttwid"@]
}

/// The value of the first cookie with the name; empty where there is none.
pub open spec fn cookie_value(jar: Seq<(Seq<char>, Seq<char>)>, name: Seq<char>) -> Seq<char>
    decreases jar.len(),
{
    if jar.len() == 0 {
        Seq::empty()
    } else if jar[0].0 == name {
        jar[0].1
    } else {
        cookie_value(jar.skip(1), name)
    }
}

/// Whether a cookie of the name is in the jar.
pub open spec fn has_cookie(jar: Seq<(Seq<char>, Seq<char>)>, name: Seq<char>) -> bool {
    exists|i: int| 0 <= i < jar.len() && (#[trigger] jar[i]).0 == name
}

/// The jar after the cookies that a response sets: those of a session that the request lacks are
/// taken in.
pub open spec fn jar_after(jar: Seq<(Seq<char>, Seq<char>)>, resp: Seq<(Seq<char>, Seq<char>)>) -> Seq<
    (Seq<char>, Seq<char>),
>
    decreases resp.len(),
{
    if resp.len() == 0 {
        jar
    } else {
        let h = resp[0];
        let first = text::split_on(h.1, ';')[0];
        let next = if !headers::same_name(h.0, "set-cookie"@) {
            jar
        } else {
            match text::cut_at(first, '=') {
                Some((k, v)) => if session_cookies().contains(text::trimmed(k)) && !has_cookie(
                    jar,
                    text::trimmed(k),
                ) {
                    jar.push((text::trimmed(k), text::trimmed(v)))
                } else {
                    jar
                },
                None => jar,
            }
        };
        jar_after(next, resp.skip(1))
    }
}

/// The credentials of a session.
pub struct Credentials {
    pub session_id: String,
    pub sid_guard: String,
    pub ttwid: String,
    pub uid: String,
    pub host: String,
}

/// The model of a session's credentials.
#[verifier::ext_equal]
pub struct CredentialsV {
    pub session_id: Seq<char>,
    pub sid_guard: Seq<char>,
    pub ttwid: Seq<char>,
    pub uid: Seq<char>,
    pub host: Seq<char>,
}

impl View for Credentials {
    type V = CredentialsV;

    open spec fn view(&self) -> CredentialsV {
        CredentialsV {
            session_id: self.session_id@,
            sid_guard: self.sid_guard@,
            ttwid: self.ttwid@,
            uid: self.uid@,
            host: self.host@,
        }
    }
}

/// The session's credentials in an exchange with a host of the service.
pub open spec fn credentials_in(
    host: Seq<char>,
    req: Seq<(Seq<char>, Seq<char>)>,
    resp: Seq<(Seq<char>, Seq<char>)>,
) -> Option<CredentialsV> {
    let h = text::smalls(host);
    let cookie = match http::last_header(req, "cookie"@) {
        Some(c) => c,
        None => Seq::empty(),
    };
    let jar = jar_after(cookies_of(text::split_on(cookie, ';')), resp);
    let sid = cookie_value(jar, "sessionid"@);
    if !text::has_suffix(h, ".doubao.com"@) || sid.len() == 0 {
        None
    } else {
        Some(
            CredentialsV {
                session_id: sid,
                sid_guard: cookie_value(jar, "sid_guard"@),
                ttwid: cookie_value(jar, "ttwid"@),
                uid: multi_sids_user(cookie, sid),
                host: h,
            },
        )
    }
}

fn value_in(jar: &Vec<(String, String)>, name: &str) -> (r: String)
    ensures
        r@ == cookie_value(headers::pairs(jar@), name@),
{
    let ghost all = headers::pairs(jar@);
    assert(all.skip(0) =~= all);
    let mut i: usize = 0;
    while i < jar.len()
        invariant
            i <= jar@.len(),
            all == headers::pairs(jar@),
            cookie_value(all, name@) == cookie_value(all.skip(i as int), name@),
        decreases jar@.len() - i,
    {
        proof {
            assert(all.skip(i as int)[0] == (jar@[i as int].0@, jar@[i as int].1@));
            assert(all.skip(i as int).skip(1) =~= all.skip(i + 1));
        }
        if text::same(jar[i].0.as_str(), name) {
            return jar[i].1.clone();
        }
        i += 1;
    }
    let r = String::new();
    assert(r@ =~= Seq::empty());
    r
}

fn in_jar(jar: &Vec<(String, String)>, name: &str) -> (r: bool)
    ensures
        r == has_cookie(headers::pairs(jar@), name@),
{
    let mut i: usize = 0;
    while i < jar.len()
        invariant
            i <= jar@.len(),
            forall|j: int| 0 <= j < i ==> (#[trigger] headers::pairs(jar@)[j]).0 != name@,
        decreases jar@.len() - i,
    {
        assert(headers::pairs(jar@)[i as int].0 == jar@[i as int].0@);
        if text::same(jar[i].0.as_str(), name) {
            return true;
        }
        i += 1;
    }
    false
}

/// The session's credentials in an exchange with a host of the service, where they are all there
/// is need of.
pub fn try_capture_doubao_credentials(
    host: &str,
    req_headers: &Vec<(String, String)>,
    resp_headers: &Vec<(String, String)>,
) -> (r: Option<Credentials>)
    ensures
        match r {
            Some(c) => credentials_in(host@, headers::pairs(req_headers@), headers::pairs(resp_headers@)) == Some(c@),
            None => credentials_in(host@, headers::pairs(req_headers@), headers::pairs(resp_headers@)) is None,
        },
{
    let host_l = text::to_smalls(host);
    if !text::ends_with(host_l.as_str(), ".doubao.com") {
        return None;
    }
    let cookie = match http::header_value(req_headers, "cookie") {
        Some(c) => c.to_owned(),
        None => {
            let e = String::new();
            assert(e@ =~= Seq::empty());
            e
        },
    };
    let mut jar = parse_cookie_header(cookie.as_str());
    let names = vec!["sessionid", "sid_guard", "ttwid"];
    assert(text::strs(names@) =~= session_cookies());
    let ghost all = headers::pairs(resp_headers@);
    let ghost full = jar_after(headers::pairs(jar@), all);
    assert(all.skip(0) =~= all);
    let mut i: usize = 0;
    while i < resp_headers.len()
        invariant
            i <= resp_headers@.len(),
            all == headers::pairs(resp_headers@),
            text::strs(names@) == session_cookies(),
            full == jar_after(headers::pairs(jar@), all.skip(i as int)),
        decreases resp_headers@.len() - i,
    {
        let ghost before = headers::pairs(jar@);
        proof {
            assert(all.skip(i as int)[0] == (resp_headers@[i as int].0@, resp_headers@[i as int].1@));
            assert(all.skip(i as int).skip(1) =~= all.skip(i + 1));
        }
        if text::same_ignoring_case(resp_headers[i].0.as_str(), "set-cookie") {
            let parts = text::split(resp_headers[i].1.as_str(), ';');
            assert(text::texts(parts@)[0] == parts@[0]@);
            if let Some((k, v)) = text::split_once(parts[0].as_str(), '=') {
                let ck = text::trim(k.as_str());
                if text::one_of(ck.as_str(), &names) && !in_jar(&jar, ck.as_str()) {
                    let e = (ck, text::trim(v.as_str()));
                    jar.push(e);
                    assert(headers::pairs(jar@) =~= before.push((e.0@, e.1@)));
                }
            }
        }
        i += 1;
    }
    let session_id = value_in(&jar, "sessionid");
    if session_id.as_str().unicode_len() == 0 {
        return None;
    }
    let uid = doubao_uid_from_multi_sids(cookie.as_str(), session_id.as_str());
    Some(
        Credentials {
            session_id,
            sid_guard: value_in(&jar, "sid_guard"),
            ttwid: value_in(&jar, "ttwid"),
            uid,
            host: host_l,
        },
    )
}

/// Whether two captures are of the same session: everything but the host is the same.
pub open spec fn same_session(a: CredentialsV, b: CredentialsV) -> bool {
    a.session_id == b.session_id && a.sid_guard == b.sid_guard && a.ttwid == b.ttwid && a.uid == b.uid
}

/// Whether a capture is news after the last one.
pub fn is_new_session(last: &Option<Credentials>, now: &Credentials) -> (r: bool)
    ensures
        r == match *last {
            Some(c) => !same_session(c@, now@),
            None => true,
        },
{
    match last {
        Some(c) => !(text::same(c.session_id.as_str(), now.session_id.as_str()) && text::same(
            c.sid_guard.as_str(),
            now.sid_guard.as_str(),
        ) && text::same(c.ttwid.as_str(), now.ttwid.as_str()) && text::same(c.uid.as_str(), now.uid.as_str())),
        None => true,
    }
}

/// The record of a capture.
pub open spec fn credentials_record(c: CredentialsV, captured_at: Seq<char>) -> JsonV {
    let a = json::with_field(Seq::empty(), "session_id"@, JsonV::Str(c.session_id));
    let b = json::with_field(a, "sid_guard"@, JsonV::Str(c.sid_guard));
    let d = json::with_field(b, "ttwid"@, JsonV::Str(c.ttwid));
    let e = json::with_field(d, "uid"@, JsonV::Str(c.uid));
    let f = json::with_field(e, "host"@, JsonV::Str(c.host));
    JsonV::Obj(json::with_field(f, "captured_at"@, JsonV::Str(captured_at)))
}

/// The line that reports a capture: how long each part is, not what it is.
pub open spec fn credentials_text(c: CredentialsV) -> Seq<char> {
    "  [doubao] 抓到会话凭证: sessionid="@ + digits::decimal(byte_len(c.session_id)) + " 字符"@ + (if c.sid_guard.len()
        == 0 {
        Seq::empty()
    } else {
        "，sid_guard="@ + digits::decimal(byte_len(c.sid_guard)) + " 字符"@
    }) + (if c.ttwid.len() == 0 {
        Seq::empty()
    } else {
        "，ttwid="@ + digits::decimal(byte_len(c.ttwid)) + " 字符"@
    }) + (if c.uid.len() == 0 {
        "（uid 未识别）"@
    } else {
        "，uid="@ + c.uid
    })
}

/// The length of a text in UTF-8.
pub open spec fn byte_len(s: Seq<char>) -> int {
    vstd::utf8::encode_utf8(s).len() as int
}

impl Credentials {
    /// The record of a capture.
    pub fn record(&self, captured_at: &str) -> (r: Json)
        ensures
            r@ == credentials_record(self@, captured_at@),
    {
        let mut o: Vec<(String, Json)> = Vec::new();
        assert(json::fields(o@) =~= Seq::empty());
        json::put(&mut o, "session_id", json::jstr(self.session_id.as_str()));
        json::put(&mut o, "sid_guard", json::jstr(self.sid_guard.as_str()));
        json::put(&mut o, "ttwid", json::jstr(self.ttwid.as_str()));
        json::put(&mut o, "uid", json::jstr(self.uid.as_str()));
        json::put(&mut o, "host", json::jstr(self.host.as_str()));
        json::put(&mut o, "captured_at", json::jstr(captured_at));
        let r = Json::Object(o);
        proof {
            json::lemma_view_parts(r);
        }
        r
    }

    /// The line that reports a capture.
    pub fn line(&self) -> (r: String)
        ensures
            r@ == credentials_text(self@),
    {
        let mut r = "  [doubao] 抓到会话凭证: sessionid=".to_owned();
        r.append(digits::number(self.session_id.as_str().as_bytes().len() as u64).as_str());
        r.append(" 字符");
        let ghost a = r@;
        if self.sid_guard.as_str().unicode_len() > 0 {
            r.append("，sid_guard=");
            r.append(digits::number(self.sid_guard.as_str().as_bytes().len() as u64).as_str());
            r.append(" 字符");
        }
        let ghost b = r@;
        if self.ttwid.as_str().unicode_len() > 0 {
            r.append("，ttwid=");
            r.append(digits::number(self.ttwid.as_str().as_bytes().len() as u64).as_str());
            r.append(" 字符");
        }
        let ghost c = r@;
        proof {
            let v = self@;
            let g = if v.sid_guard.len() == 0 {
                Seq::empty()
            } else {
                "，sid_guard="@ + digits::decimal(byte_len(v.sid_guard)) + " 字符"@
            };
            let t = if v.ttwid.len() == 0 {
                Seq::empty()
            } else {
                "，ttwid="@ + digits::decimal(byte_len(v.ttwid)) + " 字符"@
            };
            assert(b =~= a + g);
            assert(c =~= b + t);
        }
        if self.uid.as_str().unicode_len() == 0 {
            r.append("（uid 未识别）");
        } else {
            r.append("，uid=");
            r.append(self.uid.as_str());
        }
        assert(r@ =~= credentials_text(self@));
        r
    }
}

// ---- what holds of what is captured ----

/// The user of an account is told under either name, the first before the second, in letters or as a number.
pub proof fn accounts_are_their_users(acc: JsonV, u: Seq<char>, v: JsonV, n: NumV)
    ensures
        acc.get("UserID"@) == Some(v) ==> is_users(acc, u) == (uid_text(v) == u),
        acc.get("UserID"@) is None && acc.get("user_id"@) == Some(v) ==> is_users(acc, u) == (uid_text(v) == u),
        acc.get("UserID"@) is None && acc.get("user_id"@) is None ==> !is_users(acc, u),
        uid_text(JsonV::Str(u)) == u,
        uid_text(JsonV::Num(n)) == json::json_text(JsonV::Num(n)),
{
}

/// A token replaces the stored one where it differs and does not end earlier or at the same time; where
/// either says nothing of its end it does too.
pub proof fn later_tokens_replace_the_stored_one(a: Seq<char>, b: Seq<char>)
    ensures
        jwt_fate(a, a) is Unchanged,
        a != b ==> {
            &&& jwt::token_expiry(a) matches Some(o) ==> (jwt::token_expiry(b) matches Some(n) ==> jwt_fate(a, b) is Updated
                == (n > o))
            &&& jwt::token_expiry(a) matches Some(o) ==> (jwt::token_expiry(b) matches Some(n) ==> jwt_fate(a, b) is Skipped
                == (n <= o))
            &&& jwt::token_expiry(a) is None || jwt::token_expiry(b) is None ==> jwt_fate(a, b) is Updated
        },
{
}

/// What a capture changes of an account: the token and its time where the token is newer, the refresh
/// token and its time where that differs, and nothing else.
pub proof fn captures_change_tokens_alone(acc: JsonV, t: Seq<char>, refresh: Option<Seq<char>>, now: Seq<char>, k: Seq<char>)
    requires
        acc is Obj,
    ensures
        ({
            let after = refreshed(acc, t, refresh, now);
            let old_t = match acc.get("jwt"@) {
                Some(JsonV::Str(s)) => s,
                _ => Seq::empty(),
            };
            &&& jwt_fate(old_t, t) is Updated ==> after.get("jwt"@) == Some(JsonV::Str(t)) && after.get("updated_at"@)
                == Some(JsonV::Str(now))
            &&& jwt_fate(old_t, t) !is Updated ==> after.get("jwt"@) == acc.get("jwt"@) && after.get("updated_at"@)
                == acc.get("updated_at"@)
            &&& refresh matches Some(rt) ==> after.get("refresh_token"@) == Some(JsonV::Str(rt))
            &&& refresh matches Some(rt) ==> acc.get("refresh_token"@) != Some(JsonV::Str(rt)) ==> after.get(
                "refresh_token_updated_at"@,
            ) == Some(JsonV::Str(now))
            &&& refresh matches Some(rt) ==> acc.get("refresh_token"@) == Some(JsonV::Str(rt)) ==> after.get(
                "refresh_token_updated_at"@,
            ) == acc.get("refresh_token_updated_at"@)
            &&& refresh is None ==> after.get("refresh_token"@) == acc.get("refresh_token"@) && after.get(
                "refresh_token_updated_at"@,
            ) == acc.get("refresh_token_updated_at"@)
            &&& k != "jwt"@ && k != "updated_at"@ && k != "refresh_token"@ && k != "refresh_token_updated_at"@
                ==> after.get(k) == acc.get(k)
        }),
{
    broadcast use json::lemma_set_then_get;

    reveal_strlit("");
    assert(""@ =~= Seq::<char>::empty());
    reveal_strlit("jwt");
    reveal_strlit("updated_at");
    reveal_strlit("refresh_token");
    reveal_strlit("refresh_token_updated_at");
    assert("jwt"@.len() == 3 && "updated_at"@.len() == 10 && "refresh_token"@.len() == 13);
    assert("refresh_token_updated_at"@.len() == 24);
}

/// A new account is called after its user and holds the token, and the refresh token where there is one.
pub proof fn new_accounts_hold_their_tokens(u: Seq<char>, t: Seq<char>, refresh: Option<Seq<char>>, now: Seq<char>, k: Seq<char>)
    ensures
        ({
            let a = new_account(u, t, refresh, now);
            &&& u.len() <= 8 ==> a.get("name"@) == Some(JsonV::Str("auto_"@ + u))
            &&& u.len() > 8 ==> a.get("name"@) == Some(JsonV::Str("auto_"@ + u.subrange(0, 8)))
            &&& a.get("UserID"@) == Some(JsonV::Str(u))
            &&& a.get("jwt"@) == Some(JsonV::Str(t))
            &&& a.get("added_at"@) == Some(JsonV::Str(now))
            &&& refresh matches Some(rt) ==> a.get("refresh_token"@) == Some(JsonV::Str(rt)) && a.get(
                "refresh_token_updated_at"@,
            ) == Some(JsonV::Str(now))
            &&& refresh is None ==> a.get("refresh_token"@) is None && a.get("refresh_token_updated_at"@) is None
            &&& k != "name"@ && k != "UserID"@ && k != "jwt"@ && k != "added_at"@ && k != "refresh_token"@ && k
                != "refresh_token_updated_at"@ ==> a.get(k) is None
        }),
{
    broadcast use json::lemma_set_then_get;

    if u.len() > 8 {
        assert(u.take(8) =~= u.subrange(0, 8));
    }
    reveal_strlit("name");
    reveal_strlit("UserID");
    reveal_strlit("jwt");
    reveal_strlit("added_at");
    reveal_strlit("refresh_token");
    reveal_strlit("refresh_token_updated_at");
    assert("name"@.len() == 4 && "UserID"@.len() == 6 && "jwt"@.len() == 3);
    assert("added_at"@.len() == 8 && "refresh_token"@.len() == 13 && "refresh_token_updated_at"@.len() == 24);
}

/// The accounts stand in their own field; setting them leaves the other fields.
pub proof fn accounts_stand_in_their_field(o: Seq<(Seq<char>, JsonV)>, a: Seq<JsonV>, k: Seq<char>)
    ensures
        accounts_in(with_accounts(JsonV::Obj(o), a)) == a,
        with_accounts(JsonV::Obj(o), a).get("accounts"@) == Some(JsonV::Arr(a)),
        k != "accounts"@ ==> with_accounts(JsonV::Obj(o), a).get(k) == JsonV::Obj(o).get(k),
{
    broadcast use json::lemma_set_then_get;

    assert(with_accounts(JsonV::Obj(o), a).get("accounts"@) == Some(JsonV::Arr(a)));
}

/// A capture is reported as what it did: a new account, a token that was too old, a new token, a new
/// refresh token; nothing where nothing changed.
pub proof fn captures_are_reported_as_what_they_did(
    accounts: Seq<JsonV>,
    u: Seq<char>,
    t: Seq<char>,
    refresh: Option<Seq<char>>,
    old_exp: Seq<char>,
    new_exp: Seq<char>,
    name: Seq<char>,
    n: int,
)
    ensures
        ({
            let i = account_of(accounts, u);
            let r = reported(accounts, u, t, refresh);
            &&& !(0 <= i < accounts.len()) ==> status_after(accounts, u, t) is Appended && r.len() == 1 && r[0] is Appended
            &&& 0 <= i < accounts.len() ==> {
                &&& status_after(accounts, u, t) is Updated ==> r.len() >= 1 && r[0] is Updated
                &&& status_after(accounts, u, t) is Skipped ==> r.len() >= 1 && r[0] is Older
                &&& refresh is None && status_after(accounts, u, t) is Unchanged ==> r.len() == 0
                &&& refresh matches Some(rt) ==> accounts[i].text_at("refresh_token"@) != Some(rt) ==> r.len() >= 1
                    && r.last() is Refreshed
                &&& refresh matches Some(rt) ==> accounts[i].text_at("refresh_token"@) == Some(rt) ==> forall|k: int|
                    0 <= k < r.len() ==> !((#[trigger] r[k]) is Refreshed)
                &&& accounts[i].text_at("name"@) == Some(name) ==> {
                    &&& status_after(accounts, u, t) is Updated ==> r[0] == CaptureEventV::Updated(name)
                    &&& refresh is Some && r.len() > 0 && r.last() is Refreshed ==> r.last() == CaptureEventV::Refreshed(
                        name,
                    )
                }
            }
        }),
        event_text(CaptureEventV::Older(name, n), u, old_exp, new_exp) == "  [JWT 跳过(更旧)] uid="@ + u + " 账号="@ + name
            + " 旧 exp="@ + old_exp + " 新 exp="@ + new_exp,
        event_text(CaptureEventV::Updated(name), u, old_exp, new_exp) == "  [JWT 自动更新] user="@ + u + " 账号="@ + name
            + " exp="@ + new_exp,
        event_text(CaptureEventV::Refreshed(name), u, old_exp, new_exp) == "  [refresh_token 更新] uid="@ + u + " 账号="@
            + name,
        event_text(CaptureEventV::Appended(name), u, old_exp, new_exp) == "  [JWT 自动追加新账号] user="@ + u + " -> name="@
            + name + " exp="@ + new_exp,
        !is_change(CaptureEventV::Older(name, n)) && is_change(CaptureEventV::Updated(name)) && is_change(
            CaptureEventV::Refreshed(name),
        ) && is_change(CaptureEventV::Appended(name)),
{
}

/// An exchange brings its tokens in its data, or in itself where it has none: the refresh token, and the
/// access token under the first of its names, which is kept with its mark and under its own user.
pub proof fn exchanges_bring_their_tokens(data: JsonV, d: JsonV, rt: Seq<char>, t: Seq<char>)
    requires
        (data.get("data"@) == Some(d) && d is Obj) || (d == data && !(data.get("data"@) matches Some(JsonV::Obj(_)))),
        t.len() > 0,
    ensures
        d.get("refresh_token"@) is None ==> tokens_of(data) is Nothing,
        d.get("refresh_token"@) == Some(JsonV::Str(rt)) && (d.get("access_token"@) == Some(JsonV::Str(t)) || (d.get(
            "access_token"@,
        ) is None && d.get("token"@) == Some(JsonV::Str(t)))) ==> {
            let full = if text::has_prefix(t, "Cloud-IDE-JWT"@) {
                Some(t)
            } else {
                jwt::captured_token(t)
            };
            &&& full is None ==> tokens_of(data) is NoUser
            &&& full matches Some(f) ==> (jwt::token_user(f) matches Some(u) ==> tokens_of(data)
                == TokenCaptureV::Found(u, f, rt))
            &&& full matches Some(f) ==> jwt::token_user(f) is None ==> tokens_of(data) is NoUser
        },
        d.get("refresh_token"@) == Some(JsonV::Str(rt)) && d.get("access_token"@) is None && d.get("token"@) is None
            ==> tokens_of(data) is NoUser,
{
}

/// An exchange is known by its path: the call that exchanges tokens, or any that speaks of the login.
pub proof fn exchanges_are_known_by_their_path(path: Seq<char>)
    ensures
        is_exchange_path(path) == (text::has_text(path, "ExchangeToken"@) || text::has_text(
            text::smalls(path),
            "oauth"@,
        )),
{
}

/// The cookies of a header are read one by one, in order: the name before the first equals sign, the value
/// behind it, both without white ends and the value without quotes around it.
pub proof fn cookies_are_read_one_by_one(a: Seq<Seq<char>>, b: Seq<Seq<char>>, k: Seq<char>, v: Seq<char>)
    requires
        !k.contains('='),
    ensures
        cookies_of(a + b) == cookies_of(a) + cookies_of(b),
        cookies_of(seq![k]).len() == 0,
        cookies_of(seq![k + seq!['='] + v]) == seq![(text::trimmed(k), without_ends(text::trimmed(v), '"'))],
    decreases b.len(),
{
    reveal_with_fuel(cookies_of, 2);
    text::cutting_finds_the_first(k, v, '=');
    assert(seq![k].drop_last() =~= Seq::<Seq<char>>::empty());
    assert(seq![k + seq!['='] + v].drop_last() =~= Seq::<Seq<char>>::empty());
    assert(cookies_of(seq![k + seq!['='] + v]) =~= seq![(text::trimmed(k), without_ends(text::trimmed(v), '"'))]);
    if b.len() == 0 {
        assert(a + b =~= a);
        assert(cookies_of(a) + cookies_of(b) =~= cookies_of(a));
    } else {
        cookies_are_read_one_by_one(a, b.drop_last(), k, v);
        assert((a + b).drop_last() =~= a + b.drop_last());
        assert(cookies_of(a + b) =~= cookies_of(a) + cookies_of(b));
    }
}

/// Taking a front away leaves the rest: what is left starts otherwise, and only such characters are gone.
pub proof fn only_the_front_is_taken_away(s: Seq<char>, c: char)
    ensures
        trim_start_char(s, c).len() <= s.len(),
        s.skip(s.len() - trim_start_char(s, c).len()) == trim_start_char(s, c),
        forall|i: int| 0 <= i < s.len() - trim_start_char(s, c).len() ==> #[trigger] s[i] == c,
        trim_start_char(s, c).len() > 0 ==> trim_start_char(s, c)[0] != c,
    decreases s.len(),
{
    if s.len() > 0 && s[0] == c {
        let f = s.skip(1);
        only_the_front_is_taken_away(f, c);
        let t = trim_start_char(f, c);
        assert(s.skip(s.len() - t.len()) =~= f.skip(f.len() - t.len()));
        assert forall|i: int| 0 <= i < s.len() - t.len() implies #[trigger] s[i] == c by {
            if i > 0 {
                assert(f[i - 1] == s[i]);
            }
        }
    } else {
        assert(s.skip(0) =~= s);
    }
}

/// A session's user stands before its colon, in digits alone; of a list the first counts whose session it is.
pub proof fn sessions_have_their_users(a: Seq<Seq<char>>, b: Seq<Seq<char>>, u: Seq<char>, s: Seq<char>, sid: Seq<char>)
    requires
        !u.contains(':'),
    ensures
        session_user(u + seq![':'] + s, sid) == (if text::trimmed(s) == sid && text::trimmed(u).len() > 0
            && digits::all_digits(text::trimmed(u), 10) {
            Some(text::trimmed(u))
        } else {
            None
        }),
        session_user(u, sid) is None,
        first_session_user(a, sid).len() > 0 ==> first_session_user(a + b, sid) == first_session_user(a, sid),
        first_session_user(a, sid).len() == 0 ==> first_session_user(a + b, sid) == first_session_user(b, sid),
        session_user(u, sid) is None && first_session_user(seq![u], sid).len() == 0,
        first_session_user(seq![u + seq![':'] + s], sid) == (match session_user(u + seq![':'] + s, sid) {
            Some(x) => x,
            None => Seq::empty(),
        }),
    decreases a.len(),
{
    text::cutting_finds_the_first(u, s, ':');
    reveal_with_fuel(first_session_user, 2);
    assert(seq![u].skip(1) =~= Seq::<Seq<char>>::empty());
    assert(seq![u + seq![':'] + s].skip(1) =~= Seq::<Seq<char>>::empty());
    if a.len() == 0 {
        assert(a + b =~= b);
    } else {
        sessions_have_their_users(a.skip(1), b, u, s, sid);
        assert((a + b).skip(1) =~= a.skip(1) + b);
    }
}

/// The user of a session is looked for in the cookie's list of sessions.
pub proof fn users_are_looked_for_in_the_list(cookie: Seq<char>, sid: Seq<char>, raw: Seq<char>, list: Seq<char>)
    ensures
        regex_group("multi_sids=([^;\\s]+)"@, cookie) is None ==> multi_sids_user(cookie, sid).len() == 0,
        regex_group("multi_sids=([^;\\s]+)"@, cookie) == Some(raw) && codec::url_decoded(raw) == Some(list)
            ==> multi_sids_user(cookie, sid) == first_session_user(
            text::split_on(text::replaced(list, ';', "|"@), '|'),
            sid,
        ),
{
}

/// The cookies that an answer sets are taken in where the session's are not there yet: the first value of
/// a cookie counts, and others than the session's are passed over.
pub proof fn set_cookies_are_taken_in(
    jar: Seq<(Seq<char>, Seq<char>)>,
    a: Seq<(Seq<char>, Seq<char>)>,
    b: Seq<(Seq<char>, Seq<char>)>,
    h: (Seq<char>, Seq<char>),
    k: Seq<char>,
    v: Seq<char>,
)
    requires
        !k.contains('='),
        text::split_on(h.1, ';')[0] == k + seq!['='] + v,
    ensures
        jar_after(jar, a + b) == jar_after(jar_after(jar, a), b),
        text::smalls(h.0) != text::smalls("set-cookie"@) ==> jar_after(jar, seq![h]) == jar,
        text::smalls(h.0) == text::smalls("set-cookie"@) ==> jar_after(jar, seq![h]) == (if (text::trimmed(k)
            == "sessionid"@ || text::trimmed(k) == "sid_guard"@ || text::trimmed(k) == "ttwid"@) && !has_cookie(
            jar,
            text::trimmed(k),
        ) {
            jar.push((text::trimmed(k), text::trimmed(v)))
        } else {
            jar
        }),
    decreases a.len(),
{
    text::cutting_finds_the_first(k, v, '=');
    reveal_with_fuel(jar_after, 2);
    let names = session_cookies();
    assert(names[0] == "sessionid"@ && names[1] == "sid_guard"@ && names[2] == "ttwid"@);
    assert(seq![h].skip(1) =~= Seq::<(Seq<char>, Seq<char>)>::empty());
    if a.len() == 0 {
        assert(a + b =~= b);
    } else {
        let next = jar_after(jar, seq![a[0]]);
        assert(seq![a[0]].skip(1) =~= Seq::<(Seq<char>, Seq<char>)>::empty());
        set_cookies_are_taken_in(next, a.skip(1), b, h, k, v);
        assert((a + b).skip(1) =~= a.skip(1) + b);
        assert((a + b)[0] == a[0]);
    }
}

/// A cookie is looked up by its name, and the first counts.
pub proof fn cookies_are_found_by_name(
    a: Seq<(Seq<char>, Seq<char>)>,
    b: Seq<(Seq<char>, Seq<char>)>,
    name: Seq<char>,
    other: Seq<char>,
    v: Seq<char>,
)
    ensures
        has_cookie(a, name) ==> cookie_value(a + b, name) == cookie_value(a, name),
        !has_cookie(a, name) ==> cookie_value(a + b, name) == cookie_value(b, name),
        cookie_value(seq![(name, v)], name) == v,
        has_cookie(seq![(name, v)], name),
        other != name ==> cookie_value(seq![(other, v)], name).len() == 0 && !has_cookie(seq![(other, v)], name),
    decreases a.len(),
{
    reveal_with_fuel(cookie_value, 2);
    assert(seq![(name, v)][0].0 == name);
    assert(seq![(other, v)][0].0 == other);
    assert(seq![(other, v)].skip(1) =~= Seq::<(Seq<char>, Seq<char>)>::empty());
    if a.len() == 0 {
        assert(a + b =~= b);
    } else {
        let rest = a.skip(1);
        cookies_are_found_by_name(rest, b, name, other, v);
        assert((a + b).skip(1) =~= rest + b);
        assert((a + b)[0] == a[0]);
        if has_cookie(rest, name) {
            let i = choose|i: int| 0 <= i < rest.len() && (#[trigger] rest[i]).0 == name;
            assert(a[i + 1] == rest[i]);
        }
        if has_cookie(a, name) && a[0].0 != name {
            let i = choose|i: int| 0 <= i < a.len() && (#[trigger] a[i]).0 == name;
            assert(rest[i - 1] == a[i]);
        }
    }
}

/// Credentials are taken at the service's own hosts where there is a session: the request's cookies before
/// those that the answer sets, each under its own name.
pub proof fn sessions_are_taken_from_the_cookies(
    host: Seq<char>,
    req: Seq<(Seq<char>, Seq<char>)>,
    resp: Seq<(Seq<char>, Seq<char>)>,
    cookie: Seq<char>,
)
    requires
        http::last_header(req, "cookie"@) == Some(cookie) || (http::last_header(req, "cookie"@) is None && cookie
            == Seq::<char>::empty()),
    ensures
        ({
            let jar = jar_after(cookies_of(text::split_on(cookie, ';')), resp);
            &&& !text::has_suffix(text::smalls(host), ".doubao.com"@) ==> credentials_in(host, req, resp) is None
            &&& cookie_value(jar, "sessionid"@).len() == 0 ==> credentials_in(host, req, resp) is None
            &&& text::has_suffix(text::smalls(host), ".doubao.com"@) && cookie_value(jar, "sessionid"@).len() > 0 ==> {
                let c = credentials_in(host, req, resp);
                &&& c is Some
                &&& c->Some_0.session_id == cookie_value(jar, "sessionid"@)
                &&& c->Some_0.sid_guard == cookie_value(jar, "sid_guard"@)
                &&& c->Some_0.ttwid == cookie_value(jar, "ttwid"@)
                &&& c->Some_0.uid == multi_sids_user(cookie, cookie_value(jar, "sessionid"@))
                &&& c->Some_0.host == text::smalls(host)
            }
        }),
{
}

/// Two captures are of one session where all but the host agrees.
pub proof fn sessions_are_told_apart(a: CredentialsV, b: CredentialsV)
    ensures
        same_session(a, b) == (a.session_id == b.session_id && a.sid_guard == b.sid_guard && a.ttwid == b.ttwid && a.uid
            == b.uid),
{
}

/// The record of credentials holds them, the host, and when they were captured.
pub proof fn credentials_are_recorded(c: CredentialsV, captured_at: Seq<char>)
    ensures
        credentials_record(c, captured_at).get("session_id"@) == Some(JsonV::Str(c.session_id)),
        credentials_record(c, captured_at).get("sid_guard"@) == Some(JsonV::Str(c.sid_guard)),
        credentials_record(c, captured_at).get("ttwid"@) == Some(JsonV::Str(c.ttwid)),
        credentials_record(c, captured_at).get("uid"@) == Some(JsonV::Str(c.uid)),
        credentials_record(c, captured_at).get("host"@) == Some(JsonV::Str(c.host)),
        credentials_record(c, captured_at).get("captured_at"@) == Some(JsonV::Str(captured_at)),
        forall|k: Seq<char>| k != "session_id"@ && k != "sid_guard"@ && k != "ttwid"@ && k != "uid"@ && k != "host"@ && k != "captured_at"@ ==> (#[trigger] credentials_record(c, captured_at).get(k)) is None,
{
    broadcast use json::lemma_set_then_get;

    reveal_strlit("session_id");
    reveal_strlit("sid_guard");
    reveal_strlit("ttwid");
    reveal_strlit("uid");
    reveal_strlit("host");
    reveal_strlit("captured_at");
    assert("session_id"@.len() == 10 && "sid_guard"@.len() == 9 && "ttwid"@.len() == 5);
    assert("uid"@.len() == 3 && "host"@.len() == 4 && "captured_at"@.len() == 11);
}

/// What happened to a token is told in a word of its own.
pub proof fn fates_have_their_words()
    ensures
        JwtStatus::Unchanged.word() == "unchanged"@,
        JwtStatus::Skipped.word() == "skipped"@,
        JwtStatus::Updated.word() == "updated"@,
        JwtStatus::Appended.word() == "appended"@,
{
}

/// What is logged of credentials is how long they are, and never they themselves.
pub proof fn credentials_are_logged_by_their_length(c: CredentialsV, d: CredentialsV)
    requires
        byte_len(c.session_id) == byte_len(d.session_id),
        byte_len(c.sid_guard) == byte_len(d.sid_guard) && (c.sid_guard.len() == 0) == (d.sid_guard.len() == 0),
        byte_len(c.ttwid) == byte_len(d.ttwid) && (c.ttwid.len() == 0) == (d.ttwid.len() == 0),
        c.uid == d.uid,
    ensures
        credentials_text(c) == credentials_text(d),
        c.sid_guard.len() > 0 && c.ttwid.len() > 0 && c.uid.len() > 0 ==> credentials_text(c)
            == "  [doubao] 抓到会话凭证: sessionid="@ + digits::decimal(byte_len(c.session_id)) + " 字符"@ + ("，sid_guard="@
            + digits::decimal(byte_len(c.sid_guard)) + " 字符"@) + ("，ttwid="@ + digits::decimal(byte_len(c.ttwid))
            + " 字符"@) + ("，uid="@ + c.uid),
        c.sid_guard.len() == 0 && c.ttwid.len() == 0 && c.uid.len() == 0 ==> credentials_text(c)
            == "  [doubao] 抓到会话凭证: sessionid="@ + digits::decimal(byte_len(c.session_id)) + " 字符"@
            + Seq::<char>::empty() + Seq::<char>::empty() + "（uid 未识别）"@,
{
}

/// When a token ends is shown as the machine tells it, or as a mark where that cannot be told.
pub proof fn ends_are_shown_or_marked(expiry: int, t: Seq<char>)
    ensures
        shows_expiry(None, t) == (t == "?"@),
        clock::is_local_text(expiry, t) ==> shows_expiry(Some(expiry), t),
        shows_expiry(Some(expiry), t) && 0 <= expiry <= 40_000_000_000 ==> clock::is_local_text(expiry, t),
{
}

/// Every event has its line, in order, in its own words.
pub proof fn events_have_their_lines(
    lines: Seq<Seq<char>>,
    evs: Seq<CaptureEventV>,
    user_id: Seq<char>,
    expiry: Option<int>,
    i: int,
)
    requires
        are_event_lines(lines, evs, user_id, expiry),
        0 <= i < evs.len(),
    ensures
        lines.len() == evs.len(),
        evs[i] matches CaptureEventV::Refreshed(name) ==> lines[i] == "  [refresh_token 更新] uid="@ + user_id + " 账号="@
            + name,
        evs[i] matches CaptureEventV::Updated(name) ==> exists|x: Seq<char>| #[trigger] shows_expiry(expiry, x) && lines[i]
            == "  [JWT 自动更新] user="@ + user_id + " 账号="@ + name + " exp="@ + x,
        evs[i] matches CaptureEventV::Appended(name) ==> exists|x: Seq<char>| #[trigger] shows_expiry(expiry, x) && lines[i]
            == "  [JWT 自动追加新账号] user="@ + user_id + " -> name="@ + name + " exp="@ + x,
{
    let x = choose|new_exp: Seq<char>|
        {
            &&& #[trigger] shows_expiry(expiry, new_exp)
            &&& lines.len() == evs.len()
            &&& forall|i: int| 0 <= i < evs.len() ==> is_event_line(#[trigger] lines[i], evs[i], user_id, new_exp)
        };
    assert(shows_expiry(expiry, x));
    assert(is_event_line(lines[i], evs[i], user_id, x));
}

/// The mark that a body must hold is that of a refresh token.
pub proof fn refresh_tokens_are_marked(i: int)
    requires
        0 <= i < 13,
    ensures
        refresh_mark().len() == 13,
        refresh_mark()[i] as int == "refresh_token"@[i] as int,
{
    reveal_strlit("refresh_token");
}

/// The line of a token that was too old shows when both end.
pub proof fn older_tokens_show_both_ends(line: Seq<char>, name: Seq<char>, old: int, user_id: Seq<char>, new_exp: Seq<char>)
    requires
        is_event_line(line, CaptureEventV::Older(name, old), user_id, new_exp),
    ensures
        exists|x: Seq<char>| #[trigger]
            shows_expiry(Some(old), x) && line == "  [JWT 跳过(更旧)] uid="@ + user_id + " 账号="@ + name + " 旧 exp="@ + x
                + " 新 exp="@ + new_exp,
{
}

} // verus!
