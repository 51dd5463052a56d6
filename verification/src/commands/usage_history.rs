//! How many credits each account has used, day by day: what is asked of the service, how sessions
//! add up to days, and how days that were asked for again replace the old ones.
use vstd::prelude::*;
use crate::{assoc, clock, json, text};
use crate::clock::LocalTimes;
use crate::json::{Json, JsonV, NumV};
use crate::models::RawAccount;

verus! {

broadcast use vstd::string::group_string_axioms;

/// How many days are asked for the first time.
pub const FULL_PULL_DAYS: i64 = 365;

/// How many pages are asked for at most.
pub const MAX_PAGES: u32 = 50;

/// How many sessions a page holds.
pub const PAGE_SIZE: u32 = 100;

/// The kind of use that is asked for.
pub const USAGE_TYPE: i64 = 7;

/// Where the use is asked for.
pub const USAGE_URL: &'static str = "https://api.trae.cn/trae/api/v1/pay/query_user_usage_group_by_session";

// ---- sessions and days ----

/// What was used on a day. Amounts of credits are doubles, held as their bits in the order in
/// which they came; what they come to is their sum in that order.
pub struct UsageDayStat {
    pub date: String,
    pub credits: Vec<u64>,
    pub sessions: u64,
    /// The amounts by model, in ascending order of the models' names.
    pub models: Vec<(String, Vec<u64>)>,
    pub input_tokens: u64,
    pub output_tokens: u64,
    pub cache_read_tokens: u64,
}

/// The model of what was used on a day.
#[verifier::ext_equal]
pub struct DayV {
    pub date: Seq<char>,
    pub credits: Seq<u64>,
    pub sessions: u64,
    pub models: Seq<(Seq<char>, Seq<u64>)>,
    pub input_tokens: u64,
    pub output_tokens: u64,
    pub cache_read_tokens: u64,
}

/// The models of amounts by model.
pub open spec fn amounts(v: Seq<(String, Vec<u64>)>) -> Seq<(Seq<char>, Seq<u64>)> {
    v.map_values(|p: (String, Vec<u64>)| (p.0@, p.1@))
}

impl View for UsageDayStat {
    type V = DayV;

    open spec fn view(&self) -> DayV {
        DayV {
            date: self.date@,
            credits: self.credits@,
            sessions: self.sessions,
            models: amounts(self.models@),
            input_tokens: self.input_tokens,
            output_tokens: self.output_tokens,
            cache_read_tokens: self.cache_read_tokens,
        }
    }
}

/// The models of days.
pub open spec fn days_v(v: Seq<UsageDayStat>) -> Seq<DayV> {
    v.map_values(|d: UsageDayStat| d@)
}

/// What is read off a session.
pub struct SessionV {
    pub date: Seq<char>,
    pub credits: u64,
    pub model: Seq<char>,
    pub tokens: Option<(u64, u64, u64)>,
}

/// A number of tokens; none where it is not given.
pub open spec fn tokens_at(extra: JsonV, key: Seq<char>) -> u64 {
    match extra.natural_at(key) {
        Some(n) => n,
        None => 0,
    }
}

/// A double of a field.
pub open spec fn double_at(v: JsonV, key: Seq<char>) -> Option<u64> {
    match v.get(key) {
        Some(x) => json::double_of(x),
        None => None,
    }
}

/// How many credits a session used, as bits.
pub open spec fn session_credits(s: JsonV) -> u64 {
    match double_at(s, "credits_float"@) {
        Some(b) => b,
        None => match double_at(s, "amount_float"@) {
            Some(b) => b,
            None => 0,
        },
    }
}

/// The model that a session used.
pub open spec fn session_model(s: JsonV) -> Seq<char> {
    match s.text_at("model_name"@) {
        Some(t) => if text::trimmed(t).len() > 0 {
            text::trimmed(t)
        } else {
            "未知模型"@
        },
        None => "未知模型"@,
    }
}

/// The time of a session; zero where it is not given.
pub open spec fn session_time(s: JsonV) -> int {
    match s.int_at("usage_time"@) {
        Some(t) => t,
        None => 0,
    }
}

/// What is read off a session; nothing of one without a time, or of a time without a day.
pub open spec fn session_of(s: JsonV, times: Seq<(i64, String)>) -> Option<SessionV> {
    let t = session_time(s);
    if t <= 0 {
        None
    } else {
        match clock::day_at(times, t) {
            Some(date) => Some(
                SessionV {
                    date,
                    credits: session_credits(s),
                    model: session_model(s),
                    tokens: match s.get("extra_info"@) {
                        Some(x) => Some(
                            (tokens_at(x, "input_token"@), tokens_at(x, "output_token"@), tokens_at(x, "cache_read_token"@)),
                        ),
                        None => None,
                    },
                },
            ),
            None => None,
        }
    }
}

/// An amount added to those of a model, in ascending order of the models' names.
pub open spec fn with_amount(
    models: Seq<(Seq<char>, Seq<u64>)>,
    model: Seq<char>,
    credits: u64,
) -> Seq<(Seq<char>, Seq<u64>)>
    decreases models.len(),
{
    if models.len() == 0 {
        seq![(model, seq![credits])]
    } else if models[0].0 == model {
        models.update(0, (model, models[0].1.push(credits)))
    } else if json::before(models[0].0, model) {
        seq![models[0]] + with_amount(models.skip(1), model, credits)
    } else {
        seq![(model, seq![credits])] + models
    }
}

/// A sum of token numbers as a counter of sixty-four bits shows it.
pub open spec fn counted(a: u64, b: u64) -> u64 {
    if a + b > u64::MAX {
        (a + b - 0x1_0000_0000_0000_0000) as u64
    } else {
        (a + b) as u64
    }
}

/// A day without sessions.
pub open spec fn empty_day(date: Seq<char>) -> DayV {
    DayV {
        date,
        credits: Seq::empty(),
        sessions: 0,
        models: Seq::empty(),
        input_tokens: 0,
        output_tokens: 0,
        cache_read_tokens: 0,
    }
}

/// A day with one session more.
pub open spec fn grown(d: DayV, s: SessionV) -> DayV {
    let t = match s.tokens {
        Some(t) => t,
        None => (0u64, 0u64, 0u64),
    };
    DayV {
        date: d.date,
        credits: d.credits.push(s.credits),
        sessions: counted(d.sessions, 1),
        models: with_amount(d.models, s.model, s.credits),
        input_tokens: counted(d.input_tokens, t.0),
        output_tokens: counted(d.output_tokens, t.1),
        cache_read_tokens: counted(d.cache_read_tokens, t.2),
    }
}

/// What is read off a session.
pub struct Session {
    pub date: String,
    pub credits: u64,
    pub model: String,
    pub tokens: Option<(u64, u64, u64)>,
}

impl View for Session {
    type V = SessionV;

    open spec fn view(&self) -> SessionV {
        SessionV { date: self.date@, credits: self.credits, model: self.model@, tokens: self.tokens }
    }
}

fn tokens(extra: &Json, key: &str) -> (r: u64)
    ensures
        r == tokens_at(extra@, key@),
{
    match extra.u64_at(key) {
        Some(n) => n,
        None => 0,
    }
}

fn double_field(v: &Json, key: &str) -> (r: Option<u64>)
    requires
        v@.wf(),
    ensures
        r == double_at(v@, key@),
{
    broadcast use json::lemma_get_wf;

    match v.get(key) {
        Some(x) => json::as_double(x),
        None => None,
    }
}

/// What is read off a session; nothing of one without a time, or of a time without a day.
pub fn read_session(s: &Json, times: &LocalTimes) -> (r: Option<Session>)
    requires
        s@.wf(),
    ensures
        match (r, session_of(s@, times.entries@)) {
            (Some(x), Some(y)) => x@ == y,
            (None, None) => true,
            _ => false,
        },
{
    let t: i64 = match s.i64_at("usage_time") {
        Some(t) => t,
        None => 0,
    };
    if t <= 0 {
        return None;
    }
    let date = match times.day(t) {
        Some(d) => d,
        None => {
            return None;
        },
    };
    let credits: u64 = match double_field(s, "credits_float") {
        Some(b) => b,
        None => match double_field(s, "amount_float") {
            Some(b) => b,
            None => 0,
        },
    };
    let model = match s.str_at("model_name") {
        Some(m) => {
            let m = text::trim(m);
            if m.as_str().unicode_len() > 0 {
                m
            } else {
                "未知模型".to_owned()
            }
        },
        None => "未知模型".to_owned(),
    };
    let tokens = match s.get("extra_info") {
        Some(x) => Some((tokens(x, "input_token"), tokens(x, "output_token"), tokens(x, "cache_read_token"))),
        None => None,
    };
    Some(Session { date, credits, model, tokens })
}

proof fn lemma_with_amount_at(models: Seq<(Seq<char>, Seq<u64>)>, model: Seq<char>, credits: u64, k: int)
    requires
        0 <= k <= models.len(),
        forall|i: int| 0 <= i < k ==> (#[trigger] models[i]).0 != model && json::before(models[i].0, model),
        k < models.len() ==> models[k].0 == model || !json::before(models[k].0, model),
    ensures
        with_amount(models, model, credits) == (if k < models.len() && models[k].0 == model {
            models.update(k, (model, models[k].1.push(credits)))
        } else {
            models.insert(k, (model, seq![credits]))
        }),
    decreases k,
{
    if k == 0 {
        if models.len() == 0 {
            assert(models.insert(0, (model, seq![credits])) =~= seq![(model, seq![credits])]);
        } else if models[0].0 != model {
            assert(models.insert(0, (model, seq![credits])) =~= seq![(model, seq![credits])] + models);
        }
    } else {
        let rest = models.skip(1);
        assert(models[0].0 != model && json::before(models[0].0, model));
        assert forall|i: int| 0 <= i < k - 1 implies (#[trigger] rest[i]).0 != model && json::before(rest[i].0, model) by {
            assert(rest[i] == models[i + 1]);
        }
        if k < models.len() {
            assert(rest[k - 1] == models[k]);
        }
        lemma_with_amount_at(rest, model, credits, k - 1);
        if k < models.len() && models[k].0 == model {
            let x = (model, models[k].1.push(credits));
            assert(seq![models[0]] + rest.update(k - 1, x) =~= models.update(k, x));
        } else {
            let x = (model, seq![credits]);
            assert(seq![models[0]] + rest.insert(k - 1, x) =~= models.insert(k, x));
        }
    }
}

fn add_amount(models: &mut Vec<(String, Vec<u64>)>, model: &str, credits: u64)
    ensures
        amounts(final(models)@) == with_amount(amounts(old(models)@), model@, credits),
{
    let ghost all = amounts(models@);
    let mut k: usize = 0;
    while k < models.len() && !text::same(models[k].0.as_str(), model) && json::is_before(models[k].0.as_str(), model)
        invariant
            k <= models@.len(),
            all == amounts(models@),
            models@ == old(models)@,
            forall|i: int| 0 <= i < k ==> (#[trigger] all[i]).0 != model@ && json::before(all[i].0, model@),
        decreases models@.len() - k,
    {
        assert(all[k as int] == (models@[k as int].0@, models@[k as int].1@));
        k += 1;
    }
    proof {
        if k < models@.len() {
            assert(all[k as int] == (models@[k as int].0@, models@[k as int].1@));
        }
        lemma_with_amount_at(all, model@, credits, k as int);
    }
    if k < models.len() && text::same(models[k].0.as_str(), model) {
        let mut list: Vec<u64> = models[k].1.clone();
        assert(list@ =~= models@[k as int].1@);
        list.push(credits);
        let entry = (model.to_owned(), list);
        models.set(k, entry);
        assert(amounts(models@) =~= all.update(k as int, (model@, list@)));
    } else {
        let mut list: Vec<u64> = Vec::new();
        list.push(credits);
        assert(list@ =~= seq![credits]);
        let entry = (model.to_owned(), list);
        models.insert(k, entry);
        assert(amounts(models@) =~= all.insert(k as int, (model@, list@)));
    }
}

/// The day of a date.
pub open spec fn day_of(days: Seq<DayV>, date: Seq<char>) -> Option<DayV>
    decreases days.len(),
{
    if days.len() == 0 {
        None
    } else if days[0].date == date {
        Some(days[0])
    } else {
        day_of(days.skip(1), date)
    }
}

/// Days with one day set, in ascending order of their dates.
pub open spec fn with_day(days: Seq<DayV>, d: DayV) -> Seq<DayV>
    decreases days.len(),
{
    if days.len() == 0 {
        seq![d]
    } else if days[0].date == d.date {
        days.update(0, d)
    } else if json::before(days[0].date, d.date) {
        seq![days[0]] + with_day(days.skip(1), d)
    } else {
        seq![d] + days
    }
}

/// Days with one session more.
pub open spec fn with_session(days: Seq<DayV>, s: SessionV) -> Seq<DayV> {
    with_day(
        days,
        grown(
            match day_of(days, s.date) {
                Some(d) => d,
                None => empty_day(s.date),
            },
            s,
        ),
    )
}

/// Days with sessions added, one after another.
pub open spec fn with_all(days: Seq<DayV>, sessions: Seq<SessionV>) -> Seq<DayV>
    decreases sessions.len(),
{
    if sessions.len() == 0 {
        days
    } else {
        with_session(with_all(days, sessions.drop_last()), sessions.last())
    }
}

/// The sessions that are read off a page, in order.
pub open spec fn read_page(page: Seq<JsonV>, times: Seq<(i64, String)>) -> Seq<SessionV>
    decreases page.len(),
{
    if page.len() == 0 {
        Seq::empty()
    } else {
        match session_of(page.last(), times) {
            Some(s) => read_page(page.drop_last(), times).push(s),
            None => read_page(page.drop_last(), times),
        }
    }
}

/// Days with the sessions of a page, one after another.
pub open spec fn with_sessions(days: Seq<DayV>, page: Seq<JsonV>, times: Seq<(i64, String)>) -> Seq<DayV> {
    with_all(days, read_page(page, times))
}

/// Sessions that come page by page add up as if they had come at once.
pub proof fn pages_add_up(days: Seq<DayV>, a: Seq<SessionV>, b: Seq<SessionV>)
    ensures
        with_all(with_all(days, a), b) == with_all(days, a + b),
    decreases b.len(),
{
    if b.len() == 0 {
        assert(a + b =~= a);
    } else {
        pages_add_up(days, a, b.drop_last());
        assert((a + b).drop_last() =~= a + b.drop_last());
        assert((a + b).last() == b.last());
    }
}

/// Whether the dates of days ascend.
pub open spec fn in_order(days: Seq<DayV>) -> bool {
    forall|i: int, j: int|
        0 <= i < j < days.len() ==> json::before((#[trigger] days[i]).date, (#[trigger] days[j]).date)
}

/// Whether a place is where a date belongs: behind all earlier ones.
spec fn is_place(days: Seq<DayV>, date: Seq<char>, k: int) -> bool {
    &&& 0 <= k <= days.len()
    &&& forall|i: int| 0 <= i < k ==> (#[trigger] days[i]).date != date && json::before(days[i].date, date)
    &&& k < days.len() ==> days[k].date == date || !json::before(days[k].date, date)
}

proof fn lemma_with_day_at(days: Seq<DayV>, d: DayV, k: int)
    requires
        is_place(days, d.date, k),
    ensures
        with_day(days, d) == (if k < days.len() && days[k].date == d.date {
            days.update(k, d)
        } else {
            days.insert(k, d)
        }),
    decreases k,
{
    if k == 0 {
        if days.len() == 0 {
            assert(days.insert(0, d) =~= seq![d]);
        } else if days[0].date != d.date {
            assert(days.insert(0, d) =~= seq![d] + days);
        }
    } else {
        let rest = days.skip(1);
        assert(days[0].date != d.date && json::before(days[0].date, d.date));
        assert forall|i: int| 0 <= i < k - 1 implies (#[trigger] rest[i]).date != d.date && json::before(
            rest[i].date,
            d.date,
        ) by {
            assert(rest[i] == days[i + 1]);
        }
        if k < days.len() {
            assert(rest[k - 1] == days[k]);
        }
        lemma_with_day_at(rest, d, k - 1);
        if k < days.len() && days[k].date == d.date {
            assert(seq![days[0]] + rest.update(k - 1, d) =~= days.update(k, d));
        } else {
            assert(seq![days[0]] + rest.insert(k - 1, d) =~= days.insert(k, d));
        }
    }
}

proof fn lemma_day_of_none(days: Seq<DayV>, date: Seq<char>)
    requires
        forall|i: int| 0 <= i < days.len() ==> (#[trigger] days[i]).date != date,
    ensures
        day_of(days, date) is None,
    decreases days.len(),
{
    if days.len() > 0 {
        assert forall|i: int| 0 <= i < days.skip(1).len() implies (#[trigger] days.skip(1)[i]).date != date by {
            assert(days.skip(1)[i] == days[i + 1]);
        }
        lemma_day_of_none(days.skip(1), date);
    }
}

proof fn lemma_day_of_at(days: Seq<DayV>, k: int)
    requires
        0 <= k < days.len(),
        forall|i: int| 0 <= i < k ==> (#[trigger] days[i]).date != days[k].date,
    ensures
        day_of(days, days[k].date) == Some(days[k]),
    decreases k,
{
    if k > 0 {
        let rest = days.skip(1);
        assert forall|i: int| 0 <= i < k - 1 implies (#[trigger] rest[i]).date != rest[k - 1].date by {
            assert(rest[i] == days[i + 1]);
        }
        assert(rest[k - 1] == days[k]);
        lemma_day_of_at(rest, k - 1);
    }
}

/// In days that ascend, the day of a date stands at the place of the date or nowhere.
proof fn lemma_day_of_place(days: Seq<DayV>, date: Seq<char>, k: int)
    requires
        in_order(days),
        is_place(days, date, k),
    ensures
        day_of(days, date) == (if k < days.len() && days[k].date == date {
            Some(days[k])
        } else {
            None
        }),
{
    if k < days.len() && days[k].date == date {
        lemma_day_of_at(days, k);
    } else {
        assert forall|i: int| 0 <= i < days.len() implies (#[trigger] days[i]).date != date by {
            if i > k {
                json::lemma_before_total(days[k].date, date);
                assert(json::before(days[k].date, days[i].date));
            }
        }
        lemma_day_of_none(days, date);
    }
}

/// There is a place for every date.
proof fn lemma_place(days: Seq<DayV>, date: Seq<char>) -> (k: int)
    ensures
        is_place(days, date, k),
    decreases days.len(),
{
    if days.len() == 0 || days[0].date == date || !json::before(days[0].date, date) {
        0
    } else {
        let j = lemma_place(days.skip(1), date);
        assert forall|i: int| 0 <= i < j + 1 implies (#[trigger] days[i]).date != date && json::before(
            days[i].date,
            date,
        ) by {
            if i > 0 {
                assert(days.skip(1)[i - 1] == days[i]);
            }
        }
        if j + 1 < days.len() {
            assert(days.skip(1)[j] == days[j + 1]);
        }
        j + 1
    }
}

/// Setting a day keeps the dates ascending, makes the day readable, and leaves every other day as
/// it was.
pub proof fn setting_a_day(days: Seq<DayV>, d: DayV, other: Seq<char>)
    requires
        in_order(days),
    ensures
        in_order(with_day(days, d)),
        day_of(with_day(days, d), d.date) == Some(d),
        other != d.date ==> day_of(with_day(days, d), other) == day_of(days, other),
{
    let k = lemma_place(days, d.date);
    lemma_with_day_at(days, d, k);
    let out = with_day(days, d);
    let here = k < days.len() && days[k].date == d.date;
    assert forall|i: int, j: int| 0 <= i < j < out.len() implies json::before(
        (#[trigger] out[i]).date,
        (#[trigger] out[j]).date,
    ) by {
        if here {
            assert(out[i].date == days[i].date && out[j].date == days[j].date);
        } else if i < k && j == k {
            assert(out[i] == days[i]);
        } else if i == k {
            assert(out[j] == days[j - 1]);
            json::lemma_before_total(days[k].date, d.date);
            if j - 1 > k {
                json::lemma_before_trans(d.date, days[k].date, days[j - 1].date);
            }
        } else if i < k && j > k {
            assert(out[i] == days[i] && out[j] == days[j - 1]);
        } else if i < k {
            assert(out[i] == days[i] && out[j] == days[j]);
        } else {
            assert(out[i] == days[i - 1] && out[j] == days[j - 1]);
        }
    }
    assert(out[k] == d);
    assert forall|i: int| 0 <= i < k implies (#[trigger] out[i]).date != out[k].date by {
        assert(out[i] == days[i]);
    }
    lemma_day_of_at(out, k);
    if other != d.date {
        lemma_other_day(days, d, other);
    }
}

proof fn lemma_other_day(days: Seq<DayV>, d: DayV, other: Seq<char>)
    requires
        other != d.date,
    ensures
        day_of(with_day(days, d), other) == day_of(days, other),
    decreases days.len(),
{
    let out = with_day(days, d);
    if days.len() == 0 {
        assert(out.skip(1) =~= days);
    } else if days[0].date == d.date {
        assert(out.skip(1) =~= days.skip(1));
    } else if json::before(days[0].date, d.date) {
        lemma_other_day(days.skip(1), d, other);
        assert(out[0] == days[0]);
        assert(out.skip(1) =~= with_day(days.skip(1), d));
    } else {
        assert(out[0] == d);
        assert(out.skip(1) =~= days);
    }
}

fn place(days: &Vec<UsageDayStat>, date: &str) -> (k: usize)
    ensures
        is_place(days_v(days@), date@, k as int),
{
    let ghost all = days_v(days@);
    let mut k: usize = 0;
    while k < days.len() && !text::same(days[k].date.as_str(), date) && json::is_before(days[k].date.as_str(), date)
        invariant
            k <= days@.len(),
            all == days_v(days@),
            forall|i: int| 0 <= i < k ==> (#[trigger] all[i]).date != date@ && json::before(all[i].date, date@),
        decreases days@.len() - k,
    {
        assert(all[k as int] == days@[k as int]@);
        k += 1;
    }
    proof {
        if k < days@.len() {
            assert(all[k as int] == days@[k as int]@);
        }
    }
    k
}

/// Sets a day, in ascending order of the dates.
pub fn set_day(days: &mut Vec<UsageDayStat>, d: UsageDayStat)
    ensures
        days_v(final(days)@) == with_day(days_v(old(days)@), d@),
{
    let ghost all = days_v(days@);
    let k: usize = place(days, d.date.as_str());
    proof {
        lemma_with_day_at(all, d@, k as int);
        if k < days@.len() {
            assert(all[k as int] == days@[k as int]@);
        }
    }
    if k < days.len() && text::same(days[k].date.as_str(), d.date.as_str()) {
        days.set(k, d);
        assert(days_v(days@) =~= all.update(k as int, d@));
    } else {
        days.insert(k, d);
        assert(days_v(days@) =~= all.insert(k as int, d@));
    }
}

/// Adds a session to its day.
pub fn add_session(days: &mut Vec<UsageDayStat>, s: &Session)
    requires
        in_order(days_v(old(days)@)),
    ensures
        days_v(final(days)@) == with_session(days_v(old(days)@), s@),
        in_order(days_v(final(days)@)),
{
    let ghost all = days_v(days@);
    let k: usize = place(days, s.date.as_str());
    proof {
        lemma_day_of_place(all, s.date@, k as int);
        if k < days@.len() {
            assert(all[k as int] == days@[k as int]@);
        }
    }
    let there = k < days.len() && text::same(days[k].date.as_str(), s.date.as_str());
    let mut d = if there {
        days.remove(k)
    } else {
        let d = UsageDayStat {
            date: s.date.clone(),
            credits: Vec::new(),
            sessions: 0,
            models: Vec::new(),
            input_tokens: 0,
            output_tokens: 0,
            cache_read_tokens: 0,
        };
        assert(d@ =~= empty_day(s.date@));
        d
    };
    let ghost first = d@;
    d.credits.push(s.credits);
    d.sessions = d.sessions.wrapping_add(1);
    add_amount(&mut d.models, s.model.as_str(), s.credits);
    let (input, output, cache): (u64, u64, u64) = match s.tokens {
        Some(t) => t,
        None => (0, 0, 0),
    };
    d.input_tokens = d.input_tokens.wrapping_add(input);
    d.output_tokens = d.output_tokens.wrapping_add(output);
    d.cache_read_tokens = d.cache_read_tokens.wrapping_add(cache);
    proof {
        assert(d@ =~= grown(first, s@));
        setting_a_day(all, d@, d@.date);
        lemma_with_day_at(all, d@, k as int);
    }
    days.insert(k, d);
    proof {
        if there {
            assert(days_v(days@) =~= all.update(k as int, d@));
        } else {
            assert(days_v(days@) =~= all.insert(k as int, d@));
        }
    }
}

/// Adds the sessions of a page to their days.
pub fn add_sessions(days: &mut Vec<UsageDayStat>, page: &Vec<Json>, times: &LocalTimes)
    requires
        in_order(days_v(old(days)@)),
        forall|i: int| 0 <= i < page@.len() ==> (#[trigger] page@[i])@.wf(),
    ensures
        days_v(final(days)@) == with_sessions(days_v(old(days)@), json::items(page@), times.entries@),
        in_order(days_v(final(days)@)),
{
    let ghost start = days_v(days@);
    let ghost all = json::items(page@);
    let mut i: usize = 0;
    assert(all.take(0) =~= Seq::empty());
    while i < page.len()
        invariant
            i <= page@.len(),
            all == json::items(page@),
            forall|k: int| 0 <= k < page@.len() ==> (#[trigger] page@[k])@.wf(),
            days_v(days@) == with_sessions(start, all.take(i as int), times.entries@),
            in_order(days_v(days@)),
        decreases page@.len() - i,
    {
        proof {
            assert(all.take(i + 1).drop_last() =~= all.take(i as int));
            assert(all.take(i + 1).last() == page@[i as int]@);
        }
        if let Some(s) = read_session(&page[i], times) {
            proof {
                let front = read_page(all.take(i as int), times.entries@);
                assert(front.push(s@).drop_last() =~= front);
            }
            add_session(days, &s);
        }
        i += 1;
    }
    assert(all.take(all.len() as int) =~= all);
}

// ---- asking page by page ----

/// How far asking for an account has come.
pub struct Pager {
    pub page: u32,
    pub got: u128,
    pub total: Option<u64>,
    pub days: Vec<UsageDayStat>,
}

/// The sessions of a page.
pub open spec fn sessions_of(resp: JsonV) -> Seq<JsonV> {
    resp.elements_at("user_usage_group_by_sessions"@)
}

/// How many sessions there are, as the first page said.
pub open spec fn total_of(known: Option<u64>, resp: JsonV) -> u64 {
    match known {
        Some(n) => n,
        None => tokens_at(resp, "total"@),
    }
}

/// Whether another page is asked for: there are more sessions, the page was full, and it was not
/// the last that may be asked for.
pub open spec fn goes_on(page: int, got: int, total: int, len: int) -> bool {
    len > 0 && got < total && len >= PAGE_SIZE && page < MAX_PAGES
}

impl Pager {
    /// Whether the numbers are those of a page that may be asked for.
    pub open spec fn wf(self) -> bool {
        &&& 1 <= self.page <= MAX_PAGES
        &&& self.got <= (self.page - 1) * 0x1_0000_0000_0000_0000
        &&& in_order(days_v(self.days@))
    }

    /// Whether this is how it stands after a page, and whether another is asked for.
    pub open spec fn takes(self, after: Pager, resp: JsonV, times: Seq<(i64, String)>, more: bool) -> bool {
        let len = sessions_of(resp).len() as int;
        &&& more == goes_on(self.page as int, self.got + len, total_of(self.total, resp) as int, len)
        &&& after.total == Some(total_of(self.total, resp))
        &&& days_v(after.days@) == with_sessions(days_v(self.days@), sessions_of(resp), times)
        &&& after.page == self.page + (if more {
            1int
        } else {
            0
        })
        &&& after.got == self.got + (if more {
            len
        } else {
            0
        })
    }

    /// Nothing has been asked for yet.
    pub fn new() -> (r: Pager)
        ensures
            r.wf(),
            r.page == 1,
            r.got == 0,
            r.total is None,
            days_v(r.days@) == Seq::<DayV>::empty(),
    {
        let days: Vec<UsageDayStat> = Vec::new();
        assert(days_v(days@) =~= Seq::empty());
        Pager { page: 1, got: 0, total: None, days }
    }

    /// What is asked for.
    pub fn request(&self, start_ts: i64, end_ts: i64) -> (r: Json)
        ensures
            r@ == request_v(self.page as int, start_ts as int, end_ts as int),
    {
        broadcast use json::lemma_view_parts;

        let mut o = json::new_fields();
        json::put(&mut o, "start_time", json::jint(start_ts));
        json::put(&mut o, "end_time", json::jint(end_ts));
        json::put(&mut o, "page_size", json::jint(PAGE_SIZE as i64));
        json::put(&mut o, "page_num", json::jint(self.page as i64));
        let mut kinds: Vec<Json> = Vec::new();
        kinds.push(json::jint(USAGE_TYPE));
        let list = Json::Array(kinds);
        assert(list@->Arr_0 =~= seq![json::int_v(USAGE_TYPE as int)]);
        json::put(&mut o, "usage_type", list);
        json::object(o)
    }

    /// Takes a page in, with the local times of its sessions. Whether another is asked for.
    pub fn take_page(&mut self, resp: &Json, times: &LocalTimes) -> (more: bool)
        requires
            old(self).wf(),
            resp@.wf(),
        ensures
            final(self).wf(),
            old(self).takes(*final(self), resp@, times.entries@, more),
    {
        broadcast use json::lemma_view_parts;
        broadcast use json::lemma_get_wf;

        let total: u64 = match self.total {
            Some(n) => n,
            None => tokens(resp, "total"),
        };
        self.total = Some(total);
        let list = match resp.get("user_usage_group_by_sessions") {
            Some(v) => v.as_array(),
            None => None,
        };
        let page = match list {
            Some(p) => p,
            None => {
                return false;
            },
        };
        assert(json::items(page@) == sessions_of(resp@));
        proof {
            let v = resp@.get("user_usage_group_by_sessions"@).unwrap();
            assert(v.wf());
            assert forall|i: int| 0 <= i < page@.len() implies (#[trigger] page@[i])@.wf() by {
                assert(v->Arr_0[i] == page@[i]@);
            }
        }
        add_sessions(&mut self.days, page, times);
        let len: u128 = page.len() as u128;
        let got: u128 = self.got + len;
        if len > 0 && got < total as u128 && len >= PAGE_SIZE as u128 && self.page < MAX_PAGES {
            self.got = got;
            self.page = self.page + 1;
            true
        } else {
            false
        }
    }

    /// Takes a page in, and asks the machine for the local times of its sessions. Whether another is
    /// asked for.
    pub fn take_reply(&mut self, resp: &Json) -> (more: bool)
        requires
            old(self).wf(),
            resp@.wf(),
        ensures
            final(self).wf(),
            exists|times: Seq<(i64, String)>|
                is_told(resp@, times) && #[trigger] old(self).takes(*final(self), resp@, times, more),
    {
        let times = ask_times(resp);
        self.take_page(resp, &times)
    }
}

/// Whether these are local times of the sessions of a page: of each that is at a time there is in
/// every time zone, one is told.
pub open spec fn is_told(resp: JsonV, times: Seq<(i64, String)>) -> bool {
    &&& clock::tells(times)
    &&& forall|i: int|
        0 <= i < sessions_of(resp).len() && clock::in_range(session_time(sessions_of(resp)[i]))
            ==> clock::is_known(times, session_time(#[trigger] sessions_of(resp)[i]))
}

/// The local times of the sessions of a page, as the machine tells them.
pub fn ask_times(resp: &Json) -> (r: LocalTimes)
    ensures
        is_told(resp@, r.entries@),
{
    broadcast use json::lemma_view_parts;

    let mut stamps: Vec<i64> = Vec::new();
    if let Some(v) = resp.get("user_usage_group_by_sessions") {
        if let Some(page) = v.as_array() {
            assert(json::items(page@) == sessions_of(resp@));
            let mut i: usize = 0;
            while i < page.len()
                invariant
                    i <= page@.len(),
                    json::items(page@) == sessions_of(resp@),
                    stamps@.len() == i,
                    forall|k: int| 0 <= k < i ==> #[trigger] stamps@[k] == session_time(sessions_of(resp@)[k]),
                decreases page@.len() - i,
            {
                assert(sessions_of(resp@)[i as int] == page@[i as int]@);
                let t: i64 = match page[i].i64_at("usage_time") {
                    Some(t) => t,
                    None => 0,
                };
                stamps.push(t);
                i += 1;
            }
        }
    }
    let r = LocalTimes::ask(&stamps);
    proof {
        assert forall|i: int|
            0 <= i < sessions_of(resp@).len() && clock::in_range(session_time(sessions_of(resp@)[i])) implies clock::is_known(
            r.entries@,
            session_time(#[trigger] sessions_of(resp@)[i]),
        ) by {
            assert(stamps@[i] == session_time(sessions_of(resp@)[i]));
        }
    }
    r
}

/// What is asked for of a page.
pub open spec fn request_v(page: int, start_ts: int, end_ts: int) -> JsonV {
    let o0 = Seq::<(Seq<char>, JsonV)>::empty();
    let o1 = json::with_field(o0, "start_time"@, json::int_v(start_ts));
    let o2 = json::with_field(o1, "end_time"@, json::int_v(end_ts));
    let o3 = json::with_field(o2, "page_size"@, json::int_v(PAGE_SIZE as int));
    let o4 = json::with_field(o3, "page_num"@, json::int_v(page));
    JsonV::Obj(json::with_field(o4, "usage_type"@, JsonV::Arr(seq![json::int_v(USAGE_TYPE as int)])))
}

// ---- what is asked for, and how it is kept ----

/// From when on an account is asked for, and from which day on the days that come replace the old
/// ones: a year back the first time, and all days; later from the midnight before the last time.
pub open spec fn window(
    last_end: Option<i64>,
    last_day: Option<Seq<char>>,
    now_day: Option<Seq<char>>,
    midnight: Option<i64>,
    now: int,
) -> (int, Seq<char>) {
    match last_end {
        None => (now - FULL_PULL_DAYS * 86400, Seq::empty()),
        Some(_) => (
            match midnight {
                Some(m) => m as int,
                None => now - 86400,
            },
            first_day(last_day, now_day),
        ),
    }
}

/// The first day that is asked for again.
pub open spec fn first_day(last_day: Option<Seq<char>>, now_day: Option<Seq<char>>) -> Seq<char> {
    match last_day {
        Some(d) => d,
        None => match now_day {
            Some(d) => d,
            None => Seq::empty(),
        },
    }
}

/// The first day that is asked for again.
pub fn refetch_day(last_day: Option<String>, now_day: Option<String>) -> (r: String)
    ensures
        r@ == first_day(text::opt_text(last_day), text::opt_text(now_day)),
{
    match last_day {
        Some(d) => d,
        None => match now_day {
            Some(d) => d,
            None => {
                let r = String::new();
                assert(r@ =~= Seq::empty());
                r
            },
        },
    }
}

/// From when on an account is asked for, and the first day that is replaced, by what the machine
/// said of days and midnight.
pub fn window_of(
    last_end: Option<i64>,
    last_day: Option<String>,
    now_day: Option<String>,
    midnight: Option<i64>,
    now: i64,
) -> (r: (i64, String))
    requires
        now - FULL_PULL_DAYS * 86400 >= i64::MIN,
    ensures
        r.0 == window(last_end, text::opt_text(last_day), text::opt_text(now_day), midnight, now as int).0,
        r.1@ == window(last_end, text::opt_text(last_day), text::opt_text(now_day), midnight, now as int).1,
{
    match last_end {
        None => {
            let all = String::new();
            assert(all@ =~= Seq::empty());
            (now - FULL_PULL_DAYS * 86400, all)
        },
        Some(_) => {
            let start: i64 = match midnight {
                Some(m) => m,
                None => now - 86400,
            };
            (start, refetch_day(last_day, now_day))
        },
    }
}

/// Whether local times are those of the last time and of now.
pub open spec fn are_days(times: Seq<(i64, String)>, last: int, now: int) -> bool {
    &&& clock::tells(times)
    &&& clock::in_range(last) ==> clock::is_known(times, last)
    &&& clock::in_range(now) ==> clock::is_known(times, now)
}

/// Whether a window is right. The first time it is a year back, and all days. Later the first day is
/// the local day of the last time, and what is asked for starts at that day's local midnight; a day
/// back where there is no such midnight.
pub open spec fn is_window(start: int, from: Seq<char>, last_end: Option<i64>, now: int) -> bool {
    match last_end {
        None => (start, from) == window(None, None, None, None, now),
        Some(last) => is_window_since(start, from, last, now),
    }
}

/// Whether a window is right after a last time.
pub open spec fn is_window_since(start: int, from: Seq<char>, last: i64, now: int) -> bool {
    exists|times: Seq<(i64, String)>, midnight: Option<i64>|
        {
            &&& #[trigger] are_days(times, last as int, now)
            &&& #[trigger] clock::is_midnight(from, midnight)
            &&& (start, from) == window(
                Some(last),
                clock::day_at(times, last as int),
                clock::day_at(times, now),
                midnight,
                now,
            )
        }
}

/// From when on an account is asked for, and the first day that is replaced.
pub fn fetch_window(last_end: Option<i64>, now: i64) -> (r: (i64, String))
    requires
        now - FULL_PULL_DAYS * 86400 >= i64::MIN,
    ensures
        is_window(r.0 as int, r.1@, last_end, now as int),
{
    let last: i64 = match last_end {
        Some(t) => t,
        None => {
            return window_of(None, None, None, None, now);
        },
    };
    let stamps: Vec<i64> = vec![last, now];
    let times = LocalTimes::ask(&stamps);
    proof {
        assert(stamps@[0] == last && stamps@[1] == now);
        assert(are_days(times.entries@, last as int, now as int));
    }
    let from = refetch_day(times.day(last), times.day(now));
    let midnight = clock::local_midnight(from.as_str());
    let r = window_of(last_end, times.day(last), times.day(now), midnight, now);
    assert(r.1@ == from@);
    assert(clock::is_midnight(r.1@, midnight));
    r
}

/// The days before a day.
pub open spec fn days_before(days: Seq<DayV>, from: Seq<char>) -> Seq<DayV>
    decreases days.len(),
{
    if days.len() == 0 {
        Seq::empty()
    } else if json::before(days.last().date, from) {
        days_before(days.drop_last(), from).push(days.last())
    } else {
        days_before(days.drop_last(), from)
    }
}

/// Days with others set, one after another.
pub open spec fn with_days(days: Seq<DayV>, new: Seq<DayV>) -> Seq<DayV>
    decreases new.len(),
{
    if new.len() == 0 {
        days
    } else {
        with_day(with_days(days, new.drop_last()), new.last())
    }
}

/// The days of an account after it was asked for: the new ones alone where everything was asked
/// for, else the old ones before the first day that was asked for again, with the new ones.
pub open spec fn merged(old_days: Seq<DayV>, from: Seq<char>, new: Seq<DayV>) -> Seq<DayV> {
    if from.len() == 0 {
        new
    } else {
        with_days(days_before(old_days, from), new)
    }
}

proof fn lemma_days_before(days: Seq<DayV>, from: Seq<char>, date: Seq<char>)
    requires
        in_order(days),
    ensures
        in_order(days_before(days, from)),
        day_of(days_before(days, from), date) == (if json::before(date, from) {
            day_of(days, date)
        } else {
            None
        }),
        forall|i: int|
            0 <= i < days_before(days, from).len() ==> days.contains(#[trigger] days_before(days, from)[i]),
    decreases days.len(),
{
    if days.len() > 0 {
        let front = days.drop_last();
        let last = days.last();
        assert forall|i: int, j: int| 0 <= i < j < front.len() implies json::before(
            (#[trigger] front[i]).date,
            (#[trigger] front[j]).date,
        ) by {
            assert(front[i] == days[i] && front[j] == days[j]);
        }
        lemma_days_before(front, from, date);
        let kept = days_before(front, from);
        let out = days_before(days, from);
        assert forall|i: int| 0 <= i < kept.len() implies exists|k: int|
            0 <= k < days.len() - 1 && days[k] == #[trigger] kept[i] by {
            let k = choose|k: int| 0 <= k < front.len() && front[k] == kept[i];
            assert(days[k] == kept[i]);
        }
        assert forall|i: int| 0 <= i < out.len() implies days.contains(#[trigger] out[i]) by {
            if i < kept.len() {
                assert(out[i] == kept[i]);
                let k = choose|k: int| 0 <= k < days.len() - 1 && days[k] == kept[i];
                assert(days.contains(days[k]));
            } else {
                assert(days.contains(days[days.len() - 1]));
            }
        }
        assert forall|i: int, j: int| 0 <= i < j < out.len() implies json::before(
            (#[trigger] out[i]).date,
            (#[trigger] out[j]).date,
        ) by {
            assert(out[i] == kept[i]);
            if j < kept.len() {
                assert(out[j] == kept[j]);
            } else {
                let k = choose|k: int| 0 <= k < days.len() - 1 && days[k] == kept[i];
                assert(json::before(days[k].date, days[days.len() - 1].date));
            }
        }
        lemma_day_of_push(front, last, date);
        assert(front.push(last) =~= days);
        lemma_day_of_push(kept, last, date);
        if last.date == date {
            assert forall|i: int| 0 <= i < front.len() implies (#[trigger] front[i]).date != date by {
                assert(json::before(days[i].date, days[days.len() - 1].date));
                json::lemma_before_total(days[i].date, date);
            }
            lemma_day_of_none(front, date);
        }
    } else {
        assert(days_before(days, from) =~= days);
    }
}

proof fn lemma_day_of_push(days: Seq<DayV>, d: DayV, date: Seq<char>)
    ensures
        day_of(days.push(d), date) == (match day_of(days, date) {
            Some(x) => Some(x),
            None => if d.date == date {
                Some(d)
            } else {
                None
            },
        }),
    decreases days.len(),
{
    let all = days.push(d);
    if days.len() == 0 {
        assert(all[0] == d);
        assert(all.skip(1) =~= Seq::empty());
    } else {
        assert(all[0] == days[0]);
        assert(all.skip(1) =~= days.skip(1).push(d));
        lemma_day_of_push(days.skip(1), d, date);
    }
}

proof fn lemma_with_days(days: Seq<DayV>, new: Seq<DayV>, date: Seq<char>)
    requires
        in_order(days),
        in_order(new),
    ensures
        in_order(with_days(days, new)),
        day_of(with_days(days, new), date) == (match day_of(new, date) {
            Some(x) => Some(x),
            None => day_of(days, date),
        }),
    decreases new.len(),
{
    if new.len() > 0 {
        let front = new.drop_last();
        let last = new.last();
        assert forall|i: int, j: int| 0 <= i < j < front.len() implies json::before(
            (#[trigger] front[i]).date,
            (#[trigger] front[j]).date,
        ) by {
            assert(front[i] == new[i] && front[j] == new[j]);
        }
        lemma_with_days(days, front, date);
        setting_a_day(with_days(days, front), last, date);
        lemma_day_of_push(front, last, date);
        assert(front.push(last) =~= new);
        if last.date == date {
            assert forall|i: int| 0 <= i < front.len() implies (#[trigger] front[i]).date != date by {
                assert(json::before(new[i].date, new[new.len() - 1].date));
                json::lemma_before_total(new[i].date, date);
            }
            lemma_day_of_none(front, date);
        }
    }
}

/// Days that were asked for again replace the old ones from the first of them on; the days before
/// stay as they were.
pub proof fn asked_days_replace_the_old(old_days: Seq<DayV>, from: Seq<char>, new: Seq<DayV>, date: Seq<char>)
    requires
        in_order(old_days),
        in_order(new),
        from.len() > 0,
    ensures
        in_order(merged(old_days, from, new)),
        day_of(merged(old_days, from, new), date) == (match day_of(new, date) {
            Some(x) => Some(x),
            None => if json::before(date, from) {
                day_of(old_days, date)
            } else {
                None
            },
        }),
{
    lemma_days_before(old_days, from, date);
    lemma_with_days(days_before(old_days, from), new, date);
}

/// Asking for the same days twice does not add them up.
pub proof fn asking_twice_does_not_add_up(old_days: Seq<DayV>, from: Seq<char>, new: Seq<DayV>, date: Seq<char>)
    requires
        in_order(old_days),
        in_order(new),
        from.len() > 0,
    ensures
        day_of(merged(merged(old_days, from, new), from, new), date) == day_of(merged(old_days, from, new), date),
{
    asked_days_replace_the_old(old_days, from, new, date);
    asked_days_replace_the_old(merged(old_days, from, new), from, new, date);
}

/// The sessions of a day, in order.
pub open spec fn sessions_on(sessions: Seq<SessionV>, date: Seq<char>) -> Seq<SessionV>
    decreases sessions.len(),
{
    if sessions.len() == 0 {
        Seq::empty()
    } else if sessions.last().date == date {
        sessions_on(sessions.drop_last(), date).push(sessions.last())
    } else {
        sessions_on(sessions.drop_last(), date)
    }
}

/// What the sessions of a day come to; nothing where there are none.
pub open spec fn day_total(sessions: Seq<SessionV>, date: Seq<char>) -> Option<DayV>
    decreases sessions.len(),
{
    if sessions.len() == 0 {
        None
    } else {
        Some(
            grown(
                match day_total(sessions.drop_last(), date) {
                    Some(d) => d,
                    None => empty_day(date),
                },
                sessions.last(),
            ),
        )
    }
}

proof fn lemma_day_total_date(sessions: Seq<SessionV>, date: Seq<char>)
    ensures
        day_total(sessions, date) matches Some(d) ==> d.date == date,
    decreases sessions.len(),
{
    if sessions.len() > 0 {
        lemma_day_total_date(sessions.drop_last(), date);
    }
}

/// Each day comes to its own sessions, each of them counted once and in order.
pub proof fn days_are_their_sessions(sessions: Seq<SessionV>, date: Seq<char>)
    ensures
        in_order(with_all(Seq::empty(), sessions)),
        day_of(with_all(Seq::empty(), sessions), date) == day_total(sessions_on(sessions, date), date),
    decreases sessions.len(),
{
    if sessions.len() > 0 {
        let front = sessions.drop_last();
        let last = sessions.last();
        let days = with_all(Seq::empty(), front);
        days_are_their_sessions(front, date);
        days_are_their_sessions(front, last.date);
        lemma_day_total_date(sessions_on(front, last.date), last.date);
        let d = grown(
            match day_of(days, last.date) {
                Some(d) => d,
                None => empty_day(last.date),
            },
            last,
        );
        setting_a_day(days, d, date);
        if last.date == date {
            assert(sessions_on(sessions, date).drop_last() =~= sessions_on(front, date));
        }
    }
}

/// What the sessions of a day used of one kind of tokens.
pub open spec fn token_sum(sessions: Seq<SessionV>, kind: spec_fn((u64, u64, u64)) -> u64) -> int {
    sessions.map_values(
        |s: SessionV|
            match s.tokens {
                Some(t) => kind(t) as int,
                None => 0int,
            },
    ).fold_left(0int, |a: int, b: int| a + b)
}

proof fn lemma_token_sum(sessions: Seq<SessionV>, kind: spec_fn((u64, u64, u64)) -> u64)
    ensures
        token_sum(sessions, kind) >= 0,
        sessions.len() == 0 ==> token_sum(sessions, kind) == 0,
        sessions.len() > 0 ==> token_sum(sessions, kind) == token_sum(sessions.drop_last(), kind) + (
        match sessions.last().tokens {
            Some(t) => kind(t) as int,
            None => 0int,
        }),
    decreases sessions.len(),
{
    let f = |s: SessionV|
        match s.tokens {
            Some(t) => kind(t) as int,
            None => 0int,
        };
    let all = sessions.map_values(f);
    reveal_with_fuel(Seq::fold_left, 2);
    if sessions.len() > 0 {
        lemma_token_sum(sessions.drop_last(), kind);
        assert(all.drop_last() =~= sessions.drop_last().map_values(f));
        assert(all.last() == f(sessions.last()));
    }
}

proof fn lemma_sessions_on(sessions: Seq<SessionV>, date: Seq<char>)
    ensures
        sessions_on(sessions, date) == sessions.filter(|s: SessionV| s.date == date),
    decreases sessions.len(),
{
    reveal(Seq::filter);
    if sessions.len() > 0 {
        lemma_sessions_on(sessions.drop_last(), date);
    }
}

/// Whether amounts by model are those of sessions: under each model the credits of its own sessions, one
/// each and in order, and the models in ascending order.
pub open spec fn are_by_model(models: Seq<(Seq<char>, Seq<u64>)>, sessions: Seq<SessionV>) -> bool {
    &&& forall|i: int|
        0 <= i < models.len() ==> (#[trigger] models[i]).1 == sessions.filter(
            |s: SessionV| s.model == models[i].0,
        ).map_values(|s: SessionV| s.credits)
    &&& forall|i: int, j: int|
        0 <= i < j < models.len() ==> json::before((#[trigger] models[i]).0, (#[trigger] models[j]).0)
    &&& forall|k: int|
        0 <= k < sessions.len() ==> exists|i: int|
            0 <= i < models.len() && (#[trigger] models[i]).0 == (#[trigger] sessions[k]).model
}

proof fn lemma_model_credits(sessions: Seq<SessionV>, model: Seq<char>)
    requires
        sessions.len() > 0,
    ensures
        ({
            let now = sessions.filter(|s: SessionV| s.model == model).map_values(|s: SessionV| s.credits);
            let before = sessions.drop_last().filter(|s: SessionV| s.model == model).map_values(
                |s: SessionV| s.credits,
            );
            now == if sessions.last().model == model {
                before.push(sessions.last().credits)
            } else {
                before
            }
        }),
{
    reveal(Seq::filter);
    let now = sessions.filter(|s: SessionV| s.model == model).map_values(|s: SessionV| s.credits);
    let before = sessions.drop_last().filter(|s: SessionV| s.model == model).map_values(|s: SessionV| s.credits);
    if sessions.last().model == model {
        assert(now =~= before.push(sessions.last().credits));
    } else {
        assert(now =~= before);
    }
}

proof fn lemma_no_model(sessions: Seq<SessionV>, model: Seq<char>)
    requires
        forall|k: int| 0 <= k < sessions.len() ==> (#[trigger] sessions[k]).model != model,
    ensures
        sessions.filter(|s: SessionV| s.model == model).len() == 0,
    decreases sessions.len(),
{
    reveal(Seq::filter);
    if sessions.len() > 0 {
        let front = sessions.drop_last();
        assert forall|k: int| 0 <= k < front.len() implies (#[trigger] front[k]).model != model by {
            assert(front[k] == sessions[k]);
        }
        lemma_no_model(front, model);
        assert(sessions[sessions.len() - 1] == sessions.last());
    }
}

proof fn lemma_place_of_model(models: Seq<(Seq<char>, Seq<u64>)>, model: Seq<char>) -> (k: int)
    requires
        forall|i: int, j: int|
            0 <= i < j < models.len() ==> json::before((#[trigger] models[i]).0, (#[trigger] models[j]).0),
    ensures
        0 <= k <= models.len(),
        forall|i: int| 0 <= i < k ==> (#[trigger] models[i]).0 != model && json::before(models[i].0, model),
        k < models.len() ==> models[k].0 == model || !json::before(models[k].0, model),
        forall|i: int| k < i < models.len() ==> (#[trigger] models[i]).0 != model && json::before(model, models[i].0),
        k < models.len() && models[k].0 != model ==> json::before(model, models[k].0),
    decreases models.len(),
{
    if models.len() == 0 {
        0
    } else {
        let front = models.drop_last();
        assert forall|i: int, j: int| 0 <= i < j < front.len() implies json::before(
            (#[trigger] front[i]).0,
            (#[trigger] front[j]).0,
        ) by {
            assert(front[i] == models[i] && front[j] == models[j]);
        }
        let k = lemma_place_of_model(front, model);
        let last = models.last().0;
        let n = models.len() - 1;
        json::lemma_before_total(last, model);
        json::lemma_before_total(model, last);
        if k < front.len() {
            assert(front[k] == models[k]);
            assert(json::before(models[k].0, models[n].0));
            if models[k].0 != model {
                json::lemma_before_trans(model, models[k].0, last);
            }
            assert forall|i: int| 0 <= i < k implies (#[trigger] models[i]).0 != model && json::before(
                models[i].0,
                model,
            ) by {
                assert(front[i] == models[i]);
            }
            assert forall|i: int| k < i < models.len() implies (#[trigger] models[i]).0 != model && json::before(
                model,
                models[i].0,
            ) by {
                if i < n {
                    assert(front[i] == models[i]);
                }
            }
            k
        } else {
            assert forall|i: int| 0 <= i < n implies (#[trigger] models[i]).0 != model && json::before(
                models[i].0,
                model,
            ) by {
                assert(front[i] == models[i]);
            }
            if last != model && json::before(last, model) {
                models.len() as int
            } else {
                n
            }
        }
    }
}

proof fn lemma_by_model(models: Seq<(Seq<char>, Seq<u64>)>, sessions: Seq<SessionV>)
    requires
        sessions.len() > 0,
        are_by_model(models, sessions.drop_last()),
    ensures
        are_by_model(with_amount(models, sessions.last().model, sessions.last().credits), sessions),
{
    let s = sessions.last();
    let front = sessions.drop_last();
    let k = lemma_place_of_model(models, s.model);
    lemma_with_amount_at(models, s.model, s.credits, k);
    let after = with_amount(models, s.model, s.credits);
    let there = k < models.len() && models[k].0 == s.model;
    if !there {
        assert forall|m: int| 0 <= m < front.len() implies (#[trigger] front[m]).model != s.model by {
            let i = choose|i: int| 0 <= i < models.len() && (#[trigger] models[i]).0 == front[m].model;
            assert(models[i].0 != s.model);
        }
        lemma_no_model(front, s.model);
    }
    assert forall|i: int| 0 <= i < after.len() implies (#[trigger] after[i]).1 == sessions.filter(
        |x: SessionV| x.model == after[i].0,
    ).map_values(|x: SessionV| x.credits) by {
        lemma_model_credits(sessions, after[i].0);
        if there {
            if i != k {
                assert(after[i] == models[i]);
            }
            assert(models[i].1 == front.filter(|x: SessionV| x.model == models[i].0).map_values(
                |x: SessionV| x.credits,
            ));
        } else if i == k {
            assert(front.filter(|x: SessionV| x.model == s.model).map_values(|x: SessionV| x.credits) =~= Seq::<
                u64,
            >::empty());
            assert(seq![s.credits] =~= Seq::<u64>::empty().push(s.credits));
        } else {
            let j = if i < k {
                i
            } else {
                i - 1
            };
            assert(after[i] == models[j]);
            assert(models[j].1 == front.filter(|x: SessionV| x.model == models[j].0).map_values(
                |x: SessionV| x.credits,
            ));
        }
    }
    assert forall|i: int, j: int| 0 <= i < j < after.len() implies json::before(
        (#[trigger] after[i]).0,
        (#[trigger] after[j]).0,
    ) by {
        if there {
            assert(after[i].0 == models[i].0 && after[j].0 == models[j].0);
        } else {
            let a = if i < k {
                i
            } else {
                i - 1
            };
            let b = if j < k {
                j
            } else {
                j - 1
            };
            if i != k {
                assert(after[i] == models[a]);
            }
            if j != k {
                assert(after[j] == models[b]);
            }
        }
    }
    assert forall|m: int| 0 <= m < sessions.len() implies exists|i: int|
        0 <= i < after.len() && (#[trigger] after[i]).0 == (#[trigger] sessions[m]).model by {
        if m < front.len() {
            assert(front[m] == sessions[m]);
            let i = choose|i: int| 0 <= i < models.len() && (#[trigger] models[i]).0 == front[m].model;
            if there || i < k {
                assert(after[i].0 == models[i].0);
            } else {
                assert(after[i + 1] == models[i]);
            }
        } else {
            assert(after[k].0 == s.model);
        }
    }
}

proof fn lemma_counted(sum: int, a: u64, b: u64)
    requires
        sum >= 0,
        a == sum % 0x1_0000_0000_0000_0000,
    ensures
        counted(a, b) == (sum + b) % 0x1_0000_0000_0000_0000,
{
}

proof fn lemma_day_sums(sessions: Seq<SessionV>, date: Seq<char>)
    requires
        sessions.len() > 0,
    ensures
        day_total(sessions, date) is Some,
        is_sum(day_total(sessions, date)->Some_0, sessions, date),
    decreases sessions.len(),
{
    let front = sessions.drop_last();
    let s = sessions.last();
    let before = match day_total(front, date) {
        Some(d) => d,
        None => empty_day(date),
    };
    lemma_token_sum(sessions, |t: (u64, u64, u64)| t.0);
    lemma_token_sum(sessions, |t: (u64, u64, u64)| t.1);
    lemma_token_sum(sessions, |t: (u64, u64, u64)| t.2);
    lemma_token_sum(front, |t: (u64, u64, u64)| t.0);
    lemma_token_sum(front, |t: (u64, u64, u64)| t.1);
    lemma_token_sum(front, |t: (u64, u64, u64)| t.2);
    if front.len() > 0 {
        lemma_day_sums(front, date);
    } else {
        assert(front.map_values(|x: SessionV| x.credits) =~= Seq::<u64>::empty());
        assert(is_sum(before, front, date));
    }
    let d = grown(before, s);
    let t = match s.tokens {
        Some(t) => t,
        None => (0u64, 0u64, 0u64),
    };
    lemma_counted(front.len() as int, before.sessions, 1);
    lemma_counted(token_sum(front, |t: (u64, u64, u64)| t.0), before.input_tokens, t.0);
    lemma_counted(token_sum(front, |t: (u64, u64, u64)| t.1), before.output_tokens, t.1);
    lemma_counted(token_sum(front, |t: (u64, u64, u64)| t.2), before.cache_read_tokens, t.2);
    assert(d.credits =~= sessions.map_values(|x: SessionV| x.credits)) by {
        assert(before.credits == front.map_values(|x: SessionV| x.credits));
    }
    lemma_by_model(before.models, sessions);
}

/// Whether a day is the sum of sessions: their number, their tokens of each kind added up as far as a
/// counter of sixty-four bits shows them, and their credits one after another, in all and by model.
pub open spec fn is_sum(d: DayV, sessions: Seq<SessionV>, date: Seq<char>) -> bool {
    &&& d.date == date
    &&& d.sessions == sessions.len() % 0x1_0000_0000_0000_0000
    &&& d.input_tokens == token_sum(sessions, |t: (u64, u64, u64)| t.0) % 0x1_0000_0000_0000_0000
    &&& d.output_tokens == token_sum(sessions, |t: (u64, u64, u64)| t.1) % 0x1_0000_0000_0000_0000
    &&& d.cache_read_tokens == token_sum(sessions, |t: (u64, u64, u64)| t.2) % 0x1_0000_0000_0000_0000
    &&& d.credits == sessions.map_values(|s: SessionV| s.credits)
    &&& are_by_model(d.models, sessions)
}

/// A day is the sum of the sessions of its date, of all of them and of no others: their number, their
/// tokens of each kind, and their credits in all and by model. There is a day for each date that sessions
/// have, and for no other.
pub proof fn a_day_is_the_sum_of_its_sessions(sessions: Seq<SessionV>, date: Seq<char>)
    ensures
        ({
            let own = sessions.filter(|s: SessionV| s.date == date);
            match day_of(with_all(Seq::empty(), sessions), date) {
                Some(d) => own.len() > 0 && is_sum(d, own, date),
                None => own.len() == 0,
            }
        }),
{
    days_are_their_sessions(sessions, date);
    lemma_sessions_on(sessions, date);
    let own = sessions_on(sessions, date);
    if own.len() > 0 {
        lemma_day_sums(own, date);
    }
}

/// A page is read alike wherever the machine tells the same days for its sessions.
pub proof fn pages_are_read_alike(page: Seq<JsonV>, times: Seq<(i64, String)>, others: Seq<(i64, String)>)
    requires
        forall|i: int|
            0 <= i < page.len() ==> clock::day_at(others, session_time(#[trigger] page[i])) == clock::day_at(
                times,
                session_time(page[i]),
            ),
    ensures
        read_page(page, others) == read_page(page, times),
    decreases page.len(),
{
    if page.len() > 0 {
        let front = page.drop_last();
        assert forall|i: int| 0 <= i < front.len() implies clock::day_at(others, session_time(#[trigger] front[i]))
            == clock::day_at(times, session_time(front[i])) by {
            assert(front[i] == page[i]);
        }
        pages_are_read_alike(front, times, others);
        assert(page[page.len() - 1] == page.last());
    }
}

proof fn lemma_found_day(days: Seq<DayV>, date: Seq<char>) -> (k: int)
    requires
        day_of(days, date) is Some,
    ensures
        0 <= k < days.len(),
        days[k].date == date,
        day_of(days, date) == Some(days[k]),
    decreases days.len(),
{
    if days[0].date == date {
        0
    } else {
        let j = lemma_found_day(days.skip(1), date);
        assert(days.skip(1)[j] == days[j + 1]);
        j + 1
    }
}

/// Days that ascend are the same where the day of every date is.
proof fn lemma_same_days(a: Seq<DayV>, b: Seq<DayV>)
    requires
        in_order(a),
        in_order(b),
        forall|date: Seq<char>| #[trigger] day_of(a, date) == day_of(b, date),
    ensures
        a == b,
    decreases a.len(),
{
    if a.len() == 0 {
        if b.len() > 0 {
            assert(day_of(a, b[0].date) == day_of(b, b[0].date));
        }
        assert(a =~= b);
    } else {
        let first = a[0].date;
        assert(day_of(a, first) == day_of(b, first));
        let k = lemma_found_day(b, first);
        if k > 0 {
            assert(json::before(b[0].date, b[k].date));
            assert(day_of(a, b[0].date) == day_of(b, b[0].date));
            let j = lemma_found_day(a, b[0].date);
            json::lemma_before_total(first, b[0].date);
            if j > 0 {
                assert(json::before(a[0].date, a[j].date));
            }
            assert(false);
        }
        assert(b[0] == a[0]);
        let (x, y) = (a.skip(1), b.skip(1));
        assert forall|i: int, j: int| 0 <= i < j < x.len() implies json::before(
            (#[trigger] x[i]).date,
            (#[trigger] x[j]).date,
        ) by {
            assert(x[i] == a[i + 1] && x[j] == a[j + 1]);
        }
        assert forall|i: int, j: int| 0 <= i < j < y.len() implies json::before(
            (#[trigger] y[i]).date,
            (#[trigger] y[j]).date,
        ) by {
            assert(y[i] == b[i + 1] && y[j] == b[j + 1]);
        }
        assert forall|date: Seq<char>| #[trigger] day_of(x, date) == day_of(y, date) by {
            assert(day_of(a, date) == day_of(b, date));
            if date == first {
                assert forall|i: int| 0 <= i < x.len() implies (#[trigger] x[i]).date != date by {
                    assert(x[i] == a[i + 1]);
                    assert(json::before(a[0].date, a[i + 1].date));
                    json::lemma_before_total(a[0].date, a[i + 1].date);
                }
                assert forall|i: int| 0 <= i < y.len() implies (#[trigger] y[i]).date != date by {
                    assert(y[i] == b[i + 1]);
                    assert(json::before(b[0].date, b[i + 1].date));
                    json::lemma_before_total(b[0].date, b[i + 1].date);
                }
                lemma_day_of_none(x, date);
                lemma_day_of_none(y, date);
            }
        }
        lemma_same_days(x, y);
        assert(a =~= seq![a[0]] + x);
        assert(b =~= seq![b[0]] + y);
    }
}

/// A second fetch counts nothing twice. At first the days from `first` on were asked for (all of them
/// where it is empty), and then those from `from` on, which is no earlier day. Where both times the
/// same sessions came for the days from `from` on, and the second time none for earlier days, the days
/// are those after the first.
pub proof fn fetching_again_counts_nothing_twice(
    old_days: Seq<DayV>,
    first: Seq<char>,
    sessions: Seq<SessionV>,
    from: Seq<char>,
    again: Seq<SessionV>,
)
    requires
        in_order(old_days),
        from.len() > 0,
        !json::before(from, first),
        forall|d: Seq<char>|
            !json::before(d, from) ==> #[trigger] sessions_on(again, d) == sessions_on(sessions, d),
        forall|d: Seq<char>| json::before(d, from) ==> (#[trigger] sessions_on(again, d)).len() == 0,
    ensures
        ({
            let once = merged(old_days, first, with_all(Seq::empty(), sessions));
            merged(once, from, with_all(Seq::empty(), again)) == once
        }),
{
    let new = with_all(Seq::empty(), sessions);
    let newer = with_all(Seq::empty(), again);
    let once = merged(old_days, first, new);
    let twice = merged(once, from, newer);
    days_are_their_sessions(sessions, from);
    days_are_their_sessions(again, from);
    if first.len() > 0 {
        asked_days_replace_the_old(old_days, first, new, from);
    }
    asked_days_replace_the_old(once, from, newer, from);
    assert forall|date: Seq<char>| #[trigger] day_of(twice, date) == day_of(once, date) by {
        days_are_their_sessions(sessions, date);
        days_are_their_sessions(again, date);
        assert(sessions_on(again, date) == sessions_on(again, date));
        if first.len() > 0 {
            asked_days_replace_the_old(old_days, first, new, date);
            if json::before(date, first) && !json::before(date, from) {
                json::lemma_before_total(date, from);
                if date != from {
                    json::lemma_before_trans(from, date, first);
                }
            }
        }
        asked_days_replace_the_old(once, from, newer, date);
    }
    lemma_same_days(twice, once);
}

impl UsageDayStat {
    /// The same day.
    pub fn dup(&self) -> (r: UsageDayStat)
        ensures
            r@ == self@,
    {
        let credits: Vec<u64> = self.credits.clone();
        assert(credits@ =~= self.credits@);
        let mut models: Vec<(String, Vec<u64>)> = Vec::new();
        let ghost all = amounts(self.models@);
        let mut i: usize = 0;
        while i < self.models.len()
            invariant
                i <= self.models@.len(),
                all == amounts(self.models@),
                amounts(models@) == all.take(i as int),
            decreases self.models@.len() - i,
        {
            let ghost before = amounts(models@);
            let name = self.models[i].0.clone();
            let list: Vec<u64> = self.models[i].1.clone();
            assert(list@ =~= self.models@[i as int].1@);
            models.push((name, list));
            i += 1;
            assert(amounts(models@) =~= before.push((name@, list@)));
            assert(amounts(models@) =~= all.take(i as int));
        }
        assert(amounts(models@) =~= all);
        UsageDayStat {
            date: self.date.clone(),
            credits,
            sessions: self.sessions,
            models,
            input_tokens: self.input_tokens,
            output_tokens: self.output_tokens,
            cache_read_tokens: self.cache_read_tokens,
        }
    }
}

/// The same days.
pub fn dup_days(days: &Vec<UsageDayStat>) -> (r: Vec<UsageDayStat>)
    ensures
        days_v(r@) == days_v(days@),
{
    let ghost all = days_v(days@);
    let mut out: Vec<UsageDayStat> = Vec::new();
    let mut i: usize = 0;
    while i < days.len()
        invariant
            i <= days@.len(),
            all == days_v(days@),
            days_v(out@) == all.take(i as int),
        decreases days@.len() - i,
    {
        let ghost before = days_v(out@);
        let d = days[i].dup();
        out.push(d);
        i += 1;
        assert(days_v(out@) =~= before.push(d@));
        assert(days_v(out@) =~= all.take(i as int));
    }
    assert(days_v(out@) =~= all);
    out
}

/// The days of an account after it was asked for.
pub fn merge_days(old_days: &Vec<UsageDayStat>, from: &str, new: Vec<UsageDayStat>) -> (r: Vec<UsageDayStat>)
    ensures
        days_v(r@) == merged(days_v(old_days@), from@, days_v(new@)),
        in_order(days_v(old_days@)) && in_order(days_v(new@)) ==> in_order(days_v(r@)),
{
    proof {
        if in_order(days_v(old_days@)) && in_order(days_v(new@)) && from@.len() > 0 {
            asked_days_replace_the_old(days_v(old_days@), from@, days_v(new@), from@);
        }
    }
    if from.unicode_len() == 0 {
        return new;
    }
    let ghost olds = days_v(old_days@);
    let mut out: Vec<UsageDayStat> = Vec::new();
    let mut i: usize = 0;
    assert(days_v(out@) =~= Seq::empty());
    while i < old_days.len()
        invariant
            i <= old_days@.len(),
            olds == days_v(old_days@),
            days_v(out@) == days_before(olds.take(i as int), from@),
        decreases old_days@.len() - i,
    {
        let ghost before = days_v(out@);
        proof {
            assert(olds.take(i + 1).drop_last() =~= olds.take(i as int));
            assert(olds.take(i + 1).last() == old_days@[i as int]@);
        }
        if json::is_before(old_days[i].date.as_str(), from) {
            let d = old_days[i].dup();
            out.push(d);
            assert(days_v(out@) =~= before.push(d@));
        }
        i += 1;
    }
    assert(olds.take(olds.len() as int) =~= olds);
    let ghost start = days_v(out@);
    let ghost news = days_v(new@);
    let mut k: usize = 0;
    assert(news.take(0) =~= Seq::empty());
    while k < new.len()
        invariant
            k <= new@.len(),
            news == days_v(new@),
            days_v(out@) == with_days(start, news.take(k as int)),
        decreases new@.len() - k,
    {
        proof {
            assert(news.take(k + 1).drop_last() =~= news.take(k as int));
            assert(news.take(k + 1).last() == new@[k as int]@);
        }
        set_day(&mut out, new[k].dup());
        k += 1;
    }
    assert(news.take(news.len() as int) =~= news);
    out
}

/// What is kept of an account.
pub struct CachedAccount {
    pub name: String,
    /// When it was last asked for.
    pub last_fetch_end_ts: Option<i64>,
    pub daily: Vec<UsageDayStat>,
}

/// The model of what is kept of an account.
#[verifier::ext_equal]
pub struct CachedV {
    pub name: Seq<char>,
    pub last_fetch_end_ts: Option<i64>,
    pub daily: Seq<DayV>,
}

impl View for CachedAccount {
    type V = CachedV;

    open spec fn view(&self) -> CachedV {
        CachedV { name: self.name@, last_fetch_end_ts: self.last_fetch_end_ts, daily: days_v(self.daily@) }
    }
}

/// What is kept of all accounts.
pub struct CacheFile {
    pub fetched_at: Option<i64>,
    pub accounts: Vec<(String, CachedAccount)>,
}

impl CacheFile {
    /// What is kept of a user's account.
    pub open spec fn of(self, uid: Seq<char>) -> Option<CachedV> {
        match assoc::lookup(self.accounts@, uid) {
            Some(a) => Some(a@),
            None => None,
        }
    }

    /// Whether the days of every account ascend.
    pub open spec fn wf(self) -> bool {
        forall|u: Seq<char>| (#[trigger] self.of(u)) matches Some(c) ==> in_order(c.daily)
    }
}

/// The user of an account, where it has one.
pub open spec fn user_of(a: RawAccount) -> Option<Seq<char>> {
    match a.user_id {
        Some(u) => if u@.len() > 0 {
            Some(u@)
        } else {
            None
        },
        None => None,
    }
}

fn user(a: &RawAccount) -> (r: Option<&str>)
    ensures
        text::opt_str(r) == user_of(*a),
{
    match &a.user_id {
        Some(u) => if u.as_str().unicode_len() > 0 {
            Some(u.as_str())
        } else {
            None
        },
        None => None,
    }
}

/// Whether an account is asked for: it has a user and a token.
pub fn is_asked_for(a: &RawAccount) -> (r: bool)
    ensures
        r == (user_of(*a) is Some && text::trimmed(a.jwt@).len() > 0),
{
    let token = text::trim(a.jwt.as_str());
    user(a).is_some() && token.as_str().unicode_len() > 0
}

/// When a user's account was last asked for.
pub fn last_fetch(cache: &CacheFile, uid: &str) -> (r: Option<i64>)
    ensures
        r == last_of(cache.of(uid@)),
{
    match assoc::find(&cache.accounts, uid) {
        Some(c) => c.last_fetch_end_ts,
        None => None,
    }
}

/// The days that are kept of an account.
pub open spec fn days_kept(kept: Option<CachedV>) -> Seq<DayV> {
    match kept {
        Some(c) => c.daily,
        None => Seq::empty(),
    }
}

/// When an account was last asked for, by what is kept of it.
pub open spec fn last_of(kept: Option<CachedV>) -> Option<i64> {
    match kept {
        Some(c) => c.last_fetch_end_ts,
        None => None,
    }
}

/// What is kept of an account once asking for it, from a first day on, brought days.
pub open spec fn kept_after(
    kept: Option<CachedV>,
    name: Seq<char>,
    from: Seq<char>,
    new: Seq<DayV>,
    now: i64,
) -> CachedV {
    CachedV { name, last_fetch_end_ts: Some(now), daily: merged(days_kept(kept), from, new) }
}

/// Keeps what asking for an account brought. Where it failed, what was kept stays, and the reason
/// is noted.
pub fn take_result(
    cache: &mut CacheFile,
    errors: &mut Vec<(String, String)>,
    uid: &str,
    name: &str,
    from: &str,
    result: Result<Vec<UsageDayStat>, String>,
    now: i64,
)
    ensures
        final(cache).fetched_at == old(cache).fetched_at,
        old(cache).wf() && (result matches Ok(new) ==> in_order(days_v(new@))) ==> final(cache).wf(),
        forall|u: Seq<char>| u != uid@ ==> #[trigger] final(cache).of(u) == old(cache).of(u),
        forall|u: Seq<char>|
            u != uid@ ==> #[trigger] assoc::lookup(final(errors)@, u) == assoc::lookup(old(errors)@, u),
        match result {
            Ok(new) => {
                &&& final(cache).of(uid@) == Some(kept_after(old(cache).of(uid@), name@, from@, days_v(new@), now))
                &&& assoc::lookup(final(errors)@, uid@) == assoc::lookup(old(errors)@, uid@)
            },
            Err(e) => {
                &&& final(cache).of(uid@) == old(cache).of(uid@)
                &&& assoc::lookup(final(errors)@, uid@) == Some(e)
            },
        },
{
    match result {
        Ok(new) => {
            let ghost olds = match cache.of(uid@) {
                Some(c) => c.daily,
                None => Seq::empty(),
            };
            let ghost news = days_v(new@);
            let daily = match assoc::find(&cache.accounts, uid) {
                Some(c) => merge_days(&c.daily, from, new),
                None => {
                    let none: Vec<UsageDayStat> = Vec::new();
                    assert(days_v(none@) =~= Seq::empty());
                    merge_days(&none, from, new)
                },
            };
            let entry = CachedAccount { name: name.to_owned(), last_fetch_end_ts: Some(now), daily };
            assoc::set(&mut cache.accounts, uid, entry);
            proof {
                if old(cache).wf() && in_order(news) {
                    assert(in_order(olds));
                    assert(in_order(days_v(daily@)));
                    assert forall|u: Seq<char>| (#[trigger] cache.of(u)) matches Some(c) implies in_order(
                        cache.of(u)->Some_0.daily,
                    ) by {
                        if u != uid@ {
                            assert(cache.of(u) == old(cache).of(u));
                        }
                    }
                }
            }
        },
        Err(e) => {
            assoc::set(errors, uid, e);
        },
    }
}

/// After a first time, the first day of a window is the local day of the last time.
proof fn lemma_window_day(start: int, from: Seq<char>, last: i64, now: int)
    requires
        clock::in_range(last as int),
        is_window_since(start, from, last, now),
    ensures
        from.len() == 10,
{
    let (times, midnight) = choose|times: Seq<(i64, String)>, midnight: Option<i64>|
        {
            &&& #[trigger] are_days(times, last as int, now)
            &&& #[trigger] clock::is_midnight(from, midnight)
            &&& (start, from) == window(
                Some(last),
                clock::day_at(times, last as int),
                clock::day_at(times, now),
                midnight,
                now,
            )
        };
    clock::known_times_are_local(times, last as int);
    clock::local_times_have_a_day(last as int, clock::time_at(times, last as int));
}

/// A second run counts nothing twice. An account is asked for at `now`, in the window since it was last
/// asked for, and again later, in the window since `now`. The second time the same sessions come for
/// the days of its window, and none for days before them. The days that are kept are then those that
/// were kept after the first run, even where both runs were on one local day. The account may never have
/// been asked for before; else the local day of the first run is no earlier one than the first day that
/// was asked for then.
pub proof fn a_second_run_counts_nothing_twice(
    kept: Option<CachedV>,
    names: (Seq<char>, Seq<char>),
    now: i64,
    window: (int, Seq<char>),
    sessions: Seq<SessionV>,
    later: i64,
    next: (int, Seq<char>),
    again: Seq<SessionV>,
)
    requires
        in_order(days_kept(kept)),
        clock::in_range(now as int),
        is_window(window.0, window.1, last_of(kept), now as int),
        is_window(next.0, next.1, Some(now), later as int),
        last_of(kept) is Some ==> !json::before(next.1, window.1),
        forall|d: Seq<char>|
            !json::before(d, next.1) ==> #[trigger] sessions_on(again, d) == sessions_on(sessions, d),
        forall|d: Seq<char>| json::before(d, next.1) ==> (#[trigger] sessions_on(again, d)).len() == 0,
    ensures
        ({
            let once = kept_after(kept, names.0, window.1, with_all(Seq::empty(), sessions), now);
            let twice = kept_after(Some(once), names.1, next.1, with_all(Seq::empty(), again), later);
            twice.daily == once.daily
        }),
{
    lemma_window_day(next.0, next.1, now, later as int);
    if last_of(kept) is None {
        assert(window.1.len() == 0);
    }
    fetching_again_counts_nothing_twice(days_kept(kept), window.1, sessions, next.1, again);
}

// ---- what is shown ----

/// What is shown of an account.
pub struct UsageHistoryAccount {
    pub user_id: String,
    pub name: String,
    pub ok: bool,
    /// Why there is nothing, or nothing new.
    pub error: Option<String>,
    /// The days, in ascending order of their dates.
    pub daily: Vec<UsageDayStat>,
}

/// The model of what is shown of an account.
#[verifier::ext_equal]
pub struct ShownV {
    pub user_id: Seq<char>,
    pub name: Seq<char>,
    pub ok: bool,
    pub error: Option<Seq<char>>,
    pub daily: Seq<DayV>,
}

impl View for UsageHistoryAccount {
    type V = ShownV;

    open spec fn view(&self) -> ShownV {
        ShownV {
            user_id: self.user_id@,
            name: self.name@,
            ok: self.ok,
            error: text::opt_text(self.error),
            daily: days_v(self.daily@),
        }
    }
}

/// The models of what is shown of accounts.
pub open spec fn shown_v(v: Seq<UsageHistoryAccount>) -> Seq<ShownV> {
    v.map_values(|a: UsageHistoryAccount| a@)
}

/// What is shown of all accounts.
pub struct UsageHistoryResult {
    pub fetched_at: i64,
    /// Whether nothing was asked for.
    pub cached: bool,
    pub accounts: Vec<UsageHistoryAccount>,
}

/// What went wrong with a user's account.
pub open spec fn error_of(errors: Seq<(String, String)>, uid: Seq<char>) -> Option<Seq<char>> {
    match assoc::lookup(errors, uid) {
        Some(e) => Some(e@),
        None => None,
    }
}

/// What is shown of a user's account: what is kept, with a word on what went wrong.
pub open spec fn shown_of(
    uid: Seq<char>,
    name: Seq<char>,
    kept: Option<CachedV>,
    error: Option<Seq<char>>,
    fresh: bool,
) -> ShownV {
    match kept {
        Some(c) => ShownV {
            user_id: uid,
            name: c.name,
            ok: true,
            error: match error {
                Some(e) => if fresh {
                    Some("本次更新失败（展示已有缓存）："@ + e)
                } else {
                    None
                },
                None => None,
            },
            daily: c.daily,
        },
        None => ShownV {
            user_id: uid,
            name,
            ok: false,
            error: if fresh {
                error
            } else {
                Some("尚未拉取消耗明细，点击「更新消耗明细」拉取"@)
            },
            daily: Seq::empty(),
        },
    }
}

/// What is shown of the accounts that have a user, in their order.
pub open spec fn all_shown(
    accounts: Seq<RawAccount>,
    cache: CacheFile,
    errors: Seq<(String, String)>,
    fresh: bool,
) -> Seq<ShownV>
    decreases accounts.len(),
{
    if accounts.len() == 0 {
        Seq::empty()
    } else {
        let front = all_shown(accounts.drop_last(), cache, errors, fresh);
        match user_of(accounts.last()) {
            Some(u) => front.push(shown_of(u, accounts.last().name@, cache.of(u), error_of(errors, u), fresh)),
            None => front,
        }
    }
}

fn show_one(uid: &str, name: &str, cache: &CacheFile, errors: &Vec<(String, String)>, fresh: bool) -> (r:
    UsageHistoryAccount)
    ensures
        r@ == shown_of(uid@, name@, cache.of(uid@), error_of(errors@, uid@), fresh),
{
    let error = assoc::find(errors, uid);
    match assoc::find(&cache.accounts, uid) {
        Some(c) => UsageHistoryAccount {
            user_id: uid.to_owned(),
            name: c.name.clone(),
            ok: true,
            error: match error {
                Some(e) => if fresh {
                    Some(text::cat("本次更新失败（展示已有缓存）：", e.as_str()))
                } else {
                    None
                },
                None => None,
            },
            daily: dup_days(&c.daily),
        },
        None => {
            let daily: Vec<UsageDayStat> = Vec::new();
            assert(days_v(daily@) =~= Seq::empty());
            UsageHistoryAccount {
                user_id: uid.to_owned(),
                name: name.to_owned(),
                ok: false,
                error: if fresh {
                    match error {
                        Some(e) => Some(e.clone()),
                        None => None,
                    }
                } else {
                    Some("尚未拉取消耗明细，点击「更新消耗明细」拉取".to_owned())
                },
                daily,
            }
        },
    }
}

/// What is shown of all accounts: of what is kept alone, or after the accounts were asked for.
pub fn usage_history_fetch(
    accounts: &Vec<RawAccount>,
    cache: &CacheFile,
    errors: &Vec<(String, String)>,
    fresh: bool,
    now: i64,
) -> (r: UsageHistoryResult)
    ensures
        r.cached == !fresh,
        r.fetched_at == (if fresh {
            now
        } else {
            match cache.fetched_at {
                Some(t) => t,
                None => 0,
            }
        }),
        shown_v(r.accounts@) == all_shown(accounts@, *cache, errors@, fresh),
        cache.wf() ==> forall|i: int| 0 <= i < r.accounts@.len() ==> in_order((#[trigger] r.accounts@[i])@.daily),
{
    let mut out: Vec<UsageHistoryAccount> = Vec::new();
    let mut i: usize = 0;
    assert(shown_v(out@) =~= Seq::empty());
    assert(accounts@.take(0) =~= Seq::empty());
    while i < accounts.len()
        invariant
            i <= accounts@.len(),
            shown_v(out@) == all_shown(accounts@.take(i as int), *cache, errors@, fresh),
            cache.wf() ==> forall|k: int| 0 <= k < out@.len() ==> in_order((#[trigger] out@[k])@.daily),
        decreases accounts@.len() - i,
    {
        let ghost before = shown_v(out@);
        proof {
            assert(accounts@.take(i + 1).drop_last() =~= accounts@.take(i as int));
            assert(accounts@.take(i + 1).last() == accounts@[i as int]);
        }
        if let Some(u) = user(&accounts[i]) {
            let a = show_one(u, accounts[i].name.as_str(), cache, errors, fresh);
            out.push(a);
            assert(shown_v(out@) =~= before.push(a@));
        }
        i += 1;
    }
    assert(accounts@.take(accounts@.len() as int) =~= accounts@);
    let fetched_at: i64 = if fresh {
        now
    } else {
        match cache.fetched_at {
            Some(t) => t,
            None => 0,
        }
    };
    UsageHistoryResult { fetched_at, cached: !fresh, accounts: out }
}

// ---- what holds of sessions and pages ----

/// A session is read from its own fields: its day from the time of use, its credits from the exact
/// amount before the rounded one, its model without white ends, and its tokens each from its own field.
pub proof fn sessions_are_read_from_their_fields(s: JsonV, times: Seq<(i64, String)>)
    ensures
        s.get("usage_time"@) is None ==> session_of(s, times) is None,
        s.get("usage_time"@) matches Some(JsonV::Num(NumV::Pos(n))) ==> 0 < n <= i64::MAX ==> {
            &&& session_of(s, times) is Some == clock::day_at(times, n as int) is Some
            &&& session_of(s, times) matches Some(v) ==> Some(v.date) == clock::day_at(times, n as int)
        },
        session_of(s, times) matches Some(v) ==> {
            &&& s.get("credits_float"@) matches Some(JsonV::Num(NumV::Flt(b))) ==> v.credits == b
            &&& s.get("credits_float"@) is None ==> (s.get("amount_float"@) matches Some(JsonV::Num(NumV::Flt(b)))
                ==> v.credits == b)
            &&& s.get("credits_float"@) is None && s.get("amount_float"@) is None ==> v.credits == 0
            &&& s.get("model_name"@) matches Some(JsonV::Str(m)) ==> text::trimmed(m).len() > 0 ==> v.model
                == text::trimmed(m)
            &&& s.get("model_name"@) is None ==> v.model == "未知模型"@
            &&& s.get("extra_info"@) is None ==> v.tokens is None
            &&& s.get("extra_info"@) matches Some(x) ==> v.tokens is Some && {
                let t = v.tokens->Some_0;
                &&& x.get("input_token"@) matches Some(JsonV::Num(NumV::Pos(n))) ==> t.0 == n
                &&& x.get("output_token"@) matches Some(JsonV::Num(NumV::Pos(n))) ==> t.1 == n
                &&& x.get("cache_read_token"@) matches Some(JsonV::Num(NumV::Pos(n))) ==> t.2 == n
                &&& x.get("input_token"@) is None ==> t.0 == 0
                &&& x.get("output_token"@) is None ==> t.1 == 0
                &&& x.get("cache_read_token"@) is None ==> t.2 == 0
            }
        },
{
}

/// Pages are read session by session, in order: what follows another page is added behind it, and none
/// that has a day is left out.
pub proof fn pages_are_read_session_by_session(a: Seq<JsonV>, b: Seq<JsonV>, s: JsonV, times: Seq<(i64, String)>)
    ensures
        read_page(a + b, times) == read_page(a, times) + read_page(b, times),
        session_of(s, times) matches Some(v) ==> read_page(seq![s], times) == seq![v],
        session_of(s, times) is None ==> read_page(seq![s], times).len() == 0,
    decreases b.len(),
{
    reveal_with_fuel(read_page, 2);
    assert(seq![s].drop_last() =~= Seq::empty());
    if let Some(v) = session_of(s, times) {
        assert(read_page(seq![s], times) =~= seq![v]);
    }
    if b.len() == 0 {
        assert(a + b =~= a);
        assert(read_page(a, times) + read_page(b, times) =~= read_page(a, times));
    } else {
        pages_are_read_session_by_session(a, b.drop_last(), s, times);
        assert((a + b).drop_last() =~= a + b.drop_last());
        assert(read_page(a + b, times) =~= read_page(a, times) + read_page(b, times));
    }
}

/// Another page is asked for exactly where this one was full, more were told of than have come, and fewer
/// than fifty were asked for.
pub proof fn full_pages_are_followed(page: int, got: int, total: int, len: int)
    requires
        len >= 0,
    ensures
        goes_on(page, got, total, len) == (len >= 100 && got < total && page <= 49),
{
}

/// How many sessions there are is told by the first answer that came, and the sessions of an answer are
/// all that it lists.
pub proof fn the_first_answer_tells_the_total(known: u64, resp: JsonV)
    ensures
        total_of(Some(known), resp) == known,
        resp.get("total"@) matches Some(JsonV::Num(NumV::Pos(n))) ==> total_of(None, resp) == n,
        resp.get("total"@) is None ==> total_of(None, resp) == 0,
        resp.get("user_usage_group_by_sessions"@) matches Some(JsonV::Arr(a)) ==> sessions_of(resp) == a,
        resp.get("user_usage_group_by_sessions"@) is None ==> sessions_of(resp).len() == 0,
{
}

/// The first time a whole year is asked for; later all since the day that was asked for last, from its
/// midnight on, or the last day where no midnight is known.
pub proof fn later_runs_start_at_the_last_day(
    last: i64,
    day: Seq<char>,
    today: Option<Seq<char>>,
    midnight: i64,
    now: int,
)
    ensures
        window(None, Some(day), today, Some(midnight), now).0 == now - 31536000,
        window(None, Some(day), today, Some(midnight), now).1.len() == 0,
        window(Some(last), Some(day), today, Some(midnight), now) == (midnight as int, day),
        window(Some(last), Some(day), today, None, now) == (now - 86400, day),
        today matches Some(d) ==> window(Some(last), None, today, Some(midnight), now) == (midnight as int, d),
{
}

/// The days before a day are those of the kept ones that lie before it, in order.
pub proof fn earlier_days_are_kept(days: Seq<DayV>, from: Seq<char>)
    ensures
        days_before(days, from) == days.filter(|d: DayV| json::before(d.date, from)),
    decreases days.len(),
{
    reveal(Seq::filter);
    if days.len() > 0 {
        earlier_days_are_kept(days.drop_last(), from);
    }
}

/// Merging takes all new days, and of the old ones those before the first day that was asked for; where
/// all was asked for no old day stays.
pub proof fn merging_takes_all_new_days(old_days: Seq<DayV>, from: Seq<char>, new: Seq<DayV>, d: DayV)
    ensures
        from.len() == 0 ==> merged(old_days, from, new) == new,
        from.len() > 0 ==> merged(old_days, from, Seq::empty()) == old_days.filter(
            |x: DayV| json::before(x.date, from),
        ),
        from.len() > 0 ==> merged(old_days, from, new.push(d)) == with_day(merged(old_days, from, new), d),
{
    earlier_days_are_kept(old_days, from);
    assert(new.push(d).drop_last() =~= new);
}

/// What is kept of an account after a run holds its name, the time of the run and the merged days.
pub proof fn runs_are_kept(kept: Option<CachedV>, name: Seq<char>, from: Seq<char>, new: Seq<DayV>, now: i64)
    ensures
        kept_after(kept, name, from, new, now).name == name,
        kept_after(kept, name, from, new, now).last_fetch_end_ts == Some(now),
        kept is None ==> kept_after(kept, name, from, new, now).daily == merged(Seq::empty(), from, new),
        kept matches Some(c) ==> kept_after(kept, name, from, new, now).daily == merged(c.daily, from, new),
        kept matches Some(c) ==> last_of(kept) == c.last_fetch_end_ts,
        last_of(None) is None,
{
}

/// What is shown of an account: what is kept of it, and an error only where it was just asked about;
/// without anything kept, why.
pub proof fn accounts_are_shown_as_kept(
    uid: Seq<char>,
    name: Seq<char>,
    c: CachedV,
    kept: Option<CachedV>,
    error: Option<Seq<char>>,
    e: Seq<char>,
    fresh: bool,
)
    ensures
        shown_of(uid, name, kept, error, fresh).user_id == uid,
        shown_of(uid, name, kept, error, fresh).ok == kept is Some,
        shown_of(uid, name, Some(c), error, fresh).name == c.name,
        shown_of(uid, name, Some(c), error, fresh).daily == c.daily,
        shown_of(uid, name, Some(c), error, false).error is None,
        shown_of(uid, name, Some(c), None, true).error is None,
        shown_of(uid, name, Some(c), Some(e), true).error == Some("本次更新失败（展示已有缓存）："@ + e),
        shown_of(uid, name, None, error, fresh).name == name,
        shown_of(uid, name, None, error, fresh).daily.len() == 0,
        shown_of(uid, name, None, error, true).error == error,
        shown_of(uid, name, None, error, false).error == Some(
            "尚未拉取消耗明细，点击「更新消耗明细」拉取"@,
        ),
{
}

/// The accounts are shown one by one and in order, each that has a user with what is kept of that user.
pub proof fn accounts_are_shown_one_by_one(
    a: Seq<RawAccount>,
    b: Seq<RawAccount>,
    x: RawAccount,
    cache: CacheFile,
    errors: Seq<(String, String)>,
    fresh: bool,
)
    ensures
        all_shown(a + b, cache, errors, fresh) == all_shown(a, cache, errors, fresh) + all_shown(
            b,
            cache,
            errors,
            fresh,
        ),
        x.user_id matches Some(u) ==> u@.len() > 0 ==> all_shown(seq![x], cache, errors, fresh) == seq![
            shown_of(u@, x.name@, cache.of(u@), error_of(errors, u@), fresh),
        ],
        x.user_id is None ==> all_shown(seq![x], cache, errors, fresh).len() == 0,
        x.user_id matches Some(u) ==> u@.len() == 0 ==> all_shown(seq![x], cache, errors, fresh).len() == 0,
    decreases b.len(),
{
    reveal_with_fuel(all_shown, 2);
    assert(seq![x].drop_last() =~= Seq::empty());
    if b.len() == 0 {
        assert(a + b =~= a);
        assert(all_shown(a, cache, errors, fresh) + all_shown(b, cache, errors, fresh) =~= all_shown(
            a,
            cache,
            errors,
            fresh,
        ));
    } else {
        accounts_are_shown_one_by_one(a, b.drop_last(), x, cache, errors, fresh);
        assert((a + b).drop_last() =~= a + b.drop_last());
        assert(all_shown(a + b, cache, errors, fresh) =~= all_shown(a, cache, errors, fresh) + all_shown(
            b,
            cache,
            errors,
            fresh,
        ));
    }
}

/// A request names the span, the page and its size, and the kind of use.
pub proof fn requests_name_their_page(page: int, start_ts: int, end_ts: int)
    ensures
        request_v(page, start_ts, end_ts).get("start_time"@) == Some(json::int_v(start_ts)),
        request_v(page, start_ts, end_ts).get("end_time"@) == Some(json::int_v(end_ts)),
        request_v(page, start_ts, end_ts).get("page_size"@) == Some(json::int_v(100)),
        request_v(page, start_ts, end_ts).get("page_num"@) == Some(json::int_v(page)),
        request_v(page, start_ts, end_ts).get("usage_type"@) == Some(JsonV::Arr(seq![json::int_v(7)])),
        forall|k: Seq<char>| k != "start_time"@ && k != "end_time"@ && k != "page_size"@ && k != "page_num"@ && k != "usage_type"@ ==> (#[trigger] request_v(page, start_ts, end_ts).get(k)) is None,
{
    broadcast use json::lemma_set_then_get;

    reveal_strlit("start_time");
    reveal_strlit("end_time");
    reveal_strlit("page_size");
    reveal_strlit("page_num");
    reveal_strlit("usage_type");
    assert("start_time"@.len() == 10 && "end_time"@.len() == 8 && "page_size"@.len() == 9);
    assert("page_num"@.len() == 8 && "usage_type"@.len() == 10);
    assert("start_time"@[0] != "usage_type"@[0]);
    assert("end_time"@[0] != "page_num"@[0]);
}

/// A page is taken in whole: its sessions are added to the days, the total is remembered, and where
/// another page follows, the count and the page go on by as much as came.
pub proof fn pages_are_taken_in_whole(before: Pager, after: Pager, resp: JsonV, times: Seq<(i64, String)>, more: bool)
    requires
        before.takes(after, resp, times, more),
    ensures
        ({
            let len = sessions_of(resp).len();
            let total = match before.total {
                Some(n) => n,
                None => total_of(None, resp),
            };
            &&& after.total == Some(total)
            &&& more == (len >= 100 && before.got + len < total && before.page <= 49)
            &&& more ==> after.page == before.page + 1 && after.got == before.got + len
            &&& !more ==> after.page == before.page && after.got == before.got
            &&& days_v(after.days@) == with_all(days_v(before.days@), read_page(sessions_of(resp), times))
        }),
{
}

} // verus!
