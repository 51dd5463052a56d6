//! The kept logins of an application: listing, keeping, restoring and deleting them.
use vstd::prelude::*;
use crate::{digits, floats, json, text};
use crate::paths::AppPath;
use crate::switcher::profile;
use crate::switcher::profile::TargetApp;
use super::switch;
use super::switch::{Action, RunArgs};

verus! {

broadcast use vstd::string::group_string_axioms;

/// A kept login.
pub struct ProfileInfo {
    pub slot: String,
    pub size_bytes: u64,
    pub file_count: u64,
    pub last_modified: String,
}

/// The model of a kept login.
#[verifier::ext_equal]
pub struct InfoV {
    pub slot: Seq<char>,
    pub size_bytes: int,
    pub file_count: int,
    pub last_modified: Seq<char>,
}

impl View for ProfileInfo {
    type V = InfoV;

    open spec fn view(&self) -> InfoV {
        InfoV {
            slot: self.slot@,
            size_bytes: self.size_bytes as int,
            file_count: self.file_count as int,
            last_modified: self.last_modified@,
        }
    }
}

/// The models of kept logins.
pub open spec fn infos(v: Seq<ProfileInfo>) -> Seq<InfoV> {
    v.map_values(|p: ProfileInfo| p@)
}

/// Where the kept logins of an application are.
pub fn profiles_dir(data_dir: &str, target_app: Option<&str>) -> (r: AppPath)
    ensures
        r@ == profile::snapshots_of(switch::meant(text::opt_str(target_app)), data_dir@),
{
    let app = match target_app {
        Some(t) => TargetApp::parse(t),
        None => TargetApp::TraeWork,
    };
    profile::snapshots_dir(app, data_dir)
}

/// The name of an application.
pub open spec fn app_name(app: TargetApp) -> Seq<char> {
    match app {
        TargetApp::TraeWork => "TraeWork"@,
        TargetApp::Trae => "Trae"@,
        TargetApp::Doubao => "Doubao"@,
        TargetApp::WorkBuddy => "WorkBuddy"@,
        TargetApp::CodeBuddy => "CodeBuddy"@,
    }
}

/// The name of the application that is meant: the first one for every name that is not known.
pub fn normalize_target_app(target_app: Option<&str>) -> (r: &'static str)
    ensures
        r@ == app_name(switch::meant(text::opt_str(target_app))),
{
    let app = match target_app {
        Some(t) => TargetApp::parse(t),
        None => TargetApp::TraeWork,
    };
    match app {
        TargetApp::TraeWork => "TraeWork",
        TargetApp::Trae => "Trae",
        TargetApp::Doubao => "Doubao",
        TargetApp::WorkBuddy => "WorkBuddy",
        TargetApp::CodeBuddy => "CodeBuddy",
    }
}

/// An application's name is read as that application.
pub proof fn names_are_read_back(app: TargetApp)
    ensures
        profile::app_of(app_name(app)) == app,
{
    reveal_strlit("TraeWork");
    reveal_strlit("Trae");
    reveal_strlit("Doubao");
    reveal_strlit("WorkBuddy");
    reveal_strlit("CodeBuddy");
    assert("TraeWork"@.len() == 8 && "Trae"@.len() == 4 && "Doubao"@.len() == 6);
    assert("WorkBuddy"@.len() == 9 && "CodeBuddy"@.len() == 9);
    assert("WorkBuddy"@[0] == 'W' && "CodeBuddy"@[0] == 'C');
}

/// The sum of the sizes.
pub open spec fn total(sizes: Seq<u64>) -> int
    decreases sizes.len(),
{
    if sizes.len() == 0 {
        0
    } else {
        total(sizes.drop_last()) + sizes.last()
    }
}

proof fn lemma_total_grows(sizes: Seq<u64>, i: int)
    requires
        0 <= i <= sizes.len(),
    ensures
        0 <= total(sizes.take(i)) <= total(sizes),
    decreases sizes.len(),
{
    if i < sizes.len() {
        lemma_total_grows(sizes.drop_last(), i);
        assert(sizes.drop_last().take(i) =~= sizes.take(i));
    } else {
        assert(sizes.take(i) =~= sizes);
        lemma_total_positive(sizes);
    }
}

proof fn lemma_total_positive(sizes: Seq<u64>)
    ensures
        total(sizes) >= 0,
    decreases sizes.len(),
{
    if sizes.len() > 0 {
        lemma_total_positive(sizes.drop_last());
    }
}

/// How large the files of a directory are together, and how many there are.
pub fn dir_stats(sizes: &Vec<u64>) -> (r: (u64, u64))
    requires
        total(sizes@) <= u64::MAX,
    ensures
        r.0 == total(sizes@),
        r.1 == sizes@.len(),
{
    let mut size: u64 = 0;
    let mut i: usize = 0;
    while i < sizes.len()
        invariant
            i <= sizes@.len(),
            total(sizes@) <= u64::MAX,
            size == total(sizes@.take(i as int)),
        decreases sizes@.len() - i,
    {
        proof {
            assert(sizes@.take(i + 1).drop_last() =~= sizes@.take(i as int));
            lemma_total_grows(sizes@, i + 1);
        }
        size += sizes[i];
        i += 1;
    }
    assert(sizes@.take(sizes@.len() as int) =~= sizes@);
    (size, sizes.len() as u64)
}

// ---- sizes in words ----

/// The distance of the numbers that a double can hold near a number: one where all can be held.
pub open spec fn grain(n: int, g: int) -> int
    decreases n - g,
{
    if g <= 0 || n < 0x20_0000_0000_0000 * g {
        g
    } else {
        grain(n, 2 * g)
    }
}

/// A number as a double holds it: the nearest that it can hold.
pub open spec fn as_held(n: int) -> int {
    floats::half_even(n, grain(n, 1)) * grain(n, 1)
}

/// A whole number of tenths or hundredths as a number with a point.
pub open spec fn with_point(n: int, places: int) -> Seq<char> {
    if places == 1 {
        digits::decimal(n / 10) + "."@ + digits::decimal(n % 10)
    } else {
        digits::decimal(n / 100) + "."@ + digits::decimal((n % 100) / 10) + digits::decimal(n % 10)
    }
}

/// A size in words: in bytes, or to the nearest tenth of a KB or MB, or hundredth of a GB.
pub open spec fn size_words(bytes: int) -> Seq<char> {
    if bytes < 0x400 {
        digits::decimal(bytes) + " B"@
    } else if bytes < 0x10_0000 {
        with_point(floats::half_even(10 * bytes, 0x400), 1) + " KB"@
    } else if bytes < 0x4000_0000 {
        with_point(floats::half_even(10 * bytes, 0x10_0000), 1) + " MB"@
    } else {
        with_point(floats::half_even(100 * as_held(bytes), 0x4000_0000), 2) + " GB"@
    }
}

fn nearest(n: u128, d: u128) -> (r: u128)
    requires
        0 < d <= 0x1_0000_0000,
        n <= 0x1_0000_0000_0000_0000_0000,
    ensures
        r == floats::half_even(n as int, d as int),
        r <= n / d + 1,
{
    let q: u128 = n / d;
    let rest: u128 = n % d;
    if 2 * rest > d || (2 * rest == d && q % 2 == 1) {
        q + 1
    } else {
        q
    }
}

fn pointed(n: u64, places: u8) -> (r: String)
    requires
        places == 1 || places == 2,
    ensures
        r@ == with_point(n as int, places as int),
{
    if places == 1 {
        let a = digits::number(n / 10);
        let b = digits::number(n % 10);
        text::cat3(a.as_str(), ".", b.as_str())
    } else {
        let a = digits::number(n / 100);
        let b = digits::number((n % 100) / 10);
        let c = digits::number(n % 10);
        let head = text::cat3(a.as_str(), ".", b.as_str());
        text::cat(head.as_str(), c.as_str())
    }
}

fn held(bytes: u64) -> (r: u128)
    ensures
        r == as_held(bytes as int),
        r <= 0x1_0000_0000_0000_0000,
{
    let n: u128 = bytes as u128;
    let mut g: u128 = 1;
    let mut i: u64 = 0;
    while n >= 0x20_0000_0000_0000 * g
        invariant
            n == bytes,
            i <= 11,
            1 <= g <= 2048,
            grain(n as int, 1) == grain(n as int, g as int),
            i == 0 ==> g == 1,
            i == 1 ==> g == 2,
            i == 2 ==> g == 4,
            i == 3 ==> g == 8,
            i == 4 ==> g == 16,
            i == 5 ==> g == 32,
            i == 6 ==> g == 64,
            i == 7 ==> g == 128,
            i == 8 ==> g == 256,
            i == 9 ==> g == 512,
            i == 10 ==> g == 1024,
            i == 11 ==> g == 2048,
        decreases 2048 - g,
    {
        g = 2 * g;
        i += 1;
    }
    let q: u128 = nearest(n, g);
    proof {
        let k = n / g;
        assert(n < 0x20_0000_0000_0000 * g);
        assert(k < 0x20_0000_0000_0000) by (nonlinear_arith)
            requires
                k == n / g,
                g >= 1,
                n < 0x20_0000_0000_0000 * g,
        ;
        assert(q <= 0x20_0000_0000_0000);
        assert(q * g <= 0x20_0000_0000_0000 * 2048) by (nonlinear_arith)
            requires
                q <= 0x20_0000_0000_0000,
                g <= 2048,
        ;
    }
    q * g
}

/// A size in words.
pub fn format_size(bytes: u64) -> (r: String)
    ensures
        r@ == size_words(bytes as int),
{
    if bytes < 0x400 {
        let n = digits::number(bytes);
        text::cat(n.as_str(), " B")
    } else if bytes < 0x10_0000 {
        let n: u128 = nearest(10 * (bytes as u128), 0x400);
        let t = pointed(n as u64, 1);
        text::cat(t.as_str(), " KB")
    } else if bytes < 0x4000_0000 {
        let n: u128 = nearest(10 * (bytes as u128), 0x10_0000);
        let t = pointed(n as u64, 1);
        text::cat(t.as_str(), " MB")
    } else {
        let h: u128 = held(bytes);
        let n: u128 = nearest(100 * h, 0x4000_0000);
        let t = pointed(n as u64, 2);
        text::cat(t.as_str(), " GB")
    }
}

// ---- listing ----

/// Where an entry belongs in a list that begins with the latest: in front of the first that is
/// earlier.
pub open spec fn place_of(list: Seq<InfoV>, x: InfoV) -> int
    decreases list.len(),
{
    if list.len() == 0 || json::before(list[0].last_modified, x.last_modified) {
        0
    } else {
        1 + place_of(list.skip(1), x)
    }
}

/// The entries in order: the latest first, those of one time as they came.
pub open spec fn latest_first(list: Seq<InfoV>) -> Seq<InfoV>
    decreases list.len(),
{
    if list.len() == 0 {
        Seq::empty()
    } else {
        let front = latest_first(list.drop_last());
        front.insert(place_of(front, list.last()), list.last())
    }
}

proof fn lemma_place_of(list: Seq<InfoV>, x: InfoV)
    ensures
        0 <= place_of(list, x) <= list.len(),
        forall|i: int|
            0 <= i < place_of(list, x) ==> !json::before((#[trigger] list[i]).last_modified, x.last_modified),
        place_of(list, x) < list.len() ==> json::before(list[place_of(list, x)].last_modified, x.last_modified),
    decreases list.len(),
{
    if list.len() == 0 || json::before(list[0].last_modified, x.last_modified) {
    } else {
        lemma_place_of(list.skip(1), x);
        assert forall|i: int| 0 <= i < place_of(list, x) implies !json::before(
            (#[trigger] list[i]).last_modified,
            x.last_modified,
        ) by {
            if i > 0 {
                assert(list.skip(1)[i - 1] == list[i]);
            }
        }
    }
}

proof fn lemma_place_is(list: Seq<InfoV>, x: InfoV, k: int)
    requires
        0 <= k <= list.len(),
        forall|i: int| 0 <= i < k ==> !json::before((#[trigger] list[i]).last_modified, x.last_modified),
        k < list.len() ==> json::before(list[k].last_modified, x.last_modified),
    ensures
        place_of(list, x) == k,
    decreases k,
{
    if k > 0 {
        assert(!json::before(list[0].last_modified, x.last_modified));
        assert forall|i: int| 0 <= i < k - 1 implies !json::before(
            (#[trigger] list.skip(1)[i]).last_modified,
            x.last_modified,
        ) by {
            assert(list.skip(1)[i] == list[i + 1]);
        }
        lemma_place_is(list.skip(1), x, k - 1);
    }
}

/// Whether no entry of a list stands behind one that is earlier.
pub open spec fn is_latest_first(list: Seq<InfoV>) -> bool {
    forall|i: int, j: int|
        0 <= i < j < list.len() ==> !json::before(
            (#[trigger] list[i]).last_modified,
            (#[trigger] list[j]).last_modified,
        )
}

/// The listing begins with the latest, and holds every entry as often as it came.
pub proof fn listing_is_in_order(list: Seq<InfoV>)
    ensures
        is_latest_first(latest_first(list)),
        latest_first(list).to_multiset() == list.to_multiset(),
    decreases list.len(),
{
    broadcast use vstd::seq_lib::group_to_multiset_ensures;

    if list.len() > 0 {
        let front = latest_first(list.drop_last());
        let x = list.last();
        let k = place_of(front, x);
        listing_is_in_order(list.drop_last());
        lemma_place_of(front, x);
        let out = front.insert(k, x);
        assert forall|i: int, j: int| 0 <= i < j < out.len() implies !json::before(
            (#[trigger] out[i]).last_modified,
            (#[trigger] out[j]).last_modified,
        ) by {
            if i < k && j == k {
                assert(out[i] == front[i]);
            } else if i == k {
                assert(out[j] == front[j - 1]);
                let a = x.last_modified;
                let b = front[j - 1].last_modified;
                let c = front[k].last_modified;
                json::lemma_before_total(a, b);
                json::lemma_before_total(c, a);
                if json::before(a, b) {
                    json::lemma_before_trans(c, a, b);
                    if j - 1 > k {
                        assert(!json::before(front[k].last_modified, front[j - 1].last_modified));
                    }
                    json::lemma_before_total(c, c);
                }
            } else if i < k && j > k {
                assert(out[i] == front[i] && out[j] == front[j - 1]);
            } else if i < k {
                assert(out[i] == front[i] && out[j] == front[j]);
            } else {
                assert(out[i] == front[i - 1] && out[j] == front[j - 1]);
            }
        }
        assert(list.drop_last().push(x) =~= list);
        assert(out.to_multiset() =~= front.to_multiset().insert(x));
        assert(list.to_multiset() =~= list.drop_last().to_multiset().insert(x));
    } else {
        assert(latest_first(list) =~= list);
    }
}

/// The kept logins in the order in which they are shown.
pub fn profile_list(found: Vec<ProfileInfo>) -> (r: Vec<ProfileInfo>)
    ensures
        infos(r@) == latest_first(infos(found@)),
{
    let ghost all = infos(found@);
    let mut rest: Vec<ProfileInfo> = Vec::new();
    let mut found = found;
    while found.len() > 0
        invariant
            infos(found@) + infos(rest@).reverse() == all,
        decreases found@.len(),
    {
        let ghost f = found@;
        let ghost g = rest@;
        if let Some(x) = found.pop() {
            rest.push(x);
            proof {
                assert(infos(f) =~= infos(found@).push(x@));
                assert(infos(rest@) =~= infos(g).push(x@));
                assert(infos(rest@).reverse() =~= seq![x@] + infos(g).reverse());
                assert(infos(found@) + infos(rest@).reverse() =~= infos(f) + infos(g).reverse());
            }
        }
    }
    assert(infos(rest@).reverse() =~= all);
    let mut out: Vec<ProfileInfo> = Vec::new();
    let ghost n: int = 0;
    assert(infos(out@) =~= Seq::empty());
    while rest.len() > 0
        invariant
            0 <= n <= all.len(),
            infos(rest@).reverse() == all.skip(n),
            infos(out@) == latest_first(all.take(n)),
        decreases rest@.len(),
    {
        let ghost g = rest@;
        let ghost o = infos(out@);
        if let Some(x) = rest.pop() {
            proof {
                assert(infos(g) =~= infos(rest@).push(x@));
                assert(infos(g).reverse() =~= seq![x@] + infos(rest@).reverse());
                assert(all.skip(n)[0] == x@);
                assert(infos(rest@).reverse() =~= all.skip(n).skip(1));
                assert(all.skip(n).skip(1) =~= all.skip(n + 1));
                assert(all.take(n + 1).drop_last() =~= all.take(n));
                assert(all.take(n + 1).last() == x@);
            }
            let mut k: usize = 0;
            while k < out.len() && !json::is_before(out[k].last_modified.as_str(), x.last_modified.as_str())
                invariant
                    k <= out@.len(),
                    o == infos(out@),
                    forall|i: int| 0 <= i < k ==> !json::before((#[trigger] o[i]).last_modified, x@.last_modified),
                decreases out@.len() - k,
            {
                assert(o[k as int] == out@[k as int]@);
                k += 1;
            }
            proof {
                if k < out@.len() {
                    assert(o[k as int] == out@[k as int]@);
                }
                lemma_place_is(o, x@, k as int);
            }
            out.insert(k, x);
            proof {
                assert(infos(out@) =~= o.insert(k as int, x@));
                n = n + 1;
            }
        }
    }
    assert(all.take(all.len() as int) =~= all);
    assert(infos(rest@).reverse().len() == 0);
    out
}

// ---- keeping, restoring, deleting ----

/// What keeping or restoring a login is run with.
pub open spec fn snapshot_args(
    action: Action,
    user_id: Seq<char>,
    target_app: Option<Seq<char>>,
    include_idb: bool,
    data_dir: Seq<char>,
) -> switch::ArgsV {
    switch::ArgsV {
        action,
        target_app: switch::meant(target_app),
        user_id: Some(user_id),
        proxy_port: None,
        include_indexeddb: switch::meant(target_app) == TargetApp::Doubao && include_idb,
        expected_current_uid: Seq::empty(),
        data_dir,
    }
}

fn args_for(action: Action, user_id: String, target_app: Option<&str>, include_idb: bool, data_dir: String) -> (r:
    RunArgs)
    ensures
        r@ == snapshot_args(action, user_id@, text::opt_str(target_app), include_idb, data_dir@),
{
    let app = match target_app {
        Some(t) => TargetApp::parse(t),
        None => TargetApp::TraeWork,
    };
    let nobody = String::new();
    assert(nobody@ =~= Seq::empty());
    RunArgs {
        action,
        target_app: app,
        user_id: Some(user_id),
        proxy_port: None,
        include_indexeddb: app == TargetApp::Doubao && include_idb,
        expected_current_uid: nobody,
        data_dir,
    }
}

/// What keeping the login at hand is run with; nothing where the user's id was refused.
pub fn profile_backup(
    uid_check: Result<(), String>,
    user_id: String,
    target_app: Option<&str>,
    include_idb: bool,
    data_dir: String,
) -> (r: Result<RunArgs, String>)
    ensures
        match uid_check {
            Ok(_) => r is Ok && r->Ok_0@ == snapshot_args(
                Action::BackupCurrent,
                user_id@,
                text::opt_str(target_app),
                include_idb,
                data_dir@,
            ),
            Err(e) => r is Err && r->Err_0@ == e@,
        },
{
    match uid_check {
        Ok(_) => Ok(args_for(Action::BackupCurrent, user_id, target_app, include_idb, data_dir)),
        Err(e) => Err(e),
    }
}

/// What restoring a kept login is run with; nothing where there is none, or where the user's id
/// was refused.
pub fn profile_restore(
    slot_exists: bool,
    uid_check: Result<(), String>,
    user_id: String,
    target_app: Option<&str>,
    include_idb: bool,
    data_dir: String,
) -> (r: Result<RunArgs, String>)
    ensures
        !slot_exists ==> r is Err && r->Err_0@ == "账号 "@ + user_id@ + " 的登录态快照不存在"@,
        slot_exists ==> match uid_check {
            Ok(_) => r is Ok && r->Ok_0@ == snapshot_args(
                Action::RestoreOnly,
                user_id@,
                text::opt_str(target_app),
                include_idb,
                data_dir@,
            ),
            Err(e) => r is Err && r->Err_0@ == e@,
        },
{
    if !slot_exists {
        return Err(text::cat3("账号 ", user_id.as_str(), " 的登录态快照不存在"));
    }
    match uid_check {
        Ok(_) => Ok(args_for(Action::RestoreOnly, user_id, target_app, include_idb, data_dir)),
        Err(e) => Err(e),
    }
}

/// The directory that goes when a kept login is deleted; nothing where the user's id was refused.
/// It is no error where there is no such directory.
pub fn profile_delete(uid_check: Result<(), String>, user_id: &str, target_app: Option<&str>, data_dir: &str) -> (r:
    Result<AppPath, String>)
    ensures
        match uid_check {
            Ok(_) => r is Ok && r->Ok_0@ == profile::snapshots_of(
                switch::meant(text::opt_str(target_app)),
                data_dir@,
            ).join(user_id@),
            Err(e) => r is Err && r->Err_0@ == e@,
        },
{
    match uid_check {
        Ok(_) => {
            let dir = profiles_dir(data_dir, target_app);
            Ok(dir.join(user_id))
        },
        Err(e) => Err(e),
    }
}

/// Why a kept login could not be deleted.
pub fn delete_error(error: &str) -> (r: String)
    ensures
        r@ == "删除快照失败: "@ + error@,
{
    text::cat("删除快照失败: ", error)
}

// ---- what holds of snapshots ----

/// The size of a snapshot is that of all its files together.
pub proof fn sizes_add_up(a: Seq<u64>, b: Seq<u64>, x: u64)
    ensures
        total(a + b) == total(a) + total(b),
        total(seq![x]) == x,
    decreases b.len(),
{
    reveal_with_fuel(total, 2);
    assert(seq![x].drop_last() =~= Seq::<u64>::empty());
    if b.len() == 0 {
        assert(a + b =~= a);
    } else {
        sizes_add_up(a, b.drop_last(), x);
        assert((a + b).drop_last() =~= a + b.drop_last());
        assert((a + b).last() == b.last());
    }
}

/// Sizes are told in the unit that suits them, to the nearest tenth.
pub proof fn sizes_are_told_in_their_unit(bytes: int, n: int)
    requires
        bytes >= 0,
    ensures
        bytes < 1024 ==> size_words(bytes) == digits::decimal(bytes) + " B"@,
        1024 <= bytes < 1048576 && 2 * (10 * bytes - 1024 * n) < 1024 && 2 * (10 * bytes - 1024 * n) > -1024
            ==> size_words(bytes) == digits::decimal(n / 10) + "."@ + digits::decimal(n % 10) + " KB"@,
        1048576 <= bytes < 1073741824 && 2 * (10 * bytes - 1048576 * n) < 1048576 && 2 * (10 * bytes - 1048576 * n)
            > -1048576 ==> size_words(bytes) == digits::decimal(n / 10) + "."@ + digits::decimal(n % 10) + " MB"@,
        1073741824 <= bytes < 9007199254740992 && 2 * (100 * bytes - 1073741824 * n) < 1073741824 && 2 * (100 * bytes
            - 1073741824 * n) > -1073741824 ==> size_words(bytes) == digits::decimal(n / 100) + "."@ + digits::decimal(
            (n % 100) / 10,
        ) + digits::decimal(n % 10) + " GB"@,
{
    if 1024 <= bytes < 1048576 {
        lemma_nearest(10 * bytes, 1024, n);
    } else if 1048576 <= bytes < 1073741824 {
        lemma_nearest(10 * bytes, 1048576, n);
    } else if 1073741824 <= bytes < 9007199254740992 {
        assert(grain(bytes, 1) == 1);
        assert(floats::half_even(bytes, 1) == bytes);
        assert(as_held(bytes) == bytes);
        lemma_nearest(100 * bytes, 1073741824, n);
    }
}

proof fn lemma_nearest(m: int, d: int, n: int)
    requires
        d > 0,
        m >= 0,
    ensures
        2 * (m - d * n) < d && 2 * (m - d * n) > -d ==> floats::half_even(m, d) == n,
{
    if 2 * (m - d * n) < d && 2 * (m - d * n) > -d {
        let q = m / d;
        let r = m % d;
        assert(m == d * q + r && 0 <= r < d) by {
            vstd::arithmetic::div_mod::lemma_fundamental_div_mod(m, d);
        }
        assert(n == q || n == q + 1) by (nonlinear_arith)
            requires
                m == d * q + r,
                0 <= r < d,
                2 * (m - d * n) < d,
                2 * (m - d * n) > -d,
                d > 0,
        ;
        if n == q {
            assert(2 * r < d);
        } else {
            assert(2 * (r - d) > -d) by (nonlinear_arith)
                requires
                    m == d * q + r,
                    n == q + 1,
                    2 * (m - d * n) > -d,
            ;
        }
    }
}

/// A snapshot is listed before the first that is older, and so behind those that are as old.
pub proof fn snapshots_are_listed_before_older_ones(list: Seq<InfoV>, x: InfoV)
    ensures
        0 <= place_of(list, x) <= list.len(),
        forall|i: int| 0 <= i < place_of(list, x) ==> !json::before((#[trigger] list[i]).last_modified, x.last_modified),
        place_of(list, x) < list.len() ==> json::before(list[place_of(list, x)].last_modified, x.last_modified),
        latest_first(list.push(x)) == latest_first(list).insert(place_of(latest_first(list), x), x),
        latest_first(Seq::empty()).len() == 0,
    decreases list.len(),
{
    assert(list.push(x).drop_last() =~= list);
    if list.len() > 0 && !json::before(list[0].last_modified, x.last_modified) {
        let rest = list.skip(1);
        snapshots_are_listed_before_older_ones(rest, x);
        let k = place_of(rest, x);
        assert(k < rest.len() ==> rest[k] == list[k + 1]);
        assert forall|i: int| 0 <= i < k + 1 implies !json::before((#[trigger] list[i]).last_modified, x.last_modified) by {
            if i > 0 {
                assert(rest[i - 1] == list[i]);
            }
        }
    }
}

/// A snapshot is made for the user and the application that were named, and of the databases only where
/// that application keeps some and it was asked for.
pub proof fn snapshots_are_made_as_asked(
    action: Action,
    user_id: Seq<char>,
    target_app: Option<Seq<char>>,
    idb: bool,
    data_dir: Seq<char>,
)
    ensures
        ({
            let a = snapshot_args(action, user_id, target_app, idb, data_dir);
            &&& a.action == action
            &&& a.user_id == Some(user_id)
            &&& a.data_dir == data_dir
            &&& a.proxy_port is None
            &&& a.expected_current_uid.len() == 0
            &&& a.target_app == switch::meant(target_app)
            &&& target_app == Some("Doubao"@) ==> a.include_indexeddb == idb
            &&& !idb ==> !a.include_indexeddb
            &&& target_app is None ==> !a.include_indexeddb
        }),
{
    profile::applications_are_meant_by_name("Doubao"@);
}

} // verus!
