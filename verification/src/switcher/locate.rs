//! Finding the file of an application: what the user set comes first, then the usual places,
//! shortcuts, installed programs, running processes, and last what was found before.
use vstd::prelude::*;
use crate::{paths, text};
use crate::paths::AppPath;
use super::profile;
use super::profile::{exe_matches, AppProfile};

verus! {

broadcast use vstd::string::group_string_axioms;

/// Whether a text from a position on fits a pattern from a position on: `*` stands for any text,
/// `?` for any one character, and letters fit in any case.
pub open spec fn fits(p: Seq<char>, s: Seq<char>, i: int, j: int) -> bool
    decreases p.len() - i, s.len() - j,
{
    if i >= p.len() {
        j >= s.len()
    } else if p[i] == '*' {
        fits(p, s, i + 1, j) || (j < s.len() && fits(p, s, i, j + 1))
    } else {
        j < s.len() && (p[i] == '?' || text::small(p[i]) == text::small(s[j])) && fits(p, s, i + 1, j + 1)
    }
}

fn fits_from(p: &Vec<char>, s: &Vec<char>, i: usize, j: usize) -> (r: bool)
    requires
        i <= p@.len(),
        j <= s@.len(),
    ensures
        r == fits(p@, s@, i as int, j as int),
    decreases p@.len() - i, s@.len() - j,
{
    if i == p.len() {
        j == s.len()
    } else if p[i] == '*' {
        fits_from(p, s, i + 1, j) || (j < s.len() && fits_from(p, s, i, j + 1))
    } else {
        j < s.len() && (p[i] == '?' || text::small_char(p[i]) == text::small_char(s[j])) && fits_from(
            p,
            s,
            i + 1,
            j + 1,
        )
    }
}

/// Whether a text fits a pattern, in any case.
pub fn glob_match_ci(pattern: &str, name: &str) -> (r: bool)
    ensures
        r == fits(pattern@, name@, 0, 0),
{
    let p = text::chars_of(pattern);
    let s = text::chars_of(name);
    fits_from(&p, &s, 0, 0)
}

/// Whether a text fits one of the patterns.
pub open spec fn fits_one(patterns: Seq<Seq<char>>, name: Seq<char>) -> bool {
    exists|i: int| 0 <= i < patterns.len() && fits(#[trigger] patterns[i], name, 0, 0)
}

/// Whether a text fits one of the patterns.
pub fn matches_one(patterns: &Vec<&'static str>, name: &str) -> (r: bool)
    ensures
        r == fits_one(text::strs(patterns@), name@),
{
    let ghost all = text::strs(patterns@);
    let mut i: usize = 0;
    while i < patterns.len()
        invariant
            i <= patterns@.len(),
            all == text::strs(patterns@),
            forall|k: int| 0 <= k < i ==> !fits(#[trigger] all[k], name@, 0, 0),
        decreases patterns@.len() - i,
    {
        assert(all[i as int] == patterns@[i as int]@);
        if glob_match_ci(patterns[i], name) {
            return true;
        }
        i += 1;
    }
    false
}

/// A pattern that is a text between two stars fits every text that holds it.
pub proof fn starred_pattern_fits(word: Seq<char>, before: Seq<char>, after: Seq<char>)
    requires
        forall|i: int| 0 <= i < word.len() ==> word[i] != '*' && word[i] != '?',
    ensures
        fits(seq!['*'] + word + seq!['*'], before + word + after, 0, 0),
{
    let p = seq!['*'] + word + seq!['*'];
    let s = before + word + after;
    lemma_tail_fits(p, s, (before.len() + word.len()) as int);
    lemma_word_fits(p, s, word, before.len() as int, 0);
    lemma_star_skips(p, s, before.len() as int, 0);
}

proof fn lemma_tail_fits(p: Seq<char>, s: Seq<char>, j: int)
    requires
        p.len() >= 1,
        p.last() == '*',
        0 <= j <= s.len(),
    ensures
        fits(p, s, p.len() - 1, j),
    decreases s.len() - j,
{
    if j < s.len() {
        lemma_tail_fits(p, s, j + 1);
    } else {
        assert(fits(p, s, p.len() as int, j));
    }
}

proof fn lemma_word_fits(p: Seq<char>, s: Seq<char>, word: Seq<char>, at: int, k: int)
    requires
        p == seq!['*'] + word + seq!['*'],
        0 <= k <= word.len(),
        0 <= at,
        at + word.len() <= s.len(),
        forall|i: int| 0 <= i < word.len() ==> s[at + i] == #[trigger] word[i],
        forall|i: int| 0 <= i < word.len() ==> word[i] != '*' && word[i] != '?',
        fits(p, s, p.len() - 1, at + word.len()),
    ensures
        fits(p, s, k + 1, at + k),
    decreases word.len() - k,
{
    if k < word.len() {
        lemma_word_fits(p, s, word, at, k + 1);
        assert(p[k + 1] == word[k]);
        assert(s[at + k] == word[k]);
    }
}

proof fn lemma_star_skips(p: Seq<char>, s: Seq<char>, to: int, j: int)
    requires
        p.len() >= 1,
        p[0] == '*',
        0 <= j <= to <= s.len(),
        fits(p, s, 1, to),
    ensures
        fits(p, s, 0, j),
    decreases to - j,
{
    if j < to {
        lemma_star_skips(p, s, to, j + 1);
    }
}

/// Where a candidate for the application's file came from.
#[derive(Clone, Copy, PartialEq, Eq, Structural, Debug)]
pub enum Source {
    /// The user set it.
    Settings,
    /// It is a usual place.
    Known,
    /// A shortcut points to it.
    Shortcut,
    /// It is the icon of an installed program.
    RegistryIcon,
    /// It is in the directory of an installed program.
    RegistryInstall,
    /// It runs.
    Running,
    /// It was found before.
    Cache,
}

/// How early a source is tried.
pub open spec fn rank(s: Source) -> int {
    match s {
        Source::Settings => 1,
        Source::Known => 2,
        Source::Shortcut => 3,
        Source::RegistryIcon => 4,
        Source::RegistryInstall => 4,
        Source::Running => 5,
        Source::Cache => 6,
    }
}

fn rank_of(s: Source) -> (r: u8)
    ensures
        r == rank(s),
{
    match s {
        Source::Settings => 1,
        Source::Known => 2,
        Source::Shortcut => 3,
        Source::RegistryIcon => 4,
        Source::RegistryInstall => 4,
        Source::Running => 5,
        Source::Cache => 6,
    }
}

/// A candidate for the application's file.
pub struct Candidate {
    pub source: Source,
    pub path: String,
    /// Whether there is a file of that path.
    pub is_file: bool,
}

/// Whether a candidate will do: there is such a file, and where others chose it, its name is one
/// of the application's.
pub open spec fn will_do(c: Candidate, names: Seq<Seq<char>>) -> bool {
    c.is_file && match c.source {
        Source::Shortcut | Source::RegistryIcon | Source::Running => profile::is_exe_of(c.path@, names),
        _ => true,
    }
}

fn accepts(c: &Candidate, prof: &AppProfile) -> (r: bool)
    ensures
        r == will_do(*c, prof@.exe_names),
{
    if !c.is_file {
        return false;
    }
    match c.source {
        Source::Shortcut => exe_matches(c.path.as_str(), prof),
        Source::RegistryIcon => exe_matches(c.path.as_str(), prof),
        Source::Running => exe_matches(c.path.as_str(), prof),
        _ => true,
    }
}

/// Whether a candidate is the first that will do by the order of the sources.
pub open spec fn is_first(list: Seq<Candidate>, k: int, names: Seq<Seq<char>>) -> bool {
    &&& 0 <= k < list.len()
    &&& will_do(list[k], names)
    &&& forall|j: int|
        0 <= j < list.len() && will_do(#[trigger] list[j], names) ==> rank(list[k].source) < rank(list[j].source)
            || (rank(list[k].source) == rank(list[j].source) && k <= j)
}

/// The candidate that is taken, by its place in the list. The list holds the candidates of each
/// source in the order in which they were found.
pub fn find_exe(list: &Vec<Candidate>, prof: &AppProfile) -> (r: Option<usize>)
    ensures
        match r {
            Some(k) => is_first(list@, k as int, prof@.exe_names),
            None => forall|j: int| 0 <= j < list@.len() ==> !will_do(#[trigger] list@[j], prof@.exe_names),
        },
{
    let ghost names = prof@.exe_names;
    let mut best: Option<usize> = None;
    let mut i: usize = 0;
    while i < list.len()
        invariant
            i <= list@.len(),
            names == prof@.exe_names,
            match best {
                Some(k) => {
                    &&& k < i
                    &&& will_do(list@[k as int], names)
                    &&& forall|j: int|
                        0 <= j < i && will_do(#[trigger] list@[j], names) ==> rank(list@[k as int].source) < rank(
                            list@[j].source,
                        ) || (rank(list@[k as int].source) == rank(list@[j].source) && k <= j)
                },
                None => forall|j: int| 0 <= j < i ==> !will_do(#[trigger] list@[j], names),
            },
        decreases list@.len() - i,
    {
        if accepts(&list[i], prof) {
            match best {
                Some(k) => {
                    if rank_of(list[i].source) < rank_of(list[k].source) {
                        best = Some(i);
                    }
                },
                None => {
                    best = Some(i);
                },
            }
        }
        i += 1;
    }
    best
}

/// What is kept as found: the candidate that was taken, or, where none was, what was kept before.
pub fn found_cache(list: &Vec<Candidate>, taken: Option<usize>, cache: Option<String>) -> (r: Option<String>)
    requires
        taken is Some ==> taken.unwrap() < list@.len(),
    ensures
        text::opt_text(r) == match taken {
            Some(k) => Some(list@[k as int].path@),
            None => text::opt_text(cache),
        },
{
    match taken {
        Some(k) => Some(list[k].path.clone()),
        None => cache,
    }
}

/// What the user set is taken whenever there is such a file.
pub proof fn the_setting_wins(list: Seq<Candidate>, names: Seq<Seq<char>>, k: int, s: int)
    requires
        is_first(list, k, names),
        0 <= s < list.len(),
        list[s].source == Source::Settings,
        list[s].is_file,
    ensures
        list[k].source == Source::Settings,
{
    assert(will_do(list[s], names));
}

/// A process whose file has another name is never taken.
pub proof fn foreign_process_is_never_taken(list: Seq<Candidate>, names: Seq<Seq<char>>, k: int)
    requires
        is_first(list, k, names),
        list[k].source == Source::Running,
    ensures
        profile::is_exe_of(list[k].path@, names),
{
}

/// The path of a program's icon: the text without its commas and the white space around it.
pub fn icon_path(icon: &str) -> (r: String)
    ensures
        r@ == text::trimmed(text::replaced(icon@, ',', ""@)),
{
    let flat = text::replace_char(icon, ',', "");
    text::trim(flat.as_str())
}

/// The paths that an application's file may have in a directory.
pub open spec fn places_in(dir: Seq<char>, names: Seq<Seq<char>>) -> Seq<paths::PathV> {
    Seq::new(names.len(), |i: int| paths::base_path(text::trimmed(dir)).join(names[i]))
}

/// The models of paths.
pub open spec fn path_views(v: Seq<AppPath>) -> Seq<paths::PathV> {
    v.map_values(|p: AppPath| p@)
}

/// The paths that the application's file may have in the directory of an installed program.
pub fn install_candidates(location: &str, prof: &AppProfile) -> (r: Vec<AppPath>)
    ensures
        path_views(r@) == places_in(location@, prof@.exe_names),
{
    let base = AppPath::new(text::trim(location).as_str());
    let ghost want = places_in(location@, prof@.exe_names);
    let mut out: Vec<AppPath> = Vec::new();
    let mut i: usize = 0;
    while i < prof.exe_names.len()
        invariant
            i <= prof.exe_names@.len(),
            base@ == paths::base_path(text::trimmed(location@)),
            want == places_in(location@, prof@.exe_names),
            path_views(out@) == want.take(i as int),
        decreases prof.exe_names@.len() - i,
    {
        let ghost before = path_views(out@);
        let p = base.join(prof.exe_names[i]);
        proof {
            assert(prof@.exe_names[i as int] == prof.exe_names@[i as int]@);
            assert(path_views(out@.push(p)) =~= before.push(p@));
        }
        out.push(p);
        i += 1;
        assert(path_views(out@) =~= want.take(i as int));
    }
    assert(want.take(want.len() as int) =~= want);
    out
}

/// The directories that hold shortcuts: those of the two start menus and the two desktops that
/// exist.
pub open spec fn shortcut_dirs(all: Seq<Seq<char>>, exist: Seq<bool>) -> Seq<Seq<char>>
    decreases all.len(),
{
    if all.len() == 0 || all.len() != exist.len() {
        Seq::empty()
    } else if exist.last() {
        shortcut_dirs(all.drop_last(), exist.drop_last()).push(all.last())
    } else {
        shortcut_dirs(all.drop_last(), exist.drop_last())
    }
}

/// What a shortcut leads to: its path, or the one that it holds in Unicode where it has no other.
pub fn lnk_target(path: Option<String>, unicode: Option<String>) -> (r: Option<String>)
    ensures
        r == match path {
            Some(p) => Some(p),
            None => unicode,
        },
{
    match path {
        Some(p) => Some(p),
        None => unicode,
    }
}

/// The directories that may hold shortcuts: the two start menus, then the two desktops.
pub fn lnk_places(appdata: &str, program_data: &str, home: &str, public: &str) -> (r: Vec<String>)
    ensures
        text::texts(r@) == seq![
            appdata@ + "\\Microsoft\\Windows\\Start Menu\\Programs"@,
            program_data@ + "\\Microsoft\\Windows\\Start Menu\\Programs"@,
            home@ + "\\Desktop"@,
            public@ + "\\Desktop"@,
        ],
{
    vec![
        text::cat(appdata, "\\Microsoft\\Windows\\Start Menu\\Programs"),
        text::cat(program_data, "\\Microsoft\\Windows\\Start Menu\\Programs"),
        text::cat(home, "\\Desktop"),
        text::cat(public, "\\Desktop"),
    ]
}

/// The directories of a list that exist, in order.
pub fn lnk_dirs(places: &Vec<String>, exist: &Vec<bool>) -> (r: Vec<String>)
    requires
        places@.len() == exist@.len(),
    ensures
        text::texts(r@) == shortcut_dirs(text::texts(places@), exist@),
{
    let ghost all = text::texts(places@);
    let mut out: Vec<String> = Vec::new();
    let mut i: usize = 0;
    assert(text::texts(out@) =~= Seq::empty());
    while i < places.len()
        invariant
            i <= places@.len(),
            places@.len() == exist@.len(),
            all == text::texts(places@),
            text::texts(out@) == shortcut_dirs(all.take(i as int), exist@.take(i as int)),
        decreases places@.len() - i,
    {
        let ghost before = text::texts(out@);
        proof {
            assert(all.take(i + 1).drop_last() =~= all.take(i as int));
            assert(exist@.take(i + 1).drop_last() =~= exist@.take(i as int));
            assert(all.take(i + 1).last() == places@[i as int]@);
        }
        if exist[i] {
            let p = places[i].clone();
            out.push(p);
            assert(text::texts(out@) =~= before.push(p@));
        }
        i += 1;
    }
    assert(all.take(all.len() as int) =~= all);
    assert(exist@.take(all.len() as int) =~= exist@);
    out
}

/// What follows the last dot of a file's name: nothing where there is none, or where the only
/// one stands in front.
pub open spec fn extension_of(name: Seq<char>) -> Option<Seq<char>>
    decreases name.len(),
{
    if name.len() <= 1 {
        None
    } else if name.last() == '.' {
        Some(Seq::empty())
    } else {
        match extension_of(name.drop_last()) {
            Some(e) => Some(e.push(name.last())),
            None => None,
        }
    }
}

/// Whether a file's name is that of a shortcut.
pub open spec fn is_lnk(name: Seq<char>) -> bool {
    match extension_of(name) {
        Some(e) => text::smalls(e) == text::smalls("lnk"@),
        None => false,
    }
}

/// Whether a file's name is that of a shortcut.
pub fn is_shortcut(name: &str) -> (r: bool)
    ensures
        r == is_lnk(name@),
{
    let v = text::chars_of(name);
    let ghost s = name@;
    let mut i: usize = v.len();
    assert(s.skip(s.len() as int) =~= Seq::empty());
    assert(s.take(s.len() as int) =~= s);
    proof {
        lemma_extension_parts(s, s.len() as int);
    }
    while i > 1
        invariant
            i <= v@.len(),
            v@ == s,
            s == name@,
            extension_of(s) == (match extension_of(s.take(i as int)) {
                Some(e) => Some(e + s.skip(i as int)),
                None => None,
            }),
        decreases i,
    {
        assert(s.take(i as int).last() == s[i - 1]);
        assert(s.take(i as int).drop_last() =~= s.take(i - 1));
        if v[i - 1] == '.' {
            assert(Seq::<char>::empty() + s.skip(i as int) =~= s.skip(i as int));
            let e = text::drop_chars(name, i);
            return text::same_ignoring_case(e.as_str(), "lnk");
        }
        proof {
            match extension_of(s.take(i - 1)) {
                Some(e) => {
                    assert(e.push(s[i - 1]) + s.skip(i as int) =~= e + s.skip(i - 1));
                },
                None => {},
            }
        }
        i -= 1;
    }
    false
}

proof fn lemma_extension_parts(s: Seq<char>, i: int)
    requires
        i == s.len(),
    ensures
        extension_of(s) == (match extension_of(s.take(i)) {
            Some(e) => Some(e + s.skip(i)),
            None => None,
        }),
{
    assert(s.take(i) =~= s);
    match extension_of(s) {
        Some(e) => {
            assert(e + s.skip(i) =~= e);
        },
        None => {},
    }
}

// ---- what holds of finding applications ----

/// A pattern without marks fits exactly the names that are the same but for capitals.
pub proof fn plain_patterns_fit_their_word(p: Seq<char>, s: Seq<char>, i: int, j: int)
    requires
        forall|k: int| 0 <= k < p.len() ==> #[trigger] p[k] != '*' && p[k] != '?',
        0 <= i <= p.len(),
        0 <= j <= s.len(),
    ensures
        fits(p, s, i, j) == (p.len() - i == s.len() - j && forall|k: int|
            i <= k < p.len() ==> text::small(#[trigger] p[k]) == text::small(s[k - i + j])),
    decreases p.len() - i,
{
    if i < p.len() && j < s.len() {
        plain_patterns_fit_their_word(p, s, i + 1, j + 1);
        if p.len() - i == s.len() - j {
            if fits(p, s, i, j) {
                assert forall|k: int| i <= k < p.len() implies text::small(#[trigger] p[k]) == text::small(
                    s[k - i + j],
                ) by {
                    if k > i {
                        assert(s[k - (i + 1) + (j + 1)] == s[k - i + j]);
                    }
                }
            } else if forall|k: int| i <= k < p.len() ==> text::small(#[trigger] p[k]) == text::small(s[k - i + j]) {
                assert(text::small(p[i]) == text::small(s[j]));
                assert forall|k: int| i + 1 <= k < p.len() implies text::small(#[trigger] p[k]) == text::small(
                    s[k - (i + 1) + (j + 1)],
                ) by {
                    assert(s[k - (i + 1) + (j + 1)] == s[k - i + j]);
                }
            }
        }
    }
}

/// A question mark fits any one character, and a star any number of them.
pub proof fn marks_fit_any_characters(p: Seq<char>, s: Seq<char>, i: int, j: int)
    requires
        0 <= i < p.len(),
        0 <= j <= s.len(),
    ensures
        p[i] == '?' && j < s.len() ==> fits(p, s, i, j) == fits(p, s, i + 1, j + 1),
        p[i] != '*' && j == s.len() ==> !fits(p, s, i, j),
        p[i] == '*' ==> fits(p, s, i, j) == exists|k: int| j <= k <= s.len() && #[trigger] fits(p, s, i + 1, k),
    decreases s.len() - j,
{
    if p[i] == '*' {
        if j < s.len() {
            marks_fit_any_characters(p, s, i, j + 1);
        }
        if fits(p, s, i + 1, j) {
            assert(exists|k: int| j <= k <= s.len() && #[trigger] fits(p, s, i + 1, k));
        }
        if exists|k: int| j <= k <= s.len() && #[trigger] fits(p, s, i + 1, k) {
            let k = choose|k: int| j <= k <= s.len() && #[trigger] fits(p, s, i + 1, k);
            if k > j {
                assert(exists|k: int| j + 1 <= k <= s.len() && #[trigger] fits(p, s, i + 1, k));
            }
        }
    }
}

/// A setting goes before a usual place, that before a shortcut, that before an installed program, that
/// before one that runs, and that before a remembered one; of two alike the first is taken.
pub proof fn sources_are_ranked(list: Seq<Candidate>, names: Seq<Seq<char>>, k: int, j: int)
    requires
        is_first(list, k, names),
        0 <= j < list.len(),
        will_do(list[j], names),
    ensures
        list[j].source is Known ==> list[k].source is Settings || list[k].source is Known,
        list[j].source is Shortcut ==> list[k].source is Settings || list[k].source is Known || list[k].source is Shortcut,
        list[j].source is RegistryIcon || list[j].source is RegistryInstall ==> !(list[k].source is Running)
            && !(list[k].source is Cache),
        list[j].source is Running ==> !(list[k].source is Cache),
        list[j].source == list[k].source ==> k <= j,
        list[j].source is RegistryIcon && list[k].source is RegistryInstall ==> k <= j,
        list[j].source is RegistryInstall && list[k].source is RegistryIcon ==> k <= j,
{
}

/// A candidate will do where it is a file; one that was merely come upon must be called as the application.
pub proof fn found_files_must_have_the_right_name(c: Candidate, names: Seq<Seq<char>>)
    ensures
        !c.is_file ==> !will_do(c, names),
        c.is_file && (c.source is Settings || c.source is Known || c.source is RegistryInstall || c.source is Cache)
            ==> will_do(c, names),
        c.is_file && (c.source is Shortcut || c.source is RegistryIcon || c.source is Running) ==> will_do(c, names)
            == profile::is_exe_of(c.path@, names),
{
}

/// An extension stands behind the last dot of a name that does not start with it; a shortcut is known by
/// it, however it is written.
pub proof fn extensions_stand_behind_the_last_dot(base: Seq<char>, ext: Seq<char>)
    requires
        base.len() > 0,
        forall|i: int| 0 <= i < ext.len() ==> #[trigger] ext[i] != '.',
    ensures
        extension_of(base + seq!['.'] + ext) == Some(ext),
        is_lnk(base + seq!['.'] + ext) == (text::smalls(ext) == text::smalls("lnk"@)),
        extension_of(ext) is None,
        extension_of(seq!['.'] + ext) is None,
        !is_lnk(ext),
    decreases ext.len(),
{
    let n = base + seq!['.'] + ext;
    reveal_with_fuel(extension_of, 2);
    if ext.len() == 0 {
        assert(n.last() == '.');
        assert(extension_of(n) =~= Some(ext));
        assert((seq!['.'] + ext).len() == 1);
    } else {
        let front = ext.drop_last();
        assert forall|i: int| 0 <= i < front.len() implies #[trigger] front[i] != '.' by {
            assert(front[i] == ext[i]);
        }
        extensions_stand_behind_the_last_dot(base, front);
        assert(n.drop_last() =~= base + seq!['.'] + front);
        assert(n.last() == ext[ext.len() - 1]);
        assert(front.push(ext.last()) =~= ext);
        let d = seq!['.'] + ext;
        assert(d.drop_last() =~= seq!['.'] + front);
        assert(d.last() == ext[ext.len() - 1]);
    }
}

/// An application's file is looked for in a directory under each of its names, in order.
pub proof fn files_are_looked_for_under_each_name(dir: Seq<char>, names: Seq<Seq<char>>, i: int)
    requires
        0 <= i < names.len(),
    ensures
        places_in(dir, names).len() == names.len(),
        places_in(dir, names)[i].base == text::trimmed(dir),
        places_in(dir, names)[i].parts == seq![names[i]],
{
}

/// Shortcuts are looked for in those directories that are there, in order.
pub proof fn shortcuts_are_looked_for_where_there_are_directories(
    a: Seq<Seq<char>>,
    ea: Seq<bool>,
    d: Seq<char>,
    there: bool,
)
    requires
        a.len() == ea.len(),
    ensures
        shortcut_dirs(a.push(d), ea.push(there)) == (if there {
            shortcut_dirs(a, ea).push(d)
        } else {
            shortcut_dirs(a, ea)
        }),
        shortcut_dirs(Seq::empty(), Seq::empty()).len() == 0,
{
    assert(a.push(d).drop_last() =~= a);
    assert(ea.push(there).drop_last() =~= ea);
}

/// A name fits a list of patterns where it fits one of them.
pub proof fn one_pattern_is_enough(a: Seq<Seq<char>>, p: Seq<char>, name: Seq<char>)
    ensures
        fits_one(a.push(p), name) == (fits_one(a, name) || fits(p, name, 0, 0)),
        !fits_one(Seq::empty(), name),
{
    let all = a.push(p);
    if fits_one(a, name) {
        let i = choose|i: int| 0 <= i < a.len() && fits(#[trigger] a[i], name, 0, 0);
        assert(all[i] == a[i]);
    }
    if fits(p, name, 0, 0) {
        assert(all[a.len() as int] == p);
    }
    if fits_one(all, name) {
        let i = choose|i: int| 0 <= i < all.len() && fits(#[trigger] all[i], name, 0, 0);
        if i < a.len() {
            assert(a[i] == all[i]);
        }
    }
}

} // verus!
