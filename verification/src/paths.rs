//! Paths: a base as the system writes it, and names below it.
use vstd::prelude::*;
use crate::text;

verus! {

broadcast use vstd::string::group_string_axioms;

/// A path: a base, and the names that lead on from it.
pub struct AppPath {
    pub base: String,
    pub parts: Vec<String>,
}

/// The model of a path.
#[verifier::ext_equal]
pub struct PathV {
    pub base: Seq<char>,
    pub parts: Seq<Seq<char>>,
}

impl View for AppPath {
    type V = PathV;

    open spec fn view(&self) -> PathV {
        PathV { base: self.base@, parts: text::texts(self.parts@) }
    }
}

impl PathV {
    /// The path to a name below this one.
    pub open spec fn join(self, name: Seq<char>) -> PathV {
        PathV { base: self.base, parts: self.parts.push(name) }
    }
}

/// The path of a base.
pub open spec fn base_path(base: Seq<char>) -> PathV {
    PathV { base, parts: Seq::empty() }
}

impl AppPath {
    /// The path of a base.
    pub fn new(base: &str) -> (r: AppPath)
        ensures
            r@ == base_path(base@),
    {
        let parts: Vec<String> = Vec::new();
        assert(text::texts(parts@) =~= Seq::empty());
        AppPath { base: base.to_owned(), parts }
    }

    /// The path to a name below this one.
    pub fn join(&self, name: &str) -> (r: AppPath)
        ensures
            r@ == self@.join(name@),
    {
        let mut parts: Vec<String> = Vec::new();
        let mut i: usize = 0;
        let ghost all = text::texts(self.parts@);
        while i < self.parts.len()
            invariant
                i <= self.parts@.len(),
                all == text::texts(self.parts@),
                text::texts(parts@) == all.take(i as int),
            decreases self.parts@.len() - i,
        {
            let ghost before = text::texts(parts@);
            let t = self.parts[i].clone();
            parts.push(t);
            i += 1;
            assert(text::texts(parts@) =~= before.push(t@));
            assert(text::texts(parts@) =~= all.take(i as int));
        }
        assert(text::texts(parts@) =~= all);
        let t = name.to_owned();
        parts.push(t);
        assert(text::texts(parts@) =~= all.push(name@));
        AppPath { base: self.base.clone(), parts }
    }
}

/// Whether a path has a drive letter in front.
pub open spec fn has_drive(path: Seq<char>) -> bool {
    path.len() >= 2 && (('a' <= path[0] && path[0] <= 'z') || ('A' <= path[0] && path[0] <= 'Z')) && path[1] == ':'
}

/// Whether a path is verbatim: only backslashes separate its names, and none of them is passed over.
pub open spec fn is_verbatim(path: Seq<char>) -> bool {
    text::has_prefix(path, "\\\\?\\"@)
}

/// What stands between the separators of a path, without a drive letter.
pub open spec fn pieces_of(path: Seq<char>) -> Seq<Seq<char>> {
    if is_verbatim(path) {
        text::split_on(path, '\\')
    } else if has_drive(path) {
        text::split_on(text::replaced(path.skip(2), '/', "\\"@), '\\')
    } else {
        text::split_on(text::replaced(path, '/', "\\"@), '\\')
    }
}

/// How many pieces belong to the prefix of a path: that of a share is the server and the share, that of
/// a device the device, that of a verbatim path a name or a server and a share.
pub open spec fn prefix_len(pieces: Seq<Seq<char>>, verbatim: bool) -> int {
    if verbatim {
        if pieces.len() > 4 && pieces[3] == "UNC"@ {
            6
        } else {
            4
        }
    } else if pieces.len() > 3 && pieces[0].len() == 0 && pieces[1].len() == 0 && (pieces[2] == "."@ || (
    pieces[2].len() > 0 && pieces[3].len() > 0)) {
        4
    } else {
        0
    }
}

/// The last of the names behind the first `n` pieces, without those that lead nowhere; nothing where
/// that is no name.
pub open spec fn last_name(pieces: Seq<Seq<char>>, n: int, verbatim: bool) -> Option<Seq<char>>
    decreases pieces.len(),
{
    if pieces.len() == 0 || pieces.len() <= n {
        None
    } else {
        let p = pieces.last();
        if p.len() == 0 || (p == "."@ && !verbatim) {
            last_name(pieces.drop_last(), n, verbatim)
        } else if p == "."@ || p == ".."@ {
            None
        } else {
            Some(p)
        }
    }
}

/// The last name of a Windows path; nothing of a path that ends in no name, such as a bare drive or
/// share.
pub open spec fn file_name_of(path: Seq<char>) -> Option<Seq<char>> {
    let pieces = pieces_of(path);
    last_name(pieces, prefix_len(pieces, is_verbatim(path)), is_verbatim(path))
}

fn pieces(path: &str) -> (r: Vec<String>)
    ensures
        text::texts(r@) == pieces_of(path@),
{
    if text::starts_with(path, "\\\\?\\") {
        return text::split(path, '\\');
    }
    let v = text::chars_of(path);
    let drive = v.len() >= 2 && (('a' <= v[0] && v[0] <= 'z') || ('A' <= v[0] && v[0] <= 'Z')) && v[1] == ':';
    let local = if drive {
        text::drop_chars(path, 2)
    } else {
        path.to_owned()
    };
    let flat = text::replace_char(local.as_str(), '/', "\\");
    text::split(flat.as_str(), '\\')
}

fn prefix(pieces: &Vec<String>, verbatim: bool) -> (r: usize)
    ensures
        r == prefix_len(text::texts(pieces@), verbatim),
{
    let ghost all = text::texts(pieces@);
    assert(all.len() == pieces@.len());
    if verbatim {
        if pieces.len() > 4 && text::same(pieces[3].as_str(), "UNC") {
            6
        } else {
            4
        }
    } else if pieces.len() > 3 && pieces[0].as_str().unicode_len() == 0 && pieces[1].as_str().unicode_len() == 0 && (
    text::same(pieces[2].as_str(), ".") || (pieces[2].as_str().unicode_len() > 0 && pieces[3].as_str().unicode_len()
        > 0)) {
        4
    } else {
        0
    }
}

/// The last name of a Windows path.
pub fn file_name(path: &str) -> (r: Option<String>)
    ensures
        text::opt_text(r) == file_name_of(path@),
{
    let verbatim = text::starts_with(path, "\\\\?\\");
    let pieces = pieces(path);
    let n: usize = prefix(&pieces, verbatim);
    let ghost all = text::texts(pieces@);
    let mut i: usize = pieces.len();
    assert(all.take(all.len() as int) =~= all);
    while i > n
        invariant
            i <= pieces@.len(),
            all == text::texts(pieces@),
            file_name_of(path@) == last_name(all.take(i as int), n as int, verbatim),
        decreases i,
    {
        proof {
            assert(all.take(i as int).last() == pieces@[i - 1]@);
            assert(all.take(i as int).drop_last() =~= all.take(i - 1));
        }
        let p = pieces[i - 1].as_str();
        if p.unicode_len() > 0 && (verbatim || !text::same(p, ".")) {
            if text::same(p, ".") || text::same(p, "..") {
                return None;
            }
            return Some(p.to_owned());
        }
        i -= 1;
    }
    None
}

/// The name of a file is the last piece of its path; empty pieces and single dots behind it are passed
/// over, and a path that ends by going up has none.
pub proof fn files_are_named_by_the_last_piece(front: Seq<Seq<char>>, name: Seq<char>, n: int, verbatim: bool)
    requires
        0 <= n <= front.len(),
    ensures
        name.len() > 0 && name != "."@ && name != ".."@ ==> last_name(front.push(name), n, verbatim) == Some(name),
        last_name(front.push(Seq::empty()), n, verbatim) == last_name(front, n, verbatim),
        last_name(front.push("."@), n, false) == last_name(front, n, false),
        last_name(front.push(".."@), n, verbatim) is None,
        last_name(Seq::empty(), n, verbatim) is None,
{
    reveal_strlit(".");
    reveal_strlit("..");
    assert("."@.len() == 1 && ".."@.len() == 2);
    reveal_with_fuel(last_name, 2);
    assert(front.push(name).drop_last() =~= front);
    assert(front.push(Seq::empty()).drop_last() =~= front);
    assert(front.push("."@).drop_last() =~= front);
    assert(front.push(".."@).drop_last() =~= front);
}

/// A path is taken apart at both slashes behind its drive, and at one of them where it is verbatim.
pub proof fn paths_are_taken_apart_at_both_slashes(path: Seq<char>)
    ensures
        !is_verbatim(path) && !has_drive(path) ==> pieces_of(path) == text::split_on(
            text::replaced(path, '/', "\\"@),
            '\\',
        ),
        !is_verbatim(path) && has_drive(path) ==> pieces_of(path) == text::split_on(
            text::replaced(path.skip(2), '/', "\\"@),
            '\\',
        ),
        is_verbatim(path) ==> pieces_of(path) == text::split_on(path, '\\'),
{
}

/// Only names of shares and verbatim paths start with pieces that are no names.
pub proof fn only_shares_have_a_prefix(pieces: Seq<Seq<char>>)
    ensures
        pieces.len() <= 3 ==> prefix_len(pieces, false) == 0,
        pieces.len() > 3 && pieces[0].len() > 0 ==> prefix_len(pieces, false) == 0,
        pieces.len() > 3 && pieces[1].len() > 0 ==> prefix_len(pieces, false) == 0,
        pieces.len() > 3 && pieces[0].len() == 0 && pieces[1].len() == 0 && pieces[2].len() > 0 && pieces[3].len() > 0
            ==> prefix_len(pieces, false) == 4,
        pieces.len() > 4 && pieces[3] == "UNC"@ ==> prefix_len(pieces, true) == 6,
        pieces.len() > 4 && pieces[3] != "UNC"@ ==> prefix_len(pieces, true) == 4,
{
}

/// A path goes down by one name at a time, from where it starts.
pub proof fn paths_go_down_name_by_name(p: PathV, name: Seq<char>, base: Seq<char>)
    ensures
        p.join(name).base == p.base,
        p.join(name).parts == p.parts.push(name),
        base_path(base).base == base && base_path(base).parts.len() == 0,
{
}

/// A path has a drive where it starts with a letter and a colon.
pub proof fn drives_are_letters_before_a_colon(c: char, rest: Seq<char>, path: Seq<char>)
    ensures
        has_drive(seq![c, ':'] + rest) == (('a' as int <= c as int <= 'z' as int) || ('A' as int <= c as int
            <= 'Z' as int)),
        path.len() < 2 ==> !has_drive(path),
        path.len() >= 2 && path[1] != ':' ==> !has_drive(path),
{
    let p = seq![c, ':'] + rest;
    assert(p[0] == c && p[1] == ':');
}

} // verus!
