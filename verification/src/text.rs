//! Text as sequences of characters: searching, splitting, trimming, casing.
use vstd::prelude::*;

verus! {

broadcast use vstd::string::group_string_axioms;

/// `String::push` appends one character.
pub assume_specification[ String::push ](s: &mut String, c: char)
    ensures
        final(s)@ == old(s)@.push(c),
;

/// The contents of a list of strings.
pub open spec fn texts(v: Seq<String>) -> Seq<Seq<char>> {
    v.map_values(|t: String| t@)
}

/// What an optional string holds.
pub open spec fn opt_text(v: Option<String>) -> Option<Seq<char>> {
    match v {
        Some(t) => Some(t@),
        None => None,
    }
}

/// What an optional borrowed string holds.
pub open spec fn opt_str(v: Option<&str>) -> Option<Seq<char>> {
    match v {
        Some(t) => Some(t@),
        None => None,
    }
}

/// Whether two texts are the same.
pub fn same(a: &str, b: &str) -> (r: bool)
    ensures
        r == (a@ == b@),
{
    let x = a.to_owned();
    let y = b.to_owned();
    x == y
}

/// The characters of a text.
pub fn chars_of(s: &str) -> (r: Vec<char>)
    ensures
        r@ == s@,
{
    let mut r: Vec<char> = Vec::new();
    for c in it: s.chars()
        invariant
            it.seq() == s@,
            r@ == s@.take(it.index() as int),
    {
        r.push(c);
        assert(r@ =~= s@.take(it.index() as int + 1));
    }
    assert(s@.take(s@.len() as int) =~= s@);
    r
}

/// The text made of the given characters.
pub fn text_of(v: &[char]) -> (r: String)
    ensures
        r@ == v@,
{
    let mut r = String::new();
    let mut i: usize = 0;
    while i < v.len()
        invariant
            i <= v@.len(),
            r@ == v@.take(i as int),
        decreases v@.len() - i,
    {
        r.push(v[i]);
        i += 1;
        assert(r@ =~= v@.take(i as int));
    }
    assert(v@.take(v@.len() as int) =~= v@);
    r
}

/// Two texts, one behind the other.
pub fn cat(a: &str, b: &str) -> (r: String)
    ensures
        r@ == a@ + b@,
{
    let mut s = a.to_owned();
    s.append(b);
    s
}

/// Three texts, one behind the other.
pub fn cat3(a: &str, b: &str, c: &str) -> (r: String)
    ensures
        r@ == a@ + b@ + c@,
{
    let mut s = a.to_owned();
    s.append(b);
    s.append(c);
    s
}

/// The white space of Unicode.
pub open spec fn is_white(c: char) -> bool {
    let n = c as u32;
    ||| 0x09 <= n <= 0x0d
    ||| n == 0x20
    ||| n == 0x85
    ||| n == 0xa0
    ||| n == 0x1680
    ||| 0x2000 <= n <= 0x200a
    ||| n == 0x2028
    ||| n == 0x2029
    ||| n == 0x202f
    ||| n == 0x205f
    ||| n == 0x3000
}

/// Whether `c` is white space.
pub fn white(c: char) -> (r: bool)
    ensures
        r == is_white(c),
{
    let n: u32 = c as u32;
    (0x09 <= n && n <= 0x0d) || n == 0x20 || n == 0x85 || n == 0xa0 || n == 0x1680 || (0x2000 <= n
        && n <= 0x200a) || n == 0x2028 || n == 0x2029 || n == 0x202f || n == 0x205f || n == 0x3000
}

/// The text without the white space it starts with.
pub open spec fn trim_front(s: Seq<char>) -> Seq<char>
    decreases s.len(),
{
    if s.len() > 0 && is_white(s[0]) {
        trim_front(s.skip(1))
    } else {
        s
    }
}

/// The text without the white space it ends with.
pub open spec fn trim_back(s: Seq<char>) -> Seq<char>
    decreases s.len(),
{
    if s.len() > 0 && is_white(s.last()) {
        trim_back(s.drop_last())
    } else {
        s
    }
}

/// The text without white space at either end.
pub open spec fn trimmed(s: Seq<char>) -> Seq<char> {
    trim_back(trim_front(s))
}

/// The text without white space at either end.
pub fn trim(s: &str) -> (r: String)
    ensures
        r@ == trimmed(s@),
{
    let v = chars_of(s);
    let mut a: usize = 0;
    assert(v@.skip(0) =~= v@);
    while a < v.len() && white(v[a])
        invariant
            a <= v@.len(),
            v@ == s@,
            trim_front(s@) == trim_front(v@.skip(a as int)),
        decreases v@.len() - a,
    {
        assert(v@.skip(a as int).skip(1) =~= v@.skip(a as int + 1));
        a += 1;
    }
    assert(a == v@.len() || !is_white(v@[a as int]));
    let ghost front = v@.skip(a as int);
    assert(trim_front(s@) == front);
    let mut b: usize = v.len();
    while b > a && white(v[b - 1])
        invariant
            a <= b <= v@.len(),
            front == v@.skip(a as int),
            trim_back(front) == trim_back(v@.subrange(a as int, b as int)),
        decreases b,
    {
        let ghost cur = v@.subrange(a as int, b as int);
        assert(cur.last() == v@[b - 1]);
        assert(cur.drop_last() =~= v@.subrange(a as int, b - 1));
        b -= 1;
    }
    proof {
        let cur = v@.subrange(a as int, b as int);
        if b > a {
            assert(cur.last() == v@[b - 1]);
        }
        assert(trim_back(cur) == cur);
        assert(v@.skip(a as int) =~= v@.subrange(a as int, v@.len() as int));
    }
    text_of(&v[a..b])
}

/// Whether `p` stands in `s` at position `i`.
pub open spec fn occurs_at<T>(s: Seq<T>, p: Seq<T>, i: int) -> bool {
    0 <= i && i + p.len() <= s.len() && s.subrange(i, i + p.len()) == p
}

/// The first position from `i` on at which `p` stands in `s`.
pub open spec fn find_from<T>(s: Seq<T>, p: Seq<T>, i: int) -> Option<int>
    decreases s.len() + 1 - i,
{
    if i < 0 || i + p.len() > s.len() {
        None
    } else if occurs_at(s, p, i) {
        Some(i)
    } else {
        find_from(s, p, i + 1)
    }
}

/// Whether `s` starts with `p`.
pub open spec fn has_prefix<T>(s: Seq<T>, p: Seq<T>) -> bool {
    p.len() <= s.len() && s.take(p.len() as int) == p
}

/// Whether `s` ends with `p`.
pub open spec fn has_suffix<T>(s: Seq<T>, p: Seq<T>) -> bool {
    p.len() <= s.len() && s.skip(s.len() - p.len()) == p
}

/// Whether `p` stands somewhere in `s`.
pub open spec fn has_text<T>(s: Seq<T>, p: Seq<T>) -> bool {
    exists|i: int| occurs_at(s, p, i)
}

/// What `find_from` returns: the least position, or none at all.
pub proof fn lemma_find_from<T>(s: Seq<T>, p: Seq<T>, i: int)
    requires
        0 <= i,
    ensures
        match find_from(s, p, i) {
            Some(k) => i <= k && occurs_at(s, p, k) && forall|j: int| i <= j < k ==> !occurs_at(s, p, j),
            None => forall|j: int| i <= j ==> !occurs_at(s, p, j),
        },
    decreases s.len() + 1 - i,
{
    if i + p.len() > s.len() || occurs_at(s, p, i) {
    } else {
        lemma_find_from(s, p, i + 1);
    }
}

/// Whether `p` stands in `s` at position `i`.
pub fn chars_at(s: &[char], p: &[char], i: usize) -> (r: bool)
    requires
        i + p@.len() <= s@.len(),
    ensures
        r == occurs_at(s@, p@, i as int),
{
    let n: usize = s.len();
    let mut k: usize = 0;
    while k < p.len()
        invariant
            n == s@.len(),
            k <= p@.len(),
            i + p@.len() <= s@.len(),
            forall|j: int| 0 <= j < k ==> s@[i + j] == p@[j],
        decreases p@.len() - k,
    {
        if s[i + k] != p[k] {
            assert(s@.subrange(i as int, i + p@.len())[k as int] != p@[k as int]);
            return false;
        }
        k += 1;
    }
    assert(s@.subrange(i as int, i + p@.len()) =~= p@);
    true
}

/// The first position from `from` on at which `p` stands in `s`.
pub fn find_chars(s: &[char], p: &[char], from: usize) -> (r: Option<usize>)
    ensures
        match r {
            Some(k) => find_from(s@, p@, from as int) == Some(k as int),
            None => find_from(s@, p@, from as int) is None,
        },
{
    let n: usize = s.len();
    let m: usize = p.len();
    let mut i: usize = from;
    if m > n {
        return None;
    }
    if from > n - m {
        return None;
    }
    while i < n - m
        invariant
            i <= n - m,
            n == s@.len(),
            m == p@.len(),
            m <= n,
            from <= i,
            find_from(s@, p@, from as int) == find_from(s@, p@, i as int),
        decreases n - i,
    {
        if chars_at(s, p, i) {
            return Some(i);
        }
        i += 1;
    }
    proof {
        reveal_with_fuel(find_from, 2);
    }
    if chars_at(s, p, i) {
        Some(i)
    } else {
        None
    }
}

/// Whether `s` starts with `p`.
pub fn starts_with(s: &str, p: &str) -> (r: bool)
    ensures
        r == has_prefix(s@, p@),
{
    let a = chars_of(s);
    let b = chars_of(p);
    if b.len() > a.len() {
        return false;
    }
    proof {
        assert(a@.subrange(0, b@.len() as int) =~= a@.take(b@.len() as int));
    }
    chars_at(&a, &b, 0)
}

/// Whether `s` ends with `p`.
pub fn ends_with(s: &str, p: &str) -> (r: bool)
    ensures
        r == has_suffix(s@, p@),
{
    let a = chars_of(s);
    let b = chars_of(p);
    if b.len() > a.len() {
        return false;
    }
    proof {
        assert(a@.subrange(a@.len() - b@.len(), a@.len() as int) =~= a@.skip(a@.len() - b@.len()));
    }
    chars_at(&a, &b, a.len() - b.len())
}

/// Whether `p` stands somewhere in `s`.
pub fn contains(s: &str, p: &str) -> (r: bool)
    ensures
        r == has_text(s@, p@),
{
    let a = chars_of(s);
    let b = chars_of(p);
    proof {
        lemma_find_from(a@, b@, 0);
    }
    find_chars(&a, &b, 0).is_some()
}

/// The position of the first `c` in `s`; the length of `s` where there is none.
pub open spec fn index_of<T>(s: Seq<T>, c: T) -> int
    decreases s.len(),
{
    if s.len() == 0 || s[0] == c {
        0
    } else {
        1 + index_of(s.skip(1), c)
    }
}

/// `index_of` is the first position of `c`.
pub proof fn lemma_index_of<T>(s: Seq<T>, c: T)
    ensures
        0 <= index_of(s, c) <= s.len(),
        index_of(s, c) < s.len() ==> s[index_of(s, c)] == c,
        forall|i: int| 0 <= i < index_of(s, c) ==> s[i] != c,
    decreases s.len(),
{
    if s.len() == 0 || s[0] == c {
    } else {
        lemma_index_of(s.skip(1), c);
        assert forall|i: int| 0 <= i < index_of(s, c) implies s[i] != c by {
            if i > 0 {
                assert(s.skip(1)[i - 1] == s[i]);
            }
        }
    }
}

/// A position that holds the first `c` is `index_of`.
pub proof fn lemma_index_is<T>(s: Seq<T>, c: T, k: int)
    requires
        0 <= k <= s.len(),
        forall|i: int| 0 <= i < k ==> s[i] != c,
        k < s.len() ==> s[k] == c,
    ensures
        index_of(s, c) == k,
{
    lemma_index_of(s, c);
}

/// The position of the first `c` in `s` from `from` on; the length of `s` where there is none.
pub fn index_char(s: &[char], c: char, from: usize) -> (r: usize)
    requires
        from <= s@.len(),
    ensures
        from <= r <= s@.len(),
        r == from + index_of(s@.skip(from as int), c),
{
    let mut i: usize = from;
    while i < s.len() && s[i] != c
        invariant
            from <= i <= s@.len(),
            forall|j: int| from <= j < i ==> s@[j] != c,
        decreases s@.len() - i,
    {
        i += 1;
    }
    proof {
        lemma_index_is(s@.skip(from as int), c, i - from);
    }
    i
}

/// The pieces of `s` between the characters `c`.
pub open spec fn split_on<T>(s: Seq<T>, c: T) -> Seq<Seq<T>>
    decreases s.len(),
{
    let i = index_of(s, c);
    if 0 <= i < s.len() {
        seq![s.take(i)] + split_on(s.skip(i + 1), c)
    } else {
        seq![s]
    }
}

/// The pieces of `s` between the characters `c`.
pub fn split(s: &str, c: char) -> (r: Vec<String>)
    ensures
        texts(r@) == split_on(s@, c),
        r@.len() >= 1,
{
    let v = chars_of(s);
    let mut out: Vec<String> = Vec::new();
    let mut start: usize = 0;
    assert(v@.skip(0) =~= v@);
    assert(texts(out@) + split_on(v@, c) =~= split_on(v@, c));
    loop
        invariant
            v@ == s@,
            start <= v@.len(),
            split_on(s@, c) == texts(out@) + split_on(v@.skip(start as int), c),
        decreases v@.len() - start,
    {
        let i: usize = index_char(&v, c, start);
        let piece = text_of(&v[start..i]);
        let ghost rest = v@.skip(start as int);
        let ghost before = out@;
        out.push(piece);
        assert(texts(out@) =~= texts(before).push(piece@));
        if i == v.len() {
            assert(piece@ =~= rest);
            assert(texts(out@) =~= texts(before) + split_on(rest, c));
            return out;
        }
        assert(piece@ =~= rest.take(i - start));
        assert(rest.skip(i - start + 1) =~= v@.skip(i + 1));
        assert(texts(out@) + split_on(v@.skip(i + 1), c) =~= texts(before) + split_on(rest, c));
        start = i + 1;
    }
}

/// The text before and after the first `c`, where there is one.
pub open spec fn cut_at(s: Seq<char>, c: char) -> Option<(Seq<char>, Seq<char>)> {
    let i = index_of(s, c);
    if i < s.len() {
        Some((s.take(i), s.skip(i + 1)))
    } else {
        None
    }
}

/// The contents of an optional pair of strings.
pub open spec fn opt_pair(v: Option<(String, String)>) -> Option<(Seq<char>, Seq<char>)> {
    match v {
        Some((a, b)) => Some((a@, b@)),
        None => None,
    }
}

/// The text before and after the first `c`, where there is one.
pub fn split_once(s: &str, c: char) -> (r: Option<(String, String)>)
    ensures
        opt_pair(r) == cut_at(s@, c),
{
    let v = chars_of(s);
    assert(v@.skip(0) =~= v@);
    let i: usize = index_char(&v, c, 0);
    if i == v.len() {
        return None;
    }
    let a = text_of(&v[0..i]);
    let b = text_of(&v[i + 1..v.len()]);
    assert(a@ =~= s@.take(i as int));
    assert(b@ =~= s@.skip(i + 1));
    Some((a, b))
}

/// The first `n` characters of a text, or all of it where it is shorter.
pub open spec fn head_chars(s: Seq<char>, n: int) -> Seq<char> {
    if n < s.len() {
        s.take(n)
    } else {
        s
    }
}

/// The first `n` characters of a text, or all of it where it is shorter.
pub fn take_chars(s: &str, n: usize) -> (r: String)
    ensures
        r@ == head_chars(s@, n as int),
{
    let v = chars_of(s);
    if n < v.len() {
        let r = text_of(&v[0..n]);
        assert(r@ =~= s@.take(n as int));
        r
    } else {
        text_of(&v)
    }
}

/// The text from character `n` on; empty where it is shorter.
pub fn drop_chars(s: &str, n: usize) -> (r: String)
    ensures
        r@ == s@.skip(if n < s@.len() { n as int } else { s@.len() as int }),
{
    let v = chars_of(s);
    let k: usize = if n < v.len() { n } else { v.len() };
    let r = text_of(&v[k..v.len()]);
    assert(r@ =~= s@.skip(k as int));
    r
}

/// `s` with each `c` replaced by `r`.
pub open spec fn replaced(s: Seq<char>, c: char, r: Seq<char>) -> Seq<char>
    decreases s.len(),
{
    if s.len() == 0 {
        s
    } else {
        replaced(s.drop_last(), c, r) + if s.last() == c {
            r
        } else {
            seq![s.last()]
        }
    }
}

/// `s` with each `c` replaced by `r`.
pub fn replace_char(s: &str, c: char, r: &str) -> (t: String)
    ensures
        t@ == replaced(s@, c, r@),
{
    let v = chars_of(s);
    let mut t = String::new();
    let mut i: usize = 0;
    assert(v@.take(0) =~= Seq::<char>::empty());
    while i < v.len()
        invariant
            v@ == s@,
            i <= v@.len(),
            t@ == replaced(v@.take(i as int), c, r@),
        decreases v@.len() - i,
    {
        proof {
            assert(v@.take(i + 1).drop_last() =~= v@.take(i as int));
            assert(v@.take(i + 1).last() == v@[i as int]);
        }
        if v[i] == c {
            t.append(r);
        } else {
            let ghost before = t@;
            t.push(v[i]);
            assert(t@ =~= before + seq![v@[i as int]]);
        }
        i += 1;
    }
    assert(v@.take(v@.len() as int) =~= v@);
    t
}

/// An ASCII capital as a small letter; any other character as it is.
pub open spec fn small(c: char) -> char {
    if 'A' <= c && c <= 'Z' {
        (c as u32 + 32) as char
    } else {
        c
    }
}

/// The text with its ASCII capitals as small letters.
pub open spec fn smalls(s: Seq<char>) -> Seq<char> {
    s.map_values(|c: char| small(c))
}

/// An ASCII capital as a small letter; any other character as it is.
pub fn small_char(c: char) -> (r: char)
    ensures
        r == small(c),
{
    if 'A' <= c && c <= 'Z' {
        let n: u8 = c as u8;
        (n + 32) as char
    } else {
        c
    }
}

/// The text with its ASCII capitals as small letters.
pub fn to_smalls(s: &str) -> (r: String)
    ensures
        r@ == smalls(s@),
{
    let v = chars_of(s);
    let mut r = String::new();
    let mut i: usize = 0;
    while i < v.len()
        invariant
            v@ == s@,
            i <= v@.len(),
            r@ == smalls(v@.take(i as int)),
        decreases v@.len() - i,
    {
        r.push(small_char(v[i]));
        i += 1;
        assert(r@ =~= smalls(v@.take(i as int)));
    }
    assert(v@.take(v@.len() as int) =~= v@);
    r
}

/// Whether two texts are the same but for the case of ASCII letters.
pub fn same_ignoring_case(a: &str, b: &str) -> (r: bool)
    ensures
        r == (smalls(a@) == smalls(b@)),
{
    let x = to_smalls(a);
    let y = to_smalls(b);
    x == y
}

/// Whether one of the texts is `s`.
pub fn is_one_of(s: &str, list: &Vec<String>) -> (r: bool)
    ensures
        r == texts(list@).contains(s@),
{
    let mut i: usize = 0;
    while i < list.len()
        invariant
            i <= list@.len(),
            forall|j: int| 0 <= j < i ==> list@[j]@ != s@,
        decreases list@.len() - i,
    {
        if same(list[i].as_str(), s) {
            assert(texts(list@)[i as int] == s@);
            return true;
        }
        i += 1;
    }
    assert forall|j: int| 0 <= j < texts(list@).len() implies texts(list@)[j] != s@ by {}
    false
}

/// The contents of a list of borrowed strings.
pub open spec fn strs(v: Seq<&str>) -> Seq<Seq<char>> {
    v.map_values(|t: &str| t@)
}

/// Whether one of the texts is `s`.
pub fn one_of(s: &str, list: &Vec<&str>) -> (r: bool)
    ensures
        r == strs(list@).contains(s@),
{
    let mut i: usize = 0;
    while i < list.len()
        invariant
            i <= list@.len(),
            forall|j: int| 0 <= j < i ==> (#[trigger] list@[j])@ != s@,
        decreases list@.len() - i,
    {
        if same(list[i], s) {
            assert(strs(list@)[i as int] == s@);
            return true;
        }
        i += 1;
    }
    assert forall|j: int| 0 <= j < strs(list@).len() implies strs(list@)[j] != s@ by {
        assert(list@[j]@ != s@);
    }
    false
}

/// The texts of a list, with `sep` between them.
pub open spec fn joined(parts: Seq<Seq<char>>, sep: Seq<char>) -> Seq<char>
    decreases parts.len(),
{
    if parts.len() == 0 {
        Seq::empty()
    } else if parts.len() == 1 {
        parts[0]
    } else {
        joined(parts.drop_last(), sep) + sep + parts.last()
    }
}

/// The texts of a list, with `sep` between them.
pub fn join(parts: &Vec<String>, sep: &str) -> (r: String)
    ensures
        r@ == joined(texts(parts@), sep@),
{
    let mut r = String::new();
    let mut i: usize = 0;
    let ghost all = texts(parts@);
    assert(all.take(0) =~= Seq::<Seq<char>>::empty());
    while i < parts.len()
        invariant
            i <= parts@.len(),
            all == texts(parts@),
            r@ == joined(all.take(i as int), sep@),
        decreases parts@.len() - i,
    {
        proof {
            assert(all.take(i + 1).drop_last() =~= all.take(i as int));
            assert(all.take(i + 1).last() == parts@[i as int]@);
        }
        if i == 0 {
            r = parts[0].clone();
        } else {
            r.append(sep);
            r.append(parts[i].as_str());
        }
        i += 1;
    }
    assert(all.take(all.len() as int) =~= all);
    r
}

/// The text without `p` in front, where it starts with `p`.
pub open spec fn stripped(s: Seq<char>, p: Seq<char>) -> Option<Seq<char>> {
    if has_prefix(s, p) {
        Some(s.skip(p.len() as int))
    } else {
        None
    }
}

/// The text without `p` in front, where it starts with `p`.
pub fn strip_prefix(s: &str, p: &str) -> (r: Option<String>)
    ensures
        opt_text(r) == stripped(s@, p@),
{
    if starts_with(s, p) {
        let n: usize = p.unicode_len();
        Some(drop_chars(s, n))
    } else {
        None
    }
}

/// The name for what `String::from_utf8_lossy` makes of bytes.
pub uninterp spec fn lossy(bytes: Seq<u8>) -> Seq<char>;

/// Whether the bytes are ASCII.
pub open spec fn is_ascii(bytes: Seq<u8>) -> bool {
    forall|i: int| 0 <= i < bytes.len() ==> (#[trigger] bytes[i]) < 0x80
}

/// The characters of ASCII bytes.
pub open spec fn ascii_chars(bytes: Seq<u8>) -> Seq<char> {
    bytes.map_values(|b: u8| b as char)
}

/// The text of bytes, with what is no UTF-8 replaced.
pub open spec fn bytes_shown(bytes: Seq<u8>) -> Seq<char> {
    if is_ascii(bytes) {
        ascii_chars(bytes)
    } else {
        lossy(bytes)
    }
}

/// `String::from_utf8_lossy`: the text of the bytes, with what is no UTF-8 replaced. What is valid
/// UTF-8, as ASCII is, comes out unchanged.
#[verifier::external_body]
fn from_utf8_lossy(bytes: &[u8]) -> (r: String)
    ensures
        r@ == lossy(bytes@),
        is_ascii(bytes@) ==> r@ == ascii_chars(bytes@),
{
    String::from_utf8_lossy(bytes).to_string()
}

/// The text of bytes, with what is no UTF-8 replaced.
pub fn bytes_text(bytes: &[u8]) -> (r: String)
    ensures
        r@ == bytes_shown(bytes@),
{
    from_utf8_lossy(bytes)
}

/// The pieces of `s` between the places where `p` stands.
pub open spec fn split_by(s: Seq<char>, p: Seq<char>) -> Seq<Seq<char>>
    decreases s.len(),
{
    match find_from(s, p, 0) {
        Some(i) => if p.len() > 0 && 0 <= i && i + p.len() <= s.len() {
            seq![s.take(i)] + split_by(s.skip(i + p.len()), p)
        } else {
            seq![s]
        },
        None => seq![s],
    }
}

/// Searching from a position on is searching what is left.
proof fn lemma_find_skip(s: Seq<char>, p: Seq<char>, from: int, i: int)
    requires
        0 <= from <= i,
        from <= s.len(),
    ensures
        find_from(s.skip(from), p, i - from) == match find_from(s, p, i) {
            Some(k) => Some(k - from),
            None => None,
        },
    decreases s.len() + 1 - i,
{
    if i + p.len() <= s.len() {
        assert(s.skip(from).subrange(i - from, i - from + p.len()) =~= s.subrange(i, i + p.len()));
        assert(occurs_at(s, p, i) == occurs_at(s.skip(from), p, i - from));
        if !occurs_at(s, p, i) {
            lemma_find_skip(s, p, from, i + 1);
        }
    }
}

/// The pieces of `s` between the places where `p` stands.
pub fn split_text(s: &str, p: &str) -> (r: Vec<String>)
    requires
        p@.len() > 0,
    ensures
        texts(r@) == split_by(s@, p@),
        r@.len() >= 1,
{
    let v = chars_of(s);
    let q = chars_of(p);
    let mut out: Vec<String> = Vec::new();
    let mut start: usize = 0;
    assert(v@.skip(0) =~= v@);
    assert(texts(out@) + split_by(v@, q@) =~= split_by(v@, q@));
    loop
        invariant
            v@ == s@,
            q@ == p@,
            q@.len() > 0,
            start <= v@.len(),
            split_by(s@, p@) == texts(out@) + split_by(v@.skip(start as int), q@),
        decreases v@.len() - start,
    {
        let ghost rest = v@.skip(start as int);
        let ghost done = out@;
        proof {
            lemma_find_skip(v@, q@, start as int, start as int);
            lemma_find_from(v@, q@, start as int);
        }
        match find_chars(&v, &q, start) {
            Some(i) => {
                let piece = text_of(&v[start..i]);
                out.push(piece);
                assert(texts(out@) =~= texts(done).push(piece@));
                assert(piece@ =~= rest.take(i - start));
                assert(rest.skip(i - start + q@.len()) =~= v@.skip(i + q@.len()));
                assert(texts(out@) + split_by(v@.skip(i + q@.len()), q@) =~= texts(done) + split_by(rest, q@));
                let n: usize = v.len();
                assert(i + q@.len() <= n);
                start = i + q.len();
            },
            None => {
                let piece = text_of(&v[start..v.len()]);
                out.push(piece);
                assert(piece@ =~= rest);
                assert(texts(out@) =~= texts(done).push(piece@));
                assert(texts(out@) =~= texts(done) + split_by(rest, q@));
                return out;
            },
        }
    }
}

/// The first `n` bytes, or all of them where there are fewer.
pub open spec fn head_bytes(b: Seq<u8>, n: int) -> Seq<u8> {
    if n < b.len() {
        b.take(n)
    } else {
        b
    }
}

/// The first `n` bytes, or all of them where there are fewer.
pub fn take_bytes(b: &[u8], n: usize) -> (r: Vec<u8>)
    ensures
        r@ == head_bytes(b@, n as int),
{
    let k: usize = if n < b.len() { n } else { b.len() };
    let r = vstd::slice::slice_to_vec(vstd::slice::slice_subrange(b, 0, k));
    assert(r@ =~= head_bytes(b@, n as int));
    r
}

// ---- what holds of texts ----

/// What is trimmed stands in the text between white space alone, and has none at its own ends.
pub proof fn trimming_takes_white_ends_away(s: Seq<char>) -> (i: int)
    ensures
        0 <= i && i + trimmed(s).len() <= s.len(),
        trimmed(s) == s.subrange(i, i + trimmed(s).len()),
        forall|k: int| 0 <= k < i ==> is_white(#[trigger] s[k]),
        forall|k: int| i + trimmed(s).len() <= k < s.len() ==> is_white(#[trigger] s[k]),
        trimmed(s).len() > 0 ==> !is_white(trimmed(s)[0]) && !is_white(trimmed(s).last()),
{
    let f = trim_front(s);
    let t = trim_back(f);
    lemma_trim_front(s);
    lemma_trim_back(f);
    let i = s.len() - f.len();
    assert(t =~= s.subrange(i, i + t.len()));
    assert forall|k: int| i + t.len() <= k < s.len() implies is_white(#[trigger] s[k]) by {
        assert(f[k - i] == s[k]);
    }
    i
}

proof fn lemma_trim_front(s: Seq<char>)
    ensures
        trim_front(s).len() <= s.len(),
        trim_front(s) == s.skip(s.len() - trim_front(s).len()),
        forall|k: int| 0 <= k < s.len() - trim_front(s).len() ==> is_white(#[trigger] s[k]),
        trim_front(s).len() > 0 ==> !is_white(trim_front(s)[0]),
    decreases s.len(),
{
    if s.len() > 0 && is_white(s[0]) {
        let rest = s.skip(1);
        lemma_trim_front(rest);
        assert(trim_front(s) =~= s.skip(s.len() - trim_front(s).len()));
        assert forall|k: int| 0 <= k < s.len() - trim_front(s).len() implies is_white(#[trigger] s[k]) by {
            if k > 0 {
                assert(rest[k - 1] == s[k]);
            }
        }
    } else {
        assert(s.skip(0) =~= s);
    }
}

proof fn lemma_trim_back(s: Seq<char>)
    ensures
        trim_back(s).len() <= s.len(),
        trim_back(s) == s.take(trim_back(s).len() as int),
        forall|k: int| trim_back(s).len() <= k < s.len() ==> is_white(#[trigger] s[k]),
        trim_back(s).len() > 0 ==> !is_white(trim_back(s).last()),
        s.len() > 0 && trim_back(s).len() > 0 ==> trim_back(s)[0] == s[0],
    decreases s.len(),
{
    if s.len() > 0 && is_white(s.last()) {
        let rest = s.drop_last();
        lemma_trim_back(rest);
        assert(trim_back(s) =~= s.take(trim_back(s).len() as int));
        assert forall|k: int| trim_back(s).len() <= k < s.len() implies is_white(#[trigger] s[k]) by {
            if k < rest.len() {
                assert(rest[k] == s[k]);
            }
        }
    } else {
        assert(s.take(s.len() as int) =~= s);
    }
}

/// A text without white space at its ends is what trimming leaves of it, whatever white space stands
/// around it.
pub proof fn trimming_leaves_the_rest(a: Seq<char>, s: Seq<char>, b: Seq<char>)
    requires
        s.len() > 0 ==> !is_white(s[0]) && !is_white(s.last()),
        forall|k: int| 0 <= k < a.len() ==> is_white(#[trigger] a[k]),
        forall|k: int| 0 <= k < b.len() ==> is_white(#[trigger] b[k]),
    ensures
        trimmed(a + s + b) == s,
        trimmed(s) == s,
    decreases a.len() + b.len(),
{
    let all = a + s + b;
    if a.len() > 0 {
        let rest = a.skip(1);
        assert forall|k: int| 0 <= k < rest.len() implies is_white(#[trigger] rest[k]) by {
            assert(rest[k] == a[k + 1]);
        }
        assert(all[0] == a[0]);
        assert(all.skip(1) =~= rest + s + b);
        trimming_leaves_the_rest(rest, s, b);
    } else if s.len() > 0 {
        assert(all[0] == s[0]);
        lemma_trim_back_white(s, b);
        assert(all =~= s + b);
    } else {
        assert(all =~= b);
        lemma_all_white(b);
    }
}

proof fn lemma_trim_back_white(s: Seq<char>, b: Seq<char>)
    requires
        s.len() > 0,
        !is_white(s.last()),
        forall|k: int| 0 <= k < b.len() ==> is_white(#[trigger] b[k]),
    ensures
        trim_back(s + b) == s,
    decreases b.len(),
{
    if b.len() > 0 {
        let rest = b.drop_last();
        assert forall|k: int| 0 <= k < rest.len() implies is_white(#[trigger] rest[k]) by {
            assert(rest[k] == b[k]);
        }
        assert((s + b).last() == b[b.len() - 1]);
        assert((s + b).drop_last() =~= s + rest);
        lemma_trim_back_white(s, rest);
    } else {
        assert(s + b =~= s);
    }
}

proof fn lemma_all_white(b: Seq<char>)
    requires
        forall|k: int| 0 <= k < b.len() ==> is_white(#[trigger] b[k]),
    ensures
        trim_front(b).len() == 0,
    decreases b.len(),
{
    if b.len() > 0 {
        let rest = b.skip(1);
        assert forall|k: int| 0 <= k < rest.len() implies is_white(#[trigger] rest[k]) by {
            assert(rest[k] == b[k + 1]);
        }
        lemma_all_white(rest);
    }
}

/// White space is what Unicode calls so.
pub proof fn white_space_is_that_of_unicode(c: char)
    ensures
        is_white(c) == (c == ' ' || c == '\t' || c == '\n' || c == '\r' || c == '\u{b}' || c == '\u{c}' || c
            == '\u{85}' || c == '\u{a0}' || c == '\u{1680}' || '\u{2000}' <= c <= '\u{200a}' || c == '\u{2028}' || c
            == '\u{2029}' || c == '\u{202f}' || c == '\u{205f}' || c == '\u{3000}'),
{
}

/// Small letters take the place of the large ones of ASCII, and nothing else changes.
pub proof fn only_large_letters_change(s: Seq<char>, i: int)
    requires
        0 <= i < s.len(),
    ensures
        smalls(s).len() == s.len(),
        'A' <= s[i] <= 'Z' ==> smalls(s)[i] as u32 == s[i] as u32 + 32,
        !('A' <= s[i] <= 'Z') ==> smalls(s)[i] == s[i],
{
}

/// Parts with a separator between each two of them.
pub open spec fn glued<T>(parts: Seq<Seq<T>>, sep: Seq<T>) -> Seq<T>
    decreases parts.len(),
{
    if parts.len() == 0 {
        Seq::empty()
    } else if parts.len() == 1 {
        parts[0]
    } else {
        parts[0] + sep + glued(parts.skip(1), sep)
    }
}

/// Splitting at a separator undoes putting it between parts that do not hold it.
pub proof fn splitting_undoes_gluing<T>(parts: Seq<Seq<T>>, c: T)
    requires
        parts.len() > 0,
        forall|i: int| 0 <= i < parts.len() ==> !(#[trigger] parts[i]).contains(c),
    ensures
        split_on(glued(parts, seq![c]), c) == parts,
    decreases parts.len(),
{
    let s = glued(parts, seq![c]);
    let first = parts[0];
    let rest = parts.skip(1);
    if parts.len() == 1 {
        lemma_index_is(s, c, s.len() as int);
        assert(split_on(s, c) =~= parts);
    } else {
        assert forall|i: int| 0 <= i < rest.len() implies !(#[trigger] rest[i]).contains(c) by {
            assert(rest[i] == parts[i + 1]);
        }
        splitting_undoes_gluing(rest, c);
        assert forall|k: int| 0 <= k < first.len() implies s[k] != c by {
            assert(s[k] == first[k]);
        }
        assert(s[first.len() as int] == c);
        lemma_index_is(s, c, first.len() as int);
        assert(s.take(first.len() as int) =~= first);
        assert(s.skip(first.len() + 1int) =~= glued(rest, seq![c]));
        assert(split_on(s, c) =~= parts);
    }
}

/// Cutting at a character gives what stands on both sides of the first one; nothing where there is none.
pub proof fn cutting_finds_the_first(a: Seq<char>, b: Seq<char>, c: char)
    requires
        !a.contains(c),
    ensures
        cut_at(a + seq![c] + b, c) == Some((a, b)),
        cut_at(a, c) is None,
{
    let s = a + seq![c] + b;
    assert forall|k: int| 0 <= k < a.len() implies s[k] != c by {
        assert(s[k] == a[k]);
    }
    assert(s[a.len() as int] == c);
    lemma_index_is(s, c, a.len() as int);
    assert(s.take(a.len() as int) =~= a);
    assert(s.skip(a.len() + 1int) =~= b);
    lemma_index_is(a, c, a.len() as int);
}

/// Parts are joined with the separator between each two of them, and with nothing else.
pub proof fn joined_parts_are_glued(parts: Seq<Seq<char>>, sep: Seq<char>)
    ensures
        joined(parts, sep) == glued(parts, sep),
    decreases parts.len(),
{
    if parts.len() > 1 {
        joined_parts_are_glued(parts.drop_last(), sep);
        lemma_glued_push(parts.drop_last(), parts.last(), sep);
        assert(parts.drop_last().push(parts.last()) =~= parts);
    }
}

proof fn lemma_glued_push(parts: Seq<Seq<char>>, last: Seq<char>, sep: Seq<char>)
    requires
        parts.len() > 0,
    ensures
        glued(parts.push(last), sep) == glued(parts, sep) + sep + last,
    decreases parts.len(),
{
    let all = parts.push(last);
    if parts.len() == 1 {
        reveal_with_fuel(glued, 3);
        assert(all.skip(1) =~= seq![last]);
    } else {
        assert(all.skip(1) =~= parts.skip(1).push(last));
        lemma_glued_push(parts.skip(1), last, sep);
        assert(glued(all, sep) =~= glued(parts, sep) + sep + last);
    }
}

/// What stands in the place of a character is put there wherever it stands, and nowhere else.
pub proof fn replacing_goes_piece_by_piece(a: Seq<char>, b: Seq<char>, c: char, r: Seq<char>, x: char)
    ensures
        replaced(a + b, c, r) == replaced(a, c, r) + replaced(b, c, r),
        replaced(seq![c], c, r) == r,
        x != c ==> replaced(seq![x], c, r) == seq![x],
    decreases b.len(),
{
    reveal_with_fuel(replaced, 2);
    assert(seq![c].drop_last() =~= Seq::empty());
    assert(seq![x].drop_last() =~= Seq::empty());
    assert(replaced(seq![c], c, r) =~= r);
    if x != c {
        assert(replaced(seq![x], c, r) =~= seq![x]);
    }
    if b.len() == 0 {
        assert(a + b =~= a);
        assert(replaced(a, c, r) + replaced(b, c, r) =~= replaced(a, c, r));
    } else {
        replacing_goes_piece_by_piece(a, b.drop_last(), c, r, x);
        assert((a + b).drop_last() =~= a + b.drop_last());
        assert(replaced(a + b, c, r) =~= replaced(a, c, r) + replaced(b, c, r));
    }
}

/// Stripping what a text begins with leaves what stands behind it.
pub proof fn stripping_leaves_the_rest(p: Seq<char>, t: Seq<char>)
    ensures
        stripped(p + t, p) == Some(t),
{
    assert((p + t).take(p.len() as int) =~= p);
    assert((p + t).skip(p.len() as int) =~= t);
}

/// The first characters of a text are as many as are asked for, or all of them, and what it begins with.
pub proof fn first_characters_begin_the_text(s: Seq<char>, n: int)
    requires
        n >= 0,
    ensures
        head_chars(s, n).len() == (if s.len() < n {
            s.len() as int
        } else {
            n
        }),
        forall|i: int| 0 <= i < head_chars(s, n).len() ==> #[trigger] head_chars(s, n)[i] == s[i],
{
}

/// A text that stands between marks is found between them: splitting at a text undoes putting it between
/// two parts, the first of which does not hold it.
pub proof fn splitting_by_a_text_cuts_at_the_first(a: Seq<char>, p: Seq<char>, b: Seq<char>)
    requires
        p.len() > 0,
        find_from(a + p + b, p, 0) == Some(a.len() as int),
    ensures
        split_by(a + p + b, p) == seq![a] + split_by(b, p),
        find_from(b, p, 0) is None ==> split_by(b, p) == seq![b],
{
    let s = a + p + b;
    assert(s.take(a.len() as int) =~= a);
    assert(s.skip((a.len() + p.len()) as int) =~= b);
}

/// A text is found where it first stands.
pub proof fn texts_are_found_where_they_first_stand<T>(s: Seq<T>, p: Seq<T>, k: int)
    requires
        0 <= k,
        k + p.len() <= s.len(),
        s.subrange(k, k + p.len()) == p,
        forall|j: int| 0 <= j < k ==> #[trigger] s.subrange(j, j + p.len()) != p,
    ensures
        find_from(s, p, 0) == Some(k),
        has_text(s, p),
{
    lemma_find_from(s, p, 0);
    assert(occurs_at(s, p, k));
    match find_from(s, p, 0) {
        Some(i) => {
            assert(occurs_at(s, p, i));
            if i < k {
                assert(s.subrange(i, i + p.len()) != p);
            }
        },
        None => {},
    }
}

/// Bytes that are plain characters are shown as them, one for one, and the first of them are the first.
pub proof fn plain_bytes_are_shown_one_for_one(b: Seq<u8>, i: int, n: int)
    requires
        forall|k: int| 0 <= k < b.len() ==> (#[trigger] b[k]) < 128,
        0 <= i < b.len(),
    ensures
        bytes_shown(b).len() == b.len(),
        bytes_shown(b)[i] as int == b[i],
        0 <= n < b.len() ==> head_bytes(b, n) == b.subrange(0, n),
        n >= b.len() ==> head_bytes(b, n) == b,
{
    if 0 <= n < b.len() {
        assert(b.take(n) =~= b.subrange(0, n));
    }
}

} // verus!
