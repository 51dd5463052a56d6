//! Lists of keyed values: the first entry of a key counts.
use vstd::prelude::*;
use crate::text;

verus! {

broadcast use vstd::string::group_string_axioms;

/// The value under a key.
pub open spec fn lookup<V>(list: Seq<(String, V)>, key: Seq<char>) -> Option<V>
    decreases list.len(),
{
    if list.len() == 0 {
        None
    } else if list[0].0@ == key {
        Some(list[0].1)
    } else {
        lookup(list.skip(1), key)
    }
}

/// Whether no key occurs twice.
pub open spec fn distinct<V>(list: Seq<(String, V)>) -> bool {
    forall|i: int, j: int| 0 <= i < j < list.len() ==> (#[trigger] list[i]).0@ != (#[trigger] list[j]).0@
}

/// The position of a key's first entry; the length where there is none.
fn position<V>(list: &Vec<(String, V)>, key: &str) -> (r: usize)
    ensures
        r <= list@.len(),
        forall|i: int| 0 <= i < r ==> (#[trigger] list@[i]).0@ != key@,
        r < list@.len() ==> list@[r as int].0@ == key@,
{
    let mut i: usize = 0;
    while i < list.len()
        invariant
            i <= list@.len(),
            forall|k: int| 0 <= k < i ==> (#[trigger] list@[k]).0@ != key@,
        decreases list@.len() - i,
    {
        if text::same(list[i].0.as_str(), key) {
            return i;
        }
        i += 1;
    }
    i
}

proof fn lemma_lookup_at<V>(list: Seq<(String, V)>, key: Seq<char>, at: int)
    requires
        0 <= at <= list.len(),
        forall|i: int| 0 <= i < at ==> (#[trigger] list[i]).0@ != key,
        at < list.len() ==> list[at].0@ == key,
    ensures
        lookup(list, key) == if at < list.len() {
            Some(list[at].1)
        } else {
            None
        },
    decreases list.len(),
{
    if list.len() > 0 && at > 0 {
        assert(list[0].0@ != key);
        assert forall|i: int| 0 <= i < at - 1 implies (#[trigger] list.skip(1)[i]).0@ != key by {
            assert(list.skip(1)[i] == list[i + 1]);
        }
        lemma_lookup_at(list.skip(1), key, at - 1);
    }
}

proof fn lemma_lookup_replaced<V>(list: Seq<(String, V)>, at: int, entry: (String, V), key: Seq<char>)
    requires
        0 <= at < list.len(),
        list[at].0@ == entry.0@,
        key != entry.0@,
    ensures
        lookup(list.update(at, entry), key) == lookup(list, key),
    decreases list.len(),
{
    let w = list.update(at, entry);
    if at == 0 {
        assert(w.skip(1) =~= list.skip(1));
    } else {
        assert(w.skip(1) =~= list.skip(1).update(at - 1, entry));
        lemma_lookup_replaced(list.skip(1), at - 1, entry, key);
    }
}

proof fn lemma_lookup_pushed<V>(list: Seq<(String, V)>, entry: (String, V), key: Seq<char>)
    requires
        key != entry.0@,
    ensures
        lookup(list.push(entry), key) == lookup(list, key),
    decreases list.len(),
{
    let w = list.push(entry);
    if list.len() == 0 {
        assert(w.skip(1) =~= list);
    } else {
        assert(w.skip(1) =~= list.skip(1).push(entry));
        lemma_lookup_pushed(list.skip(1), entry, key);
    }
}

proof fn lemma_lookup_removed<V>(list: Seq<(String, V)>, at: int, key: Seq<char>)
    requires
        0 <= at < list.len(),
        list[at].0@ != key,
    ensures
        lookup(list.remove(at), key) == lookup(list, key),
    decreases list.len(),
{
    let w = list.remove(at);
    if at == 0 {
        assert(w =~= list.skip(1));
    } else {
        assert(w.skip(1) =~= list.skip(1).remove(at - 1));
        lemma_lookup_removed(list.skip(1), at - 1, key);
    }
}

/// The value under a key.
pub fn find<'a, V>(list: &'a Vec<(String, V)>, key: &str) -> (r: Option<&'a V>)
    ensures
        match r {
            Some(v) => lookup(list@, key@) == Some(*v),
            None => lookup(list@, key@) is None,
        },
{
    let at: usize = position(list, key);
    proof {
        lemma_lookup_at(list@, key@, at as int);
    }
    if at < list.len() {
        Some(&list[at].1)
    } else {
        None
    }
}

/// Sets the value under a key; the other keys keep theirs.
pub fn set<V>(list: &mut Vec<(String, V)>, key: &str, val: V)
    ensures
        lookup(final(list)@, key@) == Some(val),
        forall|k: Seq<char>| k != key@ ==> #[trigger] lookup(final(list)@, k) == lookup(old(list)@, k),
        final(list)@.len() <= old(list)@.len() + 1,
        distinct(old(list)@) ==> distinct(final(list)@),
{
    let at: usize = position(list, key);
    let entry = (key.to_owned(), val);
    let ghost before = list@;
    if at < list.len() {
        list.set(at, entry);
        proof {
            lemma_lookup_at(list@, key@, at as int);
            assert forall|k: Seq<char>| k != key@ implies #[trigger] lookup(list@, k) == lookup(before, k) by {
                lemma_lookup_replaced(before, at as int, entry, k);
            }
        }
    } else {
        list.push(entry);
        proof {
            lemma_lookup_at(list@, key@, at as int);
            assert forall|k: Seq<char>| k != key@ implies #[trigger] lookup(list@, k) == lookup(before, k) by {
                lemma_lookup_pushed(before, entry, k);
            }
        }
    }
}

/// Takes a key out; the other keys keep their values. Whether it was there.
pub fn unset<V>(list: &mut Vec<(String, V)>, key: &str) -> (r: bool)
    ensures
        lookup(final(list)@, key@) is None,
        forall|k: Seq<char>| k != key@ ==> #[trigger] lookup(final(list)@, k) == lookup(old(list)@, k),
        r == (lookup(old(list)@, key@) is Some),
{
    let at: usize = position(list, key);
    proof {
        lemma_lookup_at(list@, key@, at as int);
    }
    let there = at < list.len();
    let mut i: usize = list.len();
    while i > 0
        invariant
            i <= list@.len(),
            forall|k: int| i <= k < list@.len() ==> (#[trigger] list@[k]).0@ != key@,
            forall|k: Seq<char>| k != key@ ==> #[trigger] lookup(list@, k) == lookup(old(list)@, k),
        decreases i,
    {
        i -= 1;
        if text::same(list[i].0.as_str(), key) {
            let ghost before = list@;
            let _gone = list.remove(i);
            proof {
                assert forall|k: Seq<char>| k != key@ implies #[trigger] lookup(list@, k) == lookup(old(list)@, k) by {
                    lemma_lookup_removed(before, i as int, k);
                    assert(lookup(before, k) == lookup(old(list)@, k));
                }
                assert forall|k: int| i <= k < list@.len() implies (#[trigger] list@[k]).0@ != key@ by {
                    assert(list@[k] == before[k + 1]);
                }
            }
        }
    }
    proof {
        lemma_lookup_at(list@, key@, list@.len() as int);
    }
    there
}

/// Values are looked up by their key, and the first of a key counts.
pub proof fn first_values_count<V>(a: Seq<(String, V)>, b: Seq<(String, V)>, p: (String, V), key: Seq<char>)
    ensures
        lookup(a, key) is Some ==> lookup(a + b, key) == lookup(a, key),
        lookup(a, key) is None ==> lookup(a + b, key) == lookup(b, key),
        lookup(seq![p], key) == (if p.0@ == key {
            Some(p.1)
        } else {
            None
        }),
    decreases a.len(),
{
    reveal_with_fuel(lookup, 2);
    assert(seq![p].skip(1) =~= Seq::<(String, V)>::empty());
    if a.len() == 0 {
        assert(a + b =~= b);
    } else {
        first_values_count(a.skip(1), b, p, key);
        assert((a + b).skip(1) =~= a.skip(1) + b);
        assert((a + b)[0] == a[0]);
    }
}

} // verus!
