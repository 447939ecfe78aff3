//! Token sets: duplicate-free vectors of words, read as the mathematical set they hold.

use vstd::prelude::*;
use crate::text::chars_eq;

verus! {

broadcast use vstd::seq_lib::group_seq_properties;

/// The words of a token vector.
pub open spec fn tv(v: Seq<Vec<char>>) -> Seq<Seq<char>> {
    v.map_values(|t: Vec<char>| t@)
}

/// The set a token vector stands for.
pub open spec fn tset(v: Seq<Vec<char>>) -> Set<Seq<char>> {
    tv(v).to_set()
}

/// No word occurs twice, so the vector's length is the set's size.
pub open spec fn distinct(v: Seq<Vec<char>>) -> bool {
    tv(v).no_duplicates()
}

pub proof fn lemma_tset_len(v: Seq<Vec<char>>)
    requires
        distinct(v),
    ensures
        tset(v).len() == v.len(),
        tset(v).finite(),
{
    tv(v).unique_seq_to_set();
    vstd::seq_lib::seq_to_set_is_finite(tv(v));
}

pub proof fn lemma_tset_finite(v: Seq<Vec<char>>)
    ensures
        tset(v).finite(),
{
    vstd::seq_lib::seq_to_set_is_finite(tv(v));
}

pub fn has_token(v: &Vec<Vec<char>>, t: &[char]) -> (r: bool)
    ensures
        r == tset(v@).contains(t@),
{
    let mut i: usize = 0;
    while i < v.len()
        invariant
            i <= v@.len(),
            forall|j: int| 0 <= j < i ==> v@[j]@ != t@,
        decreases v@.len() - i,
    {
        if chars_eq(&v[i], t) {
            assert(tv(v@)[i as int] == t@);
            return true;
        }
        i += 1;
    }
    assert(!tv(v@).contains(t@));
    false
}

/// Adds `t` unless the set already holds it.
pub fn insert_token(v: &mut Vec<Vec<char>>, t: Vec<char>)
    requires
        distinct(old(v)@),
    ensures
        distinct(final(v)@),
        tset(final(v)@) == tset(old(v)@).insert(t@),
{
    if has_token(v, &t) {
        assert(tset(v@) =~= tset(v@).insert(t@));
        return;
    }
    let ghost before = v@;
    v.push(t);
    assert(tv(v@) =~= tv(before).push(t@));
    assert(tset(v@) =~= tset(before).insert(t@));
}

pub fn is_subset(a: &Vec<Vec<char>>, b: &Vec<Vec<char>>) -> (r: bool)
    ensures
        r == tset(a@).subset_of(tset(b@)),
{
    let mut i: usize = 0;
    while i < a.len()
        invariant
            i <= a@.len(),
            forall|j: int| 0 <= j < i ==> tset(b@).contains(#[trigger] tv(a@)[j]),
        decreases a@.len() - i,
    {
        if !has_token(b, &a[i]) {
            assert(tset(a@).contains(tv(a@)[i as int]));
            return false;
        }
        i += 1;
    }
    assert forall|x: Seq<char>| tset(a@).contains(x) implies tset(b@).contains(x) by {
        let k = choose|k: int| 0 <= k < tv(a@).len() && tv(a@)[k] == x;
    }
    true
}

pub fn same_tokens(a: &Vec<Vec<char>>, b: &Vec<Vec<char>>) -> (r: bool)
    ensures
        r == (tset(a@) == tset(b@)),
{
    let ab = is_subset(a, b);
    let ba = is_subset(b, a);
    if ab && ba {
        assert(tset(a@) =~= tset(b@));
        true
    } else {
        false
    }
}

/// How many of `a`'s words lie in `b`, counted over a prefix.
pub open spec fn count_in(a: Seq<Seq<char>>, b: Set<Seq<char>>) -> nat
    decreases a.len(),
{
    if a.len() == 0 {
        0
    } else {
        count_in(a.drop_last(), b) + if b.contains(a.last()) {
            1nat
        } else {
            0nat
        }
    }
}

pub proof fn lemma_count_in(a: Seq<Seq<char>>, b: Set<Seq<char>>)
    requires
        a.no_duplicates(),
    ensures
        count_in(a, b) == a.to_set().intersect(b).len(),
        a.to_set().intersect(b).finite(),
    decreases a.len(),
{
    vstd::seq_lib::seq_to_set_is_finite(a);
    if a.len() == 0 {
        assert(a.to_set().intersect(b) =~= Set::empty());
    } else {
        let p = a.drop_last();
        assert(p.no_duplicates()) by {
            assert forall|i: int, j: int| 0 <= i < p.len() && 0 <= j < p.len() && i != j implies p[i]
                != p[j] by {
                assert(p[i] == a[i] && p[j] == a[j]);
            }
        }
        lemma_count_in(p, b);
        vstd::seq_lib::seq_to_set_is_finite(p);
        assert(a =~= p.push(a.last()));
        assert(a.to_set() =~= p.to_set().insert(a.last()));
        assert(!p.to_set().contains(a.last())) by {
            if p.contains(a.last()) {
                let k = choose|k: int| 0 <= k < p.len() && p[k] == a.last();
                assert(a[k] == a[a.len() - 1]);
            }
        }
        if b.contains(a.last()) {
            assert(a.to_set().intersect(b) =~= p.to_set().intersect(b).insert(a.last()));
        } else {
            assert(a.to_set().intersect(b) =~= p.to_set().intersect(b));
        }
    }
}

/// The size of the intersection of two token sets.
pub fn count_common(a: &Vec<Vec<char>>, b: &Vec<Vec<char>>) -> (r: usize)
    requires
        distinct(a@),
    ensures
        r == tset(a@).intersect(tset(b@)).len(),
{
    let mut count: usize = 0;
    let mut i: usize = 0;
    while i < a.len()
        invariant
            i <= a@.len(),
            count <= i,
            count == count_in(tv(a@).take(i as int), tset(b@)),
        decreases a@.len() - i,
    {
        let inside = has_token(b, &a[i]);
        assert(tv(a@).take(i + 1).drop_last() =~= tv(a@).take(i as int));
        if inside {
            count += 1;
        }
        i += 1;
    }
    assert(tv(a@).take(a@.len() as int) =~= tv(a@));
    proof {
        lemma_count_in(tv(a@), tset(b@));
    }
    count
}

} // verus!
