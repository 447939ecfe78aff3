//! First-match search over sequences, the shape of every `iter().find(..)` in the library.

use vstd::prelude::*;
use crate::text::trimmed;
use vstd::multiset::Multiset;

verus! {

/// The index of the first element satisfying `p`, or the length when none does.
pub open spec fn first_where<A>(s: Seq<A>, p: spec_fn(A) -> bool) -> int
    decreases s.len(),
{
    if s.len() == 0 {
        0
    } else if p(s[0]) {
        0
    } else {
        1 + first_where(s.drop_first(), p)
    }
}

/// Some element satisfies `p`.
pub open spec fn any_where<A>(s: Seq<A>, p: spec_fn(A) -> bool) -> bool {
    exists|i: int| 0 <= i < s.len() && #[trigger] p(s[i])
}

pub proof fn lemma_first_where<A>(s: Seq<A>, p: spec_fn(A) -> bool)
    ensures
        0 <= first_where(s, p) <= s.len(),
        first_where(s, p) < s.len() ==> p(s[first_where(s, p)]),
        forall|k: int| 0 <= k < first_where(s, p) ==> !p(#[trigger] s[k]),
        (first_where(s, p) < s.len()) == any_where(s, p),
    decreases s.len(),
{
    if s.len() > 0 && !p(s[0]) {
        lemma_first_where(s.drop_first(), p);
        assert forall|k: int| 0 <= k < first_where(s, p) implies !p(#[trigger] s[k]) by {
            if k > 0 {
                assert(s.drop_first()[k - 1] == s[k]);
            }
        }
        if any_where(s, p) {
            let i = choose|i: int| 0 <= i < s.len() && #[trigger] p(s[i]);
            assert(s.drop_first()[i - 1] == s[i]);
        }
        if any_where(s.drop_first(), p) {
            let i = choose|i: int| 0 <= i < s.drop_first().len() && #[trigger] p(s.drop_first()[i]);
            assert(p(s[i + 1]));
        }
    }
}

/// The first index satisfying `p` is `j` when `j` satisfies it (or is the end) and nothing
/// before it does.
pub proof fn lemma_first_where_at<A>(s: Seq<A>, p: spec_fn(A) -> bool, j: int)
    requires
        0 <= j <= s.len(),
        j < s.len() ==> p(s[j]),
        forall|k: int| 0 <= k < j ==> !p(#[trigger] s[k]),
    ensures
        first_where(s, p) == j,
    decreases s.len(),
{
    if s.len() > 0 && j > 0 {
        assert(!p(s[0]));
        assert forall|k: int| 0 <= k < j - 1 implies !p(#[trigger] s.drop_first()[k]) by {
            assert(s.drop_first()[k] == s[k + 1]);
        }
        lemma_first_where_at(s.drop_first(), p, j - 1);
    }
}

/// `x` strictly precedes the element it is applied to.
pub open spec fn precedes<A>(x: A, before: spec_fn(A, A) -> bool) -> spec_fn(A) -> bool {
    |y: A| before(x, y)
}

/// A stable insertion sort: each element, in input order, goes in front of the first element
/// already placed that it strictly precedes. For a strict weak order this is the one stable
/// sort of `s`.
pub open spec fn insertion_sorted<A>(s: Seq<A>, before: spec_fn(A, A) -> bool) -> Seq<A>
    decreases s.len(),
{
    if s.len() == 0 {
        s
    } else {
        let p = insertion_sorted(s.drop_last(), before);
        p.insert(first_where(p, precedes(s.last(), before)), s.last())
    }
}

pub proof fn lemma_insertion_sorted_len<A>(s: Seq<A>, before: spec_fn(A, A) -> bool)
    ensures
        insertion_sorted(s, before).len() == s.len(),
    decreases s.len(),
{
    if s.len() > 0 {
        lemma_insertion_sorted_len(s.drop_last(), before);
        lemma_first_where(insertion_sorted(s.drop_last(), before), precedes(s.last(), before));
    }
}


/// The non-blank labels of `s`, counted with multiplicity.
pub open spec fn labels<A>(s: Seq<A>, label: spec_fn(A) -> Seq<char>) -> Multiset<Seq<char>>
    decreases s.len(),
{
    if s.len() == 0 {
        Multiset::empty()
    } else {
        let rest = labels(s.drop_last(), label);
        if trimmed(label(s.last())).len() > 0 {
            rest.insert(label(s.last()))
        } else {
            rest
        }
    }
}

/// Inserting an element anywhere adds its label as appending it would.
pub proof fn lemma_labels_insert<A>(s: Seq<A>, i: int, x: A, label: spec_fn(A) -> Seq<char>)
    requires
        0 <= i <= s.len(),
    ensures
        labels(s.insert(i, x), label) == labels(s.push(x), label),
    decreases s.len(),
{
    if i < s.len() {
        let t = s.drop_last();
        lemma_labels_insert(t, i, x, label);
        let m = labels(t, label);
        let a = label(x);
        let b = label(s.last());
        let ins = s.insert(i, x);
        assert(ins.drop_last() =~= t.insert(i, x));
        assert(ins.last() == s.last());
        assert(t.push(x).drop_last() =~= t);
        assert(s.push(x).drop_last() =~= s);
        assert(s.drop_last() == t);
        let mx = if trimmed(a).len() > 0 { m.insert(a) } else { m };
        let mb = if trimmed(b).len() > 0 { m.insert(b) } else { m };
        assert(labels(t.push(x), label) == mx);
        assert(labels(ins, label) == if trimmed(b).len() > 0 { mx.insert(b) } else { mx });
        assert(labels(s, label) == mb);
        assert(labels(s.push(x), label) == if trimmed(a).len() > 0 { mb.insert(a) } else { mb });
        if trimmed(a).len() > 0 && trimmed(b).len() > 0 {
            assert(m.insert(a).insert(b) =~= m.insert(b).insert(a));
        }
    } else {
        assert(s.insert(i, x) =~= s.push(x));
    }
}

/// A stable insertion sort keeps every label, as often as it occurs.
pub proof fn lemma_insertion_sorted_labels<A>(
    s: Seq<A>,
    before: spec_fn(A, A) -> bool,
    label: spec_fn(A) -> Seq<char>,
)
    ensures
        labels(insertion_sorted(s, before), label) == labels(s, label),
    decreases s.len(),
{
    if s.len() > 0 {
        let p = insertion_sorted(s.drop_last(), before);
        lemma_insertion_sorted_labels(s.drop_last(), before, label);
        lemma_insertion_sorted_len(s.drop_last(), before);
        lemma_first_where(p, precedes(s.last(), before));
        lemma_labels_insert(p, first_where(p, precedes(s.last(), before)), s.last(), label);
        assert(p.push(s.last()).drop_last() =~= p);
    }
}

/// Mapping each element to one with the same label keeps the labels.
pub proof fn lemma_labels_map<A, B>(
    s: Seq<A>,
    f: spec_fn(A) -> B,
    la: spec_fn(A) -> Seq<char>,
    lb: spec_fn(B) -> Seq<char>,
)
    requires
        forall|x: A| #[trigger] lb(f(x)) == la(x),
    ensures
        labels(s.map_values(f), lb) == labels(s, la),
    decreases s.len(),
{
    if s.len() > 0 {
        lemma_labels_map(s.drop_last(), f, la, lb);
        assert(s.map_values(f).drop_last() =~= s.drop_last().map_values(f));
        assert(lb(f(s.last())) == la(s.last()));
    }
}


/// No later element strictly precedes an earlier one.
pub open spec fn in_order<A>(s: Seq<A>, before: spec_fn(A, A) -> bool) -> bool {
    forall|i: int, j: int| 0 <= i < j < s.len() ==> !before(#[trigger] s[j], #[trigger] s[i])
}

/// For an irreflexive, transitive `before` on the elements `ok` admits, the insertion sort of
/// such elements is in order and holds only such elements.
pub proof fn lemma_insertion_sorted_in_order<A>(
    s: Seq<A>,
    before: spec_fn(A, A) -> bool,
    ok: spec_fn(A) -> bool,
)
    requires
        forall|i: int| 0 <= i < s.len() ==> ok(#[trigger] s[i]),
        forall|x: A| #[trigger] ok(x) ==> !before(x, x),
        forall|x: A, y: A, z: A|
            ok(x) && ok(y) && ok(z) && #[trigger] before(x, y) && #[trigger] before(y, z) ==> before(
                x,
                z,
            ),
    ensures
        in_order(insertion_sorted(s, before), before),
        forall|k: int|
            0 <= k < insertion_sorted(s, before).len() ==> ok(#[trigger] insertion_sorted(s, before)[k]),
    decreases s.len(),
{
    if s.len() > 0 {
        let t = s.drop_last();
        assert forall|i: int| 0 <= i < t.len() implies ok(#[trigger] t[i]) by {
            assert(t[i] == s[i]);
        }
        lemma_insertion_sorted_in_order(t, before, ok);
        lemma_insertion_sorted_len(t, before);
        let p = insertion_sorted(t, before);
        let x = s.last();
        assert(ok(s[s.len() - 1]));
        let i = first_where(p, precedes(x, before));
        lemma_first_where(p, precedes(x, before));
        let r = p.insert(i, x);
        assert(insertion_sorted(s, before) == r);
        assert forall|k: int| 0 <= k < r.len() implies ok(#[trigger] r[k]) by {
            if k < i {
                assert(r[k] == p[k]);
            } else if k > i {
                assert(r[k] == p[k - 1]);
            }
        }
        assert forall|a: int, b: int| 0 <= a < b < r.len() implies !before(
            #[trigger] r[b],
            #[trigger] r[a],
        ) by {
            if b < i {
                assert(r[a] == p[a] && r[b] == p[b]);
            } else if b == i {
                assert(r[a] == p[a] && r[b] == x);
                assert(!precedes(x, before)(p[a]));
            } else if a < i {
                assert(r[a] == p[a] && r[b] == p[b - 1]);
            } else if a == i {
                assert(r[a] == x && r[b] == p[b - 1]);
                assert(precedes(x, before)(p[i]));
                if before(p[b - 1], x) {
                    assert(ok(p[b - 1]) && ok(p[i]));
                    assert(before(p[b - 1], p[i]));
                    if i == b - 1 {
                        assert(!before(p[i], p[i]));
                    } else {
                        assert(!before(p[b - 1], p[i]));
                    }
                }
            } else {
                assert(r[a] == p[a - 1] && r[b] == p[b - 1]);
            }
        }
    }
}

} // verus!
