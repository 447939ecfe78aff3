//! Laws of `slugify`: dashes never double, a value with nothing to keep falls back to a fixed
//! name, and a slug slugifies to itself.

use vstd::prelude::*;
use crate::evidence::{trim_end_char, trim_start_char};
use crate::tailoring::{
    dash_trimmed, lemma_slug_path_safe, lemma_trim_end_shape,
    lemma_trim_start_shape, slug_char, slug_of, slug_scan,
};
use crate::text::{ascii_lower, is_ascii_alnum};

verus! {

/// No two dashes stand side by side in `s`.
pub open spec fn no_double_dash(s: Seq<char>) -> bool {
    forall|i: int| 0 <= i < s.len() - 1 ==> !(#[trigger] s[i] == '-' && s[i + 1] == '-')
}

proof fn lemma_scan_single_dashes(s: Seq<char>)
    ensures
        no_double_dash(slug_scan(s).0),
        slug_scan(s).1 <==> (slug_scan(s).0.len() > 0 && slug_scan(s).0.last() == '-'),
    decreases s.len(),
{
    if s.len() > 0 {
        lemma_scan_single_dashes(s.drop_last());
        let p = slug_scan(s.drop_last());
        let c = s.last();
        if is_ascii_alnum(c) {
            let l = ascii_lower(c);
            if 'A' <= c && c <= 'Z' {
                assert(65 <= (c as u32) <= 90);
                assert((((c as u32) + 32) as char) as u32 == (c as u32) + 32);
            }
            assert(l != '-');
            let r = p.0.push(l);
            assert forall|i: int| 0 <= i < r.len() - 1 implies !(#[trigger] r[i] == '-' && r[i + 1]
                == '-') by {
                if i + 1 < p.0.len() {
                    assert(r[i] == p.0[i] && r[i + 1] == p.0[i + 1]);
                }
            }
        } else if !p.1 {
            let r = p.0.push('-');
            assert forall|i: int| 0 <= i < r.len() - 1 implies !(#[trigger] r[i] == '-' && r[i + 1]
                == '-') by {
                if i + 1 < p.0.len() {
                    assert(r[i] == p.0[i] && r[i + 1] == p.0[i + 1]);
                } else {
                    assert(r[i] == p.0.last());
                }
            }
        }
    }
}

proof fn lemma_subrange_single_dashes(s: Seq<char>, a: int, b: int)
    requires
        no_double_dash(s),
        0 <= a <= b <= s.len(),
    ensures
        no_double_dash(s.subrange(a, b)),
{
    let t = s.subrange(a, b);
    assert forall|i: int| 0 <= i < t.len() - 1 implies !(#[trigger] t[i] == '-' && t[i + 1] == '-') by {
        assert(t[i] == s[a + i] && t[i + 1] == s[a + i + 1]);
    }
}

/// A slug never holds two dashes side by side.
pub proof fn lemma_slug_single_dashes(value: Seq<char>)
    ensures
        no_double_dash(slug_of(value)),
{
    let scanned = slug_scan(value).0;
    lemma_scan_single_dashes(value);
    let e = trim_end_char(scanned, '-');
    lemma_trim_end_shape(scanned, '-');
    let t = trim_start_char(e, '-');
    lemma_trim_start_shape(e, '-');
    let ke = choose|k: int| 0 <= k <= scanned.len() && e == scanned.take(k);
    lemma_subrange_single_dashes(scanned, 0, ke);
    assert(e == scanned.subrange(0, ke));
    let ks = choose|k: int| 0 <= k <= e.len() && t == e.subrange(k, e.len() as int);
    lemma_subrange_single_dashes(e, ks, e.len() as int);
    if t.len() == 0 {
        reveal_strlit("tailored-resume");
        let f = "tailored-resume"@;
        assert forall|i: int| 0 <= i < f.len() - 1 implies !(#[trigger] f[i] == '-' && f[i + 1]
            == '-') by {}
    }
}

proof fn lemma_scan_without_alnum(s: Seq<char>)
    requires
        forall|i: int| 0 <= i < s.len() ==> !is_ascii_alnum(#[trigger] s[i]),
    ensures
        forall|i: int| 0 <= i < slug_scan(s).0.len() ==> #[trigger] slug_scan(s).0[i] == '-',
    decreases s.len(),
{
    if s.len() > 0 {
        assert(!is_ascii_alnum(s[s.len() - 1]));
        lemma_scan_without_alnum(s.drop_last());
        let p = slug_scan(s.drop_last());
        let r = slug_scan(s).0;
        assert forall|i: int| 0 <= i < r.len() implies #[trigger] r[i] == '-' by {
            if i < p.0.len() {
                assert(r[i] == p.0[i]);
            }
        }
    }
}

proof fn lemma_trim_all_dashes(s: Seq<char>)
    requires
        forall|i: int| 0 <= i < s.len() ==> #[trigger] s[i] == '-',
    ensures
        trim_end_char(s, '-').len() == 0,
    decreases s.len(),
{
    if s.len() > 0 {
        assert(s.last() == '-');
        lemma_trim_all_dashes(s.drop_last());
    }
}

/// A value without a single ASCII letter or digit slugifies to `tailored-resume`.
pub proof fn lemma_slug_fallback(value: Seq<char>)
    requires
        forall|i: int| 0 <= i < value.len() ==> !is_ascii_alnum(#[trigger] value[i]),
    ensures
        slug_of(value) == "tailored-resume"@,
{
    lemma_scan_without_alnum(value);
    lemma_trim_all_dashes(slug_scan(value).0);
    assert(dash_trimmed(slug_scan(value).0).len() == 0);
}

proof fn lemma_scan_of_slug_text(s: Seq<char>)
    requires
        forall|i: int| 0 <= i < s.len() ==> slug_char(#[trigger] s[i]),
        no_double_dash(s),
    ensures
        slug_scan(s) == (s, s.len() > 0 && s.last() == '-'),
    decreases s.len(),
{
    if s.len() > 0 {
        let q = s.drop_last();
        assert forall|i: int| 0 <= i < q.len() - 1 implies !(#[trigger] q[i] == '-' && q[i + 1]
            == '-') by {
            assert(q[i] == s[i] && q[i + 1] == s[i + 1]);
        }
        lemma_scan_of_slug_text(q);
        let c = s.last();
        assert(slug_char(s[s.len() - 1]));
        if c != '-' {
            assert(is_ascii_alnum(c));
            assert(ascii_lower(c) == c);
        } else if q.len() > 0 {
            assert(!(s[s.len() - 2] == '-' && s[s.len() - 1] == '-'));
        }
        assert(q.push(c) =~= s);
    }
}

/// Slugifying a slug gives it back unchanged.
pub proof fn lemma_slug_idempotent(value: Seq<char>)
    ensures
        slug_of(slug_of(value)) == slug_of(value),
{
    let s = slug_of(value);
    lemma_slug_path_safe(value);
    lemma_slug_single_dashes(value);
    lemma_scan_of_slug_text(s);
    assert(s.last() != '-');
    assert(trim_end_char(s, '-') == s);
    assert(s[0] != '-');
    assert(trim_start_char(s, '-') == s);
}

} // verus!
