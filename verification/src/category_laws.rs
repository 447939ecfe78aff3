//! Laws of the per-category breakdown of a coverage report: a category earns weight only from
//! terms the document carries, and the categories add up to the report.

use vstd::prelude::*;
use crate::analysis::JobAnalysis;
use crate::ats::{
    category_names, coverage_of, earned, earned_weight_of, ledger_terms, regions_of, tally,
    term_order, CategoryView, TermView, categories_of,
};
use crate::bank::EntryView;
use crate::evidence::{consolidate, core_cand, first_equiv, ledger, lemma_first_equiv_bound, listed_cands, merge_into, raw_candidates, CandView};
use crate::analysis::KeywordSignal;
use crate::json::JsonView;
use crate::ledger_laws::{lemma_coverage_law, lemma_ledger_weights, weight_sum};
use crate::preflight::ItemView;
use crate::search::{first_where, insertion_sorted, lemma_first_where, lemma_insertion_sorted_len, precedes};

verus! {

broadcast use vstd::seq_lib::group_seq_properties;

/// What one term adds to the tally of its own group.
spec fn with_term(p: (nat, nat, nat, nat, nat), t: TermView, g: Seq<char>) -> (nat, nat, nat, nat, nat) {
    if t.group == g {
        (
            p.0 + if t.covered { 1nat } else { 0nat },
            p.1 + if !t.covered && t.ratio.0 > 0 { 1nat } else { 0nat },
            p.2 + 1,
            p.3 + earned(t.weight as nat, t.ratio),
            p.4 + t.weight as nat,
        )
    } else {
        p
    }
}

proof fn lemma_tally_insert(s: Seq<TermView>, i: int, x: TermView, g: Seq<char>)
    requires
        0 <= i <= s.len(),
    ensures
        tally(s.insert(i, x), g) == with_term(tally(s, g), x, g),
    decreases s.len(),
{
    if i < s.len() {
        lemma_tally_insert(s.drop_last(), i, x, g);
        assert(s.insert(i, x).drop_last() =~= s.drop_last().insert(i, x));
        assert(s.insert(i, x).last() == s.last());
    } else {
        assert(s.insert(i, x) =~= s.push(x));
        assert(s.push(x).drop_last() =~= s);
    }
}

/// Sorting the terms for the report does not change any group's tally.
proof fn lemma_tally_sorted(s: Seq<TermView>, g: Seq<char>)
    ensures
        tally(insertion_sorted(s, term_order()), g) == tally(s, g),
    decreases s.len(),
{
    if s.len() > 0 {
        let p = insertion_sorted(s.drop_last(), term_order());
        lemma_tally_sorted(s.drop_last(), g);
        lemma_insertion_sorted_len(s.drop_last(), term_order());
        lemma_first_where(p, precedes(s.last(), term_order()));
        lemma_tally_insert(p, first_where(p, precedes(s.last(), term_order())), s.last(), g);
    }
}

/// A group none of whose terms the document carries, even in part, earns nothing.
proof fn lemma_tally_silent(ts: Seq<TermView>, g: Seq<char>)
    ensures
        tally(ts, g).0 == 0 && tally(ts, g).1 == 0 ==> tally(ts, g).3 == 0,
        tally(ts, g).2 == 0 ==> tally(ts, g).3 == 0 && tally(ts, g).4 == 0,
    decreases ts.len(),
{
    if ts.len() > 0 {
        lemma_tally_silent(ts.drop_last(), g);
        let t = ts.last();
        if t.group == g && !t.covered && t.ratio.0 == 0 {
            assert(earned(t.weight as nat, t.ratio) == 0) by {
                if t.ratio.1 > 0 {
                    assert((2 * (t.weight as nat) * t.ratio.0 + t.ratio.1) / (2 * t.ratio.1) == 0) by (nonlinear_arith)
                        requires t.ratio.0 == 0, t.ratio.1 > 0;
                }
            }
        }
    }
}

proof fn lemma_categories_silent(ts: Seq<TermView>, gs: Seq<Seq<char>>)
    ensures
        forall|i: int|
            0 <= i < categories_of(ts, gs).len() ==> ((#[trigger] categories_of(ts, gs)[i]).covered == 0
                && categories_of(ts, gs)[i].partial == 0 ==> categories_of(ts, gs)[i].covered_weight == 0),
    decreases gs.len(),
{
    if gs.len() > 0 {
        lemma_categories_silent(ts, gs.drop_last());
        lemma_tally_silent(ts, gs.last());
        let p = categories_of(ts, gs.drop_last());
        let all = categories_of(ts, gs);
        assert forall|i: int| 0 <= i < all.len() implies ((#[trigger] all[i]).covered == 0
            && all[i].partial == 0 ==> all[i].covered_weight == 0) by {
            if i < p.len() {
                assert(all[i] == p[i]);
            }
        }
    }
}

/// The sum of the categories' covered weights.
pub open spec fn categories_covered_weight(cs: Seq<CategoryView>) -> nat
    decreases cs.len(),
{
    if cs.len() == 0 {
        0
    } else {
        categories_covered_weight(cs.drop_last()) + cs.last().covered_weight
    }
}

/// The sum of the categories' total weights.
pub open spec fn categories_total_weight(cs: Seq<CategoryView>) -> nat
    decreases cs.len(),
{
    if cs.len() == 0 {
        0
    } else {
        categories_total_weight(cs.drop_last()) + cs.last().total_weight
    }
}

/// How many terms the categories count in all.
pub open spec fn categories_term_count(cs: Seq<CategoryView>) -> nat
    decreases cs.len(),
{
    if cs.len() == 0 {
        0
    } else {
        categories_term_count(cs.drop_last()) + cs.last().total
    }
}

spec fn field(p: (nat, nat, nat, nat, nat), k: nat) -> nat {
    if k == 2 {
        p.2
    } else if k == 3 {
        p.3
    } else {
        p.4
    }
}

/// What one term counts toward field `k`: itself, its earned weight, or its weight.
spec fn part(t: TermView, k: nat) -> nat {
    if k == 2 {
        1
    } else if k == 3 {
        earned(t.weight as nat, t.ratio)
    } else {
        t.weight as nat
    }
}

spec fn term_sum(ts: Seq<TermView>, k: nat) -> nat
    decreases ts.len(),
{
    if ts.len() == 0 {
        0
    } else {
        term_sum(ts.drop_last(), k) + part(ts.last(), k)
    }
}

spec fn group_sum(ts: Seq<TermView>, gs: Seq<Seq<char>>, k: nat) -> nat
    decreases gs.len(),
{
    if gs.len() == 0 {
        0
    } else {
        group_sum(ts, gs.drop_last(), k) + field(tally(ts, gs.last()), k)
    }
}

spec fn category_sum(cs: Seq<CategoryView>, k: nat) -> nat {
    if k == 2 {
        categories_term_count(cs)
    } else if k == 3 {
        categories_covered_weight(cs)
    } else {
        categories_total_weight(cs)
    }
}

proof fn lemma_group_sum_step(ts: Seq<TermView>, gs: Seq<Seq<char>>, k: nat)
    requires
        ts.len() > 0,
        gs.no_duplicates(),
        2 <= k <= 4,
    ensures
        group_sum(ts, gs, k) == group_sum(ts.drop_last(), gs, k) + if gs.contains(ts.last().group) {
            part(ts.last(), k)
        } else {
            0
        },
    decreases gs.len(),
{
    if gs.len() > 0 {
        let front = gs.drop_last();
        assert(front.no_duplicates());
        lemma_group_sum_step(ts, front, k);
        let x = ts.last();
        assert(tally(ts, gs.last()) == with_term(tally(ts.drop_last(), gs.last()), x, gs.last()));
        assert(gs.contains(x.group) <==> front.contains(x.group) || gs.last() == x.group) by {
            if gs.contains(x.group) {
                let j = choose|j: int| 0 <= j < gs.len() && gs[j] == x.group;
                if j < front.len() {
                    assert(front[j] == x.group);
                }
            }
            if front.contains(x.group) {
                let j = choose|j: int| 0 <= j < front.len() && front[j] == x.group;
                assert(gs[j] == x.group);
            }
            if gs.last() == x.group {
                assert(gs[gs.len() - 1] == x.group);
            }
        }
        if front.contains(x.group) && gs.last() == x.group {
            let j = choose|j: int| 0 <= j < front.len() && front[j] == x.group;
            assert(gs[j] == gs[gs.len() - 1]);
        }
    }
}

proof fn lemma_group_sum_whole(ts: Seq<TermView>, gs: Seq<Seq<char>>, k: nat)
    requires
        gs.no_duplicates(),
        2 <= k <= 4,
        forall|i: int| 0 <= i < ts.len() ==> gs.contains(#[trigger] ts[i].group),
    ensures
        group_sum(ts, gs, k) == term_sum(ts, k),
    decreases ts.len(),
{
    if ts.len() == 0 {
        lemma_group_sum_empty(ts, gs, k);
    } else {
        lemma_group_sum_whole(ts.drop_last(), gs, k);
        lemma_group_sum_step(ts, gs, k);
        assert(gs.contains(ts[ts.len() - 1].group));
    }
}

proof fn lemma_group_sum_empty(ts: Seq<TermView>, gs: Seq<Seq<char>>, k: nat)
    requires
        ts.len() == 0,
    ensures
        group_sum(ts, gs, k) == 0,
    decreases gs.len(),
{
    if gs.len() > 0 {
        lemma_group_sum_empty(ts, gs.drop_last(), k);
    }
}

proof fn lemma_group_sum_sorted(ts: Seq<TermView>, gs: Seq<Seq<char>>, k: nat)
    ensures
        group_sum(insertion_sorted(ts, term_order()), gs, k) == group_sum(ts, gs, k),
    decreases gs.len(),
{
    if gs.len() > 0 {
        lemma_group_sum_sorted(ts, gs.drop_last(), k);
        lemma_tally_sorted(ts, gs.last());
    }
}

proof fn lemma_category_sum(ts: Seq<TermView>, gs: Seq<Seq<char>>, k: nat)
    requires
        2 <= k <= 4,
    ensures
        category_sum(categories_of(ts, gs), k) == group_sum(ts, gs, k),
    decreases gs.len(),
{
    if gs.len() > 0 {
        lemma_category_sum(ts, gs.drop_last(), k);
        lemma_tally_silent(ts, gs.last());
        let p = categories_of(ts, gs.drop_last());
        let all = categories_of(ts, gs);
        if tally(ts, gs.last()).2 > 0 {
            assert(all.drop_last() == p);
        } else {
            assert(all == p);
        }
    }
}

proof fn lemma_term_sums(ts: Seq<TermView>)
    ensures
        term_sum(ts, 2) == ts.len(),
        term_sum(ts, 3) == earned_weight_of(ts),
        term_sum(ts, 4) == weight_sum(ts),
    decreases ts.len(),
{
    if ts.len() > 0 {
        lemma_term_sums(ts.drop_last());
    }
}

/// Every group a ledger term can come from is one of the report's categories.
pub open spec fn grouped(cs: Seq<CandView>) -> bool {
    forall|i: int| 0 <= i < cs.len() ==> category_names().contains(#[trigger] cs[i].group)
}

proof fn lemma_names()
    ensures
        category_names().no_duplicates(),
        category_names().len() == 6,
        category_names()[0] == "required"@,
        category_names()[1] == "core"@,
        category_names()[2] == "tools"@,
        category_names()[3] == "responsibilities"@,
        category_names()[4] == "preferred"@,
        category_names()[5] == "domain"@,
{
    let n = category_names();
    reveal_strlit("required");
    reveal_strlit("core");
    reveal_strlit("tools");
    reveal_strlit("responsibilities");
    reveal_strlit("preferred");
    reveal_strlit("domain");
    assert(n[0] == "required"@);
    assert(n[1] == "core"@);
    assert(n[2] == "tools"@);
    assert(n[3] == "responsibilities"@);
    assert(n[4] == "preferred"@);
    assert(n[5] == "domain"@);
    assert(n[0][2] != n[3][2]);
    assert forall|i: int, j: int| 0 <= i < j < n.len() implies n[i] != n[j] by {
        if i == 0 && j == 3 {
            assert(n[i][2] != n[j][2]);
        } else {
            assert(n[i][0] != n[j][0]);
        }
    }
}

proof fn lemma_grouped_concat(a: Seq<CandView>, b: Seq<CandView>)
    requires
        grouped(a),
        grouped(b),
    ensures
        grouped(a + b),
{
    assert forall|i: int| 0 <= i < (a + b).len() implies category_names().contains(#[trigger] (a + b)[i].group) by {
        if i < a.len() {
            assert((a + b)[i] == a[i]);
        } else {
            assert((a + b)[i] == b[i - a.len()]);
        }
    }
}

proof fn lemma_grouped_listed(terms: Seq<String>, base_kind: Seq<char>, infer: bool, importance: u8, g: Seq<char>)
    requires
        category_names().contains(g),
    ensures
        grouped(listed_cands(terms, base_kind, infer, importance, g)),
{
}

proof fn lemma_grouped_consolidate(cs: Seq<CandView>)
    requires
        grouped(cs),
    ensures
        grouped(consolidate(cs)),
    decreases cs.len(),
{
    if cs.len() > 0 {
        let front = cs.drop_last();
        assert(grouped(front)) by {
            assert forall|i: int| 0 <= i < front.len() implies category_names().contains(#[trigger] front[i].group) by {
                assert(front[i] == cs[i]);
            }
        }
        lemma_grouped_consolidate(front);
        let c = cs.last();
        assert(category_names().contains(cs[cs.len() - 1].group));
        let prev = consolidate(front);
        let k = first_equiv(prev, c.term);
        lemma_first_equiv_bound(prev, c.term);
        let r = consolidate(cs);
        if k < prev.len() {
            let m = merge_into(prev[k], c);
            assert(category_names().contains(prev[k].group));
            assert(category_names().contains(m.group));
            assert(r == prev.update(k, m));
            assert forall|i: int| 0 <= i < r.len() implies category_names().contains(#[trigger] r[i].group) by {
                if i != k {
                    assert(r[i] == prev[i]);
                }
            }
        } else {
            assert(r == prev.push(c));
            assert forall|i: int| 0 <= i < r.len() implies category_names().contains(#[trigger] r[i].group) by {
                if i < prev.len() {
                    assert(r[i] == prev[i]);
                }
            }
        }
    }
}

proof fn lemma_ledger_grouped(a: JobAnalysis)
    ensures
        grouped(ledger(a)),
{
    lemma_names();
    let n = category_names();
    assert(n.contains("core"@)) by { assert(n[1] == "core"@); }
    assert(n.contains("required"@)) by { assert(n[0] == "required"@); }
    assert(n.contains("preferred"@)) by { assert(n[4] == "preferred"@); }
    assert(n.contains("tools"@)) by { assert(n[2] == "tools"@); }
    assert(n.contains("domain"@)) by { assert(n[5] == "domain"@); }
    assert(n.contains("responsibilities"@)) by { assert(n[3] == "responsibilities"@); }
    let core = a.core_keywords@.map_values(|s: KeywordSignal| core_cand(s));
    assert(grouped(core));
    let l1 = listed_cands(a.required_skills@, "technology"@, true, 5, "required"@);
    let l2 = listed_cands(a.preferred_skills@, "technology"@, true, 3, "preferred"@);
    let l3 = listed_cands(a.tools_and_platforms@, "technology"@, false, 4, "tools"@);
    let l4 = listed_cands(a.domain_terms@, "method_domain"@, false, 3, "domain"@);
    let l5 = listed_cands(a.responsibility_phrases@, "responsibility"@, false, 4, "responsibilities"@);
    lemma_grouped_listed(a.required_skills@, "technology"@, true, 5, "required"@);
    lemma_grouped_listed(a.preferred_skills@, "technology"@, true, 3, "preferred"@);
    lemma_grouped_listed(a.tools_and_platforms@, "technology"@, false, 4, "tools"@);
    lemma_grouped_listed(a.domain_terms@, "method_domain"@, false, 3, "domain"@);
    lemma_grouped_listed(a.responsibility_phrases@, "responsibility"@, false, 4, "responsibilities"@);
    lemma_grouped_concat(core, l1);
    lemma_grouped_concat(core + l1, l2);
    lemma_grouped_concat(core + l1 + l2, l3);
    lemma_grouped_concat(core + l1 + l2 + l3, l4);
    lemma_grouped_concat(core + l1 + l2 + l3 + l4, l5);
    assert(raw_candidates(a) == core + l1 + l2 + l3 + l4 + l5);
    lemma_grouped_consolidate(raw_candidates(a));
}

/// The categories of a coverage report add up to the report: their covered weights sum to the
/// report's covered weight, their total weights to its total weight, and their term counts to
/// its number of terms. Each term lands in exactly one category, and a category earns exactly
/// what its terms earn.
pub proof fn lemma_categories_add_up(
    a: JobAnalysis,
    content: JsonView,
    locked: Option<JsonView>,
    items: Seq<ItemView>,
)
    ensures
        ({
            let c = coverage_of(a, content, locked, items);
            &&& categories_covered_weight(c.categories) == c.covered_weight
            &&& categories_total_weight(c.categories) == c.total_weight
            &&& categories_term_count(c.categories) == c.terms.len()
        }),
{
    let c = coverage_of(a, content, locked, items);
    let rs = regions_of(content, locked);
    let cs = ledger(a);
    let ts = ledger_terms(cs, a, rs, items);
    let n = category_names();
    lemma_names();
    lemma_ledger_grouped(a);
    assert forall|i: int| 0 <= i < ts.len() implies n.contains(#[trigger] ts[i].group) by {
        assert(ts[i].group == cs[i].group);
    }
    lemma_ledger_weights(cs, a, rs, items);
    lemma_insertion_sorted_len(ts, term_order());
    lemma_term_sums(ts);
    lemma_category_sum(insertion_sorted(ts, term_order()), n, 2);
    lemma_category_sum(insertion_sorted(ts, term_order()), n, 3);
    lemma_category_sum(insertion_sorted(ts, term_order()), n, 4);
    lemma_group_sum_sorted(ts, n, 2);
    lemma_group_sum_sorted(ts, n, 3);
    lemma_group_sum_sorted(ts, n, 4);
    lemma_group_sum_whole(ts, n, 2);
    lemma_group_sum_whole(ts, n, 3);
    lemma_group_sum_whole(ts, n, 4);
}

/// The weight earned at ratio `r` is `w * r.0 / r.1` rounded to the nearest whole unit, with
/// halves rounded up.
pub proof fn lemma_earned_rounds(w: nat, r: (nat, nat))
    requires
        r.1 > 0,
    ensures
        2 * r.1 * earned(w, r) <= 2 * w * r.0 + r.1,
        2 * w * r.0 + r.1 < 2 * r.1 * (earned(w, r) + 1),
{
    let n = 2 * w * r.0 + r.1;
    let d = 2 * r.1;
    assert(earned(w, r) == n / d);
    vstd::arithmetic::div_mod::lemma_fundamental_div_mod(n as int, d as int);
    assert(d * (n / d) + n % d == n);
    assert(0 <= n % d < d) by {
        vstd::arithmetic::div_mod::lemma_mod_bound(n as int, d as int);
    }
    assert(d * (n / d + 1) == d * (n / d) + d) by (nonlinear_arith);
}

/// The weight the terms of group `g` earn: each term's weight times its coverage ratio,
/// rounded as `lemma_earned_rounds` states.
pub open spec fn group_earned(ts: Seq<TermView>, g: Seq<char>) -> nat
    decreases ts.len(),
{
    if ts.len() == 0 {
        0
    } else {
        group_earned(ts.drop_last(), g) + if ts.last().group == g {
            earned(ts.last().weight as nat, ts.last().ratio)
        } else {
            0
        }
    }
}

/// The weight of the terms of group `g`.
pub open spec fn group_weight(ts: Seq<TermView>, g: Seq<char>) -> nat
    decreases ts.len(),
{
    if ts.len() == 0 {
        0
    } else {
        group_weight(ts.drop_last(), g) + if ts.last().group == g {
            ts.last().weight as nat
        } else {
            0
        }
    }
}

/// How many of the terms belong to group `g`.
pub open spec fn group_count(ts: Seq<TermView>, g: Seq<char>) -> nat
    decreases ts.len(),
{
    if ts.len() == 0 {
        0
    } else {
        group_count(ts.drop_last(), g) + if ts.last().group == g {
            1nat
        } else {
            0nat
        }
    }
}

proof fn lemma_tally_groups(ts: Seq<TermView>, g: Seq<char>)
    ensures
        tally(ts, g).2 == group_count(ts, g),
        tally(ts, g).3 == group_earned(ts, g),
        tally(ts, g).4 == group_weight(ts, g),
    decreases ts.len(),
{
    if ts.len() > 0 {
        lemma_tally_groups(ts.drop_last(), g);
    }
}

proof fn lemma_categories_groups(ts: Seq<TermView>, gs: Seq<Seq<char>>)
    ensures
        forall|i: int|
            0 <= i < categories_of(ts, gs).len() ==> ({
                let c = #[trigger] categories_of(ts, gs)[i];
                &&& c.total == group_count(ts, c.group)
                &&& c.covered_weight == group_earned(ts, c.group)
                &&& c.total_weight == group_weight(ts, c.group)
            }),
    decreases gs.len(),
{
    if gs.len() > 0 {
        lemma_categories_groups(ts, gs.drop_last());
        lemma_tally_groups(ts, gs.last());
        let p = categories_of(ts, gs.drop_last());
        let all = categories_of(ts, gs);
        assert forall|i: int| 0 <= i < all.len() implies ({
            let c = #[trigger] all[i];
            &&& c.total == group_count(ts, c.group)
            &&& c.covered_weight == group_earned(ts, c.group)
            &&& c.total_weight == group_weight(ts, c.group)
        }) by {
            if i < p.len() {
                assert(all[i] == p[i]);
            }
        }
    }
}

/// Each category of a coverage report counts the report's terms of its group, and its covered
/// and total weights are what those terms earn and weigh.
pub proof fn lemma_category_is_its_terms(
    a: JobAnalysis,
    content: JsonView,
    locked: Option<JsonView>,
    items: Seq<ItemView>,
)
    ensures
        ({
            let r = coverage_of(a, content, locked, items);
            forall|i: int|
                0 <= i < r.categories.len() ==> ({
                    let c = #[trigger] r.categories[i];
                    &&& c.total == group_count(r.terms, c.group)
                    &&& c.covered_weight == group_earned(r.terms, c.group)
                    &&& c.total_weight == group_weight(r.terms, c.group)
                })
        }),
{
    let r = coverage_of(a, content, locked, items);
    lemma_categories_groups(r.terms, category_names());
}

/// No category of a coverage report claims weight it did not earn: a category in which the
/// document carries no term, not even in part, has a covered weight of zero.
pub proof fn lemma_silent_category_earns_nothing(
    a: JobAnalysis,
    content: JsonView,
    locked: Option<JsonView>,
    items: Seq<ItemView>,
)
    ensures
        forall|i: int|
            0 <= i < coverage_of(a, content, locked, items).categories.len() ==> ({
                let c = #[trigger] coverage_of(a, content, locked, items).categories[i];
                c.covered == 0 && c.partial == 0 ==> c.covered_weight == 0
            }),
{
    let c = coverage_of(a, content, locked, items);
    lemma_categories_silent(c.terms, category_names());
}

} // verus!
