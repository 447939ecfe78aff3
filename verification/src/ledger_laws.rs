//! Laws of the preflight listing and of the coverage score, stated over the whole ledger.

use vstd::prelude::*;
use crate::analysis::JobAnalysis;
use crate::ats::{
    coverage_of, evidence_available, ledger_terms, lemma_best_ratio_proper, lemma_form_sets_nonempty,
    lemma_term_before_transitive, matchable, percent, pool, proper, regions_of, term_before,
    term_coverage_of, term_forms, term_order, total_weight_of, weight_of, MissReason, TermView,
};
use crate::bank::EntryView;
use crate::evidence::{is_generic, is_specific, is_title, ledger, normalized, CandView};
use crate::json::{strings_in, JsonView};
use crate::preflight::{
    classified, classified_all, needs_confirmation, in_listing_order, lemma_preflight_listing, lemma_sorted_len,
    preflight_view, ItemView,
};
use crate::search::{
    first_where, in_order, insertion_sorted, lemma_first_where, lemma_insertion_sorted_in_order,
    lemma_insertion_sorted_len, precedes,
};
use crate::text::trimmed;

verus! {

broadcast use vstd::seq_lib::group_seq_properties;

/// How many ledger terms have a non-blank label.
pub open spec fn labelled_count(cs: Seq<CandView>) -> nat
    decreases cs.len(),
{
    if cs.len() == 0 {
        0
    } else {
        labelled_count(cs.drop_last()) + if trimmed(cs.last().term).len() > 0 {
            1nat
        } else {
            0nat
        }
    }
}

/// What every preflight item obeys: a term the base resume supports is available, and an item
/// is eligible for bullets exactly when the base resume supports it, it carries a proof note,
/// or the user allowed role placement.
pub open spec fn item_rules(x: ItemView) -> bool {
    &&& x.source == "base_resume"@ ==> x.resolution == "auto_available"@
    &&& x.eligible_for_bullets == (x.source == "base_resume"@ || x.note is Some
        || x.allow_model_role_placement)
}

proof fn lemma_classified_rules(
    cs: Seq<CandView>,
    strings: Seq<Seq<char>>,
    bank: Seq<EntryView>,
    role_target: Seq<char>,
)
    ensures
        classified_all(cs, strings, bank, role_target).len() == labelled_count(cs),
        forall|j: int|
            0 <= j < classified_all(cs, strings, bank, role_target).len() ==> item_rules(
                #[trigger] classified_all(cs, strings, bank, role_target)[j],
            ),
    decreases cs.len(),
{
    if cs.len() > 0 {
        lemma_classified_rules(cs.drop_last(), strings, bank, role_target);
        let x = classified(cs.last(), strings, bank, role_target);
        reveal_strlit("base_resume");
        reveal_strlit("evidence_bank");
        reveal_strlit("needs_approval");
        assert("base_resume"@[0] != "evidence_bank"@[0]);
        assert("base_resume"@[0] != "needs_approval"@[0]);
        assert(item_rules(x));
    }
}

/// The preflight lists one item per labelled ledger term, questions first, then what is
/// available, then what is left out, each by importance then term; every item obeys
/// `item_rules`.
pub proof fn lemma_preflight_law(a: JobAnalysis, base: JsonView, bank: Seq<EntryView>)
    ensures
        in_listing_order(preflight_view(a, base, bank)),
        preflight_view(a, base, bank).len() == labelled_count(ledger(a)),
        forall|i: int|
            0 <= i < preflight_view(a, base, bank).len() ==> item_rules(
                #[trigger] preflight_view(a, base, bank)[i],
            ),
{
    let cl = classified_all(ledger(a), strings_in(base), bank, normalized(a.role_target@));
    let pv = preflight_view(a, base, bank);
    lemma_preflight_listing(a, base, bank);
    lemma_classified_rules(ledger(a), strings_in(base), bank, normalized(a.role_target@));
    lemma_sorted_len(cl);
    assert forall|i: int| 0 <= i < pv.len() implies item_rules(#[trigger] pv[i]) by {
        assert(pv.contains(pv[i]));
        assert(pv.to_multiset().count(pv[i]) > 0);
        assert(cl.to_multiset().count(pv[i]) > 0);
        assert(cl.contains(pv[i]));
        let j = choose|j: int| 0 <= j < cl.len() && cl[j] == pv[i];
        assert(item_rules(cl[j]));
    }
}

/// How the preflight resolves a term found neither in the base resume nor in the evidence
/// bank. A term weighted under 4, the role itself, a soft-skill phrase or a job title is left
/// out without asking. Otherwise the user is asked to confirm a technology, a method or
/// domain the post requires (weight 5), and a responsibility the post requires or that is
/// specific; anything else is left out.
pub open spec fn unsupported_rule(x: ItemView, role_target: Seq<char>) -> bool {
    x.source == "needs_approval"@ ==> {
        let asked = x.importance >= 4 && normalized(x.term) != role_target && !is_generic(x.term)
            && !is_title(x.term) && (x.kind == "technology"@ || (x.kind == "method_domain"@
            && x.importance == 5) || (x.kind == "responsibility"@ && (x.importance == 5
            || is_specific(x.term))));
        &&& asked ==> x.resolution == "confirmation_required"@
        &&& !asked ==> x.resolution == "auto_omitted"@
    }
}

proof fn lemma_classified_unsupported(
    cs: Seq<CandView>,
    strings: Seq<Seq<char>>,
    bank: Seq<EntryView>,
    role_target: Seq<char>,
)
    ensures
        forall|j: int|
            0 <= j < classified_all(cs, strings, bank, role_target).len() ==> unsupported_rule(
                #[trigger] classified_all(cs, strings, bank, role_target)[j],
                role_target,
            ),
    decreases cs.len(),
{
    if cs.len() > 0 {
        lemma_classified_unsupported(cs.drop_last(), strings, bank, role_target);
        let x = classified(cs.last(), strings, bank, role_target);
        reveal_strlit("base_resume");
        reveal_strlit("evidence_bank");
        reveal_strlit("needs_approval");
        assert("base_resume"@[0] != "needs_approval"@[0]);
        assert("evidence_bank"@[0] != "needs_approval"@[0]);
        reveal_strlit("technology");
        reveal_strlit("method_domain");
        reveal_strlit("responsibility");
        assert("technology"@[0] != "method_domain"@[0]);
        assert("technology"@[0] != "responsibility"@[0]);
        assert("method_domain"@[0] != "responsibility"@[0]);
        let c = cs.last();
        assert(x.term == c.term && x.kind == c.kind && x.importance == c.importance);
        if x.source == "needs_approval"@ {
            assert(x.resolution == if needs_confirmation(c, role_target) {
                "confirmation_required"@
            } else {
                "auto_omitted"@
            });
        }
        assert(unsupported_rule(x, role_target));
        let prev = classified_all(cs.drop_last(), strings, bank, role_target);
        let all = classified_all(cs, strings, bank, role_target);
        assert forall|j: int| 0 <= j < all.len() implies unsupported_rule(#[trigger] all[j], role_target) by {
            if j < prev.len() {
                assert(all[j] == prev[j]);
            } else {
                assert(all[j] == x);
            }
        }
    }
}

/// Every item of the preflight obeys `unsupported_rule` against the post's normalized role.
pub proof fn lemma_preflight_unsupported(a: JobAnalysis, base: JsonView, bank: Seq<EntryView>)
    ensures
        forall|i: int|
            0 <= i < preflight_view(a, base, bank).len() ==> unsupported_rule(
                #[trigger] preflight_view(a, base, bank)[i],
                normalized(a.role_target@),
            ),
{
    let role = normalized(a.role_target@);
    let cl = classified_all(ledger(a), strings_in(base), bank, role);
    let pv = preflight_view(a, base, bank);
    lemma_preflight_listing(a, base, bank);
    lemma_classified_unsupported(ledger(a), strings_in(base), bank, role);
    assert forall|i: int| 0 <= i < pv.len() implies unsupported_rule(#[trigger] pv[i], role) by {
        assert(pv.contains(pv[i]));
        assert(pv.to_multiset().count(pv[i]) > 0);
        assert(cl.to_multiset().count(pv[i]) > 0);
        assert(cl.contains(pv[i]));
        let j = choose|j: int| 0 <= j < cl.len() && cl[j] == pv[i];
        assert(unsupported_rule(cl[j], role));
    }
}

/// The sum of the weights of measured terms.
pub open spec fn weight_sum(ts: Seq<TermView>) -> nat
    decreases ts.len(),
{
    if ts.len() == 0 {
        0
    } else {
        weight_sum(ts.drop_last()) + ts.last().weight as nat
    }
}

proof fn lemma_weight_sum_insert(s: Seq<TermView>, i: int, x: TermView)
    requires
        0 <= i <= s.len(),
    ensures
        weight_sum(s.insert(i, x)) == weight_sum(s) + x.weight as nat,
    decreases s.len(),
{
    if i < s.len() {
        let t = s.drop_last();
        lemma_weight_sum_insert(t, i, x);
        assert(s.insert(i, x).drop_last() =~= t.insert(i, x));
        assert(s.insert(i, x).last() == s.last());
    } else {
        assert(s.insert(i, x) =~= s.push(x));
        assert(s.push(x).drop_last() =~= s);
    }
}

proof fn lemma_weight_sum_sorted(s: Seq<TermView>)
    ensures
        weight_sum(insertion_sorted(s, term_order())) == weight_sum(s),
    decreases s.len(),
{
    if s.len() > 0 {
        let p = insertion_sorted(s.drop_last(), term_order());
        lemma_weight_sum_sorted(s.drop_last());
        lemma_insertion_sorted_len(s.drop_last(), term_order());
        lemma_first_where(p, precedes(s.last(), term_order()));
        lemma_weight_sum_insert(p, first_where(p, precedes(s.last(), term_order())), s.last());
    }
}

pub(crate) proof fn lemma_ledger_weights(cs: Seq<CandView>, a: JobAnalysis, rs: Seq<crate::ats::RegionView>, items: Seq<ItemView>)
    ensures
        weight_sum(ledger_terms(cs, a, rs, items)) == total_weight_of(cs),
        ledger_terms(cs, a, rs, items).len() == cs.len(),
    decreases cs.len(),
{
    if cs.len() > 0 {
        lemma_ledger_weights(cs.drop_last(), a, rs, items);
        assert(ledger_terms(cs, a, rs, items).drop_last() =~= ledger_terms(cs.drop_last(), a, rs, items));
    }
}

/// What a measured term reports of a miss: a reason exactly when it is not covered, and
/// "evidence not placed" exactly when the preflight already found it available.
pub open spec fn miss_rule(t: TermView, items: Seq<ItemView>) -> bool {
    &&& (t.miss_reason is Some <==> !t.covered)
    &&& (t.miss_reason == Some(MissReason::EvidenceNotPlaced) <==> !t.covered && evidence_available(
        items,
        t.term,
    ))
}

/// The coverage score is the covered weight as a rounded percentage of the total weight; the
/// total is the sum of the measured terms' weights; every ledger term is measured once; each
/// term obeys `miss_rule`; and no covered term is listed before a missed one.
pub proof fn lemma_coverage_law(
    a: JobAnalysis,
    content: JsonView,
    locked: Option<JsonView>,
    items: Seq<ItemView>,
)
    ensures
        ({
            let c = coverage_of(a, content, locked, items);
            &&& c.score == percent(c.covered_weight, c.total_weight) as u8
            &&& c.total_weight == weight_sum(c.terms)
            &&& c.terms.len() == ledger(a).len()
            &&& forall|i: int| 0 <= i < c.terms.len() ==> miss_rule(#[trigger] c.terms[i], items)
            &&& forall|i: int, j: int|
                0 <= i < j < c.terms.len() ==> !(#[trigger] c.terms[i].covered && !(
                #[trigger] c.terms[j]).covered)
        }),
{
    let rs = regions_of(content, locked);
    let cs = ledger(a);
    let ts = ledger_terms(cs, a, rs, items);
    let c = coverage_of(a, content, locked, items);
    lemma_ledger_weights(cs, a, rs, items);
    lemma_weight_sum_sorted(ts);
    lemma_insertion_sorted_len(ts, term_order());
    let ok = |t: TermView| proper(t.ratio) && miss_rule(t, items);
    assert forall|i: int| 0 <= i < ts.len() implies ok(#[trigger] ts[i]) by {
        let cd = cs[i];
        lemma_form_sets_nonempty(matchable(a, cd.term));
        lemma_best_ratio_proper(term_forms(a, cd.term), pool(rs, false));
        assert(ts[i] == term_coverage_of(cd, a, rs, items));
    }
    assert forall|t: TermView| #[trigger] ok(t) implies !term_order()(t, t) by {
        crate::text::lemma_lex_less_irreflexive(t.term);
    }
    assert forall|x: TermView, y: TermView, z: TermView|
        ok(x) && ok(y) && ok(z) && #[trigger] term_order()(x, y) && #[trigger] term_order()(y, z)
            implies term_order()(x, z) by {
        lemma_term_before_transitive(x, y, z);
    }
    lemma_insertion_sorted_in_order(ts, term_order(), ok);
    assert(c.terms == insertion_sorted(ts, term_order()));
    assert forall|i: int| 0 <= i < c.terms.len() implies miss_rule(#[trigger] c.terms[i], items) by {
        assert(ok(c.terms[i]));
    }
    assert forall|i: int, j: int| 0 <= i < j < c.terms.len() implies !(#[trigger] c.terms[i].covered
        && !(#[trigger] c.terms[j]).covered) by {
        assert(!term_order()(c.terms[j], c.terms[i]));
    }
}

} // verus!
