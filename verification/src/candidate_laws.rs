//! What the analysis ledger holds when no two listed terms name the same thing.

use vstd::prelude::*;
use crate::analysis::JobAnalysis;
use crate::evidence::{
    consolidate, equivalent_terms, first_equiv, ledger, lemma_first_equiv_bound, raw_candidates,
    CandView,
};
use crate::text::trimmed;

verus! {

/// The entries of `cs` from `start` on stand for `terms` one by one, each trimmed, with the
/// given importance and group.
pub open spec fn drawn_from(
    cs: Seq<CandView>,
    start: int,
    terms: Seq<String>,
    importance: u8,
    group: Seq<char>,
) -> bool {
    forall|i: int|
        0 <= i < terms.len() ==> {
            &&& (#[trigger] cs[start + i]).term == trimmed(terms[i]@)
            &&& cs[start + i].importance == importance
            &&& cs[start + i].group == group
        }
}

/// No entry of `cs` is equivalent to a later one.
pub open spec fn pairwise_distinct_terms(cs: Seq<CandView>) -> bool {
    forall|i: int, j: int|
        0 <= i < j < cs.len() ==> !equivalent_terms(#[trigger] cs[i].term, #[trigger] cs[j].term)
}

proof fn lemma_consolidate_distinct(cs: Seq<CandView>)
    requires
        pairwise_distinct_terms(cs),
    ensures
        consolidate(cs) == cs,
    decreases cs.len(),
{
    if cs.len() > 0 {
        let prev = cs.drop_last();
        assert(pairwise_distinct_terms(prev));
        lemma_consolidate_distinct(prev);
        lemma_first_equiv_bound(prev, cs.last().term);
        if first_equiv(prev, cs.last().term) < prev.len() {
            let k = first_equiv(prev, cs.last().term);
            assert(equivalent_terms(cs[k].term, cs[cs.len() - 1].term));
        }
        assert(prev.push(cs.last()) =~= cs);
    }
}

/// Where no listed term is equivalent to another, the ledger keeps every term once, in the
/// order the lists are read: the core keywords with their own importance and group `core`,
/// then required skills (importance 5), preferred skills (3), tools and platforms (4), domain
/// terms (3) and responsibility phrases (4), each trimmed and under its list's group.
pub proof fn lemma_distinct_ledger(a: JobAnalysis)
    requires
        pairwise_distinct_terms(raw_candidates(a)),
    ensures
        ledger(a) == raw_candidates(a),
        ({
            let cs = ledger(a);
            let n1 = a.core_keywords@.len() as int;
            let n2 = n1 + a.required_skills@.len();
            let n3 = n2 + a.preferred_skills@.len();
            let n4 = n3 + a.tools_and_platforms@.len();
            let n5 = n4 + a.domain_terms@.len();
            &&& cs.len() == n5 + a.responsibility_phrases@.len()
            &&& forall|i: int|
                0 <= i < n1 ==> {
                    &&& (#[trigger] cs[i]).term == a.core_keywords@[i].term@
                    &&& cs[i].importance == a.core_keywords@[i].importance
                    &&& cs[i].group == "core"@
                }
            &&& drawn_from(cs, n1, a.required_skills@, 5, "required"@)
            &&& drawn_from(cs, n2, a.preferred_skills@, 3, "preferred"@)
            &&& drawn_from(cs, n3, a.tools_and_platforms@, 4, "tools"@)
            &&& drawn_from(cs, n4, a.domain_terms@, 3, "domain"@)
            &&& drawn_from(cs, n5, a.responsibility_phrases@, 4, "responsibilities"@)
        }),
{
    lemma_consolidate_distinct(raw_candidates(a));
}

} // verus!
