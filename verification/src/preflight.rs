//! The evidence preflight: how each term a job post asks for is resolved against the base
//! resume and the saved evidence, the order the questions are put in, and which attested
//! entries reach the tailoring prompt.

use vstd::prelude::*;
use crate::text::{
    chars_eq, chars_of, lemma_lex_less_irreflexive, lemma_lex_less_transitive, lex_less,
    lex_less_exec, str_eq, strs, trimmed, trim_str,
};
use crate::json::{json_strings, strings_in, JsonView, Json};
use crate::analysis::JobAnalysis;
use crate::evidence::{
    analysis_candidates, cand_views, equivalent, equivalent_terms, inferred_kind, inferred_kind_of,
    is_generic, is_generic_trait, is_job_title, is_specific, is_specific_responsibility, is_title,
    ledger, normalize, normalized, placement_equivalent, placement_equivalent_terms,
    placement_set_of, placement_token_set, supports, text_supports, CandView, Candidate,
};
use crate::bank::{
    copy_note, entry_views, note_view, prompt_entries, selected_for_prompt, selection_views,
    EntryView, EvidenceBank, EvidenceEntry, SelectedEvidence,
};
use crate::search::{first_where, labels, lemma_first_where, lemma_first_where_at, lemma_labels_insert};
use crate::tokens::{count_common, lemma_tset_len, tset};

verus! {

broadcast use vstd::seq_lib::group_seq_properties;

/// How one term of the job post stands before tailoring.
#[derive(Clone, Debug)]
pub struct PreflightItem {
    pub term: String,
    pub kind: String,
    pub importance: u8,
    /// `base_resume`, `evidence_bank`, or `needs_approval`.
    pub source: &'static str,
    /// `auto_available`, `confirmation_required`, or `auto_omitted`.
    pub resolution: &'static str,
    pub resolution_reason: &'static str,
    pub matched_term: Option<String>,
    pub note: Option<String>,
    pub eligible_for_bullets: bool,
    pub allow_model_role_placement: bool,
}

pub struct ItemView {
    pub term: Seq<char>,
    pub kind: Seq<char>,
    pub importance: u8,
    pub source: Seq<char>,
    pub resolution: Seq<char>,
    pub resolution_reason: Seq<char>,
    pub matched_term: Option<Seq<char>>,
    pub note: Option<Seq<char>>,
    pub eligible_for_bullets: bool,
    pub allow_model_role_placement: bool,
}

impl View for PreflightItem {
    type V = ItemView;

    open spec fn view(&self) -> ItemView {
        ItemView {
            term: self.term@,
            kind: self.kind@,
            importance: self.importance,
            source: self.source@,
            resolution: self.resolution@,
            resolution_reason: self.resolution_reason@,
            matched_term: note_view(self.matched_term),
            note: note_view(self.note),
            eligible_for_bullets: self.eligible_for_bullets,
            allow_model_role_placement: self.allow_model_role_placement,
        }
    }
}

pub open spec fn item_views(v: Seq<PreflightItem>) -> Seq<ItemView> {
    v.map_values(|i: PreflightItem| i@)
}

// ------------------------------------------------------------------ classification

/// Whether an unsupported term is worth a question to the user: only important (4 or 5)
/// terms that are not the role itself, a soft-skill phrase or a job title; technologies always,
/// methods and domains when required, responsibilities when required or specific.
pub open spec fn needs_confirmation(c: CandView, role_target: Seq<char>) -> bool {
    if c.importance < 4 || normalized(c.term) == role_target {
        false
    } else if is_generic(c.term) || is_title(c.term) {
        false
    } else if c.kind == "technology"@ {
        true
    } else if c.kind == "method_domain"@ {
        c.importance == 5
    } else if c.kind == "responsibility"@ {
        c.importance == 5 || is_specific(c.term)
    } else {
        false
    }
}

/// `role_target` is the normalized role the post hires for.
pub fn requires_confirmation(candidate: &Candidate, role_target: &[char]) -> (r: bool)
    ensures
        r == needs_confirmation(candidate@, role_target@),
{
    if candidate.importance < 4 || chars_eq(&normalize(candidate.term.as_str()), role_target) {
        return false;
    }
    if is_generic_trait(candidate.term.as_str()) || is_job_title(candidate.term.as_str()) {
        return false;
    }
    let kind = candidate.kind.as_str();
    if str_eq(kind, "technology") {
        true
    } else if str_eq(kind, "method_domain") {
        candidate.importance == 5
    } else if str_eq(kind, "responsibility") {
        candidate.importance == 5 || is_specific_responsibility(candidate.term.as_str())
    } else {
        false
    }
}

/// The base-resume string that carries every token of `term`.
pub open spec fn supports_term(term: Seq<char>) -> spec_fn(Seq<char>) -> bool {
    |s: Seq<char>| supports(s, term)
}

/// A saved entry the user attested that names `term`, or that may be placed for it.
pub open spec fn banked_for(term: Seq<char>) -> spec_fn(EntryView) -> bool {
    |e: EntryView|
        e.user_attested && (equivalent_terms(e.term, term) || (e.allow_model_role_placement
            && placement_equivalent(e.term, term)))
}

/// The resolution of one ledger term: found in the base resume, found in the saved evidence,
/// worth a question, or quietly left out. A term is usable in bullets when the base resume
/// carries it, when a proof note backs it, or when the user allowed role placement for it.
pub open spec fn classified(
    c: CandView,
    strings: Seq<Seq<char>>,
    bank: Seq<EntryView>,
    role_target: Seq<char>,
) -> ItemView {
    let bi = first_where(strings, supports_term(c.term));
    let ei = first_where(bank, banked_for(c.term));
    let in_base = bi < strings.len();
    let in_bank = ei < bank.len();
    let allow = in_bank && bank[ei].allow_model_role_placement;
    let source = if in_base {
        "base_resume"@
    } else if in_bank {
        "evidence_bank"@
    } else {
        "needs_approval"@
    };
    let note = if !in_base && in_bank {
        bank[ei].note
    } else {
        None
    };
    ItemView {
        term: c.term,
        kind: c.kind,
        importance: c.importance,
        source,
        resolution: if in_base || in_bank {
            "auto_available"@
        } else if needs_confirmation(c, role_target) {
            "confirmation_required"@
        } else {
            "auto_omitted"@
        },
        resolution_reason: if in_base {
            "Supported by the base resume"@
        } else if in_bank {
            "Previously confirmed in saved evidence"@
        } else if needs_confirmation(c, role_target) {
            "Important factual claim not found in existing evidence"@
        } else {
            "Low-value, generic, or unsupported signal"@
        },
        matched_term: if in_base {
            Some(strings[bi])
        } else if in_bank {
            Some(bank[ei].term)
        } else {
            None
        },
        note,
        eligible_for_bullets: in_base || note is Some || allow,
        allow_model_role_placement: allow,
    }
}

/// Every ledger term with a non-blank label, classified, in ledger order.
pub open spec fn classified_all(
    cs: Seq<CandView>,
    strings: Seq<Seq<char>>,
    bank: Seq<EntryView>,
    role_target: Seq<char>,
) -> Seq<ItemView>
    decreases cs.len(),
{
    if cs.len() == 0 {
        seq![]
    } else if trimmed(cs.last().term).len() > 0 {
        classified_all(cs.drop_last(), strings, bank, role_target).push(
            classified(cs.last(), strings, bank, role_target),
        )
    } else {
        classified_all(cs.drop_last(), strings, bank, role_target)
    }
}

// ---------------------------------------------------------------------- ordering

pub open spec fn resolution_order(resolution: Seq<char>) -> int {
    if resolution == "confirmation_required"@ {
        0
    } else if resolution == "auto_available"@ {
        1
    } else {
        2
    }
}

pub fn resolution_rank(resolution: &str) -> (r: u8)
    ensures
        r == resolution_order(resolution@),
{
    if str_eq(resolution, "confirmation_required") {
        0
    } else if str_eq(resolution, "auto_available") {
        1
    } else {
        2
    }
}

/// `a` is listed before `b`: questions first, then what is already available, then what is
/// left out; within each, higher importance first, then the term in string order.
pub open spec fn item_before(a: ItemView, b: ItemView) -> bool {
    resolution_order(a.resolution) < resolution_order(b.resolution) || (resolution_order(
        a.resolution,
    ) == resolution_order(b.resolution) && (a.importance > b.importance || (a.importance
        == b.importance && lex_less(a.term, b.term))))
}

pub open spec fn goes_before(x: ItemView) -> spec_fn(ItemView) -> bool {
    |y: ItemView| item_before(x, y)
}

/// A stable sort by `item_before`: each item is placed after every earlier item it does not
/// strictly precede.
pub open spec fn sorted_items(s: Seq<ItemView>) -> Seq<ItemView>
    decreases s.len(),
{
    if s.len() == 0 {
        s
    } else {
        let p = sorted_items(s.drop_last());
        p.insert(first_where(p, goes_before(s.last())), s.last())
    }
}

pub proof fn lemma_sorted_len(s: Seq<ItemView>)
    ensures
        sorted_items(s).len() == s.len(),
    decreases s.len(),
{
    if s.len() > 0 {
        lemma_sorted_len(s.drop_last());
        lemma_first_where(sorted_items(s.drop_last()), goes_before(s.last()));
    }
}

/// No later item comes strictly before an earlier one.
pub open spec fn in_listing_order(s: Seq<ItemView>) -> bool {
    forall|i: int, j: int| 0 <= i < j < s.len() ==> !item_before(#[trigger] s[j], #[trigger] s[i])
}

proof fn lemma_item_before_irreflexive(a: ItemView)
    ensures
        !item_before(a, a),
{
    lemma_lex_less_irreflexive(a.term);
}

proof fn lemma_item_before_transitive(a: ItemView, b: ItemView, c: ItemView)
    requires
        item_before(a, b),
        item_before(b, c),
    ensures
        item_before(a, c),
{
    if resolution_order(a.resolution) == resolution_order(b.resolution) && resolution_order(
        b.resolution,
    ) == resolution_order(c.resolution) && a.importance == b.importance && b.importance
        == c.importance {
        lemma_lex_less_transitive(a.term, b.term, c.term);
    }
}

/// The listing is a stable sort: it holds exactly the items given, and in listing order.
pub proof fn lemma_sorted_items(s: Seq<ItemView>)
    ensures
        in_listing_order(sorted_items(s)),
        sorted_items(s).to_multiset() == s.to_multiset(),
    decreases s.len(),
{
    broadcast use vstd::seq_lib::to_multiset_insert, vstd::seq_lib::to_multiset_build;

    if s.len() > 0 {
        let p = sorted_items(s.drop_last());
        lemma_sorted_items(s.drop_last());
        lemma_sorted_len(s.drop_last());
        let x = s.last();
        let i = first_where(p, goes_before(x));
        lemma_first_where(p, goes_before(x));
        let r = p.insert(i, x);
        assert(sorted_items(s) == r);
        assert forall|a: int, b: int| 0 <= a < b < r.len() implies !item_before(
            #[trigger] r[b],
            #[trigger] r[a],
        ) by {
            if b < i {
                assert(r[a] == p[a] && r[b] == p[b]);
            } else if b == i {
                assert(r[a] == p[a] && r[b] == x);
                assert(!goes_before(x)(p[a]));
            } else if a < i {
                assert(r[a] == p[a] && r[b] == p[b - 1]);
            } else if a == i {
                assert(r[a] == x && r[b] == p[b - 1]);
                assert(goes_before(x)(p[i]));
                if item_before(p[b - 1], x) {
                    lemma_item_before_transitive(p[b - 1], x, p[i]);
                    if i == b - 1 {
                        lemma_item_before_irreflexive(p[i]);
                    } else {
                        assert(!item_before(p[b - 1], p[i]));
                    }
                }
            } else {
                assert(r[a] == p[a - 1] && r[b] == p[b - 1]);
            }
        }
        assert(s == s.drop_last().push(x));
    }
}

/// The preflight lists every classified term exactly once, questions first, then what is
/// already available, then what is left out; within each, higher importance first, then by
/// term.
pub proof fn lemma_preflight_listing(a: JobAnalysis, base: JsonView, bank: Seq<EntryView>)
    ensures
        in_listing_order(preflight_view(a, base, bank)),
        preflight_view(a, base, bank).to_multiset() == classified_all(
            ledger(a),
            strings_in(base),
            bank,
            normalized(a.role_target@),
        ).to_multiset(),
{
    lemma_sorted_items(classified_all(ledger(a), strings_in(base), bank, normalized(a.role_target@)));
}

/// The label of a preflight item: its term.
pub open spec fn item_term() -> spec_fn(ItemView) -> Seq<char> {
    |i: ItemView| i.term
}

/// The label of a ledger candidate: its term.
pub open spec fn cand_term() -> spec_fn(CandView) -> Seq<char> {
    |c: CandView| c.term
}

pub proof fn lemma_sorted_item_terms(s: Seq<ItemView>)
    ensures
        labels(sorted_items(s), item_term()) == labels(s, item_term()),
    decreases s.len(),
{
    if s.len() > 0 {
        let p = sorted_items(s.drop_last());
        lemma_sorted_item_terms(s.drop_last());
        lemma_sorted_len(s.drop_last());
        lemma_first_where(p, goes_before(s.last()));
        lemma_labels_insert(p, first_where(p, goes_before(s.last())), s.last(), item_term());
        assert(p.push(s.last()).drop_last() =~= p);
    }
}

pub proof fn lemma_classified_terms(
    cs: Seq<CandView>,
    strings: Seq<Seq<char>>,
    bank: Seq<EntryView>,
    role_target: Seq<char>,
)
    ensures
        labels(classified_all(cs, strings, bank, role_target), item_term()) == labels(cs, cand_term()),
    decreases cs.len(),
{
    if cs.len() > 0 {
        lemma_classified_terms(cs.drop_last(), strings, bank, role_target);
        let rest = classified_all(cs.drop_last(), strings, bank, role_target);
        assert(rest.push(classified(cs.last(), strings, bank, role_target)).drop_last() =~= rest);
    }
}

/// The preflight lists each labelled ledger term as often as the ledger holds it.
pub proof fn lemma_preflight_terms(a: JobAnalysis, base: JsonView, bank: Seq<EntryView>)
    ensures
        labels(preflight_view(a, base, bank), item_term()) == labels(ledger(a), cand_term()),
{
    let cl = classified_all(ledger(a), strings_in(base), bank, normalized(a.role_target@));
    lemma_sorted_item_terms(cl);
    lemma_classified_terms(ledger(a), strings_in(base), bank, normalized(a.role_target@));
}

fn item_precedes(a: &PreflightItem, b: &PreflightItem) -> (r: bool)
    ensures
        r == item_before(a@, b@),
{
    let ra = resolution_rank(a.resolution);
    let rb = resolution_rank(b.resolution);
    if ra != rb {
        return ra < rb;
    }
    if a.importance != b.importance {
        return a.importance > b.importance;
    }
    lex_less_exec(&chars_of(a.term.as_str()), &chars_of(b.term.as_str()))
}

fn insertion_point(out: &Vec<PreflightItem>, item: &PreflightItem) -> (r: usize)
    ensures
        r == first_where(item_views(out@), goes_before(item@)),
{
    let ghost p = goes_before(item@);
    let ghost vs = item_views(out@);
    let mut k: usize = 0;
    while k < out.len()
        invariant
            k <= out@.len(),
            vs == item_views(out@),
            p == goes_before(item@),
            forall|j: int| 0 <= j < k ==> !p(#[trigger] vs[j]),
        decreases out@.len() - k,
    {
        if item_precedes(item, &out[k]) {
            proof {
                lemma_first_where_at(vs, p, k as int);
            }
            return k;
        }
        k += 1;
    }
    proof {
        lemma_first_where_at(vs, p, k as int);
    }
    k
}

/// Puts `item` into the sorted list at the place `sorted_items` gives it.
fn insert_in_order(out: &mut Vec<PreflightItem>, item: PreflightItem)
    ensures
        item_views(final(out)@) == item_views(old(out)@).insert(
            first_where(item_views(old(out)@), goes_before(item@)),
            item@,
        ),
{
    let ghost vs = item_views(out@);
    let k = insertion_point(out, &item);
    proof {
        lemma_first_where(vs, goes_before(item@));
    }
    let ghost x = item@;
    out.insert(k, item);
    assert(item_views(out@) =~= vs.insert(k as int, x));
}

// ------------------------------------------------------------------------ preflight

/// What the preflight shows for an analysis, a base resume and a bank.
pub open spec fn preflight_view(a: JobAnalysis, base: JsonView, bank: Seq<EntryView>) -> Seq<
    ItemView,
> {
    sorted_items(classified_all(ledger(a), strings_in(base), bank, normalized(a.role_target@)))
}

fn first_supporting(strings: &Vec<String>, term: &str) -> (r: usize)
    ensures
        r == first_where(strs(strings@), supports_term(term@)),
{
    let ghost p = supports_term(term@);
    let ghost ss = strs(strings@);
    let mut j: usize = 0;
    while j < strings.len()
        invariant
            j <= strings@.len(),
            ss == strs(strings@),
            p == supports_term(term@),
            forall|k: int| 0 <= k < j ==> !p(#[trigger] ss[k]),
        decreases strings@.len() - j,
    {
        if text_supports(strings[j].as_str(), term) {
            proof {
                lemma_first_where_at(ss, p, j as int);
            }
            return j;
        }
        j += 1;
    }
    proof {
        lemma_first_where_at(ss, p, j as int);
    }
    j
}

fn first_banked(entries: &Vec<EvidenceEntry>, term: &str) -> (r: usize)
    ensures
        r == first_where(entry_views(entries@), banked_for(term@)),
{
    let ghost p = banked_for(term@);
    let ghost es = entry_views(entries@);
    let mut j: usize = 0;
    while j < entries.len()
        invariant
            j <= entries@.len(),
            es == entry_views(entries@),
            p == banked_for(term@),
            forall|k: int| 0 <= k < j ==> !p(#[trigger] es[k]),
        decreases entries@.len() - j,
    {
        let e = &entries[j];
        if e.user_attested && (equivalent(e.term.as_str(), term) || (e.allow_model_role_placement
            && placement_equivalent_terms(e.term.as_str(), term))) {
            proof {
                lemma_first_where_at(es, p, j as int);
            }
            return j;
        }
        j += 1;
    }
    proof {
        lemma_first_where_at(es, p, j as int);
    }
    j
}

fn classify(
    c: &Candidate,
    strings: &Vec<String>,
    bank: &EvidenceBank,
    role_target: &[char],
) -> (r: PreflightItem)
    ensures
        r@ == classified(c@, strs(strings@), entry_views(bank.entries@), role_target@),
{
    let term = c.term.as_str();
    let bi = first_supporting(strings, term);
    let ei = first_banked(&bank.entries, term);
    proof {
        lemma_first_where(strs(strings@), supports_term(term@));
        lemma_first_where(entry_views(bank.entries@), banked_for(term@));
    }
    let in_base = bi < strings.len();
    let in_bank = ei < bank.entries.len();
    let allow = in_bank && bank.entries[ei].allow_model_role_placement;
    let confirm = requires_confirmation(c, role_target);
    let source = if in_base {
        "base_resume"
    } else if in_bank {
        "evidence_bank"
    } else {
        "needs_approval"
    };
    let resolution = if in_base || in_bank {
        "auto_available"
    } else if confirm {
        "confirmation_required"
    } else {
        "auto_omitted"
    };
    let reason = if in_base {
        "Supported by the base resume"
    } else if in_bank {
        "Previously confirmed in saved evidence"
    } else if confirm {
        "Important factual claim not found in existing evidence"
    } else {
        "Low-value, generic, or unsupported signal"
    };
    let matched = if in_base {
        Some(strings[bi].clone())
    } else if in_bank {
        Some(bank.entries[ei].term.clone())
    } else {
        None
    };
    let note = if !in_base && in_bank {
        copy_note(&bank.entries[ei].note)
    } else {
        None
    };
    let has_note = note.is_some();
    PreflightItem {
        term: c.term.clone(),
        kind: c.kind.clone(),
        importance: c.importance,
        source,
        resolution,
        resolution_reason: reason,
        matched_term: matched,
        note,
        eligible_for_bullets: in_base || has_note || allow,
        allow_model_role_placement: allow,
    }
}

/// Resolves every term of the analysis ledger against the base resume's strings and the
/// attested bank entries, and lists them questions first, then by importance, then by term.
/// Terms with a blank label are left out.
pub fn preflight_items(analysis: &JobAnalysis, base_resume: &Json, bank: &EvidenceBank) -> (r: Vec<
    PreflightItem,
>)
    ensures
        item_views(r@) == preflight_view(*analysis, base_resume@, entry_views(bank.entries@)),
{
    let candidates = analysis_candidates(analysis);
    let strings = json_strings(base_resume);
    let role_target = normalize(analysis.role_target.as_str());
    let ghost cs = cand_views(candidates@);
    let ghost ss = strs(strings@);
    let ghost bs = entry_views(bank.entries@);
    let mut out: Vec<PreflightItem> = Vec::new();
    let mut i: usize = 0;
    while i < candidates.len()
        invariant
            i <= candidates@.len(),
            cs == cand_views(candidates@),
            ss == strs(strings@),
            bs == entry_views(bank.entries@),
            item_views(out@) == sorted_items(classified_all(cs.take(i as int), ss, bs, role_target@)),
        decreases candidates@.len() - i,
    {
        let c = &candidates[i];
        let ghost prefix = cs.take(i + 1);
        assert(prefix.drop_last() =~= cs.take(i as int));
        assert(prefix.last() == c@);
        if trim_str(c.term.as_str()).len() > 0 {
            let item = classify(c, &strings, bank, &role_target);
            let ghost prev = classified_all(cs.take(i as int), ss, bs, role_target@);
            assert(classified_all(prefix, ss, bs, role_target@).drop_last() =~= prev);
            insert_in_order(&mut out, item);
        }
        i += 1;
    }
    assert(cs.take(i as int) =~= cs);
    out
}

// ----------------------------------------------------------- evidence for the prompt

/// The first saved entry naming `term`.
pub open spec fn names_term(term: Seq<char>) -> spec_fn(EntryView) -> bool {
    |e: EntryView| equivalent_terms(e.term, term)
}

/// The saved entries the preflight resolved from the bank, in preflight order: for each
/// `evidence_bank` item, the first entry naming its matched term.
pub open spec fn banked_part(items: Seq<ItemView>, bank: Seq<EntryView>) -> Seq<EntryView>
    decreases items.len(),
{
    if items.len() == 0 {
        seq![]
    } else {
        let prev = banked_part(items.drop_last(), bank);
        let it = items.last();
        if it.source == "evidence_bank"@ && it.matched_term is Some && first_where(
            bank,
            names_term(it.matched_term.unwrap()),
        ) < bank.len() {
            prev.push(bank[first_where(bank, names_term(it.matched_term.unwrap()))])
        } else {
            prev
        }
    }
}

/// Some entry of `es` names `term`.
pub open spec fn any_names(es: Seq<EntryView>, term: Seq<char>) -> bool {
    exists|i: int| 0 <= i < es.len() && equivalent_terms(#[trigger] es[i].term, term)
}

/// `news` appended one by one, each only when nothing already present names the same thing.
pub open spec fn add_missing(approved: Seq<EntryView>, news: Seq<EntryView>) -> Seq<EntryView>
    decreases news.len(),
{
    if news.len() == 0 {
        approved
    } else {
        let prev = add_missing(approved, news.drop_last());
        if any_names(prev, news.last().term) {
            prev
        } else {
            prev.push(news.last())
        }
    }
}

/// The entries handed to the tailoring model: the bank entries the preflight resolved, then
/// this session's selections that name nothing already there.
pub open spec fn approved_view(
    items: Seq<ItemView>,
    bank: Seq<EntryView>,
    selected: Seq<crate::bank::SelectionView>,
) -> Seq<EntryView> {
    add_missing(banked_part(items, bank), prompt_entries(selected))
}

fn first_naming(entries: &Vec<EvidenceEntry>, term: &str) -> (r: usize)
    ensures
        r == first_where(entry_views(entries@), names_term(term@)),
{
    let ghost p = names_term(term@);
    let ghost es = entry_views(entries@);
    let mut j: usize = 0;
    while j < entries.len()
        invariant
            j <= entries@.len(),
            es == entry_views(entries@),
            p == names_term(term@),
            forall|k: int| 0 <= k < j ==> !p(#[trigger] es[k]),
        decreases entries@.len() - j,
    {
        if equivalent(entries[j].term.as_str(), term) {
            proof {
                lemma_first_where_at(es, p, j as int);
            }
            return j;
        }
        j += 1;
    }
    proof {
        lemma_first_where_at(es, p, j as int);
    }
    j
}

fn any_naming(entries: &Vec<EvidenceEntry>, term: &str) -> (r: bool)
    ensures
        r == any_names(entry_views(entries@), term@),
{
    let k = first_naming(entries, term);
    proof {
        let es = entry_views(entries@);
        lemma_first_where(es, names_term(term@));
        if any_names(es, term@) {
            let i = choose|i: int| 0 <= i < es.len() && equivalent_terms(#[trigger] es[i].term, term@);
            assert(names_term(term@)(es[i]));
        }
    }
    k < entries.len()
}

fn add_missing_entries(approved: &mut Vec<EvidenceEntry>, news: Vec<EvidenceEntry>)
    ensures
        entry_views(final(approved)@) == add_missing(entry_views(old(approved)@), entry_views(news@)),
{
    let ghost start = entry_views(approved@);
    let ghost ns = entry_views(news@);
    let mut i: usize = 0;
    while i < news.len()
        invariant
            i <= news@.len(),
            ns == entry_views(news@),
            entry_views(approved@) == add_missing(start, ns.take(i as int)),
        decreases news@.len() - i,
    {
        assert(ns.take(i + 1).drop_last() =~= ns.take(i as int));
        assert(ns.take(i + 1).last() == news@[i as int]@);
        let e = &news[i];
        if !any_naming(approved, e.term.as_str()) {
            let ghost before = approved@;
            approved.push(e.duplicate());
            assert(entry_views(approved@) =~= entry_views(before).push(e@));
        }
        i += 1;
    }
    assert(ns.take(i as int) =~= ns);
}

proof fn lemma_add_missing(approved: Seq<EntryView>, news: Seq<EntryView>)
    ensures
        add_missing(approved, news).len() >= approved.len(),
        forall|k: int| 0 <= k < approved.len() ==> #[trigger] add_missing(approved, news)[k] == approved[k],
        forall|j: int| 0 <= j < news.len() ==> any_names(add_missing(approved, news), #[trigger] news[j].term),
    decreases news.len(),
{
    if news.len() > 0 {
        let prev = add_missing(approved, news.drop_last());
        lemma_add_missing(approved, news.drop_last());
        let r = add_missing(approved, news);
        assert forall|j: int| 0 <= j < news.len() implies any_names(r, #[trigger] news[j].term) by {
            if j < news.len() - 1 {
                assert(news.drop_last()[j] == news[j]);
                assert(any_names(prev, news[j].term));
                let w = choose|w: int| 0 <= w < prev.len() && equivalent_terms(#[trigger] prev[w].term, news[j].term);
                assert(r[w] == prev[w]);
            } else if !any_names(prev, news.last().term) {
                assert(r[prev.len() as int] == news.last());
                assert(equivalent_terms(news.last().term, news.last().term));
            }
        }
    }
}

proof fn lemma_prompt_entries_cover(sel: Seq<crate::bank::SelectionView>)
    ensures
        forall|i: int|
            0 <= i < sel.len() && trimmed(#[trigger] sel[i].term).len() > 0 ==> prompt_entries(
                sel,
            ).contains(crate::bank::entry_of_selection(sel[i])),
    decreases sel.len(),
{
    if sel.len() > 0 {
        lemma_prompt_entries_cover(sel.drop_last());
        let prev = prompt_entries(sel.drop_last());
        let r = prompt_entries(sel);
        assert forall|i: int| 0 <= i < sel.len() && trimmed(#[trigger] sel[i].term).len() > 0 implies r.contains(
            crate::bank::entry_of_selection(sel[i]),
        ) by {
            if i < sel.len() - 1 {
                assert(sel.drop_last()[i] == sel[i]);
                let w = choose|w: int| 0 <= w < prev.len() && prev[w] == crate::bank::entry_of_selection(sel[i]);
                assert(r[w] == prev[w]);
            } else {
                assert(r[prev.len() as int] == crate::bank::entry_of_selection(sel[i]));
            }
        }
    }
}

/// What the tailoring model is handed starts with the bank entries the preflight resolved,
/// unchanged and in order, and names every term this session confirmed.
pub proof fn lemma_approved_covers_selections(
    items: Seq<ItemView>,
    bank: Seq<EntryView>,
    sel: Seq<crate::bank::SelectionView>,
)
    ensures
        approved_view(items, bank, sel).len() >= banked_part(items, bank).len(),
        forall|k: int|
            0 <= k < banked_part(items, bank).len() ==> #[trigger] approved_view(items, bank, sel)[k]
                == banked_part(items, bank)[k],
        forall|i: int|
            0 <= i < sel.len() && trimmed(#[trigger] sel[i].term).len() > 0 ==> any_names(
                approved_view(items, bank, sel),
                trimmed(sel[i].term),
            ),
{
    let news = prompt_entries(sel);
    lemma_add_missing(banked_part(items, bank), news);
    lemma_prompt_entries_cover(sel);
    assert forall|i: int| 0 <= i < sel.len() && trimmed(#[trigger] sel[i].term).len() > 0 implies any_names(
        approved_view(items, bank, sel),
        trimmed(sel[i].term),
    ) by {
        let w = choose|w: int| 0 <= w < news.len() && news[w] == crate::bank::entry_of_selection(sel[i]);
        assert(news[w].term == trimmed(sel[i].term));
    }
}

/// Assembles the evidence entries handed to the tailoring model. Both tailoring entry points
/// use this, so a first run and a re-tailor see the same evidence.
pub fn approved_evidence_for(
    preflight: &[PreflightItem],
    bank: &EvidenceBank,
    selected: &[SelectedEvidence],
) -> (r: Vec<EvidenceEntry>)
    ensures
        entry_views(r@) == approved_view(
            item_views(preflight@),
            entry_views(bank.entries@),
            selection_views(selected@),
        ),
{
    let ghost its = item_views(preflight@);
    let ghost bs = entry_views(bank.entries@);
    let mut approved: Vec<EvidenceEntry> = Vec::new();
    let mut i: usize = 0;
    while i < preflight.len()
        invariant
            i <= preflight@.len(),
            its == item_views(preflight@),
            bs == entry_views(bank.entries@),
            entry_views(approved@) == banked_part(its.take(i as int), bs),
        decreases preflight@.len() - i,
    {
        assert(its.take(i + 1).drop_last() =~= its.take(i as int));
        assert(its.take(i + 1).last() == preflight@[i as int]@);
        let item = &preflight[i];
        if str_eq(item.source, "evidence_bank") {
            match &item.matched_term {
                Some(m) => {
                    let k = first_naming(&bank.entries, m.as_str());
                    proof {
                        lemma_first_where(bs, names_term(m@));
                    }
                    if k < bank.entries.len() {
                        let ghost before = approved@;
                        approved.push(bank.entries[k].duplicate());
                        assert(entry_views(approved@) =~= entry_views(before).push(bs[k as int]));
                    }
                },
                None => {},
            }
        }
        i += 1;
    }
    assert(its.take(i as int) =~= its);
    add_missing_entries(&mut approved, selected_for_prompt(selected));
    approved
}

/// The saved entry a directly named term resolves to.
pub open spec fn resolves_term(term: Seq<char>) -> spec_fn(EntryView) -> bool {
    |e: EntryView| equivalent_terms(e.term, term) || placement_equivalent(e.term, term)
}

/// Each named term, in order, adds the first saved entry it resolves to, unless something
/// already present names that entry.
pub open spec fn append_banked(approved: Seq<EntryView>, bank: Seq<EntryView>, terms: Seq<
    Seq<char>,
>) -> Seq<EntryView>
    decreases terms.len(),
{
    if terms.len() == 0 {
        approved
    } else {
        let prev = append_banked(approved, bank, terms.drop_last());
        let k = first_where(bank, resolves_term(terms.last()));
        if k < bank.len() && !any_names(prev, bank[k].term) {
            prev.push(bank[k])
        } else {
            prev
        }
    }
}

fn first_resolving(entries: &Vec<EvidenceEntry>, term: &str) -> (r: usize)
    ensures
        r == first_where(entry_views(entries@), resolves_term(term@)),
{
    let ghost p = resolves_term(term@);
    let ghost es = entry_views(entries@);
    let mut j: usize = 0;
    while j < entries.len()
        invariant
            j <= entries@.len(),
            es == entry_views(entries@),
            p == resolves_term(term@),
            forall|k: int| 0 <= k < j ==> !p(#[trigger] es[k]),
        decreases entries@.len() - j,
    {
        let t = entries[j].term.as_str();
        if equivalent(t, term) || placement_equivalent_terms(t, term) {
            proof {
                lemma_first_where_at(es, p, j as int);
            }
            return j;
        }
        j += 1;
    }
    proof {
        lemma_first_where_at(es, p, j as int);
    }
    j
}

/// Resolves already-attested bank entries for terms named directly, where no selection
/// record was built for them.
pub fn append_banked_terms(approved: &mut Vec<EvidenceEntry>, bank: &EvidenceBank, terms: &[String])
    ensures
        entry_views(final(approved)@) == append_banked(
            entry_views(old(approved)@),
            entry_views(bank.entries@),
            strs(terms@),
        ),
{
    let ghost start = entry_views(approved@);
    let ghost bs = entry_views(bank.entries@);
    let ghost ts = strs(terms@);
    let mut i: usize = 0;
    while i < terms.len()
        invariant
            i <= terms@.len(),
            bs == entry_views(bank.entries@),
            ts == strs(terms@),
            entry_views(approved@) == append_banked(start, bs, ts.take(i as int)),
        decreases terms@.len() - i,
    {
        assert(ts.take(i + 1).drop_last() =~= ts.take(i as int));
        assert(ts.take(i + 1).last() == terms@[i as int]@);
        let k = first_resolving(&bank.entries, terms[i].as_str());
        proof {
            lemma_first_where(bs, resolves_term(terms@[i as int]@));
        }
        if k < bank.entries.len() {
            let entry = &bank.entries[k];
            if !any_naming(approved, entry.term.as_str()) {
                let ghost before = approved@;
                approved.push(entry.duplicate());
                assert(entry_views(approved@) =~= entry_views(before).push(bs[k as int]));
            }
        }
        i += 1;
    }
    assert(ts.take(i as int) =~= ts);
}

// --------------------------------------------------------- kind of a selected term

/// The best-overlapping ledger term so far: (shared placement tokens, its own token count,
/// its kind). A later term with an equal or greater (overlap, size) pair takes the place.
pub open spec fn best_overlap(cs: Seq<CandView>, sel: Set<Seq<char>>) -> Option<(nat, nat, Seq<char>)>
    decreases cs.len(),
{
    if cs.len() == 0 {
        None
    } else {
        let prev = best_overlap(cs.drop_last(), sel);
        let ct = placement_set_of(cs.last().term);
        let ov = sel.intersect(ct).len();
        if ov > 0 {
            match prev {
                None => Some((ov, ct.len(), cs.last().kind)),
                Some(b) => if ov > b.0 || (ov == b.0 && ct.len() >= b.1) {
                    Some((ov, ct.len(), cs.last().kind))
                } else {
                    prev
                },
            }
        } else {
            prev
        }
    }
}

/// The kind of a term the user typed: that of the ledger term sharing the most placement
/// tokens with it (the larger one, then the later one, on ties), else inferred from the term.
pub open spec fn selected_term_kind(a: JobAnalysis, term: Seq<char>) -> Seq<char> {
    match best_overlap(ledger(a), placement_set_of(term)) {
        Some(b) => b.2,
        None => inferred_kind_of(term, "method_domain"@),
    }
}

pub fn infer_selected_term_kind(analysis: &JobAnalysis, selected_term: &str) -> (r: String)
    ensures
        r@ == selected_term_kind(*analysis, selected_term@),
{
    let selected_tokens = placement_token_set(selected_term);
    let candidates = analysis_candidates(analysis);
    let ghost cs = cand_views(candidates@);
    let ghost sel = tset(selected_tokens@);
    let mut best: Option<(usize, usize, String)> = None;
    let mut i: usize = 0;
    while i < candidates.len()
        invariant
            i <= candidates@.len(),
            cs == cand_views(candidates@),
            sel == placement_set_of(selected_term@),
            crate::tokens::distinct(selected_tokens@),
            sel == tset(selected_tokens@),
            match (best, best_overlap(cs.take(i as int), sel)) {
                (None, None) => true,
                (Some(b), Some(s)) => b.0 == s.0 && b.1 == s.1 && b.2@ == s.2,
                _ => false,
            },
        decreases candidates@.len() - i,
    {
        assert(cs.take(i + 1).drop_last() =~= cs.take(i as int));
        assert(cs.take(i + 1).last() == candidates@[i as int]@);
        let c = &candidates[i];
        let cand_tokens = placement_token_set(c.term.as_str());
        proof {
            lemma_tset_len(cand_tokens@);
        }
        let overlap = count_common(&selected_tokens, &cand_tokens);
        let size = cand_tokens.len();
        if overlap > 0 {
            let replace = match &best {
                None => true,
                Some(b) => overlap > b.0 || (overlap == b.0 && size >= b.1),
            };
            if replace {
                best = Some((overlap, size, c.kind.clone()));
            }
        }
        i += 1;
    }
    assert(cs.take(i as int) =~= cs);
    match best {
        Some(b) => b.2,
        None => inferred_kind(selected_term, "method_domain"),
    }
}

} // verus!
