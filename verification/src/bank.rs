//! The evidence bank: every claim the user has attested to, and how a session's selections
//! are folded into it or taken out of it.

use vstd::prelude::*;
use crate::text::{string_of, trim_str, trimmed};
use crate::evidence::{equivalent, equivalent_terms, placement_equivalent, placement_equivalent_terms};
use crate::search::{any_where, first_where, lemma_first_where, lemma_first_where_at};

verus! {

broadcast use vstd::seq_lib::group_seq_properties;

/// One attested claim.
#[derive(Clone, Debug)]
pub struct EvidenceEntry {
    pub term: String,
    pub kind: String,
    pub note: Option<String>,
    pub user_attested: bool,
    /// The user allowed the model to place this claim in a role of its choosing.
    pub allow_model_role_placement: bool,
}

/// A claim the user confirmed in the current session.
#[derive(Clone, Debug)]
pub struct SelectedEvidence {
    pub term: String,
    pub kind: String,
    pub note: Option<String>,
    pub allow_model_role_placement: bool,
}

/// The saved evidence file.
#[derive(Clone, Debug)]
pub struct EvidenceBank {
    pub version: u8,
    pub entries: Vec<EvidenceEntry>,
}

impl Default for EvidenceBank {
    fn default() -> (r: Self)
        ensures
            r.version == 0,
            r.entries@.len() == 0,
    {
        EvidenceBank { version: 0, entries: Vec::new() }
    }
}

pub open spec fn note_view(o: Option<String>) -> Option<Seq<char>> {
    match o {
        Some(s) => Some(s@),
        None => None,
    }
}

pub struct EntryView {
    pub term: Seq<char>,
    pub kind: Seq<char>,
    pub note: Option<Seq<char>>,
    pub user_attested: bool,
    pub allow_model_role_placement: bool,
}

pub struct SelectionView {
    pub term: Seq<char>,
    pub kind: Seq<char>,
    pub note: Option<Seq<char>>,
    pub allow_model_role_placement: bool,
}

impl View for EvidenceEntry {
    type V = EntryView;

    open spec fn view(&self) -> EntryView {
        EntryView {
            term: self.term@,
            kind: self.kind@,
            note: note_view(self.note),
            user_attested: self.user_attested,
            allow_model_role_placement: self.allow_model_role_placement,
        }
    }
}

impl View for SelectedEvidence {
    type V = SelectionView;

    open spec fn view(&self) -> SelectionView {
        SelectionView {
            term: self.term@,
            kind: self.kind@,
            note: note_view(self.note),
            allow_model_role_placement: self.allow_model_role_placement,
        }
    }
}

pub open spec fn entry_views(v: Seq<EvidenceEntry>) -> Seq<EntryView> {
    v.map_values(|e: EvidenceEntry| e@)
}

pub open spec fn selection_views(v: Seq<SelectedEvidence>) -> Seq<SelectionView> {
    v.map_values(|s: SelectedEvidence| s@)
}

/// A proof note, trimmed; a blank one is no note.
pub open spec fn cleaned_note(o: Option<Seq<char>>) -> Option<Seq<char>> {
    match o {
        Some(v) => if trimmed(v).len() > 0 {
            Some(trimmed(v))
        } else {
            None
        },
        None => None,
    }
}

pub open spec fn str_opt_view(o: Option<&str>) -> Option<Seq<char>> {
    match o {
        Some(s) => Some(s@),
        None => None,
    }
}

pub fn copy_note(o: &Option<String>) -> (r: Option<String>)
    ensures
        note_view(r) == note_view(*o),
{
    match o {
        Some(s) => Some(s.clone()),
        None => None,
    }
}

pub fn clean_proof(value: Option<&str>) -> (r: Option<String>)
    ensures
        note_view(r) == cleaned_note(str_opt_view(value)),
{
    match value {
        Some(v) => {
            let t = trim_str(v);
            if t.len() > 0 {
                Some(string_of(&t))
            } else {
                None
            }
        },
        None => None,
    }
}

fn note_as_str(o: &Option<String>) -> (r: Option<&str>)
    ensures
        str_opt_view(r) == note_view(*o),
{
    match o {
        Some(s) => Some(s.as_str()),
        None => None,
    }
}

impl EvidenceEntry {
    /// A field-for-field copy.
    pub fn duplicate(&self) -> (r: EvidenceEntry)
        ensures
            r@ == self@,
    {
        EvidenceEntry {
            term: self.term.clone(),
            kind: self.kind.clone(),
            note: copy_note(&self.note),
            user_attested: self.user_attested,
            allow_model_role_placement: self.allow_model_role_placement,
        }
    }
}

// ------------------------------------------------------------- selections for the prompt

/// The entry a confirmed selection becomes: trimmed term, cleaned note, attested.
pub open spec fn entry_of_selection(s: SelectionView) -> EntryView {
    EntryView {
        term: trimmed(s.term),
        kind: s.kind,
        note: cleaned_note(s.note),
        user_attested: true,
        allow_model_role_placement: s.allow_model_role_placement,
    }
}

/// The selections with a non-blank term, as attested entries, in order.
pub open spec fn prompt_entries(sel: Seq<SelectionView>) -> Seq<EntryView>
    decreases sel.len(),
{
    if sel.len() == 0 {
        seq![]
    } else if trimmed(sel.last().term).len() > 0 {
        prompt_entries(sel.drop_last()).push(entry_of_selection(sel.last()))
    } else {
        prompt_entries(sel.drop_last())
    }
}

fn entry_from_selection(item: &SelectedEvidence) -> (r: Option<EvidenceEntry>)
    ensures
        match r {
            Some(e) => trimmed(item@.term).len() > 0 && e@ == entry_of_selection(item@),
            None => trimmed(item@.term).len() == 0,
        },
{
    let term = trim_str(item.term.as_str());
    if term.len() == 0 {
        return None;
    }
    Some(
        EvidenceEntry {
            term: string_of(&term),
            kind: item.kind.clone(),
            note: clean_proof(note_as_str(&item.note)),
            user_attested: true,
            allow_model_role_placement: item.allow_model_role_placement,
        },
    )
}

/// The session's confirmed selections as attested entries, blank terms dropped.
pub fn selected_for_prompt(selected: &[SelectedEvidence]) -> (r: Vec<EvidenceEntry>)
    ensures
        entry_views(r@) == prompt_entries(selection_views(selected@)),
{
    let mut out: Vec<EvidenceEntry> = Vec::new();
    let mut i: usize = 0;
    while i < selected.len()
        invariant
            i <= selected@.len(),
            entry_views(out@) == prompt_entries(selection_views(selected@).take(i as int)),
        decreases selected@.len() - i,
    {
        let ghost sv = selection_views(selected@).take(i + 1);
        assert(sv.drop_last() =~= selection_views(selected@).take(i as int));
        assert(sv.last() == selected@[i as int]@);
        let ghost before = out@;
        match entry_from_selection(&selected[i]) {
            Some(e) => {
                out.push(e);
                assert(entry_views(out@) =~= entry_views(before).push(
                    entry_of_selection(selected@[i as int]@),
                ));
            },
            None => {},
        }
        i += 1;
    }
    assert(selection_views(selected@).take(selected@.len() as int) =~= selection_views(
        selected@,
    ));
    out
}

// ------------------------------------------------------------------------- saving

/// The saved entry a selection updates: the first one naming the same thing, or, when the
/// user allowed role placement, the first whose placement words are the same.
pub open spec fn upsert_target(term: Seq<char>, allow: bool) -> spec_fn(EntryView) -> bool {
    |e: EntryView| equivalent_terms(e.term, term) || (allow && placement_equivalent(e.term, term))
}

/// One selection folded into the saved entries: an equivalent entry is updated in place (kind
/// replaced, note replaced only by a non-blank one, attested, placement permission widened);
/// otherwise a new attested entry is appended. A blank term changes nothing.
pub open spec fn upsert_one(es: Seq<EntryView>, s: SelectionView) -> Seq<EntryView> {
    let term = trimmed(s.term);
    let note = cleaned_note(s.note);
    let k = first_where(es, upsert_target(term, s.allow_model_role_placement));
    if term.len() == 0 {
        es
    } else if k < es.len() {
        es.update(
            k,
            EntryView {
                term: es[k].term,
                kind: s.kind,
                note: if note is Some {
                    note
                } else {
                    es[k].note
                },
                user_attested: true,
                allow_model_role_placement: es[k].allow_model_role_placement
                    || s.allow_model_role_placement,
            },
        )
    } else {
        es.push(
            EntryView {
                term,
                kind: s.kind,
                note: note,
                user_attested: true,
                allow_model_role_placement: s.allow_model_role_placement,
            },
        )
    }
}

pub open spec fn upsert_all(es: Seq<EntryView>, sel: Seq<SelectionView>) -> Seq<EntryView>
    decreases sel.len(),
{
    if sel.len() == 0 {
        es
    } else {
        upsert_one(upsert_all(es, sel.drop_last()), sel.last())
    }
}

fn find_upsert_target(entries: &Vec<EvidenceEntry>, term: &str, allow: bool) -> (r: usize)
    ensures
        r == first_where(entry_views(entries@), upsert_target(term@, allow)),
{
    let ghost p = upsert_target(term@, allow);
    let ghost es = entry_views(entries@);
    let mut j: usize = 0;
    while j < entries.len()
        invariant
            j <= entries@.len(),
            es == entry_views(entries@),
            p == upsert_target(term@, allow),
            forall|k: int| 0 <= k < j ==> !p(#[trigger] es[k]),
        decreases entries@.len() - j,
    {
        let e = &entries[j];
        if equivalent(e.term.as_str(), term) || (allow && placement_equivalent_terms(
            e.term.as_str(),
            term,
        )) {
            proof {
                lemma_first_where_at(es, p, j as int);
            }
            return j;
        }
        j += 1;
    }
    proof {
        lemma_first_where_at(es, p, j as int);
    }
    j
}

fn upsert_selection(entries: &mut Vec<EvidenceEntry>, item: &SelectedEvidence)
    ensures
        entry_views(final(entries)@) == upsert_one(entry_views(old(entries)@), item@),
{
    let term_chars = trim_str(item.term.as_str());
    if term_chars.len() == 0 {
        return;
    }
    let term = string_of(&term_chars);
    let note = clean_proof(note_as_str(&item.note));
    let ghost es = entry_views(entries@);
    let k = find_upsert_target(entries, term.as_str(), item.allow_model_role_placement);
    proof {
        lemma_first_where(es, upsert_target(term@, item.allow_model_role_placement));
    }
    if k < entries.len() {
        let old_entry = &entries[k];
        let note = match note {
            Some(n) => Some(n),
            None => copy_note(&old_entry.note),
        };
        let updated = EvidenceEntry {
            term: old_entry.term.clone(),
            kind: item.kind.clone(),
            note: note,
            user_attested: true,
            allow_model_role_placement: old_entry.allow_model_role_placement
                || item.allow_model_role_placement,
        };
        entries.set(k, updated);
        assert(entry_views(entries@) =~= upsert_one(es, item@));
    } else {
        entries.push(
            EvidenceEntry {
                term,
                kind: item.kind.clone(),
                note,
                user_attested: true,
                allow_model_role_placement: item.allow_model_role_placement,
            },
        );
        assert(entry_views(entries@) =~= upsert_one(es, item@));
    }
}

/// Folds the session's selections into the bank, in order, and marks it as the current
/// format. Writing it back is the caller's part.
pub fn save_selected_evidence(bank: &mut EvidenceBank, selected: &[SelectedEvidence])
    ensures
        entry_views(final(bank).entries@) == upsert_all(
            entry_views(old(bank).entries@),
            selection_views(selected@),
        ),
        final(bank).version == 2,
{
    let ghost start = entry_views(bank.entries@);
    let mut i: usize = 0;
    while i < selected.len()
        invariant
            i <= selected@.len(),
            entry_views(bank.entries@) == upsert_all(
                start,
                selection_views(selected@).take(i as int),
            ),
        decreases selected@.len() - i,
    {
        let ghost sv = selection_views(selected@).take(i + 1);
        assert(sv.drop_last() =~= selection_views(selected@).take(i as int));
        assert(sv.last() == selected@[i as int]@);
        upsert_selection(&mut bank.entries, &selected[i]);
        i += 1;
    }
    assert(selection_views(selected@).take(selected@.len() as int) =~= selection_views(
        selected@,
    ));
    bank.version = 2;
}

// ------------------------------------------------------------------------ removal

/// The entry survives a removal of `term`: it neither names the same thing nor has the same
/// placement words. Removal uses the matcher saving upserts with, so an entry saved under a
/// fuzzy match can still be deleted.
pub open spec fn survives_removal(e: EntryView, term: Seq<char>) -> bool {
    !equivalent_terms(e.term, term) && !placement_equivalent(e.term, term)
}

pub open spec fn kept_after_removal(es: Seq<EntryView>, term: Seq<char>) -> Seq<EntryView>
    decreases es.len(),
{
    if es.len() == 0 {
        seq![]
    } else if survives_removal(es.last(), term) {
        kept_after_removal(es.drop_last(), term).push(es.last())
    } else {
        kept_after_removal(es.drop_last(), term)
    }
}

/// Removing a term keeps exactly the entries that do not name it: none that names it stays,
/// every one that does not is still there, and nothing is added.
pub proof fn lemma_removal_keeps_the_others(es: Seq<EntryView>, term: Seq<char>)
    ensures
        kept_after_removal(es, term).len() <= es.len(),
        forall|k: int|
            0 <= k < kept_after_removal(es, term).len() ==> survives_removal(
                #[trigger] kept_after_removal(es, term)[k],
                term,
            ) && es.contains(kept_after_removal(es, term)[k]),
        forall|k: int|
            0 <= k < es.len() && survives_removal(#[trigger] es[k], term) ==> kept_after_removal(
                es,
                term,
            ).contains(es[k]),
    decreases es.len(),
{
    if es.len() > 0 {
        let p = es.drop_last();
        lemma_removal_keeps_the_others(p, term);
        let kp = kept_after_removal(p, term);
        let kr = kept_after_removal(es, term);
        assert forall|k: int| 0 <= k < kr.len() implies survives_removal(#[trigger] kr[k], term)
            && es.contains(kr[k]) by {
            if k < kp.len() {
                assert(kr[k] == kp[k]);
                let w = choose|w: int| 0 <= w < p.len() && p[w] == kp[k];
                assert(es[w] == p[w]);
            } else {
                assert(kr[k] == es.last());
                assert(es[es.len() - 1] == es.last());
            }
        }
        assert forall|k: int| 0 <= k < es.len() && survives_removal(#[trigger] es[k], term) implies kr.contains(
            es[k],
        ) by {
            if k < es.len() - 1 {
                assert(p[k] == es[k]);
                let w = choose|w: int| 0 <= w < kp.len() && kp[w] == p[k];
                if survives_removal(es.last(), term) {
                    assert(kr[w] == kp[w]);
                }
            } else {
                assert(kr[kr.len() - 1] == es[k]);
            }
        }
    }
}

/// Saving a confirmation that a saved entry already answers (by equivalent words, or by its
/// placement words when the confirmation allows role placement) updates that entry in place:
/// the bank does not grow, and the first such entry keeps its term and is now attested with
/// the confirmation's kind.
pub proof fn lemma_equivalent_save_updates_in_place(es: Seq<EntryView>, s: SelectionView, j: int)
    requires
        0 <= j < es.len(),
        upsert_target(trimmed(s.term), s.allow_model_role_placement)(es[j]),
    ensures
        upsert_one(es, s).len() == es.len(),
        ({
            let k = first_where(es, upsert_target(trimmed(s.term), s.allow_model_role_placement));
            &&& 0 <= k <= j
            &&& upsert_one(es, s)[k].term == es[k].term
            &&& trimmed(s.term).len() > 0 ==> upsert_one(es, s)[k].user_attested
                && upsert_one(es, s)[k].kind == s.kind
        }),
{
    let p = upsert_target(trimmed(s.term), s.allow_model_role_placement);
    lemma_first_where(es, p);
    assert(any_where(es, p));
}

proof fn lemma_upsert_one_keeps(es: Seq<EntryView>, s: SelectionView)
    ensures
        upsert_one(es, s).len() >= es.len(),
        forall|k: int|
            0 <= k < es.len() ==> (#[trigger] upsert_one(es, s)[k]).term == es[k].term && (
            es[k].user_attested ==> upsert_one(es, s)[k].user_attested),
{
    lemma_first_where(es, upsert_target(trimmed(s.term), s.allow_model_role_placement));
}

/// Saving never loses an entry, and afterwards every selection with a non-blank term is
/// attested by an entry naming the same thing (by the same words, or by its placement words
/// when the selection allowed role placement).
pub proof fn lemma_saved_selections_are_attested(es: Seq<EntryView>, sel: Seq<SelectionView>)
    ensures
        upsert_all(es, sel).len() >= es.len(),
        forall|k: int|
            0 <= k < es.len() ==> (#[trigger] upsert_all(es, sel)[k]).term == es[k].term,
        forall|i: int|
            0 <= i < sel.len() && trimmed(#[trigger] sel[i].term).len() > 0 ==> exists|k: int|
                0 <= k < upsert_all(es, sel).len() && upsert_all(es, sel)[k].user_attested
                    && upsert_target(trimmed(sel[i].term), sel[i].allow_model_role_placement)(
                    #[trigger] upsert_all(es, sel)[k],
                ),
    decreases sel.len(),
{
    if sel.len() > 0 {
        let prev = upsert_all(es, sel.drop_last());
        lemma_saved_selections_are_attested(es, sel.drop_last());
        lemma_upsert_one_keeps(prev, sel.last());
        let r = upsert_all(es, sel);
        assert(r == upsert_one(prev, sel.last()));
        assert forall|i: int|
            0 <= i < sel.len() && trimmed(#[trigger] sel[i].term).len() > 0 implies exists|k: int|
                0 <= k < r.len() && r[k].user_attested && upsert_target(
                    trimmed(sel[i].term),
                    sel[i].allow_model_role_placement,
                )(#[trigger] r[k]) by {
            if i < sel.len() - 1 {
                assert(sel.drop_last()[i] == sel[i]);
                let k = choose|k: int|
                    0 <= k < prev.len() && prev[k].user_attested && upsert_target(
                        trimmed(sel[i].term),
                        sel[i].allow_model_role_placement,
                    )(#[trigger] prev[k]);
                assert(r[k].term == prev[k].term);
                assert(upsert_target(trimmed(sel[i].term), sel[i].allow_model_role_placement)(r[k]));
            } else {
                let x = sel.last();
                let term = trimmed(x.term);
                let j = first_where(prev, upsert_target(term, x.allow_model_role_placement));
                lemma_first_where(prev, upsert_target(term, x.allow_model_role_placement));
                if j < prev.len() {
                    assert(r[j].term == prev[j].term);
                    assert(upsert_target(term, x.allow_model_role_placement)(r[j]));
                } else {
                    assert(r[prev.len() as int].term == term);
                    assert(equivalent_terms(term, term));
                    assert(upsert_target(term, x.allow_model_role_placement)(r[prev.len() as int]));
                }
            }
        }
    }
}

/// Drops every entry that names `term`. Writing the bank back is the caller's part.
pub fn remove_evidence(bank: &mut EvidenceBank, term: &str)
    ensures
        entry_views(final(bank).entries@) == kept_after_removal(
            entry_views(old(bank).entries@),
            term@,
        ),
        final(bank).version == old(bank).version,
{
    let ghost es = entry_views(bank.entries@);
    let mut kept: Vec<EvidenceEntry> = Vec::new();
    let mut i: usize = 0;
    while i < bank.entries.len()
        invariant
            i <= bank.entries@.len(),
            es == entry_views(bank.entries@),
            entry_views(kept@) == kept_after_removal(es.take(i as int), term@),
        decreases bank.entries@.len() - i,
    {
        assert(es.take(i + 1).drop_last() =~= es.take(i as int));
        assert(es.take(i + 1).last() == bank.entries@[i as int]@);
        let e = &bank.entries[i];
        if !equivalent(e.term.as_str(), term) && !placement_equivalent_terms(e.term.as_str(), term) {
            let ghost before = kept@;
            kept.push(e.duplicate());
            assert(entry_views(kept@) =~= entry_views(before).push(es[i as int]));
        }
        i += 1;
    }
    assert(es.take(i as int) =~= es);
    bank.entries = kept;
}

/// A bank read from disk in an older format is read as the current one.
pub fn upgrade_loaded_bank(bank: &mut EvidenceBank)
    ensures
        final(bank).entries@ == old(bank).entries@,
        final(bank).version == if old(bank).version < 2 {
            2
        } else {
            old(bank).version
        },
{
    if bank.version < 2 {
        bank.version = 2;
    }
}

/// The bank used when none has been saved yet.
pub fn empty_bank() -> (r: EvidenceBank)
    ensures
        r.version == 2,
        r.entries@.len() == 0,
{
    EvidenceBank { version: 2, entries: Vec::new() }
}

} // verus!
