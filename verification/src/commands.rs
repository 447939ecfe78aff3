//! What the window's commands decide: which phrases a re-tailoring run may take, how a run's
//! failure is summarized, how an older stored result is brought up to date, and which
//! evidence a tailoring run is allowed to rely on.

use vstd::prelude::*;
use crate::text::{
    ascii_lower, chars_of, decimal, has_prefix, push_char, push_decimal, push_str, starts_with,
    str_eq, string_of, strs, to_ascii_lowercase, trim_str, trimmed,
};
use crate::tailoring::{
    arr, change_views, content_changes, content_changes_of, decision_views, diffable,
    BulletRewriteDecision, BulletRewriteOutcome, ChangeView, ContentChange, DecisionView,
    TailoringReport,
};
use crate::search::{any_where, first_where, lemma_first_where, lemma_first_where_at};
use crate::evidence::{equivalent, equivalent_terms, placement_equivalent, placement_equivalent_terms};
use crate::analysis::JobAnalysis;
use crate::json::{
    field, idx, index_key, lemma_member_views, lemma_views_of, member_views, push_member, text_of,
    views_of, Json, JsonView,
};
use crate::bank::{
    copy_note, entry_views, save_selected_evidence, selection_views, upsert_all, EvidenceBank,
    EvidenceEntry, SelectedEvidence, SelectionView,
};
use crate::ats::{evidence_available, evidence_is_available};
use crate::preflight::{
    append_banked, append_banked_terms, approved_evidence_for, approved_view,
    infer_selected_term_kind, item_views, preflight_items, preflight_view, selected_term_kind,
    ItemView, PreflightItem,
};
use crate::api_usage::{as_u64, number_u64};

verus! {

broadcast use vstd::seq_lib::group_seq_properties;

/// Why a command could not do what was asked.
#[derive(Debug)]
pub enum AppError {
    Message(String),
}

impl AppError {
    /// The error as the user reads it.
    pub fn message(&self) -> (r: String)
        ensures
            match self {
                AppError::Message(m) => r@ == m@,
            },
    {
        match self {
            AppError::Message(m) => m.clone(),
        }
    }
}

/// The refusal of a language the resume does not exist in.
pub const LANGUAGE_MESSAGE: &'static str = "Language must be en or fr.";

/// The languages a resume run may be asked for.
pub open spec fn command_language(language: Seq<char>) -> bool {
    language == "en"@ || language == "fr"@
}

/// Refuses a language other than `en` and `fr`.
pub fn check_language(language: &str) -> (r: Result<(), AppError>)
    ensures
        match r {
            Ok(()) => command_language(language@),
            Err(AppError::Message(m)) => !command_language(language@) && m@ == LANGUAGE_MESSAGE@,
        },
{
    if str_eq(language, "en") || str_eq(language, "fr") {
        Ok(())
    } else {
        Err(AppError::Message(LANGUAGE_MESSAGE.to_string()))
    }
}

// ------------------------------------------------------------------ failure summaries

/// A stage name as a sentence reads it: underscores become spaces.
pub open spec fn spaced(stage: Seq<char>) -> Seq<char> {
    stage.map_values(|c: char| if c == '_' { ' ' } else { c })
}

/// The summary stored for a failed run: the analysis summary when an analysis was produced,
/// and a plain statement that none was otherwise.
pub open spec fn failure_summary_of(
    stage: Seq<char>,
    error: Seq<char>,
    analysis_summary: Option<Seq<char>>,
) -> Seq<char> {
    match analysis_summary {
        Some(s) => s + " The run then failed during "@ + spaced(stage) + ": "@ + error,
        None => "No AI analysis was produced. The run failed during "@ + spaced(stage) + ": "@
            + error,
    }
}

fn push_spaced(out: &mut String, stage: &str)
    ensures
        final(out)@ == old(out)@ + spaced(stage@),
{
    let cs = chars_of(stage);
    let ghost start = out@;
    let mut i: usize = 0;
    while i < cs.len()
        invariant
            i <= cs@.len(),
            cs@ == stage@,
            out@ == start + spaced(cs@.take(i as int)),
        decreases cs@.len() - i,
    {
        let c = cs[i];
        push_char(out, if c == '_' { ' ' } else { c });
        assert(spaced(cs@.take(i + 1)) =~= spaced(cs@.take(i as int)).push(
            if c == '_' { ' ' } else { c },
        ));
        i += 1;
    }
    assert(cs@.take(i as int) =~= cs@);
}

/// Summarizes a run that failed during `stage` with `error`.
pub fn failure_summary(stage: &str, error: &str, analysis: Option<&JobAnalysis>) -> (r: String)
    ensures
        r@ == failure_summary_of(
            stage@,
            error@,
            match analysis {
                Some(a) => Some(a.summary@),
                None => None,
            },
        ),
{
    let mut out = String::new();
    proof {
        reveal_strlit("");
    }
    match analysis {
        Some(a) => {
            push_str(&mut out, a.summary.as_str());
            push_str(&mut out, " The run then failed during ");
        },
        None => {
            push_str(&mut out, "No AI analysis was produced. The run failed during ");
        },
    }
    push_spaced(&mut out, stage);
    push_str(&mut out, ": ");
    push_str(&mut out, error);
    out
}

// ------------------------------------------------------------------ re-tailoring selection

pub const SELECT_ONE_MESSAGE: &'static str = "Select at least one omitted phrase before re-tailoring.";

pub const TOO_MANY_MESSAGE: &'static str = "No more than 30 omitted phrases can be selected at once.";

pub const PHRASE_LENGTH_MESSAGE: &'static str = "Selected phrases must contain between 1 and 200 characters.";

pub const NOT_OMITTED_MESSAGE: &'static str = "The selected phrase is not in the source result's omitted list: ";

pub const SELECT_DISTINCT_MESSAGE: &'static str = "Select at least one distinct omitted phrase before re-tailoring.";

/// Equal up to ASCII case.
pub open spec fn ascii_case_eq(a: Seq<char>, b: Seq<char>) -> bool {
    a.len() == b.len() && forall|i: int| 0 <= i < a.len() ==> ascii_lower(#[trigger] a[i]) == ascii_lower(b[i])
}

pub(crate) fn eq_ignore_ascii_case(a: &[char], b: &[char]) -> (r: bool)
    ensures
        r == ascii_case_eq(a@, b@),
{
    if a.len() != b.len() {
        return false;
    }
    let mut i: usize = 0;
    while i < a.len()
        invariant
            i <= a@.len(),
            a@.len() == b@.len(),
            forall|j: int| 0 <= j < i ==> ascii_lower(#[trigger] a@[j]) == ascii_lower(b@[j]),
        decreases a@.len() - i,
    {
        if to_ascii_lowercase(a[i]) != to_ascii_lowercase(b[i]) {
            return false;
        }
        i += 1;
    }
    true
}

/// The omitted phrase a selection names: the first whose trimmed text equals the trimmed
/// selection up to ASCII case.
pub open spec fn names_omitted(selected: Seq<char>) -> spec_fn(Seq<char>) -> bool {
    |o: Seq<char>| ascii_case_eq(trimmed(o), selected)
}

/// Already validated phrases that name the same thing as `canonical`.
pub open spec fn same_phrase(canonical: Seq<char>) -> spec_fn(Seq<char>) -> bool {
    |e: Seq<char>| equivalent_terms(e, canonical) || placement_equivalent(e, canonical)
}

/// The selections, in order, each replaced by the omitted phrase it names and dropped when it
/// names the same thing as one kept before it; the first refusal stops the walk.
pub open spec fn validated_terms(selected: Seq<Seq<char>>, omitted: Seq<Seq<char>>) -> Result<
    Seq<Seq<char>>,
    Seq<char>,
>
    decreases selected.len(),
{
    if selected.len() == 0 {
        Ok(seq![])
    } else {
        match validated_terms(selected.drop_last(), omitted) {
            Err(m) => Err(m),
            Ok(v) => {
                let s = trimmed(selected.last());
                if s.len() == 0 || s.len() > 200 {
                    Err(PHRASE_LENGTH_MESSAGE@)
                } else {
                    let i = first_where(omitted, names_omitted(s));
                    if i >= omitted.len() {
                        Err(NOT_OMITTED_MESSAGE@ + s)
                    } else if any_where(v, same_phrase(omitted[i])) {
                        Ok(v)
                    } else {
                        Ok(v.push(omitted[i]))
                    }
                }
            },
        }
    }
}

proof fn lemma_validated_terms_shape(selected: Seq<Seq<char>>, omitted: Seq<Seq<char>>)
    ensures
        validated_terms(selected, omitted) matches Ok(v) ==> {
            &&& v.len() <= selected.len()
            &&& forall|k: int| 0 <= k < v.len() ==> omitted.contains(#[trigger] v[k])
            &&& forall|i: int, j: int|
                0 <= i < j < v.len() ==> !same_phrase(#[trigger] v[j])(#[trigger] v[i])
        },
    decreases selected.len(),
{
    if selected.len() > 0 {
        lemma_validated_terms_shape(selected.drop_last(), omitted);
        match validated_terms(selected.drop_last(), omitted) {
            Ok(v) => {
                let s = trimmed(selected.last());
                if !(s.len() == 0 || s.len() > 200) {
                    let i = first_where(omitted, names_omitted(s));
                    lemma_first_where(omitted, names_omitted(s));
                    if i < omitted.len() && !any_where(v, same_phrase(omitted[i])) {
                        let r = v.push(omitted[i]);
                        assert forall|a: int, b: int| 0 <= a < b < r.len() implies !same_phrase(
                            #[trigger] r[b],
                        )(#[trigger] r[a]) by {
                            if b < v.len() {
                                assert(r[a] == v[a] && r[b] == v[b]);
                            } else {
                                assert(r[a] == v[a] && r[b] == omitted[i]);
                            }
                        }
                        assert forall|k: int| 0 <= k < r.len() implies omitted.contains(#[trigger] r[k]) by {
                            if k < v.len() {
                                assert(r[k] == v[k]);
                            }
                        }
                    }
                }
            },
            Err(_) => {},
        }
    }
}

/// A re-tailoring run takes between one and thirty phrases, each one of the phrases the
/// source result omitted, and no phrase names the same thing as one before it.
pub proof fn lemma_selected_phrases_are_omitted_and_distinct(
    selected: Seq<Seq<char>>,
    omitted: Seq<Seq<char>>,
)
    ensures
        selection_outcome(selected, omitted) matches Ok(v) ==> {
            &&& 1 <= v.len() <= 30
            &&& forall|k: int| 0 <= k < v.len() ==> omitted.contains(#[trigger] v[k])
            &&& forall|i: int, j: int|
                0 <= i < j < v.len() ==> !same_phrase(#[trigger] v[j])(#[trigger] v[i])
        },
{
    lemma_validated_terms_shape(selected, omitted);
}

/// What `validate_selected_omitted_terms` answers for these selections.
pub open spec fn selection_outcome(selected: Seq<Seq<char>>, omitted: Seq<Seq<char>>) -> Result<
    Seq<Seq<char>>,
    Seq<char>,
> {
    if selected.len() == 0 {
        Err(SELECT_ONE_MESSAGE@)
    } else if selected.len() > 30 {
        Err(TOO_MANY_MESSAGE@)
    } else {
        match validated_terms(selected, omitted) {
            Err(m) => Err(m),
            Ok(v) => if v.len() == 0 {
                Err(SELECT_DISTINCT_MESSAGE@)
            } else {
                Ok(v)
            },
        }
    }
}

pub open spec fn str_views(v: Seq<&str>) -> Seq<Seq<char>> {
    v.map_values(|s: &str| s@)
}

fn first_named(omitted: &[&str], selected: &Vec<char>) -> (r: Option<usize>)
    ensures
        ({
            let os = str_views(omitted@);
            let i = first_where(os, names_omitted(selected@));
            match r {
                Some(k) => k == i && i < os.len(),
                None => i == os.len(),
            }
        }),
{
    let ghost os = str_views(omitted@);
    let ghost p = names_omitted(selected@);
    let mut k: usize = 0;
    while k < omitted.len()
        invariant
            k <= omitted@.len(),
            os == str_views(omitted@),
            os.len() == omitted@.len(),
            p == names_omitted(selected@),
            forall|j: int| 0 <= j < k ==> !p(#[trigger] os[j]),
        decreases omitted@.len() - k,
    {
        let t = trim_str(omitted[k]);
        if eq_ignore_ascii_case(t.as_slice(), selected.as_slice()) {
            assert(p(os[k as int]));
            proof {
                lemma_first_where_at(os, p, k as int);
            }
            return Some(k);
        }
        assert(!p(os[k as int]));
        k += 1;
    }
    proof {
        lemma_first_where_at(os, p, k as int);
    }
    None
}

fn already_kept(kept: &Vec<String>, canonical: &str) -> (r: bool)
    ensures
        r == any_where(strs(kept@), same_phrase(canonical@)),
{
    let ghost ks = strs(kept@);
    let ghost p = same_phrase(canonical@);
    let mut k: usize = 0;
    while k < kept.len()
        invariant
            k <= kept@.len(),
            ks == strs(kept@),
            ks.len() == kept@.len(),
            p == same_phrase(canonical@),
            forall|j: int| 0 <= j < k ==> !p(#[trigger] ks[j]),
        decreases kept@.len() - k,
    {
        if equivalent(kept[k].as_str(), canonical) || placement_equivalent_terms(
            kept[k].as_str(),
            canonical,
        ) {
            assert(p(ks[k as int]));
            return true;
        }
        assert(!p(ks[k as int]));
        k += 1;
    }
    false
}

/// Checks the omitted phrases a user picked for a re-tailoring run against the phrases the
/// source result actually omitted, and returns the canonical phrases without repeats.
pub fn validate_selected_omitted_terms(selected_terms: &[String], omitted_terms: &[&str]) -> (r:
    Result<Vec<String>, AppError>)
    ensures
        match r {
            Ok(v) => selection_outcome(strs(selected_terms@), str_views(omitted_terms@)) == Ok::<
                Seq<Seq<char>>,
                Seq<char>,
            >(strs(v@)),
            Err(AppError::Message(m)) => selection_outcome(
                strs(selected_terms@),
                str_views(omitted_terms@),
            ) == Err::<Seq<Seq<char>>, Seq<char>>(m@),
        },
{
    let ghost ss = strs(selected_terms@);
    let ghost os = str_views(omitted_terms@);
    if selected_terms.len() == 0 {
        return Err(AppError::Message(SELECT_ONE_MESSAGE.to_string()));
    }
    if selected_terms.len() > 30 {
        return Err(AppError::Message(TOO_MANY_MESSAGE.to_string()));
    }
    let mut validated: Vec<String> = Vec::new();
    let mut i: usize = 0;
    assert(ss.take(0) =~= Seq::<Seq<char>>::empty());
    assert(strs(validated@) =~= Seq::<Seq<char>>::empty());
    while i < selected_terms.len()
        invariant
            i <= selected_terms@.len(),
            0 < selected_terms@.len() <= 30,
            ss == strs(selected_terms@),
            os == str_views(omitted_terms@),
            validated_terms(ss.take(i as int), os) == Ok::<Seq<Seq<char>>, Seq<char>>(
                strs(validated@),
            ),
        decreases selected_terms@.len() - i,
    {
        assert(ss.take(i + 1).drop_last() =~= ss.take(i as int));
        let selected = trim_str(selected_terms[i].as_str());
        if selected.len() == 0 || selected.len() > 200 {
            proof {
                lemma_validated_prefix_err(ss, os, i as int);
            }
            return Err(AppError::Message(PHRASE_LENGTH_MESSAGE.to_string()));
        }
        let found = first_named(omitted_terms, &selected);
        let k = match found {
            Some(k) => k,
            None => {
                let mut m = String::new();
                push_str(&mut m, NOT_OMITTED_MESSAGE);
                let s = string_of(&selected);
                push_str(&mut m, s.as_str());
                proof {
                    reveal_strlit("");
                    lemma_validated_prefix_err(ss, os, i as int);
                }
                return Err(AppError::Message(m));
            },
        };
        let canonical = omitted_terms[k];
        let ghost before = strs(validated@);
        assert(ss.take(i + 1).last() == ss[i as int]);
        assert(os[k as int] == canonical@);
        if !already_kept(&validated, canonical) {
            validated.push(canonical.to_string());
            assert(strs(validated@) =~= before.push(canonical@));
        }
        i += 1;
    }
    assert(ss.take(i as int) =~= ss);
    if validated.len() == 0 {
        return Err(AppError::Message(SELECT_DISTINCT_MESSAGE.to_string()));
    }
    Ok(validated)
}

/// Once the walk refuses a prefix, it refuses the whole list with the same words.
proof fn lemma_validated_prefix_err(ss: Seq<Seq<char>>, os: Seq<Seq<char>>, i: int)
    requires
        0 <= i < ss.len(),
        validated_terms(ss.take(i + 1), os) is Err,
    ensures
        validated_terms(ss, os) == validated_terms(ss.take(i + 1), os),
    decreases ss.len(),
{
    if ss.len() > i + 1 {
        assert(ss.drop_last().take(i + 1) =~= ss.take(i + 1));
        lemma_validated_prefix_err(ss.drop_last(), os, i);
    } else {
        assert(ss.take(i + 1) =~= ss);
    }
}


// ------------------------------------------------------------------ stored results

/// A run's outcome as it is kept on disk and shown again on the next start.
#[derive(Debug)]
pub struct StoredPipelineResult {
    pub schema_version: u8,
    pub capture_received_at_ms: u64,
    pub language: String,
    pub recovered_from_artifacts: bool,
    pub status: String,
    pub summary: String,
    pub failed_stage: Option<String>,
    pub error: Option<String>,
    pub analysis: Json,
    pub resume: Json,
}

/// The version of the stored-result layout this library writes.
pub const RESULT_SCHEMA_VERSION: u8 = 2;

pub const MISSING_SUMMARY: &'static str = "A previous run completed, but its summary was unavailable.";

/// The summary an older result shows: its own when it has one, else the analysis summary when
/// that is not blank, else a fixed notice.
pub open spec fn normalized_summary(summary: Seq<char>, analysis: JsonView) -> Seq<char> {
    if trimmed(summary).len() > 0 {
        summary
    } else {
        match text_of(field(analysis, "summary"@)) {
            Some(t) => if trimmed(t).len() > 0 {
                t
            } else {
                MISSING_SUMMARY@
            },
            None => MISSING_SUMMARY@,
        }
    }
}

/// The status an older result shows: its own when it has one, else the tailoring status the
/// resume recorded, else `failed` when no analysis was kept and `analysis_ready` when one was.
pub open spec fn normalized_status(status: Seq<char>, analysis: JsonView, resume: JsonView) -> Seq<
    char,
> {
    if trimmed(status).len() > 0 {
        status
    } else {
        match text_of(field(resume, "tailoring_status"@)) {
            Some(t) => t,
            None => if analysis is Null {
                "failed"@
            } else {
                "analysis_ready"@
            },
        }
    }
}

/// Fills in the summary and status of a result stored before they were recorded.
pub fn normalize_stored_result(result: StoredPipelineResult) -> (r: StoredPipelineResult)
    ensures
        r.summary@ == normalized_summary(result.summary@, result.analysis@),
        r.status@ == normalized_status(result.status@, result.analysis@, result.resume@),
        r.schema_version == result.schema_version,
        r.capture_received_at_ms == result.capture_received_at_ms,
        r.language@ == result.language@,
        r.recovered_from_artifacts == result.recovered_from_artifacts,
        r.failed_stage == result.failed_stage,
        r.error == result.error,
        r.analysis@ == result.analysis@,
        r.resume@ == result.resume@,
{
    let mut result = result;
    if trim_str(result.summary.as_str()).len() == 0 {
        let from_analysis = match result.analysis.get("summary") {
            Some(v) => match v.as_str() {
                Some(t) => if trim_str(t).len() > 0 {
                    Some(t.to_string())
                } else {
                    None
                },
                None => None,
            },
            None => None,
        };
        result.summary = match from_analysis {
            Some(t) => t,
            None => MISSING_SUMMARY.to_string(),
        };
    }
    if trim_str(result.status.as_str()).len() == 0 {
        let recorded = match result.resume.get("tailoring_status") {
            Some(v) => match v.as_str() {
                Some(t) => Some(t.to_string()),
                None => None,
            },
            None => None,
        };
        result.status = match recorded {
            Some(t) => t,
            None => match result.analysis {
                Json::Null => "failed".to_string(),
                _ => "analysis_ready".to_string(),
            },
        };
    }
    result
}

// ------------------------------------------------------------------ preflight and evidence

/// The analysis and the evidence preflight resolved for it.
#[derive(Debug)]
pub struct PreflightResult {
    pub analysis: JobAnalysis,
    pub items: Vec<PreflightItem>,
}

/// Resolves the analysis against the base resume and evidence bank of `language`; any
/// language but `en` and `fr` is refused.
pub fn prepare_preflight_result(
    language: &str,
    analysis: JobAnalysis,
    base_resume: &Json,
    bank: &EvidenceBank,
) -> (r: Result<PreflightResult, AppError>)
    ensures
        match r {
            Ok(p) => command_language(language@) && p.analysis == analysis && item_views(p.items@)
                == preflight_view(analysis, base_resume@, entry_views(bank.entries@)),
            Err(AppError::Message(m)) => !command_language(language@) && m@ == LANGUAGE_MESSAGE@,
        },
{
    check_language(language)?;
    let items = preflight_items(&analysis, base_resume, bank);
    Ok(PreflightResult { analysis, items })
}

/// Saves this session's confirmations into `bank`, then assembles everything the tailoring
/// model may rely on: the fresh confirmations plus every attested bank entry the preflight
/// resolved for this job.
pub fn build_approved_evidence(
    bank: &mut EvidenceBank,
    base_resume: &Json,
    analysis: &JobAnalysis,
    selected: &[SelectedEvidence],
) -> (r: Vec<EvidenceEntry>)
    ensures
        entry_views(final(bank).entries@) == upsert_all(
            entry_views(old(bank).entries@),
            selection_views(selected@),
        ),
        final(bank).version == 2,
        entry_views(r@) == approved_view(
            preflight_view(*analysis, base_resume@, entry_views(final(bank).entries@)),
            entry_views(final(bank).entries@),
            selection_views(selected@),
        ),
{
    save_selected_evidence(bank, selected);
    let preflight = preflight_items(analysis, base_resume, bank);
    approved_evidence_for(&preflight, bank, selected)
}

/// What the window sends to start tailoring after the evidence review.
#[derive(Debug)]
pub struct GenerateTailoredResumeRequest {
    pub language: String,
    pub analysis: JobAnalysis,
    pub selected_evidence: Vec<SelectedEvidence>,
}

/// What the window sends to re-tailor a shown result with omitted phrases the user vouches for.
#[derive(Debug)]
pub struct RetailorResumeRequest {
    pub capture_id: u64,
    pub language: String,
    pub source_variant_slug: String,
    pub selected_terms: Vec<String>,
}


// ------------------------------------------------------------------ re-tailoring sources

pub const STALE_CAPTURE_MESSAGE: &'static str = "The displayed result no longer matches the latest captured job.";

pub const STORED_MISMATCH_MESSAGE: &'static str = "The stored result does not match the requested capture and language.";

pub const NO_VARIANT_MESSAGE: &'static str = "The source result has no saved variant.";

pub const STALE_VARIANT_MESSAGE: &'static str = "The displayed variant is stale. Reload the latest result before re-tailoring.";

pub const NO_SCORE_MESSAGE: &'static str = "The source result has no ATS score.";

pub const NO_OMITTED_MESSAGE: &'static str = "The source result has no omitted phrase list.";

/// Refuses a re-tailoring request made for another capture than the latest one.
pub fn check_retailor_capture(request: &RetailorResumeRequest, capture_id: u64) -> (r: Result<
    (),
    AppError,
>)
    ensures
        match r {
            Ok(()) => capture_id == request.capture_id,
            Err(AppError::Message(m)) => capture_id != request.capture_id && m@
                == STALE_CAPTURE_MESSAGE@,
        },
{
    if capture_id != request.capture_id {
        return Err(AppError::Message(STALE_CAPTURE_MESSAGE.to_string()));
    }
    Ok(())
}

/// The ATS score of a stored resume: the measured one, or for results stored before scoring
/// existed the model's estimate; a value that does not fit 0..=255 is none.
pub open spec fn stored_score(resume: JsonView) -> Option<u8> {
    let report = idx(resume, "report"@);
    let n = match number_u64(idx(idx(report, "ats_coverage"@), "score"@)) {
        Some(n) => Some(n),
        None => number_u64(idx(report, "estimated_ats_coverage_score"@)),
    };
    match n {
        Some(v) => if v <= 255 {
            Some(v as u8)
        } else {
            None
        },
        None => None,
    }
}

/// The strings among `xs`, in order.
pub open spec fn string_items(xs: Seq<JsonView>) -> Seq<Seq<char>>
    decreases xs.len(),
{
    if xs.len() == 0 {
        seq![]
    } else {
        let rest = string_items(xs.drop_last());
        match xs.last() {
            JsonView::Str(t) => rest.push(t),
            _ => rest,
        }
    }
}

/// What a stored result yields for a re-tailoring request, checked in order: the capture and
/// language, the variant shown, the source score, the omitted list, and the selection.
pub open spec fn retailor_source_of(
    stored_capture: u64,
    stored_language: Seq<char>,
    resume: JsonView,
    capture_id: u64,
    language: Seq<char>,
    slug: Seq<char>,
    selected: Seq<Seq<char>>,
) -> Result<(u8, Seq<Seq<char>>), Seq<char>> {
    if stored_capture != capture_id || stored_language != language {
        Err(STORED_MISMATCH_MESSAGE@)
    } else {
        match text_of(field(resume, "variant_slug"@)) {
            None => Err(NO_VARIANT_MESSAGE@),
            Some(v) => if v != slug {
                Err(STALE_VARIANT_MESSAGE@)
            } else {
                match stored_score(resume) {
                    None => Err(NO_SCORE_MESSAGE@),
                    Some(score) => match idx(idx(resume, "report"@), "omitted_unsupported_keywords"@) {
                        JsonView::Array(xs) => match selection_outcome(selected, string_items(xs)) {
                            Ok(v) => Ok((score, v)),
                            Err(m) => Err(m),
                        },
                        _ => Err(NO_OMITTED_MESSAGE@),
                    },
                }
            },
        }
    }
}

/// The source of a re-tailoring run: its score and the validated phrases to add.
#[derive(Debug)]
pub struct RetailorSource {
    pub source_ats_score: u8,
    pub selected_terms: Vec<String>,
}

fn string_items_of(xs: &Vec<Json>) -> (r: Vec<&str>)
    ensures
        str_views(r@) == string_items(views_of(xs@)),
{
    proof {
        lemma_views_of(xs@);
    }
    let ghost vs = views_of(xs@);
    let mut out: Vec<&str> = Vec::new();
    let mut i: usize = 0;
    while i < xs.len()
        invariant
            i <= xs@.len(),
            vs == views_of(xs@),
            vs.len() == xs@.len(),
            forall|k: int| 0 <= k < xs@.len() ==> #[trigger] vs[k] == xs@[k]@,
            str_views(out@) == string_items(vs.take(i as int)),
        decreases xs@.len() - i,
    {
        assert(vs.take(i + 1).drop_last() =~= vs.take(i as int));
        assert(vs.take(i + 1).last() == vs[i as int]);
        let ghost before = str_views(out@);
        match xs[i].as_str() {
            Some(t) => {
                out.push(t);
                assert(str_views(out@) =~= before.push(t@));
            },
            None => {},
        }
        i += 1;
    }
    assert(vs.take(i as int) =~= vs);
    out
}

/// Checks a stored result against a re-tailoring request and yields the source score and the
/// validated phrases.
pub fn retailor_source(
    stored: &StoredPipelineResult,
    request: &RetailorResumeRequest,
    capture_id: u64,
) -> (r: Result<RetailorSource, AppError>)
    ensures
        match r {
            Ok(src) => retailor_source_of(
                stored.capture_received_at_ms,
                stored.language@,
                stored.resume@,
                capture_id,
                request.language@,
                request.source_variant_slug@,
                strs(request.selected_terms@),
            ) == Ok::<(u8, Seq<Seq<char>>), Seq<char>>(
                (src.source_ats_score, strs(src.selected_terms@)),
            ),
            Err(AppError::Message(m)) => retailor_source_of(
                stored.capture_received_at_ms,
                stored.language@,
                stored.resume@,
                capture_id,
                request.language@,
                request.source_variant_slug@,
                strs(request.selected_terms@),
            ) == Err::<(u8, Seq<Seq<char>>), Seq<char>>(m@),
        },
{
    if stored.capture_received_at_ms != capture_id || !str_eq(
        stored.language.as_str(),
        request.language.as_str(),
    ) {
        return Err(AppError::Message(STORED_MISMATCH_MESSAGE.to_string()));
    }
    let slug = match stored.resume.get("variant_slug") {
        Some(v) => v.as_str(),
        None => None,
    };
    let slug = match slug {
        Some(s) => s,
        None => {
            return Err(AppError::Message(NO_VARIANT_MESSAGE.to_string()));
        },
    };
    if !str_eq(slug, request.source_variant_slug.as_str()) {
        return Err(AppError::Message(STALE_VARIANT_MESSAGE.to_string()));
    }
    let null = Json::Null;
    let report = index_key(&stored.resume, "report", &null);
    let measured = as_u64(Some(index_key(index_key(report, "ats_coverage", &null), "score", &null)));
    let n = match measured {
        Some(n) => Some(n),
        None => as_u64(Some(index_key(report, "estimated_ats_coverage_score", &null))),
    };
    let score: u8 = match n {
        Some(v) => if v <= 255 {
            v as u8
        } else {
            return Err(AppError::Message(NO_SCORE_MESSAGE.to_string()));
        },
        None => {
            return Err(AppError::Message(NO_SCORE_MESSAGE.to_string()));
        },
    };
    let omitted = match index_key(report, "omitted_unsupported_keywords", &null).as_array() {
        Some(xs) => string_items_of(xs),
        None => {
            return Err(AppError::Message(NO_OMITTED_MESSAGE.to_string()));
        },
    };
    let selected = validate_selected_omitted_terms(request.selected_terms.as_slice(), omitted.as_slice())?;
    Ok(RetailorSource { source_ats_score: score, selected_terms: selected })
}

/// The confirmation a re-tailoring run records for each phrase the user picked: its kind as
/// the analysis implies it, no note, and permission to place it in any plausible role.
pub open spec fn retailor_selection(analysis: JobAnalysis, term: Seq<char>) -> SelectionView {
    SelectionView {
        term,
        kind: selected_term_kind(analysis, term),
        note: None,
        allow_model_role_placement: true,
    }
}

/// The confirmations for `terms`, in order.
pub fn retailor_selected_evidence(analysis: &JobAnalysis, terms: &[String]) -> (r: Vec<
    SelectedEvidence,
>)
    ensures
        selection_views(r@) == strs(terms@).map_values(
            |t: Seq<char>| retailor_selection(*analysis, t),
        ),
{
    let ghost ts = strs(terms@);
    let mut out: Vec<SelectedEvidence> = Vec::new();
    let mut i: usize = 0;
    while i < terms.len()
        invariant
            i <= terms@.len(),
            ts == strs(terms@),
            selection_views(out@) == ts.take(i as int).map_values(
                |t: Seq<char>| retailor_selection(*analysis, t),
            ),
        decreases terms@.len() - i,
    {
        let ghost before = selection_views(out@);
        out.push(
            SelectedEvidence {
                term: terms[i].clone(),
                kind: infer_selected_term_kind(analysis, terms[i].as_str()),
                note: None,
                allow_model_role_placement: true,
            },
        );
        assert(selection_views(out@) =~= before.push(retailor_selection(*analysis, ts[i as int])));
        assert(ts.take(i + 1).map_values(|t: Seq<char>| retailor_selection(*analysis, t))
            =~= ts.take(i as int).map_values(|t: Seq<char>| retailor_selection(*analysis, t)).push(
            retailor_selection(*analysis, ts[i as int]),
        ));
        i += 1;
    }
    assert(ts.take(i as int) =~= ts);
    out
}

/// The confirmations among `sel` for phrases the preflight `items` does not already find
/// supported. A phrase the base resume or the bank already backs gets no new bank entry: the
/// bank is read by every later job, and the user never attested such a phrase.
pub open spec fn unsupported_selections(sel: Seq<SelectionView>, items: Seq<ItemView>) -> Seq<
    SelectionView,
>
    decreases sel.len(),
{
    if sel.len() == 0 {
        seq![]
    } else {
        let rest = unsupported_selections(sel.drop_last(), items);
        if evidence_available(items, sel.last().term) {
            rest
        } else {
            rest.push(sel.last())
        }
    }
}

/// A re-tailoring run saves a confirmation exactly for each picked phrase the preflight does
/// not already find supported, in the order picked.
pub proof fn lemma_supported_phrases_are_not_saved(sel: Seq<SelectionView>, items: Seq<ItemView>)
    ensures
        forall|k: int|
            0 <= k < unsupported_selections(sel, items).len() ==> !evidence_available(
                items,
                #[trigger] unsupported_selections(sel, items)[k].term,
            ),
        forall|k: int|
            0 <= k < sel.len() && !evidence_available(items, #[trigger] sel[k].term)
                ==> unsupported_selections(sel, items).contains(sel[k]),
        unsupported_selections(sel, items).len() <= sel.len(),
    decreases sel.len(),
{
    if sel.len() > 0 {
        let t = sel.drop_last();
        lemma_supported_phrases_are_not_saved(t, items);
        let rest = unsupported_selections(t, items);
        assert forall|k: int|
            0 <= k < sel.len() && !evidence_available(items, #[trigger] sel[k].term)
                implies unsupported_selections(sel, items).contains(sel[k]) by {
            if k < sel.len() - 1 {
                assert(t[k] == sel[k]);
                assert(rest.contains(t[k]));
                let j = choose|j: int| 0 <= j < rest.len() && rest[j] == t[k];
                if !evidence_available(items, sel.last().term) {
                    assert(rest.push(sel.last())[j] == sel[k]);
                }
            } else {
                assert(rest.push(sel.last())[rest.len() as int] == sel[k]);
            }
        }
    }
}

fn copy_selection(s: &SelectedEvidence) -> (r: SelectedEvidence)
    ensures
        r@ == s@,
{
    SelectedEvidence {
        term: s.term.clone(),
        kind: s.kind.clone(),
        note: copy_note(&s.note),
        allow_model_role_placement: s.allow_model_role_placement,
    }
}

fn unsupported_only(selected: &[SelectedEvidence], preflight: &Vec<PreflightItem>) -> (r: Vec<
    SelectedEvidence,
>)
    ensures
        selection_views(r@) == unsupported_selections(
            selection_views(selected@),
            item_views(preflight@),
        ),
{
    let ghost sv = selection_views(selected@);
    let ghost its = item_views(preflight@);
    let mut out: Vec<SelectedEvidence> = Vec::new();
    let mut i: usize = 0;
    while i < selected.len()
        invariant
            i <= selected@.len(),
            sv == selection_views(selected@),
            its == item_views(preflight@),
            selection_views(out@) == unsupported_selections(sv.take(i as int), its),
        decreases selected@.len() - i,
    {
        assert(sv.take(i + 1).drop_last() =~= sv.take(i as int));
        if !evidence_is_available(preflight.as_slice(), selected[i].term.as_str()) {
            let ghost before = selection_views(out@);
            out.push(copy_selection(&selected[i]));
            assert(selection_views(out@) =~= before.push(sv[i as int]));
        }
        i += 1;
    }
    assert(sv.take(i as int) =~= sv);
    out
}

/// Saves the re-tailoring confirmations into `bank`, except for phrases the preflight already
/// finds supported, and assembles the evidence the run may rely on: the preflight's attested
/// entries and every confirmation, plus every bank entry naming a picked phrase that is not
/// there yet.
pub fn retailor_approved_evidence(
    bank: &mut EvidenceBank,
    base_resume: &Json,
    analysis: &JobAnalysis,
    selected: &[SelectedEvidence],
    terms: &[String],
) -> (r: Vec<EvidenceEntry>)
    ensures
        entry_views(final(bank).entries@) == upsert_all(
            entry_views(old(bank).entries@),
            unsupported_selections(
                selection_views(selected@),
                preflight_view(*analysis, base_resume@, entry_views(old(bank).entries@)),
            ),
        ),
        final(bank).version == 2,
        entry_views(r@) == append_banked(
            approved_view(
                preflight_view(*analysis, base_resume@, entry_views(final(bank).entries@)),
                entry_views(final(bank).entries@),
                selection_views(selected@),
            ),
            entry_views(final(bank).entries@),
            strs(terms@),
        ),
{
    let before = preflight_items(analysis, base_resume, bank);
    let to_save = unsupported_only(selected, &before);
    save_selected_evidence(bank, to_save.as_slice());
    let preflight = preflight_items(analysis, base_resume, bank);
    let mut approved = approved_evidence_for(preflight.as_slice(), bank, selected);
    append_banked_terms(&mut approved, bank, terms);
    approved
}

/// What a re-tailored result records of its source.
#[derive(Clone, Debug)]
pub struct RetailorMetadata {
    pub source_variant_slug: String,
    pub source_ats_score: u8,
    pub selected_terms: Vec<String>,
}


// ------------------------------------------------------------------ results recovered from artifacts

pub const RECOVERED_PDF_MISSING: &'static str = "Recovered tailoring data; PDF was not available.";

/// How many of the changes rewrote an experience bullet.
pub open spec fn experience_changes(cs: Seq<ChangeView>) -> nat
    decreases cs.len(),
{
    if cs.len() == 0 {
        0
    } else {
        experience_changes(cs.drop_last()) + if starts_with(cs.last().path, "/experience/"@) {
            1nat
        } else {
            0nat
        }
    }
}

/// How many bullets the jobs hold; a job without a bullet array holds none.
pub open spec fn bullet_total(jobs: Seq<JsonView>) -> nat
    decreases jobs.len(),
{
    if jobs.len() == 0 {
        0
    } else {
        bullet_total(jobs.drop_last()) + arr(idx(jobs.last(), "bullets"@)).len()
    }
}

/// Some decision replaced its bullet outright.
pub open spec fn any_replaced(ds: Seq<DecisionView>) -> bool {
    exists|k: int| 0 <= k < ds.len() && (#[trigger] ds[k]).outcome == BulletRewriteOutcome::Replaced
}

/// How hard the recovered run rewrote: `max` when a bullet was replaced, `high` when every
/// base bullet changed, `balanced` otherwise.
pub open spec fn recovered_emphasis(replaced: bool, total: nat, changed: nat) -> Seq<char> {
    if replaced {
        "max"@
    } else if total > 0 && changed == total {
        "high"@
    } else {
        "balanced"@
    }
}

/// The summary of a recovered run.
pub open spec fn recovered_summary(score: u8, covered: nat, omitted: nat) -> Seq<char> {
    "Tailoring completed with "@ + decimal(score as nat) + " measured ATS coverage. "@ + decimal(
        covered,
    ) + " job keywords were covered; "@ + decimal(omitted) + " were not."@
}

/// The score a report shows: the measured one when it has it, else the model's estimate.
pub open spec fn report_score(report: TailoringReport) -> u8 {
    match report.ats_coverage {
        Some(c) => c.score,
        None => report.model_estimated_ats_coverage_score,
    }
}

/// One change as the stored result records it.
pub open spec fn change_json(c: ChangeView) -> JsonView {
    JsonView::Object(
        seq![
            ("after"@, JsonView::Str(c.after)),
            ("before"@, JsonView::Str(c.before)),
            ("path"@, JsonView::Str(c.path)),
        ],
    )
}

pub open spec fn text_if(b: bool, t: Seq<char>) -> JsonView {
    if b {
        JsonView::Str(t)
    } else {
        JsonView::Null
    }
}

/// The resume record of a recovered run, members in key order.
pub open spec fn recovered_resume(
    emphasis: Seq<char>,
    changes: Seq<ChangeView>,
    changed: nat,
    report: JsonView,
    tailored: JsonView,
    variant_slug: Option<Seq<char>>,
    variant_json_path: Seq<char>,
    report_json_path: Seq<char>,
    docx_path: Seq<char>,
    pdf_path: Seq<char>,
    docx_ready: bool,
    pdf_ready: bool,
) -> JsonView {
    JsonView::Object(
        seq![
            ("bullet_keyword_emphasis"@, JsonView::Str(emphasis)),
            ("content_changes"@, JsonView::Array(changes.map_values(|c: ChangeView| change_json(c)))),
            ("docx_open_error"@, JsonView::Null),
            ("docx_opened"@, JsonView::Bool(false)),
            ("docx_path"@, text_if(docx_ready, docx_path)),
            ("downloads_docx_error"@, JsonView::Null),
            ("downloads_docx_path"@, JsonView::Null),
            ("downloads_error"@, JsonView::Null),
            ("downloads_pdf_path"@, JsonView::Null),
            ("error"@, text_if(!pdf_ready, RECOVERED_PDF_MISSING@)),
            ("experience_bullets_changed"@, JsonView::Number(decimal(changed))),
            ("fit_status"@, JsonView::Str(if pdf_ready { "passed"@ } else { "not_run"@ })),
            ("latest_docx_path"@, text_if(docx_ready, docx_path)),
            ("latest_pdf_path"@, text_if(pdf_ready, pdf_path)),
            ("page_count"@, if pdf_ready { JsonView::Number("1"@) } else { JsonView::Null }),
            ("pdf_path"@, text_if(pdf_ready, pdf_path)),
            ("report"@, report),
            ("report_json_path"@, JsonView::Str(report_json_path)),
            ("success"@, JsonView::Bool(pdf_ready)),
            ("tailored_content"@, tailored),
            ("tailoring_status"@, JsonView::Str(if pdf_ready { "completed"@ } else { "partial"@ })),
            ("validation_status"@, JsonView::Str(if docx_ready { "passed"@ } else { "not_run"@ })),
            ("variant_json_path"@, JsonView::Str(variant_json_path)),
            ("variant_slug"@, match variant_slug {
                Some(v) => JsonView::Str(v),
                None => JsonView::Null,
            }),
        ],
    )
}

fn text_or_null(b: bool, t: &String) -> (r: Json)
    ensures
        r@ == text_if(b, t@),
{
    if b {
        Json::Str(t.clone())
    } else {
        Json::Null
    }
}

fn decimal_json(n: u64) -> (r: Json)
    ensures
        r@ == JsonView::Number(decimal(n as nat)),
{
    let mut s = String::new();
    proof {
        reveal_strlit("");
    }
    push_decimal(&mut s, n);
    Json::Number(s)
}

fn changes_json(changes: &Vec<ContentChange>) -> (r: Json)
    ensures
        r@ == JsonView::Array(change_views(changes@).map_values(|c: ChangeView| change_json(c))),
{
    let ghost cv = change_views(changes@);
    let mut items: Vec<Json> = Vec::new();
    let mut i: usize = 0;
    while i < changes.len()
        invariant
            i <= changes@.len(),
            cv == change_views(changes@),
            views_of(items@) == cv.take(i as int).map_values(|c: ChangeView| change_json(c)),
        decreases changes@.len() - i,
    {
        let mut members: Vec<(String, Json)> = Vec::new();
        push_member(&mut members, "after", Json::Str(changes[i].after.clone()));
        push_member(&mut members, "before", Json::Str(changes[i].before.clone()));
        push_member(&mut members, "path", Json::Str(changes[i].path.clone()));
        let ghost before = items@;
        let item = Json::Object(members);
        assert(item@ == change_json(cv[i as int])) by {
            assert(member_views(members@) =~= seq![
                ("after"@, JsonView::Str(cv[i as int].after)),
                ("before"@, JsonView::Str(cv[i as int].before)),
                ("path"@, JsonView::Str(cv[i as int].path)),
            ]);
        }
        items.push(item);
        proof {
            lemma_views_of(before);
            lemma_views_of(items@);
            assert(views_of(items@) =~= views_of(before).push(item@));
        }
        assert(cv.take(i + 1).map_values(|c: ChangeView| change_json(c)) =~= cv.take(
            i as int,
        ).map_values(|c: ChangeView| change_json(c)).push(change_json(cv[i as int])));
        i += 1;
    }
    assert(cv.take(i as int) =~= cv);
    Json::Array(items)
}

fn count_experience_changes(changes: &Vec<ContentChange>) -> (r: u64)
    ensures
        r == experience_changes(change_views(changes@)),
{
    let ghost cv = change_views(changes@);
    let prefix = chars_of("/experience/");
    let mut n: u64 = 0;
    let mut i: usize = 0;
    while i < changes.len()
        invariant
            i <= changes@.len(),
            cv == change_views(changes@),
            prefix@ == "/experience/"@,
            n == experience_changes(cv.take(i as int)),
            n <= i,
        decreases changes@.len() - i,
    {
        assert(cv.take(i + 1).drop_last() =~= cv.take(i as int));
        let path = chars_of(changes[i].path.as_str());
        if has_prefix(path.as_slice(), prefix.as_slice()) {
            n = n + 1;
        }
        i += 1;
    }
    assert(cv.take(i as int) =~= cv);
    n
}

fn count_base_bullets(base: &Json) -> (r: u128)
    ensures
        r == bullet_total(arr(idx(base@, "experience"@))),
{
    let null = Json::Null;
    let empty: Vec<Json> = Vec::new();
    let jobs = match index_key(base, "experience", &null).as_array() {
        Some(xs) => xs,
        None => {
            proof {
                assert(arr(idx(base@, "experience"@)) =~= Seq::<JsonView>::empty());
            }
            return 0;
        },
    };
    proof {
        lemma_views_of(jobs@);
    }
    let ghost jv = views_of(jobs@);
    let mut total: u128 = 0;
    let mut i: usize = 0;
    while i < jobs.len()
        invariant
            i <= jobs@.len(),
            jv == views_of(jobs@),
            jv == arr(idx(base@, "experience"@)),
            jv.len() == jobs@.len(),
            forall|k: int| 0 <= k < jobs@.len() ==> #[trigger] jv[k] == jobs@[k]@,
            null@ == JsonView::Null,
            total == bullet_total(jv.take(i as int)),
            total <= i * 0x1_0000_0000_0000_0000,
        decreases jobs@.len() - i,
    {
        assert(jv.take(i + 1).drop_last() =~= jv.take(i as int));
        assert(jv.take(i + 1).last() == jv[i as int]);
        let n: usize = match index_key(&jobs[i], "bullets", &null).as_array() {
            Some(bs) => {
                proof {
                    lemma_views_of(bs@);
                }
                bs.len()
            },
            None => 0,
        };
        total = total + n as u128;
        i += 1;
    }
    assert(jv.take(i as int) =~= jv);
    total
}

fn replaced_any(decisions: &Vec<BulletRewriteDecision>) -> (r: bool)
    ensures
        r == any_replaced(decision_views(decisions@)),
{
    let ghost dv = decision_views(decisions@);
    let mut i: usize = 0;
    while i < decisions.len()
        invariant
            i <= decisions@.len(),
            dv == decision_views(decisions@),
            forall|k: int| 0 <= k < i ==> (#[trigger] dv[k]).outcome != BulletRewriteOutcome::Replaced,
        decreases decisions@.len() - i,
    {
        if decisions[i].outcome == BulletRewriteOutcome::Replaced {
            assert(dv[i as int].outcome == BulletRewriteOutcome::Replaced);
            return true;
        }
        i += 1;
    }
    false
}

#[verifier::rlimit(100)]
fn recovered_resume_json(
    emphasis: &str,
    changes: &Vec<ContentChange>,
    changed: u64,
    report_json: Json,
    tailored: &Json,
    variant_slug: Option<String>,
    variant_json_path: String,
    report_json_path: String,
    docx_path: &String,
    pdf_path: &String,
    docx_ready: bool,
    pdf_ready: bool,
) -> (r: Json)
    ensures
        r@ == recovered_resume(
            emphasis@,
            change_views(changes@),
            changed as nat,
            report_json@,
            tailored@,
            match variant_slug {
                Some(v) => Some(v@),
                None => None,
            },
            variant_json_path@,
            report_json_path@,
            docx_path@,
            pdf_path@,
            docx_ready,
            pdf_ready,
        ),
{
    let ghost expected = crate::tailoring::obj(
        recovered_resume(
            emphasis@,
            change_views(changes@),
            changed as nat,
            report_json@,
            tailored@,
            crate::config::opt_view(variant_slug),
            variant_json_path@,
            report_json_path@,
            docx_path@,
            pdf_path@,
            docx_ready,
            pdf_ready,
        ),
    );
    let missing = RECOVERED_PDF_MISSING.to_string();
    let mut m: Vec<(String, Json)> = Vec::new();
    push_member(&mut m, "bullet_keyword_emphasis", Json::Str(emphasis.to_string()));
    push_member(&mut m, "content_changes", changes_json(changes));
    push_member(&mut m, "docx_open_error", Json::Null);
    push_member(&mut m, "docx_opened", Json::Bool(false));
    push_member(&mut m, "docx_path", text_or_null(docx_ready, docx_path));
    push_member(&mut m, "downloads_docx_error", Json::Null);
    push_member(&mut m, "downloads_docx_path", Json::Null);
    push_member(&mut m, "downloads_error", Json::Null);
    push_member(&mut m, "downloads_pdf_path", Json::Null);
    push_member(&mut m, "error", text_or_null(!pdf_ready, &missing));
    push_member(&mut m, "experience_bullets_changed", decimal_json(changed));
    push_member(&mut m, "fit_status", Json::Str(if pdf_ready { "passed" } else { "not_run" }.to_string()));
    push_member(&mut m, "latest_docx_path", text_or_null(docx_ready, docx_path));
    push_member(&mut m, "latest_pdf_path", text_or_null(pdf_ready, pdf_path));
    let page_count = if pdf_ready {
        proof {
            reveal_strlit("1");
        }
        Json::Number("1".to_string())
    } else {
        Json::Null
    };
    push_member(&mut m, "page_count", page_count);
    push_member(&mut m, "pdf_path", text_or_null(pdf_ready, pdf_path));
    push_member(&mut m, "report", report_json);
    push_member(&mut m, "report_json_path", Json::Str(report_json_path));
    push_member(&mut m, "success", Json::Bool(pdf_ready));
    push_member(&mut m, "tailored_content", tailored.deep_copy());
    push_member(
        &mut m,
        "tailoring_status",
        Json::Str(if pdf_ready { "completed" } else { "partial" }.to_string()),
    );
    push_member(
        &mut m,
        "validation_status",
        Json::Str(if docx_ready { "passed" } else { "not_run" }.to_string()),
    );
    push_member(&mut m, "variant_json_path", Json::Str(variant_json_path));
    let slug_json = match variant_slug {
        Some(v) => Json::Str(v),
        None => Json::Null,
    };
    push_member(&mut m, "variant_slug", slug_json);
    assert(member_views(m@) =~= expected);
    Json::Object(m)
}

/// The stored result rebuilt from a variant's files when the run's own snapshot is missing:
/// the diff against the base resume, the emphasis the rewrite reached, and a summary from
/// the report. `report_json` is the report as its file holds it.
#[verifier::rlimit(40)]
pub fn recovered_result(
    capture_id: u64,
    language: &str,
    base: &Json,
    tailored: &Json,
    report: &TailoringReport,
    report_json: Json,
    variant_slug: Option<String>,
    variant_json_path: String,
    report_json_path: String,
    docx_path: String,
    pdf_path: String,
    docx_ready: bool,
    pdf_ready: bool,
) -> (r: StoredPipelineResult)
    requires
        diffable(base@, tailored@),
    ensures
        ({
            let changes = content_changes_of(base@, tailored@);
            let changed = experience_changes(changes);
            let summary = recovered_summary(
                report_score(*report),
                report.covered_keywords@.len(),
                report.omitted_unsupported_keywords@.len(),
            );
            &&& r.schema_version == RESULT_SCHEMA_VERSION
            &&& r.capture_received_at_ms == capture_id
            &&& r.language@ == language@
            &&& r.recovered_from_artifacts
            &&& r.status@ == (if pdf_ready { "completed"@ } else { "partial"@ })
            &&& r.summary@ == summary
            &&& r.failed_stage is None
            &&& (r.error matches Some(e) ==> e@ == RECOVERED_PDF_MISSING@)
            &&& (r.error is Some <==> !pdf_ready)
            &&& r.analysis@ == JsonView::Object(seq![("summary"@, JsonView::Str(summary))])
            &&& r.resume@ == recovered_resume(
                recovered_emphasis(
                    any_replaced(decision_views(report.bullet_rewrite_decisions@)),
                    bullet_total(arr(idx(base@, "experience"@))),
                    changed,
                ),
                changes,
                changed,
                report_json@,
                tailored@,
                match variant_slug {
                    Some(v) => Some(v@),
                    None => None,
                },
                variant_json_path@,
                report_json_path@,
                docx_path@,
                pdf_path@,
                docx_ready,
                pdf_ready,
            )
        }),
{
    let changes = content_changes(base, tailored);
    let changed = count_experience_changes(&changes);
    proof {
        lemma_experience_changes_bound(change_views(changes@));
    }
    let total = count_base_bullets(base);
    let replaced = replaced_any(&report.bullet_rewrite_decisions);
    let emphasis = if replaced {
        "max"
    } else if total > 0 && changed as u128 == total {
        "high"
    } else {
        "balanced"
    };
    let score = match &report.ats_coverage {
        Some(c) => c.score,
        None => report.model_estimated_ats_coverage_score,
    };
    let mut summary = String::new();
    proof {
        reveal_strlit("");
    }
    push_str(&mut summary, "Tailoring completed with ");
    push_decimal(&mut summary, score as u64);
    push_str(&mut summary, " measured ATS coverage. ");
    push_decimal(&mut summary, report.covered_keywords.len() as u64);
    push_str(&mut summary, " job keywords were covered; ");
    push_decimal(&mut summary, report.omitted_unsupported_keywords.len() as u64);
    push_str(&mut summary, " were not.");
    let mut analysis_members: Vec<(String, Json)> = Vec::new();
    push_member(&mut analysis_members, "summary", Json::Str(summary.clone()));
    assert(member_views(analysis_members@) =~= seq![("summary"@, JsonView::Str(summary@))]);
    let missing = RECOVERED_PDF_MISSING.to_string();
    let resume = recovered_resume_json(
        emphasis,
        &changes,
        changed,
        report_json,
        tailored,
        variant_slug,
        variant_json_path,
        report_json_path,
        &docx_path,
        &pdf_path,
        docx_ready,
        pdf_ready,
    );
    assert(score == report_score(*report));
    assert(summary@ == recovered_summary(
        report_score(*report),
        report.covered_keywords@.len(),
        report.omitted_unsupported_keywords@.len(),
    ));
    StoredPipelineResult {
        schema_version: RESULT_SCHEMA_VERSION,
        capture_received_at_ms: capture_id,
        language: language.to_string(),
        recovered_from_artifacts: true,
        status: if pdf_ready { "completed" } else { "partial" }.to_string(),
        summary,
        failed_stage: None,
        error: if pdf_ready {
            None
        } else {
            Some(missing)
        },
        analysis: Json::Object(analysis_members),
        resume,
    }
}

proof fn lemma_experience_changes_bound(cs: Seq<ChangeView>)
    ensures
        experience_changes(cs) <= cs.len(),
    decreases cs.len(),
{
    if cs.len() > 0 {
        lemma_experience_changes_bound(cs.drop_last());
    }
}

} // verus!
