//! The tailoring run, attempt by attempt: which response is accepted, which one goes back to
//! the model with a correction, and when the run gives up. The caller performs each model
//! call, render and page-fit check; these functions take what came back and decide.

use vstd::prelude::*;
use crate::text::{push_str, strs, trim_str, trimmed};
use crate::json::Json;
use crate::api_usage::UsageContext;
use crate::analysis::JobAnalysis;
use crate::ats::{
    coverage_of, covered_and_omitted, covered_terms, listed_terms, score_ats_coverage,
    term_views,
};
use crate::bank::{entry_views, EvidenceBank};
use crate::preflight::{item_views, preflight_items, preflight_view};
use crate::prompt::push_all_joined;
use crate::config::{clean_api_key, cleaned_key, opt_view, setting_or, setting_or_default, DEFAULT_BASE_URL};
use crate::tailoring::{
    all_bullet_texts, audited_all, content_problem, decision_views, joined, language_supported,
    lemma_validated_shape, missing_model_placement_terms, missing_placements,
    normalize_bullet_rewrite_decisions, pairs_of, rewrite_problem, tailored_ok,
    tailoring_error_text, unchanged_experience_bullets, unchanged_lines, unplaced,
    unplaced_supported_terms, validate_bullet_rewrites, validate_tailored_content,
    TailoredResume, TailoringError,
};

verus! {

/// How many model calls one tailoring run may spend.
pub const MAX_TAILORING_ATTEMPTS: usize = 4;

/// One progress event of a run, as the window shows it.
#[derive(Clone, Debug)]
pub struct PipelineProgress {
    pub stage: String,
    pub status: String,
    pub message: String,
    pub attempt: Option<usize>,
    pub total_attempts: Option<usize>,
}

pub struct ProgressView {
    pub stage: Seq<char>,
    pub status: Seq<char>,
    pub message: Seq<char>,
    pub attempt: Option<usize>,
    pub total_attempts: Option<usize>,
}

impl View for PipelineProgress {
    type V = ProgressView;

    open spec fn view(&self) -> ProgressView {
        ProgressView {
            stage: self.stage@,
            status: self.status@,
            message: self.message@,
            attempt: self.attempt,
            total_attempts: self.total_attempts,
        }
    }
}

/// The event for `stage` and `status`; an event tied to an attempt also carries the run's
/// attempt budget.
pub open spec fn progress_of(
    stage: Seq<char>,
    status: Seq<char>,
    message: Seq<char>,
    attempt: Option<usize>,
) -> ProgressView {
    ProgressView {
        stage,
        status,
        message,
        attempt,
        total_attempts: match attempt {
            Some(_) => Some(MAX_TAILORING_ATTEMPTS),
            None => None,
        },
    }
}

/// Builds one progress event.
pub fn progress(stage: &str, status: &str, message: String, attempt: Option<usize>) -> (r:
    PipelineProgress)
    ensures
        r@ == progress_of(stage@, status@, message@, attempt),
{
    PipelineProgress {
        stage: stage.to_string(),
        status: status.to_string(),
        message,
        attempt,
        total_attempts: match attempt {
            Some(_) => Some(MAX_TAILORING_ATTEMPTS),
            None => None,
        },
    }
}


/// Replaces the model's own keyword lists with the measured ledger: scores the tailored
/// content against the analysis, with the preflight resolved against `base` and `bank`, and
/// records the coverage and the covered and omitted terms in the report.
pub fn apply_measured_coverage(
    analysis: &JobAnalysis,
    base: &Json,
    bank: &EvidenceBank,
    locked: Option<&Json>,
    tailored: &mut TailoredResume,
)
    requires
        listed_terms(*analysis) <= 16_000_000,
    ensures
        final(tailored).content@ == old(tailored).content@,
        final(tailored).report.ats_coverage matches Some(c) && c@ == coverage_of(
            *analysis,
            old(tailored).content@,
            match locked {
                Some(j) => Some(j@),
                None => None,
            },
            preflight_view(*analysis, base@, entry_views(bank.entries@)),
        ) && strs(final(tailored).report.covered_keywords@) == covered_terms(
            term_views(c.terms@),
            true,
        ) && strs(final(tailored).report.omitted_unsupported_keywords@) == covered_terms(
            term_views(c.terms@),
            false,
        ),
        final(tailored).report.changed_fields@ == old(tailored).report.changed_fields@,
        final(tailored).report.safety_notes@ == old(tailored).report.safety_notes@,
        final(tailored).report.model_estimated_ats_coverage_score == old(
            tailored,
        ).report.model_estimated_ats_coverage_score,
        final(tailored).report.bullet_rewrite_decisions@ == old(
            tailored,
        ).report.bullet_rewrite_decisions@,
{
    let preflight = preflight_items(analysis, base, bank);
    let coverage = score_ats_coverage(analysis, &tailored.content, locked, &preflight);
    let (covered, omitted) = covered_and_omitted(&coverage);
    tailored.report.covered_keywords = covered;
    tailored.report.omitted_unsupported_keywords = omitted;
    tailored.report.ats_coverage = Some(coverage);
}


/// Opens every correction handed back to the model.
pub const REJECTED_LEAD: &'static str = "Your preceding response was rejected: ";

/// Closes the correction for a response that broke the resume's shape or locked facts.
pub const SHAPE_CORRECTION: &'static str = ". Return the resume JSON with exactly the input shape: same meta, same companies, locations, titles, dates and job order, same number of jobs, same number of bullets per job, and the same skill keys. Rewrite only the professional summary, the experience bullet text, and the skills strings.\n\n";

/// Closes the correction for a response whose bullet rewrites were refused.
pub const REWRITE_CORRECTION: &'static str = ". Return every experience bullet with different, truthful text, and mark at least 1 of them as \"replaced\". Replace as many as this job warrants - there is no cap and no per-role limit. A replaced bullet must drop its original angle, target this job's strongest signals, stay grounded in this person's real work in that role, and read as natural prose rather than a list of technologies. Do not compensate by adding more skills or by changing only the report.";

/// Introduces the bullets a refused response left unchanged.
pub const UNCHANGED_HEADING: &'static str = "\n\nUnchanged bullets:\n";

/// Ends every correction.
pub const CORRECTION_END: &'static str = "\n\n";

pub const REWRITE_NOTICE: &'static str = "Tailoring requires grounded bullet replacements; requesting a corrected response.";

pub const REWRITE_GIVE_UP: &'static str = "tailoring could not satisfy the experience-bullet requirements after 4 attempts: ";

pub const PLACEMENT_LEAD: &'static str = "Your preceding response omitted user-attested claims that must appear naturally in experience bullets: ";

pub const PLACEMENT_CORRECTION: &'static str = ". Place every missing claim in the most plausible existing role, replacing lower-value bullet claims if needed. Keep the same job and bullet counts and do not add facts beyond the selected claims.\n\n";

pub const PLACEMENT_NOTICE: &'static str = "Selected claims were missing from experience bullets; requesting a corrected response.";

pub const PLACEMENT_GIVE_UP: &'static str = "selected claims could not be placed in experience bullets after 4 attempts: ";

pub const UNPLACED_LEAD: &'static str = "Your preceding response left out job keywords this person already has evidence for: ";

pub const UNPLACED_CORRECTION: &'static str = ". These need no new attestation - the base resume or the user-attested evidence bank already supports them. Incorporate every one of them naturally into the experience bullets or the skills strings, using the job post's own wording. Keep the same jobs, the same bullet counts, and the same locked fields, and do not invent any adjacent metric, employer, title, date, credential, or certification around them.\n\n";

pub const UNPLACED_NOTICE: &'static str = "Keywords this resume already has evidence for were left out; requesting a corrected response: ";

/// What the content validator says of a response it refuses.
pub open spec fn content_error_text(language: Seq<char>, base: crate::json::JsonView, tailored: crate::json::JsonView) -> Seq<char> {
    if !language_supported(language) {
        "Unsupported resume language: "@ + language
    } else {
        "Tailored resume failed safety validation: "@ + content_problem(language, base, tailored).unwrap()
    }
}

/// The correction for a response that broke the shape, given the validator's words.
pub open spec fn shape_correction(error: Seq<char>) -> Seq<char> {
    REJECTED_LEAD@ + error + SHAPE_CORRECTION@
}

/// The correction for refused bullet rewrites, naming the bullets left unchanged.
pub open spec fn rewrite_correction(error: Seq<char>, unchanged: Seq<char>) -> Seq<char> {
    REJECTED_LEAD@ + error + REWRITE_CORRECTION@ + (if unchanged.len() == 0 {
        seq![]
    } else {
        UNCHANGED_HEADING@ + unchanged
    }) + CORRECTION_END@
}

/// The correction naming the attested claims the response did not place.
pub open spec fn placement_correction(missing: Seq<Seq<char>>) -> Seq<char> {
    PLACEMENT_LEAD@ + joined(missing, ", "@) + PLACEMENT_CORRECTION@
}

/// The correction naming supported keywords the response left out.
pub open spec fn unplaced_correction(terms: Seq<Seq<char>>) -> Seq<char> {
    UNPLACED_LEAD@ + joined(terms, ", "@) + UNPLACED_CORRECTION@
}

/// The progress message announcing that retry.
pub open spec fn unplaced_notice(terms: Seq<Seq<char>>) -> Seq<char> {
    UNPLACED_NOTICE@ + joined(terms, ", "@) + "."@
}

/// The prefix every refused-content error message carries.
pub open spec fn invalid_text(detail: Seq<char>) -> Seq<char> {
    "Tailored resume failed safety validation: "@ + detail
}

/// What happens to a response after review.
pub enum Review {
    /// It passed every check; rendering may start.
    Accept,
    /// Send it back with `correction`; `event` tells the window why.
    Retry { correction: String, event: PipelineProgress },
    /// The run ends with `error`; `event` tells the window.
    Fail { error: TailoringError, event: PipelineProgress },
}

/// Reviews the response of attempt `attempt` (counted from 1).
///
/// In order: the shape and locked facts (`validate_tailored_content`); then, after the
/// bullet decisions are normalized, the bullet-rewrite rules; then the placement of every
/// `required` claim; then the measured coverage is recorded, and on the first attempt only a
/// response that left out high-value terms this person can already prove goes back once more.
/// A refusal before the last attempt is a retry with a correction, on the last a failure.
#[verifier::rlimit(30)]
pub fn review_attempt(
    attempt: usize,
    language: &str,
    analysis: &JobAnalysis,
    base: &Json,
    bank: &EvidenceBank,
    locked: Option<&Json>,
    required: &[String],
    tailored: &mut TailoredResume,
) -> (r: Review)
    requires
        1 <= attempt <= MAX_TAILORING_ATTEMPTS,
        listed_terms(*analysis) <= 16_000_000,
    ensures
        final(tailored).content@ == old(tailored).content@,
        !tailored_ok(language@, base@, old(tailored).content@) ==> ({
            let t = content_error_text(language@, base@, old(tailored).content@);
            let ev = progress_of("safety_validation"@, "failed"@, t, Some(attempt));
            &&& final(tailored).report.bullet_rewrite_decisions@ == old(
                tailored,
            ).report.bullet_rewrite_decisions@
            &&& final(tailored).report.ats_coverage == old(tailored).report.ats_coverage
            &&& match r {
                Review::Retry { correction, event } => attempt < MAX_TAILORING_ATTEMPTS
                    && correction@ == shape_correction(t) && event@ == ev,
                Review::Fail { error, event } => attempt == MAX_TAILORING_ATTEMPTS
                    && tailoring_error_text(error) == t && event@ == ev,
                Review::Accept => false,
            }
        }),
        tailored_ok(language@, base@, old(tailored).content@) ==> decision_views(
            final(tailored).report.bullet_rewrite_decisions@,
        ) == audited_all(
            pairs_of(base@, old(tailored).content@),
            decision_views(old(tailored).report.bullet_rewrite_decisions@),
        ),
        ({
            let c0 = old(tailored).content@;
            let d1 = audited_all(
                pairs_of(base@, c0),
                decision_views(old(tailored).report.bullet_rewrite_decisions@),
            );
            tailored_ok(language@, base@, c0) && rewrite_problem(base@, c0, d1) is Some ==> {
                let t = invalid_text(rewrite_problem(base@, c0, d1).unwrap());
                &&& final(tailored).report.ats_coverage == old(tailored).report.ats_coverage
                &&& match r {
                    Review::Retry { correction, event } => attempt < MAX_TAILORING_ATTEMPTS
                        && correction@ == rewrite_correction(
                        t,
                        joined(unchanged_lines(pairs_of(base@, c0)), "\n"@),
                    ) && event@ == progress_of(
                        "safety_validation"@,
                        "retrying"@,
                        REWRITE_NOTICE@,
                        Some(attempt),
                    ),
                    Review::Fail { error, event } => attempt == MAX_TAILORING_ATTEMPTS && (
                    error matches TailoringError::InvalidTailoredContent(g) && g@ == REWRITE_GIVE_UP@
                        + t) && event@ == progress_of(
                        "safety_validation"@,
                        "failed"@,
                        tailoring_error_text(error),
                        Some(attempt),
                    ),
                    Review::Accept => false,
                }
            }
        }),
        ({
            let c0 = old(tailored).content@;
            let d1 = audited_all(
                pairs_of(base@, c0),
                decision_views(old(tailored).report.bullet_rewrite_decisions@),
            );
            let missing = missing_placements(all_bullet_texts(c0), strs(required@));
            tailored_ok(language@, base@, c0) && rewrite_problem(base@, c0, d1) is None
                && missing.len() > 0 ==> {
                &&& final(tailored).report.ats_coverage == old(tailored).report.ats_coverage
                &&& match r {
                    Review::Retry { correction, event } => attempt < MAX_TAILORING_ATTEMPTS
                        && correction@ == placement_correction(missing) && event@ == progress_of(
                        "safety_validation"@,
                        "retrying"@,
                        PLACEMENT_NOTICE@,
                        Some(attempt),
                    ),
                    Review::Fail { error, event } => attempt == MAX_TAILORING_ATTEMPTS && (
                    error matches TailoringError::InvalidTailoredContent(g) && g@
                        == PLACEMENT_GIVE_UP@ + joined(missing, ", "@)) && event@ == progress_of(
                        "safety_validation"@,
                        "failed"@,
                        tailoring_error_text(error),
                        Some(attempt),
                    ),
                    Review::Accept => false,
                }
            }
        }),
        ({
            let c0 = old(tailored).content@;
            let d1 = audited_all(
                pairs_of(base@, c0),
                decision_views(old(tailored).report.bullet_rewrite_decisions@),
            );
            let missing = missing_placements(all_bullet_texts(c0), strs(required@));
            tailored_ok(language@, base@, c0) && rewrite_problem(base@, c0, d1) is None
                && missing.len() == 0 ==> {
                &&& final(tailored).report.ats_coverage matches Some(c) && c@ == coverage_of(
                    *analysis,
                    c0,
                    match locked {
                        Some(j) => Some(j@),
                        None => None,
                    },
                    preflight_view(*analysis, base@, entry_views(bank.entries@)),
                ) && strs(final(tailored).report.covered_keywords@) == covered_terms(
                    term_views(c.terms@),
                    true,
                ) && strs(final(tailored).report.omitted_unsupported_keywords@) == covered_terms(
                    term_views(c.terms@),
                    false,
                ) && {
                    let u = unplaced(term_views(c.terms@));
                    if attempt == 1 && u.len() > 0 {
                        r matches Review::Retry { correction, event } && correction@
                            == unplaced_correction(u) && event@ == progress_of(
                            "safety_validation"@,
                            "retrying"@,
                            unplaced_notice(u),
                            Some(attempt),
                        )
                    } else {
                        r is Accept
                    }
                }
            }
        }),
        r is Accept ==> ({
            let c0 = old(tailored).content@;
            &&& tailored_ok(language@, base@, c0)
            &&& rewrite_problem(
                base@,
                c0,
                audited_all(
                    pairs_of(base@, c0),
                    decision_views(old(tailored).report.bullet_rewrite_decisions@),
                ),
            ) is None
            &&& missing_placements(all_bullet_texts(c0), strs(required@)).len() == 0
            &&& decision_views(final(tailored).report.bullet_rewrite_decisions@) == audited_all(
                pairs_of(base@, c0),
                decision_views(old(tailored).report.bullet_rewrite_decisions@),
            )
            &&& final(tailored).report.ats_coverage matches Some(c) && strs(
                final(tailored).report.covered_keywords@,
            ) == covered_terms(term_views(c.terms@), true) && strs(
                final(tailored).report.omitted_unsupported_keywords@,
            ) == covered_terms(term_views(c.terms@), false)
        }),
{
    let ghost c0 = tailored.content@;
    match validate_tailored_content(language, base, &tailored.content) {
        Err(error) => {
            let event = progress("safety_validation", "failed", error.message(), Some(attempt));
            if attempt < MAX_TAILORING_ATTEMPTS {
                let text = error.message();
                let mut correction = String::new();
                push_str(&mut correction, REJECTED_LEAD);
                push_str(&mut correction, text.as_str());
                push_str(&mut correction, SHAPE_CORRECTION);
                proof {
                    reveal_strlit("");
                }
                return Review::Retry { correction, event };
            }
            return Review::Fail { error, event };
        },
        Ok(()) => {},
    }
    proof {
        lemma_validated_shape(language@, base@, c0);
    }
    normalize_bullet_rewrite_decisions(base, tailored);
    match validate_bullet_rewrites(base, tailored) {
        Err(error) => {
            let text = error.message();
            proof {
                reveal_strlit("");
            }
            if attempt < MAX_TAILORING_ATTEMPTS {
                let unchanged = unchanged_experience_bullets(base, &tailored.content);
                let mut correction = String::new();
                push_str(&mut correction, REJECTED_LEAD);
                push_str(&mut correction, text.as_str());
                push_str(&mut correction, REWRITE_CORRECTION);
                if !unchanged.as_str().is_empty() {
                    push_str(&mut correction, UNCHANGED_HEADING);
                    push_str(&mut correction, unchanged.as_str());
                }
                push_str(&mut correction, CORRECTION_END);
                let event = progress(
                    "safety_validation",
                    "retrying",
                    REWRITE_NOTICE.to_string(),
                    Some(attempt),
                );
                return Review::Retry { correction, event };
            }
            let mut detail = String::new();
            push_str(&mut detail, REWRITE_GIVE_UP);
            push_str(&mut detail, text.as_str());
            let final_error = TailoringError::InvalidTailoredContent(detail);
            let event = progress("safety_validation", "failed", final_error.message(), Some(attempt));
            return Review::Fail { error: final_error, event };
        },
        Ok(()) => {},
    }
    let missing = missing_model_placement_terms(&tailored.content, required);
    if missing.len() > 0 {
        proof {
            reveal_strlit("");
        }
        if attempt < MAX_TAILORING_ATTEMPTS {
            let mut correction = String::new();
            push_str(&mut correction, PLACEMENT_LEAD);
            push_all_joined(&mut correction, missing.as_slice(), ", ");
            push_str(&mut correction, PLACEMENT_CORRECTION);
            let event = progress(
                "safety_validation",
                "retrying",
                PLACEMENT_NOTICE.to_string(),
                Some(attempt),
            );
            return Review::Retry { correction, event };
        }
        let mut detail = String::new();
        push_str(&mut detail, PLACEMENT_GIVE_UP);
        push_all_joined(&mut detail, missing.as_slice(), ", ");
        let final_error = TailoringError::InvalidTailoredContent(detail);
        let event = progress("safety_validation", "failed", final_error.message(), Some(attempt));
        return Review::Fail { error: final_error, event };
    }
    apply_measured_coverage(analysis, base, bank, locked, tailored);
    if attempt == 1 {
        let unplaced_terms = match &tailored.report.ats_coverage {
            Some(c) => unplaced_supported_terms(c),
            None => Vec::new(),
        };
        if unplaced_terms.len() > 0 {
            proof {
                reveal_strlit("");
            }
            let mut correction = String::new();
            push_str(&mut correction, UNPLACED_LEAD);
            push_all_joined(&mut correction, unplaced_terms.as_slice(), ", ");
            push_str(&mut correction, UNPLACED_CORRECTION);
            let mut notice = String::new();
            push_str(&mut notice, UNPLACED_NOTICE);
            push_all_joined(&mut notice, unplaced_terms.as_slice(), ", ");
            push_str(&mut notice, ".");
            let event = progress("safety_validation", "retrying", notice, Some(attempt));
            return Review::Retry { correction, event };
        }
    }
    Review::Accept
}


/// `after` starts the attempt that follows `before`'s, within the budget.
pub open spec fn continues(before: TailoringRun, after: TailoringRun) -> bool {
    &&& before.wf()
    &&& after.wf()
    &&& after.attempt == before.attempt + 1
}

/// The state a tailoring run carries from one attempt to the next.
pub struct TailoringRun {
    /// The attempt under way, counted from 1.
    pub attempt: usize,
    /// The previous draft overflowed one page; ask for a more concise one.
    pub needs_concise_rewrite: bool,
    /// The correction the next model call carries, if the previous response was refused.
    pub correction_instruction: Option<String>,
    /// Page counts of every draft that overflowed, in order.
    pub page_counts: Vec<u32>,
}

impl TailoringRun {
    /// A run is within its attempt budget.
    pub open spec fn wf(&self) -> bool {
        1 <= self.attempt <= MAX_TAILORING_ATTEMPTS
    }

    /// The first attempt: nothing to correct, no overflow seen.
    pub fn new() -> (r: Self)
        ensures
            r.wf(),
            r.attempt == 1,
            !r.needs_concise_rewrite,
            r.correction_instruction is None,
            r.page_counts@.len() == 0,
    {
        TailoringRun {
            attempt: 1,
            needs_concise_rewrite: false,
            correction_instruction: None,
            page_counts: Vec::new(),
        }
    }

    /// A progress event of this attempt.
    pub fn event(&self, stage: &str, status: &str, message: String) -> (r: PipelineProgress)
        requires
            self.wf(),
        ensures
            r@ == progress_of(stage@, status@, message@, Some(self.attempt)),
    {
        progress(stage, status, message, Some(self.attempt))
    }

    /// The context a usage receipt of this attempt carries: the run's capture and the attempt.
    pub fn usage_context(&self, capture_id: Option<u64>) -> (r: UsageContext)
        requires
            self.wf(),
        ensures
            r.capture_id == capture_id,
            r.attempt == Some(self.attempt as u32),
            r.prompt is None,
    {
        UsageContext::attempt(capture_id, self.attempt as u32)
    }

    /// What the window says while the model works on this attempt.
    pub fn started_message(&self) -> (r: &'static str)
        ensures
            r@ == (if self.correction_instruction is Some {
                "AI is correcting required experience-bullet content."@
            } else if self.needs_concise_rewrite {
                "AI is making the resume more concise for a one-page fit."@
            } else {
                "AI is tailoring supported resume content to the job."@
            }),
    {
        if self.correction_instruction.is_some() {
            "AI is correcting required experience-bullet content."
        } else if self.needs_concise_rewrite {
            "AI is making the resume more concise for a one-page fit."
        } else {
            "AI is tailoring supported resume content to the job."
        }
    }

    /// A refused response: the next attempt carries `correction`.
    pub fn retry_with(&mut self, correction: String)
        requires
            old(self).wf(),
            old(self).attempt < MAX_TAILORING_ATTEMPTS,
        ensures
            continues(*old(self), *final(self)),
            final(self).correction_instruction matches Some(c) && c@ == correction@,
            final(self).needs_concise_rewrite == old(self).needs_concise_rewrite,
            final(self).page_counts@ == old(self).page_counts@,
    {
        self.attempt = self.attempt + 1;
        self.correction_instruction = Some(correction);
    }

    /// An accepted response: whatever correction was pending has been answered.
    pub fn accepted(&mut self)
        ensures
            final(self).attempt == old(self).attempt,
            final(self).correction_instruction is None,
            final(self).needs_concise_rewrite == old(self).needs_concise_rewrite,
            final(self).page_counts@ == old(self).page_counts@,
    {
        self.correction_instruction = None;
    }

    /// The draft of this attempt overflowed one page with `counts`. Before the last attempt
    /// the run asks for a concise rewrite and goes on (`None`); on the last it gives up with
    /// every count seen.
    pub fn page_overflow(&mut self, counts: &Vec<u32>) -> (r: Option<TailoringError>)
        requires
            old(self).wf(),
        ensures
            final(self).page_counts@ == old(self).page_counts@ + counts@,
            final(self).correction_instruction == old(self).correction_instruction,
            old(self).attempt < MAX_TAILORING_ATTEMPTS ==> r is None && continues(*old(self), *final(self))
                && final(self).needs_concise_rewrite,
            old(self).attempt == MAX_TAILORING_ATTEMPTS ==> final(self).attempt == old(self).attempt
                && final(self).needs_concise_rewrite == old(self).needs_concise_rewrite && (
            r matches Some(TailoringError::OnePageFit { attempts, page_counts }) && attempts
                == MAX_TAILORING_ATTEMPTS && page_counts@ == final(self).page_counts@),
    {
        let mut i: usize = 0;
        let ghost start = self.page_counts@;
        while i < counts.len()
            invariant
                i <= counts@.len(),
                self.page_counts@ == start + counts@.take(i as int),
                self.attempt == old(self).attempt,
                self.needs_concise_rewrite == old(self).needs_concise_rewrite,
                self.correction_instruction == old(self).correction_instruction,
            decreases counts@.len() - i,
        {
            self.page_counts.push(counts[i]);
            assert(counts@.take(i + 1) =~= counts@.take(i as int).push(counts@[i as int]));
            i += 1;
        }
        assert(counts@.take(i as int) =~= counts@);
        if self.attempt < MAX_TAILORING_ATTEMPTS {
            self.needs_concise_rewrite = true;
            self.attempt = self.attempt + 1;
            None
        } else {
            Some(
                TailoringError::OnePageFit {
                    attempts: MAX_TAILORING_ATTEMPTS,
                    page_counts: self.page_counts.clone(),
                },
            )
        }
    }
}



/// The model the tailoring stage asks unless configured otherwise.
pub const DEFAULT_TAILOR_MODEL: &'static str = "gpt-5.6-terra";

/// Where the tailoring model is and which one to ask.
#[derive(Clone, Debug)]
pub struct TailoringConfig {
    pub api_key: String,
    pub model: String,
    pub base_url: String,
}

impl TailoringConfig {
    /// The configuration from the raw settings: none without a usable key; a blank model or
    /// endpoint falls back to its default.
    pub fn from_values(api_key: Option<String>, model: Option<String>, base_url: Option<String>) -> (r:
        Option<Self>)
        ensures
            match r {
                Some(c) => api_key is Some && cleaned_key(api_key.unwrap()@) == Some(c.api_key@)
                    && c.model@ == setting_or(opt_view(model), DEFAULT_TAILOR_MODEL@)
                    && c.base_url@ == setting_or(opt_view(base_url), DEFAULT_BASE_URL@),
                None => api_key is None || cleaned_key(api_key.unwrap()@) is None,
            },
    {
        let key = match api_key {
            Some(k) => k,
            None => {
                return None;
            },
        };
        let cleaned = match clean_api_key(key.as_str()) {
            Some(c) => c,
            None => {
                return None;
            },
        };
        Some(
            TailoringConfig {
                api_key: cleaned,
                model: setting_or_default(model, DEFAULT_TAILOR_MODEL),
                base_url: setting_or_default(base_url, DEFAULT_BASE_URL),
            },
        )
    }
}

} // verus!
