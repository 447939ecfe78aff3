//! The tailoring prompt. Its text is laid out most-constant first, so that the provider's
//! prompt cache can reuse the longest possible shared prefix: the instructions and the base
//! resume never vary within a language, the job, analysis and evidence vary per job, and the
//! retry feedback varies per attempt.

use vstd::prelude::*;
use crate::text::{push_str, strs};
use crate::bank::{entry_views, EntryView, EvidenceEntry};
use crate::tailoring::{evidence_block, joined, render_evidence_block};

verus! {

pub const PROMPT_RULES: &'static str = "Tailor the resume JSON below for maximum truthful ATS alignment against the job post that follows it.\n\
         Return only JSON matching the schema. Preserve the input resume shape exactly.\n\
         Rewrite only the professional summary, experience bullet text, and skills strings.\n\
         Do not change meta, company names, locations, titles, dates, job order, number of jobs, number of bullets, or skill keys.\n\
         Aggressively incorporate ATS keywords, tools, responsibility phrases, and domain wording when the base resume supports them.\n\
         Applicant tracking systems match literal strings, so write each supported term the way this job post writes it. The analysis term_variants list gives the alternate written forms; when an acronym and its expansion are both in common use, name both once in the skills line where it reads naturally, and use the post's own form in bullets.\n";
pub const PROMPT_EVIDENCE_RULE: &'static str = "Every entry in the user-attested evidence bank is a capability this person has actually practised. Treat each one as usable in an experience bullet, not only in a skills string: place it in the most plausible existing role given that role's stated stack, title, and scope. The attestation covers the named capability only - never invent an adjacent metric, employer, title, date, credential, or certification around it.\n";
pub const PROMPT_CLOSING_RULES: &'static str = "Put important job keywords without base-resume or user-attested evidence into omitted_unsupported_keywords instead of adding them to the resume.\n\
         Keep each rewritten bullet close to the original length so the locked DOCX layout remains stable.\n\
         Keep the professional summary to the same sentence count and approximate length as the original, leading with the job's own role wording and its highest-weighted supported terms.\n\n\
         Base resume JSON:\n";
pub const BULLET_REWRITE_INSTRUCTION: &'static str = "Experience bullets are the primary ATS surface, not skills. You MUST return every experience bullet with different, truthful text before changing skills; a rewrite counts only when the returned bullet text differs from the input bullet text, and unchanged text must never be labelled as rewritten.\nBeyond rephrasing, REPLACE outright as many bullets as it takes to cover this job's highest-weighted signals. There is no cap and no per-role limit: replace every bullet in the resume if that is what the job calls for, and replace at least one. A bullet whose original angle does not serve this job should be discarded rather than reworded - drop its subject entirely and write a new bullet aimed at the job's strongest ATS signals.\nA replaced bullet must still describe work this same person actually did in that same role during that same period. Ground it in the other facts of the base resume, in the user-attested evidence bank, or in a responsibility directly implied by that role's stated stack, title, and scope. Never introduce a new employer, job title, date, credential, certification, or degree, never invent a metric, and never move an existing metric onto work it did not measure.\nWrite natural professional prose: each replaced bullet must read as one specific accomplishment or responsibility with a concrete object and outcome, not a list of technologies. Keyword stuffing is a failure. Keep each replaced bullet close to the length of the bullet it replaced so the locked DOCX layout stays stable.\nMark every replaced bullet with outcome \"replaced\" and give a rationale naming both the job signal it now targets and the grounding it relies on. Every other bullet uses outcome \"rewritten\"; no_relevant_match is not allowed. A skills-only response is invalid.\n";
pub const INVENTION_RULE: &'static str = "Do not invent credentials, employers, tools, metrics, education, certifications, or experience. Inside a replaced bullet only, you may state a responsibility that is directly implied by that role's stated stack, title, and scope even without an explicit evidence entry; never one a person in that role would not routinely own.\n";
pub const CONCISE_WITH_PLACEMENT: &'static str = "The preceding attempt overflowed to a second page. Keep the same bullet count and preserve every selected claim placement, but rewrite the editable text more compactly. Base claims intentionally displaced by selected user-attested claims may remain displaced; preserve the other factual claims. Remove repetition, use concise verbs, and prefer compact ATS terminology.\n\n";
pub const CONCISE_PLAIN: &'static str = "The preceding attempt overflowed to a second page. Keep every bullet and every factual claim, but rewrite the editable text more compactly: remove repetition, use concise verbs, and prefer compact ATS terminology. Do not shorten by deleting responsibilities or achievements.\n\n";
pub const PLACEMENT_LEAD: &'static str = "The user explicitly attested the following claims and authorized you to place them in the most plausible existing role: ";
pub const PLACEMENT_RULE: &'static str = ". You MUST incorporate every selected claim naturally in one or more experience bullets. You may completely replace the least job-relevant existing bullet claims to make room, while keeping the same jobs and bullet counts. Multiple selected claims may share a bullet when natural. The attestation supports only the named claims; do not invent adjacent details, metrics, employers, dates, credentials, or responsibilities.\n\n";

pub const LANGUAGE_RULE: &'static str = ". The base resume above is written in it; keep every value you rewrite in that same language.\n\n";

/// The instruction to place the selected claims, when there are any.
pub open spec fn placement_instruction(terms: Seq<Seq<char>>) -> Seq<char> {
    if terms.len() == 0 {
        seq![]
    } else {
        PLACEMENT_LEAD@ + joined(terms, ", "@) + PLACEMENT_RULE@
    }
}

/// The instruction after a page overflow.
pub open spec fn concise_instruction(concise: bool, has_placement: bool) -> Seq<char> {
    if !concise {
        seq![]
    } else if has_placement {
        CONCISE_WITH_PLACEMENT@
    } else {
        CONCISE_PLAIN@
    }
}

/// The whole user message: fixed instructions, the base resume, then the language, placement
/// request, job, analysis and evidence of this job, then this attempt's feedback.
pub open spec fn tailoring_prompt(
    language: Seq<char>,
    parsed_job_json: Seq<char>,
    analysis_json: Seq<char>,
    base_resume_json: Seq<char>,
    evidence: Seq<EntryView>,
    terms: Seq<Seq<char>>,
    concise: bool,
    correction: Option<Seq<char>>,
) -> Seq<char> {
    PROMPT_RULES@ + BULLET_REWRITE_INSTRUCTION@ + PROMPT_EVIDENCE_RULE@ + INVENTION_RULE@
        + PROMPT_CLOSING_RULES@ + base_resume_json + "\n\nOutput language: "@ + language
        + LANGUAGE_RULE@ + placement_instruction(terms) + "Normalized job JSON:\n"@
        + parsed_job_json + "\n\nATS analysis JSON:\n"@ + analysis_json + "\n\n"@
        + evidence_block(evidence) + "\n"@ + concise_instruction(concise, terms.len() > 0) + match correction {
        Some(c) => c,
        None => seq![],
    }
}

/// The part of the prompt that depends on the base resume alone: the instructions, the base
/// resume, and the lead of the output-language line.
pub open spec fn cacheable_prefix(base_resume_json: Seq<char>) -> Seq<char> {
    PROMPT_RULES@ + BULLET_REWRITE_INSTRUCTION@ + PROMPT_EVIDENCE_RULE@ + INVENTION_RULE@
        + PROMPT_CLOSING_RULES@ + base_resume_json + "\n\nOutput language: "@
}

/// What follows the cacheable prefix: the language, then everything that varies per job and
/// per attempt.
pub open spec fn prompt_rest(
    language: Seq<char>,
    parsed_job_json: Seq<char>,
    analysis_json: Seq<char>,
    evidence: Seq<EntryView>,
    terms: Seq<Seq<char>>,
    concise: bool,
    correction: Option<Seq<char>>,
) -> Seq<char> {
    language + (LANGUAGE_RULE@ + placement_instruction(terms) + "Normalized job JSON:\n"@
        + parsed_job_json + "\n\nATS analysis JSON:\n"@ + analysis_json + "\n\n"@
        + evidence_block(evidence) + "\n"@ + concise_instruction(concise, terms.len() > 0) + match correction {
        Some(c) => c,
        None => seq![],
    })
}

proof fn lemma_regroup(
    p: Seq<char>,
    x0: Seq<char>,
    x1: Seq<char>,
    x2: Seq<char>,
    x3: Seq<char>,
    x4: Seq<char>,
    x5: Seq<char>,
    x6: Seq<char>,
    x7: Seq<char>,
    x8: Seq<char>,
    x9: Seq<char>,
    x10: Seq<char>,
    x11: Seq<char>,
)
    ensures
        p + x0 + x1 + x2 + x3 + x4 + x5 + x6 + x7 + x8 + x9 + x10 + x11 == p + (x0 + (x1 + x2
            + x3 + x4 + x5 + x6 + x7 + x8 + x9 + x10 + x11)),
{
    assert(p + x0 + x1 + x2 + x3 + x4 + x5 + x6 + x7 + x8 + x9 + x10 + x11 =~= p + (x0 + (x1 + x2
        + x3 + x4 + x5 + x6 + x7 + x8 + x9 + x10 + x11)));
}

/// A prompt is its cacheable prefix followed by the rest, which starts with the language: two
/// prompts built on the same base resume therefore share their text up to and including the
/// lead of the output-language line, whatever the language, job, analysis, evidence, placement
/// terms, overflow flag and correction of each.
pub proof fn lemma_stable_prefix(
    language: Seq<char>,
    parsed_job_json: Seq<char>,
    analysis_json: Seq<char>,
    base_resume_json: Seq<char>,
    evidence: Seq<EntryView>,
    terms: Seq<Seq<char>>,
    concise: bool,
    correction: Option<Seq<char>>,
)
    ensures
        tailoring_prompt(
            language,
            parsed_job_json,
            analysis_json,
            base_resume_json,
            evidence,
            terms,
            concise,
            correction,
        ) == cacheable_prefix(base_resume_json) + prompt_rest(
            language,
            parsed_job_json,
            analysis_json,
            evidence,
            terms,
            concise,
            correction,
        ),
        prompt_rest(language, parsed_job_json, analysis_json, evidence, terms, concise, correction).take(
            language.len() as int,
        ) == language,
{
    lemma_regroup(
        cacheable_prefix(base_resume_json),
        language,
        LANGUAGE_RULE@,
        placement_instruction(terms),
        "Normalized job JSON:\n"@,
        parsed_job_json,
        "\n\nATS analysis JSON:\n"@,
        analysis_json,
        "\n\n"@,
        evidence_block(evidence),
        "\n"@,
        concise_instruction(concise, terms.len() > 0),
        match correction {
            Some(c) => c,
            None => seq![],
        },
    );
    let r = prompt_rest(language, parsed_job_json, analysis_json, evidence, terms, concise, correction);
    assert(r.take(language.len() as int) =~= language);
}

/// Two prompts built on the same base resume agree on their first characters, up to and
/// including the lead of the output-language line, whatever else differs between them.
pub proof fn lemma_shared_prefix(
    base_resume_json: Seq<char>,
    language_a: Seq<char>,
    job_a: Seq<char>,
    analysis_a: Seq<char>,
    evidence_a: Seq<EntryView>,
    terms_a: Seq<Seq<char>>,
    concise_a: bool,
    correction_a: Option<Seq<char>>,
    language_b: Seq<char>,
    job_b: Seq<char>,
    analysis_b: Seq<char>,
    evidence_b: Seq<EntryView>,
    terms_b: Seq<Seq<char>>,
    concise_b: bool,
    correction_b: Option<Seq<char>>,
)
    ensures
        ({
            let n = cacheable_prefix(base_resume_json).len() as int;
            let a = tailoring_prompt(
                language_a,
                job_a,
                analysis_a,
                base_resume_json,
                evidence_a,
                terms_a,
                concise_a,
                correction_a,
            );
            let b = tailoring_prompt(
                language_b,
                job_b,
                analysis_b,
                base_resume_json,
                evidence_b,
                terms_b,
                concise_b,
                correction_b,
            );
            n <= a.len() && n <= b.len() && a.take(n) == b.take(n)
        }),
{
    let p = cacheable_prefix(base_resume_json);
    let ra = prompt_rest(language_a, job_a, analysis_a, evidence_a, terms_a, concise_a, correction_a);
    let rb = prompt_rest(language_b, job_b, analysis_b, evidence_b, terms_b, concise_b, correction_b);
    lemma_stable_prefix(language_a, job_a, analysis_a, base_resume_json, evidence_a, terms_a, concise_a, correction_a);
    lemma_stable_prefix(language_b, job_b, analysis_b, base_resume_json, evidence_b, terms_b, concise_b, correction_b);
    assert((p + ra).take(p.len() as int) =~= p);
    assert((p + rb).take(p.len() as int) =~= p);
}

pub fn push_all_joined(out: &mut String, items: &[String], sep: &str)
    ensures
        final(out)@ == old(out)@ + joined(strs(items@), sep@),
{
    let ghost start = out@;
    let ghost is = strs(items@);
    let mut k: usize = 0;
    while k < items.len()
        invariant
            k <= items@.len(),
            is == strs(items@),
            out@ == start + joined(is.take(k as int), sep@),
        decreases items@.len() - k,
    {
        assert(is.take(k + 1).drop_last() =~= is.take(k as int));
        if k > 0 {
            push_str(out, sep);
        }
        push_str(out, items[k].as_str());
        proof {
            if k == 0 {
                assert(is.take(1) =~= seq![is[0]]);
            }
        }
        assert(out@ =~= start + joined(is.take(k + 1), sep@));
        k += 1;
    }
    assert(is.take(k as int) =~= is);
}

/// Builds the tailoring user message. The job, analysis and base resume arrive as the JSON
/// text the caller serialized them to.
pub fn build_tailoring_prompt(
    language: &str,
    parsed_job_json: &str,
    analysis_json: &str,
    base_resume_json: &str,
    approved_evidence: &[EvidenceEntry],
    priority_attested_terms: &[String],
    concise: bool,
    correction_instruction: Option<&str>,
) -> (r: String)
    ensures
        r@ == tailoring_prompt(
            language@,
            parsed_job_json@,
            analysis_json@,
            base_resume_json@,
            entry_views(approved_evidence@),
            strs(priority_attested_terms@),
            concise,
            match correction_instruction {
                Some(c) => Some(c@),
                None => None,
            },
        ),
{
    let mut out = String::new();
    push_str(&mut out, PROMPT_RULES);
    push_str(&mut out, BULLET_REWRITE_INSTRUCTION);
    push_str(&mut out, PROMPT_EVIDENCE_RULE);
    push_str(&mut out, INVENTION_RULE);
    push_str(&mut out, PROMPT_CLOSING_RULES);
    push_str(&mut out, base_resume_json);
    push_str(&mut out, "\n\nOutput language: ");
    push_str(&mut out, language);
    push_str(&mut out, LANGUAGE_RULE);
    let has_placement = priority_attested_terms.len() > 0;
    if has_placement {
        push_str(&mut out, PLACEMENT_LEAD);
        push_all_joined(&mut out, priority_attested_terms, ", ");
        push_str(&mut out, PLACEMENT_RULE);
    }
    push_str(&mut out, "Normalized job JSON:\n");
    push_str(&mut out, parsed_job_json);
    push_str(&mut out, "\n\nATS analysis JSON:\n");
    push_str(&mut out, analysis_json);
    push_str(&mut out, "\n\n");
    let block = render_evidence_block(approved_evidence);
    push_str(&mut out, block.as_str());
    push_str(&mut out, "\n");
    if concise {
        if has_placement {
            push_str(&mut out, CONCISE_WITH_PLACEMENT);
        } else {
            push_str(&mut out, CONCISE_PLAIN);
        }
    }
    match correction_instruction {
        Some(c) => push_str(&mut out, c),
        None => {},
    }
    out
}

} // verus!
