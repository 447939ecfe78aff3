//! The tailoring prompt names its output language once: no fixed text of the prompt holds the
//! language line's wording, so as long as the caller's texts do not either, the line the
//! prompt writes is the only one.

use vstd::prelude::*;
use crate::prompt::{
    cacheable_prefix, placement_instruction, concise_instruction, lemma_stable_prefix, prompt_rest,
    tailoring_prompt, BULLET_REWRITE_INSTRUCTION, CONCISE_PLAIN, CONCISE_WITH_PLACEMENT,
    INVENTION_RULE, LANGUAGE_RULE, PLACEMENT_LEAD, PLACEMENT_RULE, PROMPT_CLOSING_RULES,
    PROMPT_EVIDENCE_RULE, PROMPT_RULES,
};
use crate::bank::EntryView;
use crate::tailoring::{evidence_block, joined};
use crate::text::{contains_seq, occurs_at};

verus! {

/// The wording of the output-language line.
pub open spec fn language_mark() -> Seq<char> {
    "Output language:"@
}

/// The output-language line as the prompt writes it, from the line break before it.
pub open spec fn language_line() -> Seq<char> {
    "\nOutput language: "@
}

/// `s` holds no output-language wording.
pub open spec fn unmarked(s: Seq<char>) -> bool {
    !contains_seq(s, language_mark())
}

/// A character of the output-language wording.
pub open spec fn in_mark(c: char) -> bool {
    c == 'O' || c == 'u' || c == 't' || c == 'p' || c == ' ' || c == 'l' || c == 'a' || c == 'n'
        || c == 'g' || c == 'e' || c == ':'
}

/// No capital O is followed by a small u in `s`.
pub open spec fn no_ou(s: Seq<char>) -> bool {
    forall|i: int| 0 <= i < s.len() - 1 ==> !(#[trigger] s[i] == 'O' && s[i + 1] == 'u')
}

/// No capital O in `s`.
pub open spec fn no_o(s: Seq<char>) -> bool {
    forall|i: int| 0 <= i < s.len() ==> #[trigger] s[i] != 'O'
}

proof fn lemma_mark()
    ensures
        language_mark().len() == 16,
        language_mark()[0] == 'O',
        language_mark()[1] == 'u',
        forall|j: int| 0 <= j < 16 ==> in_mark(#[trigger] language_mark()[j]),
{
    reveal_strlit("Output language:");
}

proof fn lemma_short_unmarked(s: Seq<char>)
    requires
        s.len() < 16,
    ensures
        unmarked(s),
{
    lemma_mark();
}

proof fn lemma_no_ou_unmarked(s: Seq<char>)
    requires
        no_ou(s),
    ensures
        unmarked(s),
{
    lemma_mark();
    let m = language_mark();
    if contains_seq(s, m) {
        let q = choose|q: int| occurs_at(s, m, q);
        assert(s.subrange(q, q + 16)[0] == m[0]);
        assert(s.subrange(q, q + 16)[1] == m[1]);
        assert(s[q] == 'O' && s[q + 1] == 'u');
    }
}

/// Two unmarked texts stay unmarked side by side when the wording cannot run across the
/// seam: `a` ends, or `b` starts, with a character the wording lacks, or `a` has no capital O.
proof fn lemma_join(a: Seq<char>, b: Seq<char>)
    requires
        unmarked(a),
        unmarked(b),
        (a.len() > 0 && !in_mark(a.last())) || (b.len() > 0 && !in_mark(b[0])) || no_o(a),
    ensures
        unmarked(a + b),
{
    lemma_mark();
    let m = language_mark();
    let s = a + b;
    if contains_seq(s, m) {
        let q = choose|q: int| occurs_at(s, m, q);
        if q + 16 <= a.len() {
            assert(a.subrange(q, q + 16) =~= s.subrange(q, q + 16));
            assert(occurs_at(a, m, q));
        } else if q >= a.len() {
            assert(b.subrange(q - a.len(), q - a.len() + 16) =~= s.subrange(q, q + 16));
            assert(occurs_at(b, m, q - a.len()));
        } else {
            assert(s.subrange(q, q + 16)[0] == m[0]);
            assert(s[q] == a[q]);
            assert(s.subrange(q, q + 16)[a.len() - 1 - q] == m[a.len() - 1 - q]);
            assert(s.subrange(q, q + 16)[a.len() - q] == m[a.len() - q]);
            assert(s[a.len() - 1] == a.last());
            assert(s[a.len() as int] == b[0]);
        }
    }
}

proof fn lemma_text_prompt_rules()
    ensures
        PROMPT_RULES@.len() > 0,
        no_ou(PROMPT_RULES@),
        PROMPT_RULES@.last() == '\n',
{
    reveal_strlit("Tailor the resume JSON below for maximum truthful ATS alignment against the job post that follows it.\n\
         Return only JSON matching the schema. Preserve the input resume shape exactly.\n\
         Rewrite only the professional summary, experience bullet text, and skills strings.\n\
         Do not change meta, company names, locations, titles, dates, job order, number of jobs, number of bullets, or skill keys.\n\
         Aggressively incorporate ATS keywords, tools, responsibility phrases, and domain wording when the base resume supports them.\n\
         Applicant tracking systems match literal strings, so write each supported term the way this job post writes it. The analysis term_variants list gives the alternate written forms; when an acronym and its expansion are both in common use, name both once in the skills line where it reads naturally, and use the post's own form in bullets.\n");
}

proof fn lemma_text_bullet_rewrite_instruction()
    ensures
        BULLET_REWRITE_INSTRUCTION@.len() > 0,
        no_ou(BULLET_REWRITE_INSTRUCTION@),
        BULLET_REWRITE_INSTRUCTION@.last() == '\n',
{
    reveal_strlit("Experience bullets are the primary ATS surface, not skills. You MUST return every experience bullet with different, truthful text before changing skills; a rewrite counts only when the returned bullet text differs from the input bullet text, and unchanged text must never be labelled as rewritten.\nBeyond rephrasing, REPLACE outright as many bullets as it takes to cover this job's highest-weighted signals. There is no cap and no per-role limit: replace every bullet in the resume if that is what the job calls for, and replace at least one. A bullet whose original angle does not serve this job should be discarded rather than reworded - drop its subject entirely and write a new bullet aimed at the job's strongest ATS signals.\nA replaced bullet must still describe work this same person actually did in that same role during that same period. Ground it in the other facts of the base resume, in the user-attested evidence bank, or in a responsibility directly implied by that role's stated stack, title, and scope. Never introduce a new employer, job title, date, credential, certification, or degree, never invent a metric, and never move an existing metric onto work it did not measure.\nWrite natural professional prose: each replaced bullet must read as one specific accomplishment or responsibility with a concrete object and outcome, not a list of technologies. Keyword stuffing is a failure. Keep each replaced bullet close to the length of the bullet it replaced so the locked DOCX layout stays stable.\nMark every replaced bullet with outcome \"replaced\" and give a rationale naming both the job signal it now targets and the grounding it relies on. Every other bullet uses outcome \"rewritten\"; no_relevant_match is not allowed. A skills-only response is invalid.\n");
}

proof fn lemma_text_prompt_evidence_rule()
    ensures
        PROMPT_EVIDENCE_RULE@.len() > 0,
        no_ou(PROMPT_EVIDENCE_RULE@),
        PROMPT_EVIDENCE_RULE@.last() == '\n',
{
    reveal_strlit("Every entry in the user-attested evidence bank is a capability this person has actually practised. Treat each one as usable in an experience bullet, not only in a skills string: place it in the most plausible existing role given that role's stated stack, title, and scope. The attestation covers the named capability only - never invent an adjacent metric, employer, title, date, credential, or certification around it.\n");
}

proof fn lemma_text_invention_rule()
    ensures
        INVENTION_RULE@.len() > 0,
        no_ou(INVENTION_RULE@),
        INVENTION_RULE@.last() == '\n',
{
    reveal_strlit("Do not invent credentials, employers, tools, metrics, education, certifications, or experience. Inside a replaced bullet only, you may state a responsibility that is directly implied by that role's stated stack, title, and scope even without an explicit evidence entry; never one a person in that role would not routinely own.\n");
}

proof fn lemma_text_prompt_closing_rules()
    ensures
        PROMPT_CLOSING_RULES@.len() > 0,
        no_ou(PROMPT_CLOSING_RULES@),
        PROMPT_CLOSING_RULES@.last() == '\n',
{
    reveal_strlit("Put important job keywords without base-resume or user-attested evidence into omitted_unsupported_keywords instead of adding them to the resume.\n\
         Keep each rewritten bullet close to the original length so the locked DOCX layout remains stable.\n\
         Keep the professional summary to the same sentence count and approximate length as the original, leading with the job's own role wording and its highest-weighted supported terms.\n\n\
         Base resume JSON:\n");
}

proof fn lemma_text_language_rule()
    ensures
        LANGUAGE_RULE@.len() > 0,
        no_ou(LANGUAGE_RULE@),
        LANGUAGE_RULE@[0] == '.',
        LANGUAGE_RULE@.last() == '\n',
{
    reveal_strlit(". The base resume above is written in it; keep every value you rewrite in that same language.\n\n");
}

proof fn lemma_text_placement_lead()
    ensures
        no_o(PLACEMENT_LEAD@),
{
    reveal_strlit("The user explicitly attested the following claims and authorized you to place them in the most plausible existing role: ");
}

proof fn lemma_text_placement_rule()
    ensures
        PLACEMENT_RULE@.len() > 0,
        no_ou(PLACEMENT_RULE@),
        PLACEMENT_RULE@[0] == '.',
        PLACEMENT_RULE@.last() == '\n',
{
    reveal_strlit(". You MUST incorporate every selected claim naturally in one or more experience bullets. You may completely replace the least job-relevant existing bullet claims to make room, while keeping the same jobs and bullet counts. Multiple selected claims may share a bullet when natural. The attestation supports only the named claims; do not invent adjacent details, metrics, employers, dates, credentials, or responsibilities.\n\n");
}

proof fn lemma_text_concise_with_placement()
    ensures
        CONCISE_WITH_PLACEMENT@.len() > 0,
        no_ou(CONCISE_WITH_PLACEMENT@),
        CONCISE_WITH_PLACEMENT@.last() == '\n',
{
    reveal_strlit("The preceding attempt overflowed to a second page. Keep the same bullet count and preserve every selected claim placement, but rewrite the editable text more compactly. Base claims intentionally displaced by selected user-attested claims may remain displaced; preserve the other factual claims. Remove repetition, use concise verbs, and prefer compact ATS terminology.\n\n");
}

proof fn lemma_text_concise_plain()
    ensures
        CONCISE_PLAIN@.len() > 0,
        no_ou(CONCISE_PLAIN@),
        CONCISE_PLAIN@.last() == '\n',
{
    reveal_strlit("The preceding attempt overflowed to a second page. Keep every bullet and every factual claim, but rewrite the editable text more compactly: remove repetition, use concise verbs, and prefer compact ATS terminology. Do not shorten by deleting responsibilities or achievements.\n\n");
}

proof fn lemma_joined_unmarked(terms: Seq<Seq<char>>)
    requires
        forall|i: int| 0 <= i < terms.len() ==> unmarked(#[trigger] terms[i]),
    ensures
        unmarked(joined(terms, ", "@)),
    decreases terms.len(),
{
    reveal_strlit(", ");
    if terms.len() == 0 {
        lemma_short_unmarked(seq![]);
    } else if terms.len() == 1 {
        assert(unmarked(terms[0]));
    } else {
        let front = terms.drop_last();
        lemma_joined_unmarked(front);
        let last = terms.last();
        assert(unmarked(last));
        let sep = ", "@;
        lemma_no_ou_unmarked(sep);
        assert(no_o(sep));
        lemma_join(sep, last);
        assert(sep + last == (", "@ + last));
        assert((sep + last)[0] == ',');
        lemma_mark();
        lemma_join(joined(front, sep), sep + last);
        assert(joined(front, sep) + sep + last =~= joined(front, sep) + (sep + last));
    }
}

proof fn lemma_placement_unmarked(terms: Seq<Seq<char>>)
    requires
        forall|i: int| 0 <= i < terms.len() ==> unmarked(#[trigger] terms[i]),
    ensures
        unmarked(placement_instruction(terms)),
        placement_instruction(terms).len() > 0 ==> placement_instruction(terms).last() == '\n',
{
    if terms.len() == 0 {
        lemma_short_unmarked(seq![]);
    } else {
        lemma_text_placement_lead();
        lemma_text_placement_rule();
        lemma_joined_unmarked(terms);
        let lead = PLACEMENT_LEAD@;
        let j = joined(terms, ", "@);
        assert(no_o(lead));
        if contains_seq(lead, language_mark()) {
            lemma_mark();
            let q = choose|q: int| occurs_at(lead, language_mark(), q);
            assert(lead.subrange(q, q + 16)[0] == language_mark()[0]);
            assert(lead[q] == 'O');
        }
        lemma_join(lead, j);
        lemma_no_ou_unmarked(PLACEMENT_RULE@);
        lemma_mark();
        lemma_join(lead + j, PLACEMENT_RULE@);
    }
}

/// A line break, or text that starts after a line break: the wording cannot run across it.
proof fn lemma_breaks()
    ensures
        no_ou("Normalized job JSON:\n"@),
        "Normalized job JSON:\n"@.len() > 0,
        "Normalized job JSON:\n"@[0] == 'N',
        "Normalized job JSON:\n"@.last() == '\n',
        no_ou("\n\nATS analysis JSON:\n"@),
        "\n\nATS analysis JSON:\n"@.len() > 0,
        "\n\nATS analysis JSON:\n"@[0] == '\n',
        "\n\nATS analysis JSON:\n"@.last() == '\n',
        "\n\n"@.len() == 2,
        "\n\n"@[0] == '\n',
        "\n\n"@.last() == '\n',
        "\n"@.len() == 1,
        "\n"@[0] == '\n',
{
    reveal_strlit("Normalized job JSON:\n");
    reveal_strlit("\n\nATS analysis JSON:\n");
    reveal_strlit("\n\n");
    reveal_strlit("\n");
}

/// Everything after the output-language lead is unmarked when the caller's texts are.
proof fn lemma_rest_unmarked(
    language: Seq<char>,
    parsed_job_json: Seq<char>,
    analysis_json: Seq<char>,
    evidence: Seq<EntryView>,
    terms: Seq<Seq<char>>,
    concise: bool,
    correction: Option<Seq<char>>,
)
    requires
        unmarked(language),
        unmarked(parsed_job_json),
        unmarked(analysis_json),
        unmarked(evidence_block(evidence)),
        forall|i: int| 0 <= i < terms.len() ==> unmarked(#[trigger] terms[i]),
        correction matches Some(c) ==> unmarked(c),
    ensures
        unmarked(prompt_rest(language, parsed_job_json, analysis_json, evidence, terms, concise, correction)),
{
    lemma_mark();
    lemma_breaks();
    lemma_text_language_rule();
    lemma_text_concise_with_placement();
    lemma_text_concise_plain();
    lemma_placement_unmarked(terms);
    lemma_no_ou_unmarked(LANGUAGE_RULE@);
    lemma_no_ou_unmarked("Normalized job JSON:\n"@);
    lemma_no_ou_unmarked("\n\nATS analysis JSON:\n"@);
    lemma_short_unmarked("\n\n"@);
    lemma_short_unmarked("\n"@);
    let pi = placement_instruction(terms);
    let ci = concise_instruction(concise, terms.len() > 0);
    let corr = match correction {
        Some(c) => c,
        None => seq![],
    };
    if correction is None {
        lemma_short_unmarked(corr);
    }
    if concise {
        lemma_no_ou_unmarked(CONCISE_WITH_PLACEMENT@);
        lemma_no_ou_unmarked(CONCISE_PLAIN@);
    } else {
        lemma_short_unmarked(ci);
    }
    let t1 = LANGUAGE_RULE@;
    let t2 = t1 + pi;
    lemma_join(t1, pi);
    assert(t2.last() == '\n') by {
        if pi.len() == 0 {
            assert(t2 =~= t1);
        }
    }
    assert(t2[0] == '.');
    let t3 = t2 + "Normalized job JSON:\n"@;
    lemma_join(t2, "Normalized job JSON:\n"@);
    let t4 = t3 + parsed_job_json;
    lemma_join(t3, parsed_job_json);
    let t5 = t4 + "\n\nATS analysis JSON:\n"@;
    lemma_join(t4, "\n\nATS analysis JSON:\n"@);
    let t6 = t5 + analysis_json;
    lemma_join(t5, analysis_json);
    let t7 = t6 + "\n\n"@;
    lemma_join(t6, "\n\n"@);
    let t8 = t7 + evidence_block(evidence);
    lemma_join(t7, evidence_block(evidence));
    let t9 = t8 + "\n"@;
    lemma_join(t8, "\n"@);
    let t10 = t9 + ci;
    lemma_join(t9, ci);
    assert(t10.last() == '\n') by {
        if ci.len() == 0 {
            assert(t10 =~= t9);
        }
    }
    let t11 = t10 + corr;
    lemma_join(t10, corr);
    assert(t11[0] == '.');
    lemma_join(language, t11);
}

/// The instructions and the base resume are unmarked when the base resume is.
proof fn lemma_head_unmarked(base_resume_json: Seq<char>)
    requires
        unmarked(base_resume_json),
    ensures
        unmarked(
            PROMPT_RULES@ + BULLET_REWRITE_INSTRUCTION@ + PROMPT_EVIDENCE_RULE@ + INVENTION_RULE@
                + PROMPT_CLOSING_RULES@ + base_resume_json,
        ),
{
    lemma_mark();
    lemma_text_prompt_rules();
    lemma_text_bullet_rewrite_instruction();
    lemma_text_prompt_evidence_rule();
    lemma_text_invention_rule();
    lemma_text_prompt_closing_rules();
    lemma_no_ou_unmarked(PROMPT_RULES@);
    lemma_no_ou_unmarked(BULLET_REWRITE_INSTRUCTION@);
    lemma_no_ou_unmarked(PROMPT_EVIDENCE_RULE@);
    lemma_no_ou_unmarked(INVENTION_RULE@);
    lemma_no_ou_unmarked(PROMPT_CLOSING_RULES@);
    let h1 = PROMPT_RULES@ + BULLET_REWRITE_INSTRUCTION@;
    lemma_join(PROMPT_RULES@, BULLET_REWRITE_INSTRUCTION@);
    let h2 = h1 + PROMPT_EVIDENCE_RULE@;
    lemma_join(h1, PROMPT_EVIDENCE_RULE@);
    let h3 = h2 + INVENTION_RULE@;
    lemma_join(h2, INVENTION_RULE@);
    let h4 = h3 + PROMPT_CLOSING_RULES@;
    lemma_join(h3, PROMPT_CLOSING_RULES@);
    lemma_join(h4, base_resume_json);
}

/// Between an unmarked head and an unmarked rest, the output-language lead holds the wording
/// once: it occurs exactly two characters into the lead.
proof fn lemma_lead_once(head: Seq<char>, rest: Seq<char>)
    requires
        unmarked(head),
        unmarked(rest),
    ensures
        forall|q: int|
            occurs_at(head + "\n\nOutput language: "@ + rest, language_mark(), q) <==> q == head.len() + 2,
{
    lemma_mark();
    reveal_strlit("\n\nOutput language: ");
    let lead = "\n\nOutput language: "@;
    let m = language_mark();
    let s = head + lead + rest;
    let p = head.len() as int;
    assert(lead.len() == 19);
    reveal_strlit("Output language:");
    assert(lead.subrange(2, 18) =~= m);
    assert(s.subrange(p + 2, p + 18) =~= lead.subrange(2, 18));
    assert forall|q: int| occurs_at(s, m, q) implies q == p + 2 by {
        if q + 16 <= p {
            assert(head.subrange(q, q + 16) =~= s.subrange(q, q + 16));
            assert(occurs_at(head, m, q));
        } else if q >= p + 19 {
            assert(rest.subrange(q - p - 19, q - p - 3) =~= s.subrange(q, q + 16));
            assert(occurs_at(rest, m, q - p - 19));
        } else if q < p {
            assert(s.subrange(q, q + 16)[p - q] == m[p - q]);
            assert(s[p] == '\n');
        } else {
            assert(s.subrange(q, q + 16)[0] == m[0]);
            assert(s[q] == lead[q - p]);
        }
    }
}

/// Where none of the caller's texts (base resume, language, job, analysis, the evidence block
/// they yield, the placement terms, the correction) holds the output-language wording, the
/// prompt holds it exactly once, and holds the output-language line exactly once: where the
/// cacheable prefix ends.
pub proof fn lemma_language_line_once(
    language: Seq<char>,
    parsed_job_json: Seq<char>,
    analysis_json: Seq<char>,
    base_resume_json: Seq<char>,
    evidence: Seq<EntryView>,
    terms: Seq<Seq<char>>,
    concise: bool,
    correction: Option<Seq<char>>,
)
    requires
        unmarked(base_resume_json),
        unmarked(language),
        unmarked(parsed_job_json),
        unmarked(analysis_json),
        unmarked(evidence_block(evidence)),
        forall|i: int| 0 <= i < terms.len() ==> unmarked(#[trigger] terms[i]),
        correction matches Some(c) ==> unmarked(c),
    ensures
        ({
            let s = tailoring_prompt(
                language,
                parsed_job_json,
                analysis_json,
                base_resume_json,
                evidence,
                terms,
                concise,
                correction,
            );
            let n = cacheable_prefix(base_resume_json).len() as int;
            &&& forall|q: int| occurs_at(s, language_mark(), q) <==> q == n - 17
            &&& forall|q: int| occurs_at(s, language_line(), q) <==> q == n - 18
        }),
{
    let s = tailoring_prompt(
        language,
        parsed_job_json,
        analysis_json,
        base_resume_json,
        evidence,
        terms,
        concise,
        correction,
    );
    let head = PROMPT_RULES@ + BULLET_REWRITE_INSTRUCTION@ + PROMPT_EVIDENCE_RULE@ + INVENTION_RULE@
        + PROMPT_CLOSING_RULES@ + base_resume_json;
    let lead = "\n\nOutput language: "@;
    let rest = prompt_rest(language, parsed_job_json, analysis_json, evidence, terms, concise, correction);
    lemma_stable_prefix(
        language,
        parsed_job_json,
        analysis_json,
        base_resume_json,
        evidence,
        terms,
        concise,
        correction,
    );
    lemma_head_unmarked(base_resume_json);
    lemma_rest_unmarked(language, parsed_job_json, analysis_json, evidence, terms, concise, correction);
    lemma_lead_once(head, rest);
    assert(cacheable_prefix(base_resume_json) == head + lead);
    assert(s == head + lead + rest);
    reveal_strlit("\n\nOutput language: ");
    reveal_strlit("\nOutput language: ");
    reveal_strlit("Output language:");
    let line = language_line();
    let m = language_mark();
    let n = cacheable_prefix(base_resume_json).len() as int;
    let p = head.len() as int;
    assert(n == p + 19);
    assert(line.subrange(1, 17) =~= m);
    assert forall|q: int| occurs_at(s, line, q) implies q == n - 18 by {
        assert(s.subrange(q + 1, q + 17) =~= s.subrange(q, q + 18).subrange(1, 17));
        assert(occurs_at(s, m, q + 1));
    }
    assert(s.subrange(n - 18, n) =~= lead.subrange(1, 19));
    assert(lead.subrange(1, 19) =~= line);
    assert(occurs_at(s, line, n - 18));
}

} // verus!
