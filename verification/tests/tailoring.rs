use resume_workbench::analysis::{JobAnalysis, KeywordSignal};
use resume_workbench::artifacts::{docx_fit_status, is_artifact_format, is_publishable_slug};
use resume_workbench::ats::{AtsCoverage, MissReason, TermCoverage};
use resume_workbench::bank::EvidenceEntry;
use resume_workbench::capture::prompt_job_view;
use resume_workbench::json::Json;
use resume_workbench::prompt::build_tailoring_prompt;
use resume_workbench::tailoring::{
    civil_date_from_days, company_role_slug, content_changes,
    date_prefix_from_days, fnv1a_32, missing_model_placement_terms,
    normalize_bullet_rewrite_decisions, render_evidence_block, replacement_is_substantial,
    replacement_length_is_stable, replacement_reads_as_prose, slugify,
    unchanged_experience_bullets, unplaced_supported_terms, validate_bullet_rewrites,
    validate_full_bullet_rewrites, validate_language, validate_tailored_content,
    BulletRewriteDecision, BulletRewriteOutcome, TailoredResume, TailoringError, TailoringReport,
    MAX_COMPANY_ROLE_SLUG_LEN,
};
use serde_json::Value;

fn convert(value: Value) -> Json {
    match value {
        Value::Null => Json::Null,
        Value::Bool(b) => Json::Bool(b),
        Value::Number(n) => Json::Number(n.to_string()),
        Value::String(s) => Json::Str(s),
        Value::Array(items) => Json::Array(items.into_iter().map(convert).collect()),
        Value::Object(members) => {
            Json::Object(members.into_iter().map(|(k, v)| (k, convert(v))).collect())
        }
    }
}

fn back(value: &Json) -> Value {
    match value {
        Json::Null => Value::Null,
        Json::Bool(b) => Value::Bool(*b),
        Json::Number(n) => serde_json::from_str(n).unwrap(),
        Json::Str(s) => Value::String(s.clone()),
        Json::Array(items) => Value::Array(items.iter().map(back).collect()),
        Json::Object(members) => {
            Value::Object(members.iter().map(|(k, v)| (k.clone(), back(v))).collect())
        }
    }
}

fn v(text: &str) -> Value {
    serde_json::from_str(text).unwrap()
}

fn s(text: &str) -> Value {
    Value::String(text.to_string())
}

fn strings(items: &[String]) -> Value {
    Value::Array(items.iter().map(|item| s(item)).collect())
}

/// The analysis as the JSON object the prompt embeds.
fn analysis_value(a: &JobAnalysis) -> Value {
    let mut m = serde_json::Map::new();
    m.insert("role_target".into(), s(&a.role_target));
    m.insert("seniority".into(), s(&a.seniority));
    let keywords = a
        .core_keywords
        .iter()
        .map(|k| {
            let mut o = serde_json::Map::new();
            o.insert("term".into(), s(&k.term));
            o.insert("category".into(), s(&k.category));
            o.insert("importance".into(), Value::from(k.importance));
            o.insert("evidence".into(), s(&k.evidence));
            Value::Object(o)
        })
        .collect();
    m.insert("core_keywords".into(), Value::Array(keywords));
    m.insert("required_skills".into(), strings(&a.required_skills));
    m.insert("preferred_skills".into(), strings(&a.preferred_skills));
    m.insert("tools_and_platforms".into(), strings(&a.tools_and_platforms));
    m.insert("domain_terms".into(), strings(&a.domain_terms));
    m.insert("responsibility_phrases".into(), strings(&a.responsibility_phrases));
    m.insert("achievement_angles".into(), strings(&a.achievement_angles));
    m.insert("ats_phrase_bank".into(), strings(&a.ats_phrase_bank));
    m.insert(
        "must_not_claim_without_evidence".into(),
        strings(&a.must_not_claim_without_evidence),
    );
    m.insert("term_variants".into(), Value::Array(vec![]));
    m.insert("summary".into(), s(&a.summary));
    Value::Object(m)
}

/// The prompt for these inputs, each serialized the way the tailoring stage does.
#[allow(clippy::too_many_arguments)]
fn prompt(
    language: &str,
    job: &Value,
    analysis: &JobAnalysis,
    base: &Value,
    evidence: &[EvidenceEntry],
    placement: &[String],
    concise: bool,
    correction: Option<&str>,
) -> String {
    let job_text = serde_json::to_string(&back(&prompt_job_view(&convert(job.clone())))).unwrap();
    let analysis_text = serde_json::to_string(&analysis_value(analysis)).unwrap();
    let base_text = serde_json::to_string(base).unwrap();
    build_tailoring_prompt(
        language,
        &job_text,
        &analysis_text,
        &base_text,
        evidence,
        placement,
        concise,
        correction,
    )
}

fn missed_term(term: &str, weight: u8, reason: Option<MissReason>) -> TermCoverage {
    TermCoverage {
        term: term.to_string(),
        kind: "technology".to_string(),
        group: "required".to_string(),
        weight,
        covered: reason.is_none(),
        coverage_matched: if reason.is_none() { 1 } else { 0 },
        coverage_size: 1,
        matched_in: None,
        in_editable_surface: reason.is_none(),
        miss_reason: reason,
    }
}

fn coverage_of(terms: Vec<TermCoverage>) -> AtsCoverage {
    AtsCoverage {
        score: 50,
        covered_weight: 0,
        total_weight: terms.iter().map(|term| u32::from(term.weight)).sum(),
        editable_covered_weight: 0,
        categories: Vec::new(),
        terms,
    }
}

#[test]
fn only_already_supported_misses_are_worth_another_attempt() {
    let coverage = coverage_of(vec![
        missed_term("Kubernetes", 5, Some(MissReason::EvidenceNotPlaced)),
        missed_term("Terraform", 5, Some(MissReason::NoEvidence)),
        missed_term("Rust", 5, None),
    ]);
    assert_eq!(unplaced_supported_terms(&coverage), vec!["Kubernetes".to_string()]);
}

#[test]
fn low_weight_misses_do_not_trigger_another_attempt() {
    let coverage = coverage_of(vec![
        missed_term("GraphQL", 3, Some(MissReason::EvidenceNotPlaced)),
        missed_term("gRPC", 1, Some(MissReason::EvidenceNotPlaced)),
    ]);
    assert!(unplaced_supported_terms(&coverage).is_empty());
}

#[test]
fn a_fully_covered_document_asks_for_no_extra_attempt() {
    let coverage = coverage_of(vec![missed_term("Rust", 5, None)]);
    assert!(unplaced_supported_terms(&coverage).is_empty());
}

fn analysis() -> JobAnalysis {
    JobAnalysis {
        role_target: "Rust Engineer".to_string(),
        seniority: "Senior".to_string(),
        core_keywords: vec![KeywordSignal {
            term: "Rust".to_string(),
            category: "technology".to_string(),
            importance: 5,
            evidence: "Job asks for Rust".to_string(),
        }],
        required_skills: vec!["Rust".to_string()],
        preferred_skills: vec!["Kubernetes".to_string()],
        tools_and_platforms: vec!["Axum".to_string()],
        domain_terms: vec!["API development".to_string()],
        responsibility_phrases: vec!["Build APIs".to_string()],
        achievement_angles: vec!["Reliable services".to_string()],
        ats_phrase_bank: vec!["Rust API development".to_string()],
        must_not_claim_without_evidence: vec!["Kubernetes".to_string()],
        term_variants: vec![],
        summary: "Emphasize Rust API work.".to_string(),
    }
}

fn base_resume() -> Value {
    v(r#"{
        "meta": { "language": "en", "type": "base", "template": "Xevier_T_CV_en.template.docx" },
        "summary": "Engineer with six years building reliable backend services.",
        "experience": [{
            "company": "Acme",
            "location": "Remote",
            "title": "Engineer",
            "dates": "2024 - Present",
            "bullets": ["Built APIs.", "Improved reliability."]
        }],
        "skills": {
            "frontend": "Frontend: React",
            "architecture_backend": "Architecture & Backend: Rust, APIs",
            "ai_data": "AI & Data: OpenAI",
            "testing": "Testing: Vitest",
            "devops": "DevOps: Docker",
            "tools": "Tools: Git"
        }
    }"#)
}

fn multi_role_base_resume() -> Json {
    convert(v(r#"{
        "meta": { "language": "en", "type": "base", "template": "Xevier_T_CV_en.template.docx" },
        "summary": "Engineer with six years building reliable backend services.",
        "experience": [
            {
                "company": "Acme",
                "location": "Remote",
                "title": "Engineer",
                "dates": "2024 - Present",
                "bullets": ["Built APIs for the billing platform.", "Improved reliability of nightly jobs."]
            },
            {
                "company": "Globex",
                "location": "Remote",
                "title": "Developer",
                "dates": "2022 - 2024",
                "bullets": ["Shipped the customer dashboard rewrite."]
            }
        ],
        "skills": {
            "frontend": "Frontend: React",
            "architecture_backend": "Architecture & Backend: Rust, APIs",
            "ai_data": "AI & Data: OpenAI",
            "testing": "Testing: Vitest",
            "devops": "DevOps: Docker",
            "tools": "Tools: Git"
        }
    }"#))
}

fn decision(
    experience_index: usize,
    bullet_index: usize,
    outcome: BulletRewriteOutcome,
) -> BulletRewriteDecision {
    BulletRewriteDecision {
        experience_index,
        bullet_index,
        outcome,
        rationale: "Targets the job's primary signal.".to_string(),
    }
}

fn max_report(decisions: Vec<BulletRewriteDecision>) -> TailoringReport {
    TailoringReport {
        covered_keywords: vec![],
        omitted_unsupported_keywords: vec![],
        changed_fields: vec![],
        safety_notes: vec![],
        model_estimated_ats_coverage_score: 80,
        ats_coverage: None,
        bullet_rewrite_decisions: decisions,
    }
}

fn max_tailored(bullets: [&str; 3], decisions: Vec<BulletRewriteDecision>) -> TailoredResume {
    let mut content = v(r#"{
        "meta": { "language": "en", "type": "base", "template": "Xevier_T_CV_en.template.docx" },
        "experience": [ { "bullets": ["", ""] }, { "bullets": [""] } ],
        "skills": {}
    }"#);
    content["experience"][0]["bullets"][0] = s(bullets[0]);
    content["experience"][0]["bullets"][1] = s(bullets[1]);
    content["experience"][1]["bullets"][0] = s(bullets[2]);
    TailoredResume { content: convert(content), report: max_report(decisions) }
}

const REWRITTEN_A: &str = "Built and operated billing platform APIs used across the company.";
const REWRITTEN_B: &str = "Raised nightly job reliability through better retry handling.";
const REPLACED_C: &str =
    "Owned end-to-end delivery of the customer dashboard rewrite, partnering with design on scope.";

fn error_text(error: TailoringError) -> String {
    error.message()
}

#[test]
fn tailoring_prompt_requires_uncapped_grounded_replacements() {
    let prompt = prompt(
        "en",
        &v(r#"{"title": "Rust Engineer"}"#),
        &analysis(),
        &base_resume(),
        &[],
        &[],
        false,
        None,
    );

    assert!(prompt.contains("There is no cap and no per-role limit"));
    assert!(prompt.contains("replace at least one"));
    assert!(prompt.contains("not a list of technologies"));
    assert!(prompt.contains("Keyword stuffing is a failure"));
    assert!(prompt.contains("never invent a metric"));
    assert!(prompt.contains("Inside a replaced bullet only, you may state a responsibility"));
    assert!(prompt.contains("Treat each one as usable in an experience bullet"));
    assert!(!prompt.contains("Use it in an experience bullet only when its proof_note"));
}

#[test]
fn accepts_a_grounded_replacement() {
    let base = multi_role_base_resume();
    let tailored = max_tailored(
        [REWRITTEN_A, REWRITTEN_B, REPLACED_C],
        vec![
            decision(0, 0, BulletRewriteOutcome::Rewritten),
            decision(0, 1, BulletRewriteOutcome::Rewritten),
            decision(1, 0, BulletRewriteOutcome::Replaced),
        ],
    );

    assert!(validate_bullet_rewrites(&base, &tailored).is_ok());
}

#[test]
fn requires_at_least_one_replacement() {
    let base = multi_role_base_resume();
    let tailored = max_tailored(
        [REWRITTEN_A, REWRITTEN_B, REPLACED_C],
        vec![
            decision(0, 0, BulletRewriteOutcome::Rewritten),
            decision(0, 1, BulletRewriteOutcome::Rewritten),
            decision(1, 0, BulletRewriteOutcome::Rewritten),
        ],
    );

    let error = validate_bullet_rewrites(&base, &tailored).unwrap_err();
    assert!(error_text(error).contains("requires at least 1 replaced experience bullet"));
}

#[test]
fn accepts_more_replacements_than_the_old_budget_allowed() {
    let base = convert(v(r#"{
        "meta": { "language": "en", "type": "base", "template": "t.docx" },
        "experience": [
            { "bullets": ["Base one here for the team."] },
            { "bullets": ["Base two here for the team."] },
            { "bullets": ["Base three here for the team."] },
            { "bullets": ["Base four here for the team."] }
        ],
        "skills": {}
    }"#));
    let mut content = v(r#"{ "experience": [
        { "bullets": [""] }, { "bullets": [""] }, { "bullets": [""] }, { "bullets": [""] }
    ] }"#);
    for index in 0..4 {
        content["experience"][index]["bullets"][0] = s(REPLACED_C);
    }
    let tailored = TailoredResume {
        content: convert(content),
        report: max_report(vec![
            decision(0, 0, BulletRewriteOutcome::Replaced),
            decision(1, 0, BulletRewriteOutcome::Replaced),
            decision(2, 0, BulletRewriteOutcome::Replaced),
            decision(3, 0, BulletRewriteOutcome::Replaced),
        ]),
    };

    assert!(validate_bullet_rewrites(&base, &tailored).is_ok());
}

#[test]
fn accepts_two_replacements_inside_one_role() {
    let base = multi_role_base_resume();
    let tailored = max_tailored(
        [REPLACED_C, REPLACED_C, REWRITTEN_A],
        vec![
            decision(0, 0, BulletRewriteOutcome::Replaced),
            decision(0, 1, BulletRewriteOutcome::Replaced),
            decision(1, 0, BulletRewriteOutcome::Rewritten),
        ],
    );

    assert!(validate_bullet_rewrites(&base, &tailored).is_ok());
}

#[test]
fn rejects_a_replacement_too_short_to_be_an_accomplishment() {
    let base = multi_role_base_resume();
    let tailored = max_tailored(
        [REWRITTEN_A, REWRITTEN_B, "Owned the dashboard."],
        vec![
            decision(0, 0, BulletRewriteOutcome::Rewritten),
            decision(0, 1, BulletRewriteOutcome::Rewritten),
            decision(1, 0, BulletRewriteOutcome::Replaced),
        ],
    );

    let error = validate_bullet_rewrites(&base, &tailored).unwrap_err();
    assert!(error_text(error).contains("too short"));
}

#[test]
fn inherits_the_every_bullet_rewritten_rule() {
    let base = multi_role_base_resume();
    let tailored = max_tailored(
        ["Built APIs for the billing platform.", REWRITTEN_B, REPLACED_C],
        vec![
            decision(0, 0, BulletRewriteOutcome::NoRelevantMatch),
            decision(0, 1, BulletRewriteOutcome::Rewritten),
            decision(1, 0, BulletRewriteOutcome::Replaced),
        ],
    );

    let error = validate_bullet_rewrites(&base, &tailored).unwrap_err();
    assert!(error_text(error).contains("every experience bullet must be rewritten"));
}

#[test]
fn rejects_a_term_stuffed_replacement() {
    let base = multi_role_base_resume();
    let stuffed =
        "Rust, Kubernetes, Axum, Docker, Terraform, Kafka, Redis, GraphQL, gRPC, Postgres, Helm";
    let tailored = max_tailored(
        [REWRITTEN_A, REWRITTEN_B, stuffed],
        vec![
            decision(0, 0, BulletRewriteOutcome::Rewritten),
            decision(0, 1, BulletRewriteOutcome::Rewritten),
            decision(1, 0, BulletRewriteOutcome::Replaced),
        ],
    );

    let error = validate_bullet_rewrites(&base, &tailored).unwrap_err();
    assert!(error_text(error).contains("reads as a keyword list"));
}

#[test]
fn prose_check_accepts_the_tool_list_style_the_base_resume_already_uses() {
    let existing = "Architected RAG and multi-agent systems using Gemini, OpenAI, LangChain, LangGraph, ChromaDB, and pgvector, reducing average response times by 40%.";
    assert!(replacement_reads_as_prose(existing));
    assert!(!replacement_reads_as_prose(
        "Rust, Go, Java, Kotlin, Scala, Elixir, Ruby, Perl, Lua, Nim, Zig"
    ));
    assert!(!replacement_is_substantial("Rust, Go, Java"));
    assert!(!replacement_is_substantial("Too short."));
    assert!(replacement_is_substantial(existing));
}

#[test]
fn replacement_length_guard_allows_growth_but_caps_runaway_text() {
    let short_base = "Shipped the dashboard.";
    assert!(replacement_length_is_stable(short_base, REPLACED_C));
    assert!(!replacement_length_is_stable(short_base, &"x".repeat(200)));
}

#[test]
fn normalizer_preserves_a_replaced_claim_on_changed_text() {
    let base = multi_role_base_resume();
    let mut tailored = max_tailored(
        [REWRITTEN_A, REWRITTEN_B, REPLACED_C],
        vec![
            decision(0, 0, BulletRewriteOutcome::Rewritten),
            decision(0, 1, BulletRewriteOutcome::Rewritten),
            decision(1, 0, BulletRewriteOutcome::Replaced),
        ],
    );

    normalize_bullet_rewrite_decisions(&base, &mut tailored);
    assert_eq!(
        tailored.report.bullet_rewrite_decisions[2].outcome,
        BulletRewriteOutcome::Replaced
    );
}

#[test]
fn normalizer_downgrades_a_replaced_claim_on_unchanged_text() {
    let base = multi_role_base_resume();
    let mut tailored = max_tailored(
        [REWRITTEN_A, REWRITTEN_B, "Shipped the customer dashboard rewrite."],
        vec![
            decision(0, 0, BulletRewriteOutcome::Rewritten),
            decision(0, 1, BulletRewriteOutcome::Rewritten),
            decision(1, 0, BulletRewriteOutcome::Replaced),
        ],
    );

    normalize_bullet_rewrite_decisions(&base, &mut tailored);
    assert_eq!(
        tailored.report.bullet_rewrite_decisions[2].outcome,
        BulletRewriteOutcome::NoRelevantMatch
    );
}

#[test]
fn tailoring_prompt_contains_constraints() {
    let prompt = prompt(
        "en",
        &v(r#"{"title": "Rust Engineer"}"#),
        &analysis(),
        &base_resume(),
        &[],
        &[],
        false,
        None,
    );

    assert!(prompt
        .contains("Rewrite only the professional summary, experience bullet text, and skills strings"));
    assert!(prompt.contains("Do not invent"));
    assert!(prompt.contains("omitted_unsupported_keywords"));
    assert!(prompt.contains("Rust Engineer"));
}

fn kubernetes_entry() -> EvidenceEntry {
    EvidenceEntry {
        term: "Kubernetes".to_string(),
        kind: "technology".to_string(),
        note: Some("ran the 2024 migration".to_string()),
        user_attested: true,
        allow_model_role_placement: true,
    }
}

#[test]
fn tailoring_prompt_keeps_a_stable_cacheable_prefix() {
    const MARKER: &str = "\nOutput language: ";

    let evidence = vec![kubernetes_entry()];
    let other_job = v(r#"{
        "title": "Platform Lead",
        "company": "Globex",
        "description": "Totally different posting with different wording."
    }"#);
    let job = v(r#"{"title": "Rust Engineer"}"#);
    let a = analysis();
    let base = base_resume();
    let variants = [
        prompt("en", &job, &a, &base, &[], &[], false, None),
        prompt("en", &other_job, &a, &base, &[], &[], false, None),
        prompt("fr", &job, &a, &base, &[], &[], false, None),
        prompt("en", &job, &a, &base, &evidence, &[], false, None),
        prompt("en", &job, &a, &base, &evidence, &["Kubernetes".to_string()], false, None),
        prompt("en", &job, &a, &base, &[], &[], true, None),
        prompt(
            "en",
            &job,
            &a,
            &base,
            &[],
            &[],
            false,
            Some("Your preceding response was rejected: every bullet must change.\n\n"),
        ),
    ];

    let expected = variants[0].split(MARKER).next().unwrap().to_string();
    for (index, prompt) in variants.iter().enumerate() {
        assert_eq!(
            prompt.matches(MARKER).count(),
            1,
            "variant {index} does not have exactly one zone boundary"
        );
        assert_eq!(
            prompt.split(MARKER).next().unwrap(),
            expected,
            "variant {index} changed the constant prefix, which disables prompt caching"
        );
    }

    assert!(
        expected.len() > 4 * 1024,
        "constant prefix is only {} chars, too short to be cached",
        expected.len()
    );
}

#[test]
fn tailoring_instructions_are_identical_across_languages() {
    let fr_base = v(r#"{
        "meta": { "language": "fr", "type": "base", "template": "Xevier_T_CV_fr.template.docx" },
        "summary": "Ingénieur avec six ans d'expérience.",
        "experience": [{
            "company": "Acme",
            "location": "Remote",
            "title": "Ingénieur",
            "dates": "2024 - Present",
            "bullets": ["Construit des API.", "Amélioré la fiabilité."]
        }],
        "skills": { "frontend": "Frontend: React" }
    }"#);
    let head = |prompt: &str| prompt.split("Base resume JSON:").next().unwrap().to_string();
    let en = prompt(
        "en",
        &v(r#"{"title": "Rust Engineer"}"#),
        &analysis(),
        &base_resume(),
        &[],
        &[],
        false,
        None,
    );
    let fr = prompt(
        "fr",
        &v(r#"{"title": "Développeur"}"#),
        &analysis(),
        &fr_base,
        &[],
        &[],
        false,
        None,
    );

    assert_eq!(head(&en), head(&fr));
}

fn entry(term: &str, kind: &str, note: Option<&str>, attested: bool, placement: bool) -> EvidenceEntry {
    EvidenceEntry {
        term: term.to_string(),
        kind: kind.to_string(),
        note: note.map(|n| n.to_string()),
        user_attested: attested,
        allow_model_role_placement: placement,
    }
}

/// The JSON form the evidence once took in the prompt.
fn entries_as_json(entries: &[EvidenceEntry]) -> String {
    let items = entries
        .iter()
        .map(|e| {
            let mut o = serde_json::Map::new();
            o.insert("term".into(), s(&e.term));
            o.insert("kind".into(), s(&e.kind));
            o.insert(
                "proof_note".into(),
                e.note.as_deref().map(s).unwrap_or(Value::Null),
            );
            o.insert("user_attested".into(), Value::Bool(e.user_attested));
            o.insert(
                "allow_model_role_placement".into(),
                Value::Bool(e.allow_model_role_placement),
            );
            Value::Object(o)
        })
        .collect();
    serde_json::to_string(&Value::Array(items)).unwrap()
}

#[test]
fn evidence_block_keeps_every_term_and_costs_less_than_json() {
    let entries = vec![
        entry("Rust", "technology", None, true, false),
        entry("Kubernetes", "technology", None, true, true),
        entry("event sourcing", "method_domain", None, true, false),
        entry("incident response", "responsibility", Some("carried the on-call rotation"), true, true),
    ];

    let block = render_evidence_block(&entries);

    for entry in &entries {
        assert!(block.contains(&entry.term), "{} missing from {block}", entry.term);
    }
    assert!(block.contains("technology: Rust, Kubernetes"));
    assert!(block.contains("method_domain: event sourcing"));
    assert!(block.contains("responsibility: incident response"));
    assert!(block.contains(
        "Authorized for placement into an existing role's bullets: Kubernetes, incident response"
    ));
    assert!(block.contains("- incident response: carried the on-call rotation"));

    let as_json = entries_as_json(&entries);
    assert!(
        block.len() < as_json.len(),
        "compact block ({} chars) should undercut the JSON form ({} chars)",
        block.len(),
        as_json.len()
    );
}

#[test]
fn evidence_block_separates_unattested_and_unknown_kinds() {
    let entries = vec![
        entry("Terraform", "technology", None, false, false),
        entry("stakeholder alignment", "something_new", None, true, false),
    ];

    let block = render_evidence_block(&entries);

    assert!(block.contains("Not user-attested - do not claim these: Terraform"));
    assert!(!block.contains("technology: Terraform"));
    assert!(block.contains("other: stakeholder alignment (something_new)"));
}

#[test]
fn evidence_block_states_when_nothing_matched() {
    assert!(render_evidence_block(&[]).contains("(none matched this job)"));
}

#[test]
fn tailoring_prompt_authorizes_selected_claim_replacement() {
    let evidence = vec![entry("Angular dans l’expérience", "technology", None, true, true)];
    let prompt = prompt(
        "fr",
        &v(r#"{"title": "Développeur"}"#),
        &analysis(),
        &base_resume(),
        &evidence,
        &["Angular dans l’expérience".to_string()],
        false,
        None,
    );

    assert!(prompt.contains("authorized you to place them in the most plausible existing role"));
    assert!(prompt.contains("completely replace the least job-relevant existing bullet"));
    assert!(prompt.contains("Angular dans l’expérience"));
    assert!(prompt.contains("do not invent adjacent details"));
}

#[test]
fn selected_claims_must_appear_in_experience() {
    let tailored = convert(v(
        r#"{"experience": [{"bullets": ["Built Angular interfaces for internal users."]}]}"#,
    ));
    let selected = vec![
        "Angular dans l’expérience".to_string(),
        "GCP dans l’expérience".to_string(),
    ];
    assert_eq!(
        missing_model_placement_terms(&tailored, &selected),
        vec!["GCP dans l’expérience".to_string()]
    );
}

#[test]
fn a_claim_split_across_two_bullets_still_counts_as_missing() {
    let tailored = convert(v(r#"{
        "experience": [{
            "bullets": [
                "Led the AI platform roadmap across three product teams.",
                "Built agent tooling on top of a workflow orchestration layer."
            ]
        }]
    }"#));
    let selected = vec!["AI agent orchestration".to_string()];

    assert_eq!(
        missing_model_placement_terms(&tailored, &selected),
        vec!["AI agent orchestration".to_string()]
    );

    let placed = convert(v(r#"{
        "experience": [{
            "bullets": ["Shipped AI agent orchestration for internal support tooling."]
        }]
    }"#));
    assert!(missing_model_placement_terms(&placed, &selected).is_empty());
}

#[test]
fn formats_epoch_day_without_a_shell_dependency() {
    assert_eq!(civil_date_from_days(0), (1970, 1, 1));
    assert_eq!(civil_date_from_days(20_000), (2024, 10, 4));
}

#[test]
fn concise_retry_prompt_preserves_content_constraints() {
    let prompt = prompt("en", &v("{}"), &analysis(), &base_resume(), &[], &[], true, None);
    assert!(prompt.contains("overflowed to a second page"));
    assert!(prompt.contains("Do not shorten by deleting responsibilities"));
}

#[test]
fn validation_rejects_changed_locked_job_fields() {
    let base = base_resume();
    let mut tailored = base.clone();
    tailored["experience"][0]["company"] = s("Different");

    let err = validate_tailored_content("en", &convert(base), &convert(tailored)).unwrap_err();
    assert!(error_text(err).contains("company changed"));
}

#[test]
fn validation_rejects_changed_meta_type() {
    let base = base_resume();
    let mut tailored = base.clone();
    tailored["meta"]["type"] = s("tailored");

    let err = validate_tailored_content("en", &convert(base), &convert(tailored)).unwrap_err();
    assert!(error_text(err).contains("meta.type changed"));
}

#[test]
fn validation_rejects_changed_bullet_count() {
    let base = base_resume();
    let mut tailored = base.clone();
    tailored["experience"][0]["bullets"] = v(r#"["Only one bullet."]"#);

    let err = validate_tailored_content("en", &convert(base), &convert(tailored)).unwrap_err();
    assert!(error_text(err).contains("bullets count changed"));
}

#[test]
fn content_change_list_only_includes_editable_changed_values() {
    let base = base_resume();
    let mut tailored = base.clone();
    tailored["summary"] = s("Rust engineer with six years building reliable APIs.");
    tailored["experience"][0]["bullets"][0] = s("Built reliable Rust APIs.");
    tailored["skills"]["architecture_backend"] = s("Architecture & Backend: Rust, API Design");

    let changes = content_changes(&convert(base), &convert(tailored));

    assert_eq!(changes.len(), 3);
    assert_eq!(changes[0].path, "/summary");
    assert_eq!(changes[0].after, "Rust engineer with six years building reliable APIs.");
    assert_eq!(changes[1].path, "/experience/0/bullets/0");
    assert_eq!(changes[1].before, "Built APIs.");
    assert_eq!(changes[1].after, "Built reliable Rust APIs.");
    assert_eq!(changes[2].path, "/skills/architecture_backend");
}

#[test]
fn an_untouched_summary_is_not_reported_as_a_change() {
    let base = base_resume();
    let mut tailored = base.clone();
    tailored["experience"][0]["bullets"][0] = s("Built reliable Rust APIs.");

    let changes = content_changes(&convert(base), &convert(tailored));

    assert!(changes.iter().all(|change| change.path != "/summary"));
}

#[test]
fn a_legacy_variant_without_a_summary_still_diffs() {
    let mut base = base_resume();
    let mut tailored = base.clone();
    base.as_object_mut().unwrap().remove("summary");
    tailored.as_object_mut().unwrap().remove("summary");
    tailored["skills"]["frontend"] = s("Frontend: React, Redux");

    let changes = content_changes(&convert(base), &convert(tailored));

    assert_eq!(changes.len(), 1);
    assert_eq!(changes[0].path, "/skills/frontend");
}

#[test]
fn validation_accepts_bullet_and_skill_rewrites() {
    let base = base_resume();
    let mut tailored = base.clone();
    tailored["experience"][0]["bullets"][0] = s("Built Rust APIs for reliable services.");
    tailored["skills"]["architecture_backend"] =
        s("Architecture & Backend: Rust, API Design, Axum");

    assert!(validate_tailored_content("en", &convert(base), &convert(tailored)).is_ok());
}

#[test]
fn validation_rejects_an_empty_summary() {
    let base = base_resume();
    let mut tailored = base.clone();
    tailored["summary"] = s("   ");

    let err = validate_tailored_content("en", &convert(base), &convert(tailored)).unwrap_err();

    assert!(error_text(err).contains("summary is empty"));
}

fn high_emphasis_tailored_resume(
    content: Value,
    decisions: Vec<BulletRewriteDecision>,
) -> TailoredResume {
    TailoredResume {
        content: convert(content),
        report: TailoringReport {
            covered_keywords: vec!["Rust".to_string()],
            omitted_unsupported_keywords: vec![],
            changed_fields: vec!["experience[0].bullets[0]".to_string()],
            safety_notes: vec![],
            model_estimated_ats_coverage_score: 80,
            ats_coverage: None,
            bullet_rewrite_decisions: decisions,
        },
    }
}

fn full_decision(bullet_index: usize, outcome: BulletRewriteOutcome, why: &str) -> BulletRewriteDecision {
    BulletRewriteDecision {
        experience_index: 0,
        bullet_index,
        outcome,
        rationale: why.to_string(),
    }
}

#[test]
fn high_emphasis_rejects_skills_only_tailoring() {
    let base = base_resume();
    let mut content = base.clone();
    content["skills"]["architecture_backend"] = s("Architecture & Backend: Rust, APIs, Axum");
    let tailored = high_emphasis_tailored_resume(
        content,
        vec![
            full_decision(0, BulletRewriteOutcome::NoRelevantMatch, "No job match."),
            full_decision(1, BulletRewriteOutcome::NoRelevantMatch, "No job match."),
        ],
    );

    let error = validate_full_bullet_rewrites(&convert(base), &tailored).unwrap_err();
    assert!(error_text(error).contains("skills-only"));
}

#[test]
fn high_emphasis_rejects_an_unchanged_bullet() {
    let base = base_resume();
    let mut content = base.clone();
    content["experience"][0]["bullets"][1] = s("Improved reliable Rust services.");
    let tailored = high_emphasis_tailored_resume(
        content,
        vec![
            full_decision(0, BulletRewriteOutcome::Rewritten, "Rust API match."),
            full_decision(1, BulletRewriteOutcome::NoRelevantMatch, "No job match."),
        ],
    );

    let error = validate_full_bullet_rewrites(&convert(base), &tailored).unwrap_err();
    assert!(error_text(error).contains("every experience bullet"));
}

#[test]
fn high_emphasis_normalization_uses_saved_bullet_text_as_the_source_of_truth() {
    let base = base_resume();
    let mut content = base.clone();
    content["experience"][0]["bullets"][0] = s("Built reliable Rust APIs.");
    content["experience"][0]["bullets"][1] = s("Strengthened production service reliability.");
    let mut tailored = high_emphasis_tailored_resume(
        content,
        vec![
            full_decision(0, BulletRewriteOutcome::NoRelevantMatch, "No job match."),
            full_decision(1, BulletRewriteOutcome::Rewritten, "Rust API match."),
        ],
    );
    let base = convert(base);

    normalize_bullet_rewrite_decisions(&base, &mut tailored);

    assert_eq!(
        tailored.report.bullet_rewrite_decisions[0].outcome,
        BulletRewriteOutcome::Rewritten
    );
    assert_eq!(
        tailored.report.bullet_rewrite_decisions[1].outcome,
        BulletRewriteOutcome::Rewritten
    );
    assert!(validate_full_bullet_rewrites(&base, &tailored).is_ok());
}

#[test]
fn high_emphasis_rejects_an_incomplete_bullet_audit() {
    let base = base_resume();
    let mut content = base.clone();
    content["experience"][0]["bullets"][0] = s("Built reliable Rust APIs.");
    content["experience"][0]["bullets"][1] = s("Strengthened production service reliability.");
    let tailored = high_emphasis_tailored_resume(
        content,
        vec![full_decision(
            0,
            BulletRewriteOutcome::Rewritten,
            "API work aligns with Rust API development.",
        )],
    );

    let error = validate_full_bullet_rewrites(&convert(base), &tailored).unwrap_err();
    assert!(error_text(error).contains("one rewrite decision"));
}

#[test]
fn high_emphasis_accepts_complete_truthful_bullet_audit() {
    let base = base_resume();
    let mut content = base.clone();
    content["experience"][0]["bullets"][0] = s("Built reliable Rust APIs.");
    content["experience"][0]["bullets"][1] = s("Strengthened production service reliability.");
    let tailored = high_emphasis_tailored_resume(
        content,
        vec![
            full_decision(
                0,
                BulletRewriteOutcome::Rewritten,
                "API work aligns with Rust API development.",
            ),
            full_decision(
                1,
                BulletRewriteOutcome::Rewritten,
                "Reliability work aligns with the target role.",
            ),
        ],
    );

    assert!(validate_full_bullet_rewrites(&convert(base), &tailored).is_ok());
}

#[test]
fn high_emphasis_lists_each_unchanged_bullet_for_the_retry_prompt() {
    let base = base_resume();
    let mut content = base.clone();
    content["experience"][0]["bullets"][0] = s("Built reliable Rust APIs.");

    assert_eq!(
        unchanged_experience_bullets(&convert(base), &convert(content)),
        "experience 0, bullet 1: Improved reliability."
    );
}

#[test]
fn slugify_keeps_paths_safe() {
    assert_eq!(slugify("Acme AI / Senior Rust Engineer en"), "acme-ai-senior-rust-engineer-en");
}

#[test]
fn long_company_role_slugs_are_bounded_and_deterministic() {
    let parsed = convert(v(r#"{ "company": "Spendesk" }"#));
    let mut first = analysis();
    first.role_target = "Backend Software Engineer IC3 focused on backend foundations for AI-native conversational and agentic product experiences at Spendesk".to_string();
    let first_slug = company_role_slug(&parsed, &first, "en");
    let repeated_slug = company_role_slug(&parsed, &first, "en");
    let mut second = first.clone();
    second.role_target.push_str(" with a distinct ending");
    let second_slug = company_role_slug(&parsed, &second, "en");

    assert!(first_slug.len() <= MAX_COMPANY_ROLE_SLUG_LEN);
    assert!(first_slug.ends_with("-en"));
    assert_eq!(first_slug, repeated_slug);
    assert_ne!(first_slug, second_slug);
}

#[test]
fn a_short_slug_is_kept_whole() {
    let parsed = convert(v(r#"{ "company": "Acme" }"#));
    assert_eq!(company_role_slug(&parsed, &analysis(), "en"), "acme-rust-engineer-en");
}

#[test]
fn fnv1a_matches_its_published_test_vectors() {
    assert_eq!(fnv1a_32(b""), 0x811c9dc5);
    assert_eq!(fnv1a_32(b"a"), 0xe40c292c);
    assert_eq!(fnv1a_32(b"foobar"), 0xbf9cf968);
}

#[test]
fn a_date_prefix_is_zero_padded() {
    assert_eq!(date_prefix_from_days(0), "1970-01-01");
    assert_eq!(date_prefix_from_days(20_000), "2024-10-04");
    assert_eq!(civil_date_from_days(-1), (1969, 12, 31));
}

#[test]
fn only_english_and_french_are_tailored() {
    assert!(validate_language("en").is_ok());
    assert!(validate_language("fr").is_ok());
    let error = validate_language("de").unwrap_err();
    assert_eq!(error_text(error), "Unsupported resume language: de");
}

#[test]
fn every_variant_a_run_names_can_be_published() {
    use_publication_rules();
}

fn use_publication_rules() {
    let parsed = convert(v(r#"{ "company": "Acme AI / Labs", "title": "Staff Engineer" }"#));
    let mut job = analysis();
    job.role_target = "Ingénieur·e Rust (Senior) — équipe plateforme".to_string();
    for language in ["en", "fr"] {
        let name = format!(
            "{}-{}",
            date_prefix_from_days(20_000),
            company_role_slug(&parsed, &job, language)
        );
        assert!(is_publishable_slug(&name), "{name}");
    }
    assert!(!is_publishable_slug(""));
    assert!(!is_publishable_slug("../etc"));
    assert!(!is_publishable_slug("Acme-Rust"));
    assert!(is_artifact_format("pdf") && is_artifact_format("docx"));
    assert!(!is_artifact_format("PDF"));
    assert_eq!(docx_fit_status(true), "failed");
    assert_eq!(docx_fit_status(false), "not_run");
}
