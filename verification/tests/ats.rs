use resume_workbench::analysis::{JobAnalysis, KeywordSignal, TermVariants};
use resume_workbench::ats::{covered_and_omitted, percentage, score_ats_coverage, MissReason};
use resume_workbench::json::Json;
use resume_workbench::preflight::PreflightItem;
use serde_json::Value;

fn convert(value: Value) -> Json {
    match value {
        Value::Null => Json::Null,
        Value::Bool(b) => Json::Bool(b),
        Value::Number(n) => Json::Number(n.to_string()),
        Value::String(s) => Json::Str(s),
        Value::Array(items) => Json::Array(items.into_iter().map(convert).collect()),
        Value::Object(members) => {
            Json::Object(members.into_iter().map(|(k, v)| (k, convert(v))).collect())
        }
    }
}

fn analysis() -> JobAnalysis {
    JobAnalysis {
        role_target: "Lead Front Engineer".into(),
        seniority: "Senior".into(),
        core_keywords: vec![],
        required_skills: vec![],
        preferred_skills: vec![],
        tools_and_platforms: vec![],
        domain_terms: vec![],
        responsibility_phrases: vec![],
        achievement_angles: vec![],
        ats_phrase_bank: vec![],
        must_not_claim_without_evidence: vec![],
        term_variants: vec![],
        summary: String::new(),
    }
}

fn resume_value(bullets: &[&str], skills: Value, company: &str) -> Value {
    let mut value: Value = serde_json::from_str(
        r#"{
            "meta": { "language": "en", "type": "base", "template": "t.docx" },
            "experience": [{
                "company": "",
                "location": "Remote",
                "title": "Lead Front Engineer",
                "dates": "2024 - Present",
                "bullets": []
            }],
            "skills": {}
        }"#,
    )
    .unwrap();
    value["experience"][0]["company"] = Value::String(company.to_string());
    value["experience"][0]["bullets"] =
        Value::Array(bullets.iter().map(|b| Value::String(b.to_string())).collect());
    value["skills"] = skills;
    value
}

fn frontend(skills: &str) -> Value {
    let mut map = serde_json::Map::new();
    map.insert("frontend".to_string(), Value::String(skills.to_string()));
    Value::Object(map)
}

fn resume(bullets: &[&str], skills: &str) -> Json {
    convert(resume_value(bullets, frontend(skills), "Kubernetes Consulting GmbH"))
}

fn available(term: &str) -> PreflightItem {
    PreflightItem {
        term: term.into(),
        kind: "technology".into(),
        importance: 5,
        source: "evidence_bank",
        resolution: "auto_available",
        resolution_reason: "Previously confirmed in saved evidence",
        matched_term: Some(term.into()),
        note: None,
        eligible_for_bullets: true,
        allow_model_role_placement: false,
    }
}

#[test]
fn a_resume_naming_every_required_term_scores_full_marks() {
    let mut job = analysis();
    job.required_skills = vec!["React".into(), "TypeScript".into()];
    job.tools_and_platforms = vec!["Docker".into()];

    let coverage = score_ats_coverage(
        &job,
        &resume(&["Built React interfaces in TypeScript."], "Docker"),
        None,
        &[],
    );

    assert_eq!(coverage.score, 100);
    assert_eq!(coverage.covered_weight, coverage.total_weight);
    assert!(coverage.terms.iter().all(|term| term.covered));
}

#[test]
fn a_resume_naming_none_of_them_scores_zero() {
    let mut job = analysis();
    job.required_skills = vec!["Kotlin".into(), "Swift".into()];

    let coverage = score_ats_coverage(&job, &resume(&["Wrote documentation."], "Figma"), None, &[]);

    assert_eq!(coverage.score, 0);
    assert_eq!(coverage.covered_weight, 0);
    assert!(coverage.terms.iter().all(|term| !term.covered));
}

#[test]
fn an_analysis_with_no_terms_scores_zero_rather_than_dividing_by_zero() {
    let coverage = score_ats_coverage(&analysis(), &resume(&["Anything."], "Anything"), None, &[]);

    assert_eq!(coverage.score, 0);
    assert_eq!(coverage.total_weight, 0);
    assert!(coverage.categories.is_empty());
}

#[test]
fn a_missed_required_skill_costs_more_than_a_missed_domain_term() {
    let mut job = analysis();
    job.required_skills = vec!["Kotlin".into()];
    job.domain_terms = vec!["Fintech".into()];

    let required_missed = score_ats_coverage(
        &job,
        &resume(&["Worked across fintech products."], "Figma"),
        None,
        &[],
    );
    let domain_missed =
        score_ats_coverage(&job, &resume(&["Shipped Kotlin services."], "Figma"), None, &[]);

    assert!(
        required_missed.score < domain_missed.score,
        "missing required scored {}, missing domain scored {}",
        required_missed.score,
        domain_missed.score
    );
}

#[test]
fn importance_from_the_analysis_drives_core_keyword_weight() {
    let mut job = analysis();
    job.core_keywords = vec![
        KeywordSignal {
            term: "Rust".into(),
            category: "technology".into(),
            importance: 5,
            evidence: "Named in the title".into(),
        },
        KeywordSignal {
            term: "Grafana".into(),
            category: "technology".into(),
            importance: 1,
            evidence: "Mentioned once".into(),
        },
    ];

    let kept_the_important_one =
        score_ats_coverage(&job, &resume(&["Shipped Rust services."], "Figma"), None, &[]);
    let kept_the_trivial_one =
        score_ats_coverage(&job, &resume(&["Maintained Grafana boards."], "Figma"), None, &[]);

    assert!(kept_the_important_one.score > kept_the_trivial_one.score);
}

#[test]
fn punctuated_technology_names_survive_matching() {
    let mut job = analysis();
    job.required_skills = vec!["C++".into(), "Node.js".into(), "C#".into()];

    let coverage = score_ats_coverage(
        &job,
        &resume(&["Wrote C++ and C# services."], "Node.js, Express"),
        None,
        &[],
    );

    assert_eq!(coverage.score, 100, "{:?}", coverage.terms);
}

#[test]
fn a_miss_with_saved_evidence_is_reported_as_unplaced_not_unsupported() {
    let mut job = analysis();
    job.required_skills = vec!["GraphQL".into(), "Kotlin".into()];

    let coverage = score_ats_coverage(
        &job,
        &resume(&["Wrote documentation."], "Figma"),
        None,
        &[available("GraphQL")],
    );

    let graphql = coverage.terms.iter().find(|term| term.term == "GraphQL").unwrap();
    let kotlin = coverage.terms.iter().find(|term| term.term == "Kotlin").unwrap();

    assert_eq!(graphql.miss_reason, Some(MissReason::EvidenceNotPlaced));
    assert_eq!(kotlin.miss_reason, Some(MissReason::NoEvidence));
}

#[test]
fn a_covered_term_carries_no_miss_reason() {
    let mut job = analysis();
    job.required_skills = vec!["React".into()];

    let coverage =
        score_ats_coverage(&job, &resume(&["Built React interfaces."], "Figma"), None, &[]);

    assert_eq!(coverage.terms[0].miss_reason, None);
    assert_eq!(coverage.terms[0].matched_in.as_deref(), Some("experience.0.bullets.0"));
}

#[test]
fn a_term_found_only_in_a_company_name_counts_but_is_not_credited_to_tailoring() {
    let mut job = analysis();
    job.required_skills = vec!["Kubernetes".into()];

    let coverage = score_ats_coverage(&job, &resume(&["Wrote documentation."], "Figma"), None, &[]);

    let term = &coverage.terms[0];
    assert!(term.covered);
    assert_eq!(term.matched_in.as_deref(), Some("experience.0.company"));
    assert!(!term.in_editable_surface);
    assert_eq!(coverage.editable_covered_weight, 0);
}

#[test]
fn a_term_found_only_in_the_summary_is_credited_to_tailoring() {
    let mut job = analysis();
    job.required_skills = vec!["GraphQL".into()];
    let mut content =
        resume_value(&["Wrote documentation."], frontend("Figma"), "Kubernetes Consulting GmbH");
    content["summary"] = Value::String("Engineer building GraphQL platforms.".to_string());

    let coverage = score_ats_coverage(&job, &convert(content), None, &[]);

    let term = &coverage.terms[0];
    assert!(term.covered);
    assert_eq!(term.matched_in.as_deref(), Some("summary"));
    assert!(term.in_editable_surface);
    assert!(coverage.editable_covered_weight > 0);
}

#[test]
fn a_bullet_match_wins_over_an_incidental_locked_match() {
    let mut job = analysis();
    job.required_skills = vec!["Kubernetes".into()];

    let coverage = score_ats_coverage(
        &job,
        &resume(&["Ran Kubernetes clusters in production."], "Figma"),
        None,
        &[],
    );

    assert_eq!(coverage.terms[0].matched_in.as_deref(), Some("experience.0.bullets.0"));
    assert!(coverage.terms[0].in_editable_surface);
}

#[test]
fn locked_sections_contribute_to_coverage() {
    let mut job = analysis();
    job.required_skills = vec!["Business Administration".into()];
    let locked = convert(
        serde_json::from_str(
            r#"{
                "education": ["Bachelor of Business Administration - BBA"],
                "header": ["Xevier Turrubiartes"]
            }"#,
        )
        .unwrap(),
    );

    let without = score_ats_coverage(&job, &resume(&["Wrote documentation."], "Figma"), None, &[]);
    let with_locked =
        score_ats_coverage(&job, &resume(&["Wrote documentation."], "Figma"), Some(&locked), &[]);

    assert_eq!(without.score, 0);
    assert_eq!(with_locked.score, 100);
    assert_eq!(with_locked.terms[0].matched_in.as_deref(), Some("education.0"));
}

#[test]
fn categories_report_each_group_separately() {
    let mut job = analysis();
    job.required_skills = vec!["React".into(), "Kotlin".into()];
    job.preferred_skills = vec!["Svelte".into()];

    let coverage =
        score_ats_coverage(&job, &resume(&["Built React interfaces."], "Figma"), None, &[]);

    let required = coverage.categories.iter().find(|c| c.group == "required").unwrap();
    assert_eq!((required.covered, required.total), (1, 2));

    let preferred = coverage.categories.iter().find(|c| c.group == "preferred").unwrap();
    assert_eq!((preferred.covered, preferred.total), (0, 1));

    assert!(coverage.categories.iter().all(|c| c.group != "domain"));
}

#[test]
fn misses_are_listed_first_and_heaviest_first() {
    let mut job = analysis();
    job.required_skills = vec!["Kotlin".into()];
    job.domain_terms = vec!["Fintech".into()];
    job.tools_and_platforms = vec!["React".into()];

    let coverage =
        score_ats_coverage(&job, &resume(&["Built React interfaces."], "Figma"), None, &[]);

    let order = coverage.terms.iter().map(|term| term.term.as_str()).collect::<Vec<_>>();
    assert_eq!(order, vec!["Kotlin", "Fintech", "React"]);
}

#[test]
fn covered_and_omitted_split_the_ledger_by_what_the_document_says() {
    let mut job = analysis();
    job.required_skills = vec!["React".into(), "Kotlin".into()];

    let coverage =
        score_ats_coverage(&job, &resume(&["Built React interfaces."], "Figma"), None, &[]);
    let (covered, omitted) = covered_and_omitted(&coverage);

    assert_eq!(covered, vec!["React".to_string()]);
    assert_eq!(omitted, vec!["Kotlin".to_string()]);
}

fn job_wanting_with_variants(term: &str, variants: &[&str]) -> JobAnalysis {
    let mut job = analysis();
    job.role_target = "Platform Engineer".into();
    job.required_skills = vec![term.into()];
    job.term_variants = vec![TermVariants {
        term: term.into(),
        variants: variants.iter().map(|variant| (*variant).into()).collect(),
    }];
    job
}

fn resume_saying(bullet: &str) -> Json {
    let mut value = resume_value(&[bullet], frontend("Figma"), "Acme");
    value["experience"][0]["title"] = Value::String("Engineer".to_string());
    convert(value)
}

#[test]
fn an_acronym_in_the_resume_covers_the_expansion_the_post_used() {
    let job = job_wanting_with_variants("Kubernetes", &["K8s"]);

    let coverage = score_ats_coverage(&job, &resume_saying("Ran K8s clusters."), None, &[]);

    assert_eq!(coverage.score, 100, "{:?}", coverage.terms);
    assert!(coverage.terms[0].in_editable_surface);
}

#[test]
fn the_expansion_in_the_resume_covers_the_acronym_the_post_used() {
    let job = job_wanting_with_variants("CI/CD", &["continuous integration"]);

    let coverage = score_ats_coverage(
        &job,
        &resume_saying("Owned continuous integration for the platform."),
        None,
        &[],
    );

    assert_eq!(coverage.score, 100, "{:?}", coverage.terms);
}

#[test]
fn an_unrelated_term_is_still_a_miss() {
    let job = job_wanting_with_variants("Kubernetes", &["K8s"]);

    let coverage = score_ats_coverage(&job, &resume_saying("Ran Nomad clusters."), None, &[]);

    assert_eq!(coverage.score, 0, "{:?}", coverage.terms);
    assert_eq!(coverage.terms[0].miss_reason, Some(MissReason::NoEvidence));
}

#[test]
fn variants_for_a_different_term_do_not_leak_across() {
    let mut job = job_wanting_with_variants("Kubernetes", &["K8s"]);
    job.required_skills.push("Terraform".into());

    let coverage = score_ats_coverage(&job, &resume_saying("Ran K8s clusters."), None, &[]);

    let terraform = coverage.terms.iter().find(|term| term.term == "Terraform").unwrap();
    assert!(!terraform.covered);
}

#[test]
fn a_blank_variant_is_ignored_rather_than_matching_everything() {
    let job = job_wanting_with_variants("Kubernetes", &["", "   "]);

    let coverage = score_ats_coverage(&job, &resume_saying("Wrote documentation."), None, &[]);

    assert_eq!(coverage.score, 0, "{:?}", coverage.terms);
}

fn job_wanting(terms: &[&str]) -> JobAnalysis {
    let mut job = analysis();
    job.required_skills = terms.iter().map(|term| (*term).into()).collect();
    job
}

fn partial_resume(bullets: &[&str], skills: &[(&str, &str)]) -> Json {
    let mut map = serde_json::Map::new();
    for (key, value) in skills {
        map.insert((*key).to_string(), Value::String((*value).to_string()));
    }
    let mut value = resume_value(bullets, Value::Object(map), "Acme");
    value["experience"][0]["title"] = Value::String("Engineer".to_string());
    convert(value)
}

#[test]
fn a_term_split_across_two_sections_still_counts_as_covered() {
    let job = job_wanting(&["state management avancé"]);

    let coverage = score_ats_coverage(
        &job,
        &partial_resume(
            &["Shipped features."],
            &[("frontend", "React, state management"), ("tools", "debugging avancé")],
        ),
        None,
        &[],
    );

    assert!(coverage.terms[0].covered, "{:?}", coverage.terms);
    assert_eq!(coverage.score, 100);
}

#[test]
fn a_partly_present_phrase_earns_part_of_its_weight() {
    let job = job_wanting(&["RFC and ADR"]);

    let coverage = score_ats_coverage(
        &job,
        &partial_resume(&["Wrote features."], &[("tools", "Git, ADR")]),
        None,
        &[],
    );

    let term = &coverage.terms[0];
    assert!(!term.covered, "half a phrase is not a full match");
    assert_eq!(term.coverage_matched * 2, term.coverage_size, "{:?}", term);
    assert!(coverage.score > 0 && coverage.score < 100, "{}", coverage.score);
}

#[test]
fn a_wholly_absent_phrase_earns_nothing() {
    let job = job_wanting(&["Kotlin and Swift"]);

    let coverage = score_ats_coverage(
        &job,
        &partial_resume(&["Wrote features."], &[("tools", "Git")]),
        None,
        &[],
    );

    assert_eq!(coverage.terms[0].coverage_matched, 0);
    assert_eq!(coverage.score, 0);
    assert!(coverage.terms[0].matched_in.is_none());
}

#[test]
fn a_partial_match_points_at_the_section_carrying_the_most_of_it() {
    let job = job_wanting(&["automated visual regression testing"]);

    let coverage = score_ats_coverage(
        &job,
        &partial_resume(
            &["Handled regression triage."],
            &[("testing", "Playwright, automated visual testing")],
        ),
        None,
        &[],
    );

    assert_eq!(coverage.terms[0].matched_in.as_deref(), Some("skills.testing"));
}

#[test]
fn categories_report_partial_matches_beside_full_ones() {
    let job = job_wanting(&["React", "RFC and ADR", "Kotlin"]);

    let coverage = score_ats_coverage(
        &job,
        &partial_resume(&["Built React interfaces."], &[("tools", "Git, ADR")]),
        None,
        &[],
    );

    let required = &coverage.categories[0];
    assert_eq!(required.group, "required");
    assert_eq!((required.covered, required.partial, required.total), (1, 1, 3));
}

#[test]
fn partial_credit_from_locked_text_is_not_credited_to_tailoring() {
    let job = job_wanting(&["Acme platform engineering"]);

    let coverage = score_ats_coverage(
        &job,
        &partial_resume(&["Wrote documentation."], &[("tools", "Git")]),
        None,
        &[],
    );

    assert!(coverage.terms[0].coverage_matched > 0);
    assert_eq!(coverage.editable_covered_weight, 0);
    assert!(!coverage.terms[0].in_editable_surface);
}

#[test]
fn french_inclusive_writing_matches_the_plain_word() {
    let job = job_wanting(&["Référent·e technique"]);

    let coverage = score_ats_coverage(
        &job,
        &partial_resume(
            &["Référent technique d’une équipe de trois ingénieurs."],
            &[("tools", "Git")],
        ),
        None,
        &[],
    );

    assert!(coverage.terms[0].covered, "{:?}", coverage.terms);
    assert_eq!(coverage.score, 100);
}

#[test]
fn the_score_is_the_covered_share_rounded_to_a_whole_percent() {
    assert_eq!(percentage(0, 0), 0);
    assert_eq!(percentage(1, 3), 33);
    assert_eq!(percentage(2, 3), 67);
    assert_eq!(percentage(5, 5), 100);
}

#[test]
fn the_preflight_asks_about_exactly_the_terms_the_score_measures() {
    let mut job = analysis();
    job.core_keywords = vec![KeywordSignal {
        term: "React".into(),
        category: "technology".into(),
        importance: 3,
        evidence: "Named twice".into(),
    }];
    job.required_skills = vec!["React".into(), "Kotlin".into()];
    job.domain_terms = vec!["Fintech".into()];
    job.responsibility_phrases = vec!["Lead code reviews".into()];
    let base = resume(&["Built React interfaces."], "Figma");

    let items = resume_workbench::preflight::preflight_items(
        &job,
        &base,
        &resume_workbench::bank::empty_bank(),
    );
    let coverage = score_ats_coverage(&job, &base, None, &items);

    let mut asked: Vec<String> = items.iter().map(|item| item.term.clone()).collect();
    let mut measured: Vec<String> = coverage.terms.iter().map(|term| term.term.clone()).collect();
    asked.sort();
    measured.sort();
    assert_eq!(asked, measured);
    assert_eq!(asked.len(), 4);
}
