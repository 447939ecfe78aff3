use resume_workbench::analysis::JobAnalysis;
use resume_workbench::bank::{empty_bank, SelectedEvidence};
use resume_workbench::commands::{
    build_approved_evidence, check_language, check_retailor_capture, failure_summary,
    retailor_approved_evidence, retailor_selected_evidence,
    normalize_stored_result, prepare_preflight_result, recovered_result, retailor_source,
    validate_selected_omitted_terms, AppError, RetailorResumeRequest, StoredPipelineResult,
    MISSING_SUMMARY, RECOVERED_PDF_MISSING,
};
use resume_workbench::json::Json;
use resume_workbench::pipeline::{progress, TailoringRun, MAX_TAILORING_ATTEMPTS};
use resume_workbench::tailoring::{TailoringError, TailoringReport};
use serde_json::Value;

fn convert(value: Value) -> Json {
    match value {
        Value::Null => Json::Null,
        Value::Bool(b) => Json::Bool(b),
        Value::Number(n) => Json::Number(n.to_string()),
        Value::String(s) => Json::Str(s),
        Value::Array(items) => Json::Array(items.into_iter().map(convert).collect()),
        Value::Object(members) => {
            Json::Object(members.into_iter().map(|(k, v)| (k, convert(v))).collect())
        }
    }
}

fn back(value: &Json) -> Value {
    match value {
        Json::Null => Value::Null,
        Json::Bool(b) => Value::Bool(*b),
        Json::Number(n) => serde_json::from_str(n).unwrap(),
        Json::Str(s) => Value::String(s.clone()),
        Json::Array(items) => Value::Array(items.iter().map(back).collect()),
        Json::Object(members) => {
            Value::Object(members.iter().map(|(k, v)| (k.clone(), back(v))).collect())
        }
    }
}

fn j(text: &str) -> Json {
    convert(serde_json::from_str(text).unwrap())
}

fn message(error: AppError) -> String {
    error.message()
}

fn sample_analysis(summary: &str, seniority: &str, required: &[&str]) -> JobAnalysis {
    JobAnalysis {
        role_target: "Backend Engineer".to_string(),
        seniority: seniority.to_string(),
        core_keywords: vec![],
        required_skills: required.iter().map(|s| s.to_string()).collect(),
        preferred_skills: vec![],
        tools_and_platforms: vec![],
        domain_terms: vec![],
        responsibility_phrases: vec![],
        achievement_angles: vec![],
        ats_phrase_bank: vec![],
        must_not_claim_without_evidence: vec![],
        term_variants: vec![],
        summary: summary.to_string(),
    }
}

#[test]
fn prepares_language_specific_evidence_without_reanalyzing_the_job() {
    let base = j(r#"{"skills":{"programming":"Rust"}}"#);
    let analysis = sample_analysis("Rust backend role", "mid", &["Rust"]);

    let result = match prepare_preflight_result("fr", analysis, &base, &empty_bank()) {
        Ok(result) => result,
        Err(error) => panic!("{}", message(error)),
    };

    assert_eq!(result.analysis.summary, "Rust backend role");
    assert_eq!(result.items.len(), 1);
    assert_eq!(result.items[0].term, "Rust");
    assert_eq!(result.items[0].source, "base_resume");
}

#[test]
fn rejects_an_unknown_preflight_language_before_reading_resume_files() {
    let base = j("{}");
    let analysis = sample_analysis("Rust backend role", "mid", &["Rust"]);
    let error = match prepare_preflight_result("de", analysis, &base, &empty_bank()) {
        Ok(_) => panic!("unknown language unexpectedly succeeded"),
        Err(error) => error,
    };
    assert!(message(error).contains("Language must be en or fr"));
}

fn stored(text: &str) -> StoredPipelineResult {
    let value: Value = serde_json::from_str(text).unwrap();
    let text_of = |key: &str| value.get(key).and_then(Value::as_str).unwrap_or("").to_string();
    StoredPipelineResult {
        schema_version: value["schema_version"].as_u64().unwrap() as u8,
        capture_received_at_ms: value["capture_received_at_ms"].as_u64().unwrap(),
        language: text_of("language"),
        recovered_from_artifacts: value["recovered_from_artifacts"].as_bool().unwrap(),
        status: text_of("status"),
        summary: text_of("summary"),
        failed_stage: None,
        error: None,
        analysis: convert(value.get("analysis").cloned().unwrap_or(Value::Null)),
        resume: convert(value.get("resume").cloned().unwrap_or(Value::Null)),
    }
}

#[test]
fn normalizes_a_legacy_result_into_a_visible_summary() {
    let legacy = r#"{
        "schema_version": 1,
        "capture_received_at_ms": 1234,
        "language": "fr",
        "recovered_from_artifacts": false,
        "analysis": { "summary": "Legacy ATS summary" },
        "resume": { "tailoring_status": "partial" }
    }"#;
    let normalized = normalize_stored_result(stored(legacy));

    assert_eq!(normalized.status, "partial");
    assert_eq!(normalized.summary, "Legacy ATS summary");
}

#[test]
fn a_result_with_nothing_to_show_says_so() {
    let empty = r#"{
        "schema_version": 1,
        "capture_received_at_ms": 1,
        "language": "en",
        "recovered_from_artifacts": false
    }"#;
    let normalized = normalize_stored_result(stored(empty));
    assert_eq!(normalized.status, "failed");
    assert_eq!(normalized.summary, MISSING_SUMMARY);

    let analysed = r#"{
        "schema_version": 2,
        "capture_received_at_ms": 1,
        "language": "en",
        "recovered_from_artifacts": false,
        "summary": "Kept as written.",
        "analysis": { "summary": "   " }
    }"#;
    let normalized = normalize_stored_result(stored(analysed));
    assert_eq!(normalized.status, "analysis_ready");
    assert_eq!(normalized.summary, "Kept as written.");
}

#[test]
fn validates_and_deduplicates_selected_omitted_terms() {
    let selected = vec![" Angular ".to_string(), "angular".to_string()];
    let validated = validate_selected_omitted_terms(&selected, &["Angular", "GCP"]).unwrap();
    assert_eq!(validated, vec!["Angular"]);

    let error = validate_selected_omitted_terms(&["Kubernetes".to_string()], &["Angular", "GCP"])
        .unwrap_err();
    assert!(message(error).contains("not in the source result"));
}

#[test]
fn a_selection_must_name_between_one_and_thirty_phrases_of_sensible_length() {
    let none = validate_selected_omitted_terms(&[], &["Angular"]).unwrap_err();
    assert!(message(none).contains("Select at least one omitted phrase"));

    let many: Vec<String> = (0..31).map(|i| format!("term {i}")).collect();
    let too_many = validate_selected_omitted_terms(&many, &["Angular"]).unwrap_err();
    assert!(message(too_many).contains("No more than 30"));

    let blank = validate_selected_omitted_terms(&["   ".to_string()], &["Angular"]).unwrap_err();
    assert!(message(blank).contains("between 1 and 200 characters"));

    let long = validate_selected_omitted_terms(&["x".repeat(201)], &["Angular"]).unwrap_err();
    assert!(message(long).contains("between 1 and 200 characters"));
}

#[test]
fn failure_summary_is_honest_when_analysis_did_not_complete() {
    let summary = failure_summary("ats_analysis", "request timed out", None);

    assert!(summary.starts_with("No AI analysis was produced."));
    assert!(summary.contains("request timed out"));
}

#[test]
fn failure_summary_keeps_real_analysis_for_a_downstream_failure() {
    let analysis = sample_analysis("Prioritize reliable backend delivery.", "Senior", &[]);
    let summary = failure_summary("docx_render", "LibreOffice failed", Some(&analysis));

    assert!(summary.starts_with("Prioritize reliable backend delivery."));
    assert!(summary.contains("LibreOffice failed"));
}

#[test]
fn only_english_and_french_commands_are_accepted() {
    assert!(check_language("en").is_ok());
    assert!(check_language("fr").is_ok());
    assert_eq!(message(check_language("EN").unwrap_err()), "Language must be en or fr.");
}

fn report(score: u8) -> TailoringReport {
    TailoringReport {
        covered_keywords: vec!["Rust".to_string(), "REST APIs".to_string()],
        omitted_unsupported_keywords: vec!["Kubernetes".to_string()],
        changed_fields: vec!["experience.bullets".to_string()],
        safety_notes: vec![],
        model_estimated_ats_coverage_score: score,
        ats_coverage: None,
        bullet_rewrite_decisions: vec![],
    }
}

#[test]
fn recovers_summary_and_changes_from_existing_variant_artifacts() {
    let base = j(r#"{
        "experience": [{ "bullets": ["Built APIs."] }],
        "skills": { "backend": "Backend: Rust" }
    }"#);
    let tailored = j(r#"{
        "experience": [{ "bullets": ["Built scalable APIs."] }],
        "skills": { "backend": "Backend: Rust, REST APIs" }
    }"#);
    let report_json = j(r#"{"estimated_ats_coverage_score": 81}"#);
    let dir = "resume/variants/2026-08-16-example-role-en";

    let recovered = recovered_result(
        0,
        "en",
        &base,
        &tailored,
        &report(81),
        report_json,
        Some("2026-08-16-example-role-en".to_string()),
        format!("{dir}/variant.json"),
        format!("{dir}/tailoring-report.json"),
        format!("{dir}/Xevier_T_CV_en.docx"),
        format!("{dir}/Xevier_T_CV_en.pdf"),
        true,
        true,
    );
    let resume = back(&recovered.resume);

    assert!(recovered.recovered_from_artifacts);
    assert_eq!(recovered.status, "completed");
    assert_eq!(
        recovered.summary,
        "Tailoring completed with 81 measured ATS coverage. 2 job keywords were covered; 1 were not."
    );
    assert_eq!(resume["report"]["estimated_ats_coverage_score"], 81);
    assert_eq!(resume["experience_bullets_changed"], 1);
    assert_eq!(resume["bullet_keyword_emphasis"], "high");
    assert_eq!(resume["content_changes"].as_array().unwrap().len(), 2);
    assert_eq!(
        resume["latest_pdf_path"],
        "resume/variants/2026-08-16-example-role-en/Xevier_T_CV_en.pdf"
    );
}

#[test]
fn a_recovery_without_a_pdf_is_partial_and_says_why() {
    let base = j(r#"{ "experience": [{ "bullets": ["Built APIs.", "Ran jobs."] }] }"#);
    let tailored = j(r#"{ "experience": [{ "bullets": ["Built scalable APIs.", "Ran jobs."] }] }"#);

    let recovered = recovered_result(
        5,
        "fr",
        &base,
        &tailored,
        &report(40),
        Json::Null,
        None,
        "v.json".to_string(),
        "r.json".to_string(),
        "cv.docx".to_string(),
        "cv.pdf".to_string(),
        false,
        false,
    );
    let resume = back(&recovered.resume);

    assert_eq!(recovered.status, "partial");
    assert_eq!(recovered.error.as_deref(), Some(RECOVERED_PDF_MISSING));
    assert_eq!(resume["bullet_keyword_emphasis"], "balanced");
    assert_eq!(resume["pdf_path"], Value::Null);
    assert_eq!(resume["validation_status"], "not_run");
}

fn retailor_request(capture_id: u64, terms: &[&str]) -> RetailorResumeRequest {
    RetailorResumeRequest {
        capture_id,
        language: "en".to_string(),
        source_variant_slug: "2026-08-16-acme-rust-en".to_string(),
        selected_terms: terms.iter().map(|t| t.to_string()).collect(),
    }
}

fn stored_for_retailor() -> StoredPipelineResult {
    stored(
        r#"{
        "schema_version": 2,
        "capture_received_at_ms": 77,
        "language": "en",
        "recovered_from_artifacts": false,
        "resume": {
            "variant_slug": "2026-08-16-acme-rust-en",
            "report": {
                "omitted_unsupported_keywords": ["Angular", "GCP"],
                "ats_coverage": { "score": 64 }
            }
        }
    }"#,
    )
}

#[test]
fn a_retailor_request_must_match_the_displayed_capture() {
    assert!(check_retailor_capture(&retailor_request(77, &["Angular"]), 77).is_ok());
    let error = check_retailor_capture(&retailor_request(76, &["Angular"]), 77).unwrap_err();
    assert!(message(error).contains("no longer matches the latest captured job"));
}

#[test]
fn a_retailor_source_yields_the_score_and_the_validated_phrases() {
    let source =
        match retailor_source(&stored_for_retailor(), &retailor_request(77, &[" gcp "]), 77) {
            Ok(source) => source,
            Err(error) => panic!("{}", message(error)),
        };
    assert_eq!(source.source_ats_score, 64);
    assert_eq!(source.selected_terms, vec!["GCP".to_string()]);

    let mut stale = retailor_request(77, &["GCP"]);
    stale.source_variant_slug = "older".to_string();
    let error = match retailor_source(&stored_for_retailor(), &stale, 77) {
        Ok(_) => panic!("stale variant accepted"),
        Err(error) => error,
    };
    assert!(message(error).contains("variant is stale"));
}

#[test]
fn approved_evidence_records_the_session_confirmations() {
    let mut bank = empty_bank();
    let base = j(r#"{"skills": {"backend": "Backend: Rust"}}"#);
    let analysis = sample_analysis("Rust role", "Senior", &["Rust", "Kafka"]);
    let selected = vec![SelectedEvidence {
        term: "Kafka".to_string(),
        kind: "technology".to_string(),
        note: None,
        allow_model_role_placement: false,
    }];

    let approved = build_approved_evidence(&mut bank, &base, &analysis, &selected);

    assert!(bank.entries.iter().any(|entry| entry.term == "Kafka" && entry.user_attested));
    assert!(approved.iter().any(|entry| entry.term == "Kafka"));
}

#[test]
fn a_run_retries_within_its_budget_and_then_gives_up_on_page_fit() {
    let mut run = TailoringRun::new();
    assert_eq!(run.attempt, 1);
    assert_eq!(run.started_message(), "AI is tailoring supported resume content to the job.");

    run.retry_with("fix the bullets".to_string());
    assert_eq!(run.attempt, 2);
    assert_eq!(run.started_message(), "AI is correcting required experience-bullet content.");
    run.accepted();
    assert!(run.correction_instruction.is_none());

    while run.attempt < MAX_TAILORING_ATTEMPTS {
        assert!(run.page_overflow(&vec![2]).is_none());
        assert!(run.needs_concise_rewrite);
    }
    assert_eq!(
        run.started_message(),
        "AI is making the resume more concise for a one-page fit."
    );
    match run.page_overflow(&vec![2]) {
        Some(TailoringError::OnePageFit { attempts, page_counts }) => {
            assert_eq!(attempts, MAX_TAILORING_ATTEMPTS);
            assert_eq!(page_counts, vec![2, 2, 2]);
        }
        _ => panic!("the last overflow must end the run"),
    }
}

#[test]
fn a_progress_event_carries_its_attempt_out_of_the_budget() {
    let event = progress("tailoring", "running", "working".to_string(), Some(2));
    assert_eq!(event.stage, "tailoring");
    assert_eq!(event.attempt, Some(2));
    assert_eq!(event.total_attempts, Some(MAX_TAILORING_ATTEMPTS));
    let plain = progress("analysis", "done", "ok".to_string(), None);
    assert_eq!(plain.total_attempts, None);
}

#[test]
fn retailoring_saves_only_the_phrases_nothing_already_supports() {
    let mut bank = empty_bank();
    let base = j(r#"{"skills": {"backend": "Backend: Rust"}}"#);
    let analysis = sample_analysis("Rust role", "Senior", &["Rust", "Kafka"]);
    let terms = vec!["Rust".to_string(), "Kafka".to_string()];
    let selected = retailor_selected_evidence(&analysis, &terms);
    assert!(selected.iter().all(|s| s.allow_model_role_placement && s.note.is_none()));

    let approved = retailor_approved_evidence(&mut bank, &base, &analysis, &selected, &terms);

    let saved: Vec<&str> = bank.entries.iter().map(|e| e.term.as_str()).collect();
    assert_eq!(saved, vec!["Kafka"]);
    assert!(approved.iter().any(|entry| entry.term == "Kafka"));
    assert!(approved.iter().any(|entry| entry.term == "Rust"));
}
