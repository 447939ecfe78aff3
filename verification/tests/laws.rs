use resume_workbench::analysis::{JobAnalysis, KeywordSignal};
use resume_workbench::api_usage::prompt_debug_switch;
use resume_workbench::artifacts::{
    checked_copy_digest, manifest_digests, verified_provenance, COPY_MISMATCH_MESSAGE,
};
use resume_workbench::config::{api_key_to_save, clean_api_key};
use resume_workbench::evidence::analysis_candidates;
use resume_workbench::http::{retry_step, RetryStep};
use resume_workbench::prompt::build_tailoring_prompt;
use resume_workbench::recovery::{newest_variant, VariantEntry};
use resume_workbench::pipeline::TailoringRun;
use resume_workbench::render::{render_outcome, RenderEvent};
use resume_workbench::tailoring::slugify;

fn empty_analysis() -> JobAnalysis {
    JobAnalysis {
        role_target: "Platform Engineer".into(),
        seniority: "Senior".into(),
        core_keywords: vec![],
        required_skills: vec![],
        preferred_skills: vec![],
        tools_and_platforms: vec![],
        domain_terms: vec![],
        responsibility_phrases: vec![],
        achievement_angles: vec![],
        ats_phrase_bank: vec![],
        must_not_claim_without_evidence: vec![],
        term_variants: vec![],
        summary: String::new(),
    }
}

#[test]
fn slugs_never_double_a_dash() {
    for value in ["a -- b", "Acme / / Corp", "--x--y--", "C++ & Rust!!", "  spaced   out  "] {
        let slug = slugify(value);
        assert!(!slug.contains("--"), "{slug}");
        assert!(!slug.starts_with('-') && !slug.ends_with('-'));
    }
    assert_eq!(slugify("a -- b"), "a-b");
}

#[test]
fn a_value_without_letters_or_digits_slugifies_to_the_fallback() {
    assert_eq!(slugify(""), "tailored-resume");
    assert_eq!(slugify("!!! /// ---"), "tailored-resume");
    assert_eq!(slugify("été"), "t");
    assert_eq!(slugify("ééé"), "tailored-resume");
}

#[test]
fn slugifying_a_slug_changes_nothing() {
    for value in ["Acme AI / Senior Rust Engineer en", "ééé", "x", "Déjà Vu -- 2024"] {
        let slug = slugify(value);
        assert_eq!(slugify(&slug), slug);
    }
}

#[test]
fn a_cleaned_key_is_trimmed_and_cleans_to_itself() {
    let key = clean_api_key("  sk-abc123 \n").unwrap();
    assert_eq!(key, "sk-abc123");
    assert_eq!(clean_api_key(&key), Some(key.clone()));
    assert_eq!(clean_api_key(" \t "), None);
    let saved = api_key_to_save("\tsk-xyz ").unwrap();
    assert_eq!(saved, "sk-xyz");
    assert_eq!(clean_api_key(&saved), Some(saved.clone()));
}

#[test]
fn two_prompts_on_one_base_share_the_prefix_before_the_language() {
    let base = "{\"summary\":\"Base\"}";
    let first = build_tailoring_prompt("en", "{\"title\":\"A\"}", "{}", base, &[], &[], false, None);
    let second = build_tailoring_prompt(
        "fr",
        "{\"title\":\"B\"}",
        "{\"x\":1}",
        base,
        &[],
        &["Kubernetes".to_string()],
        true,
        Some("Fix it.\n\n"),
    );
    let marker = "\n\nOutput language: ";
    let a = first.find(marker).unwrap() + marker.len();
    let b = second.find(marker).unwrap() + marker.len();
    assert_eq!(a, b);
    assert_eq!(first[..a], second[..b]);
    assert!(first[..a].ends_with(&format!("{base}{marker}")));
    assert!(first[a..].starts_with("en"));
    assert!(second[b..].starts_with("fr"));
    let other = build_tailoring_prompt("en", "{}", "{}", "{\"summary\":\"Other\"}", &[], &[], false, None);
    assert_ne!(other[..a], first[..a]);
}

#[test]
fn render_outcomes_follow_how_rendering_ended() {
    let done = render_outcome(RenderEvent::OnePage);
    assert!(done.success && done.pdf_ready && !done.publish_docx);
    assert_eq!(done.tailoring_status, "completed");
    assert_eq!((done.validation_status, done.fit_status), ("passed", "passed"));
    assert_eq!(done.failed_stage, None);
    assert_eq!(done.closing_message, Some("Resume pipeline completed successfully."));

    let render = render_outcome(RenderEvent::RenderFailed);
    assert!(!render.success && !render.pdf_ready && !render.publish_docx);
    assert_eq!(render.tailoring_status, "partial");
    assert_eq!((render.validation_status, render.fit_status), ("not_run", "not_run"));
    assert_eq!(render.failed_stage, Some("docx_render"));
    assert_eq!(render.closing_message, None);

    let locked = render_outcome(RenderEvent::ValidationFailed);
    assert_eq!((locked.validation_status, locked.fit_status), ("failed", "not_run"));
    assert_eq!(locked.failed_stage, Some("locked_validation"));
    assert!(!locked.publish_docx && locked.closing_message.is_none());

    for event in [RenderEvent::ExportFailed, RenderEvent::OverflowOnLastAttempt] {
        let pdf = render_outcome(event);
        assert!(!pdf.success && !pdf.pdf_ready && pdf.publish_docx);
        assert_eq!(pdf.tailoring_status, "partial");
        assert_eq!((pdf.validation_status, pdf.fit_status), ("passed", "failed"));
        assert_eq!(pdf.failed_stage, Some("pdf_fit"));
        assert_eq!(pdf.closing_message, Some("Validated DOCX saved; PDF is not ready."));
    }
}

#[test]
fn transport_failures_and_transient_statuses_are_tried_again() {
    assert_eq!(retry_step(None), RetryStep::TryAgain);
    assert_eq!(retry_step(Some(200)), RetryStep::Accept);
    assert_eq!(retry_step(Some(204)), RetryStep::Accept);
    assert_eq!(retry_step(Some(429)), RetryStep::TryAgain);
    assert_eq!(retry_step(Some(503)), RetryStep::TryAgain);
    assert_eq!(retry_step(Some(401)), RetryStep::GiveUp);
    assert_eq!(retry_step(Some(404)), RetryStep::GiveUp);
    assert_eq!(retry_step(Some(302)), RetryStep::GiveUp);
}

#[test]
fn the_prompt_debug_switch_is_off_for_blank_zero_and_false() {
    assert!(!prompt_debug_switch(""));
    assert!(!prompt_debug_switch("   "));
    assert!(!prompt_debug_switch(" 0 "));
    assert!(!prompt_debug_switch("false"));
    assert!(!prompt_debug_switch("FALSE"));
    assert!(!prompt_debug_switch(" False\n"));
    assert!(prompt_debug_switch("1"));
    assert!(prompt_debug_switch("yes"));
    assert!(prompt_debug_switch("00"));
    assert!(prompt_debug_switch("falsey"));
}

fn entry(name: &str, is_dir: bool, modified_ms: Option<u128>) -> VariantEntry {
    VariantEntry { name: name.to_string(), is_dir, modified_ms }
}

#[test]
fn recovery_takes_the_newest_variant_of_the_language_since_the_capture() {
    let entries = vec![
        entry("2024-01-01-acme-en", true, Some(500)),
        entry("2024-01-02-acme-fr", true, Some(900)),
        entry("2024-01-03-globex-en", true, Some(700)),
        entry("2024-01-04-file-en", false, Some(990)),
        entry("2024-01-05-unread-en", true, None),
        entry("2024-01-06-old-en", true, Some(50)),
        entry("2024-01-07-tie-en", true, Some(700)),
    ];
    assert_eq!(newest_variant(&entries, "en", 100), Some(6));
    assert_eq!(newest_variant(&entries, "fr", 100), Some(1));
    assert_eq!(newest_variant(&entries, "fr", 901), None);
    assert_eq!(newest_variant(&entries, "de", 0), None);
    assert_eq!(newest_variant(&[], "en", 0), None);
}

const SHA256_ABC: &str = "ba7816bf8f01cfea414140de5dae2223b00361a396177a9cb410ff61f20015ad";
const SHA256_EMPTY: &str = "e3b0c44298fc1c149afbf4c8996fb92427ae41e4649b934ca495991b7852b855";

#[test]
fn a_published_artifact_is_recorded_as_verified_only_when_the_copy_matches() {
    let p = verified_provenance(
        "2024-01-01-acme-en".into(),
        "pdf".into(),
        "resume/variants/x/resume.pdf".into(),
        "/home/u/Downloads/cv.pdf".into(),
        b"abc",
        b"abc",
        "resume/variants/x/provenance".into(),
    )
    .unwrap();
    assert_eq!(p.verification_status, "verified");
    assert_eq!(p.format, "pdf");
    assert_eq!(p.sha256, SHA256_ABC);
    let refused = verified_provenance(
        "s".into(),
        "pdf".into(),
        "a".into(),
        "b".into(),
        b"abc",
        b"abd",
        "m".into(),
    );
    assert!(refused.is_none());
}

#[test]
fn a_copy_digest_is_given_only_for_a_faithful_copy() {
    assert_eq!(checked_copy_digest(b"abc", b"abc"), Some(SHA256_ABC.to_string()));
    assert_eq!(checked_copy_digest(b"", b""), Some(SHA256_EMPTY.to_string()));
    assert_eq!(checked_copy_digest(b"abc", b"ab"), None);
    assert_eq!(
        COPY_MISMATCH_MESSAGE,
        "Downloads artifact hash did not match the selected variant; the copy was removed."
    );
}

#[test]
fn the_manifest_records_the_digest_of_each_document() {
    assert_eq!(
        manifest_digests(b"abc", Some(b"")),
        (SHA256_ABC.to_string(), Some(SHA256_EMPTY.to_string()))
    );
    assert_eq!(manifest_digests(b"", None), (SHA256_EMPTY.to_string(), None));
}

#[test]
fn distinct_terms_keep_their_list_importance_and_group() {
    let mut a = empty_analysis();
    a.core_keywords = vec![KeywordSignal {
        term: "Rust".into(),
        category: "technology".into(),
        importance: 2,
        evidence: String::new(),
    }];
    a.required_skills = vec![" Kubernetes ".into()];
    a.preferred_skills = vec!["GraphQL".into()];
    a.tools_and_platforms = vec!["Terraform".into()];
    a.domain_terms = vec!["payments".into()];
    a.responsibility_phrases = vec!["mentoring engineers".into()];
    let cs = analysis_candidates(&a);
    let got: Vec<(String, u8, &str)> =
        cs.iter().map(|c| (c.term.clone(), c.importance, c.group)).collect();
    assert_eq!(
        got,
        vec![
            ("Rust".to_string(), 2, "core"),
            ("Kubernetes".to_string(), 5, "required"),
            ("GraphQL".to_string(), 3, "preferred"),
            ("Terraform".to_string(), 4, "tools"),
            ("payments".to_string(), 3, "domain"),
            ("mentoring engineers".to_string(), 4, "responsibilities"),
        ]
    );
}

#[test]
fn a_run_numbers_its_events_and_receipts_by_attempt() {
    let mut run = TailoringRun::new();
    let first = run.event("resume_tailoring", "started", "go".to_string());
    assert_eq!((first.attempt, first.total_attempts), (Some(1), Some(4)));
    let receipt = run.usage_context(Some(42));
    assert_eq!((receipt.capture_id, receipt.attempt), (Some(42), Some(1)));
    run.retry_with("fix it".to_string());
    assert_eq!(run.event("safety_validation", "started", "x".to_string()).attempt, Some(2));
    assert!(run.page_overflow(&vec![2]).is_none());
    assert_eq!(run.usage_context(None).attempt, Some(3));
    run.retry_with("again".to_string());
    assert_eq!(run.attempt, 4);
    assert!(run.page_overflow(&vec![2]).is_some());
    assert_eq!(run.event("pdf_fit", "failed", "x".to_string()).attempt, Some(4));
}

#[test]
fn the_output_language_line_appears_once() {
    let prompt = build_tailoring_prompt(
        "fr",
        "{\"title\":\"Output engineer\"}",
        "{}",
        "{\"summary\":\"Outputs\"}",
        &[],
        &["Kubernetes".to_string()],
        true,
        Some("Correct it.\n\n"),
    );
    assert_eq!(prompt.matches("\nOutput language: ").count(), 1);
    assert_eq!(prompt.matches("Output language:").count(), 1);
}
