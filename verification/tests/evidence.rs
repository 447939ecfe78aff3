use resume_workbench::analysis::{JobAnalysis, KeywordSignal};
use resume_workbench::bank::{
    remove_evidence, save_selected_evidence, EvidenceBank, EvidenceEntry, SelectedEvidence,
};
use resume_workbench::evidence::{
    equivalent, inferred_kind, is_generic_trait, is_job_title, placement_equivalent_terms,
    placement_term_is_covered, text_supports,
};
use resume_workbench::json::Json;
use resume_workbench::preflight::{
    append_banked_terms, approved_evidence_for, infer_selected_term_kind, preflight_items,
    PreflightItem,
};

fn convert(value: serde_json::Value) -> Json {
    match value {
        serde_json::Value::Null => Json::Null,
        serde_json::Value::Bool(b) => Json::Bool(b),
        serde_json::Value::Number(n) => Json::Number(n.to_string()),
        serde_json::Value::String(s) => Json::Str(s),
        serde_json::Value::Array(items) => Json::Array(items.into_iter().map(convert).collect()),
        serde_json::Value::Object(members) => {
            Json::Object(members.into_iter().map(|(k, v)| (k, convert(v))).collect())
        }
    }
}

fn j(text: &str) -> Json {
    convert(serde_json::from_str(text).unwrap())
}

fn analysis(signals: Vec<KeywordSignal>) -> JobAnalysis {
    JobAnalysis {
        role_target: "Rust Engineer".into(),
        seniority: String::new(),
        core_keywords: signals,
        required_skills: vec![],
        preferred_skills: vec![],
        tools_and_platforms: vec![],
        domain_terms: vec![],
        responsibility_phrases: vec![],
        achievement_angles: vec![],
        ats_phrase_bank: vec![],
        must_not_claim_without_evidence: vec![],
        term_variants: vec![],
        summary: String::new(),
    }
}

fn signal(term: &str, category: &str, importance: u8) -> KeywordSignal {
    KeywordSignal {
        term: term.into(),
        category: category.into(),
        importance,
        evidence: String::new(),
    }
}

fn entry(term: &str, kind: &str, allow: bool) -> EvidenceEntry {
    EvidenceEntry {
        term: term.into(),
        kind: kind.into(),
        note: None,
        user_attested: true,
        allow_model_role_placement: allow,
    }
}

fn find<'a>(items: &'a [PreflightItem], term: &str) -> &'a PreflightItem {
    items.iter().find(|item| item.term == term).unwrap()
}

#[test]
fn resolves_base_bank_confirmation_and_omission() {
    let analysis = analysis(vec![
        signal("React", "technology", 5),
        signal("Kubernetes", "technology", 4),
        signal("Terraform", "technology", 5),
        signal("Curiosity about AI", "technology", 4),
    ]);
    let bank = EvidenceBank {
        version: 1,
        entries: vec![entry("Kubernetes", "technology", false)],
    };
    let items = preflight_items(
        &analysis,
        &j(r#"{"skills":{"frontend":"React, TypeScript"}}"#),
        &bank,
    );
    assert_eq!(find(&items, "React").resolution, "auto_available");
    assert_eq!(find(&items, "Kubernetes").source, "evidence_bank");
    assert_eq!(find(&items, "Terraform").resolution, "confirmation_required");
    assert_eq!(find(&items, "Curiosity about AI").resolution, "auto_omitted");
}

#[test]
fn consolidates_redundant_phrases_and_keeps_highest_importance() {
    let mut analysis = analysis(vec![signal("English fluency", "technology", 3)]);
    analysis.required_skills = vec!["Fluent written and spoken English".into()];
    let items = preflight_items(&analysis, &j("{}"), &EvidenceBank::default());
    assert_eq!(items.len(), 1);
    assert_eq!(items[0].importance, 5);
}

#[test]
fn required_responsibility_is_not_mislabeled_as_technology() {
    let mut analysis = analysis(vec![]);
    analysis.required_skills = vec!["Lead cross-team delivery".into()];
    let items = preflight_items(&analysis, &j("{}"), &EvidenceBank::default());
    assert_eq!(items[0].kind, "responsibility");
    assert_eq!(items[0].resolution, "confirmation_required");
}

#[test]
fn low_priority_unsupported_signal_is_omitted_without_a_question() {
    let analysis = analysis(vec![signal("GraphQL", "technology", 3)]);
    let items = preflight_items(&analysis, &j("{}"), &EvidenceBank::default());
    assert_eq!(items[0].resolution, "auto_omitted");
}

#[test]
fn abstract_capability_is_not_treated_as_a_technology_question() {
    let analysis = analysis(vec![signal("Clear ownership and reliability", "technology", 4)]);
    let items = preflight_items(&analysis, &j("{}"), &EvidenceBank::default());
    assert_eq!(items[0].kind, "method_domain");
    assert_eq!(items[0].resolution, "auto_omitted");
}

#[test]
fn saved_responsibility_needs_a_proof_note_for_bullet_use() {
    let analysis = analysis(vec![signal("Own production deployment", "responsibility", 5)]);
    let bank = EvidenceBank {
        version: 1,
        entries: vec![entry("Production deployment ownership", "responsibility", false)],
    };
    let items = preflight_items(&analysis, &j("{}"), &bank);
    assert!(!items[0].eligible_for_bullets);
}

#[test]
fn saving_an_equivalent_attestation_updates_instead_of_growing_the_bank() {
    let mut bank = EvidenceBank {
        version: 1,
        entries: vec![entry("English fluency", "technology", false)],
    };
    save_selected_evidence(
        &mut bank,
        &[SelectedEvidence {
            term: "Fluent written and spoken English".into(),
            kind: "technology".into(),
            note: Some("Used professionally".into()),
            allow_model_role_placement: false,
        }],
    );
    assert_eq!(bank.entries.len(), 1);
    assert_eq!(bank.version, 2);
    assert!(!bank.entries[0].allow_model_role_placement);
    assert_eq!(bank.entries[0].term, "English fluency");
    assert_eq!(bank.entries[0].note.as_deref(), Some("Used professionally"));
}

#[test]
fn model_placement_authorization_makes_saved_evidence_bullet_eligible() {
    let analysis = analysis(vec![signal("Angular", "technology", 5)]);
    let bank = EvidenceBank {
        version: 2,
        entries: vec![entry("Angular", "technology", true)],
    };
    let items = preflight_items(&analysis, &j("{}"), &bank);
    assert!(items[0].eligible_for_bullets);
    assert!(items[0].allow_model_role_placement);
}

#[test]
fn placement_coverage_ignores_experience_wrapper_words() {
    assert!(placement_term_is_covered(
        "Développé des interfaces Angular pour des applications métier.",
        "Angular dans l’expérience"
    ));
    assert!(placement_term_is_covered(
        "Applied Domain-Driven Design to modular backend services.",
        "pratique du Domain-Driven Design dans l’expérience"
    ));
}

#[test]
fn selected_experience_phrase_inherits_the_underlying_skill_kind() {
    let mut analysis = analysis(vec![]);
    analysis.required_skills = vec!["Angular".into()];
    assert_eq!(
        infer_selected_term_kind(&analysis, "Angular dans l’expérience"),
        "technology"
    );
}

#[test]
fn placement_attestation_updates_the_underlying_saved_capability() {
    let mut bank = EvidenceBank {
        version: 1,
        entries: vec![entry("Angular", "technology", false)],
    };
    save_selected_evidence(
        &mut bank,
        &[SelectedEvidence {
            term: "Angular dans l’expérience".into(),
            kind: "technology".into(),
            note: None,
            allow_model_role_placement: true,
        }],
    );
    assert_eq!(bank.entries.len(), 1);
    assert_eq!(bank.entries[0].term, "Angular");
    assert!(bank.entries[0].allow_model_role_placement);
}

fn bank_with(entries: Vec<EvidenceEntry>) -> EvidenceBank {
    EvidenceBank { version: 2, entries }
}

fn banked_item(term: &str) -> PreflightItem {
    PreflightItem {
        term: term.into(),
        kind: "technology".into(),
        importance: 5,
        source: "evidence_bank",
        resolution: "auto_available",
        resolution_reason: "Previously confirmed in saved evidence",
        matched_term: Some(term.into()),
        note: None,
        eligible_for_bullets: false,
        allow_model_role_placement: false,
    }
}

fn selection(term: &str) -> SelectedEvidence {
    SelectedEvidence {
        term: term.into(),
        kind: "technology".into(),
        note: None,
        allow_model_role_placement: false,
    }
}

#[test]
fn approved_evidence_merges_banked_entries_with_this_sessions_selections() {
    let bank = bank_with(vec![
        entry("Kubernetes", "technology", false),
        entry("Terraform", "technology", false),
    ]);
    let preflight = vec![banked_item("Kubernetes")];
    let approved = approved_evidence_for(&preflight, &bank, &[selection("gRPC")]);
    let terms = approved.iter().map(|entry| entry.term.as_str()).collect::<Vec<_>>();
    assert!(terms.contains(&"Kubernetes"), "{terms:?}");
    assert!(terms.contains(&"gRPC"), "{terms:?}");
    assert!(!terms.contains(&"Terraform"), "{terms:?}");
}

#[test]
fn approved_evidence_does_not_duplicate_a_term_present_in_both_sources() {
    let bank = bank_with(vec![entry("Kubernetes", "technology", false)]);
    let preflight = vec![banked_item("Kubernetes")];
    let approved = approved_evidence_for(&preflight, &bank, &[selection("Kubernetes")]);
    assert_eq!(approved.len(), 1);
}

#[test]
fn append_banked_terms_resolves_terms_named_without_a_selection_record() {
    let bank = bank_with(vec![entry("Angular", "technology", false)]);
    let mut approved = Vec::new();
    append_banked_terms(&mut approved, &bank, &["Angular".to_string()]);
    assert_eq!(approved.len(), 1);
    append_banked_terms(&mut approved, &bank, &["Angular".to_string()]);
    assert_eq!(approved.len(), 1, "a repeated term must not be added twice");
}

#[test]
fn french_boilerplate_is_filtered_like_its_english_equivalent() {
    assert!(is_generic_trait("Curiosité intellectuelle"));
    assert!(is_generic_trait("Esprit d’équipe"));
    assert!(is_generic_trait("Autonomie et rigueur"));
    assert!(is_job_title("Ingénieur logiciel"));
    assert!(is_job_title("Architecte technique"));
    assert!(is_job_title("Chef de projet technique"));
    assert!(!is_generic_trait("Kubernetes"));
    assert!(!is_job_title("Kubernetes"));
}

#[test]
fn french_responsibility_verbs_are_classified_as_responsibilities() {
    assert_eq!(
        inferred_kind("Développer des interfaces accessibles", "technology"),
        "responsibility"
    );
    assert_eq!(
        inferred_kind("Encadrer une équipe de développeurs", "technology"),
        "responsibility"
    );
    assert_eq!(inferred_kind("PostgreSQL", "technology"), "technology");
}

#[test]
fn french_articles_do_not_block_a_genuine_match() {
    assert!(text_supports("Gestion projet et animation d’atelier", "gestion de projet"));
}

#[test]
fn a_fuzzily_saved_entry_can_still_be_removed() {
    let mut bank = EvidenceBank::default();
    save_selected_evidence(
        &mut bank,
        &[SelectedEvidence {
            term: "Angular".into(),
            kind: "technology".into(),
            note: None,
            allow_model_role_placement: true,
        }],
    );
    remove_evidence(&mut bank, "Angular dans l’expérience");
    assert!(bank.entries.is_empty(), "{:?}", bank.entries);
}

#[test]
fn preflight_lists_questions_first_then_available_then_omitted() {
    let analysis = analysis(vec![
        signal("GraphQL", "technology", 3),
        signal("React", "technology", 4),
        signal("Terraform", "technology", 5),
        signal("Ansible", "technology", 5),
    ]);
    let items = preflight_items(&analysis, &j(r#"{"skills":{"frontend":"React"}}"#), &EvidenceBank::default());
    let order = items.iter().map(|item| item.term.as_str()).collect::<Vec<_>>();
    assert_eq!(order, vec!["Ansible", "Terraform", "React", "GraphQL"]);
}

#[test]
fn naming_the_same_thing_does_not_depend_on_order() {
    assert!(equivalent("Fluent written and spoken English", "English fluency")
        == equivalent("English fluency", "Fluent written and spoken English"));
    assert!(equivalent("Kubernetes", "kubernetes"));
    assert!(placement_equivalent_terms("Angular dans l’expérience", "Angular"));
    assert!(placement_equivalent_terms("Angular", "Angular dans l’expérience"));
}

#[test]
fn saving_keeps_every_entry_and_attests_each_selection() {
    let mut bank = bank_with(vec![entry("Rust", "technology", false), entry("Go", "technology", false)]);
    save_selected_evidence(&mut bank, &[selection("gRPC"), selection("  "), selection("rust")]);
    assert_eq!(bank.entries.len(), 3);
    assert_eq!(bank.entries[0].term, "Rust");
    assert_eq!(bank.entries[1].term, "Go");
    assert_eq!(bank.entries[2].term, "gRPC");
    assert!(bank.entries.iter().all(|e| e.user_attested));
}

#[test]
fn removing_a_term_keeps_the_unrelated_entries_in_order() {
    let mut bank = bank_with(vec![
        entry("Rust", "technology", false),
        entry("Kubernetes", "technology", false),
        entry("Go", "technology", false),
    ]);
    remove_evidence(&mut bank, "kubernetes");
    let terms = bank.entries.iter().map(|e| e.term.as_str()).collect::<Vec<_>>();
    assert_eq!(terms, vec!["Rust", "Go"]);
}
