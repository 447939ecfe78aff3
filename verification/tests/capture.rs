use resume_workbench::capture::{imported_domain_label, parse_job_data, prompt_job_view};
use resume_workbench::html::{html_to_block_text, html_to_text};
use resume_workbench::json::Json;
use serde_json::Value;

fn convert(value: Value) -> Json {
    match value {
        Value::Null => Json::Null,
        Value::Bool(b) => Json::Bool(b),
        Value::Number(n) => Json::Number(n.to_string()),
        Value::String(s) => Json::Str(s),
        Value::Array(items) => Json::Array(items.into_iter().map(convert).collect()),
        Value::Object(members) => {
            Json::Object(members.into_iter().map(|(k, v)| (k, convert(v))).collect())
        }
    }
}

fn back(value: &Json) -> Value {
    match value {
        Json::Null => Value::Null,
        Json::Bool(b) => Value::Bool(*b),
        Json::Number(n) => serde_json::from_str(n).unwrap(),
        Json::Str(s) => Value::String(s.clone()),
        Json::Array(items) => Value::Array(items.iter().map(back).collect()),
        Json::Object(members) => Value::Object(
            members.iter().map(|(k, v)| (k.clone(), back(v))).collect(),
        ),
    }
}

fn j(text: &str) -> Json {
    convert(serde_json::from_str(text).unwrap())
}

fn parse(text: &str) -> Value {
    back(&parse_job_data(&j(text)))
}

#[test]
fn parses_indeed_payload() {
    let parsed = parse(
        r#"{
            "sourceUrl": "https://www.indeed.com/viewjob?jk=123",
            "json": {
                "title": "Senior Rust Engineer - job post",
                "company": "Acme",
                "location": "Remote",
                "description": "Build reliable systems."
            }
        }"#,
    );
    assert_eq!(parsed["domain"], "indeed");
    assert_eq!(parsed["parsed"], true);
    assert_eq!(parsed["title"], "Senior Rust Engineer");
    assert_eq!(parsed["company"], "Acme");
    assert_eq!(parsed["location"], "Remote");
    assert!(parsed["warnings"].as_array().unwrap().is_empty());
}

#[test]
fn parses_wellfound_payload() {
    let parsed = parse(
        r#"{
            "sourceUrl": "https://wellfound.com/jobs/123",
            "json": {
                "id": "123",
                "title": "AI Engineer",
                "primaryRoleTitle": "Software Engineer",
                "description": "Build AI tooling.",
                "jobType": "full_time",
                "remote": true,
                "locationNames": ["Paris"],
                "acceptedRemoteLocationNames": ["Europe"],
                "skills": ["Rust", "TypeScript"],
                "startup": {
                    "name": "Acme AI",
                    "companySize": "SIZE_11_50",
                    "highConcept": "AI products",
                    "locationTaggings": [{ "displayName": "Paris" }],
                    "marketTaggings": [{ "displayName": "AI" }],
                    "companyTypeTaggings": [{ "displayName": "SaaS" }],
                    "badges": [{ "label": "Hiring" }]
                }
            }
        }"#,
    );
    assert_eq!(parsed["domain"], "wellfound");
    assert_eq!(parsed["parsed"], true);
    assert_eq!(parsed["company"], "Acme AI");
    assert_eq!(parsed["company_size"], "11-50");
    assert_eq!(parsed["remote"], true);
    assert_eq!(parsed["skills"][0], "Rust");
    assert_eq!(parsed["job_type"], "Full-time");
    assert_eq!(parsed["company_hq"], "Paris");
    assert_eq!(parsed["company_badges"][0], "Hiring");
}

#[test]
fn parses_welcome_to_the_jungle_payload() {
    let parsed = parse(
        r#"{
            "sourceUrl": "https://www.welcometothejungle.com/en/companies/acme/jobs/rust-engineer",
            "json": {
                "title": "Rust Engineer",
                "description": "<p>Build services.</p>",
                "qualifications": "Rust experience",
                "employmentType": "FULL_TIME",
                "industry": "Software, AI",
                "datePosted": "2026-08-14",
                "hiringOrganization": {
                    "name": "Acme",
                    "logo": "https://example.com/logo.png",
                    "sameAs": "https://example.com",
                    "address": { "addressLocality": "Paris", "addressCountry": "France" }
                },
                "jobLocation": [{
                    "address": { "addressLocality": "Paris", "addressCountry": "France" }
                }]
            }
        }"#,
    );
    assert_eq!(parsed["domain"], "welcometothejungle");
    assert_eq!(parsed["parsed"], true);
    assert_eq!(parsed["company"], "Acme");
    assert_eq!(parsed["locations"][0], "Paris, France");
    assert_eq!(parsed["industry_tags"][1], "AI");
    assert_eq!(parsed["description"], "Build services.");
    assert_eq!(parsed["description_html"], "<p>Build services.</p>");
    assert_eq!(parsed["company_hq"], "Paris, France");
}

#[test]
fn html_to_text_strips_tags_and_decodes_entities() {
    assert_eq!(
        html_to_text("<h3><strong>Notre &eacute;quipe</strong></h3><p>90 ing&eacute;nieurs</p>"),
        "Notre \u{e9}quipe 90 ing\u{e9}nieurs"
    );
    assert_eq!(html_to_text("<li>Rust</li><li>Axum</li>"), "Rust Axum");
    assert_eq!(html_to_text("R&amp;D at 100&nbsp;%"), "R&D at 100 %");
    assert_eq!(html_to_text("salary & bonus"), "salary & bonus");
    assert_eq!(html_to_text(""), "");
}

#[test]
fn unknown_domain_keeps_raw_payload() {
    let text = r#"{ "sourceUrl": "https://example.com/jobs/123", "json": { "title": "Engineer" } }"#;
    let parsed = parse(text);
    assert_eq!(parsed["domain"], "unknown");
    assert_eq!(parsed["parsed"], false);
    let payload: Value = serde_json::from_str(text).unwrap();
    assert_eq!(parsed["raw"], payload);
}

#[test]
fn prompt_job_view_drops_the_duplicate_html_description() {
    let parsed = j(r#"{
        "title": "Lead Front Engineer",
        "description": "Build services.",
        "description_html": "<p>Build services.</p>",
        "company_logo": "https://example.test/logo.png",
        "parsed": true,
        "warnings": [],
        "location": null,
        "url": "https://example.test/job"
    }"#);
    let view = back(&prompt_job_view(&parsed));
    assert_eq!(view["description"], "Build services.");
    assert_eq!(view["title"], "Lead Front Engineer");
    assert_eq!(view["url"], "https://example.test/job");
    for dropped in ["description_html", "company_logo", "parsed", "warnings", "location"] {
        assert!(view.get(dropped).is_none(), "{dropped} should not be sent");
    }
}

#[test]
fn prompt_job_view_drops_the_raw_payload_the_fallback_parser_embeds() {
    let parsed = parse_job_data(&j(r#"{
        "sourceUrl": "https://jobs.example.test/posting/1",
        "json": { "title": "Engineer", "description": "Ship things.", "company": "Acme" }
    }"#));
    assert!(back(&parsed).get("raw").is_some(), "the fallback still stores it");
    assert!(back(&prompt_job_view(&parsed)).get("raw").is_none());
}

#[test]
fn prompt_job_view_passes_through_a_non_object() {
    assert_eq!(
        back(&prompt_job_view(&j(r#""not an object""#))),
        Value::String("not an object".into())
    );
}

#[test]
fn html_to_text_drops_script_and_style_bodies() {
    let page = "<style>.a{color:red}</style><p>Rust Engineer</p>\
                <script>window.__NEXT_DATA__={\"secret\":1}</script><p>Build services.</p>";
    let text = html_to_text(page);
    assert_eq!(text, "Rust Engineer Build services.");
    assert!(!text.contains("__NEXT_DATA__"));
    assert!(!text.contains("color:red"));
}

#[test]
fn html_to_text_ends_a_comment_at_the_comment_close() {
    assert_eq!(html_to_text("<p>Rust<!-- version > 1.70 --> and Axum</p>"), "Rust and Axum");
    assert_eq!(html_to_text("<p>a<!-- b > c -->d</p>"), "ad");
}

#[test]
fn html_to_text_keeps_inline_markup_inside_one_sentence() {
    assert_eq!(
        html_to_text("<p>We need <b>Rust</b> and <i>Axum</i>.</p>"),
        "We need Rust and Axum ."
    );
}

#[test]
fn html_to_text_decodes_numeric_character_references() {
    assert_eq!(html_to_text("exp&#233;rience &#x00e9;quipe"), "exp\u{e9}rience \u{e9}quipe");
}

#[test]
fn html_to_block_text_keeps_one_line_per_block() {
    let page = "<html><head><title>t</title><style>.a{}</style></head><body>\
                <h2>Requirements</h2><ul><li>Rust</li><li>Axum</li></ul></body></html>";
    assert_eq!(html_to_block_text(page), "Requirements\nRust\nAxum");
}

#[test]
fn an_imported_capture_bypasses_the_board_parsers() {
    let parsed = parse(
        r#"{
            "source": "url_import",
            "extraction": "llm",
            "sourceUrl": "https://www.indeed.com/viewjob?jk=1",
            "json": {
                "is_job_posting": true,
                "title": "Rust Engineer",
                "company": "Acme",
                "description": "Build reliable services.",
                "skills": ["Rust", "Axum"],
                "extraction_confidence": "high"
            }
        }"#,
    );
    assert_ne!(parsed["domain"], "indeed");
    assert_eq!(parsed["domain"], "www.indeed.com");
    assert_eq!(parsed["parsed"], true);
    assert_eq!(parsed["title"], "Rust Engineer");
    assert_eq!(parsed["skills"][1], "Axum");
}

#[test]
fn an_imported_json_ld_capture_reuses_the_schema_org_parser() {
    let parsed = parse(
        r#"{
            "source": "url_import",
            "extraction": "json_ld",
            "sourceUrl": "https://boards.greenhouse.io/acme/jobs/1",
            "json": {
                "title": "Rust Engineer",
                "description": "<p>Build services.</p>",
                "employmentType": "FULL_TIME",
                "hiringOrganization": { "name": "Acme" },
                "jobLocation": [{
                    "address": { "addressLocality": "Paris", "addressCountry": "France" }
                }]
            }
        }"#,
    );
    assert_eq!(parsed["domain"], "boards.greenhouse.io");
    assert_eq!(parsed["description"], "Build services.");
    assert_eq!(parsed["description_html"], "<p>Build services.</p>");
    assert_eq!(parsed["locations"][0], "Paris, France");
    assert_eq!(parsed["job_type"], "Full-time");
}

#[test]
fn a_double_escaped_description_is_stripped_twice() {
    let parsed = parse(
        r#"{
            "source": "url_import",
            "extraction": "json_ld",
            "sourceUrl": "https://boards.greenhouse.io/acme/jobs/1",
            "json": { "title": "Engineer", "description": "&lt;p&gt;Build services.&lt;/p&gt;" }
        }"#,
    );
    assert_eq!(parsed["description"], "Build services.");
}

#[test]
fn a_pasted_text_capture_has_no_host_to_name() {
    let parsed = parse(
        r#"{
            "source": "text_import",
            "extraction": "llm",
            "sourceUrl": "",
            "json": {
                "title": "Rust Engineer",
                "company": "Acme",
                "description": "Build services.",
                "extraction_confidence": "high"
            }
        }"#,
    );
    assert_eq!(parsed["domain"], "pasted-text");
    assert_eq!(parsed["url"], "");
}

#[test]
fn an_ai_imported_capture_says_so_and_flags_low_confidence() {
    let parsed = parse(
        r#"{
            "source": "text_import",
            "extraction": "llm",
            "sourceUrl": "",
            "json": {
                "title": "Rust Engineer",
                "company": "Acme",
                "description": "Build services.",
                "extraction_confidence": "low"
            }
        }"#,
    );
    let joined = parsed["warnings"]
        .as_array()
        .unwrap()
        .iter()
        .filter_map(|warning| warning.as_str())
        .collect::<Vec<_>>()
        .join(" | ");
    assert!(joined.contains("Imported by AI from pasted text"), "{joined}");
    assert!(joined.contains("not confident"), "{joined}");
}

#[test]
fn an_imported_capture_drops_the_fields_the_post_did_not_state() {
    let parsed = parse(
        r#"{
            "source": "url_import",
            "extraction": "llm",
            "sourceUrl": "https://jobs.example.test/1",
            "json": {
                "title": "Rust Engineer",
                "company": "Acme",
                "description": "Build services.",
                "compensation": null,
                "remote": null,
                "extraction_confidence": "high"
            }
        }"#,
    );
    assert!(parsed.get("compensation").is_none());
    assert!(parsed.get("remote").is_none());
}

#[test]
fn prompt_job_view_on_an_imported_capture_carries_no_page_text() {
    let payload = j(r#"{
        "source": "url_import",
        "extraction": "llm",
        "sourceUrl": "https://jobs.example.test/1",
        "sourceText": "the entire fetched page, navigation and all",
        "json": {
            "title": "Rust Engineer",
            "company": "Acme",
            "description": "Build services.",
            "extraction_confidence": "high"
        }
    }"#);
    let view = back(&prompt_job_view(&parse_job_data(&payload)));
    assert!(view.get("sourceText").is_none());
    assert!(view.get("raw").is_none());
    assert_eq!(view["description"], "Build services.");
}

#[test]
fn an_imported_capture_without_a_host_is_labelled_imported() {
    assert_eq!(imported_domain_label(&j(r#"{"sourceUrl": "  "}"#)), "pasted-text");
    assert_eq!(imported_domain_label(&j(r#"{"sourceUrl": "not a url"}"#)), "imported");
    assert_eq!(
        imported_domain_label(&j(r#"{"sourceUrl": "https://jobs.example.test/1"}"#)),
        "jobs.example.test"
    );
}

#[test]
fn collapsed_text_has_single_spaces_only() {
    let text = html_to_text("  <p>a \n\t b</p>   <div> c </div>  ");
    assert_eq!(text, "a b c");
    assert!(!text.contains("  "));
}

#[test]
fn a_posting_without_title_description_or_company_warns_about_each() {
    let parsed = parse(r#"{"sourceUrl": "https://www.indeed.com/viewjob?jk=9", "json": {}}"#);
    assert_eq!(
        parsed["warnings"],
        serde_json::from_str::<Value>(
            r#"["Missing field: title", "Missing field: description", "Missing field: company"]"#
        )
        .unwrap()
    );
}
