use resume_workbench::analysis::{body_is_blank, structured_output_of, AnalysisError};
use resume_workbench::job_import::{
    build_extraction_prompt, build_payload, capped_html, check_content_length, check_extracted_job,
    check_media_type, fetch_host, job_posting_from_documents, json_ld_blocks, json_ld_is_usable,
    media_type, normalize_url, page_title, response_status_error, truncate_for_prompt,
    ExtractedJob, Extraction, ImportError, ImportMode, MAX_HTML_BYTES, MAX_PROMPT_CHARS,
};
use resume_workbench::json::Json;
use serde_json::Value;

fn convert(value: Value) -> Json {
    match value {
        Value::Null => Json::Null,
        Value::Bool(b) => Json::Bool(b),
        Value::Number(n) => Json::Number(n.to_string()),
        Value::String(s) => Json::Str(s),
        Value::Array(items) => Json::Array(items.into_iter().map(convert).collect()),
        Value::Object(members) => {
            Json::Object(members.into_iter().map(|(k, v)| (k, convert(v))).collect())
        }
    }
}

fn back(value: &Json) -> Value {
    match value {
        Json::Null => Value::Null,
        Json::Bool(b) => Value::Bool(*b),
        Json::Number(n) => serde_json::from_str(n).unwrap(),
        Json::Str(s) => Value::String(s.clone()),
        Json::Array(items) => Value::Array(items.iter().map(back).collect()),
        Json::Object(members) => Value::Object(
            members.iter().map(|(k, v)| (k.clone(), back(v))).collect(),
        ),
    }
}

fn j(text: &str) -> Json {
    convert(serde_json::from_str(text).unwrap())
}

/// The posting the JSON-LD blocks of a page carry, with malformed blocks skipped.
fn job_posting_from_json_ld(html: &str) -> Option<Value> {
    let docs = json_ld_blocks(html)
        .iter()
        .filter_map(|block| serde_json::from_str::<Value>(block).ok())
        .map(convert)
        .collect::<Vec<_>>();
    job_posting_from_documents(&docs).map(|posting| back(&posting))
}

fn text_of(value: &Value, key: &str) -> Option<String> {
    value[key].as_str().map(str::to_string)
}

fn texts_of(value: &Value, key: &str) -> Vec<String> {
    value[key]
        .as_array()
        .map(|items| items.iter().filter_map(|i| i.as_str().map(str::to_string)).collect())
        .unwrap_or_default()
}

fn extracted_job(value: &Value) -> ExtractedJob {
    ExtractedJob {
        is_job_posting: value["is_job_posting"].as_bool().unwrap_or(false),
        title: text_of(value, "title").unwrap_or_default(),
        company: text_of(value, "company").unwrap_or_default(),
        description: text_of(value, "description").unwrap_or_default(),
        location: text_of(value, "location"),
        locations: texts_of(value, "locations"),
        job_type: text_of(value, "job_type"),
        remote: value["remote"].as_bool(),
        compensation: text_of(value, "compensation"),
        qualifications: text_of(value, "qualifications"),
        skills: texts_of(value, "skills"),
        years_experience_min: value["years_experience_min"].as_u64().map(|n| n as u32),
        years_experience_max: value["years_experience_max"].as_u64().map(|n| n as u32),
        date_posted: text_of(value, "date_posted"),
        education_requirement: text_of(value, "education_requirement"),
        company_description: text_of(value, "company_description"),
        company_hq: text_of(value, "company_hq"),
        industry_tags: texts_of(value, "industry_tags"),
        extraction_confidence: text_of(value, "extraction_confidence").unwrap_or_default(),
    }
}

/// Reads an extraction response the way the import does.
fn parse_extraction_from_response(body: &str) -> Result<ExtractedJob, ImportError> {
    if body_is_blank(body) {
        return Err(ImportError::Extraction(AnalysisError::EmptyResponseBody));
    }
    let response = j(body);
    let text = structured_output_of(&response).map_err(ImportError::Extraction)?;
    let value: Value = serde_json::from_str(&text).unwrap();
    check_extracted_job(extracted_job(&value))
}

fn responses_body(payload: &Value) -> String {
    let text = serde_json::to_string(payload).unwrap();
    let mut body: Value = serde_json::from_str(
        r#"{"output":[{"type":"message","content":[{"type":"output_text","text":""}]}]}"#,
    )
    .unwrap();
    body["output"][0]["content"][0]["text"] = Value::String(text);
    body.to_string()
}

fn extracted(overrides: &str) -> Value {
    let mut base: Value = serde_json::from_str(
        r#"{
            "is_job_posting": true,
            "title": "Rust Engineer",
            "company": "Acme",
            "description": "Build services.",
            "location": null,
            "locations": [],
            "job_type": null,
            "remote": null,
            "compensation": null,
            "qualifications": null,
            "skills": [],
            "years_experience_min": null,
            "years_experience_max": null,
            "date_posted": null,
            "education_requirement": null,
            "company_description": null,
            "company_hq": null,
            "industry_tags": [],
            "extraction_confidence": "high"
        }"#,
    )
    .unwrap();
    let overrides: Value = serde_json::from_str(overrides).unwrap();
    for (key, value) in overrides.as_object().cloned().unwrap_or_default() {
        base[key] = value;
    }
    base
}

#[test]
fn normalize_url_adds_a_scheme_and_rejects_what_must_not_be_fetched() {
    assert_eq!(normalize_url("  wellfound.com/jobs/123 ").unwrap(), "https://wellfound.com/jobs/123");
    assert!(normalize_url("https://jobs.example.com/1").is_ok());
    assert!(normalize_url("http://jobs.example.com/1").is_ok());
    for rejected in ["", "   ", "javascript:alert(1)", "file:///c:/secrets", "localhost"] {
        assert!(normalize_url(rejected).is_err(), "{rejected} should be rejected");
    }
}

#[test]
fn finds_the_job_posting_among_several_json_ld_blocks() {
    let html = r#"
        <script type="application/ld+json">{"@type":"WebSite","name":"Board"}</script>
        <script>var notJsonLd = 1;</script>
        <script type="application/ld+json">{"@type":"JobPosting","title":"Rust Engineer","description":"<p>Build.</p>"}</script>
    "#;
    let posting = job_posting_from_json_ld(html).expect("a posting");
    assert_eq!(posting["title"], "Rust Engineer");
}

#[test]
fn finds_a_job_posting_inside_an_at_graph_or_a_top_level_array() {
    let graph = r#"<script type="application/ld+json">
        {"@graph":[{"@type":"Organization"},{"@type":"JobPosting","title":"In graph","description":"d"}]}
    </script>"#;
    assert_eq!(job_posting_from_json_ld(graph).unwrap()["title"], "In graph");
    let array = r#"<script type="application/ld+json">
        [{"@type":"BreadcrumbList"},{"@type":["JobPosting"],"title":"In array","description":"d"}]
    </script>"#;
    assert_eq!(job_posting_from_json_ld(array).unwrap()["title"], "In array");
}

#[test]
fn a_malformed_json_ld_block_does_not_abort_the_scan() {
    let html = r#"
        <script type="application/ld+json">{ this is not json </script>
        <script type="application/ld+json">{"@type":"JobPosting","title":"Survivor","description":"d"}</script>
    "#;
    assert_eq!(job_posting_from_json_ld(html).unwrap()["title"], "Survivor");
}

#[test]
fn a_page_without_a_posting_falls_through() {
    let html = r#"<script type="application/ld+json">{"@type":"Organization","name":"Acme"}</script>"#;
    assert!(job_posting_from_json_ld(html).is_none());
}

#[test]
fn a_stub_job_posting_is_not_usable() {
    assert!(!json_ld_is_usable(&j(r#"{ "@type": "JobPosting", "url": "https://example.test/1" }"#)));
    assert!(!json_ld_is_usable(&j(r#"{ "title": "Engineer", "description": "  " }"#)));
    assert!(json_ld_is_usable(&j(r#"{ "title": "Engineer", "description": "Build things." }"#)));
}

#[test]
fn reads_the_page_title() {
    assert_eq!(
        page_title("<html><head><title>Rust Engineer at Acme</title></head>"),
        "Rust Engineer at Acme"
    );
    assert_eq!(page_title("<html><body>no title</body></html>"), "");
}

#[test]
fn truncate_for_prompt_cuts_on_a_word_boundary_and_marks_it() {
    let short = "a short posting";
    assert_eq!(truncate_for_prompt(short), short);
    let long = "exp\u{e9}rience ".repeat(MAX_PROMPT_CHARS);
    let cut = truncate_for_prompt(&long);
    assert!(cut.ends_with("[... page text truncated ...]"));
    assert!(cut.contains("exp\u{e9}rience"));
    assert!(cut.chars().count() < long.chars().count());
}

#[test]
fn extraction_prompt_carries_the_source_url_and_the_page_text() {
    let prompt = build_extraction_prompt(Some("https://jobs.example.com/1"), "Build services.");
    assert!(prompt.contains("https://jobs.example.com/1"));
    assert!(prompt.contains("Build services."));
    assert!(prompt.contains("Do not summarize"));
    assert!(prompt.contains("same language as the posting"));
    assert!(!build_extraction_prompt(None, "text").contains("Source URL"));
}

#[test]
fn accepts_a_well_formed_extraction() {
    let job = parse_extraction_from_response(&responses_body(&extracted("{}"))).unwrap();
    assert_eq!(job.title, "Rust Engineer");
    assert_eq!(job.company, "Acme");
}

#[test]
fn rejects_a_page_the_model_says_is_not_a_posting() {
    let body = responses_body(&extracted(
        r#"{ "is_job_posting": false, "title": "", "description": "" }"#,
    ));
    assert!(matches!(parse_extraction_from_response(&body), Err(ImportError::NotAJobPosting)));
}

#[test]
fn rejects_an_extraction_with_nothing_in_it() {
    let body = responses_body(&extracted(r#"{ "title": "  ", "description": "" }"#));
    assert!(matches!(parse_extraction_from_response(&body), Err(ImportError::EmptyResult)));
}

#[test]
fn an_extraction_refusal_is_reported_as_a_refusal_not_as_bad_json() {
    let body = r#"{"output":[{"type":"message","content":[{"type":"refusal","refusal":"I cannot help with that."}]}]}"#;
    let message = parse_extraction_from_response(body).unwrap_err().message();
    assert!(message.contains("declined"), "{message}");
    assert!(!message.contains("invalid"), "{message}");
}

#[test]
fn a_truncated_extraction_is_reported_as_incomplete() {
    let body = r#"{"status":"incomplete","incomplete_details":{"reason":"max_output_tokens"},"output":[]}"#;
    let message = parse_extraction_from_response(body).unwrap_err().message();
    assert!(message.contains("max_output_tokens"), "{message}");
}

#[test]
fn the_built_payload_names_its_own_parser() {
    let payload = back(&build_payload(
        ImportMode::Url,
        Extraction::JsonLd,
        "https://boards.greenhouse.io/acme/jobs/1",
        Some("Rust Engineer at Acme"),
        "",
        j(r#"{ "@type": "JobPosting" }"#),
        1_700_000_000_000,
    ));
    assert_eq!(payload["source"], "url_import");
    assert_eq!(payload["extraction"], "json_ld");
    assert_eq!(payload["pageTitle"], "Rust Engineer at Acme");
    let pasted = back(&build_payload(
        ImportMode::Text,
        Extraction::Llm,
        "",
        None,
        "the page text",
        j("{}"),
        1_700_000_000_000,
    ));
    assert_eq!(pasted["source"], "text_import");
    assert_eq!(pasted["extraction"], "llm");
    assert_eq!(pasted["sourceText"], "the page text");
}

#[test]
fn blocked_and_thin_page_errors_both_name_the_paste_fallback() {
    for error in [ImportError::Blocked { status: 403 }, ImportError::PageTooThin { chars: 12 }] {
        let message = error.message();
        assert!(message.contains("Paste text tab"), "{message}");
    }
}

#[test]
fn a_fetched_status_is_mapped_to_the_import_error_it_means() {
    assert!(response_status_error(200).is_none());
    assert!(matches!(response_status_error(403), Some(ImportError::Blocked { status: 403 })));
    assert!(matches!(response_status_error(429), Some(ImportError::Blocked { status: 429 })));
    assert!(matches!(response_status_error(410), Some(ImportError::NotFound { status: 410 })));
    assert!(matches!(response_status_error(500), Some(ImportError::HttpStatus { status: 500 })));
    assert_eq!(
        ImportError::NotFound { status: 404 }.message(),
        "That job post is gone (HTTP 404). The listing may have been taken down."
    );
}

#[test]
fn only_page_media_types_are_read() {
    assert_eq!(media_type("Text/HTML; charset=utf-8"), "text/html");
    assert_eq!(media_type(""), "");
    assert!(check_media_type("text/html").is_ok());
    assert!(check_media_type("").is_ok());
    match check_media_type("application/pdf") {
        Err(ImportError::NotHtml { content_type }) => assert_eq!(content_type, "application/pdf"),
        _ => panic!("a PDF must be refused"),
    }
    assert!(check_content_length(Some(1024)).is_ok());
    assert!(check_content_length(None).is_ok());
    assert!(check_content_length(Some(16 * 1024 * 1024 + 1)).is_err());
}

#[test]
fn a_large_page_is_cut_on_a_character_boundary() {
    let page = "\u{e9}".repeat(MAX_HTML_BYTES);
    let capped = capped_html(&page);
    assert_eq!(capped.len(), MAX_HTML_BYTES);
    assert!(capped.chars().all(|c| c == '\u{e9}'));
    assert_eq!(capped_html("short"), "short");
    let odd = format!("a{}", "\u{e9}".repeat(MAX_HTML_BYTES / 2));
    assert_eq!(capped_html(&odd).len(), MAX_HTML_BYTES - 1);
}

#[test]
fn a_failed_fetch_names_the_host() {
    assert_eq!(fetch_host("https://jobs.example.com/1"), "jobs.example.com");
    assert_eq!(fetch_host("not a url"), "the site");
}
