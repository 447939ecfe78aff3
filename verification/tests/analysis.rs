use resume_workbench::analysis::{
    body_is_blank, build_analysis_prompt, structured_output_of, AnalysisConfig, AnalysisError,
    ANALYSIS_INSTRUCTIONS,
};
use resume_workbench::capture::prompt_job_view;
use resume_workbench::json::Json;
use serde_json::Value;

fn convert(value: Value) -> Json {
    match value {
        Value::Null => Json::Null,
        Value::Bool(b) => Json::Bool(b),
        Value::Number(n) => Json::Number(n.to_string()),
        Value::String(s) => Json::Str(s),
        Value::Array(items) => Json::Array(items.into_iter().map(convert).collect()),
        Value::Object(members) => {
            Json::Object(members.into_iter().map(|(k, v)| (k, convert(v))).collect())
        }
    }
}

fn back(value: &Json) -> Value {
    match value {
        Json::Null => Value::Null,
        Json::Bool(b) => Value::Bool(*b),
        Json::Number(n) => serde_json::from_str(n).unwrap(),
        Json::Str(s) => Value::String(s.clone()),
        Json::Array(items) => Value::Array(items.iter().map(back).collect()),
        Json::Object(members) => Value::Object(
            members.iter().map(|(k, v)| (k.clone(), back(v))).collect(),
        ),
    }
}

fn j(text: &str) -> Json {
    convert(serde_json::from_str(text).unwrap())
}

/// The prompt for a parsed job, its prompt view serialized as the caller does.
fn prompt_for(parsed: &str) -> String {
    let view = back(&prompt_job_view(&j(parsed)));
    build_analysis_prompt(&serde_json::to_string(&view).unwrap())
}

/// Reads the structured output of a response body the way the analysis stage does.
fn output_text(body: &str) -> Result<String, AnalysisError> {
    if body_is_blank(body) {
        return Err(AnalysisError::EmptyResponseBody);
    }
    structured_output_of(&j(body))
}

#[test]
fn prompt_contains_normalized_job_context() {
    let prompt = prompt_for(
        r#"{"domain": "indeed", "title": "Rust Engineer", "description": "Build APIs with Rust and Axum."}"#,
    );
    assert!(prompt.contains("Rust Engineer"));
    assert!(prompt.contains("Axum"));
    assert!(prompt.contains("Do not invent"));
    assert!(prompt.contains("Semantically deduplicate"));
    assert!(prompt.contains("one to six words"));
    assert!(prompt.contains("same language as the job post"));
}

#[test]
fn analysis_prompt_static_prefix_is_below_the_cache_floor() {
    let prompt = prompt_for(r#"{"title": "Rust Engineer"}"#);
    let static_prefix = prompt.split("\nNormalized job JSON:").next().unwrap();
    assert!(static_prefix.len() < 4 * 1024, "{}", static_prefix.len());
}

#[test]
fn analysis_prompt_puts_the_job_post_last() {
    let prompt = prompt_for(r#"{"title": "Rust Engineer"}"#);
    let job_start = prompt.find("Rust Engineer").unwrap();
    let instructions_end = prompt.find("Normalized job JSON:").unwrap();
    assert!(job_start > instructions_end);
    assert!(prompt.starts_with(ANALYSIS_INSTRUCTIONS));
}

#[test]
fn parses_responses_api_output_text() {
    let inner = r#"{"role_target":"Rust Engineer","seniority":"Mid-level","core_keywords":[{"term":"Rust","category":"technology","importance":5,"evidence":"Job title and description mention Rust"}],"required_skills":["Rust"],"must_not_claim_without_evidence":["Kubernetes"],"summary":"Emphasize Rust API work."}"#;
    let mut body: Value = serde_json::from_str(
        r#"{"output":[{"type":"message","content":[{"type":"output_text","text":""}]}]}"#,
    )
    .unwrap();
    body["output"][0]["content"][0]["text"] = Value::String(inner.to_string());
    let text = output_text(&body.to_string()).unwrap();
    let analysis: Value = serde_json::from_str(&text).unwrap();
    assert_eq!(analysis["role_target"], "Rust Engineer");
    assert_eq!(analysis["core_keywords"][0]["importance"], 5);
    assert_eq!(analysis["must_not_claim_without_evidence"][0], "Kubernetes");
}

#[test]
fn rejects_missing_output_text() {
    let err = output_text(r#"{"output":[]}"#).unwrap_err();
    assert!(err.message().contains("structured output text"));
}

#[test]
fn rejects_an_empty_responses_api_body() {
    let err = output_text("  \n").unwrap_err();
    assert!(err.message().contains("empty response body"));
}

#[test]
fn reports_a_truncated_response_as_incomplete_not_as_bad_json() {
    let body = r#"{"status":"incomplete","incomplete_details":{"reason":"max_output_tokens"},"output":[]}"#;
    let message = output_text(body).unwrap_err().message();
    assert!(message.contains("incomplete"), "{message}");
    assert!(message.contains("max_output_tokens"), "{message}");
    assert!(!message.contains("invalid"), "{message}");
}

#[test]
fn reports_a_refusal_distinctly() {
    let body = r#"{"output":[{"type":"message","content":[{"type":"refusal","refusal":"I cannot help with that."}]}]}"#;
    let error = output_text(body).unwrap_err();
    assert!(error.message().contains("declined"), "{}", error.message());
}

#[test]
fn analysis_prompt_omits_the_duplicate_html_description() {
    let prompt = prompt_for(
        r#"{"title": "Rust Engineer", "description": "Build APIs with Rust and Axum.", "description_html": "<p>Build APIs with Rust and Axum.</p>"}"#,
    );
    assert!(prompt.contains("Build APIs with Rust and Axum."));
    assert!(!prompt.contains("description_html"));
    assert!(!prompt.contains("<p>"));
}

#[test]
fn an_http_error_names_the_status_and_its_reason() {
    let error = AnalysisError::Http { status: 429, body: "slow down".into() };
    assert_eq!(error.message(), "OpenAI returned HTTP 429 Too Many Requests: slow down");
    let error = AnalysisError::Http { status: 599, body: "?".into() };
    assert_eq!(error.message(), "OpenAI returned HTTP 599 <unknown status code>: ?");
}

#[test]
fn the_analysis_configuration_needs_a_key_and_defaults_the_rest() {
    assert!(AnalysisConfig::from_values(None, None, None).is_none());
    assert!(AnalysisConfig::from_values(Some("   ".into()), None, None).is_none());
    let config =
        AnalysisConfig::from_values(Some("  sk-test  ".into()), Some(" ".into()), None).unwrap();
    assert_eq!(config.api_key, "sk-test");
    assert_eq!(config.model, "gpt-5.6-luna");
    assert_eq!(config.base_url, "https://api.openai.com/v1");
}
