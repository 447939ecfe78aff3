use resume_workbench::api_usage::{
    declared_prefix, fingerprint_of, fnv1a, safe_component, token_usage, PromptFingerprint,
    UsageContext,
};
use resume_workbench::http::{retry_delay, status_is_retryable};
use resume_workbench::json::Json;
use serde_json::Value;

fn convert(value: Value) -> Json {
    match value {
        Value::Null => Json::Null,
        Value::Bool(b) => Json::Bool(b),
        Value::Number(n) => Json::Number(n.to_string()),
        Value::String(s) => Json::Str(s),
        Value::Array(items) => Json::Array(items.into_iter().map(convert).collect()),
        Value::Object(members) => {
            Json::Object(members.into_iter().map(|(k, v)| (k, convert(v))).collect())
        }
    }
}

const MARKER: &str = "\nVolatile: ";

fn request(user_content: &str) -> Value {
    let mut body: Value = serde_json::from_str(
        r#"{"model":"test-model","input":[{"role":"system","content":"system text"},{"role":"user","content":""}]}"#,
    )
    .unwrap();
    body["input"][1]["content"] = Value::String(user_content.to_string());
    body
}

fn fingerprint_request_always(request: &Value, marker: &str) -> PromptFingerprint {
    let serialized = serde_json::to_string(request).unwrap();
    fingerprint_of(&convert(request.clone()), &serialized, marker)
}

#[test]
fn extracts_responses_api_token_usage() {
    let response: Value = serde_json::from_str(
        r#"{"usage":{"input_tokens":120,"output_tokens":45,"total_tokens":165,
            "input_tokens_details":{"cached_tokens":20},"output_tokens_details":{"reasoning_tokens":11}}}"#,
    )
    .unwrap();
    let usage = token_usage(&convert(response)).unwrap();
    assert_eq!(usage.input_tokens, 120);
    assert_eq!(usage.cached_input_tokens, Some(20));
    assert_eq!(usage.reasoning_output_tokens, Some(11));
}

#[test]
fn a_shared_prefix_hashes_the_same_while_the_body_differs() {
    let first = fingerprint_request_always(&request("constant head\nVolatile: job one"), MARKER);
    let second = fingerprint_request_always(&request("constant head\nVolatile: job two"), MARKER);
    assert_eq!(first.prefix_hash, second.prefix_hash);
    assert_eq!(first.prefix_chars, "constant head".chars().count() as u32);
    assert_ne!(first.body_hash, second.body_hash);
}

#[test]
fn an_identical_request_hashes_identically_end_to_end() {
    let body = request("constant head\nVolatile: same job");
    assert_eq!(
        fingerprint_request_always(&body, MARKER),
        fingerprint_request_always(&body, MARKER)
    );
}

#[test]
fn a_changed_constant_zone_changes_the_prefix_hash() {
    let first = fingerprint_request_always(&request("constant head\nVolatile: job"), MARKER);
    let second = fingerprint_request_always(&request("edited head\nVolatile: job"), MARKER);
    assert_ne!(first.prefix_hash, second.prefix_hash);
}

#[test]
fn a_missing_marker_falls_back_to_the_whole_message() {
    let fingerprint = fingerprint_request_always(&request("no boundary here"), MARKER);
    assert_eq!(fingerprint.prefix_chars, "no boundary here".chars().count() as u32);
}

#[test]
fn a_cache_breakpoint_block_is_the_declared_prefix() {
    let body: Value = serde_json::from_str(
        r#"{"input":[{"role":"user","content":[{"type":"input_text","text":"head"},
            {"type":"input_text","text":"shared zone","prompt_cache_breakpoint":{}}]}]}"#,
    )
    .unwrap();
    assert_eq!(declared_prefix(&convert(body), MARKER), "shared zone");
}

#[test]
fn fnv1a_matches_the_reference_vectors() {
    assert_eq!(fnv1a(""), 0xcbf2_9ce4_8422_2325);
    assert_eq!(fnv1a("a"), 0xaf63_dc4c_8601_ec8c);
}

#[test]
fn file_name_components_are_made_safe() {
    assert_eq!(safe_component("--resp_123/abc--"), "resp_123-abc");
    assert_eq!(safe_component("é"), "");
    assert_eq!(safe_component(&"x".repeat(100)).len(), 80);
}

#[test]
fn an_attempt_context_carries_its_capture_and_attempt() {
    let context = UsageContext::attempt(Some(7), 2);
    assert_eq!(context.capture_id, Some(7));
    assert_eq!(context.attempt, Some(2));
    assert!(context.prompt.is_none());
    let with = context.with_prompt(Some(PromptFingerprint::default()));
    assert_eq!(with.attempt, Some(2));
    assert!(with.prompt.is_some());
}

#[test]
fn retries_rate_limits_and_server_faults_only() {
    assert!(status_is_retryable(429));
    assert!(status_is_retryable(500));
    assert!(status_is_retryable(502));
    assert!(status_is_retryable(503));
    assert!(!status_is_retryable(401));
    assert!(!status_is_retryable(400));
    assert!(!status_is_retryable(404));
    assert!(!status_is_retryable(403));
}

#[test]
fn backoff_grows_and_then_caps() {
    assert_eq!(retry_delay(0), 1000);
    assert_eq!(retry_delay(1), 2000);
    assert_eq!(retry_delay(2), 4000);
    assert_eq!(retry_delay(9), retry_delay(4));
}
