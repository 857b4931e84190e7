use std::sync::{Arc, Mutex};

use libintent::dispatcher::Dispatcher;
use libintent::infras::llm::backend::LlmBackend;
use libintent::infras::llm::summarize::Summarize;
use libintent::infras::llm::summary::summary::build_prompt;
use libintent::intent::Intent;
use libintent::json::JsonValue;
use libintent::types::{ExecutionStatus, IntentInput};

// --- Test doubles ---

struct MockOk;

impl LlmBackend for MockOk {
    fn generate(&self, _prompt: &str) -> Result<String, String> {
        Ok("summarized text".to_string())
    }
}

struct MockErr;

impl LlmBackend for MockErr {
    fn generate(&self, _prompt: &str) -> Result<String, String> {
        Err("model error".to_string())
    }
}

struct CapturingBackend {
    captured: Arc<Mutex<String>>,
}

impl LlmBackend for CapturingBackend {
    fn generate(&self, prompt: &str) -> Result<String, String> {
        *self.captured.lock().unwrap() = prompt.to_string();
        Ok("captured".to_string())
    }
}

// --- Tests ---

#[test]
fn should_return_error_if_input_missing() {
    let intent = Summarize::new(Arc::new(MockOk), None);
    let input = IntentInput { data: None, args: vec![] };

    let result = intent.execute(input);

    assert_eq!(result.status, ExecutionStatus::Error);
    assert!(result.result.is_none());

    let err = result.error.as_deref().unwrap_or("");
    assert!(err.to_lowercase().contains("missing"));
}

#[test]
fn should_return_ok_when_backend_succeeds() {
    let intent = Summarize::new(Arc::new(MockOk), None);
    let input = IntentInput {
        data: Some("Some long text to summarize.".to_string()),
        args: vec![],
    };

    let result = intent.execute(input);

    assert_eq!(result.status, ExecutionStatus::Success);
    assert!(result.error.is_none());

    let out = result.to_json();
    let parsed: serde_json::Value = serde_json::from_str(&out).unwrap();
    assert_eq!(parsed["result"]["data"], "summarized text");
}

#[test]
fn should_return_error_when_backend_fails() {
    let intent = Summarize::new(Arc::new(MockErr), None);
    let input = IntentInput {
        data: Some("Some text.".to_string()),
        args: vec![],
    };

    let result = intent.execute(input);

    assert_eq!(result.status, ExecutionStatus::Error);
    assert!(result.result.is_none());

    let err = result.error.as_deref().unwrap_or("");
    assert!(err.contains("model error"));
}

#[test]
fn should_include_context_in_prompt_when_set() {
    let captured = Arc::new(Mutex::new(String::new()));
    let backend = CapturingBackend { captured: Arc::clone(&captured) };
    let intent = Summarize::new(
        Arc::new(backend),
        Some("You are a formal assistant.".to_string()),
    );
    let input = IntentInput {
        data: Some("Text to summarize.".to_string()),
        args: vec![],
    };

    intent.execute(input);

    let prompt = captured.lock().unwrap().clone();
    assert!(prompt.contains("You are a formal assistant."), "Context must appear in prompt");
    assert!(prompt.contains("Text to summarize."), "User input must appear in prompt");
}

#[test]
fn summary_accepts_a_shared_trait_object_backend() {
    let backend: Arc<dyn LlmBackend> = Arc::new(MockOk);
    let intent = Summarize::new(backend, None);
    let result = intent.execute(IntentInput { data: Some("x".to_string()), args: vec![] });
    assert_eq!(
        result.result,
        Some(JsonValue::Object(vec![(
            "data".to_string(),
            JsonValue::Str("summarized text".to_string())
        )]))
    );
    assert_eq!(intent.path(), "llm.summary");
    assert_eq!(intent.name(), "summary");
}

#[test]
fn summary_prompt_is_exact_and_input_trimmed() {
    let captured = Arc::new(Mutex::new(String::new()));
    let intent = Summarize::new(
        Arc::new(CapturingBackend { captured: Arc::clone(&captured) }),
        Some("Be brief.".to_string()),
    );
    intent.execute(IntentInput { data: Some("  \n The text.\t ".to_string()), args: vec![] });
    assert_eq!(
        *captured.lock().unwrap(),
        "Be brief.\n\nSummarize the following text concisely.\n\nThe text."
    );
    assert_eq!(
        build_prompt(None, "abc"),
        "Summarize the following text concisely.\n\nabc"
    );
}

#[test]
fn summary_blank_data_is_missing_input() {
    let intent = Summarize::new(Arc::new(MockOk), None);
    let result = intent.execute(IntentInput { data: Some(" \u{3000}\n ".to_string()), args: vec![] });
    assert_eq!(
        result.error.as_deref(),
        Some("Missing input for llm.summary: provide text via data")
    );
}

#[test]
fn summary_backend_error_message_is_prefixed() {
    let intent = Summarize::new(Arc::new(MockErr), None);
    let result = intent.execute(IntentInput { data: Some("t".to_string()), args: vec![] });
    assert_eq!(result.error.as_deref(), Some("Failed to execute llm.summary: model error"));
    assert_eq!(result.to_json(), r#"{"status":"Error","error":"Failed to execute llm.summary: model error"}"#);
}

#[test]
fn register_into_registers_under_llm_summary() {
    let mut dispatcher = Dispatcher::new();
    assert!(Summarize::new(Arc::new(MockOk), None).register_into(&mut dispatcher).is_ok());
    let refused = Summarize::new(Arc::new(MockErr), None).register_into(&mut dispatcher);
    assert_eq!(refused, Err("Intent 'llm.summary' already registered".to_string()));
    let input = IntentInput { data: Some("text".to_string()), args: vec![] };
    let result = dispatcher.dispatch("llm.summary", input).unwrap();
    assert_eq!(result.status, ExecutionStatus::Success);
    assert_eq!(result.result, Some(JsonValue::Object(vec![("data".to_string(), JsonValue::Str("summarized text".to_string()))])));
}

#[test]
fn serve_answers_through_a_dispatcher() {
    let input = IntentInput { data: Some("text".to_string()), args: vec![] };
    let result = Summarize::new(Arc::new(MockErr), None).serve(input).unwrap();
    assert_eq!(result.status, ExecutionStatus::Error);
    assert_eq!(result.error.as_deref(), Some("Failed to execute llm.summary: model error"));
    let missing = Summarize::new(Arc::new(MockOk), None)
        .serve(IntentInput { data: None, args: vec![] })
        .unwrap();
    assert_eq!(missing.status, ExecutionStatus::Error);
}
