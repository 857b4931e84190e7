use libintent::infras::llm::backend::ollama::{generate_url, request_body};
use libintent::infras::llm::backend::LlmBackend;

struct AlwaysOk;

impl LlmBackend for AlwaysOk {
    fn generate(&self, _prompt: &str) -> Result<String, String> {
        Ok("ok".to_string())
    }
}

struct AlwaysErr;

impl LlmBackend for AlwaysErr {
    fn generate(&self, _prompt: &str) -> Result<String, String> {
        Err("backend error".to_string())
    }
}

#[test]
fn backend_generate_returns_ok() {
    let backend = AlwaysOk;
    assert!(backend.generate("hello").is_ok());
}

#[test]
fn backend_generate_returns_err() {
    let backend = AlwaysErr;
    assert!(backend.generate("hello").is_err());
}

#[test]
fn ollama_generate_url_appends_the_endpoint() {
    assert_eq!(generate_url("http://localhost:11434"), "http://localhost:11434/api/generate");
    assert_eq!(generate_url(""), "/api/generate");
}

#[test]
fn ollama_request_body_is_compact_json() {
    assert_eq!(
        request_body("llama3", "Hello"),
        r#"{"model":"llama3","prompt":"Hello","stream":false}"#
    );
    let tricky = request_body("m", "line1\nsaid \"hi\"\t\\ \u{1}");
    assert_eq!(tricky, r#"{"model":"m","prompt":"line1\nsaid \"hi\"\t\\ \u0001","stream":false}"#);
    let parsed: serde_json::Value = serde_json::from_str(&tricky).unwrap();
    assert_eq!(parsed["prompt"], "line1\nsaid \"hi\"\t\\ \u{1}");
    assert_eq!(parsed["stream"], false);
}
