use libintent::infras::web::search::search::{
    extract_page_text, extract_query, parse_brave_results, render_markdown, search_url, Search,
    SearchAction, SearchEvent, SearchStage, RESULTS_LIMIT,
};
use libintent::json::JsonValue;
use libintent::types::{ExecutionStatus, IntentInput, IntentResult};

fn answer_of(step: (SearchStage, SearchAction)) -> IntentResult {
    match step {
        (SearchStage::Finished, SearchAction::Answer(r)) => r,
        _ => panic!("expected an answer"),
    }
}

fn fetch_of(step: (SearchStage, SearchAction)) -> (SearchStage, Vec<String>) {
    match step {
        (stage, SearchAction::Fetch(urls)) => (stage, urls),
        _ => panic!("expected a fetch"),
    }
}

#[test]
fn should_return_error_if_query_missing() {
    let input = IntentInput {
        data: None,
        args: vec![],
    };

    let result = answer_of(Search::step(SearchStage::Start, SearchEvent::Begin(input)));

    assert_eq!(result.status, ExecutionStatus::Error);
    assert!(result.result.is_none());
    assert!(result.error.as_ref().is_some());

    let out = result.to_json();
    let parsed: serde_json::Value = serde_json::from_str(&out).unwrap();

    assert_eq!(parsed["status"], "Error");
    assert!(parsed["error"].as_str().unwrap().to_lowercase().contains("query"));
}

#[test]
fn parse_brave_results_respects_limit() {
    let html = r##"
        <html><body>
            <a href="https://site1.com/article">Site One</a>
            <a href="https://site2.com/article">Site Two</a>
            <a href="https://site3.com/article">Site Three</a>
            <a href="https://site4.com/article">Site Four</a>
            <a href="https://site5.com/article">Site Five</a>
        </body></html>
    "##;

    let results = parse_brave_results(html, 2);

    assert_eq!(results.len(), 2);
}

#[test]
fn parse_brave_results_returns_all_when_limit_exceeds_available() {
    let html = r##"
        <html><body>
            <a href="https://site1.com/article">Site One</a>
            <a href="https://site2.com/article">Site Two</a>
        </body></html>
    "##;

    let results = parse_brave_results(html, 10);

    assert_eq!(results.len(), 2);
}

#[test]
fn parse_brave_results_extracts_unique_http_links() {
    let html = r##"
        <html>
          <body>
            <a href="https://example.com/page1">First result</a>
            <a href="https://example.com/page1">Duplicate result</a>
            <a href="mailto:test@example.com">Mail link</a>
            <a href="#fragment">Fragment link</a>
          </body>
        </html>
    "##;

    let results = parse_brave_results(html, 5);

    assert_eq!(results.len(), 1);
    assert_eq!(results[0].0, "First result");
    assert_eq!(results[0].1, "https://example.com/page1");
}

#[test]
fn extract_page_text_builds_markdown_like_article() {
    let html = r#"
        <html>
          <body>
            <h1>Main Title</h1>
            <h2>Subtitle text</h2>
            <p>This is the first paragraph with more than thirty characters.</p>
            <p>This is the second paragraph, also long enough to be kept.</p>
          </body>
        </html>
    "#;

    let markdown = extract_page_text(html);

    assert!(markdown.starts_with("# Main Title"), "Markdown should start with H1 title");
    assert!(
        markdown.contains("## Subtitle text"),
        "Markdown should contain the subtitle as H2"
    );
    assert!(
        markdown.contains("This is the first paragraph"),
        "Markdown should include the first paragraph text"
    );
    assert!(
        markdown.contains("This is the second paragraph"),
        "Markdown should include the second paragraph text"
    );
}

#[test]
fn parse_brave_results_skips_brave_blocked_and_untitled_links() {
    let html = r##"
        <html><body>
            <a href="https://search.brave.com/search?q=x">Brave itself</a>
            <a href="https://www.youtube.com/watch?v=1">A video</a>
            <a href="https://en.wikipedia.org/wiki/X">Encyclopedia</a>
            <a href="ftp://files.example.com/x">Ftp</a>
            <a href="javascript:void(0)">Script</a>
            <a href="https://notitle.example.com/"> </a>
            <a>No href</a>
            <a href="  https://kept.example.com/a%20b  ">Kept
            one</a>
        </body></html>
    "##;
    let results = parse_brave_results(html, 5);
    assert_eq!(results, vec![("Kept             one".to_string(), "https://kept.example.com/a b".to_string())]);
}

#[test]
fn extract_page_text_prefers_article_paragraphs_and_drops_contents_subtitle() {
    let html = r#"
        <html><body>
          <h1 id="firstHeading">Real  Title</h1>
          <h2>Contents</h2>
          <p>Outside paragraph that is long enough to keep here.</p>
          <article>
            <p>short</p>
            <p>tiny</p>
            <p>An article paragraph that is definitely longer than thirty bytes.</p>
          </article>
        </body></html>
    "#;
    let markdown = extract_page_text(html);
    assert_eq!(
        markdown,
        "# Real  Title\n\nshort\n\nAn article paragraph that is definitely longer than thirty bytes."
    );
}

#[test]
fn extract_page_text_of_empty_page_is_empty() {
    assert_eq!(extract_page_text(""), "");
    assert_eq!(extract_page_text("<html><body><div>no structure</div></body></html>"), "");
}

#[test]
fn extract_query_prefers_data_then_first_argument() {
    let q = extract_query(IntentInput { data: Some("  rust  ".to_string()), args: vec!["other".to_string()] });
    assert_eq!(q, Ok("rust".to_string()));
    let q = extract_query(IntentInput { data: Some("   ".to_string()), args: vec![" verus ".to_string()] });
    assert_eq!(q, Ok("verus".to_string()));
    let q = extract_query(IntentInput { data: None, args: vec![" ".to_string(), "later".to_string()] });
    assert_eq!(q, Err("Missing query for web.search intent".to_string()));
}

#[test]
fn search_url_writes_spaces_as_plus() {
    assert_eq!(
        search_url("Bob Dylan Blood on the Tracks"),
        "https://search.brave.com/search?q=Bob+Dylan+Blood+on+the+Tracks"
    );
}

#[test]
fn render_markdown_numbers_entries_and_trims() {
    let items = vec![
        ("One".to_string(), "https://a.example".to_string(), "# A\n\ntext".to_string()),
        ("Two".to_string(), "https://b.example".to_string(), String::new()),
    ];
    assert_eq!(
        render_markdown(&items),
        "1. [One](https://a.example)\n\n# A\n\ntext\n\n---\n\n2. [Two](https://b.example)\n\n---"
    );
    assert_eq!(render_markdown(&vec![]), "");
    let many: Vec<(String, String, String)> =
        (0..12).map(|i| (format!("t{}", i), format!("u{}", i), String::new())).collect();
    assert!(render_markdown(&many).contains("\n\n12. [t11](u11)\n\n---"));
}

#[test]
fn search_steps_from_query_to_answer() {
    let input = IntentInput { data: Some("rust verus".to_string()), args: vec![] };
    let (stage, urls) = fetch_of(Search::step(SearchStage::Start, SearchEvent::Begin(input)));
    assert_eq!(urls, vec!["https://search.brave.com/search?q=rust+verus".to_string()]);

    let page = r#"<a href="https://a.example/x">Article A</a><a href="https://b.example/y">Article B</a>"#;
    let (stage, urls) = fetch_of(Search::step(stage, SearchEvent::Fetched(Ok(vec![page.to_string()]))));
    assert_eq!(urls, vec!["https://a.example/x".to_string(), "https://b.example/y".to_string()]);

    let bodies = vec![
        "<h1>A</h1><p>Paragraph of article A, long enough to be kept.</p>".to_string(),
        "<p>b</p>".to_string(),
    ];
    let answer = answer_of(Search::step(stage, SearchEvent::Fetched(Ok(bodies))));
    assert_eq!(answer.status, ExecutionStatus::Success);
    let expected = "1. [Article A](https://a.example/x)\n\n# A\n\nParagraph of article A, long enough to be kept.\n\n---\n\n2. [Article B](https://b.example/y)\n\nb\n\n---";
    assert_eq!(
        answer.result,
        Some(JsonValue::Object(vec![("data".to_string(), JsonValue::Str(expected.to_string()))]))
    );
    assert!(RESULTS_LIMIT == 5);
}

#[test]
fn search_steps_report_fetch_and_runtime_failures() {
    let input = IntentInput { data: None, args: vec!["q".to_string()] };
    let (stage, _) = fetch_of(Search::step(SearchStage::Start, SearchEvent::Begin(input)));
    let failed = answer_of(Search::step(stage, SearchEvent::RuntimeUnavailable("no threads".to_string())));
    assert_eq!(failed.error.as_deref(), Some("Failed to create async runtime: no threads"));

    let failed = answer_of(Search::step(
        SearchStage::AwaitingResults,
        SearchEvent::Fetched(Err("connection refused".to_string())),
    ));
    assert_eq!(failed.error.as_deref(), Some("Failed to execute web.search: connection refused"));
    assert_eq!(failed.result, None);
}

#[test]
fn search_with_no_links_answers_empty_markdown() {
    let (stage, urls) = fetch_of(Search::step(
        SearchStage::AwaitingResults,
        SearchEvent::Fetched(Ok(vec!["<p>nothing</p>".to_string()])),
    ));
    assert!(urls.is_empty());
    let answer = answer_of(Search::step(stage, SearchEvent::Fetched(Ok(vec![]))));
    assert_eq!(answer.to_json(), r#"{"status":"Ok","result":{"data":""}}"#);
}
