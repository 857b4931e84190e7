use libintent::dispatcher::Dispatcher;
use libintent::intent::Intent;
use libintent::json::JsonValue;
use libintent::types::{CoreError, ExecutionStatus, IntentInput, IntentResult};

struct HelloWorld;

impl Intent for HelloWorld {
    fn name(&self) -> &'static str { "hello" }
    fn path(&self) -> &'static str { "core.hello_world" }
    fn description(&self) -> &'static str { "Returns a friendly greeting." }
    fn execute(&self, _input: IntentInput) -> IntentResult {
        IntentResult {
            status: ExecutionStatus::Success,
            result: Some(JsonValue::Str("Hello, world!".to_string())),
            error: None,
        }
    }
}

struct ErrorIntent;

impl Intent for ErrorIntent {
    fn name(&self) -> &'static str { "error" }
    fn path(&self) -> &'static str { "core.error" }
    fn description(&self) -> &'static str { "Always fails" }
    fn execute(&self, _input: IntentInput) -> IntentResult {
        IntentResult {
            status: ExecutionStatus::Error,
            result: None,
            error: Some("simulated failure".to_string()),
        }
    }
}

struct EchoData;

impl Intent for EchoData {
    fn name(&self) -> &'static str { "echo" }
    fn path(&self) -> &'static str { "core.echo" }
    fn description(&self) -> &'static str { "Returns its data." }
    fn execute(&self, input: IntentInput) -> IntentResult {
        IntentResult {
            status: ExecutionStatus::Success,
            result: input.data.map(JsonValue::Str),
            error: None,
        }
    }
}

#[test]
fn dispatch_should_return_error_if_intent_does_not_exist() {
    let input = IntentInput { data: None, args: vec![] };
    let dispatcher = Dispatcher::new();
    let result = dispatcher.dispatch("fake.intent", input);
    let expected = Err(CoreError::IntentNotFound { path: "fake.intent".to_string() });

    assert_eq!(result, expected);
}

#[test]
fn register_should_correctly_register_intent() {
    let input = IntentInput { data: None, args: vec![] };
    let mut dispatcher = Dispatcher::new();

    dispatcher.register(Box::new(HelloWorld)).unwrap();

    let result = dispatcher.dispatch("core.hello_world", input);
    let expected = Ok(IntentResult {
        status: ExecutionStatus::Success,
        result: Some(JsonValue::Str("Hello, world!".to_string())),
        error: None,
    });

    assert_eq!(result, expected);
}

#[test]
fn register_should_return_error_when_intent_already_exists() {
    let mut dispatcher = Dispatcher::new();
    dispatcher.register(Box::new(HelloWorld)).unwrap();
    let result = dispatcher.register(Box::new(HelloWorld));

    assert!(result.is_err());
    assert_eq!(result.unwrap_err(), "Intent 'core.hello_world' already registered");
}

#[test]
fn dispatch_should_return_intent_result_ok() {
    let input = IntentInput { data: None, args: vec![] };
    let mut dispatcher = Dispatcher::new();

    dispatcher.register(Box::new(HelloWorld)).unwrap();

    let expected = Ok(IntentResult {
        status: ExecutionStatus::Success,
        result: Some(JsonValue::Str("Hello, world!".to_string())),
        error: None,
    });
    let result = dispatcher.dispatch("core.hello_world", input);

    assert_eq!(result, expected);
}

#[test]
fn dispatch_should_return_intent_result_error_status() {
    let input = IntentInput { data: None, args: vec![] };
    let mut dispatcher = Dispatcher::new();

    dispatcher.register(Box::new(ErrorIntent)).unwrap();

    let expected = Ok(IntentResult {
        status: ExecutionStatus::Error,
        result: None,
        error: Some("simulated failure".to_string()),
    });
    let result = dispatcher.dispatch("core.error", input);

    assert_eq!(result, expected);
}

#[test]
fn dispatcher_routes_each_path_to_its_own_intent() {
    let mut dispatcher = Dispatcher::new();
    dispatcher.register(Box::new(HelloWorld)).unwrap();
    dispatcher.register(Box::new(ErrorIntent)).unwrap();
    dispatcher.register(Box::new(EchoData)).unwrap();

    let echoed = dispatcher
        .dispatch("core.echo", IntentInput { data: Some("ping".to_string()), args: vec![] })
        .unwrap();
    assert_eq!(echoed.result, Some(JsonValue::Str("ping".to_string())));

    let failed = dispatcher.dispatch("core.error", IntentInput { data: None, args: vec![] }).unwrap();
    assert_eq!(failed.status, ExecutionStatus::Error);

    assert_eq!(dispatcher.position("core.hello_world"), Some(0));
    assert_eq!(dispatcher.position("core.echo"), Some(2));
    assert_eq!(dispatcher.position("core.missing"), None);
}

#[test]
fn refused_registration_leaves_the_dispatcher_unchanged() {
    let mut dispatcher = Dispatcher::new();
    dispatcher.register(Box::new(ErrorIntent)).unwrap();
    let refused = dispatcher.register_path("core.error".to_string(), Box::new(HelloWorld));
    assert_eq!(refused, Err("Intent 'core.error' already registered".to_string()));

    // the first registration still answers
    let still = dispatcher.dispatch("core.error", IntentInput { data: None, args: vec![] }).unwrap();
    assert_eq!(still.error, Some("simulated failure".to_string()));
    assert_eq!(dispatcher.position("core.hello_world"), None);
}

#[test]
fn register_path_uses_the_given_path() {
    let mut dispatcher = Dispatcher::new();
    dispatcher.register_path("alias.greeting".to_string(), Box::new(HelloWorld)).unwrap();
    assert!(dispatcher.dispatch("alias.greeting", IntentInput { data: None, args: vec![] }).is_ok());
    assert_eq!(
        dispatcher.dispatch("core.hello_world", IntentInput { data: None, args: vec![] }),
        Err(CoreError::IntentNotFound { path: "core.hello_world".to_string() })
    );
}

#[test]
fn intent_for_finds_the_intent_registered_under_a_path() {
    let mut dispatcher = Dispatcher::new();
    dispatcher.register(Box::new(HelloWorld)).unwrap();
    dispatcher.register(Box::new(ErrorIntent)).unwrap();

    let found = dispatcher.intent_for("core.error").expect("registered");
    assert_eq!(found.path(), "core.error");
    assert_eq!(found.name(), "error");
    assert!(dispatcher.intent_for("core.missing").is_none());
}

struct OtherHello;

impl Intent for OtherHello {
    fn name(&self) -> &'static str { "hello" }
    fn path(&self) -> &'static str { "core.other_hello" }
    fn description(&self) -> &'static str { "Same name, another path." }
    fn execute(&self, _input: IntentInput) -> IntentResult {
        IntentResult { status: ExecutionStatus::Success, result: None, error: None }
    }
}

#[test]
fn intents_sharing_a_name_register_under_their_paths() {
    let mut dispatcher = Dispatcher::new();
    assert!(dispatcher.register(Box::new(HelloWorld)).is_ok());
    assert!(dispatcher.register(Box::new(OtherHello)).is_ok());
    assert_eq!(dispatcher.position("core.hello_world"), Some(0));
    assert_eq!(dispatcher.position("core.other_hello"), Some(1));
}

#[test]
fn register_intent_keeps_the_intent_type() {
    let mut dispatcher = Dispatcher::new();
    assert!(dispatcher.register_intent(Box::new(HelloWorld)).is_ok());
    assert_eq!(
        dispatcher.register_intent(Box::new(HelloWorld)),
        Err("Intent 'core.hello_world' already registered".to_string())
    );
    let result = dispatcher.dispatch("core.hello_world", IntentInput { data: None, args: vec![] }).unwrap();
    assert_eq!(result.result, Some(JsonValue::Str("Hello, world!".to_string())));
}
