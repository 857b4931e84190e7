//! Summarising a block of text with an [`LlmBackend`].
use std::sync::Arc;

use vstd::prelude::*;

use crate::dispatcher::{law_register_then_dispatch, register_outcome, Dispatcher};
use crate::infras::llm::backend::LlmBackend;
use crate::intent::Intent;
use crate::json::{model, object, string_value, Json, JsonValue};
use crate::text::{trim, trim_str};
use crate::types::{CoreError, ExecutionStatus, IntentInput, IntentResult};

verus! {

/// The instruction put in front of the text to summarise.
pub open spec fn instruction() -> Seq<char> {
    "Summarize the following text concisely.\n\n"@
}

/// The prompt for `text`: the context and a blank line when there is a
/// context, then the instruction, then the text.
pub open spec fn prompt_text(context: Option<Seq<char>>, text: Seq<char>) -> Seq<char> {
    match context {
        Some(c) => c + "\n\n"@ + instruction() + text,
        None => instruction() + text,
    }
}

/// The text to summarise: the trimmed data, when it is present and not blank.
pub open spec fn summary_source(data: Option<String>) -> Option<Seq<char>> {
    match data {
        Some(d) => if trim(d@).len() > 0 {
            Some(trim(d@))
        } else {
            None
        },
        None => None,
    }
}

/// The message of a request without text.
pub open spec fn missing_input_message() -> Seq<char> {
    "Missing input for llm.summary: provide text via data"@
}

/// What `llm.summary` answers to the backend's reply `reply`.
pub open spec fn reply_outcome(r: IntentResult, reply: Result<Seq<char>, Seq<char>>) -> bool {
    &&& r.well_formed()
    &&& match reply {
        Ok(text) => {
            &&& r.status == ExecutionStatus::Success
            &&& r.result matches Some(v) && model(v) == Json::Object(seq![("data"@, Json::Str(text))])
        },
        Err(e) => {
            &&& r.status == ExecutionStatus::Error
            &&& r.error matches Some(m) && m@ == "Failed to execute llm.summary: "@ + e
        },
    }
}

/// The view of a backend reply.
pub open spec fn reply_view(reply: Result<String, String>) -> Result<Seq<char>, Seq<char>> {
    match reply {
        Ok(t) => Ok(t@),
        Err(e) => Err(e@),
    }
}

/// The prompt holds the context, when there is one, and the text to summarise.
pub proof fn law_prompt_holds_context_and_text(context: Option<Seq<char>>, text: Seq<char>)
    ensures
        context matches Some(c) ==> crate::text::has_infix(prompt_text(context, text), c),
        crate::text::has_infix(prompt_text(context, text), text),
{
    let p = prompt_text(context, text);
    if let Some(c) = context {
        assert(p.subrange(0, c.len() as int) =~= c);
        assert(crate::text::occurs_at(p, c, 0));
    }
    let at: int = p.len() - text.len();
    assert(p.subrange(at, at + text.len()) =~= text);
    assert(crate::text::occurs_at(p, text, at));
}

/// Data that is not blank is summarised whole: the text handed to the prompt
/// is the data with only its surrounding whitespace removed, and the prompt
/// ends with all of it. Blank or missing data gives no text.
pub proof fn law_whole_data_summarised(d: String, context: Option<Seq<char>>)
    ensures
        trim(d@).len() > 0 ==> summary_source(Some(d)) == Some(trim(d@)),
        trim(d@).len() > 0 ==> crate::text::has_suffix(prompt_text(context, trim(d@)), trim(d@)),
        trim(d@).len() == 0 ==> summary_source(Some(d)) is None,
        summary_source(None) is None,
{
    let t = trim(d@);
    let p = prompt_text(context, t);
    assert(p.subrange(p.len() - t.len(), p.len() as int) =~= t);
}

/// Builds the prompt handed to the backend.
pub fn build_prompt(context: Option<&str>, text: &str) -> (r: String)
    ensures
        r@ == prompt_text(
            match context {
                Some(c) => Some(c@),
                None => None,
            },
            text@,
        ),
{
    let mut prompt = String::new();
    if let Some(ctx) = context {
        prompt.append(ctx);
        prompt.append("\n\n");
    }
    prompt.append("Summarize the following text concisely.\n\n");
    prompt.append(text);
    prompt
}

/// The `llm.summary` intent: summarises the text given as `data` with an LLM backend.
///
/// The backend type is a parameter, so that `Arc<dyn LlmBackend>` and an
/// `Arc` of a concrete backend are both accepted.
pub struct Summary<B: LlmBackend + ?Sized> {
    backend: Arc<B>,
    context: Option<String>,
}

impl<B: LlmBackend + ?Sized> Summary<B> {
    /// The context put in front of every prompt.
    pub closed spec fn context(&self) -> Option<Seq<char>> {
        match self.context {
            Some(c) => Some(c@),
            None => None,
        }
    }

    /// The backend the prompts are handed to.
    pub closed spec fn backend(&self) -> Arc<B> {
        self.backend
    }

    /// Creates the intent over `backend`, with an optional `context` that
    /// prefixes every prompt.
    pub fn new(backend: Arc<B>, context: Option<String>) -> (s: Summary<B>)
        ensures
            s.backend() == backend,
            s.context() == match context {
                Some(c) => Some(c@),
                None => None::<Seq<char>>,
            },
    {
        Summary { backend, context }
    }

    /// The prompt for `input`, or `None` when the input holds no text to summarise.
    pub fn prompt(&self, input: &IntentInput) -> (r: Option<String>)
        ensures
            match summary_source(input.data) {
                Some(t) => r matches Some(p) && p@ == prompt_text(self.context(), t),
                None => r is None,
            },
    {
        match &input.data {
            Some(d) => {
                let text = trim_str(d.as_str());
                if text.as_str().is_empty() {
                    None
                } else {
                    let ctx = match &self.context {
                        Some(c) => Some(c.as_str()),
                        None => None,
                    };
                    Some(build_prompt(ctx, text.as_str()))
                }
            },
            None => None,
        }
    }

    /// The result for the backend's reply `reply`: its text under `"data"`, or
    /// its error prefixed with `"Failed to execute llm.summary: "`.
    pub fn outcome(reply: Result<String, String>) -> (r: IntentResult)
        ensures
            reply_outcome(r, reply_view(reply)),
    {
        match reply {
            Ok(response) => {
                let value = string_value(response.as_str());
                let entries = vec![("data".to_owned(), value)];
                assert(entries@.map_values(|e: (String, JsonValue)| (e.0@, model(e.1)))
                    =~= seq![("data"@, Json::Str(response@))]);
                let v = object(entries);
                IntentResult::success(v)
            },
            Err(e) => {
                let mut message = String::new();
                message.append("Failed to execute llm.summary: ");
                message.append(e.as_str());
                IntentResult::failure(message)
            },
        }
    }
}

impl<B: LlmBackend + ?Sized + 'static> Summary<B> {
    /// Registers this intent in `dispatcher` under `"llm.summary"`. Refused
    /// when that path is taken; otherwise the dispatcher then answers for
    /// `"llm.summary"` exactly the results this intent may give, and every
    /// other path as before.
    pub fn register_into(self, dispatcher: &mut Dispatcher) -> (r: Result<(), String>)
        ensures
            register_outcome(old(dispatcher)@, "llm.summary"@, final(dispatcher)@, r),
            r is Ok ==> forall|input: IntentInput, result: IntentResult|
                #[trigger] final(dispatcher).answers("llm.summary"@, input, result)
                    <==> self.executes(input, result),
            forall|q: Seq<char>, input: IntentInput, result: IntentResult|
                (r is Err || q != "llm.summary"@) ==> (#[trigger] final(dispatcher).answers(
                    q,
                    input,
                    result,
                ) <==> old(dispatcher).answers(q, input, result)),
            final(dispatcher)@.no_duplicates(),
    {
        let path = self.path().to_owned();
        let ghost given = self;
        let b: Box<dyn Intent> = Box::new(self);
        assert(forall|input: IntentInput, result: IntentResult|
            #[trigger] b.executes(input, result) == given.executes(input, result));
        let entry = (path, b);
        dispatcher.register_entry(entry)
    }

    /// Serves `input` through a dispatcher that holds this intent alone, as a
    /// tool with the one command `llm.summary` does: the answer is `Ok` with a
    /// result this intent may give for `input`.
    pub fn serve(self, input: IntentInput) -> (r: Result<IntentResult, CoreError>)
        ensures
            r matches Ok(res) && self.executes(input, res),
    {
        let mut dispatcher = Dispatcher::new();
        let ghost before = dispatcher;
        let ghost intent = self;
        let ghost given = input;
        let registered = self.register_into(&mut dispatcher);
        let answer = dispatcher.dispatch("llm.summary", input);
        proof {
            law_register_then_dispatch(
                before,
                &intent,
                "llm.summary"@,
                dispatcher,
                registered,
                given,
                answer,
            );
        }
        answer
    }
}

impl<B: LlmBackend + ?Sized> Intent for Summary<B> {
    open spec fn states_path(&self) -> bool {
        true
    }

    open spec fn spec_path(&self) -> Seq<char> {
        "llm.summary"@
    }

    /// Without text to summarise, the error [`missing_input_message`];
    /// otherwise the outcome of a reply the backend may give to the prompt
    /// built from the context and the trimmed text.
    open spec fn executes(&self, input: IntentInput, result: IntentResult) -> bool {
        match summary_source(input.data) {
            None => {
                &&& result.status == ExecutionStatus::Error
                &&& result.result is None
                &&& result.error matches Some(m) && m@ == missing_input_message()
            },
            Some(t) => exists|reply: Result<Seq<char>, Seq<char>>|
                {
                    &&& self.backend().replies(prompt_text(self.context(), t), reply)
                    &&& reply_outcome(result, reply)
                },
        }
    }

    fn name(&self) -> (r: &'static str)
        ensures
            r@ == "summary"@,
    {
        "summary"
    }

    fn path(&self) -> (r: &'static str)
        ensures
            r@ == "llm.summary"@,
    {
        "llm.summary"
    }

    fn description(&self) -> (r: &'static str)
        ensures
            r@ == "Summarize a block of text using an LLM backend."@,
    {
        "Summarize a block of text using an LLM backend."
    }

    /// Without text to summarise, fails with [`missing_input_message`];
    /// otherwise hands the prompt to the backend and answers its reply as
    /// [`Summary::outcome`] does.
    fn execute(&self, input: IntentInput) -> (r: IntentResult)
        ensures
            summary_source(input.data) is None ==> {
                &&& r.status == ExecutionStatus::Error
                &&& r.result is None
                &&& r.error matches Some(m) && m@ == missing_input_message()
            },
            summary_source(input.data) matches Some(t) ==> exists|
                reply: Result<Seq<char>, Seq<char>>,
            |
                {
                    &&& self.backend().replies(prompt_text(self.context(), t), reply)
                    &&& reply_outcome(r, reply)
                },
            r.well_formed(),
    {
        match self.prompt(&input) {
            Some(prompt) => {
                let reply = self.backend.generate(prompt.as_str());
                Summary::<B>::outcome(reply)
            },
            None => IntentResult::failure(
                "Missing input for llm.summary: provide text via data".to_owned(),
            ),
        }
    }
}

} // verus!
