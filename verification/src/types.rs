//! The input and output types shared by all intents.
use vstd::prelude::*;

use crate::json::{
    entries_text, escape_char, escaped, json_quoted, json_text, model, quote, write_json, Json,
    JsonValue,
};

verus! {

/// Whether an intent execution completed successfully.
#[derive(Debug, Clone, Copy, PartialEq, Eq, Structural)]
pub enum ExecutionStatus {
    /// The intent ran to completion without errors.
    Success,
    /// The intent encountered an error; see [`IntentResult::error`].
    Error,
}

/// Input passed to an intent at execution time.
#[derive(Debug, Clone)]
pub struct IntentInput {
    /// Primary payload (a search query, a directory path, a text); `None` when absent.
    pub data: Option<String>,
    /// Additional flags and positional arguments, in order.
    pub args: Vec<String>,
}

/// The outcome of a single intent execution.
#[derive(Debug, PartialEq)]
pub struct IntentResult {
    /// Whether the intent succeeded or failed.
    pub status: ExecutionStatus,
    /// Intent-specific payload, present when `status` is `Success`.
    pub result: Option<JsonValue>,
    /// Human-readable error message, present when `status` is `Error`.
    pub error: Option<String>,
}

impl Clone for IntentResult {
    /// A copy with the same status, the same payload model and the same message.
    fn clone(&self) -> (r: IntentResult)
        ensures
            r.status == self.status,
            match (r.result, self.result) {
                (Some(a), Some(b)) => model(a) == model(b),
                (None, None) => true,
                _ => false,
            },
            match (r.error, self.error) {
                (Some(a), Some(b)) => a@ == b@,
                (None, None) => true,
                _ => false,
            },
    {
        let result = match &self.result {
            Some(v) => Some(v.clone()),
            None => None,
        };
        let error = match &self.error {
            Some(e) => Some(e.clone()),
            None => None,
        };
        IntentResult { status: self.status, result, error }
    }
}

/// Errors of the dispatching infrastructure itself, distinct from intent-level
/// errors, which travel inside an [`IntentResult`].
#[derive(Debug, Clone, PartialEq)]
pub enum CoreError {
    /// No intent is registered under the given path.
    IntentNotFound { path: String },
}

/// The name under which a status is serialised.
pub open spec fn status_name(s: ExecutionStatus) -> Seq<char> {
    match s {
        ExecutionStatus::Success => "Ok"@,
        ExecutionStatus::Error => "Error"@,
    }
}

/// The JSON envelope of a result: `status` always, `result` and `error`
/// only when present, in that order.
pub open spec fn envelope_text(r: IntentResult) -> Seq<char> {
    "{\"status\":"@ + json_quoted(status_name(r.status)) + match r.result {
        Some(v) => ",\"result\":"@ + json_text(model(v)),
        None => Seq::empty(),
    } + match r.error {
        Some(e) => ",\"error\":"@ + json_quoted(e@),
        None => Seq::empty(),
    } + "}"@
}

/// The JSON object a result serialises to: `status` always, then `result`
/// and `error` when present.
pub open spec fn envelope_json(r: IntentResult) -> Json {
    Json::Object(
        seq![("status"@, Json::Str(status_name(r.status)))] + match r.result {
            Some(v) => seq![("result"@, model(v))],
            None => Seq::empty(),
        } + match r.error {
            Some(e) => seq![("error"@, Json::Str(e@))],
            None => Seq::empty(),
        },
    )
}

/// A text with no quote, backslash or control character is written as it is.
proof fn lemma_escaped_plain(s: Seq<char>)
    requires
        forall|k: int|
            0 <= k < s.len() ==> s[k] != '"' && s[k] != '\\' && (s[k] as u32) >= 0x20,
    ensures
        escaped(s) == s,
    decreases s.len(),
{
    if s.len() > 0 {
        lemma_escaped_plain(s.drop_last());
        assert(escape_char(s.last()) == seq![s.last()]);
        assert(s.drop_last().push(s.last()) =~= s);
    }
}

/// The quoted member names of the envelope.
proof fn lemma_member_names()
    ensures
        json_quoted("status"@) =~= seq!['"', 's', 't', 'a', 't', 'u', 's', '"'],
        json_quoted("result"@) =~= seq!['"', 'r', 'e', 's', 'u', 'l', 't', '"'],
        json_quoted("error"@) =~= seq!['"', 'e', 'r', 'r', 'o', 'r', '"'],
{
    reveal_strlit("status");
    reveal_strlit("result");
    reveal_strlit("error");
    lemma_escaped_plain("status"@);
    lemma_escaped_plain("result"@);
    lemma_escaped_plain("error"@);
}

/// The envelope is the compact JSON text of an object whose members are
/// `status` (`"Ok"` or `"Error"`), then `result` exactly when the result has
/// a payload, then `error` exactly when it has a message, with those values.
pub proof fn law_envelope_is_json_object(r: IntentResult)
    ensures
        envelope_text(r) == json_text(envelope_json(r)),
{
    lemma_member_names();
    reveal_strlit("{\"status\":");
    reveal_strlit(",\"result\":");
    reveal_strlit(",\"error\":");
    reveal_strlit("}");
    let es = envelope_json(r)->Object_0;
    let status = json_quoted("status"@) + seq![':'] + json_text(Json::Str(status_name(r.status)));
    assert(entries_text(es, 1) == status);
    let with_result = match r.result {
        Some(v) => status + seq![','] + json_quoted("result"@) + seq![':'] + json_text(model(v)),
        None => status,
    };
    let n1: nat = if r.result is Some { 2 } else { 1 };
    assert(entries_text(es, n1) == with_result);
    let all = match r.error {
        Some(e) => with_result + seq![','] + json_quoted("error"@) + seq![':'] + json_text(
            Json::Str(e@),
        ),
        None => with_result,
    };
    assert(es.len() == n1 + if r.error is Some { 1nat } else { 0nat });
    assert(entries_text(es, es.len()) == all);
    assert("{\"status\":"@ =~= seq!['{'] + seq!['"', 's', 't', 'a', 't', 'u', 's', '"'] + seq![':']);
    assert(",\"result\":"@ =~= seq![','] + seq!['"', 'r', 'e', 's', 'u', 'l', 't', '"'] + seq![':']);
    assert(",\"error\":"@ =~= seq![','] + seq!['"', 'e', 'r', 'r', 'o', 'r', '"'] + seq![':']);
    assert("}"@ =~= seq!['}']);
    let res_part = match r.result {
        Some(v) => ",\"result\":"@ + json_text(model(v)),
        None => Seq::<char>::empty(),
    };
    let err_part = match r.error {
        Some(e) => ",\"error\":"@ + json_quoted(e@),
        None => Seq::<char>::empty(),
    };
    assert(with_result =~= status + res_part);
    assert(all =~= status + res_part + err_part);
    assert(envelope_text(r) =~= seq!['{'] + all + seq!['}']);
}

impl IntentResult {
    /// The shape the library's own intents keep: an error carries a message and
    /// no payload, a success carries no message.
    pub open spec fn well_formed(&self) -> bool {
        &&& self.status == ExecutionStatus::Success ==> self.error is None
        &&& self.status == ExecutionStatus::Error ==> self.result is None && self.error is Some
    }

    /// A successful result carrying `value`.
    pub fn success(value: JsonValue) -> (r: IntentResult)
        ensures
            r.status == ExecutionStatus::Success,
            r.result == Some(value),
            r.error is None,
            r.well_formed(),
    {
        IntentResult { status: ExecutionStatus::Success, result: Some(value), error: None }
    }

    /// A failed result carrying the message `message`.
    pub fn failure(message: String) -> (r: IntentResult)
        ensures
            r.status == ExecutionStatus::Error,
            r.result is None,
            r.error == Some(message),
            r.well_formed(),
    {
        IntentResult { status: ExecutionStatus::Error, result: None, error: Some(message) }
    }

    /// Serialises this result to its JSON envelope, e.g.
    /// `{"status":"Ok","result":{"data":"..."}}` or `{"status":"Error","error":"..."}`.
    pub fn to_json(&self) -> (r: String)
        ensures
            r@ == envelope_text(*self),
            r@ == json_text(envelope_json(*self)),
    {
        proof {
            law_envelope_is_json_object(*self);
        }
        let mut out = String::new();
        out.append("{\"status\":");
        let status = match self.status {
            ExecutionStatus::Success => quote("Ok"),
            ExecutionStatus::Error => quote("Error"),
        };
        out.append(status.as_str());
        let ghost head = out@;
        match &self.result {
            Some(v) => {
                out.append(",\"result\":");
                write_json(v, &mut out);
            },
            None => {},
        }
        assert(out@ =~= head + match self.result {
            Some(v) => ",\"result\":"@ + json_text(model(v)),
            None => Seq::<char>::empty(),
        });
        let ghost middle = out@;
        match &self.error {
            Some(e) => {
                out.append(",\"error\":");
                let q = quote(e.as_str());
                out.append(q.as_str());
            },
            None => {},
        }
        assert(out@ =~= middle + match self.error {
            Some(e) => ",\"error\":"@ + json_quoted(e@),
            None => Seq::<char>::empty(),
        });
        out.append("}");
        out
    }
}

} // verus!
