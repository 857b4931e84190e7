//! The interface to a text-generating model, and the request format of an
//! Ollama server.
use vstd::prelude::*;

pub mod ollama;

verus! {

/// A text-generating model. The trait is for users to implement: each
/// implementation says, through [`LlmBackend::replies`], which replies it may
/// give to a prompt.
pub trait LlmBackend: Send + Sync {
    /// `reply` is a reply this backend may give to `prompt`: the generated text
    /// (`Ok`) or a message saying why there is none (`Err`). True of every
    /// reply unless the implementation says otherwise.
    open spec fn replies(&self, prompt: Seq<char>, reply: Result<Seq<char>, Seq<char>>) -> bool {
        true
    }

    /// The model's reply to `prompt`, or a message saying why there is none.
    fn generate(&self, prompt: &str) -> (r: Result<String, String>)
        ensures
            self.replies(
                prompt@,
                match r {
                    Ok(t) => Ok(t@),
                    Err(e) => Err(e@),
                },
            ),
    ;
}

} // verus!
