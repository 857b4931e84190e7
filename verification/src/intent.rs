//! The trait every intent implements.
use vstd::prelude::*;

use crate::types::{IntentInput, IntentResult};

verus! {

/// The contract that all intents satisfy.
///
/// An intent is the smallest unit of executable behaviour. Each implementation
/// is identified by a dot-separated path (e.g. `"web.search"`) and carries out a
/// single action when [`execute`](Intent::execute) is called. The trait is for
/// users to implement: each implementation says, through [`Intent::spec_path`]
/// and [`Intent::executes`], which path it has and which results it may give.
pub trait Intent: Send + Sync {
    /// Whether this implementation states its path through
    /// [`Intent::spec_path`]. False unless the implementation says otherwise,
    /// so an implementation that does not state its path claims nothing.
    open spec fn states_path(&self) -> bool {
        false
    }

    /// The path this intent answers to, where [`Intent::states_path`] holds.
    open spec fn spec_path(&self) -> Seq<char> {
        Seq::empty()
    }

    /// `result` is a result this intent may give for `input`. True of every
    /// result unless the implementation says otherwise.
    open spec fn executes(&self, input: IntentInput, result: IntentResult) -> bool {
        true
    }

    /// Short, human-readable name (e.g. `"search"`); not required to be unique.
    fn name(&self) -> &'static str;

    /// Dot-separated path that identifies this intent in a dispatcher
    /// (e.g. `"web.search"`).
    fn path(&self) -> (r: &'static str)
        ensures
            self.states_path() ==> r@ == self.spec_path(),
    ;

    /// One-line description of what this intent does.
    fn description(&self) -> &'static str;

    /// Executes the intent. Failures are reported inside the returned
    /// [`IntentResult`] with status `Error`, never by panicking.
    fn execute(&self, input: IntentInput) -> (r: IntentResult)
        ensures
            self.executes(input, r),
    ;
}

} // verus!
