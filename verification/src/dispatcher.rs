//! Routing of requests to registered intents by path.
use vstd::prelude::*;

use crate::intent::Intent;
use crate::types::{CoreError, IntentInput, IntentResult};

verus! {

/// The message of a refused registration of `path`.
pub open spec fn already_registered_message(path: Seq<char>) -> Seq<char> {
    "Intent '"@ + path + "' already registered"@
}

/// What registering `path` does to the registered paths `before`: a new path
/// is appended and the call succeeds; a path already present is refused with
/// [`already_registered_message`] and nothing changes.
pub open spec fn register_outcome(
    before: Seq<Seq<char>>,
    path: Seq<char>,
    after: Seq<Seq<char>>,
    r: Result<(), String>,
) -> bool {
    if before.contains(path) {
        &&& after == before
        &&& r matches Err(m) && m@ == already_registered_message(path)
    } else {
        &&& after == before.push(path)
        &&& r is Ok
    }
}

/// What dispatching `path` against the registered paths `registered` answers,
/// as far as the library decides it: a missing path gives `IntentNotFound`
/// carrying that path; a present path gives `Ok` (what it holds is said by
/// [`Dispatcher::answers`]).
pub open spec fn dispatch_outcome(
    registered: Seq<Seq<char>>,
    path: Seq<char>,
    r: Result<IntentResult, CoreError>,
) -> bool {
    if registered.contains(path) {
        r is Ok
    } else {
        r matches Err(CoreError::IntentNotFound { path: p }) && p@ == path
    }
}

/// Registering an intent under a path that is not registered succeeds;
/// afterwards that path and every path registered before are registered, and
/// dispatching that path answers `Ok` with a result of that very intent
/// (whatever status the intent reports). The clauses on `after` and `answer`
/// are what [`Dispatcher::register`] (with `path` the path it registers under)
/// and [`Dispatcher::dispatch`] ensure.
pub proof fn law_register_then_dispatch<I: Intent + ?Sized>(
    before: Dispatcher,
    intent: &I,
    path: Seq<char>,
    after: Dispatcher,
    r: Result<(), String>,
    input: IntentInput,
    answer: Result<IntentResult, CoreError>,
)
    requires
        !before@.contains(path),
        register_outcome(before@, path, after@, r),
        r is Ok ==> forall|i: IntentInput, res: IntentResult|
            #[trigger] after.answers(path, i, res) <==> intent.executes(i, res),
        dispatch_outcome(after@, path, answer),
        after@.contains(path) ==> (answer matches Ok(res) && after.answers(path, input, res)),
    ensures
        r is Ok,
        after@.contains(path),
        forall|q: Seq<char>| before@.contains(q) ==> after@.contains(q),
        answer matches Ok(res) && intent.executes(input, res),
{
    assert(after@[before@.len() as int] == path);
    assert forall|q: Seq<char>| before@.contains(q) implies after@.contains(q) by {
        let k: int = choose|k: int| 0 <= k < before@.len() && before@[k] == q;
        assert(after@[k] == q);
    }
}

/// Registering under one path leaves what every other path answers as it was.
pub proof fn law_register_keeps_other_paths(
    before: Dispatcher,
    path: Seq<char>,
    after: Dispatcher,
    r: Result<(), String>,
    other: Seq<char>,
    input: IntentInput,
    answer: Result<IntentResult, CoreError>,
)
    requires
        other != path,
        register_outcome(before@, path, after@, r),
        forall|q: Seq<char>, i: IntentInput, res: IntentResult|
            (r is Err || q != path) ==> (#[trigger] after.answers(q, i, res) <==> before.answers(
                q,
                i,
                res,
            )),
        dispatch_outcome(after@, other, answer),
        after@.contains(other) ==> (answer matches Ok(res) && after.answers(other, input, res)),
    ensures
        before@.contains(other) <==> after@.contains(other),
        before@.contains(other) ==> (answer matches Ok(res) && before.answers(other, input, res)),
        !before@.contains(other) ==> (answer matches Err(CoreError::IntentNotFound { path: p })
            && p@ == other),
{
    if before@.contains(other) {
        let k: int = choose|k: int| 0 <= k < before@.len() && before@[k] == other;
        if !before@.contains(path) {
            assert(after@[k] == other);
        }
    }
    if after@.contains(other) && !before@.contains(path) {
        let k: int = choose|k: int| 0 <= k < after@.len() && after@[k] == other;
        assert(k != before@.len());
        assert(before@[k] == other);
    }
}

/// Paths, not names, are the keys: two registrations under different paths
/// that were both free both succeed, in order, whatever the intents' names.
pub proof fn law_distinct_paths_both_register(
    s0: Seq<Seq<char>>,
    first: Seq<char>,
    s1: Seq<Seq<char>>,
    r1: Result<(), String>,
    second: Seq<char>,
    s2: Seq<Seq<char>>,
    r2: Result<(), String>,
)
    requires
        first != second,
        !s0.contains(first),
        !s0.contains(second),
        register_outcome(s0, first, s1, r1),
        register_outcome(s1, second, s2, r2),
    ensures
        r1 is Ok,
        r2 is Ok,
        s2 == s0.push(first).push(second),
{
    if s1.contains(second) {
        let k: int = choose|k: int| 0 <= k < s1.len() && s1[k] == second;
        if k < s0.len() {
            assert(s0[k] == second);
        }
    }
}

/// Registering a path that is already registered is refused with
/// `"Intent '<path>' already registered"` and changes nothing.
pub proof fn law_duplicate_refused(
    before: Seq<Seq<char>>,
    path: Seq<char>,
    after: Seq<Seq<char>>,
    r: Result<(), String>,
)
    requires
        before.contains(path),
        register_outcome(before, path, after, r),
    ensures
        r matches Err(m) && m@ == already_registered_message(path),
        after == before,
{
}

/// Of two registrations of the same path in a row, the second is refused.
pub proof fn law_register_twice(
    s0: Seq<Seq<char>>,
    path: Seq<char>,
    s1: Seq<Seq<char>>,
    r1: Result<(), String>,
    s2: Seq<Seq<char>>,
    r2: Result<(), String>,
)
    requires
        register_outcome(s0, path, s1, r1),
        register_outcome(s1, path, s2, r2),
    ensures
        r2 is Err,
        s2 == s1,
        s1.contains(path),
{
    if !s0.contains(path) {
        assert(s1[s0.len() as int] == path);
    }
}

/// Registration never puts one path twice in the dispatcher.
pub proof fn law_paths_stay_unique(
    before: Seq<Seq<char>>,
    path: Seq<char>,
    after: Seq<Seq<char>>,
    r: Result<(), String>,
)
    requires
        before.no_duplicates(),
        register_outcome(before, path, after, r),
    ensures
        after.no_duplicates(),
{
    if !before.contains(path) {
        assert forall|a: int, b: int| 0 <= a < b < after.len() implies after[a] != after[b] by {
            if b == before.len() {
                assert(after[a] == before[a]);
            }
        }
    }
}

/// Dispatching a path that no intent is registered under answers
/// `IntentNotFound` carrying that path.
pub proof fn law_unregistered_not_found(
    registered: Seq<Seq<char>>,
    path: Seq<char>,
    answer: Result<IntentResult, CoreError>,
)
    requires
        !registered.contains(path),
        dispatch_outcome(registered, path, answer),
    ensures
        answer matches Err(CoreError::IntentNotFound { path: p }) && p@ == path,
{
}

/// Some entry of `entries` has the path `path` and an intent that may give
/// `result` for `input`.
spec fn entries_answer(
    entries: Seq<(String, Box<dyn Intent>)>,
    path: Seq<char>,
    input: IntentInput,
    result: IntentResult,
) -> bool {
    exists|k: int|
        0 <= k < entries.len() && entries[k].0@ == path && #[trigger] entries[k].1.executes(
            input,
            result,
        )
}

/// Routes incoming requests to the registered intent of the same path.
///
/// Intents are kept in registration order with their paths; no path occurs twice.
pub struct Dispatcher {
    intents: Vec<(String, Box<dyn Intent>)>,
}

impl View for Dispatcher {
    type V = Seq<Seq<char>>;

    /// The registered paths, in registration order.
    closed spec fn view(&self) -> Seq<Seq<char>> {
        Seq::new(self.intents@.len(), |i: int| self.intents@[i].0@)
    }
}

impl Dispatcher {
    #[verifier::type_invariant]
    closed spec fn paths_unique(&self) -> bool {
        self@.no_duplicates()
    }

    /// Creates an empty dispatcher with no registered intents.
    pub fn new() -> (d: Dispatcher)
        ensures
            d@ == Seq::<Seq<char>>::empty(),
    {
        let d = Dispatcher { intents: Vec::new() };
        assert(d@ =~= Seq::<Seq<char>>::empty());
        d
    }

    /// The index under which `path` is registered, if it is.
    pub fn position(&self, path: &str) -> (r: Option<usize>)
        ensures
            r matches Some(i) ==> i < self@.len() && self@[i as int] == path@,
            r is None ==> !self@.contains(path@),
    {
        let key = path.to_owned();
        let mut i: usize = 0;
        while i < self.intents.len()
            invariant
                i <= self.intents@.len(),
                key@ == path@,
                forall|k: int| 0 <= k < i ==> self@[k] != path@,
            decreases self.intents.len() - i,
        {
            if self.intents[i].0 == key {
                return Some(i);
            }
            i = i + 1;
        }
        None
    }

    /// `result` is a result that the intent registered under `path` may give
    /// for `input`; false for a path that is not registered.
    pub closed spec fn answers(&self, path: Seq<char>, input: IntentInput, result: IntentResult) -> bool {
        entries_answer(self.intents@, path, input, result)
    }

    /// The intent registered under `path`, if there is one: exactly the results
    /// it may give are the results the dispatcher answers for `path`.
    pub fn intent_for(&self, path: &str) -> (r: Option<&Box<dyn Intent>>)
        ensures
            r is None <==> !self@.contains(path@),
            r matches Some(b) ==> forall|input: IntentInput, result: IntentResult|
                #[trigger] b.executes(input, result) <==> self.answers(path@, input, result),
    {
        proof {
            use_type_invariant(self);
        }
        match self.position(path) {
            Some(i) => {
                let b = &self.intents[i].1;
                assert forall|input: IntentInput, result: IntentResult|
                    #[trigger] b.executes(input, result) <==> self.answers(path@, input, result) by {
                    if self.answers(path@, input, result) {
                        let k = choose|k: int|
                            0 <= k < self.intents@.len() && self.intents@[k].0@ == path@
                                && #[trigger] self.intents@[k].1.executes(input, result);
                        assert(self@[k] == self@[i as int]);
                    }
                    if b.executes(input, result) {
                        assert(self.intents@[i as int].0@ == self@[i as int]);
                    }
                }
                Some(b)
            },
            None => None,
        }
    }

    /// Adds `entry` (a path and its intent) unless its path is taken.
    pub(crate) fn register_entry(&mut self, entry: (String, Box<dyn Intent>)) -> (r: Result<(), String>)
        ensures
            register_outcome(old(self)@, entry.0@, final(self)@, r),
            final(self)@.no_duplicates(),
            r is Ok ==> forall|input: IntentInput, result: IntentResult|
                #[trigger] final(self).answers(entry.0@, input, result) <==> entry.1.executes(
                    input,
                    result,
                ),
            forall|p: Seq<char>, input: IntentInput, result: IntentResult|
                (r is Err || p != entry.0@) ==> (#[trigger] final(self).answers(p, input, result)
                    <==> old(self).answers(p, input, result)),
    {
        proof {
            use_type_invariant(&*self);
        }
        match self.position(entry.0.as_str()) {
            Some(_) => {
                let mut msg = String::new();
                msg.append("Intent '");
                msg.append(entry.0.as_str());
                msg.append("' already registered");
                Err(msg)
            },
            None => {
                let ghost before = self@;
                let ghost p = entry.0@;
                let ghost given = entry;
                let mut intents = Vec::new();
                std::mem::swap(&mut intents, &mut self.intents);
                assert(before =~= Seq::new(intents@.len(), |i: int| intents@[i].0@));
                let ghost old_intents = intents@;
                intents.push(entry);
                let ghost n = old_intents.len() as int;
                assert(intents@.len() == n + 1);
                assert(intents@[n] == given);
                assert(forall|i: int| 0 <= i < n ==> intents@[i] == old_intents[i]);
                assert(Seq::new(intents@.len(), |i: int| intents@[i].0@) =~= before.push(p));
                assert(before.push(p).no_duplicates()) by {
                    assert forall|a: int, b: int|
                        0 <= a < b < before.len() + 1 implies before.push(p)[a] != before.push(p)[b] by {
                        if b == before.len() {
                            assert(before[a] == before.push(p)[a]);
                        }
                    }
                }
                assert forall|q: Seq<char>, input: IntentInput, result: IntentResult|
                    q != p implies (entries_answer(intents@, q, input, result)
                    <==> entries_answer(old_intents, q, input, result)) by {
                    if entries_answer(intents@, q, input, result) {
                        let k = choose|k: int|
                            0 <= k < intents@.len() && intents@[k].0@ == q
                                && #[trigger] intents@[k].1.executes(input, result);
                        assert(k != n);
                        assert(old_intents[k] == intents@[k]);
                    }
                    if entries_answer(old_intents, q, input, result) {
                        let k = choose|k: int|
                            0 <= k < old_intents.len() && old_intents[k].0@ == q
                                && #[trigger] old_intents[k].1.executes(input, result);
                        assert(old_intents[k] == intents@[k]);
                    }
                }
                assert forall|input: IntentInput, result: IntentResult|
                    entries_answer(intents@, p, input, result) <==> given.1.executes(input, result) by {
                    if entries_answer(intents@, p, input, result) {
                        let k = choose|k: int|
                            0 <= k < intents@.len() && intents@[k].0@ == p
                                && #[trigger] intents@[k].1.executes(input, result);
                        if k != n {
                            assert(old_intents[k] == intents@[k]);
                            assert(before[k] == p);
                        }
                    }
                    if given.1.executes(input, result) {
                        assert(intents@[n].1.executes(input, result));
                    }
                }
                self.intents = intents;
                Ok(())
            },
        }
    }

    /// Registers `intent` under the path `path`. Refused with
    /// `"Intent '<path>' already registered"` when the path is taken.
    pub fn register_path(&mut self, path: String, intent: Box<dyn Intent>) -> (r:
        Result<(), String>)
        ensures
            register_outcome(old(self)@, path@, final(self)@, r),
            final(self)@.no_duplicates(),
            r is Ok ==> forall|input: IntentInput, result: IntentResult|
                #[trigger] final(self).answers(path@, input, result) <==> intent.executes(
                    input,
                    result,
                ),
            forall|p: Seq<char>, input: IntentInput, result: IntentResult|
                (r is Err || p != path@) ==> (#[trigger] final(self).answers(p, input, result)
                    <==> old(self).answers(p, input, result)),
    {
        let entry = (path, intent);
        self.register_entry(entry)
    }

    /// Registers an intent under its own [`path`](Intent::path). Refused when an
    /// intent with the same path is already registered.
    ///
    /// The path is the one the intent's `path` returns: for an intent that
    /// states its path, [`Intent::spec_path`].
    pub fn register(&mut self, intent: Box<dyn Intent>) -> (r: Result<(), String>)
        ensures
            intent.states_path() ==> register_outcome(old(self)@, intent.spec_path(), final(self)@, r),
            exists|p: Seq<char>|
                {
                    &&& intent.states_path() ==> p == intent.spec_path()
                    &&& register_outcome(old(self)@, p, final(self)@, r)
                    &&& r is Ok ==> forall|input: IntentInput, result: IntentResult|
                        #[trigger] final(self).answers(p, input, result) <==> intent.executes(
                            input,
                            result,
                        )
                    &&& forall|q: Seq<char>, input: IntentInput, result: IntentResult|
                        (r is Err || q != p) ==> (#[trigger] final(self).answers(q, input, result)
                            <==> old(self).answers(q, input, result))
                },
            final(self)@.no_duplicates(),
    {
        let path = intent.path().to_owned();
        let ghost p = path@;
        let entry = (path, intent);
        let r = self.register_entry(entry);
        assert(intent.states_path() ==> p == intent.spec_path());
        r
    }

    /// Registers an intent of a known type under its own
    /// [`path`](Intent::path); as [`Dispatcher::register`].
    ///
    /// For an intent that states its path, the caller learns the path it is
    /// registered under. What the new path answers is not stated here: once the
    /// intent is stored as a `dyn Intent`, its `executes` is no longer tied to
    /// that of `I` (see [`Summary::register_into`](crate::infras::llm::summary::summary::Summary::register_into)
    /// for an intent whose type is known).
    pub fn register_intent<I: Intent + 'static>(&mut self, intent: Box<I>) -> (r: Result<
        (),
        String,
    >)
        ensures
            intent.states_path() ==> register_outcome(old(self)@, intent.spec_path(), final(self)@, r),
            exists|p: Seq<char>| register_outcome(old(self)@, p, final(self)@, r),
            intent.states_path() ==> forall|q: Seq<char>, input: IntentInput, result: IntentResult|
                (r is Err || q != intent.spec_path()) ==> (#[trigger] final(self).answers(
                    q,
                    input,
                    result,
                ) <==> old(self).answers(q, input, result)),
            final(self)@.no_duplicates(),
    {
        let path = intent.path().to_owned();
        let ghost p = path@;
        let b: Box<dyn Intent> = intent;
        let entry = (path, b);
        self.register_entry(entry)
    }

    /// Dispatches a request to the intent registered at `path`.
    ///
    /// Returns `IntentNotFound` when no intent is registered under `path`;
    /// intent-level errors come back inside `Ok`, not as `Err`.
    pub fn dispatch(&self, path: &str, input: IntentInput) -> (r: Result<IntentResult, CoreError>)
        ensures
            dispatch_outcome(self@, path@, r),
            self@.contains(path@) ==> (r matches Ok(res) && self.answers(path@, input, res)),
    {
        match self.intent_for(path) {
            Some(intent) => {
                let ghost given = input;
                let res = intent.execute(input);
                assert(self.answers(path@, given, res));
                Ok(res)
            },
            None => Err(CoreError::IntentNotFound { path: path.to_owned() }),
        }
    }
}

} // verus!
