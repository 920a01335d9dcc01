//! Whole runs of operations on a query, and what holds after any of them.

use crate::query::{lemma_operations_only_add, QueryState};
use crate::text::{
    lemma_appended_stands, lemma_prefix_keeps_standing, open_ended, placeholder, stands_at,
};
use vstd::prelude::*;

verus! {

/// One operation on a query under construction, with what it was given.
pub enum Step<B> {
    /// A fragment, glued on as it is.
    AddRaw(Seq<char>),
    /// A fragment, set off by spaces.
    AddRawEnsuringSpaces(Seq<char>),
    /// A parameter by name and value, its placeholder glued on.
    AddParameter(Seq<char>, B),
    /// A parameter by name and value, its placeholder set off by spaces.
    AddParameterEnsuringSpaces(Seq<char>, B),
}

impl<B> Step<B> {
    /// Whether the step adds a parameter.
    pub open spec fn binds(self) -> bool {
        self is AddParameter || self is AddParameterEnsuringSpaces
    }

    /// The name of the parameter that the step adds.
    pub open spec fn name(self) -> Seq<char>
        recommends
            self.binds(),
    {
        match self {
            Step::AddParameter(name, _) => name,
            Step::AddParameterEnsuringSpaces(name, _) => name,
            _ => Seq::empty(),
        }
    }

    /// The value that the step binds to its parameter.
    pub open spec fn value(self) -> B
        recommends
            self.binds(),
    {
        match self {
            Step::AddParameter(_, value) => value,
            Step::AddParameterEnsuringSpaces(_, value) => value,
            _ => arbitrary(),
        }
    }

    /// Whether the step adds a parameter called `name`.
    pub open spec fn binds_name(self, name: Seq<char>) -> bool {
        self.binds() && self.name() == name
    }
}

impl<B> QueryState<B> {
    /// The state after one more operation.
    pub open spec fn step(self, step: Step<B>) -> Self {
        match step {
            Step::AddRaw(fragment) => self.add_raw(fragment),
            Step::AddRawEnsuringSpaces(fragment) => self.add_raw_ensuring_spaces(fragment),
            Step::AddParameter(name, value) => self.add_parameter(name, value),
            Step::AddParameterEnsuringSpaces(name, value) => self.add_parameter_ensuring_spaces(
                name,
                value,
            ),
        }
    }

    /// The state after a run of operations, first to last.
    pub open spec fn run(self, steps: Seq<Step<B>>) -> Self
        decreases steps.len(),
    {
        if steps.len() == 0 {
            self
        } else {
            self.run(steps.drop_last()).step(steps.last())
        }
    }
}

/// One operation keeps the text so far as a prefix and every bound name
/// bound.
proof fn lemma_step_only_adds<B>(state: QueryState<B>, step: Step<B>)
    ensures
        state.text.is_prefix_of(state.step(step).text),
        state.bindings.dom().subset_of(state.step(step).bindings.dom()),
{
    match step {
        Step::AddRaw(fragment) => {
            lemma_operations_only_add(state, fragment, Seq::empty(), arbitrary());
        },
        Step::AddRawEnsuringSpaces(fragment) => {
            lemma_operations_only_add(state, fragment, Seq::empty(), arbitrary());
        },
        Step::AddParameter(name, value) => {
            lemma_operations_only_add(state, Seq::empty(), name, value);
        },
        Step::AddParameterEnsuringSpaces(name, value) => {
            lemma_operations_only_add(state, Seq::empty(), name, value);
        },
    }
}

/// Whatever the run, nothing written is ever taken back and no name is ever
/// unbound: the text after the first `done` operations is a prefix of the
/// text after all of them, and every name bound by then is still bound.
pub proof fn lemma_run_only_adds<B>(state: QueryState<B>, steps: Seq<Step<B>>, done: int)
    requires
        0 <= done <= steps.len(),
    ensures
        state.run(steps.take(done)).text.is_prefix_of(state.run(steps).text),
        state.run(steps.take(done)).bindings.dom().subset_of(state.run(steps).bindings.dom()),
    decreases steps.len(),
{
    if done == steps.len() {
        assert(steps.take(done) =~= steps);
    } else {
        let earlier = steps.drop_last();
        assert(earlier.take(done) =~= steps.take(done));
        lemma_run_only_adds(state, earlier, done);
        lemma_step_only_adds(state.run(earlier), steps.last());
    }
}

/// Whatever the run, a parameter that one of its operations added is bound
/// at the end of it: a placeholder never stands in the text without a
/// binding for its name. The value is the one given last under that name.
pub proof fn lemma_run_binds_every_parameter<B>(
    state: QueryState<B>,
    steps: Seq<Step<B>>,
    at: int,
)
    requires
        0 <= at < steps.len(),
        steps[at].binds(),
    ensures
        state.run(steps).bindings.contains_key(steps[at].name()),
        (forall|later: int|
            at < later < steps.len() ==> !(#[trigger] steps[later]).binds_name(steps[at].name()))
            ==> state.run(steps).bindings[steps[at].name()] == steps[at].value(),
    decreases steps.len(),
{
    let earlier = steps.drop_last();
    let name = steps[at].name();
    if at < steps.len() - 1 {
        lemma_run_binds_every_parameter(state, earlier, at);
        if forall|later: int|
            at < later < steps.len() ==> !(#[trigger] steps[later]).binds_name(name) {
            assert(!steps[steps.len() - 1].binds_name(name));
            assert forall|later: int| at < later < earlier.len() implies !(
            #[trigger] earlier[later]).binds_name(name) by {
                assert(!steps[later].binds_name(name));
            }
        }
    }
}

/// Whatever the run, the placeholder of a parameter that one of its
/// operations added stands in the text at the end of it, behind everything
/// that was written before that operation.
pub proof fn lemma_run_keeps_every_placeholder<B>(
    state: QueryState<B>,
    steps: Seq<Step<B>>,
    at: int,
)
    requires
        0 <= at < steps.len(),
        steps[at].binds(),
    ensures
        exists|from: int|
            from >= state.run(steps.take(at)).text.len() && #[trigger] stands_at(
                state.run(steps).text,
                placeholder(steps[at].name()),
                from,
            ),
{
    let before = state.run(steps.take(at));
    let after = state.run(steps.take(at + 1));
    let token = placeholder(steps[at].name());
    assert(steps.take(at + 1).drop_last() =~= steps.take(at));
    assert(after == before.step(steps[at]));
    let from = if steps[at] is AddParameterEnsuringSpaces && open_ended(before.text) {
        before.text.len() as int + 1
    } else {
        before.text.len() as int
    };
    lemma_appended_stands(before.text, token);
    assert(stands_at(after.text, token, from));
    lemma_run_only_adds(state, steps, at + 1);
    lemma_prefix_keeps_standing(after.text, state.run(steps).text, token, from);
}

} // verus!
