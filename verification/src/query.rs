//! The query builder: text and bindings driven in lockstep, and handed out
//! together at the end.

use crate::bindings::Bindings;
use crate::text::{is_open_ended, lemma_appends_keep_prefix, placeholder, placeholder_of, spaced};
use vstd::prelude::*;

verus! {

/// What a query under construction amounts to: the text written so far and
/// the value bound to each parameter name.
#[verifier::ext_equal]
pub struct QueryState<B> {
    pub text: Seq<char>,
    pub bindings: Map<Seq<char>, B>,
}

impl<B> QueryState<B> {
    /// No text, nothing bound.
    pub open spec fn empty() -> Self {
        QueryState { text: Seq::empty(), bindings: Map::empty() }
    }

    /// `fragment` glued to the end of the text as it is; bindings untouched.
    pub open spec fn add_raw(self, fragment: Seq<char>) -> Self {
        QueryState { text: self.text + fragment, bindings: self.bindings }
    }

    /// `fragment` appended with a single separating space in front where the
    /// text needs one, and one trailing space in any case; bindings untouched.
    pub open spec fn add_raw_ensuring_spaces(self, fragment: Seq<char>) -> Self {
        QueryState { text: spaced(self.text, fragment), bindings: self.bindings }
    }

    /// `value` stored under `name`, in place of whatever `name` was bound to;
    /// text untouched.
    pub open spec fn bind(self, name: Seq<char>, value: B) -> Self {
        QueryState { text: self.text, bindings: self.bindings.insert(name, value) }
    }

    /// The placeholder of `name` glued to the text, and `value` bound to
    /// `name`.
    pub open spec fn add_parameter(self, name: Seq<char>, value: B) -> Self {
        self.add_raw(placeholder(name)).bind(name, value)
    }

    /// The placeholder of `name` appended with normalized spacing, and
    /// `value` bound to `name`.
    pub open spec fn add_parameter_ensuring_spaces(self, name: Seq<char>, value: B) -> Self {
        self.add_raw_ensuring_spaces(placeholder(name)).bind(name, value)
    }
}

/// A query building primitive: the query string grows fragment by fragment,
/// and the values of its parameters are kept beside it instead of in it.
///
/// `B` is the type of a bound value. The builder stores such values and
/// hands them back; it never looks inside one. It owns what it is given:
/// where `B` borrows from the caller (a reference, or a box around one), the
/// builder and what it hands out live no longer than what is borrowed.
#[derive(Debug)]
pub struct Query<B> {
    bindings: Bindings<B>,
    sql: String,
}

impl<B> View for Query<B> {
    type V = QueryState<B>;

    closed spec fn view(&self) -> QueryState<B> {
        QueryState { text: self.sql@, bindings: self.bindings@ }
    }
}

impl<B> Default for Query<B> {
    /// A builder with no text and no bindings.
    fn default() -> (query: Self)
        ensures
            query@ == QueryState::<B>::empty(),
    {
        Query { bindings: Bindings::new(), sql: String::new() }
    }
}

impl<B> Query<B> {
    /// Adds a raw substring to the query string, exactly as given.
    pub fn add_raw(&mut self, raw: &str)
        ensures
            final(self)@ == old(self)@.add_raw(raw@),
    {
        self.sql.append(raw);
    }

    /// Adds a raw substring, making sure that a space separates it from what
    /// is already there, and leaves one space behind it.
    pub fn add_raw_ensuring_spaces(&mut self, raw: &str)
        ensures
            final(self)@ == old(self)@.add_raw_ensuring_spaces(raw@),
    {
        proof {
            reveal_strlit(" ");
        }
        if is_open_ended(self.sql.as_str()) {
            self.add_raw(" ");
        }
        self.add_raw(raw);
        self.add_raw(" ");
    }

    /// Adds a parameter to the query: its placeholder goes into the query
    /// string, its value into the bindings.
    pub fn add_parameter(&mut self, name: &str, value: B)
        ensures
            final(self)@ == old(self)@.add_parameter(name@, value),
    {
        let param = placeholder_of(name);
        self.add_raw(param.as_str());
        self.bindings.bind(String::from_str(name), value);
    }

    /// Adds a parameter to the query, making sure that spaces separate its
    /// placeholder from what is already there and from what follows.
    pub fn add_parameter_ensuring_spaces(&mut self, name: &str, value: B)
        ensures
            final(self)@ == old(self)@.add_parameter_ensuring_spaces(name@, value),
    {
        let param = placeholder_of(name);
        self.add_raw_ensuring_spaces(param.as_str());
        self.bindings.bind(String::from_str(name), value);
    }

    /// Splits the query into its string and its bindings, consuming it in the
    /// process.
    pub fn split(self) -> (parts: (String, Bindings<B>))
        ensures
            parts.0@ == self@.text,
            parts.1@ == self@.bindings,
    {
        (self.sql, self.bindings)
    }
}

/// A raw append, plain or spaced, extends the text by what it is given and
/// leaves every binding as it was.
pub proof fn lemma_raw_appends<B>(state: QueryState<B>, fragment: Seq<char>)
    ensures
        state.add_raw(fragment).text == state.text + fragment,
        state.add_raw(fragment).bindings == state.bindings,
        state.add_raw_ensuring_spaces(fragment).text == spaced(state.text, fragment),
        state.add_raw_ensuring_spaces(fragment).bindings == state.bindings,
{
}

/// Adding a parameter writes exactly the dollar sign and the name into the
/// text, glued or spaced, and afterwards the name is bound to the value
/// given. No other name gains, loses or changes its binding.
pub proof fn lemma_parameter_shape<B>(state: QueryState<B>, name: Seq<char>, value: B)
    ensures
        state.add_parameter(name, value).text == state.text + seq!['$'] + name,
        state.add_parameter_ensuring_spaces(name, value).text == spaced(
            state.text,
            seq!['$'] + name,
        ),
        state.add_parameter(name, value).bindings == state.add_parameter_ensuring_spaces(
            name,
            value,
        ).bindings,
        state.add_parameter(name, value).bindings.contains_key(name),
        state.add_parameter(name, value).bindings[name] == value,
        forall|other: Seq<char>|
            other != name ==> (#[trigger] state.add_parameter(name, value).bindings.contains_key(
                other,
            ) <==> state.bindings.contains_key(other)),
        forall|other: Seq<char>|
            other != name && state.bindings.contains_key(other) ==> #[trigger] state.add_parameter(
                name,
                value,
            ).bindings[other] == state.bindings[other],
{
    assert(state.text + placeholder(name) =~= state.text + seq!['$'] + name);
}

/// Binding a name a second time overwrites the first value and nothing else:
/// both placeholders stay in the text, each where it was written, with
/// whatever was written between them, and the bindings are those of a query
/// that only ever saw the second value.
pub proof fn lemma_rebinding_overwrites<B>(
    state: QueryState<B>,
    name: Seq<char>,
    first: B,
    between: Seq<char>,
    second: B,
)
    ensures
        ({
            let twice = state.add_parameter(name, first).add_raw(between).add_parameter(
                name,
                second,
            );
            &&& twice.text == state.text + placeholder(name) + between + placeholder(name)
            &&& twice.bindings[name] == second
            &&& twice.bindings == state.bindings.insert(name, second)
            &&& twice.bindings == state.add_parameter(name, second).bindings
        }),
{
    let twice = state.add_parameter(name, first).add_raw(between).add_parameter(name, second);
    assert(twice.bindings =~= state.bindings.insert(name, second));
}

/// No operation takes anything back: the text before it is a prefix of the
/// text after it, and every name bound before it is bound after it.
pub proof fn lemma_operations_only_add<B>(
    state: QueryState<B>,
    fragment: Seq<char>,
    name: Seq<char>,
    value: B,
)
    ensures
        state.text.is_prefix_of(state.add_raw(fragment).text),
        state.text.is_prefix_of(state.add_raw_ensuring_spaces(fragment).text),
        state.text.is_prefix_of(state.add_parameter(name, value).text),
        state.text.is_prefix_of(state.add_parameter_ensuring_spaces(name, value).text),
        state.bindings.dom().subset_of(state.add_raw(fragment).bindings.dom()),
        state.bindings.dom().subset_of(state.add_raw_ensuring_spaces(fragment).bindings.dom()),
        state.bindings.dom().subset_of(state.add_parameter(name, value).bindings.dom()),
        state.bindings.dom().subset_of(
            state.add_parameter_ensuring_spaces(name, value).bindings.dom(),
        ),
{
    lemma_appends_keep_prefix(state.text, fragment);
    lemma_appends_keep_prefix(state.text, placeholder(name));
}

} // verus!
