//! The pieces a statement is made of: values and identifiers.

use surrealdb::sql::Thing;
use vstd::prelude::*;
use vstd::std_specs::convert::FromSpecImpl;

verus! {

/// A record id of the database, `surrealdb::sql::Thing`. It is carried
/// through as it is; nothing here looks inside one.
#[verifier::external_type_specification]
#[verifier::external_body]
pub struct ExThing(Thing);

/// `Clone::clone` of `surrealdb::sql::Thing`, which that crate derives: the
/// copy has the table name and the id of the record id it was made from, so
/// it is the same record id.
pub assume_specification[ <Thing as Clone>::clone ](thing: &Thing) -> (copy: Thing)
    ensures
        copy == *thing,
;

/// A value inserted into a query
#[derive(Debug)]
pub enum Value<'a, B> {
    /// Text that goes into the query string as it is.
    Raw(&'a str),
    /// A value that is bound to a parameter.
    Param(B),
}

/// An identifier. Can be either a table, or a record id ([Thing])
#[derive(Debug, Clone)]
pub enum Ident<'a> {
    /// A table, by its name.
    Table(&'a str),
    /// One record, by its id.
    Record(Thing),
}

impl<'a> From<Thing> for Ident<'a> {
    fn from(value: Thing) -> (ident: Self) {
        Ident::Record(value)
    }
}

impl<'a> FromSpecImpl<Thing> for Ident<'a> {
    open spec fn obeys_from_spec() -> bool {
        true
    }

    open spec fn from_spec(value: Thing) -> Self {
        Ident::Record(value)
    }
}

impl<'a> From<&'a str> for Ident<'a> {
    fn from(value: &'a str) -> (ident: Self) {
        Ident::Table(value)
    }
}

impl<'a> FromSpecImpl<&'a str> for Ident<'a> {
    open spec fn obeys_from_spec() -> bool {
        true
    }

    open spec fn from_spec(value: &'a str) -> Self {
        Ident::Table(value)
    }
}

} // verus!
