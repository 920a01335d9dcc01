//! The beginning of a `SELECT` statement.

use crate::value::Ident;
use vstd::prelude::*;

verus! {

/// A `SELECT` statement under construction.
#[derive(Debug)]
pub struct Select<'a> {
    from: Option<Ident<'a>>,
}

impl<'a> Select<'a> {
    /// What the statement selects from, if that was said yet.
    pub closed spec fn source(&self) -> Option<Ident<'a>> {
        self.from
    }

    /// A statement that does not say yet what it selects from.
    pub fn new() -> (select: Select<'a>)
        ensures
            select.source() is None,
    {
        Select { from: None }
    }

    /// Sets what the statement selects from, in place of what was set before:
    /// `val` converted into an identifier, so a table name becomes a table
    /// and a record id a record.
    pub fn from<I: Into<Ident<'a>>>(self, val: I) -> (select: Select<'a>)
        ensures
            select.source() matches Some(ident) && call_ensures(
                <I as Into<Ident<'a>>>::into,
                (val,),
                ident,
            ),
    {
        let mut select = self;
        select.from = Some(val.into());
        select
    }
}

} // verus!
