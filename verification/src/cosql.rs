//! Data types of the query language's insertion statements.  The
//! grammar itself is parsed outside the engine; these are the values
//! a parsed insertion carries.

use vstd::prelude::*;

verus! {

/// A calendar date as day, month and year.
#[derive(Debug, Clone, Copy, PartialEq, Eq, Structural)]
pub struct Date(pub u8, pub u8, pub u16);

/// An attribute value: an integer, a string, or a date.
#[derive(Debug, Clone, PartialEq)]
pub enum Value {
    Int(i64),
    Str(String),
    Date(Date),
}

/// One named attribute of an insertion.
#[derive(Debug, Clone, PartialEq)]
pub struct Attribute {
    pub name: String,
    pub value: Value,
}

/// An entity insertion: the bound variable, the entity type, and the
/// attributes.
#[derive(Debug, Clone, PartialEq)]
pub struct EntityInsertion {
    pub variable: String,
    pub entity_type: String,
    pub attributes: Vec<Attribute>,
}

} // verus!
