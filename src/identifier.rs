use vstd::prelude::*;
use crate::error::EngineError;

verus! {

/// The kind of value an identifier carries.
#[derive(Clone, Copy, Debug, PartialEq, Eq, Structural)]
pub enum IdKind {
    Numeric,
    String,
}

/// An entity reference: either its numeric id or its current name.
#[derive(Clone, Debug)]
pub enum Identifier {
    Numeric(u32),
    Named(String),
}

impl Identifier {
    pub fn numeric(value: u32) -> (r: Identifier)
        ensures
            r == Identifier::Numeric(value),
    {
        Identifier::Numeric(value)
    }

    pub fn named(value: &str) -> (r: Identifier)
        ensures
            r matches Identifier::Named(s) && s@ == value@,
    {
        Identifier::Named(value.to_owned())
    }

    pub fn kind(&self) -> (r: IdKind)
        ensures
            r == (if self is Numeric { IdKind::Numeric } else { IdKind::String }),
    {
        match self {
            Identifier::Numeric(_) => IdKind::Numeric,
            Identifier::Named(_) => IdKind::String,
        }
    }

    /// The numeric value; a named identifier is refused.
    pub fn as_u32(&self) -> (r: Result<u32, EngineError>)
        ensures
            match *self {
                Identifier::Numeric(v) => r == Ok::<u32, EngineError>(v),
                Identifier::Named(_) => r
                    == Err::<u32, EngineError>(EngineError::InvalidIdentifier),
            },
    {
        match self {
            Identifier::Numeric(v) => Ok(*v),
            Identifier::Named(_) => Err(EngineError::InvalidIdentifier),
        }
    }

    /// The name; a numeric identifier is refused.
    pub fn as_str(&self) -> (r: Result<&str, EngineError>)
        ensures
            match *self {
                Identifier::Numeric(_) => r
                    == Err::<&str, EngineError>(EngineError::InvalidIdentifier),
                Identifier::Named(s) => r is Ok && r->Ok_0@ == s@,
            },
    {
        match self {
            Identifier::Numeric(_) => Err(EngineError::InvalidIdentifier),
            Identifier::Named(s) => Ok(s.as_str()),
        }
    }
}

} // verus!
