use vstd::prelude::*;

use crate::binary64::Binary64;

verus! {

/// A value of the language at run time.
#[derive(Debug, PartialEq, Eq, Clone, Copy, Structural)]
pub enum DumbBrainObject {
    Number(Binary64),
    Boolean(bool),
}

/// The two classes of value that an expression can have.
#[derive(Debug, PartialEq, Eq, Clone, Copy, Hash, Structural)]
pub enum DumbBrainType {
    Number,
    Boolean,
}

/// The class of a value.
pub open spec fn type_of(value: DumbBrainObject) -> DumbBrainType {
    match value {
        DumbBrainObject::Number(_) => DumbBrainType::Number,
        DumbBrainObject::Boolean(_) => DumbBrainType::Boolean,
    }
}

impl DumbBrainObject {
    /// The class of the value.
    pub fn kind(&self) -> (kind: DumbBrainType)
        ensures
            kind == type_of(*self),
    {
        match self {
            Self::Number(_) => DumbBrainType::Number,
            Self::Boolean(_) => DumbBrainType::Boolean,
        }
    }

    /// Whether the value is a number.
    pub fn is_number(&self) -> (r: bool)
        ensures
            r == (*self is Number),
    {
        match self {
            Self::Number(_) => true,
            _ => false,
        }
    }

    /// The number that the value is, if it is one.
    pub fn as_number(&self) -> (r: Option<&Binary64>)
        ensures
            r == match *self {
                DumbBrainObject::Number(v) => Some(&v),
                _ => None,
            },
    {
        match self {
            Self::Number(v) => Some(v),
            _ => None,
        }
    }

    /// The number that the value is, or the value back where it is none.
    pub fn try_into_number(self) -> (r: Result<Binary64, Self>)
        ensures
            r == match self {
                DumbBrainObject::Number(v) => Ok::<Binary64, Self>(v),
                _ => Err(self),
            },
    {
        match self {
            Self::Number(v) => Ok(v),
            _ => Err(self),
        }
    }

    /// Whether the value is a boolean.
    pub fn is_boolean(&self) -> (r: bool)
        ensures
            r == (*self is Boolean),
    {
        match self {
            Self::Boolean(_) => true,
            _ => false,
        }
    }

    /// The boolean that the value is, if it is one.
    pub fn as_boolean(&self) -> (r: Option<&bool>)
        ensures
            r == match *self {
                DumbBrainObject::Boolean(v) => Some(&v),
                _ => None,
            },
    {
        match self {
            Self::Boolean(v) => Some(v),
            _ => None,
        }
    }

    /// The boolean that the value is, or the value back where it is none.
    pub fn try_into_boolean(self) -> (r: Result<bool, Self>)
        ensures
            r == match self {
                DumbBrainObject::Boolean(v) => Ok::<bool, Self>(v),
                _ => Err(self),
            },
    {
        match self {
            Self::Boolean(v) => Ok(v),
            _ => Err(self),
        }
    }
}

} // verus!
