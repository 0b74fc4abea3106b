//! ECS-related errors.

use vstd::prelude::*;
use vstd::string::*;

verus! {

/// ECS-related errors.
#[derive(Debug, Clone, Copy, PartialEq, Eq, Structural)]
pub enum EcsError {
    EntityNotFound,
    UnsatisfiedInspect,
}

impl EcsError {
    /// The text of the error.
    pub open spec fn text(self) -> Seq<char> {
        match self {
            EcsError::EntityNotFound => "Entity was not found"@,
            EcsError::UnsatisfiedInspect => "Unsatisfied inspect"@,
        }
    }

    /// The text of the error.
    pub fn message(&self) -> (text: String)
        ensures
            text@ == self.text(),
    {
        match self {
            EcsError::EntityNotFound => String::from_str("Entity was not found"),
            EcsError::UnsatisfiedInspect => String::from_str("Unsatisfied inspect"),
        }
    }
}

} // verus!
