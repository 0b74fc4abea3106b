//! Scene-related errors.

use vstd::prelude::*;
use vstd::string::*;

verus! {

/// Scene-related errors.
#[derive(Debug, Clone, Copy, PartialEq, Eq, Structural)]
pub enum SceneError {
    SceneNotFound,
}

impl SceneError {
    /// The text of the error.
    pub open spec fn text(self) -> Seq<char> {
        "Scene not found"@
    }

    /// The text of the error.
    pub fn message(&self) -> (text: String)
        ensures
            text@ == self.text(),
    {
        String::from_str("Scene not found")
    }
}

} // verus!
