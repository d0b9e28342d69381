//! Turning texts into embeddings through a provider's API.

use vstd::prelude::*;

pub mod batches;
pub mod voyage;

verus! {

/// What a text is embedded for.
#[derive(Debug, Clone, Copy, PartialEq, Eq, Structural)]
pub enum InputType {
    Document,
    Query,
}

impl InputType {
    /// The provider's name for the input type.
    pub open spec fn name(self) -> Seq<char> {
        match self {
            InputType::Document => "document"@,
            InputType::Query => "query"@,
        }
    }

    /// The provider's name for the input type.
    pub fn as_str(&self) -> (r: &'static str)
        ensures
            r@ == self.name(),
    {
        match self {
            InputType::Document => "document",
            InputType::Query => "query",
        }
    }
}

} // verus!
