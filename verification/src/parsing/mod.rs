//! What parsing a source file yields.

use vstd::prelude::*;

pub mod chunker;
pub mod relations;
pub mod symbols;

use crate::parsing::chunker::Chunk;
use crate::parsing::relations::RawEdge;
use crate::parsing::symbols::Symbol;

verus! {

/// The symbols, chunks and edges found in one file.
#[derive(Debug)]
pub struct ParseResult {
    pub symbols: Vec<Symbol>,
    pub chunks: Vec<Chunk>,
    pub edges: Vec<RawEdge>,
}

} // verus!
