//! Relations between symbols.

use vstd::prelude::*;

use crate::parsing::symbols::QualifiedSymbol;
use crate::parsing::symbols::QualifiedSymbolView;

verus! {

/// How one symbol relates to another.
#[derive(Debug, Clone, Copy, PartialEq, Eq, Structural)]
pub enum EdgeKind {
    Calls,
    Uses,
    Imports,
    Contains,
    Implements,
}

/// The far end of an edge as the parser saw it.
#[derive(Debug)]
pub enum EdgeTarget {
    /// The parser knows which symbol is meant.
    Resolved(QualifiedSymbol),
    /// Only the name is known.
    Unresolved { name: String },
}

/// The model of an [`EdgeTarget`].
#[verifier::ext_equal]
pub enum EdgeTargetView {
    Resolved(QualifiedSymbolView),
    Unresolved { name: Seq<char> },
}

impl View for EdgeTarget {
    type V = EdgeTargetView;

    open spec fn view(&self) -> EdgeTargetView {
        match self {
            EdgeTarget::Resolved(q) => EdgeTargetView::Resolved(q@),
            EdgeTarget::Unresolved { name } => EdgeTargetView::Unresolved { name: name@ },
        }
    }
}

impl Clone for EdgeTarget {
    fn clone(&self) -> (r: Self)
        ensures
            r@ == self@,
    {
        match self {
            EdgeTarget::Resolved(q) => EdgeTarget::Resolved(q.clone()),
            EdgeTarget::Unresolved { name } => EdgeTarget::Unresolved { name: name.clone() },
        }
    }
}

/// An edge as the parser saw it.
#[derive(Debug)]
pub struct RawEdge {
    pub from: QualifiedSymbol,
    pub to: EdgeTarget,
    pub kind: EdgeKind,
    pub line: u32,
}

/// The model of a [`RawEdge`].
#[verifier::ext_equal]
pub struct RawEdgeView {
    pub from: QualifiedSymbolView,
    pub to: EdgeTargetView,
    pub kind: EdgeKind,
    pub line: u32,
}

impl View for RawEdge {
    type V = RawEdgeView;

    open spec fn view(&self) -> RawEdgeView {
        RawEdgeView { from: self.from@, to: self.to@, kind: self.kind, line: self.line }
    }
}

impl Clone for RawEdge {
    fn clone(&self) -> (r: Self)
        ensures
            r@ == self@,
    {
        RawEdge {
            from: self.from.clone(),
            to: self.to.clone(),
            kind: self.kind,
            line: self.line,
        }
    }
}

/// The models of a sequence of edges.
pub open spec fn edge_views(s: Seq<RawEdge>) -> Seq<RawEdgeView> {
    Seq::new(s.len(), |i: int| s[i]@)
}


/// The model of a list of edges has each of them at its place, with its own parts.
pub proof fn law_edge_models(list: Seq<RawEdge>, i: int)
    requires
        0 <= i < list.len(),
    ensures
        edge_views(list).len() == list.len(),
        edge_views(list)[i].from == list[i].from@,
        edge_views(list)[i].kind == list[i].kind,
        edge_views(list)[i].line == list[i].line,
        list[i].to matches EdgeTarget::Resolved(q) ==> edge_views(list)[i].to
            == EdgeTargetView::Resolved(q@),
        list[i].to matches EdgeTarget::Unresolved { name } ==> edge_views(list)[i].to == (
        EdgeTargetView::Unresolved { name: name@ }),
{
}

} // verus!
