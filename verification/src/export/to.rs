//! The exporters by the name of their format.
use crate::export::dotex::Render;
use crate::export::{dot, dotex, rot};
use crate::graph::Graph;
use vstd::prelude::*;

verus! {

/// The graph in its own language.
pub fn rot(g: &Graph) -> (text: String)
    requires
        g.wf(),
    ensures
        text@ == rot::rot_text(g@),
{
    rot::export(g)
}

/// The graph in DOT.
pub fn dot(g: &Graph) -> (text: String)
    requires
        g.wf(),
    ensures
        text@ == dot::dot_text(g@),
{
    dot::export(g)
}

/// The run of the Graphviz renderer that renders the graph in the format
/// `to`.
pub fn dotex(g: &Graph, to: &str) -> (run: Render)
    requires
        g.wf(),
    ensures
        run.program@ == "dot"@,
        run.arg@ == "-T"@ + to@,
        run.input@ == dot::dot_text(g@),
{
    dotex::export(g, to)
}

} // verus!
