//! The graph through Graphviz: what to run, and what to hand it.
//!
//! Nothing is run here. [`export`] says which program to start, with which
//! argument, and what to write to its standard input; whoever runs it copies
//! the program's standard output through.
use crate::export::dot;
use crate::graph::Graph;
use vstd::prelude::*;
use vstd::string::StringExecFns;

verus! {

/// One run of the renderer.
#[derive(Debug)]
pub struct Render {
    /// The program to start.
    pub program: String,
    /// Its one argument.
    pub arg: String,
    /// What to write to its standard input.
    pub input: String,
}

/// The run of `dot` that renders the graph in the format `ex_to`: the
/// argument is `-T` and the format, the input is the graph in DOT.
pub fn export(graph: &Graph, ex_to: &str) -> (run: Render)
    requires
        graph.wf(),
    ensures
        run.program@ == "dot"@,
        run.arg@ == "-T"@ + ex_to@,
        run.input@ == dot::dot_text(graph@),
{
    let mut arg = String::from_str("-T");
    arg.append(ex_to);
    Render { program: String::from_str("dot"), arg, input: dot::export(graph) }
}

} // verus!
