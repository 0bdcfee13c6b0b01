//! The exporters: a graph to text, in the language that the lexer reads
//! ([`rot`]) or in Graphviz's DOT ([`dot`]); [`dotex`] prepares a run of the
//! Graphviz renderer on the DOT text. [`to`] is the way in.
pub mod dot;
pub mod dotex;
pub mod rot;
pub mod to;
