//! A small compiler for a graph-description language: text is lexed into
//! items ([`parse2`]), a builder assembles the items into a directed property
//! graph ([`builder`], [`graph`]), and exporters render the graph as text
//! ([`export`]). [`laws`] and [`round_trip`] hold what is proved of the three
//! together.
//!
//! Beside it stand the verified parts of a few small tools of their own: a
//! calendar ([`cal`]), a shortener of paths ([`pwd_rs`]), trees of files
//! ([`filstu`]), filters of lines ([`filte2_rs`]) and a search for notes in
//! files ([`conf`], [`todo_rs`]), the last two on regular expressions and
//! shell patterns from outside ([`matching`]).
use vstd::prelude::*;

pub mod builder;
pub mod cal;
pub mod conf;
pub mod export;
pub mod filstu;
pub mod filte2_rs;
pub mod graph;
pub mod laws;
pub mod matching;
pub mod parse2;
pub mod props;
pub mod pwd_rs;
pub mod round_trip;
mod text;
pub mod todo_rs;

verus! {

/// Everything that can go wrong between the text and the graph.
#[derive(Debug, PartialEq, Eq)]
pub enum RotError {
    /// No node bears this name.
    NoNodeName(String),
    /// No node has this id.
    NoNodeId(usize),
    /// No link has this id.
    NoLinkId(usize),
    /// A node of this name exists already.
    NodeOverwrite(String),
    /// The text ended inside this state.
    UnclosedState(parse2::Parser),
    /// This character cannot stand in a name; the name read so far follows.
    IlegalCharName(char, String),
    /// This character cannot start an item.
    IlegalCharItem(char),
    /// This character stood where the `>` of a link was due.
    LinkSyntaxError(char),
    /// A property block ended on this key, before any value.
    KeyWithoutValue(String),
    /// A property block held this value under no key.
    ValueWithoutKey(String),
    /// After the colon of a key this character stood where the opening quote
    /// of the value was due; the text read since the colon comes first.
    DidntStartValue(String, char),
    /// Two property blocks in a row.
    DoubleProp,
    /// Two link markers in a row, or a link marker with nothing before it.
    DoubleLink,
}

/// An error as contracts see it.
pub enum ErrorView {
    NoNodeName(Seq<char>),
    NoNodeId(usize),
    NoLinkId(usize),
    NodeOverwrite(Seq<char>),
    UnclosedState(parse2::Parser),
    IlegalCharName(char, Seq<char>),
    IlegalCharItem(char),
    LinkSyntaxError(char),
    KeyWithoutValue(Seq<char>),
    ValueWithoutKey(Seq<char>),
    DidntStartValue(Seq<char>, char),
    DoubleProp,
    DoubleLink,
}

impl View for RotError {
    type V = ErrorView;

    open spec fn view(&self) -> ErrorView {
        match *self {
            RotError::NoNodeName(s) => ErrorView::NoNodeName(s@),
            RotError::NoNodeId(i) => ErrorView::NoNodeId(i),
            RotError::NoLinkId(i) => ErrorView::NoLinkId(i),
            RotError::NodeOverwrite(s) => ErrorView::NodeOverwrite(s@),
            RotError::UnclosedState(p) => ErrorView::UnclosedState(p),
            RotError::IlegalCharName(c, s) => ErrorView::IlegalCharName(c, s@),
            RotError::IlegalCharItem(c) => ErrorView::IlegalCharItem(c),
            RotError::LinkSyntaxError(c) => ErrorView::LinkSyntaxError(c),
            RotError::KeyWithoutValue(s) => ErrorView::KeyWithoutValue(s@),
            RotError::ValueWithoutKey(s) => ErrorView::ValueWithoutKey(s@),
            RotError::DidntStartValue(s, c) => ErrorView::DidntStartValue(s@, c),
            RotError::DoubleProp => ErrorView::DoubleProp,
            RotError::DoubleLink => ErrorView::DoubleLink,
        }
    }
}

} // verus!
