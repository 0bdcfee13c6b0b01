//! What holds of the lexer and the builder together.
use crate::builder::{
    build_spec, double_prop, lemma_build_run_error, lemma_double_link_fails, paired,
};
use crate::export::dot::dot_text;
use crate::export::rot::rot_text;
use crate::graph::{Graph, GraphView};
use crate::parse2::{
    is_lex_error, lemma_lex_concat, lemma_lex_from, lemma_parse, lex_from, lex_run,
    lex_step, parse_spec, props_at, LexState, Parser,
};
use crate::ErrorView;
use vstd::prelude::*;

verus! {

/// The items that the lexer returns never hold two property blocks side by
/// side: what it has read builds, or fails with `DoubleLink`.
pub proof fn lemma_parsed_builds(g: GraphView, text: Seq<char>)
    requires
        parse_spec(text) is Ok,
    ensures
        !double_prop(parse_spec(text)->Ok_0),
        match build_spec(g, parse_spec(text)->Ok_0).1 {
            None => true,
            Some(e) => e == ErrorView::DoubleLink,
        },
{
    let items = parse_spec(text)->Ok_0;
    lemma_parse(text);
    lemma_build_run_error(g, paired(items, items.len() as int));
    if double_prop(items) {
        let i = choose|i: int|
            0 < i < items.len() && items[i - 1] is Props && (#[trigger] items[i]) is Props;
        assert(props_at(items, i));
    }
}

/// The lexer never takes back an item: what it had read stays the front of
/// what it has read later.
pub proof fn lemma_items_grow(st: LexState, text: Seq<char>)
    requires
        lex_from(st, text) is Ok,
    ensures
        st.items.len() <= lex_from(st, text)->Ok_0.items.len(),
        lex_from(st, text)->Ok_0.items.take(st.items.len() as int) == st.items,
    decreases text.len(),
{
    if text.len() == 0 {
        assert(st.items.take(st.items.len() as int) =~= st.items);
    } else {
        lemma_items_grow(st, text.drop_last());
        let mid = lex_from(st, text.drop_last())->Ok_0;
        let end = lex_step(mid, text.last())->Ok_0;
        assert(end.items.take(st.items.len() as int) =~= mid.items.take(st.items.len() as int));
    }
}

/// A text with `->->` in it, at a place where the lexer stands between items
/// or inside a bare name, does not build: if the lexer reads it at all, the
/// builder fails on it with `DoubleLink`.
pub proof fn lemma_double_link_text(g: GraphView, front: Seq<char>, back: Seq<char>)
    requires
        lex_run(front) matches Ok(st) && (st.state == Parser::Nothing || st.state
            == Parser::OnNode),
    ensures
        match parse_spec(front + seq!['-', '>', '-', '>'] + back) {
            Ok(items) => build_spec(g, items).1 == Some(ErrorView::DoubleLink),
            Err(e) => is_lex_error(e),
        },
{
    let marks = seq!['-', '>', '-', '>'];
    let text = front + marks + back;
    let st = lex_run(front)->Ok_0;
    lemma_parse(text);
    lemma_lex_from(LexState::start(), front);
    lemma_lex_concat(LexState::start(), front + marks, back);
    lemma_lex_concat(LexState::start(), front, marks);
    // The four characters, one by one.
    reveal_with_fuel(lex_from, 5);
    assert(marks.drop_last() =~= seq!['-', '>', '-']);
    assert(marks.drop_last().drop_last() =~= seq!['-', '>']);
    assert(marks.drop_last().drop_last().drop_last() =~= seq!['-']);
    assert(marks.drop_last().drop_last().drop_last().drop_last() =~= Seq::<char>::empty());
    let s1 = lex_step(st, '-')->Ok_0;
    let s2 = lex_step(s1, '>')->Ok_0;
    let s3 = lex_step(s2, '-')->Ok_0;
    let s4 = lex_step(s3, '>')->Ok_0;
    assert(lex_from(st, marks) == Ok::<LexState, ErrorView>(s4));
    let n = s4.items.len() as int;
    assert(s4.items[n - 1] is Link && s4.items[n - 2] is Link);
    if parse_spec(text) is Ok {
        let items = parse_spec(text)->Ok_0;
        lemma_items_grow(s4, back);
        assert(items.take(n)[n - 1] == items[n - 1]);
        assert(items.take(n)[n - 2] == items[n - 2]);
        lemma_double_link_fails(g, items, n - 1);
        lemma_parsed_builds(g, text);
    }
}

/// What an exporter writes depends on nothing but what the graph reads as:
/// graphs that read alike are written alike, and so is one graph each time
/// it is written.
pub proof fn lemma_export_repeats(first: Graph, second: Graph)
    requires
        first@ == second@,
    ensures
        rot_text(first@) == rot_text(second@),
        dot_text(first@) == dot_text(second@),
{
}

} // verus!
