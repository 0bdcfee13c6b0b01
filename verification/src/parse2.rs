//! The lexer: text to a flat sequence of items.
//!
//! Two machines read the text one character at a time. The outer one
//! ([`lex_step`]) tells names, bracketed lists of names, link markers,
//! property blocks and comments apart; the inner one ([`prop_step`]) reads
//! what stands between the braces of a property block. What [`parse`] returns
//! is what [`parse_spec`] says of the text.
use crate::props::{prop_insert, PropMap, PropSeq};
use crate::text::push_char;
use crate::{ErrorView, RotError};
use vstd::prelude::*;

verus! {

/// One item of the text.
#[derive(Debug)]
pub enum Item {
    /// A bracketed list of names.
    NodeVec(Vec<String>),
    /// A property block.
    Props(PropMap),
    /// A bare name.
    Node(String),
    /// A link marker, `->`.
    Link,
}

/// An item as contracts see it.
pub enum ItemView {
    NodeVec(Seq<Seq<char>>),
    Props(PropSeq),
    Node(Seq<char>),
    Link,
}

impl View for Item {
    type V = ItemView;

    open spec fn view(&self) -> ItemView {
        match *self {
            Item::NodeVec(names) => ItemView::NodeVec(names_view(names@)),
            Item::Props(p) => ItemView::Props(p@),
            Item::Node(name) => ItemView::Node(name@),
            Item::Link => ItemView::Link,
        }
    }
}

/// What a list of names reads as.
pub open spec fn names_view(names: Seq<String>) -> Seq<Seq<char>> {
    names.map_values(|s: String| s@)
}

/// What a list of items reads as.
pub open spec fn items_view(items: Seq<Item>) -> Seq<ItemView> {
    items.map_values(|i: Item| i@)
}

/// Where the lexer stands between two characters.
#[derive(Debug, Clone, Copy, PartialEq, Eq, Structural)]
pub enum Parser {
    /// Between items.
    Nothing,
    /// Inside a bare name.
    OnNode,
    /// Inside a bracketed list of names.
    OnNodeVec,
    /// After the `-` of a link, before its `>`.
    OnLink,
    /// Inside a property block.
    OnProp,
    /// Inside a comment.
    OnComment,
}

/// Where the reader of a property block stands between two characters.
#[derive(Debug, Clone, Copy, PartialEq, Eq, Structural)]
pub enum PropParser {
    /// Inside a key.
    OnKey,
    /// Inside a quoted value.
    OnValue,
    /// After the colon of a key, before the opening quote of its value.
    ShouldValue,
    /// Before a key.
    ShouldKey,
}

/// Blank, tab or newline.
pub open spec fn is_blank(c: char) -> bool {
    c == ' ' || c == '\t' || c == '\n'
}

/// All that the reader of a property block carries from one character to the
/// next.
pub struct PropState {
    pub state: PropParser,
    /// The key or value being read.
    pub buffer: Seq<char>,
    /// The key whose value is awaited or being read.
    pub key: Seq<char>,
    /// The pairs read so far.
    pub pairs: PropSeq,
}

impl PropState {
    pub open spec fn start() -> PropState {
        PropState {
            state: PropParser::ShouldKey,
            buffer: Seq::empty(),
            key: Seq::empty(),
            pairs: Seq::empty(),
        }
    }
}

/// One character of a property block.
///
/// A key runs up to its colon. Then comes a value between double quotes; the
/// closing quote sets the key. Blanks count only inside a value: elsewhere
/// they are passed over, and so are commas between pairs.
pub open spec fn prop_step(st: PropState, c: char) -> Result<PropState, ErrorView> {
    match st.state {
        PropParser::OnKey => if c == ':' {
            Ok(
                PropState {
                    state: PropParser::ShouldValue,
                    key: st.buffer,
                    buffer: Seq::empty(),
                    ..st
                },
            )
        } else if is_blank(c) {
            Ok(st)
        } else {
            Ok(PropState { buffer: st.buffer.push(c), ..st })
        },
        PropParser::ShouldValue => if is_blank(c) {
            Ok(st)
        } else if c == '"' {
            Ok(PropState { state: PropParser::OnValue, ..st })
        } else {
            Err(ErrorView::DidntStartValue(st.buffer, c))
        },
        PropParser::OnValue => if c == '"' {
            Ok(
                PropState {
                    state: PropParser::ShouldKey,
                    pairs: prop_insert(st.pairs, st.key, st.buffer),
                    buffer: Seq::empty(),
                    key: Seq::empty(),
                },
            )
        } else {
            Ok(PropState { buffer: st.buffer.push(c), ..st })
        },
        PropParser::ShouldKey => if is_blank(c) || c == ',' {
            Ok(st)
        } else {
            Ok(PropState { state: PropParser::OnKey, buffer: st.buffer.push(c), ..st })
        },
    }
}

/// The reader after all of `text`, or the first error on the way.
pub open spec fn prop_run(text: Seq<char>) -> Result<PropState, ErrorView>
    decreases text.len(),
{
    if text.len() == 0 {
        Ok(PropState::start())
    } else {
        match prop_run(text.drop_last()) {
            Ok(st) => prop_step(st, text.last()),
            Err(e) => Err(e),
        }
    }
}

/// The end of a property block. A value whose closing quote is missing
/// counts if it is not empty; a key without a value is an error, be it with
/// its colon or without.
pub open spec fn prop_finish(st: PropState) -> Result<PropSeq, ErrorView> {
    if st.key.len() > 0 {
        if st.buffer.len() > 0 {
            Ok(prop_insert(st.pairs, st.key, st.buffer))
        } else {
            Err(ErrorView::KeyWithoutValue(st.key))
        }
    } else {
        if st.buffer.len() > 0 {
            Err(ErrorView::KeyWithoutValue(st.buffer))
        } else {
            Ok(st.pairs)
        }
    }
}

/// The pairs that a property block holds between its braces.
pub open spec fn props_spec(text: Seq<char>) -> Result<PropSeq, ErrorView> {
    match prop_run(text) {
        Ok(st) => prop_finish(st),
        Err(e) => Err(e),
    }
}

/// All that the lexer carries from one character to the next.
pub struct LexState {
    pub state: Parser,
    /// The name or property block being read.
    pub buffer: Seq<char>,
    /// The names of the list being read.
    pub names: Seq<Seq<char>>,
    /// The items read so far.
    pub items: Seq<ItemView>,
}

impl LexState {
    pub open spec fn start() -> LexState {
        LexState {
            state: Parser::Nothing,
            buffer: Seq::empty(),
            names: Seq::empty(),
            items: Seq::empty(),
        }
    }

    /// The lexer in state `next` after one more item, with nothing read of
    /// the item to come.
    pub open spec fn emit(self, item: ItemView, next: Parser) -> LexState {
        LexState { state: next, buffer: Seq::empty(), items: self.items.push(item), ..self }
    }
}

/// One character of the text.
///
/// Between items blanks are passed over; `#` opens a comment, which runs to
/// the end of the line; `[` opens a list of names and `-` a link marker; any
/// other character starts a bare name.
/// A bare name ends before `-`, a newline or `{`, and may hold no comma.
/// In a list, a comma ends a name and `]` ends the list, in which a last name
/// counts if it is not empty; a list may hold no `{`.
/// A link marker is `-` and then `>`. A property block runs to the next `}`.
pub open spec fn lex_step(st: LexState, c: char) -> Result<LexState, ErrorView> {
    match st.state {
        Parser::Nothing => if is_blank(c) {
            Ok(st)
        } else if c == '#' {
            Ok(LexState { state: Parser::OnComment, ..st })
        } else if c == '[' {
            Ok(LexState { state: Parser::OnNodeVec, ..st })
        } else if c == '-' {
            Ok(LexState { state: Parser::OnLink, ..st })
        } else {
            Ok(LexState { state: Parser::OnNode, buffer: st.buffer.push(c), ..st })
        },
        Parser::OnComment => if c == '\n' {
            Ok(LexState { state: Parser::Nothing, ..st })
        } else {
            Ok(st)
        },
        Parser::OnNodeVec => if c == ',' {
            Ok(LexState { names: st.names.push(st.buffer), buffer: Seq::empty(), ..st })
        } else if c == ']' {
            Ok(
                LexState {
                    names: Seq::empty(),
                    ..st.emit(
                        ItemView::NodeVec(
                            if st.buffer.len() > 0 {
                                st.names.push(st.buffer)
                            } else {
                                st.names
                            },
                        ),
                        Parser::Nothing,
                    )
                },
            )
        } else if c == '{' {
            Err(ErrorView::IlegalCharName(c, st.buffer))
        } else {
            Ok(LexState { buffer: st.buffer.push(c), ..st })
        },
        Parser::OnNode => if c == '-' {
            Ok(st.emit(ItemView::Node(st.buffer), Parser::OnLink))
        } else if c == '\n' {
            Ok(st.emit(ItemView::Node(st.buffer), Parser::Nothing))
        } else if c == '{' {
            Ok(st.emit(ItemView::Node(st.buffer), Parser::OnProp))
        } else if c == ',' {
            Err(ErrorView::IlegalCharName(c, st.buffer))
        } else {
            Ok(LexState { buffer: st.buffer.push(c), ..st })
        },
        Parser::OnLink => if c == '>' {
            Ok(LexState { state: Parser::Nothing, items: st.items.push(ItemView::Link), ..st })
        } else {
            Err(ErrorView::LinkSyntaxError(c))
        },
        Parser::OnProp => if c == '}' {
            match props_spec(st.buffer) {
                Ok(pairs) => Ok(st.emit(ItemView::Props(pairs), Parser::Nothing)),
                Err(e) => Err(e),
            }
        } else {
            Ok(LexState { buffer: st.buffer.push(c), ..st })
        },
    }
}

/// The lexer after all of `text`, begun at `st`, or the first error on the
/// way.
pub open spec fn lex_from(st: LexState, text: Seq<char>) -> Result<LexState, ErrorView>
    decreases text.len(),
{
    if text.len() == 0 {
        Ok(st)
    } else {
        match lex_from(st, text.drop_last()) {
            Ok(mid) => lex_step(mid, text.last()),
            Err(e) => Err(e),
        }
    }
}

/// The lexer after all of `text`, or the first error on the way.
pub open spec fn lex_run(text: Seq<char>) -> Result<LexState, ErrorView> {
    lex_from(LexState::start(), text)
}

/// The end of the text. Between items all is well. A bare name that runs to
/// the end of the text is no error, and no item either. Anything else was
/// left open.
pub open spec fn lex_finish(st: LexState) -> Result<Seq<ItemView>, ErrorView> {
    match st.state {
        Parser::Nothing => Ok(st.items),
        Parser::OnNode => Ok(st.items),
        open => Err(ErrorView::UnclosedState(open)),
    }
}

/// The items of `text`, or the first error in it.
pub open spec fn parse_spec(text: Seq<char>) -> Result<Seq<ItemView>, ErrorView> {
    match lex_run(text) {
        Ok(st) => lex_finish(st),
        Err(e) => Err(e),
    }
}

/// Reading one more character of a text is one step from where its front
/// part led.
proof fn lemma_prop_run_next(text: Seq<char>, i: int)
    requires
        0 <= i < text.len(),
    ensures
        prop_run(text.take(i + 1)) == match prop_run(text.take(i)) {
            Ok(st) => prop_step(st, text[i]),
            Err(e) => Err(e),
        },
{
    assert(text.take(i + 1).drop_last() =~= text.take(i));
}

/// Reading one more character of a text is one step from where its front
/// part led.
proof fn lemma_lex_run_next(text: Seq<char>, i: int)
    requires
        0 <= i < text.len(),
    ensures
        lex_run(text.take(i + 1)) == match lex_run(text.take(i)) {
            Ok(st) => lex_step(st, text[i]),
            Err(e) => Err(e),
        },
{
    assert(text.take(i + 1).drop_last() =~= text.take(i));
}

/// Reads what stands between the braces of a property block.
pub fn parse_props(prop: String) -> (r: Result<PropMap, RotError>)
    ensures
        match props_spec(prop@) {
            Ok(pairs) => r matches Ok(m) && m@ == pairs,
            Err(e) => r matches Err(x) && x@ == e,
        },
{
    let mut items = PropMap::new();
    let mut state = PropParser::ShouldKey;
    let mut buffer = String::new();
    let mut key_buffer = String::new();

    for chr in it: prop.as_str().chars()
        invariant
            it.seq() == prop@,
            prop_run(prop@.take(it.index() as int)) == Ok::<PropState, ErrorView>(
                PropState { state, buffer: buffer@, key: key_buffer@, pairs: items@ },
            ),
    {
        proof {
            lemma_prop_run_next(prop@, it.index() as int);
        }
        match state {
            PropParser::OnKey => {
                if chr == ':' {
                    key_buffer = buffer;
                    buffer = String::new();
                    state = PropParser::ShouldValue;
                } else if chr == ' ' || chr == '\t' || chr == '\n' {
                } else {
                    push_char(&mut buffer, chr);
                }
            },
            PropParser::ShouldValue => {
                if chr == ' ' || chr == '\t' || chr == '\n' {
                } else if chr == '"' {
                    state = PropParser::OnValue;
                } else {
                    proof {
                        lemma_prop_run_err(prop@, it.index() as int + 1);
                    }
                    return Err(RotError::DidntStartValue(buffer, chr));
                }
            },
            PropParser::OnValue => {
                if chr == '"' {
                    items.insert(key_buffer, buffer);
                    buffer = String::new();
                    key_buffer = String::new();
                    state = PropParser::ShouldKey;
                } else {
                    push_char(&mut buffer, chr);
                }
            },
            PropParser::ShouldKey => {
                if chr == ' ' || chr == '\t' || chr == '\n' || chr == ',' {
                } else {
                    push_char(&mut buffer, chr);
                    state = PropParser::OnKey;
                }
            },
        }
    }
    assert(prop@.take(prop@.len() as int) =~= prop@);

    if !key_buffer.as_str().is_empty() {
        if !buffer.as_str().is_empty() {
            items.insert(key_buffer, buffer);
            Ok(items)
        } else {
            Err(RotError::KeyWithoutValue(key_buffer))
        }
    } else {
        if !buffer.as_str().is_empty() {
            Err(RotError::KeyWithoutValue(buffer))
        } else {
            Ok(items)
        }
    }
}

/// An error met in a front part of the text is the error of the whole.
proof fn lemma_prop_run_err(text: Seq<char>, n: int)
    requires
        0 <= n <= text.len(),
        prop_run(text.take(n)) is Err,
    ensures
        prop_run(text) == prop_run(text.take(n)),
    decreases text.len() - n,
{
    if n < text.len() {
        lemma_prop_run_next(text, n);
        lemma_prop_run_err(text, n + 1);
    } else {
        assert(text.take(n) =~= text);
    }
}

/// An error met in a front part of the text is the error of the whole.
proof fn lemma_lex_run_err(text: Seq<char>, n: int)
    requires
        0 <= n <= text.len(),
        lex_run(text.take(n)) is Err,
    ensures
        lex_run(text) == lex_run(text.take(n)),
    decreases text.len() - n,
{
    if n < text.len() {
        lemma_lex_run_next(text, n);
        lemma_lex_run_err(text, n + 1);
    } else {
        assert(text.take(n) =~= text);
    }
}

/// Reads a text into its items.
pub fn parse(text: String) -> (r: Result<Vec<Item>, RotError>)
    ensures
        match parse_spec(text@) {
            Ok(items) => r matches Ok(v) && items_view(v@) == items,
            Err(e) => r matches Err(x) && x@ == e,
        },
{
    let mut items: Vec<Item> = Vec::new();
    let mut state = Parser::Nothing;
    let mut buffer = String::new();
    let mut buffer_buffer: Vec<String> = Vec::new();
    proof {
        assert(items_view(items@) =~= Seq::empty());
        assert(names_view(buffer_buffer@) =~= Seq::empty());
    }

    for chr in it: text.as_str().chars()
        invariant
            it.seq() == text@,
            lex_run(text@.take(it.index() as int)) == Ok::<LexState, ErrorView>(
                LexState {
                    state,
                    buffer: buffer@,
                    names: names_view(buffer_buffer@),
                    items: items_view(items@),
                },
            ),
    {
        proof {
            lemma_lex_run_next(text@, it.index() as int);
        }
        let ghost before = LexState {
            state,
            buffer: buffer@,
            names: names_view(buffer_buffer@),
            items: items_view(items@),
        };
        match state {
            Parser::Nothing => {
                if chr == ' ' || chr == '\n' || chr == '\t' {
                } else if chr == '#' {
                    state = Parser::OnComment;
                } else if chr == '[' {
                    state = Parser::OnNodeVec;
                } else if chr == '-' {
                    state = Parser::OnLink;
                } else {
                    state = Parser::OnNode;
                    push_char(&mut buffer, chr);
                }
            },
            Parser::OnComment => {
                if chr == '\n' {
                    state = Parser::Nothing;
                }
            },
            Parser::OnNodeVec => {
                if chr == ',' {
                    buffer_buffer.push(buffer);
                    buffer = String::new();
                    assert(names_view(buffer_buffer@) =~= before.names.push(before.buffer));
                } else if chr == ']' {
                    if !buffer.as_str().is_empty() {
                        buffer_buffer.push(buffer);
                        assert(names_view(buffer_buffer@) =~= before.names.push(before.buffer));
                    }
                    items.push(Item::NodeVec(buffer_buffer));
                    state = Parser::Nothing;
                    buffer = String::new();
                    buffer_buffer = Vec::new();
                    proof {
                        assert(names_view(buffer_buffer@) =~= Seq::empty());
                        assert(items_view(items@) =~= before.items.push(items@.last()@));
                    }
                } else if chr == '{' {
                    proof {
                        lemma_lex_run_err(text@, it.index() as int + 1);
                    }
                    return Err(RotError::IlegalCharName(chr, buffer));
                } else {
                    push_char(&mut buffer, chr);
                }
            },
            Parser::OnNode => {
                if chr == '-' {
                    items.push(Item::Node(buffer));
                    state = Parser::OnLink;
                    buffer = String::new();
                    assert(items_view(items@) =~= before.items.push(items@.last()@));
                } else if chr == '\n' {
                    items.push(Item::Node(buffer));
                    state = Parser::Nothing;
                    buffer = String::new();
                    assert(items_view(items@) =~= before.items.push(items@.last()@));
                } else if chr == '{' {
                    items.push(Item::Node(buffer));
                    state = Parser::OnProp;
                    buffer = String::new();
                    assert(items_view(items@) =~= before.items.push(items@.last()@));
                } else if chr == ',' {
                    proof {
                        lemma_lex_run_err(text@, it.index() as int + 1);
                    }
                    return Err(RotError::IlegalCharName(chr, buffer));
                } else {
                    push_char(&mut buffer, chr);
                }
            },
            Parser::OnLink => {
                if chr == '>' {
                    items.push(Item::Link);
                    state = Parser::Nothing;
                    assert(items_view(items@) =~= before.items.push(items@.last()@));
                } else {
                    proof {
                        lemma_lex_run_err(text@, it.index() as int + 1);
                    }
                    return Err(RotError::LinkSyntaxError(chr));
                }
            },
            Parser::OnProp => {
                if chr == '}' {
                    match parse_props(buffer) {
                        Ok(props) => {
                            items.push(Item::Props(props));
                        },
                        Err(e) => {
                            proof {
                                lemma_lex_run_err(text@, it.index() as int + 1);
                            }
                            return Err(e);
                        },
                    }
                    state = Parser::Nothing;
                    buffer = String::new();
                    assert(items_view(items@) =~= before.items.push(items@.last()@));
                } else {
                    push_char(&mut buffer, chr);
                }
            },
        }
    }
    assert(text@.take(text@.len() as int) =~= text@);

    match state {
        Parser::Nothing => Ok(items),
        Parser::OnNode => Ok(items),
        a => Err(RotError::UnclosedState(a)),
    }
}

/// The errors of the lexer: a state left open at the end of the text, a
/// character that a name cannot hold, a link marker cut short, and in a
/// property block a key without a value or a value without its opening quote.
pub open spec fn is_lex_error(e: ErrorView) -> bool {
    ||| e matches ErrorView::UnclosedState(open) && open != Parser::Nothing && open
        != Parser::OnNode
    ||| e matches ErrorView::IlegalCharName(c, _) && (c == '{' || c == ',')
    ||| e matches ErrorView::LinkSyntaxError(c) && c != '>'
    ||| e is KeyWithoutValue
    ||| e matches ErrorView::DidntStartValue(_, c) && !is_blank(c) && c != '"'
}

/// A property block fails on a key without a value or on a value without its
/// opening quote, and on nothing else.
pub proof fn lemma_props_errors(text: Seq<char>)
    ensures
        prop_run(text) matches Err(e) ==> is_lex_error(e),
        props_spec(text) matches Err(e) ==> is_lex_error(e),
    decreases text.len(),
{
    if text.len() > 0 {
        lemma_props_errors(text.drop_last());
    }
}

/// Item `i` is a property block.
pub open spec fn props_at(items: Seq<ItemView>, i: int) -> bool {
    0 <= i < items.len() && items[i] is Props
}

/// Every property block stands directly behind a bare name.
pub open spec fn props_follow_names(items: Seq<ItemView>) -> bool {
    forall|i: int| #[trigger] props_at(items, i) ==> i > 0 && items[i - 1] is Node
}

/// What holds of the lexer wherever it stands: every property block read so
/// far stands behind a bare name, a name precedes the block being read, a
/// list is under way only inside its brackets, and between items nothing is
/// held back.
pub open spec fn lex_inv(st: LexState) -> bool {
    &&& props_follow_names(st.items)
    &&& st.state == Parser::OnProp ==> st.items.len() > 0 && st.items.last() is Node
    &&& st.state != Parser::OnNodeVec ==> st.names.len() == 0
    &&& st.state == Parser::Nothing || st.state == Parser::OnLink || st.state == Parser::OnComment
        ==> st.buffer.len() == 0
}

/// A step keeps what holds of the lexer, and fails only with an error of the
/// lexer.
pub proof fn lemma_lex_step(st: LexState, c: char)
    requires
        lex_inv(st),
    ensures
        match lex_step(st, c) {
            Ok(next) => lex_inv(next),
            Err(e) => is_lex_error(e),
        },
{
    if st.state == Parser::OnProp && c == '}' {
        lemma_props_errors(st.buffer);
    }
    match lex_step(st, c) {
        Ok(next) => {
            assert forall|i: int| #[trigger] props_at(next.items, i) implies i > 0 && next.items[i
                - 1] is Node by {
                if i < st.items.len() {
                    assert(props_at(st.items, i));
                }
            }
        },
        Err(_) => {},
    }
}

/// A run keeps what holds of the lexer, and fails only with an error of the
/// lexer.
pub proof fn lemma_lex_from(st: LexState, text: Seq<char>)
    requires
        lex_inv(st),
    ensures
        match lex_from(st, text) {
            Ok(next) => lex_inv(next),
            Err(e) => is_lex_error(e),
        },
    decreases text.len(),
{
    if text.len() > 0 {
        lemma_lex_from(st, text.drop_last());
        match lex_from(st, text.drop_last()) {
            Ok(mid) => {
                lemma_lex_step(mid, text.last());
            },
            Err(_) => {},
        }
    }
}

/// Whatever the text, the lexer fails only with an error of its own, never
/// with `ValueWithoutKey` or `IlegalCharItem`; and in the items that it
/// returns every property block stands directly behind a bare name.
pub proof fn lemma_parse(text: Seq<char>)
    ensures
        match parse_spec(text) {
            Ok(items) => props_follow_names(items),
            Err(e) => is_lex_error(e),
        },
{
    lemma_lex_from(LexState::start(), text);
}

/// Reading two texts one after the other is reading the second from where
/// the first led.
pub proof fn lemma_lex_concat(st: LexState, a: Seq<char>, b: Seq<char>)
    ensures
        lex_from(st, a + b) == match lex_from(st, a) {
            Ok(mid) => lex_from(mid, b),
            Err(e) => Err(e),
        },
    decreases b.len(),
{
    if b.len() == 0 {
        assert(a + b =~= a);
    } else {
        lemma_lex_concat(st, a, b.drop_last());
        assert((a + b).drop_last() =~= a + b.drop_last());
    }
}

} // verus!
