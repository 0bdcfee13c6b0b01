//! Filters of lines: a line passes if it is a given text, begins or ends
//! with it, holds it, or matches a regular expression or a shell pattern;
//! and filters joined by and, or and not.
//!
//! Regular expressions are those of the `regex` crate and shell patterns
//! those of the `glob` crate. Whether a regular expression compiles, whether
//! a shell pattern does, and what a shell pattern matches is for those
//! crates to say: the contracts here say what is done with their answers.
use crate::matching::{
    compile_glob, compile_regex, glob_matches, regex_is_match, regex_matches, GlobPattern,
    RegexPattern,
};
use crate::text::{chars_of, contains, ends_with, occurs_in, same_text, starts_with, text_from};
use vstd::prelude::*;

verus! {

#[derive(Debug)]
pub enum FilteError {
    /// A `]` with nothing to close.
    NeedlessClose,
    /// A filter was due and none came.
    MissingCommand,
    /// A `]` was due and none came.
    MissingClose,
    /// More than one filter inside `not[ ]`.
    TooManyFilters,
    /// The regular expression does not compile.
    RegexSyntax(regex::Error),
    /// The shell pattern does not compile.
    GlobSyntax(glob::PatternError),
    /// No mode has this letter.
    NoFilter(char),
    /// An empty filter.
    MissingText,
    /// An `i` with no mode behind it.
    MissingMode,
}

/// An error as contracts see it.
pub enum FilteErrorView {
    NeedlessClose,
    MissingCommand,
    MissingClose,
    TooManyFilters,
    RegexSyntax,
    GlobSyntax,
    NoFilter(char),
    MissingText,
    MissingMode,
}

impl View for FilteError {
    type V = FilteErrorView;

    open spec fn view(&self) -> FilteErrorView {
        match *self {
            FilteError::NeedlessClose => FilteErrorView::NeedlessClose,
            FilteError::MissingCommand => FilteErrorView::MissingCommand,
            FilteError::MissingClose => FilteErrorView::MissingClose,
            FilteError::TooManyFilters => FilteErrorView::TooManyFilters,
            FilteError::RegexSyntax(_) => FilteErrorView::RegexSyntax,
            FilteError::GlobSyntax(_) => FilteErrorView::GlobSyntax,
            FilteError::NoFilter(c) => FilteErrorView::NoFilter(c),
            FilteError::MissingText => FilteErrorView::MissingText,
            FilteError::MissingMode => FilteErrorView::MissingMode,
        }
    }
}

/// How a text is held against a line.
#[derive(Debug)]
pub enum Mode {
    Is(String),
    Starts(String),
    Ends(String),
    Includes(String),
    Regex(RegexPattern),
    Glob(GlobPattern),
}

/// A mode as contracts see it.
pub enum ModeView {
    Is(Seq<char>),
    Starts(Seq<char>),
    Ends(Seq<char>),
    Includes(Seq<char>),
    Regex(Seq<char>),
    Glob(Seq<char>),
}

impl View for Mode {
    type V = ModeView;

    open spec fn view(&self) -> ModeView {
        match *self {
            Mode::Is(s) => ModeView::Is(s@),
            Mode::Starts(s) => ModeView::Starts(s@),
            Mode::Ends(s) => ModeView::Ends(s@),
            Mode::Includes(s) => ModeView::Includes(s@),
            Mode::Regex(p) => ModeView::Regex(p@),
            Mode::Glob(p) => ModeView::Glob(p@),
        }
    }
}

/// One filter: a mode, and whether its answer is turned round.
#[derive(Debug)]
pub struct RawFilter {
    filter: Mode,
    invert: bool,
}

/// A filter as contracts see it.
pub struct RawView {
    pub filter: ModeView,
    pub invert: bool,
}

impl View for RawFilter {
    type V = RawView;

    closed spec fn view(&self) -> RawView {
        RawView { filter: self.filter@, invert: self.invert }
    }
}

/// Filters, joined.
#[derive(Debug)]
pub enum Filter {
    Raw(RawFilter),
    And(Vec<Filter>),
    Or(Vec<Filter>),
    Not(Box<Filter>),
}

/// Joined filters as contracts see them.
pub enum FilterView {
    Raw(RawView),
    And(Seq<FilterView>),
    Or(Seq<FilterView>),
    Not(Box<FilterView>),
}

/// What a list of filters reads as.
pub open spec fn filters_view(filters: Seq<Filter>) -> Seq<FilterView>
    decreases filters,
{
    Seq::new(
        filters.len(),
        |i: int|
            if 0 <= i < filters.len() {
                filters[i]@
            } else {
                FilterView::And(Seq::empty())
            },
    )
}

impl View for Filter {
    type V = FilterView;

    open spec fn view(&self) -> FilterView
        decreases self,
    {
        match *self {
            Filter::Raw(r) => FilterView::Raw(r@),
            Filter::And(fs) => FilterView::And(filters_view(fs@)),
            Filter::Or(fs) => FilterView::Or(filters_view(fs@)),
            Filter::Not(f) => FilterView::Not(Box::new((*f)@)),
        }
    }
}

/// Whether the mode finds its text in the line. Of a shell pattern nothing
/// is said here.
pub open spec fn mode_matches(mode: ModeView, text: Seq<char>) -> bool {
    match mode {
        ModeView::Is(s) => s == text,
        ModeView::Starts(s) => s.is_prefix_of(text),
        ModeView::Ends(s) => s.is_suffix_of(text),
        ModeView::Includes(s) => occurs_in(s, text),
        ModeView::Regex(p) => regex_matches(p, text),
        ModeView::Glob(_) => false,
    }
}

/// Whether the line passes the filter: it does if the mode finds its text,
/// or if it does not and the filter is turned round.
pub open spec fn raw_accepts(r: RawView, text: Seq<char>) -> bool {
    r.invert != mode_matches(r.filter, text)
}

/// Whether the line passes: all of the filters joined by and, one of those
/// joined by or, and not the one under not.
pub open spec fn accepts(f: FilterView, text: Seq<char>) -> bool
    decreases f,
{
    match f {
        FilterView::Raw(r) => raw_accepts(r, text),
        FilterView::And(fs) => forall|i: int| 0 <= i < fs.len() ==> accepts(#[trigger] fs[i], text),
        FilterView::Or(fs) => exists|i: int| 0 <= i < fs.len() && accepts(#[trigger] fs[i], text),
        FilterView::Not(inner) => !accepts(*inner, text),
    }
}

/// Whether a shell pattern stands somewhere in the filter.
pub open spec fn uses_glob(f: FilterView) -> bool
    decreases f,
{
    match f {
        FilterView::Raw(r) => r.filter is Glob,
        FilterView::And(fs) => exists|i: int| 0 <= i < fs.len() && uses_glob(#[trigger] fs[i]),
        FilterView::Or(fs) => exists|i: int| 0 <= i < fs.len() && uses_glob(#[trigger] fs[i]),
        FilterView::Not(inner) => uses_glob(*inner),
    }
}

/// The filters joined in `f`.
pub open spec fn joined(f: FilterView) -> Seq<FilterView> {
    match f {
        FilterView::And(fs) => fs,
        FilterView::Or(fs) => fs,
        _ => Seq::empty(),
    }
}

/// Where no shell pattern stands in joined filters, none stands in any of
/// them; and the line passes them as it passes each.
proof fn lemma_joined(f: FilterView, text: Seq<char>, i: int)
    requires
        0 <= i < joined(f).len(),
        !uses_glob(f),
    ensures
        !uses_glob(joined(f)[i]),
        f is And && accepts(f, text) ==> accepts(joined(f)[i], text),
        f is Or && accepts(joined(f)[i], text) ==> accepts(f, text),
{
}

impl RawFilter {
    /// The filter of this mode, turned round or not.
    pub fn new(filter: Mode, invert: bool) -> (r: RawFilter)
        ensures
            r@ == (RawView { filter: filter@, invert }),
    {
        RawFilter { filter, invert }
    }

    /// Whether the line passes. Where the mode is a shell pattern, the
    /// `glob` crate says whether it matches.
    pub fn compare(&self, text: &str) -> (pass: bool)
        ensures
            !(self@.filter is Glob) ==> pass == raw_accepts(self@, text@),
    {
        self.invert != match &self.filter {
            Mode::Is(rf) => same_text(rf.as_str(), text),
            Mode::Starts(rf) => starts_with(text, rf.as_str()),
            Mode::Ends(rf) => ends_with(text, rf.as_str()),
            Mode::Includes(rf) => contains(text, rf.as_str()),
            Mode::Regex(rf) => regex_is_match(rf, text),
            Mode::Glob(rf) => glob_matches(rf, text),
        }
    }
}

impl Filter {
    /// Whether the line passes. Where a shell pattern stands in the filter,
    /// the `glob` crate has its say in the answer.
    pub fn compare(&self, text: &str) -> (pass: bool)
        ensures
            !uses_glob(self@) ==> pass == accepts(self@, text@),
        decreases self,
    {
        match self {
            Filter::Raw(r) => r.compare(text),
            Filter::Or(rs) => {
                let mut i: usize = 0;
                while i < rs.len()
                    invariant
                        i <= rs.len(),
                        !uses_glob(self@) ==> forall|k: int|
                            0 <= k < i ==> !accepts(#[trigger] filters_view(rs@)[k], text@),
                        self@ == FilterView::Or(filters_view(rs@)),
                        decreases_to!(self => rs@),
                    decreases rs.len() - i,
                {
                    assert(decreases_to!(rs@ => rs@[i as int]));
                    let ghost here = filters_view(rs@)[i as int];
                    assert(here == rs@[i as int]@);
                    proof {
                        if !uses_glob(self@) {
                            lemma_joined(self@, text@, i as int);
                        }
                    }
                    if rs[i].compare(text) {
                        return true;
                    }
                    i += 1;
                }
                false
            },
            Filter::And(rs) => {
                let mut i: usize = 0;
                while i < rs.len()
                    invariant
                        i <= rs.len(),
                        !uses_glob(self@) ==> forall|k: int|
                            0 <= k < i ==> accepts(#[trigger] filters_view(rs@)[k], text@),
                        self@ == FilterView::And(filters_view(rs@)),
                        decreases_to!(self => rs@),
                    decreases rs.len() - i,
                {
                    assert(decreases_to!(rs@ => rs@[i as int]));
                    let ghost here = filters_view(rs@)[i as int];
                    assert(here == rs@[i as int]@);
                    proof {
                        if !uses_glob(self@) {
                            lemma_joined(self@, text@, i as int);
                        }
                    }
                    if !rs[i].compare(text) {
                        return false;
                    }
                    i += 1;
                }
                true
            },
            Filter::Not(r) => !r.compare(text),
        }
    }
}

/// What the letter of a mode asks for.
pub enum ModeKind {
    Is,
    Starts,
    Ends,
    Includes,
    /// Includes, with the answer turned round.
    Excludes,
    Regex,
    Glob,
}

/// The mode that a letter stands for: `=` is, `s` or `^` starts, `z` or `$`
/// ends, `h` or `+` includes, `e` or `-` excludes, `r` or `.` matches the
/// regular expression, `g` or `?` matches the shell pattern.
pub open spec fn mode_kind(c: char) -> Option<ModeKind> {
    if c == '=' {
        Some(ModeKind::Is)
    } else if c == 's' || c == '^' {
        Some(ModeKind::Starts)
    } else if c == 'z' || c == '$' {
        Some(ModeKind::Ends)
    } else if c == 'h' || c == '+' {
        Some(ModeKind::Includes)
    } else if c == 'e' || c == '-' {
        Some(ModeKind::Excludes)
    } else if c == 'r' || c == '.' {
        Some(ModeKind::Regex)
    } else if c == 'g' || c == '?' {
        Some(ModeKind::Glob)
    } else {
        None
    }
}

/// The filter of this kind with this text.
pub open spec fn raw_of(kind: ModeKind, invert: bool, pattern: Seq<char>) -> RawView {
    match kind {
        ModeKind::Is => RawView { filter: ModeView::Is(pattern), invert },
        ModeKind::Starts => RawView { filter: ModeView::Starts(pattern), invert },
        ModeKind::Ends => RawView { filter: ModeView::Ends(pattern), invert },
        ModeKind::Includes => RawView { filter: ModeView::Includes(pattern), invert },
        ModeKind::Excludes => RawView { filter: ModeView::Includes(pattern), invert: !invert },
        ModeKind::Regex => RawView { filter: ModeView::Regex(pattern), invert },
        ModeKind::Glob => RawView { filter: ModeView::Glob(pattern), invert },
    }
}

/// The filter that a text stands for, if its regular expression or shell
/// pattern compiles: an `i` in front turns the filter round, then comes the
/// letter of the mode, and the rest is the text to look for.
pub open spec fn raw_spec(tx: Seq<char>) -> Result<RawView, FilteErrorView> {
    if tx.len() == 0 {
        Err(FilteErrorView::MissingText)
    } else if tx[0] == 'i' && tx.len() < 2 {
        Err(FilteErrorView::MissingMode)
    } else {
        let invert = tx[0] == 'i';
        let at = if invert {
            1int
        } else {
            0int
        };
        match mode_kind(tx[at]) {
            Some(kind) => Ok(raw_of(kind, invert, tx.skip(at + 1))),
            None => Err(FilteErrorView::NoFilter(tx[at])),
        }
    }
}

/// Whether the filter that a text stands for needs a regular expression or a
/// shell pattern compiled.
pub open spec fn needs_compiling(tx: Seq<char>) -> bool {
    raw_spec(tx) matches Ok(raw) && (raw.filter is Regex || raw.filter is Glob)
}

/// The filter of a regular expression, from what compiling it gave.
pub fn regex_filter(compiled: Result<RegexPattern, regex::Error>, invert: bool) -> (r: Result<
    RawFilter,
    FilteError,
>)
    ensures
        match compiled {
            Ok(p) => r matches Ok(f) && f@ == (RawView { filter: ModeView::Regex(p@), invert }),
            Err(_) => r matches Err(e) && e@ == FilteErrorView::RegexSyntax,
        },
{
    match compiled {
        Ok(p) => Ok(RawFilter { filter: Mode::Regex(p), invert }),
        Err(e) => Err(FilteError::RegexSyntax(e)),
    }
}

/// The filter of a shell pattern, from what compiling it gave.
pub fn glob_filter(compiled: Result<GlobPattern, glob::PatternError>, invert: bool) -> (r: Result<
    RawFilter,
    FilteError,
>)
    ensures
        match compiled {
            Ok(p) => r matches Ok(f) && f@ == (RawView { filter: ModeView::Glob(p@), invert }),
            Err(_) => r matches Err(e) && e@ == FilteErrorView::GlobSyntax,
        },
{
    match compiled {
        Ok(p) => Ok(RawFilter { filter: Mode::Glob(p), invert }),
        Err(e) => Err(FilteError::GlobSyntax(e)),
    }
}

impl RawFilter {
    /// The filter that a text stands for. Where the text asks for a regular
    /// expression or a shell pattern, the crate that compiles it may refuse
    /// it; nothing else can go wrong that `raw_spec` does not tell.
    pub fn try_from(tx: String) -> (r: Result<RawFilter, FilteError>)
        ensures
            match raw_spec(tx@) {
                Ok(raw) => match r {
                    Ok(f) => f@ == raw,
                    Err(e) => (raw.filter is Regex && e@ == FilteErrorView::RegexSyntax) || (
                    raw.filter is Glob && e@ == FilteErrorView::GlobSyntax),
                },
                Err(e) => r matches Err(x) && x@ == e,
            },
    {
        let chars = chars_of(tx.as_str());
        if chars.len() == 0 {
            return Err(FilteError::MissingText);
        }
        let mut mode = chars[0];
        let mut invert = mode == 'i';
        let mut at: usize = 1;
        if mode == 'i' {
            if chars.len() < 2 {
                return Err(FilteError::MissingMode);
            }
            mode = chars[1];
            at = 2;
        }
        let pattern = text_from(&chars, at);
        if mode == '=' {
            Ok(RawFilter { filter: Mode::Is(pattern), invert })
        } else if mode == 's' || mode == '^' {
            Ok(RawFilter { filter: Mode::Starts(pattern), invert })
        } else if mode == 'z' || mode == '$' {
            Ok(RawFilter { filter: Mode::Ends(pattern), invert })
        } else if mode == 'h' || mode == '+' {
            Ok(RawFilter { filter: Mode::Includes(pattern), invert })
        } else if mode == 'e' || mode == '-' {
            invert = !invert;
            Ok(RawFilter { filter: Mode::Includes(pattern), invert })
        } else if mode == 'r' || mode == '.' {
            regex_filter(compile_regex(pattern), invert)
        } else if mode == 'g' || mode == '?' {
            glob_filter(compile_glob(pattern), invert)
        } else {
            Err(FilteError::NoFilter(mode))
        }
    }
}

/// One word of a filter expression.
#[derive(Debug)]
pub enum CdFilter {
    And,
    Or,
    Not,
    Close,
    Raw(String),
}

/// A word of a filter expression as contracts see it.
pub enum CdView {
    And,
    Or,
    Not,
    Close,
    Raw(Seq<char>),
}

impl View for CdFilter {
    type V = CdView;

    open spec fn view(&self) -> CdView {
        match *self {
            CdFilter::And => CdView::And,
            CdFilter::Or => CdView::Or,
            CdFilter::Not => CdView::Not,
            CdFilter::Close => CdView::Close,
            CdFilter::Raw(s) => CdView::Raw(s@),
        }
    }
}

/// The word that an argument is: `and[`, `or[`, `not[` and `]` are the
/// brackets, anything else is a filter.
pub open spec fn word_of(arg: Seq<char>) -> CdView {
    if arg == seq!['a', 'n', 'd', '['] {
        CdView::And
    } else if arg == seq!['n', 'o', 't', '['] {
        CdView::Not
    } else if arg == seq!['o', 'r', '['] {
        CdView::Or
    } else if arg == seq![']'] {
        CdView::Close
    } else {
        CdView::Raw(arg)
    }
}

/// The words of the arguments.
pub open spec fn words_of(args: Seq<String>) -> Seq<CdView> {
    args.map_values(|a: String| word_of(a@))
}

/// What a list of words reads as.
pub open spec fn words_view(cmds: Seq<CdFilter>) -> Seq<CdView> {
    cmds.map_values(|c: CdFilter| c@)
}

/// The words of the arguments.
pub fn compile(args: Vec<String>) -> (cmds: Vec<CdFilter>)
    ensures
        words_view(cmds@) == words_of(args@),
{
    proof {
        reveal_strlit("and[");
        reveal_strlit("not[");
        reveal_strlit("or[");
        reveal_strlit("]");
        assert("and["@ =~= seq!['a', 'n', 'd', '[']);
        assert("not["@ =~= seq!['n', 'o', 't', '[']);
        assert("or["@ =~= seq!['o', 'r', '[']);
        assert("]"@ =~= seq![']']);
    }
    let mut cmds: Vec<CdFilter> = Vec::new();
    let mut i: usize = 0;
    while i < args.len()
        invariant
            i <= args.len(),
            cmds@.len() == i,
            forall|k: int| 0 <= k < i ==> (#[trigger] cmds@[k])@ == word_of(args@[k]@),
            "and["@ == seq!['a', 'n', 'd', '['],
            "not["@ == seq!['n', 'o', 't', '['],
            "or["@ == seq!['o', 'r', '['],
            "]"@ == seq![']'],
        decreases args.len() - i,
    {
        let arg = args[i].as_str();
        let cmd = if same_text(arg, "and[") {
            CdFilter::And
        } else if same_text(arg, "not[") {
            CdFilter::Not
        } else if same_text(arg, "or[") {
            CdFilter::Or
        } else if same_text(arg, "]") {
            CdFilter::Close
        } else {
            CdFilter::Raw(args[i].clone())
        };
        cmds.push(cmd);
        i += 1;
    }
    assert(words_view(cmds@) =~= words_of(args@));
    cmds
}

/// A filter read, and the place of the word behind it.
pub struct Read {
    pub filter: FilterView,
    pub next: int,
}

/// The filter that begins at word `pos`, which is no `]`: one filter, or the
/// filters between a bracket and its `]`.
pub open spec fn read_item(cmds: Seq<CdView>, pos: int) -> Result<Read, FilteErrorView>
    recommends
        0 <= pos < cmds.len(),
    decreases cmds.len() - pos, 0int,
{
    if 0 <= pos < cmds.len() {
        match cmds[pos] {
            CdView::Not => read_single(cmds, pos + 1),
            CdView::And => match read_many(cmds, pos + 1, Seq::empty()) {
                Ok((fs, next)) => Ok(Read { filter: FilterView::And(fs), next }),
                Err(e) => Err(e),
            },
            CdView::Or => match read_many(cmds, pos + 1, Seq::empty()) {
                Ok((fs, next)) => Ok(Read { filter: FilterView::Or(fs), next }),
                Err(e) => Err(e),
            },
            CdView::Raw(s) => match raw_spec(s) {
                Ok(raw) => Ok(Read { filter: FilterView::Raw(raw), next: pos + 1 }),
                Err(e) => Err(e),
            },
            CdView::Close => Err(FilteErrorView::NeedlessClose),
        }
    } else {
        Err(FilteErrorView::MissingCommand)
    }
}

/// What stands inside `not[ ]` from word `pos` on: one filter and the `]`.
pub open spec fn read_single(cmds: Seq<CdView>, pos: int) -> Result<Read, FilteErrorView>
    decreases cmds.len() - pos, 1int,
{
    if !(0 <= pos < cmds.len()) {
        Err(FilteErrorView::MissingClose)
    } else if cmds[pos] is Close {
        Err(FilteErrorView::MissingCommand)
    } else {
        match read_item(cmds, pos) {
            Ok(inner) => if !(0 <= inner.next < cmds.len()) {
                Err(FilteErrorView::MissingClose)
            } else if cmds[inner.next] is Close {
                Ok(Read { filter: FilterView::Not(Box::new(inner.filter)), next: inner.next + 1 })
            } else {
                Err(FilteErrorView::TooManyFilters)
            },
            Err(e) => Err(e),
        }
    }
}

/// What stands inside `and[ ]` or `or[ ]` from word `pos` on, behind the
/// filters `done`: any number of filters and the `]`.
pub open spec fn read_many(cmds: Seq<CdView>, pos: int, done: Seq<FilterView>) -> Result<
    (Seq<FilterView>, int),
    FilteErrorView,
>
    decreases cmds.len() - pos, 1int,
{
    if !(0 <= pos < cmds.len()) {
        Err(FilteErrorView::MissingClose)
    } else if cmds[pos] is Close {
        Ok((done, pos + 1))
    } else {
        match read_item(cmds, pos) {
            Ok(one) => if pos < one.next <= cmds.len() {
                read_many(cmds, one.next, done.push(one.filter))
            } else {
                Err(FilteErrorView::MissingClose)
            },
            Err(e) => Err(e),
        }
    }
}

/// The filter that the words stand for, if its regular expressions and
/// shell patterns compile: the first filter of the words. What follows it is
/// not looked at.
pub open spec fn read_spec(cmds: Seq<CdView>) -> Result<FilterView, FilteErrorView> {
    if cmds.len() == 0 {
        Err(FilteErrorView::MissingCommand)
    } else {
        match read_item(cmds, 0) {
            Ok(read) => Ok(read.filter),
            Err(e) => Err(e),
        }
    }
}

/// Whether the word needs a regular expression or a shell pattern compiled.
pub open spec fn word_needs_compiling(word: CdView) -> bool {
    match word {
        CdView::Raw(s) => needs_compiling(s),
        _ => false,
    }
}

/// Whether one of the words needs a regular expression or a shell pattern
/// compiled.
pub open spec fn any_needs_compiling(cmds: Seq<CdView>) -> bool {
    exists|k: int| 0 <= k < cmds.len() && word_needs_compiling(#[trigger] cmds[k])
}

/// What reading may give where `expected` is due: that, or the refusal of a
/// regular expression or a shell pattern, if the words hold one.
pub open spec fn read_as<T>(
    cmds: Seq<CdView>,
    expected: Result<T, FilteErrorView>,
    got: Result<T, FilteErrorView>,
) -> bool {
    ||| got == expected
    ||| any_needs_compiling(cmds) && (got == Err::<T, FilteErrorView>(FilteErrorView::RegexSyntax)
        || got == Err::<T, FilteErrorView>(FilteErrorView::GlobSyntax))
}

/// What was read moved on, and not past the end.
proof fn lemma_read_item_moves(cmds: Seq<CdView>, pos: int)
    ensures
        read_item(cmds, pos) matches Ok(read) ==> pos < read.next <= cmds.len(),
    decreases cmds.len() - pos, 0int,
{
    if 0 <= pos < cmds.len() {
        match cmds[pos] {
            CdView::Not => {
                lemma_read_single_moves(cmds, pos + 1);
            },
            CdView::And => {
                lemma_read_many_moves(cmds, pos + 1, Seq::empty());
            },
            CdView::Or => {
                lemma_read_many_moves(cmds, pos + 1, Seq::empty());
            },
            _ => {},
        }
    }
}

/// What was read moved on, and not past the end.
proof fn lemma_read_single_moves(cmds: Seq<CdView>, pos: int)
    ensures
        read_single(cmds, pos) matches Ok(read) ==> pos < read.next <= cmds.len(),
    decreases cmds.len() - pos, 1int,
{
    if 0 <= pos < cmds.len() && !(cmds[pos] is Close) {
        lemma_read_item_moves(cmds, pos);
    }
}

/// What was read moved on, and not past the end.
proof fn lemma_read_many_moves(cmds: Seq<CdView>, pos: int, done: Seq<FilterView>)
    ensures
        read_many(cmds, pos, done) matches Ok(read) ==> pos < read.1 <= cmds.len(),
    decreases cmds.len() - pos, 1int,
{
    if 0 <= pos < cmds.len() && !(cmds[pos] is Close) {
        lemma_read_item_moves(cmds, pos);
        match read_item(cmds, pos) {
            Ok(one) => {
                lemma_read_many_moves(cmds, one.next, done.push(one.filter));
            },
            Err(_) => {},
        }
    }
}

/// What reading one filter gave, as contracts see it.
pub open spec fn read_view(r: Result<(Filter, usize), FilteError>) -> Result<Read, FilteErrorView> {
    match r {
        Ok((f, next)) => Ok(Read { filter: f@, next: next as int }),
        Err(e) => Err(e@),
    }
}

/// What reading a list of filters gave, as contracts see it.
pub open spec fn many_view(r: Result<(Vec<Filter>, usize), FilteError>) -> Result<
    (Seq<FilterView>, int),
    FilteErrorView,
> {
    match r {
        Ok((fs, next)) => Ok((filters_view(fs@), next as int)),
        Err(e) => Err(e@),
    }
}

/// Reads the filter that begins at word `pos`.
fn next(cmds: &Vec<CdFilter>, pos: usize) -> (r: Result<(Filter, usize), FilteError>)
    ensures
        read_as(words_view(cmds@), read_item(words_view(cmds@), pos as int), read_view(r)),
    decreases cmds@.len() - pos, 0int,
{
    let ghost words = words_view(cmds@);
    if pos >= cmds.len() {
        return Err(FilteError::MissingCommand);
    }
    assert(words[pos as int] == cmds@[pos as int]@);
    match &cmds[pos] {
        CdFilter::Not => csin(cmds, pos + 1),
        CdFilter::And => match cvec(cmds, pos + 1) {
            Ok((fs, after)) => Ok((Filter::And(fs), after)),
            Err(e) => Err(e),
        },
        CdFilter::Or => match cvec(cmds, pos + 1) {
            Ok((fs, after)) => Ok((Filter::Or(fs), after)),
            Err(e) => Err(e),
        },
        CdFilter::Close => Err(FilteError::NeedlessClose),
        CdFilter::Raw(s) => {
            assert(needs_compiling(s@) ==> word_needs_compiling(words[pos as int]));
            match RawFilter::try_from(s.clone()) {
                Ok(raw) => Ok((Filter::Raw(raw), pos + 1)),
                Err(e) => Err(e),
            }
        },
    }
}

/// Reads what stands inside `not[ ]` from word `pos` on.
fn csin(cmds: &Vec<CdFilter>, pos: usize) -> (r: Result<(Filter, usize), FilteError>)
    ensures
        read_as(words_view(cmds@), read_single(words_view(cmds@), pos as int), read_view(r)),
    decreases cmds@.len() - pos, 1int,
{
    let ghost words = words_view(cmds@);
    if pos >= cmds.len() {
        return Err(FilteError::MissingClose);
    }
    assert(words[pos as int] == cmds@[pos as int]@);
    match &cmds[pos] {
        CdFilter::Close => {
            return Err(FilteError::MissingCommand);
        },
        _ => {},
    }
    let (out, after) = match next(cmds, pos) {
        Ok(read) => read,
        Err(e) => {
            return Err(e);
        },
    };
    if after >= cmds.len() {
        return Err(FilteError::MissingClose);
    }
    assert(words[after as int] == cmds@[after as int]@);
    match &cmds[after] {
        CdFilter::Close => Ok((Filter::Not(Box::new(out)), after + 1)),
        _ => Err(FilteError::TooManyFilters),
    }
}

/// Reads what stands inside `and[ ]` or `or[ ]` from word `pos` on.
fn cvec(cmds: &Vec<CdFilter>, pos: usize) -> (r: Result<(Vec<Filter>, usize), FilteError>)
    ensures
        read_as(
            words_view(cmds@),
            read_many(words_view(cmds@), pos as int, Seq::empty()),
            many_view(r),
        ),
    decreases cmds@.len() - pos, 1int,
{
    let ghost words = words_view(cmds@);
    let ghost whole = read_many(words, pos as int, Seq::empty());
    let mut out: Vec<Filter> = Vec::new();
    let mut at: usize = pos;
    assert(filters_view(out@) =~= Seq::empty());
    loop
        invariant
            pos <= at,
            words == words_view(cmds@),
            whole == read_many(words, pos as int, Seq::empty()),
            whole == read_many(words, at as int, filters_view(out@)),
        decreases cmds@.len() - at,
    {
        if at >= cmds.len() {
            return Err(FilteError::MissingClose);
        }
        assert(words[at as int] == cmds@[at as int]@);
        match &cmds[at] {
            CdFilter::Close => {
                return Ok((out, at + 1));
            },
            _ => {},
        }
        proof {
            lemma_read_item_moves(words, at as int);
        }
        let ghost before = filters_view(out@);
        match next(cmds, at) {
            Ok((f, after)) => {
                out.push(f);
                assert(filters_view(out@) =~= before.push(f@));
                at = after;
            },
            Err(e) => {
                return Err(e);
            },
        }
    }
}

/// Reads the filter that the arguments stand for: the first filter of the
/// arguments; what follows it is not looked at. Where an argument asks for a
/// regular expression or a shell pattern, the crate that compiles it may
/// refuse it; nothing else can go wrong that `read_spec` does not tell.
pub fn parse(args: Vec<String>) -> (r: Result<Filter, FilteError>)
    ensures
        read_as(words_of(args@), read_spec(words_of(args@)), match r {
            Ok(f) => Ok(f@),
            Err(e) => Err(e@),
        }),
{
    let cmds = compile(args);
    match next(&cmds, 0) {
        Ok((f, _)) => Ok(f),
        Err(e) => Err(e),
    }
}

} // verus!
