//! Regular expressions and shell patterns, as the `regex` and `glob` crates
//! compile and match them.
//!
//! A compiled pattern is kept beside the text that it was compiled from, and
//! reads as that text. Nothing here is proved: each function hands its
//! arguments to the crate and says of the answer what the crate's own source
//! shows.
use vstd::prelude::*;

verus! {

#[verifier::external_type_specification]
#[verifier::external_body]
pub struct ExRegex(regex::Regex);

#[verifier::external_type_specification]
#[verifier::external_body]
pub struct ExRegexError(regex::Error);

#[verifier::external_type_specification]
#[verifier::external_body]
pub struct ExGlobPattern(glob::Pattern);

#[verifier::external_type_specification]
#[verifier::external_body]
pub struct ExGlobPatternError(glob::PatternError);

/// Whether the regular expression `pattern` matches somewhere in `text`.
pub uninterp spec fn regex_matches(pattern: Seq<char>, text: Seq<char>) -> bool;

/// A regular expression, compiled.
#[derive(Debug)]
pub struct RegexPattern {
    source: String,
    regex: regex::Regex,
}

/// A shell pattern, compiled.
#[derive(Debug)]
pub struct GlobPattern {
    source: String,
    pattern: glob::Pattern,
}

impl View for RegexPattern {
    type V = Seq<char>;

    closed spec fn view(&self) -> Seq<char> {
        self.source@
    }
}

impl View for GlobPattern {
    type V = Seq<char>;

    closed spec fn view(&self) -> Seq<char> {
        self.source@
    }
}

/// `regex::Regex::new`: compiles a regular expression. The crate decides
/// whether the expression compiles; what compiles is kept beside its source.
#[verifier::external_body]
pub(crate) fn compile_regex(source: String) -> (r: Result<RegexPattern, regex::Error>)
    ensures
        r matches Ok(p) ==> p@ == source@,
{
    let regex = regex::Regex::new(&source)?;
    Ok(RegexPattern { source, regex })
}

/// `regex::Regex::is_match`: whether the expression matches somewhere in the
/// text. The answer depends on the expression's source and the text alone.
#[verifier::external_body]
pub(crate) fn regex_is_match(p: &RegexPattern, text: &str) -> (b: bool)
    ensures
        b == regex_matches(p@, text@),
{
    p.regex.is_match(text)
}

/// `glob::Pattern::new`: compiles a shell pattern. The crate decides whether
/// the pattern compiles; what compiles is kept beside its source.
#[verifier::external_body]
pub(crate) fn compile_glob(source: String) -> (r: Result<GlobPattern, glob::PatternError>)
    ensures
        r matches Ok(p) ==> p@ == source@,
{
    let pattern = glob::Pattern::new(&source)?;
    Ok(GlobPattern { source, pattern })
}

/// `glob::Pattern::matches`: whether the pattern matches the text. Nothing
/// is claimed of the answer, which differs between systems.
#[verifier::external_body]
pub(crate) fn glob_matches(p: &GlobPattern, text: &str) -> bool {
    p.pattern.matches(text)
}

/// The matches of the regular expression `pattern` in `text`, from left to
/// right and without overlap: for each the byte offset at which it begins,
/// and the text matched.
pub uninterp spec fn regex_found(pattern: Seq<char>, text: Seq<char>) -> Seq<(usize, Seq<char>)>;

/// What a list of matches reads as.
pub open spec fn found_view(found: Seq<(usize, String)>) -> Seq<(usize, Seq<char>)> {
    found.map_values(|m: (usize, String)| (m.0, m.1@))
}

/// `regex::Regex::find_iter`: the matches of the expression in the text,
/// each as the offset of `Match::start` and the text of `Match::as_str`. The
/// answer depends on the expression's source and the text alone.
#[verifier::external_body]
pub(crate) fn regex_finds(p: &RegexPattern, text: &str) -> (found: Vec<(usize, String)>)
    ensures
        found_view(found@) == regex_found(p@, text@),
{
    p.regex.find_iter(text).map(|m| (m.start(), m.as_str().to_string())).collect()
}

impl RegexPattern {
    /// The text that the expression was compiled from.
    pub fn as_str(&self) -> (source: &str)
        ensures
            source@ == self@,
    {
        self.source.as_str()
    }
}

impl GlobPattern {
    /// The text that the pattern was compiled from.
    pub fn as_str(&self) -> (source: &str)
        ensures
            source@ == self@,
    {
        self.source.as_str()
    }
}

} // verus!
