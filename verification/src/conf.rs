//! What a search for notes in files is told: which files to read, which
//! directories to search, and how a note looks in which file.
use crate::filstu::PathFilter;
use crate::matching::{compile_regex, regex_is_match, regex_matches, RegexPattern};
use crate::parse2::names_view;
use vstd::prelude::*;

verus! {

/// The path of a report, as text.
#[derive(Debug)]
pub struct FilePath(pub String);

/// Regular expressions, of which one must match.
#[derive(Debug)]
pub struct Patterns(pub Vec<RegexPattern>);

#[derive(Debug)]
pub enum ConfigError {
    /// A regular expression does not compile.
    InvalidRegex(regex::Error),
}

/// The texts that the expressions were compiled from.
pub open spec fn sources(patterns: Seq<RegexPattern>) -> Seq<Seq<char>> {
    patterns.map_values(|p: RegexPattern| p@)
}

/// Whether one of the expressions matches somewhere in the text.
pub open spec fn any_matches(patterns: Seq<Seq<char>>, text: Seq<char>) -> bool {
    exists|k: int| 0 <= k < patterns.len() && regex_matches(#[trigger] patterns[k], text)
}

/// What compiling one more expression adds to those compiled before.
pub fn add_pattern(
    patterns: &mut Vec<RegexPattern>,
    compiled: Result<RegexPattern, regex::Error>,
) -> (r: Result<(), ConfigError>)
    ensures
        match compiled {
            Ok(p) => r is Ok && final(patterns)@ == old(patterns)@.push(p),
            Err(_) => r is Err && final(patterns)@ == old(patterns)@,
        },
{
    match compiled {
        Ok(p) => {
            patterns.push(p);
            Ok(())
        },
        Err(e) => Err(ConfigError::InvalidRegex(e)),
    }
}

/// Compiles the expressions, in order, up to the first that the `regex`
/// crate refuses. No expressions always compile.
pub fn compile_all(value: Vec<String>) -> (r: Result<Vec<RegexPattern>, ConfigError>)
    ensures
        r matches Ok(ps) ==> sources(ps@) == names_view(value@),
        value@.len() == 0 ==> r is Ok,
{
    let mut out: Vec<RegexPattern> = Vec::new();
    let mut i: usize = 0;
    while i < value.len()
        invariant
            i <= value.len(),
            out@.len() == i,
            forall|k: int| 0 <= k < i ==> (#[trigger] out@[k])@ == value@[k]@,
        decreases value.len() - i,
    {
        match add_pattern(&mut out, compile_regex(value[i].clone())) {
            Ok(()) => {},
            Err(e) => {
                return Err(e);
            },
        }
        i += 1;
    }
    assert(sources(out@) =~= names_view(value@));
    Ok(out)
}

impl Patterns {
    /// Compiles the expressions.
    pub fn try_from(value: Vec<String>) -> (r: Result<Patterns, ConfigError>)
        ensures
            r matches Ok(ps) ==> sources(ps.0@) == names_view(value@),
            value@.len() == 0 ==> r is Ok,
    {
        match compile_all(value) {
            Ok(ps) => Ok(Patterns(ps)),
            Err(e) => Err(e),
        }
    }

    /// Whether one of the expressions matches somewhere in `s`.
    pub fn matches_any(&self, s: &str) -> (found: bool)
        ensures
            found == any_matches(sources(self.0@), s@),
    {
        let mut i: usize = 0;
        while i < self.0.len()
            invariant
                i <= self.0.len(),
                forall|k: int| 0 <= k < i ==> !regex_matches(#[trigger] sources(self.0@)[k], s@),
            decreases self.0.len() - i,
        {
            assert(sources(self.0@)[i as int] == self.0@[i as int]@);
            if regex_is_match(&self.0[i], s) {
                return true;
            }
            i += 1;
        }
        false
    }
}

/// What the search is told, compiled.
#[derive(Debug)]
pub struct Config {
    pub read_by_default: bool,
    pub search_by_default: bool,
    pub read_file_patterns: Patterns,
    pub ignore_file_patterns: Patterns,
    pub search_dir_patterns: Patterns,
    pub ignore_dir_patterns: Patterns,
    /// For paths that match the first expression, notes look like the
    /// second.
    pub find_todos: Vec<(RegexPattern, RegexPattern)>,
    pub human_report: Option<FilePath>,
    pub json_report: Option<FilePath>,
}

/// What the search is told, as the user wrote it.
#[derive(Debug)]
pub struct ConfigRaw {
    pub read_by_default: bool,
    pub search_by_default: bool,
    pub read_file_patterns: Vec<String>,
    pub ignore_file_patterns: Vec<String>,
    pub search_dir_patterns: Vec<String>,
    pub ignore_dir_patterns: Vec<String>,
    pub find_todos: Vec<(String, String)>,
    pub human_report: Option<String>,
    pub json_report: Option<String>,
}

/// The texts that pairs of expressions were compiled from.
pub open spec fn pair_sources(pairs: Seq<(RegexPattern, RegexPattern)>) -> Seq<
    (Seq<char>, Seq<char>),
> {
    pairs.map_values(|p: (RegexPattern, RegexPattern)| (p.0@, p.1@))
}

/// What a list of pairs of texts reads as.
pub open spec fn pairs_view(pairs: Seq<(String, String)>) -> Seq<(Seq<char>, Seq<char>)> {
    pairs.map_values(|p: (String, String)| (p.0@, p.1@))
}

/// What an optional path reads as.
pub open spec fn path_view(p: Option<FilePath>) -> Option<Seq<char>> {
    match p {
        Some(f) => Some(f.0@),
        None => None,
    }
}

/// What an optional text reads as.
pub open spec fn text_view(p: Option<String>) -> Option<Seq<char>> {
    match p {
        Some(f) => Some(f@),
        None => None,
    }
}

/// The verdict of a filter: what is let through by default or by a pattern
/// to take it in, unless a pattern keeps it out. A path that is no text is
/// matched by no pattern.
pub open spec fn lets_through(
    by_default: bool,
    wanted: Seq<Seq<char>>,
    unwanted: Seq<Seq<char>>,
    path: Option<Seq<char>>,
) -> bool {
    match path {
        Some(p) => (by_default || any_matches(wanted, p)) && !any_matches(unwanted, p),
        None => by_default,
    }
}

impl Config {
    /// Whether this says what `raw` says.
    pub open spec fn holds(self, raw: ConfigRaw) -> bool {
        &&& self.read_by_default == raw.read_by_default
        &&& self.search_by_default == raw.search_by_default
        &&& sources(self.read_file_patterns.0@) == names_view(raw.read_file_patterns@)
        &&& sources(self.ignore_file_patterns.0@) == names_view(raw.ignore_file_patterns@)
        &&& sources(self.search_dir_patterns.0@) == names_view(raw.search_dir_patterns@)
        &&& sources(self.ignore_dir_patterns.0@) == names_view(raw.ignore_dir_patterns@)
        &&& pair_sources(self.find_todos@) == pairs_view(raw.find_todos@)
        &&& path_view(self.human_report) == text_view(raw.human_report)
        &&& path_view(self.json_report) == text_view(raw.json_report)
    }

    /// Compiles what the user wrote. The `regex` crate may refuse an
    /// expression; nothing else can go wrong, and what is compiled says what
    /// the user wrote.
    pub fn try_from(value: ConfigRaw) -> (r: Result<Config, ConfigError>)
        ensures
            r matches Ok(c) ==> c.holds(value),
            value.find_todos@.len() == 0 && value.read_file_patterns@.len() == 0
                && value.ignore_file_patterns@.len() == 0 && value.search_dir_patterns@.len() == 0
                && value.ignore_dir_patterns@.len() == 0 ==> r is Ok,
    {
        let mut finds: Vec<(RegexPattern, RegexPattern)> = Vec::new();
        let mut i: usize = 0;
        while i < value.find_todos.len()
            invariant
                i <= value.find_todos.len(),
                finds@.len() == i,
                forall|k: int|
                    0 <= k < i ==> (#[trigger] finds@[k]).0@ == value.find_todos@[k].0@
                        && finds@[k].1@ == value.find_todos@[k].1@,
            decreases value.find_todos.len() - i,
        {
            let path = match compile_regex(value.find_todos[i].0.clone()) {
                Ok(p) => p,
                Err(e) => {
                    return Err(ConfigError::InvalidRegex(e));
                },
            };
            let comnt = match compile_regex(value.find_todos[i].1.clone()) {
                Ok(p) => p,
                Err(e) => {
                    return Err(ConfigError::InvalidRegex(e));
                },
            };
            finds.push((path, comnt));
            i += 1;
        }
        assert(pair_sources(finds@) =~= pairs_view(value.find_todos@));
        let read_file_patterns = compile_texts(&value.read_file_patterns)?;
        let ignore_file_patterns = compile_texts(&value.ignore_file_patterns)?;
        let search_dir_patterns = compile_texts(&value.search_dir_patterns)?;
        let ignore_dir_patterns = compile_texts(&value.ignore_dir_patterns)?;
        Ok(
            Config {
                read_by_default: value.read_by_default,
                search_by_default: value.search_by_default,
                find_todos: finds,
                read_file_patterns,
                ignore_file_patterns,
                search_dir_patterns,
                ignore_dir_patterns,
                human_report: match &value.human_report {
                    Some(p) => Some(FilePath(p.clone())),
                    None => None,
                },
                json_report: match &value.json_report {
                    Some(p) => Some(FilePath(p.clone())),
                    None => None,
                },
            },
        )
    }

    /// How notes look in the file at `path`: the second expression of every
    /// pair whose first matches the path, in order.
    pub fn get_todo_finders<'a>(&'a self, path: &str) -> (finders: Vec<&'a RegexPattern>)
        ensures
            finder_sources(finders@) == finders_for(pair_sources(self.find_todos@), path@),
    {
        let ghost all = pair_sources(self.find_todos@);
        let ghost pred = |p: (Seq<char>, Seq<char>)| regex_matches(p.0, path@);
        let mut finders: Vec<&'a RegexPattern> = Vec::new();
        let mut i: usize = 0;
        proof {
            reveal(Seq::filter);
            assert(all.take(0) =~= Seq::empty());
            assert(finder_sources(finders@) =~= finders_for(all.take(0), path@));
        }
        while i < self.find_todos.len()
            invariant
                i <= self.find_todos.len(),
                all == pair_sources(self.find_todos@),
                pred == |p: (Seq<char>, Seq<char>)| regex_matches(p.0, path@),
                finder_sources(finders@) == finders_for(all.take(i as int), path@),
            decreases self.find_todos.len() - i,
        {
            let ghost before = finder_sources(finders@);
            let ghost kept = all.take(i as int).filter(pred);
            proof {
                reveal(Seq::filter);
                assert(all.take(i as int + 1).drop_last() =~= all.take(i as int));
                assert(all.take(i as int + 1).last() == all[i as int]);
            }
            let pair = &self.find_todos[i];
            if regex_is_match(&pair.0, path) {
                finders.push(&pair.1);
                proof {
                    assert(finder_sources(finders@) =~= before.push(pair.1@));
                    assert(finders_for(all.take(i as int + 1), path@) =~= kept.push(
                        all[i as int],
                    ).map_values(|p: (Seq<char>, Seq<char>)| p.1));
                    assert(kept.push(all[i as int]).map_values(|p: (Seq<char>, Seq<char>)| p.1)
                        =~= kept.map_values(|p: (Seq<char>, Seq<char>)| p.1).push(pair.1@));
                }
            }
            i += 1;
        }
        assert(all.take(i as int) =~= all);
        finders
    }
}

/// The second text of every pair whose first, as a regular expression,
/// matches `path`, in order.
pub open spec fn finders_for(pairs: Seq<(Seq<char>, Seq<char>)>, path: Seq<char>) -> Seq<
    Seq<char>,
> {
    pairs.filter(|p: (Seq<char>, Seq<char>)| regex_matches(p.0, path)).map_values(
        |p: (Seq<char>, Seq<char>)| p.1,
    )
}

/// The texts that the expressions were compiled from.
pub open spec fn finder_sources(finders: Seq<&RegexPattern>) -> Seq<Seq<char>> {
    finders.map_values(|p: &RegexPattern| p@)
}

/// Compiles a copy of the expressions.
fn compile_texts(texts: &Vec<String>) -> (r: Result<Patterns, ConfigError>)
    ensures
        r matches Ok(ps) ==> sources(ps.0@) == names_view(texts@),
        texts@.len() == 0 ==> r is Ok,
{
    let copy = crate::builder::clone_names(texts);
    assert(names_view(copy@).len() == copy@.len());
    assert(names_view(texts@).len() == texts@.len());
    Patterns::try_from(copy)
}

impl PathFilter for Config {
    /// Whether the directory at `path` is searched.
    fn filter_dir(&self, path: Option<&str>) -> (searched: bool)
        ensures
            searched == lets_through(
                self.search_by_default,
                sources(self.search_dir_patterns.0@),
                sources(self.ignore_dir_patterns.0@),
                match path {
                    Some(p) => Some(p@),
                    None => None,
                },
            ),
    {
        let unwanted = match path {
            Some(path) => self.ignore_dir_patterns.matches_any(path),
            None => false,
        };
        let wanted = match path {
            Some(path) => self.search_dir_patterns.matches_any(path),
            None => false,
        };
        (self.search_by_default || wanted) && !unwanted
    }

    /// Whether the file at `path` is read.
    fn filter_file(&self, path: Option<&str>) -> (read: bool)
        ensures
            read == lets_through(
                self.read_by_default,
                sources(self.read_file_patterns.0@),
                sources(self.ignore_file_patterns.0@),
                match path {
                    Some(p) => Some(p@),
                    None => None,
                },
            ),
    {
        let unwanted = match path {
            Some(path) => self.ignore_file_patterns.matches_any(path),
            None => false,
        };
        let wanted = match path {
            Some(path) => self.read_file_patterns.matches_any(path),
            None => false,
        };
        (self.read_by_default || wanted) && !unwanted
    }
}

} // verus!
