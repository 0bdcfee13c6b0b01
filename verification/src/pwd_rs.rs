//! Paths made shorter for a prompt: a path is edited by replacing one text
//! in it with another, a number of times.
use vstd::prelude::*;

verus! {

/// How many matches an edit replaces when it names no number.
pub const DEFAULT_REPLACE_N: usize = 999;

/// `text` after the first `count` matches of `from` in it have become `to`.
pub uninterp spec fn replaced_n(
    text: Seq<char>,
    from: Seq<char>,
    to: Seq<char>,
    count: usize,
) -> Seq<char>;

/// `text` after every match of `from` in it has become `to`.
pub uninterp spec fn replaced(text: Seq<char>, from: Seq<char>, to: Seq<char>) -> Seq<char>;

/// `str::replacen`: the first `count` matches of a text replaced by another.
/// The result depends on the four arguments alone.
#[verifier::external_body]
fn replacen(text: &str, from: &str, to: &str, count: usize) -> (out: String)
    ensures
        out@ == replaced_n(text@, from@, to@, count),
{
    text.replacen(from, to, count)
}

/// `str::replace`: every match of a text replaced by another. The result
/// depends on the three arguments alone.
#[verifier::external_body]
fn replace(text: &str, from: &str, to: &str) -> (out: String)
    ensures
        out@ == replaced(text@, from@, to@),
{
    text.replace(from, to)
}

/// One edit: replace `from` by `to`, at most `replace_n` times.
#[derive(Debug)]
pub struct Edit {
    pub from: String,
    pub to: String,
    pub replace_n: Option<usize>,
}

impl Clone for Edit {
    fn clone(&self) -> (copy: Self)
        ensures
            copy.from@ == self.from@,
            copy.to@ == self.to@,
            copy.replace_n == self.replace_n,
    {
        Edit { from: self.from.clone(), to: self.to.clone(), replace_n: self.replace_n }
    }
}

impl Edit {
    /// How many matches the edit replaces at most.
    pub open spec fn count(self) -> usize {
        match self.replace_n {
            Some(n) => n,
            None => DEFAULT_REPLACE_N,
        }
    }

    /// What the edit makes of `path`.
    pub open spec fn apply(self, path: Seq<char>) -> Seq<char> {
        replaced_n(path, self.from@, self.to@, self.count())
    }

    /// Edits a path.
    pub fn edit_path(&self, path: &str) -> (out: String)
        ensures
            out@ == self.apply(path@),
    {
        let count = match self.replace_n {
            Some(n) => n,
            None => DEFAULT_REPLACE_N,
        };
        replacen(path, self.from.as_str(), self.to.as_str(), count)
    }
}

/// A path in which `\e` stands for the escape character.
#[derive(Debug)]
pub struct Dir {
    path: String,
}

/// A path, as it is.
#[derive(Debug)]
pub struct BDir {
    path: String,
}

impl View for BDir {
    type V = Seq<char>;

    closed spec fn view(&self) -> Seq<char> {
        self.path@
    }
}

impl View for Dir {
    type V = Seq<char>;

    closed spec fn view(&self) -> Seq<char> {
        self.path@
    }
}

/// What stands for the escape character in a path.
pub open spec fn escape_mark() -> Seq<char> {
    seq!['\\', 'e']
}

/// The escape character, as a text.
pub open spec fn escape_text() -> Seq<char> {
    seq!['\x1b']
}

impl BDir {
    pub fn into_string(self) -> (path: String)
        ensures
            path@ == self@,
    {
        self.path
    }

    pub fn new(path: String) -> (dir: BDir)
        ensures
            dir@ == path@,
    {
        BDir { path }
    }

    /// The path after the edit.
    pub fn edit(self, cfg: &Edit) -> (dir: BDir)
        ensures
            dir@ == cfg.apply(self@),
    {
        BDir { path: cfg.edit_path(self.path.as_str()) }
    }
}

impl Dir {
    /// The path, with the escape character wherever `\e` stood.
    pub fn into_string(self) -> (path: String)
        ensures
            path@ == replaced(self@, escape_mark(), escape_text()),
    {
        proof {
            reveal_strlit("\\e");
            reveal_strlit("\x1b");
            assert("\\e"@ =~= escape_mark());
            assert("\x1b"@ =~= escape_text());
        }
        replace(self.path.as_str(), "\\e", "\x1b")
    }

    pub fn new(path: String) -> (dir: Dir)
        ensures
            dir@ == path@,
    {
        Dir { path }
    }

    /// The path after the edit.
    pub fn edit(self, cfg: Edit) -> (dir: Dir)
        ensures
            dir@ == cfg.apply(self@),
    {
        Dir { path: cfg.edit_path(self.path.as_str()) }
    }

    /// The path after the edit.
    pub fn borrow_edit(self, cfg: &Edit) -> (dir: Dir)
        ensures
            dir@ == cfg.apply(self@),
    {
        Dir { path: cfg.edit_path(self.path.as_str()) }
    }
}

/// The path after each of `edits`, in order.
pub open spec fn apply_all(path: Seq<char>, edits: Seq<Edit>) -> Seq<char>
    decreases edits.len(),
{
    if edits.len() == 0 {
        path
    } else {
        edits.last().apply(apply_all(path, edits.drop_last()))
    }
}

/// Edits a path by each of `edits`, in order.
pub fn edit_all(path: String, edits: &Vec<Edit>) -> (out: String)
    ensures
        out@ == apply_all(path@, edits@),
{
    let mut dir = BDir::new(path);
    let mut i: usize = 0;
    assert(edits@.take(0) =~= Seq::empty());
    while i < edits.len()
        invariant
            i <= edits.len(),
            dir@ == apply_all(path@, edits@.take(i as int)),
        decreases edits.len() - i,
    {
        assert(edits@.take(i as int + 1).drop_last() =~= edits@.take(i as int));
        dir = dir.edit(&edits[i]);
        i += 1;
    }
    assert(edits@.take(i as int) =~= edits@);
    dir.into_string()
}

/// The edits of a user who has written none: the home directory becomes `~`.
pub fn default_edits(home: String) -> (edits: Vec<Edit>)
    ensures
        edits@.len() == 1,
        edits@[0].from@ == home@,
        edits@[0].to@ == "~"@,
        edits@[0].replace_n is None,
{
    let mut edits: Vec<Edit> = Vec::new();
    edits.push(Edit { from: home, to: String::from_str("~"), replace_n: None });
    edits
}

} // verus!
