//! Notes in files: where the regular expressions of a search find them, and
//! how they are reported.
use crate::conf::finder_sources;
use crate::matching::{found_view, regex_finds, regex_found, RegexPattern};
use vstd::prelude::*;
use vstd::string::StringExecFns;

verus! {

/// A note: the byte offset at which it begins in its file, and its text.
#[derive(Debug)]
pub struct Todo {
    pub pos: usize,
    pub text: String,
}

/// The notes of one file.
#[derive(Debug)]
pub struct FileTodos {
    pub from: String,
    pub todos: Vec<Todo>,
}

/// What a list of notes reads as.
pub open spec fn todos_view(todos: Seq<Todo>) -> Seq<(usize, Seq<char>)> {
    todos.map_values(|t: Todo| (t.pos, t.text@))
}

/// How many matches the first `n` expressions have in the text, all
/// together.
pub open spec fn count_upto(finders: Seq<Seq<char>>, cont: Seq<char>, n: int) -> int
    decreases n,
{
    if n <= 0 {
        0
    } else {
        count_upto(finders, cont, n - 1) + regex_found(finders[n - 1], cont).len()
    }
}

/// A sum of counts is no less than the sum of fewer of them.
proof fn lemma_count_grows(finders: Seq<Seq<char>>, cont: Seq<char>, n: int, m: int)
    requires
        0 <= n <= m,
    ensures
        count_upto(finders, cont, n) <= count_upto(finders, cont, m),
    decreases m - n,
{
    if n < m {
        lemma_count_grows(finders, cont, n, m - 1);
    }
}

/// How many notes the expressions find in the text, all together; `None` if
/// the number is too large to be told.
pub fn count_todos(finders: &Vec<&RegexPattern>, cont: &str) -> (count: Option<usize>)
    ensures
        match count {
            Some(n) => n == count_upto(finder_sources(finders@), cont@, finders@.len() as int),
            None => count_upto(finder_sources(finders@), cont@, finders@.len() as int) > usize::MAX,
        },
{
    let ghost texts = finder_sources(finders@);
    let mut total: usize = 0;
    let mut i: usize = 0;
    while i < finders.len()
        invariant
            i <= finders.len(),
            texts == finder_sources(finders@),
            total == count_upto(texts, cont@, i as int),
        decreases finders.len() - i,
    {
        assert(texts[i as int] == finders@[i as int]@);
        let found = regex_finds(finders[i], cont);
        assert(found@.len() == found_view(found@).len());
        match total.checked_add(found.len()) {
            Some(sum) => {
                total = sum;
            },
            None => {
                proof {
                    lemma_count_grows(texts, cont@, i as int + 1, finders@.len() as int);
                }
                return None;
            },
        }
        i += 1;
    }
    Some(total)
}

/// Where a note begins at `pos` in `notes`, if one does.
pub open spec fn note_at(notes: Seq<(usize, Seq<char>)>, pos: usize) -> Option<int> {
    notes.map_values(|n: (usize, Seq<char>)| n.0).index_of_first(pos)
}

/// The notes with one more: a note that begins where another does takes its
/// place, a note that begins elsewhere goes to the end.
pub open spec fn with_note(notes: Seq<(usize, Seq<char>)>, note: (usize, Seq<char>)) -> Seq<
    (usize, Seq<char>),
> {
    match note_at(notes, note.0) {
        Some(i) => notes.update(i, note),
        None => notes.push(note),
    }
}

/// The notes with the first `n` of `found` more.
pub open spec fn with_notes(
    notes: Seq<(usize, Seq<char>)>,
    found: Seq<(usize, Seq<char>)>,
    n: int,
) -> Seq<(usize, Seq<char>)>
    decreases n,
{
    if n <= 0 {
        notes
    } else {
        with_note(with_notes(notes, found, n - 1), found[n - 1])
    }
}

/// The notes that the first `n` expressions find in the text: no two at the
/// same offset, and where two expressions find a note at the same offset the
/// later expression has it.
pub open spec fn notes_upto(finders: Seq<Seq<char>>, cont: Seq<char>, n: int) -> Seq<
    (usize, Seq<char>),
>
    decreases n,
{
    if n <= 0 {
        Seq::empty()
    } else {
        with_notes(
            notes_upto(finders, cont, n - 1),
            regex_found(finders[n - 1], cont),
            regex_found(finders[n - 1], cont).len() as int,
        )
    }
}

/// Adds a note to the notes.
fn add_note(todos: &mut Vec<Todo>, pos: usize, text: String)
    ensures
        todos_view(final(todos)@) == with_note(todos_view(old(todos)@), (pos, text@)),
{
    let ghost notes = todos_view(todos@);
    let ghost places = notes.map_values(|n: (usize, Seq<char>)| n.0);
    let mut i: usize = 0;
    while i < todos.len()
        invariant
            i <= todos.len(),
            todos@ == old(todos)@,
            notes == todos_view(todos@),
            places == notes.map_values(|n: (usize, Seq<char>)| n.0),
            forall|k: int| 0 <= k < i ==> places[k] != pos,
        decreases todos.len() - i,
    {
        assert(places[i as int] == todos@[i as int].pos);
        if todos[i].pos == pos {
            proof {
                places.index_of_first_ensures(pos);
                assert(places.contains(pos));
                assert(note_at(notes, pos) == Some(i as int));
            }
            todos.set(i, Todo { pos, text });
            assert(todos_view(todos@) =~= notes.update(i as int, (pos, text@)));
            return ;
        }
        i += 1;
    }
    proof {
        places.index_of_first_ensures(pos);
        if places.contains(pos) {
            let k = places.index_of(pos);
            assert(places[k] == pos);
        }
        assert(note_at(notes, pos) is None);
    }
    todos.push(Todo { pos, text });
    assert(todos_view(todos@) =~= notes.push((pos, text@)));
}

/// The notes that the expressions find in the text.
pub fn report_todos(finders: &Vec<&RegexPattern>, cont: &str) -> (todos: Vec<Todo>)
    ensures
        todos_view(todos@) == notes_upto(finder_sources(finders@), cont@, finders@.len() as int),
{
    let ghost texts = finder_sources(finders@);
    let mut todos: Vec<Todo> = Vec::new();
    let mut i: usize = 0;
    assert(todos_view(todos@) =~= Seq::empty());
    while i < finders.len()
        invariant
            i <= finders.len(),
            texts == finder_sources(finders@),
            todos_view(todos@) == notes_upto(texts, cont@, i as int),
        decreases finders.len() - i,
    {
        assert(texts[i as int] == finders@[i as int]@);
        let found = regex_finds(finders[i], cont);
        let ghost all = regex_found(texts[i as int], cont@);
        let ghost before = todos_view(todos@);
        assert(found@.len() == all.len());
        let mut j: usize = 0;
        while j < found.len()
            invariant
                j <= found.len(),
                found@.len() == all.len(),
                found_view(found@) == all,
                todos_view(todos@) == with_notes(before, all, j as int),
            decreases found.len() - j,
        {
            assert(all[j as int] == (found@[j as int].0, found@[j as int].1@));
            add_note(&mut todos, found[j].0, found[j].1.clone());
            j += 1;
        }
        i += 1;
    }
    todos
}

/// The lines of the first `n` notes: each a tab and the text of the note.
pub open spec fn notes_text(todos: Seq<(usize, Seq<char>)>, n: int) -> Seq<char>
    decreases n,
{
    if n <= 0 {
        Seq::empty()
    } else {
        notes_text(todos, n - 1) + seq!['\t'] + todos[n - 1].1 + seq!['\n']
    }
}

/// The report of a file: nothing if it has no notes, else its name, its
/// notes, and an empty line.
pub open spec fn file_text(from: Seq<char>, todos: Seq<(usize, Seq<char>)>) -> Seq<char> {
    if todos.len() == 0 {
        Seq::empty()
    } else {
        from + seq!['\n'] + notes_text(todos, todos.len() as int) + seq!['\n']
    }
}

impl FileTodos {
    /// Writes the report of the file.
    pub fn write(&self, out: &mut String)
        ensures
            final(out)@ == old(out)@ + file_text(self.from@, todos_view(self.todos@)),
    {
        proof {
            reveal_strlit("\n");
            reveal_strlit("\t");
            assert("\n"@ =~= seq!['\n']);
            assert("\t"@ =~= seq!['\t']);
        }
        let ghost notes = todos_view(self.todos@);
        if self.todos.len() == 0 {
            assert(out@ + Seq::<char>::empty() =~= out@);
            return ;
        }
        out.append(self.from.as_str());
        out.append("\n");
        let ghost head = old(out)@ + self.from@ + seq!['\n'];
        assert(out@ =~= head + notes_text(notes, 0));
        let mut i: usize = 0;
        while i < self.todos.len()
            invariant
                i <= self.todos.len(),
                notes == todos_view(self.todos@),
                out@ == head + notes_text(notes, i as int),
                "\n"@ == seq!['\n'],
                "\t"@ == seq!['\t'],
            decreases self.todos.len() - i,
        {
            let ghost before = out@;
            out.append("\t");
            out.append(self.todos[i].text.as_str());
            out.append("\n");
            assert(notes[i as int].1 == self.todos@[i as int].text@);
            assert(out@ =~= head + notes_text(notes, i as int + 1));
            i += 1;
        }
        out.append("\n");
        assert(out@ =~= old(out)@ + file_text(self.from@, notes));
    }
}

} // verus!
