//! Trees of files: a node is a file (an atom) or a directory with the nodes
//! in it (a list).
use vstd::prelude::*;
use vstd::string::StringExecFns;

verus! {

/// A tree with atoms of type `A` at its leaves and a header of type `H` at
/// each list.
#[derive(Debug)]
pub enum Node<A, H> {
    Atom(A),
    List(H, Vec<Node<A, H>>),
}

/// The atoms of the first `n` of `nodes`, from left to right.
pub open spec fn atoms_of<A, H>(nodes: Seq<Node<A, H>>, n: int) -> Seq<A>
    decreases nodes, n,
{
    if 0 < n <= nodes.len() {
        atoms_of(nodes, n - 1) + nodes[n - 1].atoms()
    } else {
        Seq::empty()
    }
}

impl<Ai, Hi> Node<Ai, Hi> {
    /// The atoms of the tree, from left to right.
    pub open spec fn atoms(self) -> Seq<Ai>
        decreases self, 0int,
    {
        match self {
            Node::Atom(a) => seq![a],
            Node::List(_, xs) => atoms_of(xs@, xs@.len() as int),
        }
    }

    /// The atom, if the node is one.
    pub fn atom(&self) -> (r: Option<&Ai>)
        ensures
            match *self {
                Node::Atom(a) => r == Some(&a),
                Node::List(..) => r is None,
            },
    {
        match self {
            Node::Atom(a) => Some(a),
            Node::List(..) => None,
        }
    }

    /// The header and the nodes, if the node is a list.
    pub fn list(&self) -> (r: Option<(&Hi, &[Self])>)
        ensures
            match *self {
                Node::Atom(..) => r is None,
                Node::List(h, xs) => r matches Some(pair) && *pair.0 == h && pair.1@ == xs@,
            },
    {
        match self {
            Node::Atom(..) => None,
            Node::List(h, xs) => Some((h, xs.as_slice())),
        }
    }

    /// Whether `file_fn` may be called on every atom of the tree and `dir_fn`
    /// on every list of it.
    pub open spec fn may_map_ref<Ao, Ho, Ff, Fd>(self, dir_fn: Fd, file_fn: Ff) -> bool where
        Ff: Fn(&Ai) -> Ao,
        Fd: Fn(&Hi, &[Node<Ai, Hi>]) -> Ho,

        decreases self,
    {
        match self {
            Node::Atom(a) => call_requires(file_fn, (&a,)),
            Node::List(h, xs) => {
                &&& forall|s: &[Node<Ai, Hi>]| s@ == xs@ ==> call_requires(dir_fn, (&h, s))
                &&& forall|i: int|
                    0 <= i < xs@.len() ==> (#[trigger] xs@[i]).may_map_ref::<Ao, Ho, Ff, Fd>(
                        dir_fn,
                        file_fn,
                    )
            },
        }
    }

    /// Whether `mapped` is what `file_fn` and `dir_fn` can make of the tree:
    /// of the same shape, each atom a result of `file_fn` on the atom in its
    /// place, each header a result of `dir_fn` on the list in its place.
    pub open spec fn mapped_ref<Ao, Ho, Ff, Fd>(
        self,
        mapped: Node<Ao, Ho>,
        dir_fn: Fd,
        file_fn: Ff,
    ) -> bool where Ff: Fn(&Ai) -> Ao, Fd: Fn(&Hi, &[Node<Ai, Hi>]) -> Ho
        decreases self,
    {
        match self {
            Node::Atom(a) => mapped matches Node::Atom(b) && call_ensures(file_fn, (&a,), b),
            Node::List(h, xs) => mapped matches Node::List(g, ys) && {
                &&& exists|s: &[Node<Ai, Hi>]| s@ == xs@ && call_ensures(dir_fn, (&h, s), g)
                &&& ys@.len() == xs@.len()
                &&& forall|i: int|
                    0 <= i < xs@.len() ==> (#[trigger] xs@[i]).mapped_ref(ys@[i], dir_fn, file_fn)
            },
        }
    }

    /// The tree that `file_fn` makes of the atoms and `dir_fn` of the lists,
    /// each list before the nodes in it, from left to right.
    pub fn map_ref<Ao, Ho, Ff, Fd>(&self, dir_fn: Fd, file_fn: Ff) -> (mapped: Node<Ao, Ho>) where
        Ff: Fn(&Ai) -> Ao,
        Fd: Fn(&Hi, &[Node<Ai, Hi>]) -> Ho,

        requires
            self.may_map_ref::<Ao, Ho, Ff, Fd>(dir_fn, file_fn),
        ensures
            self.mapped_ref(mapped, dir_fn, file_fn),
    {
        self._map_ref(&dir_fn, &file_fn)
    }

    fn _map_ref<Ao, Ho, Ff, Fd>(&self, dir_fn: &Fd, file_fn: &Ff) -> (mapped: Node<Ao, Ho>) where
        Ff: Fn(&Ai) -> Ao,
        Fd: Fn(&Hi, &[Node<Ai, Hi>]) -> Ho,

        requires
            self.may_map_ref::<Ao, Ho, Ff, Fd>(*dir_fn, *file_fn),
        ensures
            self.mapped_ref(mapped, *dir_fn, *file_fn),
        decreases self,
    {
        match self {
            Node::Atom(f) => Node::Atom(file_fn(f)),
            Node::List(f, fs) => {
                let header = dir_fn(f, fs.as_slice());
                let mut out: Vec<Node<Ao, Ho>> = Vec::new();
                let mut i: usize = 0;
                while i < fs.len()
                    invariant
                        i <= fs.len(),
                        out@.len() == i,
                        forall|k: int|
                            0 <= k < fs@.len() ==> (#[trigger] fs@[k]).may_map_ref::<Ao, Ho, Ff, Fd>(
                                *dir_fn,
                                *file_fn,
                            ),
                        forall|k: int|
                            0 <= k < i ==> (#[trigger] fs@[k]).mapped_ref(
                                out@[k],
                                *dir_fn,
                                *file_fn,
                            ),
                        decreases_to!(self => fs@),
                    decreases fs.len() - i,
                {
                    assert(decreases_to!(fs@ => fs@[i as int]));
                    let child = fs[i]._map_ref(dir_fn, file_fn);
                    out.push(child);
                    i += 1;
                }
                Node::List(header, out)
            },
        }
    }

    /// Whether `file_fn` may be called on every atom of the tree and `dir_fn`
    /// on every list of it.
    pub open spec fn may_map<Ao, Ho, Ff, Fd>(self, dir_fn: Fd, file_fn: Ff) -> bool where
        Ff: Fn(Ai) -> Ao,
        Fd: Fn(Hi, &[Node<Ai, Hi>]) -> Ho,

        decreases self,
    {
        match self {
            Node::Atom(a) => call_requires(file_fn, (a,)),
            Node::List(h, xs) => {
                &&& forall|s: &[Node<Ai, Hi>]| s@ == xs@ ==> call_requires(dir_fn, (h, s))
                &&& forall|i: int|
                    0 <= i < xs@.len() ==> (#[trigger] xs@[i]).may_map::<Ao, Ho, Ff, Fd>(
                        dir_fn,
                        file_fn,
                    )
            },
        }
    }

    /// Whether `mapped` is what `file_fn` and `dir_fn` can make of the tree:
    /// of the same shape, each atom a result of `file_fn` on the atom in its
    /// place, each header a result of `dir_fn` on the list in its place.
    pub open spec fn mapped<Ao, Ho, Ff, Fd>(
        self,
        mapped: Node<Ao, Ho>,
        dir_fn: Fd,
        file_fn: Ff,
    ) -> bool where Ff: Fn(Ai) -> Ao, Fd: Fn(Hi, &[Node<Ai, Hi>]) -> Ho
        decreases self,
    {
        match self {
            Node::Atom(a) => mapped matches Node::Atom(b) && call_ensures(file_fn, (a,), b),
            Node::List(h, xs) => mapped matches Node::List(g, ys) && {
                &&& exists|s: &[Node<Ai, Hi>]| s@ == xs@ && call_ensures(dir_fn, (h, s), g)
                &&& ys@.len() == xs@.len()
                &&& forall|i: int|
                    0 <= i < xs@.len() ==> (#[trigger] xs@[i]).mapped(ys@[i], dir_fn, file_fn)
            },
        }
    }

    /// The tree that `file_fn` makes of the atoms and `dir_fn` of the lists,
    /// each list before the nodes in it, from left to right.
    pub fn map<Ao, Ho, Ff, Fd>(self, dir_fn: Fd, file_fn: Ff) -> (mapped: Node<Ao, Ho>) where
        Ff: Fn(Ai) -> Ao,
        Fd: Fn(Hi, &[Node<Ai, Hi>]) -> Ho,

        requires
            self.may_map::<Ao, Ho, Ff, Fd>(dir_fn, file_fn),
        ensures
            self.mapped(mapped, dir_fn, file_fn),
    {
        self._map(&dir_fn, &file_fn)
    }

    fn _map<Ao, Ho, Ff, Fd>(self, dir_fn: &Fd, file_fn: &Ff) -> (mapped: Node<Ao, Ho>) where
        Ff: Fn(Ai) -> Ao,
        Fd: Fn(Hi, &[Node<Ai, Hi>]) -> Ho,

        requires
            self.may_map::<Ao, Ho, Ff, Fd>(*dir_fn, *file_fn),
        ensures
            self.mapped(mapped, *dir_fn, *file_fn),
        decreases self,
    {
        match self {
            Node::Atom(f) => Node::Atom(file_fn(f)),
            Node::List(f, fs) => {
                let ghost all = fs@;
                let header = dir_fn(f, fs.as_slice());
                let mut fs = fs;
                let mut rest: Vec<Node<Ai, Hi>> = Vec::new();
                // Turn the nodes round, so that they can be taken from the
                // end in their own order.
                while fs.len() > 0
                    invariant
                        fs@.len() + rest@.len() == all.len(),
                        forall|k: int| 0 <= k < fs@.len() ==> fs@[k] == all[k],
                        forall|k: int|
                            0 <= k < rest@.len() ==> rest@[k] == all[all.len() - 1 - k],
                    decreases fs@.len(),
                {
                    let last = fs.pop().unwrap();
                    rest.push(last);
                }
                let mut out: Vec<Node<Ao, Ho>> = Vec::new();
                while rest.len() > 0
                    invariant
                        out@.len() + rest@.len() == all.len(),
                        forall|k: int|
                            0 <= k < rest@.len() ==> rest@[k] == all[all.len() - 1 - k],
                        forall|k: int|
                            0 <= k < all.len() ==> (#[trigger] all[k]).may_map::<Ao, Ho, Ff, Fd>(
                                *dir_fn,
                                *file_fn,
                            ),
                        forall|k: int|
                            0 <= k < out@.len() ==> (#[trigger] all[k]).mapped(
                                out@[k],
                                *dir_fn,
                                *file_fn,
                            ),
                        decreases_to!(self => all),
                    decreases rest@.len(),
                {
                    let next = rest.pop().unwrap();
                    assert(next == all[out@.len() as int]);
                    assert(decreases_to!(all => all[out@.len() as int]));
                    let child = next._map(dir_fn, file_fn);
                    out.push(child);
                }
                Node::List(header, out)
            },
        }
    }

    /// Appends the atoms of the tree to `out`, from left to right.
    fn push_atoms(self, out: &mut Vec<Ai>)
        ensures
            final(out)@ == old(out)@ + self.atoms(),
        decreases self,
    {
        match self {
            Node::Atom(a) => {
                out.push(a);
                assert(out@ =~= old(out)@ + seq![a]);
            },
            Node::List(_, xs) => {
                let ghost all = xs@;
                let mut xs = xs;
                let mut rest: Vec<Node<Ai, Hi>> = Vec::new();
                // Turn the nodes round, so that they can be taken from the
                // end in their own order.
                while xs.len() > 0
                    invariant
                        xs@.len() + rest@.len() == all.len(),
                        forall|k: int| 0 <= k < xs@.len() ==> xs@[k] == all[k],
                        forall|k: int|
                            0 <= k < rest@.len() ==> rest@[k] == all[all.len() - 1 - k],
                    decreases xs@.len(),
                {
                    let last = xs.pop().unwrap();
                    rest.push(last);
                }
                let ghost mut done: int = 0;
                assert(old(out)@ + atoms_of(all, 0) =~= old(out)@);
                while rest.len() > 0
                    invariant
                        0 <= done,
                        done + rest@.len() == all.len(),
                        forall|k: int|
                            0 <= k < rest@.len() ==> rest@[k] == all[all.len() - 1 - k],
                        out@ == old(out)@ + atoms_of(all, done),
                        decreases_to!(self => all),
                    decreases rest@.len(),
                {
                    let next = rest.pop().unwrap();
                    assert(next == all[done]);
                    assert(decreases_to!(all => all[done]));
                    next.push_atoms(out);
                    assert(out@ =~= old(out)@ + atoms_of(all, done + 1));
                    proof {
                        done = done + 1;
                    }
                }
            },
        }
    }

    /// The atoms of the tree, from left to right.
    pub fn into_atoms(self) -> (atoms: Vec<Ai>)
        ensures
            atoms@ == self.atoms(),
    {
        let mut out: Vec<Ai> = Vec::new();
        self.push_atoms(&mut out);
        assert(Seq::<Ai>::empty() + self.atoms() =~= self.atoms());
        out
    }
}

/// What decides which files are read and which directories are searched.
/// Each is asked with the path as text, if the path is text.
pub trait PathFilter {
    fn filter_file(&self, p: Option<&str>) -> bool;

    fn filter_dir(&self, p: Option<&str>) -> bool;
}

/// A tree of names.
pub type Names = Node<String, String>;

/// The lines of the first `n` of `nodes`, each node below `parent`.
pub open spec fn paths_of(nodes: Seq<Names>, n: int, parent: Seq<char>) -> Seq<char>
    decreases nodes, n,
{
    if 0 < n <= nodes.len() {
        paths_of(nodes, n - 1, parent) + paths_text(nodes[n - 1], parent)
    } else {
        Seq::empty()
    }
}

/// The tree as a list of paths, one on each line: a file as `parent` and
/// its name, a directory as `parent`, its name and `/`, followed by what is
/// in it, with the directory's line as the new `parent`.
pub open spec fn paths_text(e: Names, parent: Seq<char>) -> Seq<char>
    decreases e, 0int,
{
    match e {
        Node::Atom(name) => parent + name@ + seq!['\n'],
        Node::List(name, fs) => parent + name@ + seq!['/', '\n'] + paths_of(
            fs@,
            fs@.len() as int,
            parent + name@ + seq!['/'],
        ),
    }
}

/// Writes the tree as a list of paths.
pub fn display_paths(out: &mut String, e: &Names, parent: &str)
    ensures
        final(out)@ == old(out)@ + paths_text(*e, parent@),
    decreases e,
{
    proof {
        reveal_strlit("\n");
        reveal_strlit("/\n");
        reveal_strlit("/");
        assert("\n"@ =~= seq!['\n']);
        assert("/\n"@ =~= seq!['/', '\n']);
        assert("/"@ =~= seq!['/']);
    }
    out.append(parent);
    match e {
        Node::Atom(name) => {
            out.append(name.as_str());
            out.append("\n");
            assert(out@ =~= old(out)@ + paths_text(*e, parent@));
        },
        Node::List(name, fs) => {
            out.append(name.as_str());
            let mut down = String::from_str(parent);
            down.append(name.as_str());
            down.append("/");
            out.append("/\n");
            let ghost head = old(out)@ + parent@ + name@ + seq!['/', '\n'];
            assert(out@ =~= head + paths_of(fs@, 0, down@));
            assert(down@ =~= parent@ + name@ + seq!['/']);
            let mut i: usize = 0;
            while i < fs.len()
                invariant
                    i <= fs.len(),
                    out@ == head + paths_of(fs@, i as int, down@),
                    decreases_to!(e => fs@),
                decreases fs.len() - i,
            {
                assert(decreases_to!(fs@ => fs@[i as int]));
                display_paths(out, &fs[i], down.as_str());
                assert(out@ =~= head + paths_of(fs@, i as int + 1, down@));
                i += 1;
            }
            assert(out@ =~= old(out)@ + paths_text(*e, parent@));
        },
    }
}

/// What stands before a node that is not the last of its list.
pub open spec fn branch() -> Seq<char> {
    seq!['├', '─', '─']
}

/// What stands before the last node of a list.
pub open spec fn corner() -> Seq<char> {
    seq!['└', '─', '─']
}

/// What stands before the lines below a node that is not the last of its
/// list.
pub open spec fn rail() -> Seq<char> {
    seq!['│', ' ', ' ']
}

/// What stands before the lines below the last node of a list.
pub open spec fn gap() -> Seq<char> {
    seq![' ', ' ', ' ']
}

/// The lines of the first `n` of `nodes`, drawn below a node whose own
/// lines begin with `segment`.
pub open spec fn branches_of(nodes: Seq<Names>, n: int, segment: Seq<char>) -> Seq<char>
    decreases nodes, n,
{
    if 0 < n <= nodes.len() {
        branches_of(nodes, n - 1, segment) + (if n == nodes.len() {
            tree_text(nodes[n - 1], segment + corner(), segment + gap())
        } else {
            tree_text(nodes[n - 1], segment + branch(), segment + rail())
        })
    } else {
        Seq::empty()
    }
}

/// The tree as a drawing, one node on each line: `pad` and the name, and
/// below a directory what is in it, each line begun with `segment`.
pub open spec fn tree_text(e: Names, pad: Seq<char>, segment: Seq<char>) -> Seq<char>
    decreases e, 0int,
{
    match e {
        Node::Atom(name) => pad + name@ + seq!['\n'],
        Node::List(name, fs) => pad + name@ + seq!['\n'] + branches_of(
            fs@,
            fs@.len() as int,
            segment,
        ),
    }
}

/// Writes the tree as a drawing.
pub fn display_entry(out: &mut String, e: &Names, pad: &str, segment: &str)
    ensures
        final(out)@ == old(out)@ + tree_text(*e, pad@, segment@),
    decreases e,
{
    proof {
        reveal_strlit("\n");
        reveal_strlit("├──");
        reveal_strlit("└──");
        reveal_strlit("│  ");
        reveal_strlit("   ");
        assert("\n"@ =~= seq!['\n']);
        assert("├──"@ =~= branch());
        assert("└──"@ =~= corner());
        assert("│  "@ =~= rail());
        assert("   "@ =~= gap());
    }
    out.append(pad);
    match e {
        Node::Atom(name) => {
            out.append(name.as_str());
            out.append("\n");
            assert(out@ =~= old(out)@ + tree_text(*e, pad@, segment@));
        },
        Node::List(name, fs) => {
            out.append(name.as_str());
            out.append("\n");
            let mut nextpad = String::from_str(segment);
            nextpad.append("├──");
            let mut lastpad = String::from_str(segment);
            lastpad.append("└──");
            let mut nextseg = String::from_str(segment);
            nextseg.append("│  ");
            let mut lastseg = String::from_str(segment);
            lastseg.append("   ");
            let ghost head = old(out)@ + pad@ + name@ + seq!['\n'];
            assert(out@ =~= head + branches_of(fs@, 0, segment@));
            let mut idx: usize = 0;
            while idx < fs.len()
                invariant
                    idx <= fs.len(),
                    out@ == head + branches_of(fs@, idx as int, segment@),
                    nextpad@ == segment@ + branch(),
                    lastpad@ == segment@ + corner(),
                    nextseg@ == segment@ + rail(),
                    lastseg@ == segment@ + gap(),
                    decreases_to!(e => fs@),
                decreases fs.len() - idx,
            {
                assert(decreases_to!(fs@ => fs@[idx as int]));
                if idx == fs.len() - 1 {
                    display_entry(out, &fs[idx], lastpad.as_str(), lastseg.as_str());
                } else {
                    display_entry(out, &fs[idx], nextpad.as_str(), nextseg.as_str());
                }
                assert(out@ =~= head + branches_of(fs@, idx as int + 1, segment@));
                idx += 1;
            }
            assert(out@ =~= old(out)@ + tree_text(*e, pad@, segment@));
        },
    }
}

} // verus!
