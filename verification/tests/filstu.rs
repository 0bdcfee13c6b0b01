use rot::filstu::{display_entry, display_paths, Names, Node};

fn file(name: &str) -> Names {
    Node::Atom(name.to_string())
}

fn dir(name: &str, nodes: Vec<Names>) -> Names {
    Node::List(name.to_string(), nodes)
}

fn sample() -> Names {
    dir(
        "src",
        vec![
            file("lib.rs"),
            dir("export", vec![file("dot.rs"), file("rot.rs")]),
            dir("empty", vec![]),
            file("main.rs"),
        ],
    )
}

#[test]
fn atom_and_list() {
    let f = file("a");
    assert_eq!(f.atom(), Some(&"a".to_string()));
    assert!(f.list().is_none());
    let d = dir("d", vec![file("a"), file("b")]);
    assert!(d.atom().is_none());
    let (h, xs) = d.list().unwrap();
    assert_eq!(h, "d");
    assert_eq!(xs.len(), 2);
    assert_eq!(xs[1].atom(), Some(&"b".to_string()));
}

#[test]
fn atoms_from_left_to_right() {
    assert_eq!(sample().into_atoms(), vec!["lib.rs", "dot.rs", "rot.rs", "main.rs"]);
    assert_eq!(file("x").into_atoms(), vec!["x"]);
    assert!(dir("d", vec![]).into_atoms().is_empty());
}

#[test]
fn map_keeps_the_shape() {
    let mapped = sample().map(|h: String, xs: &[Names]| (h, xs.len()), |a: String| a.len());
    let (h, xs) = mapped.list().unwrap();
    assert_eq!(h, &("src".to_string(), 4));
    assert_eq!(xs[0].atom(), Some(&6));
    let (h, ys) = xs[1].list().unwrap();
    assert_eq!(h, &("export".to_string(), 2));
    assert_eq!(ys[1].atom(), Some(&6));
    assert_eq!(xs[2].list().unwrap().0, &("empty".to_string(), 0));
    assert_eq!(mapped.into_atoms(), vec![6, 6, 6, 7]);
}

#[test]
fn map_ref_leaves_the_tree() {
    let tree = sample();
    let mapped = tree.map_ref(|h: &String, _: &[Names]| h.to_uppercase(), |a: &String| a.len());
    assert_eq!(mapped.list().unwrap().0, "SRC");
    assert_eq!(mapped.into_atoms(), vec![6, 6, 6, 7]);
    assert_eq!(tree.into_atoms().len(), 4);
}

#[test]
fn tree_as_paths() {
    let mut out = String::new();
    display_paths(&mut out, &sample(), "");
    assert_eq!(
        out,
        "src/\nsrc/lib.rs\nsrc/export/\nsrc/export/dot.rs\nsrc/export/rot.rs\nsrc/empty/\nsrc/main.rs\n"
    );
    let mut out = String::from("> ");
    display_paths(&mut out, &file("a"), "./");
    assert_eq!(out, "> ./a\n");
}

#[test]
fn tree_as_drawing() {
    let mut out = String::new();
    display_entry(&mut out, &sample(), "", "");
    assert_eq!(
        out,
        "src\n├──lib.rs\n├──export\n│  ├──dot.rs\n│  └──rot.rs\n├──empty\n└──main.rs\n"
    );
}
