use rot::pwd_rs::{default_edits, edit_all, BDir, Dir, Edit};

fn edit(from: &str, to: &str, n: Option<usize>) -> Edit {
    Edit { from: from.to_string(), to: to.to_string(), replace_n: n }
}

#[test]
fn bdir_edit_replaces_every_match_by_default() {
    let dir = BDir::new("/home/me/home/me".to_string()).edit(&edit("/home/me", "~", None));
    assert_eq!(dir.into_string(), "~~");
}

#[test]
fn bdir_edit_replaces_up_to_the_count() {
    let dir = BDir::new("/a/a/a".to_string()).edit(&edit("/a", "/b", Some(2)));
    assert_eq!(dir.into_string(), "/b/b/a");
    let dir = BDir::new("/a/a/a".to_string()).edit(&edit("/a", "/b", Some(0)));
    assert_eq!(dir.into_string(), "/a/a/a");
}

#[test]
fn dir_edits_and_escapes() {
    let dir = Dir::new("/home/me/x".to_string())
        .edit(edit("/home/me", "\\e[1m~\\e[0m", None))
        .borrow_edit(&edit("x", "y", Some(1)));
    assert_eq!(dir.into_string(), "\x1b[1m~\x1b[0m/y");
    assert_eq!(Dir::new("plain".to_string()).into_string(), "plain");
}

#[test]
fn edits_apply_in_order() {
    let edits = vec![edit("/home/me", "~", None), edit("~/src", "S", Some(1))];
    assert_eq!(edit_all("/home/me/src/rot".to_string(), &edits), "S/rot");
    assert_eq!(edit_all("/tmp".to_string(), &Vec::new()), "/tmp");
}

#[test]
fn default_edit_is_home_to_tilde() {
    let edits = default_edits("/home/me".to_string());
    assert_eq!(edits.len(), 1);
    assert_eq!(edit_all("/home/me/x".to_string(), &edits), "~/x");
}
