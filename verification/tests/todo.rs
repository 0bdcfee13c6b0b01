use rot::conf::{Config, ConfigError, ConfigRaw, Patterns};
use rot::filstu::PathFilter;
use rot::todo_rs::{count_todos, report_todos, FileTodos, Todo};

fn texts(words: &[&str]) -> Vec<String> {
    words.iter().map(|w| w.to_string()).collect()
}

fn raw() -> ConfigRaw {
    ConfigRaw {
        read_by_default: false,
        search_by_default: true,
        read_file_patterns: texts(&[r"\.rs$", r"\.md$"]),
        ignore_file_patterns: texts(&["generated"]),
        search_dir_patterns: texts(&[]),
        ignore_dir_patterns: texts(&["target", r"^\.git$"]),
        find_todos: vec![
            (r"\.rs$".to_string(), r"// TODO.*".to_string()),
            (r"\.md$".to_string(), r"<!-- TODO.*-->".to_string()),
            (r"src".to_string(), r"FIXME".to_string()),
        ],
        human_report: Some("todo.txt".to_string()),
        json_report: None,
    }
}

#[test]
fn patterns_match_any() {
    let p = Patterns::try_from(texts(&["^a", "z$"])).unwrap();
    assert!(p.matches_any("abc"));
    assert!(p.matches_any("xyz"));
    assert!(!p.matches_any("xya"));
    assert!(!Patterns::try_from(texts(&[])).unwrap().matches_any("abc"));
    assert_eq!(p.0[1].as_str(), "z$");
}

#[test]
fn patterns_refuse_what_does_not_compile() {
    assert!(matches!(
        Patterns::try_from(texts(&["^a", "(", "b"])),
        Err(ConfigError::InvalidRegex(_))
    ));
    let mut bad = raw();
    bad.ignore_dir_patterns.push("[".to_string());
    assert!(matches!(Config::try_from(bad), Err(ConfigError::InvalidRegex(_))));
    let mut bad = raw();
    bad.find_todos.push(("ok".to_string(), "(".to_string()));
    assert!(matches!(Config::try_from(bad), Err(ConfigError::InvalidRegex(_))));
}

#[test]
fn config_holds_what_was_written() {
    let cfg = Config::try_from(raw()).unwrap();
    assert!(!cfg.read_by_default);
    assert!(cfg.search_by_default);
    assert_eq!(cfg.read_file_patterns.0.len(), 2);
    assert_eq!(cfg.ignore_dir_patterns.0[0].as_str(), "target");
    assert_eq!(cfg.find_todos.len(), 3);
    assert_eq!(cfg.find_todos[1].1.as_str(), "<!-- TODO.*-->");
    assert_eq!(cfg.human_report.unwrap().0, "todo.txt");
    assert!(cfg.json_report.is_none());
}

#[test]
fn which_files_are_read() {
    let cfg = Config::try_from(raw()).unwrap();
    assert!(cfg.filter_file(Some("src/lib.rs")));
    assert!(!cfg.filter_file(Some("src/lib.c")));
    assert!(!cfg.filter_file(Some("src/generated.rs")));
    // A path that is no text is read only by default.
    assert!(!cfg.filter_file(None));
}

#[test]
fn which_directories_are_searched() {
    let cfg = Config::try_from(raw()).unwrap();
    assert!(cfg.filter_dir(Some("src")));
    assert!(!cfg.filter_dir(Some("target/debug")));
    assert!(!cfg.filter_dir(Some(".git")));
    assert!(cfg.filter_dir(Some(".github")));
    assert!(cfg.filter_dir(None));
}

#[test]
fn finders_of_a_path() {
    let cfg = Config::try_from(raw()).unwrap();
    let found: Vec<&str> = cfg.get_todo_finders("src/lib.rs").iter().map(|p| p.as_str()).collect();
    assert_eq!(found, vec!["// TODO.*", "FIXME"]);
    let found: Vec<&str> = cfg.get_todo_finders("README.md").iter().map(|p| p.as_str()).collect();
    assert_eq!(found, vec!["<!-- TODO.*-->"]);
    assert!(cfg.get_todo_finders("Makefile").is_empty());
}

#[test]
fn notes_are_counted() {
    let cfg = Config::try_from(raw()).unwrap();
    let finders = cfg.get_todo_finders("src/lib.rs");
    let text = "fn a() {} // TODO one\n// FIXME two\nfn b() {} // TODO three FIXME\n";
    // Three lines with TODO or FIXME by the first, two FIXME by the second.
    assert_eq!(count_todos(&finders, text), Some(4));
    assert_eq!(count_todos(&finders, ""), Some(0));
    assert_eq!(count_todos(&Vec::new(), text), Some(0));
}

#[test]
fn notes_are_reported_once_for_each_offset() {
    let cfg = Config::try_from(raw()).unwrap();
    let first = Patterns::try_from(texts(&["TODO.*", "TODO"])).unwrap();
    let finders = vec![&first.0[0], &first.0[1]];
    let notes = report_todos(&finders, "a TODO one\nb TODO two\n");
    // The later expression has the notes at the offsets that both find.
    assert_eq!(notes.len(), 2);
    assert_eq!((notes[0].pos, notes[0].text.as_str()), (2, "TODO"));
    assert_eq!((notes[1].pos, notes[1].text.as_str()), (13, "TODO"));
    let finders = cfg.get_todo_finders("src/lib.rs");
    let notes = report_todos(&finders, "x // TODO a\nFIXME\n");
    assert_eq!(notes.len(), 2);
    assert_eq!((notes[0].pos, notes[0].text.as_str()), (2, "// TODO a"));
    assert_eq!((notes[1].pos, notes[1].text.as_str()), (12, "FIXME"));
}

#[test]
fn report_of_a_file() {
    let mut out = String::from("# notes\n");
    let none = FileTodos { from: "a.rs".to_string(), todos: vec![] };
    none.write(&mut out);
    assert_eq!(out, "# notes\n");
    let some = FileTodos {
        from: "src/b.rs".to_string(),
        todos: vec![
            Todo { pos: 3, text: "TODO one".to_string() },
            Todo { pos: 9, text: "TODO two".to_string() },
        ],
    };
    some.write(&mut out);
    assert_eq!(out, "# notes\nsrc/b.rs\n\tTODO one\n\tTODO two\n\n");
}
