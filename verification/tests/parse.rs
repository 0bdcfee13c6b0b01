use rot::parse2::{parse, parse_props, Item, Parser};
use rot::RotError;

fn node(name: &str) -> String {
    name.to_string()
}

fn names(items: &[Item]) -> Vec<String> {
    let mut out = Vec::new();
    for item in items {
        out.push(match item {
            Item::Node(n) => format!("node {}", n),
            Item::NodeVec(ns) => format!("list {}", ns.join("|")),
            Item::Props(p) => {
                let mut s = String::from("props");
                for i in 0..p.len() {
                    let (k, v) = p.entry(i).unwrap();
                    s.push_str(&format!(" {}={}", k, v));
                }
                s
            }
            Item::Link => "link".to_string(),
        });
    }
    out
}

fn read(text: &str) -> Vec<String> {
    names(&parse(text.to_string()).unwrap())
}

#[test]
fn empty_text_has_no_items() {
    assert!(read("").is_empty());
    assert!(read(" \n\t\n").is_empty());
}

#[test]
fn bare_names_end_at_newlines() {
    assert_eq!(read("A\nB\n"), vec!["node A", "node B"]);
}

#[test]
fn trailing_name_without_newline_is_accepted_and_not_emitted() {
    assert!(read("A").is_empty());
    assert_eq!(read("A->B"), vec!["node A", "link"]);
}

#[test]
fn link_chain() {
    assert_eq!(read("a->b->c\n"), vec!["node a", "link", "node b", "link", "node c"]);
}

#[test]
fn blanks_inside_a_name_belong_to_it() {
    assert_eq!(read("a b\n"), vec!["node a b"]);
}

#[test]
fn comment_runs_to_end_of_line() {
    assert_eq!(read("# a->b {x}\nA\n"), vec!["node A"]);
}

#[test]
fn comment_without_newline_is_unclosed() {
    assert_eq!(
        parse("# never ends".to_string()).unwrap_err(),
        RotError::UnclosedState(Parser::OnComment)
    );
}

#[test]
fn list_of_names() {
    assert_eq!(read("[a,b,c]"), vec!["list a|b|c"]);
    assert_eq!(read("[a,b,]"), vec!["list a|b"]);
    assert_eq!(read("[,a]"), vec!["list |a"]);
    assert_eq!(read("[]"), vec!["list "]);
}

#[test]
fn list_as_both_sides_of_a_link() {
    assert_eq!(read("[a,b]->[c,d]\n"), vec!["list a|b", "link", "list c|d"]);
}

#[test]
fn unclosed_list() {
    assert_eq!(
        parse("[a,b".to_string()).unwrap_err(),
        RotError::UnclosedState(Parser::OnNodeVec)
    );
}

#[test]
fn brace_in_list_is_illegal() {
    assert_eq!(
        parse("[a,b{".to_string()).unwrap_err(),
        RotError::IlegalCharName('{', node("b"))
    );
}

#[test]
fn comma_in_bare_name_is_illegal() {
    assert_eq!(
        parse("ab,c\n".to_string()).unwrap_err(),
        RotError::IlegalCharName(',', node("ab"))
    );
}

#[test]
fn link_needs_its_arrow_head() {
    assert_eq!(parse("a-b\n".to_string()).unwrap_err(), RotError::LinkSyntaxError('b'));
    assert_eq!(parse("a- >b\n".to_string()).unwrap_err(), RotError::LinkSyntaxError(' '));
}

#[test]
fn link_cut_short_at_end_is_unclosed() {
    assert_eq!(parse("a-".to_string()).unwrap_err(), RotError::UnclosedState(Parser::OnLink));
}

#[test]
fn property_block_follows_its_node() {
    assert_eq!(read("A{k:\"v\",j:\"w\"}\n"), vec!["node A", "props k=v j=w"]);
}

#[test]
fn property_block_may_span_blanks_and_lines() {
    assert_eq!(read("A{ k : \"v\" ,\n\tj:\"w x\" }\n"), vec!["node A", "props k=v j=w x"]);
}

#[test]
fn blanks_in_a_key_are_passed_over() {
    let p = parse_props("a b\t:\"1\", c\n:\" 2 \"".to_string()).unwrap();
    assert_eq!(p.len(), 2);
    assert_eq!(p.get("ab").unwrap(), "1");
    assert_eq!(p.get("c").unwrap(), " 2 ");
    assert_eq!(
        parse_props(" k ".to_string()).unwrap_err(),
        RotError::KeyWithoutValue(node("k"))
    );
}

#[test]
fn comma_inside_a_key_belongs_to_it() {
    let p = parse_props("a,b:\"1\"".to_string()).unwrap();
    assert_eq!(p.get("a,b").unwrap(), "1");
}

#[test]
fn second_brace_after_a_block_starts_a_name() {
    assert_eq!(
        read("A{k:\"v\"}{j:\"w\"}\n"),
        vec!["node A", "props k=v", "node {j:\"w\"}"]
    );
}

#[test]
fn link_after_property_block() {
    assert_eq!(read("A{k:\"v\"}->B\n"), vec!["node A", "props k=v", "link", "node B"]);
}

#[test]
fn props_later_value_wins_and_key_keeps_its_place() {
    let p = parse_props("a:\"1\",b:\"2\",a:\"3\"".to_string()).unwrap();
    assert_eq!(p.len(), 2);
    assert_eq!(p.entry(0).unwrap(), (&"a".to_string(), &"3".to_string()));
    assert_eq!(p.entry(1).unwrap(), (&"b".to_string(), &"2".to_string()));
}

#[test]
fn props_empty_block() {
    assert!(parse_props("".to_string()).unwrap().is_empty());
    assert!(parse_props(" ,\n, ".to_string()).unwrap().is_empty());
}

#[test]
fn props_empty_value() {
    let p = parse_props("k:\"\"".to_string()).unwrap();
    assert_eq!(p.get("k").unwrap(), "");
}

#[test]
fn props_value_without_closing_quote_counts() {
    let p = parse_props("k:\"v".to_string()).unwrap();
    assert_eq!(p.get("k").unwrap(), "v");
}

#[test]
fn props_key_with_colon_and_no_value() {
    assert_eq!(
        parse_props("k:".to_string()).unwrap_err(),
        RotError::KeyWithoutValue(node("k"))
    );
    assert_eq!(
        parse_props("k:\"".to_string()).unwrap_err(),
        RotError::KeyWithoutValue(node("k"))
    );
}

#[test]
fn props_dangling_key_without_colon() {
    assert_eq!(
        parse_props("bad".to_string()).unwrap_err(),
        RotError::KeyWithoutValue(node("bad"))
    );
    assert_eq!(
        parse("A{bad}\n".to_string()).unwrap_err(),
        RotError::KeyWithoutValue(node("bad"))
    );
}

#[test]
fn props_value_must_start_with_a_quote() {
    assert_eq!(
        parse_props("k:v".to_string()).unwrap_err(),
        RotError::DidntStartValue(String::new(), 'v')
    );
    assert_eq!(
        parse("A{k: 1}\n".to_string()).unwrap_err(),
        RotError::DidntStartValue(String::new(), '1')
    );
}

#[test]
fn non_ascii_names_are_read_by_character() {
    assert_eq!(read("é→ü\n"), vec!["node é→ü"]);
    assert_eq!(read("ä->ö\n"), vec!["node ä", "link", "node ö"]);
}
