use rot::filte2_rs::{compile, parse, CdFilter, FilteError, Filter, RawFilter};

fn args(words: &[&str]) -> Vec<String> {
    words.iter().map(|w| w.to_string()).collect()
}

fn filter(words: &[&str]) -> Filter {
    parse(args(words)).unwrap()
}

fn raw(text: &str) -> RawFilter {
    RawFilter::try_from(text.to_string()).unwrap()
}

#[test]
fn is_mode() {
    assert!(raw("=abc").compare("abc"));
    assert!(!raw("=abc").compare("abcd"));
    assert!(!raw("i=abc").compare("abc"));
    assert!(raw("i=abc").compare("ab"));
    assert!(raw("=").compare(""));
}

#[test]
fn starts_and_ends() {
    assert!(raw("sab").compare("abc"));
    assert!(raw("^ab").compare("ab"));
    assert!(!raw("^ab").compare("cab"));
    assert!(raw("zbc").compare("abc"));
    assert!(raw("$bc").compare("bc"));
    assert!(!raw("$bc").compare("bca"));
    assert!(raw("i^ab").compare("cab"));
}

#[test]
fn includes_and_excludes() {
    assert!(raw("hell").compare("shells"));
    assert!(raw("+ell").compare("ell"));
    assert!(!raw("+ell").compare("el l"));
    assert!(raw("+").compare("anything"));
    assert!(!raw("ell").compare("bell"));
    assert!(raw("-ell").compare("ball"));
    // Turned round twice.
    assert!(raw("i-ell").compare("bell"));
    assert!(raw("ie").compare("x"));
}

#[test]
fn regex_mode() {
    assert!(raw("r^a+b$").compare("aaab"));
    assert!(!raw("r^a+b$").compare("aaabc"));
    assert!(raw(r".\d{3}").compare("x123y"));
    assert!(raw(r"i.\d{3}").compare("x12y"));
}

#[test]
fn glob_mode() {
    assert!(raw("gc?t").compare("cat"));
    assert!(raw("?d*g").compare("doog"));
    assert!(!raw("?d*g").compare("dogs"));
    assert!(raw("igc?t").compare("cart"));
}

#[test]
fn raw_filter_errors() {
    assert!(matches!(RawFilter::try_from(String::new()), Err(FilteError::MissingText)));
    assert!(matches!(RawFilter::try_from("i".to_string()), Err(FilteError::MissingMode)));
    assert!(matches!(RawFilter::try_from("xabc".to_string()), Err(FilteError::NoFilter('x'))));
    assert!(matches!(RawFilter::try_from("ii=a".to_string()), Err(FilteError::NoFilter('i'))));
    assert!(matches!(RawFilter::try_from("r(".to_string()), Err(FilteError::RegexSyntax(_))));
    assert!(matches!(RawFilter::try_from("g[".to_string()), Err(FilteError::GlobSyntax(_))));
}

#[test]
fn words_of_arguments() {
    let cmds = compile(args(&["and[", "or[", "not[", "]", "=a", "and", "]]"]));
    assert!(matches!(cmds[0], CdFilter::And));
    assert!(matches!(cmds[1], CdFilter::Or));
    assert!(matches!(cmds[2], CdFilter::Not));
    assert!(matches!(cmds[3], CdFilter::Close));
    assert!(matches!(&cmds[4], CdFilter::Raw(s) if s == "=a"));
    assert!(matches!(&cmds[5], CdFilter::Raw(s) if s == "and"));
    assert!(matches!(&cmds[6], CdFilter::Raw(s) if s == "]]"));
}

#[test]
fn joined_filters() {
    let f = filter(&["and[", "^a", "$z", "]"]);
    assert!(f.compare("abcz"));
    assert!(!f.compare("abc"));
    let f = filter(&["or[", "^a", "$z", "]"]);
    assert!(f.compare("abc"));
    assert!(f.compare("xyz"));
    assert!(!f.compare("xyc"));
    let f = filter(&["not[", "+b", "]"]);
    assert!(f.compare("ac"));
    assert!(!f.compare("abc"));
}

#[test]
fn empty_brackets() {
    assert!(filter(&["and[", "]"]).compare("x"));
    assert!(!filter(&["or[", "]"]).compare("x"));
}

#[test]
fn nested_filters() {
    let f = filter(&["and[", "not[", "or[", "=a", "=b", "]", "]", "r^.$", "]"]);
    assert!(f.compare("c"));
    assert!(!f.compare("a"));
    assert!(!f.compare("b"));
    assert!(!f.compare("cc"));
}

#[test]
fn only_the_first_filter_counts() {
    let f = filter(&["=a", "=b", "]"]);
    assert!(f.compare("a"));
    assert!(!f.compare("b"));
}

#[test]
fn reader_errors() {
    assert!(matches!(parse(args(&[])), Err(FilteError::MissingCommand)));
    assert!(matches!(parse(args(&["]"])), Err(FilteError::NeedlessClose)));
    assert!(matches!(parse(args(&["and[", "=a"])), Err(FilteError::MissingClose)));
    assert!(matches!(parse(args(&["and["])), Err(FilteError::MissingClose)));
    assert!(matches!(parse(args(&["not["])), Err(FilteError::MissingClose)));
    assert!(matches!(parse(args(&["not[", "]"])), Err(FilteError::MissingCommand)));
    assert!(matches!(parse(args(&["not[", "=a"])), Err(FilteError::MissingClose)));
    assert!(matches!(parse(args(&["not[", "=a", "=b", "]"])), Err(FilteError::TooManyFilters)));
    assert!(matches!(parse(args(&["or[", "qx", "]"])), Err(FilteError::NoFilter('q'))));
    assert!(matches!(parse(args(&["or[", "", "]"])), Err(FilteError::MissingText)));
    assert!(matches!(parse(args(&["or[", "r(", "]"])), Err(FilteError::RegexSyntax(_))));
}
