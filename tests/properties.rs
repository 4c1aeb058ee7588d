use cdup::cli::RuleType;
use cdup::count::parse_count;
use cdup::downward::{glob_downward, Candidate};
use cdup::error::{UpError, ERROR_AMBIGUOUS, ERROR_ARGS, ERROR_NOMATCH};
use cdup::patterns::{GlobRule, RegexRule};
use cdup::path::DirPath;
use cdup::walk::{
    git_search_upward, handle_glob, handle_n, handle_raw, handle_regex, resolve_upward,
    upward_atmost,
};

fn path(text: &str) -> DirPath {
    DirPath::parse(text.as_bytes()).unwrap()
}

fn entry(name: &str, is_dir: Option<bool>) -> Candidate {
    Candidate { path: name.as_bytes().to_vec(), is_dir }
}

#[test]
fn count_keeps_the_remaining_segments() {
    let mut p = path("/a/b/c");
    upward_atmost(&mut p, 0);
    assert_eq!(p.to_bytes(), "/a/b/c".as_bytes());
    upward_atmost(&mut p, 2);
    assert_eq!(p.len(), 1);
    assert_eq!(p.to_bytes(), "/a".as_bytes());
    assert!(p.pop());
    assert!(!p.pop());

    let mut p = path("/a/b/c");
    upward_atmost(&mut p, 10);
    assert_eq!(p.len(), 0);
    assert_eq!(p.to_bytes(), "/".as_bytes());
    assert!(!p.pop());

    let mut p = DirPath::root();
    upward_atmost(&mut p, 3);
    assert_eq!(p.len(), 0);
}

#[test]
fn handle_n_reads_the_count() {
    let mut p = path("/hello/world");
    assert_eq!(handle_n(&mut p, "1"), Ok(()));
    assert_eq!(p.to_bytes(), "/hello".as_bytes());

    let mut p = path("/hello/world");
    assert_eq!(handle_n(&mut p, "+2"), Ok(()));
    assert_eq!(p.to_bytes(), "/".as_bytes());

    let mut p = path("/hello/world");
    assert_eq!(handle_n(&mut p, "x"), Err(UpError::InvalidCount));
    assert_eq!(p.to_bytes(), "/hello/world".as_bytes());
    assert_eq!(handle_n(&mut p, ""), Err(UpError::InvalidCount));
    assert_eq!(handle_n(&mut p, "-1"), Err(UpError::InvalidCount));
    assert_eq!(handle_n(&mut p, "99999999999999999999999"), Err(UpError::InvalidCount));
    assert_eq!(p.to_bytes(), "/hello/world".as_bytes());
}

#[test]
fn parse_count_values() {
    assert_eq!(parse_count("0"), Some(0));
    assert_eq!(parse_count("042"), Some(42));
    assert_eq!(parse_count("+7"), Some(7));
    assert_eq!(parse_count("18446744073709551615"), Some(usize::MAX));
    assert_eq!(parse_count("18446744073709551616"), None);
    assert_eq!(parse_count("+"), None);
    assert_eq!(parse_count("1 "), None);
    assert_eq!(parse_count("١"), None);
}

#[test]
fn searches_stop_at_a_strict_ancestor() {
    let mut p = path("/a/a");
    assert_eq!(handle_raw(&mut p, "a"), Ok(()));
    assert_eq!(p.to_bytes(), "/a".as_bytes());

    // The starting directory itself never matches.
    let mut p = path("/x/y");
    assert_eq!(handle_glob(&mut p, "y"), Err(UpError::NoMatch));
    assert_eq!(p.to_bytes(), "/".as_bytes());

    let mut p = DirPath::root();
    assert_eq!(handle_regex(&mut p, ""), Err(UpError::NoMatch));
    assert_eq!(p.len(), 0);
}

#[test]
fn unmatched_name_stays_unmatched_above() {
    let mut p = path("/a/b/c/d");
    assert_eq!(handle_raw(&mut p, "z"), Err(UpError::NoMatch));
    let mut q = path("/a/b");
    assert_eq!(handle_raw(&mut q, "z"), Err(UpError::NoMatch));
    let mut q = path("/a");
    assert_eq!(handle_raw(&mut q, "z"), Err(UpError::NoMatch));
}

#[test]
fn empty_regex_matches_first_parent() {
    let mut p = path("/hello/world");
    assert_eq!(handle_regex(&mut p, ""), Ok(()));
    assert_eq!(p.to_bytes(), "/hello".as_bytes());
}

#[test]
fn downward_star_scenarios() {
    let mut p = path("/top");
    let one = vec![entry("only", Some(true))];
    assert_eq!(glob_downward(&mut p, &one), Ok(()));
    assert_eq!(p.to_bytes(), "/top/only".as_bytes());

    let mut p = path("/top");
    let two = vec![entry("a", Some(true)), entry("b", Some(true))];
    assert_eq!(glob_downward(&mut p, &two), Err(UpError::Ambiguous));
    assert_eq!(p.to_bytes(), "/top".as_bytes());

    let mut p = path("/top");
    let none: Vec<Candidate> = Vec::new();
    assert_eq!(glob_downward(&mut p, &none), Err(UpError::NoMatch));
    assert_eq!(p.to_bytes(), "/top".as_bytes());
}

#[test]
fn downward_skips_files_and_keeps_unknown_entries() {
    let mut p = path("/top");
    let mixed = vec![entry("f.txt", Some(false)), entry("d", Some(true))];
    assert_eq!(glob_downward(&mut p, &mixed), Ok(()));
    assert_eq!(p.to_bytes(), "/top/d".as_bytes());

    let mut p = path("/top");
    let files = vec![entry("f.txt", Some(false))];
    assert_eq!(glob_downward(&mut p, &files), Err(UpError::NoMatch));

    let mut p = path("/top");
    let unknown = vec![entry("locked", None)];
    assert_eq!(glob_downward(&mut p, &unknown), Ok(()));
    assert_eq!(p.to_bytes(), "/top/locked".as_bytes());

    let mut p = path("/top");
    let deep = vec![entry("x/./y", Some(true))];
    assert_eq!(glob_downward(&mut p, &deep), Ok(()));
    assert_eq!(p.to_bytes(), "/top/x/y".as_bytes());

    let mut p = path("/top");
    let absolute = vec![entry("/elsewhere/z", None), entry("n", Some(false))];
    assert_eq!(glob_downward(&mut p, &absolute), Ok(()));
    assert_eq!(p.to_bytes(), "/elsewhere/z".as_bytes());
}

#[test]
fn unicode_names_match() {
    let mut p = path("/你好/世界/再一次");
    assert_eq!(handle_raw(&mut p, "世界"), Ok(()));
    assert_eq!(p.to_bytes(), "/你好/世界".as_bytes());

    let mut p = path("/你好/世界/再一次");
    assert_eq!(handle_glob(&mut p, "*界"), Ok(()));
    assert_eq!(p.to_bytes(), "/你好/世界".as_bytes());

    let mut p = path("/你好/世界/再一次");
    assert_eq!(handle_regex(&mut p, "界"), Ok(()));
    assert_eq!(p.to_bytes(), "/你好/世界".as_bytes());
}

#[test]
fn end_to_end_rules() {
    let none: Vec<bool> = Vec::new();

    let mut p = path("/hello/world/again");
    assert_eq!(resolve_upward(&mut p, RuleType::Glob, "wo*", &none), Ok(()));
    assert_eq!(p.to_bytes(), "/hello/world".as_bytes());

    let mut p = path("/hello/world");
    assert_eq!(resolve_upward(&mut p, RuleType::N, "1", &none), Ok(()));
    assert_eq!(p.to_bytes(), "/hello".as_bytes());

    let mut p = path("/hello/world/again");
    assert_eq!(resolve_upward(&mut p, RuleType::Raw, "hello", &none), Ok(()));
    assert_eq!(p.to_bytes(), "/hello".as_bytes());

    let mut p = path("/hello/world/again");
    assert_eq!(resolve_upward(&mut p, RuleType::Regex, "^w", &none), Ok(()));
    assert_eq!(p.to_bytes(), "/hello/world".as_bytes());

    let mut p = path("/repo/src/deep");
    let marks = vec![false, true, false];
    assert_eq!(resolve_upward(&mut p, RuleType::Git, "", &marks), Ok(()));
    assert_eq!(p.to_bytes(), "/repo".as_bytes());
}

#[test]
fn git_marker_search() {
    let mut p = path("/a/b");
    assert_eq!(git_search_upward(&mut p, &vec![true, true]), Ok(()));
    assert_eq!(p.to_bytes(), "/a".as_bytes());

    // The root itself may hold the marker.
    let mut p = path("/a/b");
    assert_eq!(git_search_upward(&mut p, &vec![true, false]), Ok(()));
    assert_eq!(p.to_bytes(), "/".as_bytes());

    let mut p = path("/a/b");
    assert_eq!(git_search_upward(&mut p, &vec![false, false]), Err(UpError::NoMatch));
    assert_eq!(p.len(), 0);
}

#[test]
fn bad_patterns_are_refused() {
    assert!(GlobRule::new("[").is_err());
    assert!(GlobRule::new("a***").is_err());
    assert!(RegexRule::new("(").is_err());

    let mut p = path("/a/b");
    assert_eq!(handle_glob(&mut p, "["), Err(UpError::InvalidPattern));
    assert_eq!(handle_regex(&mut p, "(unclosed"), Err(UpError::InvalidPattern));
    assert_eq!(p.to_bytes(), "/a/b".as_bytes());
}

#[test]
fn rules_match_names() {
    let g = GlobRule::new("wo?ld").unwrap();
    assert!(g.matches("world"));
    assert!(!g.matches("wo?ld-not"));
    assert!(!g.matches("wold"));
    let r = RegexRule::new("^h.l").unwrap();
    assert!(r.is_match("hello"));
    assert!(!r.is_match("^h.l"));
}

#[test]
fn names_that_are_not_text() {
    let mut raw_path = "/ok/".as_bytes().to_vec();
    raw_path.push(0xff);
    raw_path.extend_from_slice("/leaf".as_bytes());

    let mut p = DirPath::parse(&raw_path).unwrap();
    assert_eq!(handle_glob(&mut p, "ok"), Err(UpError::InvalidEncoding));
    assert_eq!(p.len(), 2);

    let mut p = DirPath::parse(&raw_path).unwrap();
    assert_eq!(handle_regex(&mut p, "ok"), Err(UpError::InvalidEncoding));

    // An exact name compares bytes and walks past such names.
    let mut p = DirPath::parse(&raw_path).unwrap();
    assert_eq!(handle_raw(&mut p, "ok"), Ok(()));
    assert_eq!(p.to_bytes(), "/ok".as_bytes());
}

#[test]
fn parent_marker_ends_the_walk() {
    let mut p = path("/a/../b/c");
    assert_eq!(handle_raw(&mut p, "a"), Err(UpError::NoMatch));
    assert_eq!(p.to_bytes(), "/a/..".as_bytes());
}

#[test]
fn paths_parse_and_render() {
    assert!(DirPath::parse("relative/x".as_bytes()).is_none());
    assert!(DirPath::parse("".as_bytes()).is_none());
    let p = path("//a///b/./c/");
    assert_eq!(p.len(), 3);
    assert_eq!(p.to_bytes(), "/a/b/c".as_bytes());
    assert_eq!(p.last(), &"c".as_bytes().to_vec());
    assert_eq!(path("/").len(), 0);
    assert_eq!(DirPath::root().to_bytes(), "/".as_bytes());

    let mut p = path("/a");
    p.push_path("b/c".as_bytes());
    assert_eq!(p.to_bytes(), "/a/b/c".as_bytes());
    p.push_path("/z".as_bytes());
    assert_eq!(p.to_bytes(), "/z".as_bytes());
    p.push_path("".as_bytes());
    assert_eq!(p.to_bytes(), "/z".as_bytes());
}

#[test]
fn exit_codes() {
    assert_eq!(UpError::NoMatch.exit_code(), ERROR_NOMATCH);
    assert_eq!(UpError::NoMatch.exit_code(), 4);
    assert_eq!(UpError::Ambiguous.exit_code(), ERROR_AMBIGUOUS);
    assert_eq!(UpError::InvalidPattern.exit_code(), ERROR_ARGS);
    assert_eq!(UpError::InvalidEncoding.exit_code(), 2);
    assert_eq!(UpError::InvalidCount.exit_code(), 2);
}

#[test]
fn rendered_paths_read_back() {
    for text in ["/", "/a", "/你好/世界/再一次", "/x/../y"] {
        let p = path(text);
        let again = DirPath::parse(&p.to_bytes()).unwrap();
        assert_eq!(again.to_bytes(), p.to_bytes());
        assert_eq!(again.len(), p.len());
    }
}
