use simpleargumentsparser::tokenize;
use simpleargumentsparser::join_piped_lines;

fn args(list: &[&str]) -> Vec<String> {
    list.iter().map(|s| s.to_string()).collect()
}

#[test]
fn empty_input_means_no_arguments() {
    let r = tokenize(Vec::new(), None);
    assert!(r.no_args);
    assert_eq!(r.argc, 0);
    assert_eq!(r.s.len(), 0);
    assert_eq!(r.c.len(), 0);
    assert_eq!(r.o.len(), 0);
    assert_eq!(r.e.len(), 0);
    assert_eq!(r.p, None);
}

#[test]
fn piped_input_alone_is_not_no_arguments() {
    let r = tokenize(Vec::new(), Some("hello".to_string()));
    assert!(!r.no_args);
    assert_eq!(r.argc, 0);
    assert_eq!(r.p, Some("hello".to_string()));
}

#[test]
fn single_short_flag_is_boolean() {
    let r = tokenize(args(&["-h"]), None);
    assert_eq!(r.s.get("h"), Some(&"true".to_string()));
    assert_eq!(r.s.len(), 1);
    assert_eq!(r.o.len(), 0);
    assert_eq!(r.e.len(), 0);
}

#[test]
fn short_flag_consumes_next_token_as_value() {
    let r = tokenize(args(&["-o", "file.txt"]), None);
    assert_eq!(r.s.get("o"), Some(&"file.txt".to_string()));
    assert_eq!(r.o.len(), 0);
    assert_eq!(r.argc, 2);
}

#[test]
fn short_flag_before_dash_token_is_boolean() {
    let r = tokenize(args(&["-o", "-x"]), None);
    assert_eq!(r.s.get("o"), Some(&"true".to_string()));
    assert_eq!(r.s.get("x"), Some(&"true".to_string()));
}

#[test]
fn bundled_short_flags_are_all_boolean() {
    let r = tokenize(args(&["-abc"]), None);
    assert_eq!(r.s.get("a"), Some(&"true".to_string()));
    assert_eq!(r.s.get("b"), Some(&"true".to_string()));
    assert_eq!(r.s.get("c"), Some(&"true".to_string()));
    assert_eq!(r.s.len(), 3);
}

#[test]
fn bundled_short_flags_never_consume_a_value() {
    let r = tokenize(args(&["-ab", "value"]), None);
    assert_eq!(r.s.get("a"), Some(&"true".to_string()));
    assert_eq!(r.s.get("b"), Some(&"true".to_string()));
    assert_eq!(r.o.len(), 1);
    assert_eq!(r.o[0], ("value".to_string(), 2));
}

#[test]
fn long_flag_consumes_next_token_as_value() {
    let r = tokenize(args(&["--name", "value"]), None);
    assert_eq!(r.c.get("name"), Some(&"value".to_string()));
    assert_eq!(r.c.len(), 1);
    assert_eq!(r.o.len(), 0);
}

#[test]
fn long_flag_before_dash_token_is_boolean() {
    let r = tokenize(args(&["--name", "--other"]), None);
    assert_eq!(r.c.get("name"), Some(&"true".to_string()));
    assert_eq!(r.c.get("other"), Some(&"true".to_string()));
    assert_eq!(r.c.len(), 2);
}

#[test]
fn bare_double_dash_is_malformed() {
    let r = tokenize(args(&["--"]), None);
    assert_eq!(r.e, vec![1]);
    assert_eq!(r.o.len(), 0);
    assert_eq!(r.s.len(), 0);
    assert_eq!(r.c.len(), 0);
}

#[test]
fn malformed_positions_are_in_order() {
    let r = tokenize(args(&["x", "--", "--"]), None);
    assert_eq!(r.e, vec![2, 3]);
    assert_eq!(r.o, vec![("x".to_string(), 1)]);
}

#[test]
fn long_name_ending_with_hyphen_is_positional() {
    let r = tokenize(args(&["--1-bad-"]), None);
    assert_eq!(r.o, vec![("--1-bad-".to_string(), 1)]);
    assert_eq!(r.c.len(), 0);
    assert_eq!(r.e.len(), 0);
}

#[test]
fn long_name_with_double_hyphen_is_positional() {
    let r = tokenize(args(&["--a--b"]), None);
    assert_eq!(r.o, vec![("--a--b".to_string(), 1)]);
}

#[test]
fn long_name_starting_with_hyphen_is_positional() {
    let r = tokenize(args(&["---x"]), None);
    assert_eq!(r.o, vec![("---x".to_string(), 1)]);
}

#[test]
fn short_name_with_digit_is_positional() {
    let r = tokenize(args(&["-a1"]), None);
    assert_eq!(r.o, vec![("-a1".to_string(), 1)]);
    assert_eq!(r.s.len(), 0);
}

#[test]
fn lone_dash_is_positional() {
    let r = tokenize(args(&["-"]), None);
    assert_eq!(r.o, vec![("-".to_string(), 1)]);
}

#[test]
fn positionals_keep_one_based_positions() {
    let r = tokenize(args(&["pos1", "-v", "pos2"]), None);
    assert_eq!(r.o, vec![("pos1".to_string(), 1)]);
    assert_eq!(r.s.get("v"), Some(&"pos2".to_string()));
    assert_eq!(r.argc, 3);
}

#[test]
fn consumed_value_is_not_reparsed() {
    // "-y" is consumed as the value of "--name" before it can be a flag.
    let r = tokenize(args(&["--name", "y", "-y"]), None);
    assert_eq!(r.c.get("name"), Some(&"y".to_string()));
    assert_eq!(r.s.get("y"), Some(&"true".to_string()));
    let r2 = tokenize(args(&["--name", "y", "z"]), None);
    assert_eq!(r2.c.get("name"), Some(&"y".to_string()));
    assert_eq!(r2.o, vec![("z".to_string(), 3)]);
}

#[test]
fn repeated_flag_keeps_last_value() {
    let r = tokenize(args(&["-o", "a", "-o", "b"]), None);
    assert_eq!(r.s.get("o"), Some(&"b".to_string()));
    assert_eq!(r.s.len(), 1);
}

#[test]
fn long_name_with_digits_and_hyphens_is_valid() {
    let r = tokenize(args(&["--max-depth2", "7"]), None);
    assert_eq!(r.c.get("max-depth2"), Some(&"7".to_string()));
}

#[test]
fn empty_token_is_positional_and_consumable() {
    let r = tokenize(args(&[""]), None);
    assert_eq!(r.o, vec![("".to_string(), 1)]);
    // An empty next token does not start with a dash, so it is consumed.
    let r2 = tokenize(args(&["-o", ""]), None);
    assert_eq!(r2.s.get("o"), Some(&"".to_string()));
    assert_eq!(r2.o.len(), 0);
}

#[test]
fn argument_count_excludes_nothing() {
    let r = tokenize(args(&["a", "b", "c"]), None);
    assert_eq!(r.argc, 3);
}

#[test]
fn join_lines_empty_is_absent() {
    assert_eq!(join_piped_lines(&Vec::new()), None);
}

#[test]
fn join_lines_single_line_unchanged() {
    assert_eq!(join_piped_lines(&vec!["only".to_string()]), Some("only".to_string()));
}

#[test]
fn join_lines_uses_newline_separators() {
    let lines = vec!["a".to_string(), "b".to_string(), "c".to_string()];
    assert_eq!(join_piped_lines(&lines), Some("a\nb\nc".to_string()));
}

#[test]
fn join_lines_keeps_empty_lines() {
    let lines = vec!["".to_string(), "".to_string()];
    assert_eq!(join_piped_lines(&lines), Some("\n".to_string()));
}
