use chat_core::parser::{parse_command, tokenize};

#[test]
fn parse_splits_marker_command_and_arguments() {
    let toks = parse_command("/NICK alice").unwrap();
    assert_eq!(toks, vec!["NICK".to_string(), "alice".to_string()]);
}

#[test]
fn parse_without_marker_is_a_recoverable_failure() {
    assert!(parse_command("NICK alice").is_none());
    assert!(parse_command("").is_none());
    assert!(parse_command(" /NICK").is_none());
}

#[test]
fn parse_collapses_runs_of_whitespace() {
    let toks = parse_command("/WHO   a\t b  ").unwrap();
    assert_eq!(toks, vec!["WHO".to_string(), "a".to_string(), "b".to_string()]);
}

#[test]
fn parse_marker_only_line_yields_no_tokens() {
    let toks = parse_command("/").unwrap();
    assert_eq!(toks.len(), 0);
    let toks2 = parse_command("/   ").unwrap();
    assert_eq!(toks2.len(), 0);
}

#[test]
fn tokenize_maximal_nonspace_runs() {
    assert_eq!(tokenize("  a  bb c "), vec!["a".to_string(), "bb".to_string(), "c".to_string()]);
    assert_eq!(tokenize(""), Vec::<String>::new());
    assert_eq!(tokenize(" \r\n\t "), Vec::<String>::new());
    assert_eq!(tokenize("one"), vec!["one".to_string()]);
}

#[test]
fn tokenize_keeps_line_ending_out_of_tokens() {
    assert_eq!(tokenize("NICK bob\r\n"), vec!["NICK".to_string(), "bob".to_string()]);
}
