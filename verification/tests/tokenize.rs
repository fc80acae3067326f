use shell_core::tokenizer::tokenize;

fn toks(line: &str) -> Vec<String> {
    tokenize(line)
}

#[test]
fn echo_multiple_spaces_tokenizes() {
    assert_eq!(
        toks("echo a b  c"),
        vec!["echo".to_string(), "a".to_string(), "b".to_string(), "c".to_string()]
    );
}

#[test]
fn empty_and_whitespace_lines_yield_no_tokens() {
    assert_eq!(toks(""), Vec::<String>::new());
    assert_eq!(toks("   \t  "), Vec::<String>::new());
}

#[test]
fn leading_and_trailing_whitespace_is_discarded() {
    assert_eq!(toks("  ls -l \n"), vec!["ls".to_string(), "-l".to_string()]);
}

#[test]
fn single_token_line() {
    assert_eq!(toks("pwd"), vec!["pwd".to_string()]);
}
