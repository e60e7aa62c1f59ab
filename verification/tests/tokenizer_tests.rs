use minishell::tokenizer::{get_parts, tokenize};

#[test]
fn double_quoted_argument_groups_words() {
    assert_eq!(tokenize("echo \"a b\" c"), vec!["echo", "a b", "c"]);
}

#[test]
fn empty_input_yields_no_tokens() {
    assert_eq!(tokenize(""), Vec::<String>::new());
    let (command, args) = get_parts(String::new());
    assert_eq!(command, "");
    assert_eq!(args, Vec::<String>::new());
}

#[test]
fn double_quote_is_literal_inside_single_quotes() {
    assert_eq!(tokenize("cmd 'x\"y' z"), vec!["cmd", "x\"y", "z"]);
}

#[test]
fn closing_quote_flushes_immediately() {
    // Text adjacent to a closing quote starts a fresh token.
    assert_eq!(tokenize("\"ab\"cd"), vec!["ab", "cd"]);
}

#[test]
fn runs_of_spaces_collapse() {
    assert_eq!(tokenize("a   b"), vec!["a", "b"]);
    assert_eq!(tokenize("  a b  "), vec!["a", "b"]);
}

#[test]
fn unterminated_quote_emits_partial_token() {
    assert_eq!(tokenize("\"abc"), vec!["abc"]);
}

#[test]
fn lone_quote_yields_nothing() {
    assert_eq!(tokenize("'"), Vec::<String>::new());
    assert_eq!(tokenize("\"\""), Vec::<String>::new());
}

#[test]
fn single_quoted_argument_groups_words() {
    assert_eq!(tokenize("echo 'a b c' d"), vec!["echo", "a b c", "d"]);
}

#[test]
fn first_token_is_command_rest_are_arguments() {
    let (command, args) = get_parts("cp src.txt dst.txt".to_string());
    assert_eq!(command, "cp");
    assert_eq!(args, vec!["src.txt", "dst.txt"]);
}
