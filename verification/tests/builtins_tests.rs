use minishell::builtins::{partition_args, render_echo, select_cd_target, trim_quotes};

fn strings(xs: &[&str]) -> Vec<String> {
    xs.iter().map(|s| s.to_string()).collect()
}

#[test]
fn echo_joins_arguments_with_spaces() {
    let (skip, out) = render_echo(&strings(&["hello", "world"]));
    assert!(!skip);
    assert_eq!(out, "hello world");
}

#[test]
fn echo_dash_n_suppresses_newline_and_is_consumed() {
    let (skip, out) = render_echo(&strings(&["-n", "hi", "there"]));
    assert!(skip);
    assert_eq!(out, "hi there");
}

#[test]
fn echo_strips_surrounding_double_quotes() {
    let (_, out) = render_echo(&strings(&["\"quoted\"", "plain"]));
    assert_eq!(out, "quoted plain");
}

#[test]
fn echo_of_nothing_is_empty() {
    let (skip, out) = render_echo(&Vec::new());
    assert!(!skip);
    assert_eq!(out, "");
}

#[test]
fn quote_trimming_touches_only_the_ends() {
    assert_eq!(trim_quotes("\"a\"b\""), "a\"b");
    assert_eq!(trim_quotes("\"\"\"x\"\""), "x");
    assert_eq!(trim_quotes("\"\"\""), "");
    assert_eq!(trim_quotes("plain"), "plain");
    assert_eq!(trim_quotes(""), "");
}

#[test]
fn cd_with_too_many_arguments_is_refused() {
    let r = select_cd_target(&strings(&["a", "b"]), None, None);
    assert_eq!(r, Err("cd: too many arguments".to_string()));
}

#[test]
fn cd_without_arguments_goes_home() {
    let r = select_cd_target(&Vec::new(), Some("/home/u".to_string()), None);
    assert_eq!(r, Ok("/home/u".to_string()));
    let r = select_cd_target(&Vec::new(), None, None);
    assert_eq!(r, Err("HOME environment variable not set".to_string()));
}

#[test]
fn cd_dot_dot_goes_to_the_parent() {
    let r = select_cd_target(&strings(&[".."]), None, Some("/home".to_string()));
    assert_eq!(r, Ok("/home".to_string()));
    let r = select_cd_target(&strings(&[".."]), None, None);
    assert_eq!(r, Err("cd: cannot go up from root directory".to_string()));
}

#[test]
fn cd_tilde_goes_home_and_names_pass_through() {
    let r = select_cd_target(&strings(&["~"]), Some("/home/u".to_string()), None);
    assert_eq!(r, Ok("/home/u".to_string()));
    let r = select_cd_target(&strings(&["work"]), None, None);
    assert_eq!(r, Ok("work".to_string()));
}

#[test]
fn flag_partition_finds_and_removes_the_flag() {
    let (found, rest) = partition_args(&strings(&["-r", "x", "y"]), "-r");
    assert!(found);
    assert_eq!(rest, strings(&["x", "y"]));
    let (found, rest) = partition_args(&strings(&["x", "-p", "y", "-p"]), "-p");
    assert!(found);
    assert_eq!(rest, strings(&["x", "y"]));
}

#[test]
fn flag_partition_without_the_flag_changes_nothing() {
    let (found, rest) = partition_args(&strings(&["x", "y"]), "-r");
    assert!(!found);
    assert_eq!(rest, strings(&["x", "y"]));
}
