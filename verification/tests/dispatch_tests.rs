use minishell::dispatch::{dispatch, not_found_message, prompt_string, Action, Builtin};

#[test]
fn unknown_command_gets_exact_diagnostic() {
    assert_eq!(dispatch("foo"), Action::Unknown);
    assert_eq!(not_found_message("foo"), "Command 'foo' not found.");
}

#[test]
fn empty_name_is_a_no_op() {
    assert_eq!(dispatch(""), Action::Nothing);
}

#[test]
fn exit_terminates_the_loop() {
    assert_eq!(dispatch("exit"), Action::Quit);
}

#[test]
fn every_builtin_name_resolves() {
    assert_eq!(dispatch("echo"), Action::Run(Builtin::Echo));
    assert_eq!(dispatch("cd"), Action::Run(Builtin::Cd));
    assert_eq!(dispatch("ls"), Action::Run(Builtin::Ls));
    assert_eq!(dispatch("pwd"), Action::Run(Builtin::Pwd));
    assert_eq!(dispatch("cat"), Action::Run(Builtin::Cat));
    assert_eq!(dispatch("cp"), Action::Run(Builtin::Cp));
    assert_eq!(dispatch("rm"), Action::Run(Builtin::Rm));
    assert_eq!(dispatch("mv"), Action::Run(Builtin::Mv));
    assert_eq!(dispatch("mkdir"), Action::Run(Builtin::Mkdir));
}

#[test]
fn near_misses_stay_unknown() {
    assert_eq!(dispatch("Echo"), Action::Unknown);
    assert_eq!(dispatch("exit "), Action::Unknown);
    assert_eq!(dispatch("lss"), Action::Unknown);
}

#[test]
fn prompt_colors_the_path() {
    assert_eq!(prompt_string("/tmp"), "\u{1b}[36m/tmp\u{1b}[0m$ ");
}
