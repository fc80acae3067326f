use shell_core::command::{Command, PathType};

fn toks(words: &[&str]) -> Vec<String> {
    words.iter().map(|w| w.to_string()).collect()
}

#[test]
fn exit_with_code_is_exit() {
    assert!(matches!(Command::parse(toks(&["exit", "42"])), Command::Exit(42)));
    assert!(matches!(Command::parse(toks(&["exit", "-1"])), Command::Exit(-1)));
}

#[test]
fn echo_keeps_its_arguments_in_order() {
    match Command::parse(toks(&["echo", "a", "b", "c"])) {
        Command::Echo(args) => assert_eq!(args, toks(&["a", "b", "c"])),
        _ => panic!("expected Echo"),
    }
    match Command::parse(toks(&["echo"])) {
        Command::Echo(args) => assert_eq!(args, Vec::<String>::new()),
        _ => panic!("expected Echo"),
    }
}

#[test]
fn type_keeps_its_arguments_in_order() {
    match Command::parse(toks(&["type", "exit", "ls"])) {
        Command::Type(args) => assert_eq!(args, toks(&["exit", "ls"])),
        _ => panic!("expected Type"),
    }
}

#[test]
fn pwd_alone_is_pwd() {
    assert!(matches!(Command::parse(toks(&["pwd"])), Command::Pwd));
}

#[test]
fn cd_with_one_argument_is_cd() {
    assert!(matches!(
        Command::parse(toks(&["cd", "~"])),
        Command::Cd(PathType::HomeDir)
    ));
    match Command::parse(toks(&["cd", "/tmp"])) {
        Command::Cd(PathType::OtherPath(p)) => assert_eq!(p, "/tmp"),
        _ => panic!("expected Cd with a literal path"),
    }
}

#[test]
fn unknown_name_is_external_with_exact_arguments() {
    match Command::parse(toks(&["grep", "-r", "x"])) {
        Command::Other { command, args } => {
            assert_eq!(command, "grep");
            assert_eq!(args, toks(&["-r", "x"]));
        }
        _ => panic!("expected Other"),
    }
}

#[test]
fn builtin_names_with_wrong_arity_fall_through_to_external() {
    assert!(matches!(
        Command::parse(toks(&["exit"])),
        Command::Other { .. }
    ));
    assert!(matches!(
        Command::parse(toks(&["exit", "1", "2"])),
        Command::Other { .. }
    ));
    assert!(matches!(
        Command::parse(toks(&["pwd", "x"])),
        Command::Other { .. }
    ));
    assert!(matches!(Command::parse(toks(&["cd"])), Command::Other { .. }));
    assert!(matches!(
        Command::parse(toks(&["cd", "a", "b"])),
        Command::Other { .. }
    ));
}

#[test]
fn path_type_reads_tilde_as_home() {
    assert!(matches!(PathType::parse("~"), PathType::HomeDir));
    match PathType::parse("~user") {
        PathType::OtherPath(p) => assert_eq!(p, "~user"),
        _ => panic!("expected a literal path"),
    }
}
