use shell_core::command::Command;
use shell_core::shell::{Env, Fs, Shell};
use shell_core::tokenizer::tokenize;

fn strs(words: &[&str]) -> Vec<String> {
    words.iter().map(|w| w.to_string()).collect()
}

fn no_env() -> Env {
    Env { home: None, path: None }
}

fn no_fs() -> Fs {
    Fs { files: Vec::new(), dirs: Vec::new() }
}

fn run(line: &str, sh: &mut Shell, env: &Env, fs: &Fs) -> shell_core::shell::Outcome {
    let tokens = tokenize(line);
    assert!(!tokens.is_empty());
    Command::parse(tokens).execute(sh, env, fs)
}

#[test]
fn echo_prints_arguments_joined_by_single_spaces() {
    let mut sh = Shell::from_path("/");
    let r = run("echo a b  c", &mut sh, &no_env(), &no_fs());
    assert_eq!(r.out, strs(&["a b c"]));
    assert_eq!(r.err, Vec::<String>::new());
    assert!(r.exit.is_none());
    assert!(r.spawn.is_none());
}

#[test]
fn echo_without_arguments_prints_an_empty_line() {
    let mut sh = Shell::from_path("/");
    let r = run("echo", &mut sh, &no_env(), &no_fs());
    assert_eq!(r.out, strs(&[""]));
}

#[test]
fn type_reports_builtins_and_missing_names() {
    let mut sh = Shell::from_path("/");
    let env = Env { home: None, path: Some("/bin".to_string()) };
    let r = run("type exit", &mut sh, &env, &no_fs());
    assert_eq!(r.out, strs(&["exit is a shell builtin"]));
    assert_eq!(r.err, Vec::<String>::new());
    let r = run("type nonexistent_xyz", &mut sh, &env, &no_fs());
    assert_eq!(r.out, Vec::<String>::new());
    assert_eq!(r.err, strs(&["nonexistent_xyz: not found"]));
}

#[test]
fn type_reports_the_first_path_directory_holding_the_file() {
    let mut sh = Shell::from_path("/");
    let env = Env { home: None, path: Some("/usr/bin:/bin".to_string()) };
    let fs = Fs { files: strs(&["/bin/ls"]), dirs: Vec::new() };
    let r = run("type ls", &mut sh, &env, &fs);
    assert_eq!(r.out, strs(&["ls is /bin/ls"]));

    let fs = Fs { files: strs(&["/usr/bin/ls", "/bin/ls"]), dirs: Vec::new() };
    let r = run("type ls", &mut sh, &env, &fs);
    assert_eq!(r.out, strs(&["ls is /usr/bin/ls"]));
}

#[test]
fn type_handles_each_argument_independently() {
    let mut sh = Shell::from_path("/");
    let env = Env { home: None, path: Some("/bin".to_string()) };
    let fs = Fs { files: strs(&["/bin/ls"]), dirs: Vec::new() };
    let r = run("type cd missing_one ls", &mut sh, &env, &fs);
    assert_eq!(r.out, strs(&["cd is a shell builtin", "ls is /bin/ls"]));
    assert_eq!(r.err, strs(&["missing_one: not found"]));
}

#[test]
fn type_without_path_variable_reports_not_found() {
    let mut sh = Shell::from_path("/");
    let r = run("type ls", &mut sh, &no_env(), &no_fs());
    assert_eq!(r.out, Vec::<String>::new());
    assert_eq!(r.err, strs(&["ls: not found"]));
}

#[test]
fn pwd_prints_the_working_directory() {
    let mut sh = Shell::from_path("/a/b");
    let r = run("pwd", &mut sh, &no_env(), &no_fs());
    assert_eq!(r.out, strs(&["/a/b"]));
    let mut sh = Shell::from_path("/");
    let r = run("pwd", &mut sh, &no_env(), &no_fs());
    assert_eq!(r.out, strs(&["/"]));
}

#[test]
fn cd_to_a_missing_directory_reports_and_keeps_the_directory() {
    let mut sh = Shell::from_path("/a");
    let r = run("cd /nonexistent-dir-xyz", &mut sh, &no_env(), &no_fs());
    assert_eq!(r.out, Vec::<String>::new());
    assert_eq!(
        r.err,
        strs(&["cd: /nonexistent-dir-xyz: No such file or directory"])
    );
    let r = run("pwd", &mut sh, &no_env(), &no_fs());
    assert_eq!(r.out, strs(&["/a"]));
}

#[test]
fn cd_tilde_goes_to_the_home_directory() {
    let mut sh = Shell::from_path("/");
    let env = Env { home: Some("/home/user".to_string()), path: None };
    let fs = Fs { files: Vec::new(), dirs: strs(&["/home/user"]) };
    let r = run("cd ~", &mut sh, &env, &fs);
    assert_eq!(r.err, Vec::<String>::new());
    assert_eq!(sh.cwd_string(), "/home/user");
}

#[test]
fn cd_resolves_relative_targets_and_pwd_prints_the_normal_form() {
    let mut sh = Shell::from_path("/a");
    let fs = Fs { files: Vec::new(), dirs: strs(&["/a/c"]) };
    let r = run("cd b/../c/.", &mut sh, &no_env(), &fs);
    assert_eq!(r.err, Vec::<String>::new());
    let r = run("pwd", &mut sh, &no_env(), &no_fs());
    assert_eq!(r.out, strs(&["/a/c"]));
}

#[test]
fn cd_above_the_root_stays_at_the_root() {
    let mut sh = Shell::from_path("/");
    let fs = Fs { files: Vec::new(), dirs: strs(&["/"]) };
    let r = run("cd ..", &mut sh, &no_env(), &fs);
    assert_eq!(r.err, Vec::<String>::new());
    assert_eq!(sh.cwd_string(), "/");
}

#[test]
fn exit_asks_for_the_status_and_nothing_else() {
    let mut sh = Shell::from_path("/");
    let r = run("exit 42", &mut sh, &no_env(), &no_fs());
    assert_eq!(r.exit, Some(42));
    assert_eq!(r.out, Vec::<String>::new());
    assert_eq!(r.err, Vec::<String>::new());
    assert!(r.spawn.is_none());
}

#[test]
fn unknown_command_becomes_a_spawn_request() {
    let mut sh = Shell::from_path("/");
    let r = run("custom_exe_1234 alice", &mut sh, &no_env(), &no_fs());
    assert_eq!(r.out, Vec::<String>::new());
    assert_eq!(r.err, Vec::<String>::new());
    assert!(r.exit.is_none());
    let sp = r.spawn.expect("expected a spawn request");
    assert_eq!(sp.name, "custom_exe_1234");
    assert_eq!(sp.args, strs(&["alice"]));
    assert_eq!(sp.not_found, "custom_exe_1234: command not found");
}

#[test]
fn from_path_normalizes_the_starting_directory() {
    let sh = Shell::from_path("//a///b/./../c/");
    assert_eq!(sh.cwd_string(), "/a/c");
}

#[test]
fn file_probes_list_every_candidate_of_every_type_argument() {
    let env = Env { home: None, path: Some("/usr/bin:/bin/".to_string()) };
    let cmd = Command::parse(strs(&["type", "ls", "cat"]));
    let probes = cmd.file_probes(&env);
    assert_eq!(
        probes,
        strs(&["/usr/bin/ls", "/bin/ls", "/usr/bin/cat", "/bin/cat"])
    );
    let pwd_cmd = Command::parse(strs(&["pwd"]));
    assert_eq!(pwd_cmd.file_probes(&env), Vec::<String>::new());
}

#[test]
fn type_treats_an_empty_path_entry_as_the_bare_name() {
    let mut sh = Shell::from_path("/");
    let env = Env { home: None, path: Some(":/bin".to_string()) };
    let fs = Fs { files: strs(&["ls"]), dirs: Vec::new() };
    let r = run("type ls", &mut sh, &env, &fs);
    assert_eq!(r.out, strs(&["ls is ls"]));
}

#[test]
fn type_of_an_absolute_name_ignores_the_directories() {
    let mut sh = Shell::from_path("/");
    let env = Env { home: None, path: Some("/usr/bin:/bin".to_string()) };
    let fs = Fs { files: strs(&["/opt/tool"]), dirs: Vec::new() };
    let r = run("type /opt/tool", &mut sh, &env, &fs);
    assert_eq!(r.out, strs(&["/opt/tool is /opt/tool"]));
}

#[test]
fn dir_probe_names_the_resolved_target() {
    let sh = Shell::from_path("/a");
    let cmd = Command::parse(strs(&["cd", "b/.."]));
    assert_eq!(cmd.dir_probe(&sh, &no_env()), Some("/a".to_string()));
    let cmd = Command::parse(strs(&["echo", "hi"]));
    assert_eq!(cmd.dir_probe(&sh, &no_env()), None);
}
