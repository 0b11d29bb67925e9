use minishell::dispatch::{
    builtin_of, builtin_report, cd_error_report, classify, command_not_found_report,
    lookup_report, parent_dir, redirect_operator, split_redirect, Action, Builtin, Stream,
    WriteMode,
};
use minishell::repl::{line_action, next_step, trim_line, ReadEvent, Step};
use minishell::tokenizer::parse_command_line;

fn toks(v: &[&str]) -> Vec<String> {
    v.iter().map(|s| s.to_string()).collect()
}

#[test]
fn builtins_are_recognized() {
    assert_eq!(builtin_of("echo"), Some(Builtin::Echo));
    assert_eq!(builtin_of("exit"), Some(Builtin::Exit));
    assert_eq!(builtin_of("type"), Some(Builtin::Type));
    assert_eq!(builtin_of("pwd"), Some(Builtin::Pwd));
    assert_eq!(builtin_of("cd"), Some(Builtin::Cd));
    assert_eq!(builtin_of("ls"), None);
    assert_eq!(builtin_of("ech"), None);
}

#[test]
fn type_reports_every_builtin() {
    for name in ["echo", "exit", "type", "pwd", "cd"] {
        match classify(&toks(&["type", name])) {
            Action::TypeBuiltin(n) => {
                assert_eq!(n, name);
                assert_eq!(builtin_report(&n), format!("{} is a shell builtin", name));
            }
            _ => panic!("{} not reported as builtin", name),
        }
    }
}

#[test]
fn type_reports_found_and_missing_programs() {
    match classify(&toks(&["type", "ls"])) {
        Action::TypeLookup(n) => assert_eq!(n, "ls"),
        _ => panic!("expected a lookup"),
    }
    assert_eq!(lookup_report("ls", &Some("/bin/ls".to_string())), "ls is /bin/ls");
    assert_eq!(lookup_report("nosuch", &None), "nosuch: not found");
}

#[test]
fn redirection_operators() {
    assert_eq!(redirect_operator(">"), Some((Stream::Stdout, WriteMode::Truncate)));
    assert_eq!(redirect_operator("1>"), Some((Stream::Stdout, WriteMode::Truncate)));
    assert_eq!(redirect_operator(">>"), Some((Stream::Stdout, WriteMode::Append)));
    assert_eq!(redirect_operator("1>>"), Some((Stream::Stdout, WriteMode::Append)));
    assert_eq!(redirect_operator("2>"), Some((Stream::Stderr, WriteMode::Truncate)));
    assert_eq!(redirect_operator("2>>"), Some((Stream::Stderr, WriteMode::Append)));
    assert_eq!(redirect_operator("3>"), None);
    assert_eq!(redirect_operator(">>>"), None);
}

#[test]
fn truncating_redirect_is_extracted() {
    match classify(&parse_command_line("echo hi > out.txt")) {
        Action::Run(c) => {
            assert_eq!(c.name, "echo");
            assert_eq!(c.args, toks(&["hi"]));
            let r = c.redirect.expect("redirect");
            assert_eq!(r.stream, Stream::Stdout);
            assert_eq!(r.mode, WriteMode::Truncate);
            assert_eq!(r.target, "out.txt");
        }
        _ => panic!("expected a command"),
    }
}

#[test]
fn appending_redirect_is_extracted() {
    match classify(&parse_command_line("echo hi >> out.txt")) {
        Action::Run(c) => {
            let r = c.redirect.expect("redirect");
            assert_eq!(r.mode, WriteMode::Append);
            assert_eq!(r.stream, Stream::Stdout);
            assert_eq!(c.args, toks(&["hi"]));
        }
        _ => panic!("expected a command"),
    }
}


#[test]
fn only_first_clause_is_taken_out() {
    let (args, red) = split_redirect(&toks(&["a", "2>", "err", "b", ">", "out"]));
    assert_eq!(args, toks(&["a", "b", ">", "out"]));
    let r = red.expect("redirect");
    assert_eq!(r.stream, Stream::Stderr);
    assert_eq!(r.mode, WriteMode::Truncate);
    assert_eq!(r.target, "err");
}

#[test]
fn trailing_operator_is_an_argument() {
    let (args, red) = split_redirect(&toks(&["a", ">"]));
    assert_eq!(args, toks(&["a", ">"]));
    assert!(red.is_none());
}

#[test]
fn cd_targets() {
    assert!(matches!(classify(&toks(&["cd", ".."])), Action::CdParent));
    assert!(matches!(classify(&toks(&["cd", "~"])), Action::CdHome));
    match classify(&toks(&["cd", "nonexistent"])) {
        Action::CdPath(p) => assert_eq!(p, "nonexistent"),
        _ => panic!("expected a path"),
    }
    assert!(matches!(classify(&toks(&["cd"])), Action::Nothing));
}

#[test]
fn parent_of_root_is_root() {
    assert_eq!(parent_dir("/"), "/");
    assert_eq!(parent_dir("/usr"), "/");
    assert_eq!(parent_dir("/usr/local/bin"), "/usr/local");
}

#[test]
fn reports() {
    assert_eq!(cd_error_report("nonexistent"), "cd: nonexistent: No such file or directory");
    assert_eq!(command_not_found_report("frob"), "frob: command not found");
}

#[test]
fn simple_actions() {
    assert!(matches!(classify(&Vec::new()), Action::Nothing));
    assert!(matches!(classify(&toks(&["exit"])), Action::Exit));
    assert!(matches!(classify(&toks(&["pwd"])), Action::Pwd));
    assert!(matches!(classify(&toks(&["type"])), Action::Nothing));
}

#[test]
fn lines_are_trimmed() {
    assert_eq!(trim_line("  ls -l \n"), "ls -l");
    assert_eq!(trim_line("\t\n "), "");
    assert!(matches!(line_action("   pwd  \n"), Action::Pwd));
}

#[test]
fn loop_steps() {
    assert!(matches!(next_step(ReadEvent::Line("exit".to_string())), Step::Stop));
    assert!(matches!(next_step(ReadEvent::EndOfInput), Step::Stop));
    assert!(matches!(next_step(ReadEvent::Failed), Step::Stop));
    assert!(matches!(next_step(ReadEvent::Interrupted), Step::Interrupted));
    match next_step(ReadEvent::Line("ls -l".to_string())) {
        Step::Dispatch(Action::Run(c)) => {
            assert_eq!(c.name, "ls");
            assert_eq!(c.args, toks(&["-l"]));
        }
        _ => panic!("expected a command"),
    }
}
