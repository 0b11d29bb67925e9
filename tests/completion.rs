use minishell::completion::{
    argument_candidates, command_candidates, complete_with, listing_dir, plan_completion,
    split_word, DirEntry,
};
use minishell::candidate::{sort_by_display, Candidate};

fn entry(name: &str, mode: Option<u32>, is_dir: bool) -> DirEntry {
    DirEntry { name: name.to_string(), mode, is_dir }
}

fn shown(c: &[Candidate]) -> Vec<(String, String, bool)> {
    c.iter().map(|c| (c.display.clone(), c.replacement.clone(), c.is_directory)).collect()
}

fn cand(d: &str, r: &str, dir: bool) -> (String, String, bool) {
    (d.to_string(), r.to_string(), dir)
}

#[test]
fn builtin_completes_in_command_position() {
    let plan = plan_completion("ech", 3);
    assert_eq!(plan.start, 0);
    assert_eq!(plan.word, "ech");
    assert!(plan.command_mode);
    let c = complete_with(&plan, &Vec::new());
    assert_eq!(shown(&c), vec![cand("echo", "echo ", false)]);
}

#[test]
fn pwd_sorted_among_other_matches() {
    let entries = vec![
        entry("pwdx", Some(0o755), false),
        entry("pw", Some(0o755), false),
        entry("pwgen", Some(0o644), false),
    ];
    let c = command_candidates("pw", &entries);
    assert_eq!(
        shown(&c),
        vec![cand("pw", "pw ", false), cand("pwd", "pwd ", false), cand("pwdx", "pwdx ", false)]
    );
}

#[test]
fn command_names_are_listed_once() {
    let entries = vec![
        entry("echo", Some(0o755), false),
        entry("exa", Some(0o755), false),
        entry("exa", Some(0o755), false),
        entry("exec-x", None, false),
    ];
    let c = command_candidates("e", &entries);
    assert_eq!(
        shown(&c),
        vec![cand("echo", "echo ", false), cand("exa", "exa ", false), cand("exit", "exit ", false)]
    );
}

#[test]
fn empty_word_offers_all_builtins() {
    let c = command_candidates("", &Vec::new());
    let names: Vec<String> = c.iter().map(|c| c.display.clone()).collect();
    assert_eq!(names, vec!["cd", "echo", "exit", "pwd", "type"]);
}

#[test]
fn files_and_directories_in_argument_position() {
    let plan = plan_completion("cat foo", 7);
    assert_eq!(plan.start, 4);
    assert_eq!(plan.word, "foo");
    assert!(!plan.command_mode);
    assert_eq!(listing_dir(&plan.word), "./");
    let entries = vec![
        entry("foobar", Some(0o755), true),
        entry("foo.txt", Some(0o644), false),
        entry("bar", Some(0o644), false),
    ];
    let c = complete_with(&plan, &entries);
    assert_eq!(
        shown(&c),
        vec![cand("foo.txt", "foo.txt ", false), cand("foobar/", "foobar/", true)]
    );
}

#[test]
fn hidden_entries_are_skipped() {
    let entries = vec![entry(".git", None, true), entry("src", None, true)];
    let c = argument_candidates("", &entries);
    assert_eq!(shown(&c), vec![cand("src/", "src/", true)]);
    let c = argument_candidates(".g", &entries);
    assert!(c.is_empty());
}

#[test]
fn word_with_directory_keeps_its_lead() {
    assert_eq!(split_word("src/ma"), ("src/".to_string(), "ma".to_string()));
    assert_eq!(split_word("/us"), ("/".to_string(), "us".to_string()));
    assert_eq!(split_word("plain"), ("".to_string(), "plain".to_string()));
    assert_eq!(listing_dir("src/ma"), "src/");
    let entries = vec![entry("main.rs", None, false), entry("lib.rs", None, false)];
    let c = argument_candidates("src/ma", &entries);
    assert_eq!(shown(&c), vec![cand("main.rs", "src/main.rs ", false)]);
}

#[test]
fn command_position_after_separator() {
    let plan = plan_completion("ls | gr", 7);
    assert_eq!(plan.start, 5);
    assert!(plan.command_mode);
    let plan = plan_completion("a; b", 4);
    assert!(plan.command_mode);
    let plan = plan_completion("  x", 3);
    assert_eq!(plan.start, 2);
    assert!(plan.command_mode);
}

#[test]
fn cursor_in_the_middle_of_the_line() {
    let plan = plan_completion("cat fo bar", 6);
    assert_eq!(plan.start, 4);
    assert_eq!(plan.word, "fo");
    assert!(!plan.command_mode);
    let plan = plan_completion("cat ", 4);
    assert_eq!(plan.start, 4);
    assert_eq!(plan.word, "");
}

#[test]
fn sort_orders_by_code_point() {
    let mk = |d: &str| Candidate { display: d.to_string(), replacement: String::new(), is_directory: false };
    let v = vec![mk("b"), mk("B"), mk("ab"), mk("a"), mk("é")];
    let s: Vec<String> = sort_by_display(v).into_iter().map(|c| c.display).collect();
    assert_eq!(s, vec!["B", "a", "ab", "b", "é"]);
}
