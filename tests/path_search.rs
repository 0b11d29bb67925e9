use minishell::path_search::{
    first_executable, is_executable_mode, join_path, resolve_in, search_candidates,
    split_path_list,
};

#[test]
fn splits_search_path_at_colons() {
    assert_eq!(split_path_list("/usr/bin:/bin"), vec!["/usr/bin".to_string(), "/bin".to_string()]);
    assert_eq!(split_path_list("a::b"), vec!["a".to_string(), "".to_string(), "b".to_string()]);
    assert_eq!(split_path_list(""), vec!["".to_string()]);
}

#[test]
fn joins_directory_and_name() {
    assert_eq!(join_path("/usr/bin", "ls"), "/usr/bin/ls");
    assert_eq!(join_path("/usr/bin/", "ls"), "/usr/bin/ls");
    assert_eq!(join_path("", "ls"), "ls");
    assert_eq!(join_path("/usr/bin", "/bin/ls"), "/bin/ls");
}

#[test]
fn candidates_follow_search_path_order() {
    assert_eq!(
        search_candidates("/a:/b/", "cat"),
        vec!["/a/cat".to_string(), "/b/cat".to_string()]
    );
}

#[test]
fn execute_bits() {
    assert!(is_executable_mode(0o755));
    assert!(is_executable_mode(0o100));
    assert!(is_executable_mode(0o001));
    assert!(!is_executable_mode(0o644));
    assert!(!is_executable_mode(0));
}

#[test]
fn single_executable_is_found() {
    let cands = search_candidates("/a:/b:/c", "tool");
    let modes = vec![None, Some(0o100755), Some(0o100644)];
    assert_eq!(resolve_in(&cands, &modes), Some("/b/tool".to_string()));
}

#[test]
fn absent_name_is_not_found() {
    let cands = search_candidates("/a:/b", "nope");
    let modes = vec![None, Some(0o644)];
    assert_eq!(resolve_in(&cands, &modes), None);
}

#[test]
fn leftmost_duplicate_wins() {
    let modes = vec![Some(0o644), Some(0o755), Some(0o755)];
    assert_eq!(first_executable(&modes), Some(1));
    let cands = search_candidates("/x:/y:/z", "dup");
    assert_eq!(resolve_in(&cands, &modes), Some("/y/dup".to_string()));
}
