use minishell::tokenizer::parse_command_line;

fn toks(v: &[&str]) -> Vec<String> {
    v.iter().map(|s| s.to_string()).collect()
}

#[test]
fn collapses_repeated_spaces() {
    assert_eq!(parse_command_line("echo  hello   world"), toks(&["echo", "hello", "world"]));
}

#[test]
fn single_quotes_keep_spaces() {
    assert_eq!(parse_command_line("echo 'a b' c"), toks(&["echo", "a b", "c"]));
}

#[test]
fn escaped_double_quote_inside_double_quotes() {
    assert_eq!(parse_command_line("echo \"a\\\"b\""), toks(&["echo", "a\"b"]));
}

#[test]
fn escaped_space_outside_quotes() {
    assert_eq!(parse_command_line("echo a\\ b"), toks(&["echo", "a b"]));
}

#[test]
fn empty_input_gives_no_tokens() {
    assert!(parse_command_line("").is_empty());
    assert!(parse_command_line("  \t ").is_empty());
}

#[test]
fn backslash_inside_double_quotes_kept_before_other_chars() {
    assert_eq!(parse_command_line("\"a\\nb\""), toks(&["a\\nb"]));
    assert_eq!(parse_command_line("\"a\\\\b\""), toks(&["a\\b"]));
}

#[test]
fn backslash_is_literal_in_single_quotes() {
    assert_eq!(parse_command_line("'a\\b'"), toks(&["a\\b"]));
}

#[test]
fn quotes_of_the_other_kind_are_literal() {
    assert_eq!(parse_command_line("\"it's\" 'say \"hi\"'"), toks(&["it's", "say \"hi\""]));
}

#[test]
fn unterminated_quote_is_closed_at_end() {
    assert_eq!(parse_command_line("echo 'a b"), toks(&["echo", "a b"]));
}

#[test]
fn adjacent_quoted_parts_join() {
    assert_eq!(parse_command_line("a'b c'\"d\"e"), toks(&["ab cde"]));
}

#[test]
fn empty_quotes_give_no_token() {
    assert_eq!(parse_command_line("echo '' x"), toks(&["echo", "x"]));
}

#[test]
fn trailing_backslash_is_dropped() {
    assert_eq!(parse_command_line("ab\\"), toks(&["ab"]));
}

#[test]
fn tabs_separate_tokens() {
    assert_eq!(parse_command_line("a\tb"), toks(&["a", "b"]));
}

#[test]
fn retokenizing_joined_plain_words_is_identity() {
    let words = toks(&["ls", "-la", "src/main.rs", "x=1"]);
    let joined = words.join(" ");
    assert_eq!(parse_command_line(&joined), words);
}

#[test]
fn non_ascii_characters_are_kept() {
    assert_eq!(parse_command_line("écho 'ça va'"), toks(&["écho", "ça va"]));
}
