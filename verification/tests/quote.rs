//! The quoting rules for interpolated values, and concrete round trips
//! through the tokenizer.
use command_stream::quote::{build_shell_command, needs_quoting, quote, quote_all};
use command_stream::shell_parser::{parse_shell_command, ParsedCommand};

#[test]
fn quote_test_quote_empty() {
    assert_eq!(quote(""), "''");
}

#[test]
fn quote_test_quote_safe_chars() {
    assert_eq!(quote("hello"), "hello");
    assert_eq!(quote("/path/to/file"), "/path/to/file");
    assert_eq!(quote("file.txt"), "file.txt");
    assert_eq!(quote("key=value"), "key=value");
    assert_eq!(quote("user@host"), "user@host");
}

#[test]
fn quote_test_quote_special_chars() {
    assert_eq!(quote("hello world"), "'hello world'");
    assert_eq!(quote("it's"), "'it'\\''s'");
    assert_eq!(quote("$var"), "'$var'");
    assert_eq!(quote("test*"), "'test*'");
}

#[test]
fn test_quote_already_quoted() {
    assert_eq!(quote("'already quoted'"), "'already quoted'");
    assert_eq!(quote("\"double quoted\""), "'\"double quoted\"'");
}

#[test]
fn test_quote_already_single_quoted() {
    assert_eq!(quote("'hello'"), "'hello'");
}

#[test]
fn test_quote_already_double_quoted() {
    let result = quote("\"hello\"");
    assert!(result.contains("hello"));
}

#[test]
fn test_quote_simple_string() {
    assert_eq!(quote("hello"), "hello");
}

#[test]
fn test_quote_path() {
    assert_eq!(quote("/path/to/file"), "/path/to/file");
}

#[test]
fn test_quote_with_spaces() {
    assert_eq!(quote("hello world"), "'hello world'");
}

#[test]
fn test_quote_with_single_quote() {
    assert_eq!(quote("it's"), "'it'\\''s'");
}

#[test]
fn test_quote_special_characters() {
    let result = quote("hello$world");
    assert!(result.starts_with("'") && result.ends_with("'"));
    let result = quote("hello;world");
    assert!(result.starts_with("'") && result.ends_with("'"));
    let result = quote("hello|world");
    assert!(result.starts_with("'") && result.ends_with("'"));
}

#[test]
fn test_quote_newline() {
    let result = quote("hello\nworld");
    assert!(result.contains("hello"));
    assert!(result.contains("world"));
}

#[test]
fn test_quote_with_newlines() {
    assert_eq!(quote("line1\nline2"), "'line1\nline2'");
}

#[test]
fn test_quote_with_tabs() {
    assert_eq!(quote("col1\tcol2"), "'col1\tcol2'");
}

#[test]
fn test_quote_all() {
    let args = vec!["echo", "hello world", "test"];
    assert_eq!(quote_all(&args), "echo 'hello world' test");
}

#[test]
fn test_needs_quoting() {
    assert!(!needs_quoting("hello"));
    assert!(!needs_quoting("/path/to/file"));
    assert!(needs_quoting("hello world"));
    assert!(needs_quoting("$PATH"));
    assert!(needs_quoting(""));
    assert!(needs_quoting("test*"));
}

fn round_trips(value: &str) {
    let mut command = String::from("echo ");
    command.push_str(&quote(value));
    let cmd = parse_shell_command(&command).unwrap();
    match cmd {
        ParsedCommand::Simple { cmd, args, .. } => {
            assert_eq!(cmd, "echo");
            assert_eq!(args.len(), 1);
            assert_eq!(args[0].value, value);
        }
        _ => panic!("Expected Simple command"),
    }
}

#[test]
fn test_quote_round_trip_concrete() {
    round_trips("hello");
    round_trips("hello world");
    round_trips("a\nb\nc");
    round_trips("\"double quoted\"");
    round_trips("col1\tcol2");
    round_trips("a&&b||c;d|e");
}

#[test]
fn test_quote_round_trip_empty() {
    let mut command = String::from("echo ");
    command.push_str(&quote(""));
    let cmd = parse_shell_command(&command).unwrap();
    match cmd {
        ParsedCommand::Simple { args, .. } => {
            assert_eq!(args.len(), 1);
            assert_eq!(args[0].value, "");
            assert!(args[0].quoted);
        }
        _ => panic!("Expected Simple command"),
    }
}

#[test]
fn test_build_shell_command() {
    let parts = ["echo ", ""];
    let values = ["hello world"];
    assert_eq!(build_shell_command(&parts, &values), "echo 'hello world'");
    let parts2 = ["cp ", " ", ""];
    let values2 = ["a b", "dir"];
    assert_eq!(build_shell_command(&parts2, &values2), "cp 'a b' dir");
}
