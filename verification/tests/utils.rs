//! The stage-result type and the virtual-command helpers.
use command_stream::utils::{CommandResult, VirtualUtils};

#[test]
fn utils_test_command_result_success() {
    let result = CommandResult::success("hello");
    assert!(result.is_success());
    assert_eq!(result.stdout, "hello");
    assert_eq!(result.stderr, "");
    assert_eq!(result.code, 0);
}

#[test]
fn test_command_result_success_empty() {
    let result = CommandResult::success_empty();
    assert!(result.is_success());
    assert_eq!(result.stdout, "");
    assert_eq!(result.stderr, "");
    assert_eq!(result.code, 0);
}

#[test]
fn utils_test_command_result_error() {
    let result = CommandResult::error("something went wrong");
    assert!(!result.is_success());
    assert_eq!(result.stdout, "");
    assert_eq!(result.stderr, "something went wrong");
    assert_eq!(result.code, 1);
}

#[test]
fn test_command_result_error_with_code() {
    let result = CommandResult::error_with_code("not found", 127);
    assert!(!result.is_success());
    assert_eq!(result.code, 127);
}

#[test]
fn test_missing_operand_error() {
    let result = VirtualUtils::missing_operand_error("cat");
    assert!(!result.is_success());
    assert!(result.stderr.contains("cat"));
    assert!(result.stderr.contains("missing operand"));
}

#[test]
fn test_missing_operand_error_with_message() {
    let result = VirtualUtils::missing_operand_error_with_message("cp", "missing file operand");
    assert!(!result.is_success());
    assert_eq!(result.stderr, "cp: missing file operand");
}

#[test]
fn test_invalid_argument_error() {
    let result = VirtualUtils::invalid_argument_error("test", "invalid option");
    assert!(!result.is_success());
    assert!(result.stderr.contains("test"));
    assert!(result.stderr.contains("invalid option"));
}

#[test]
fn test_virtual_utils_success() {
    let result = VirtualUtils::success("out");
    assert!(result.is_success());
    assert_eq!(result.stdout, "out");
}

#[test]
fn test_virtual_utils_error() {
    let result = VirtualUtils::error("bad");
    assert!(!result.is_success());
    assert_eq!(result.stderr, "bad");
}

#[test]
fn test_validate_args() {
    let args = vec!["arg1".to_string()];
    assert!(VirtualUtils::validate_args(&args, 1, "cmd").is_none());
    assert!(VirtualUtils::validate_args(&args, 2, "cmd").is_some());
}

#[test]
fn test_validate_args_sufficient() {
    let args = vec!["arg1".to_string()];
    let error = VirtualUtils::validate_args(&args, 1, "cmd");
    assert!(error.is_none());
}

#[test]
fn test_validate_args_insufficient() {
    let args: Vec<String> = vec![];
    let error = VirtualUtils::validate_args(&args, 1, "cmd");
    assert!(error.is_some());
}

#[test]
fn test_validate_args_count_message() {
    let args: Vec<String> = vec![];
    let error = VirtualUtils::validate_args(&args, 2, "cp").unwrap();
    assert_eq!(error.stderr, "cp: requires at least 2 arguments");
}

#[test]
fn utils_test_resolve_path_absolute() {
    let path = VirtualUtils::resolve_path("/absolute/path", None);
    assert_eq!(path, "/absolute/path");
}

#[test]
fn test_resolve_path_relative() {
    let path = VirtualUtils::resolve_path("relative/path", Some("/home/user"));
    assert_eq!(path, "/home/user/relative/path");
}

#[test]
fn test_resolve_path_relative_with_cwd() {
    let path = VirtualUtils::resolve_path("relative/path", Some("/home/user"));
    assert_eq!(path, "/home/user/relative/path");
}

#[test]
fn test_resolve_path_relative_without_cwd() {
    let path = VirtualUtils::resolve_path("relative/path", None);
    assert!(path.ends_with("relative/path"));
}

#[test]
fn test_resolve_path_base_with_separator() {
    let path = VirtualUtils::resolve_path("file", Some("/tmp/"));
    assert_eq!(path, "/tmp/file");
}

// The stripping helpers seen through the same doorway the virtual commands
// use them.
#[test]
fn utils_test_strip_ansi() {
    let text = "\x1b[31mRed text\x1b[0m";
    assert_eq!(command_stream::ansi::AnsiUtils::strip_ansi(text), "Red text");
}

#[test]
fn test_strip_ansi_color_codes() {
    let text = "\x1b[32mGreen\x1b[0m and \x1b[34mBlue\x1b[0m";
    assert_eq!(
        command_stream::ansi::AnsiUtils::strip_ansi(text),
        "Green and Blue"
    );
}

#[test]
fn utils_test_strip_control_chars() {
    let text = "Hello\x00World\nNew line\tTab";
    assert_eq!(
        command_stream::ansi::AnsiUtils::strip_control_chars(text),
        "HelloWorld\nNew line\tTab"
    );
}

#[test]
fn utils_test_strip_all() {
    let text = "\x1b[31mRed\x00text\x1b[0m\nNewline";
    assert_eq!(
        command_stream::ansi::AnsiUtils::strip_all(text),
        "Redtext\nNewline"
    );
}

#[test]
fn utils_test_ansi_config_default() {
    let config = command_stream::ansi::AnsiConfig::default();
    assert!(config.preserve_ansi);
    assert!(config.preserve_control_chars);
}

#[test]
fn utils_test_quote_empty() {
    assert_eq!(command_stream::quote::quote(""), "''");
}

#[test]
fn utils_test_quote_safe_chars() {
    assert_eq!(command_stream::quote::quote("hello"), "hello");
    assert_eq!(command_stream::quote::quote("/path/to/file"), "/path/to/file");
}

#[test]
fn utils_test_quote_special_chars() {
    assert_eq!(command_stream::quote::quote("hello world"), "'hello world'");
    assert_eq!(command_stream::quote::quote("it's"), "'it'\\''s'");
}
