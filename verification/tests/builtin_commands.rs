//! The in-process virtual commands and the argument splitting of those whose
//! filesystem work lives outside the library.
use command_stream::commands::{
    basename, cat, cp_options, dirname, echo, evaluate_expression, exit, false_cmd,
    is_virtual_name, ls_options, mkdir_options, mv_operands, pwd, rm_options, true_cmd, yes,
    CommandContext, TestEval, TestQuery,
};

fn ctx_of(args: &[&str]) -> CommandContext {
    CommandContext::new(args.iter().map(|s| s.to_string()).collect())
}

#[test]
fn test_echo_simple() {
    let result = echo(ctx_of(&["hello", "world"]));
    assert!(result.is_success());
    assert_eq!(result.stdout, "hello world\n");
}

#[test]
fn echo_test_echo_empty() {
    let result = echo(ctx_of(&[]));
    assert!(result.is_success());
    assert_eq!(result.stdout, "\n");
}

#[test]
fn test_echo_basic() {
    let result = echo(ctx_of(&["hello"]));
    assert!(result.is_success());
    assert_eq!(result.stdout, "hello\n");
}

#[test]
fn test_echo_with_n_flag() {
    let result = echo(ctx_of(&["-n", "hello"]));
    assert!(result.is_success());
    assert_eq!(result.stdout, "hello");
}

#[test]
fn test_echo_with_e_flag() {
    let result = echo(ctx_of(&["-e", "line1\\nline2"]));
    assert!(result.is_success());
    assert_eq!(result.stdout, "line1\nline2\n");
}

#[test]
fn test_echo_with_capital_e_flag() {
    let result = echo(ctx_of(&["-e", "-E", "a\\tb"]));
    assert!(result.is_success());
    assert_eq!(result.stdout, "a\\tb\n");
}

#[test]
fn test_basename_simple() {
    let result = basename(ctx_of(&["/path/to/file.txt"]));
    assert!(result.is_success());
    assert_eq!(result.stdout, "file.txt\n");
}

#[test]
fn test_basename_with_suffix() {
    let result = basename(ctx_of(&["/path/to/file.txt", ".txt"]));
    assert!(result.is_success());
    assert_eq!(result.stdout, "file\n");
}

#[test]
fn test_basename_no_path() {
    let result = basename(ctx_of(&["file.txt"]));
    assert!(result.is_success());
    assert_eq!(result.stdout, "file.txt\n");
}

#[test]
fn test_basename() {
    let result = basename(ctx_of(&["/usr/local/bin/tool"]));
    assert!(result.is_success());
    assert_eq!(result.stdout, "tool\n");
}

#[test]
fn test_basename_missing_operand() {
    let result = basename(ctx_of(&[]));
    assert!(!result.is_success());
    assert_eq!(result.stderr, "basename: missing operand");
}

#[test]
fn test_dirname_simple() {
    let result = dirname(ctx_of(&["/path/to/file.txt"]));
    assert!(result.is_success());
    assert_eq!(result.stdout, "/path/to\n");
}

#[test]
fn test_dirname_just_file() {
    let result = dirname(ctx_of(&["file.txt"]));
    assert!(result.is_success());
    assert_eq!(result.stdout, ".\n");
}

#[test]
fn test_dirname_root() {
    let result = dirname(ctx_of(&["/file.txt"]));
    assert!(result.is_success());
    assert_eq!(result.stdout, "/\n");
}

#[test]
fn test_dirname() {
    let result = dirname(ctx_of(&["/a/b/c"]));
    assert!(result.is_success());
    assert_eq!(result.stdout, "/a/b\n");
}

#[test]
fn test_true() {
    let result = true_cmd(ctx_of(&[]));
    assert!(result.is_success());
    assert_eq!(result.code, 0);
}

#[test]
fn test_false() {
    let result = false_cmd(ctx_of(&[]));
    assert!(!result.is_success());
    assert_eq!(result.code, 1);
}

#[test]
fn exit_test_exit_default() {
    let result = exit(ctx_of(&[]));
    assert_eq!(result.code, 0);
}

#[test]
fn exit_test_exit_with_code() {
    let result = exit(ctx_of(&["42"]));
    assert_eq!(result.code, 42);
}

#[test]
fn test_exit_unreadable_code() {
    let result = exit(ctx_of(&["nope"]));
    assert_eq!(result.code, 0);
}

#[test]
fn test_cat_stdin() {
    let mut ctx = ctx_of(&[]);
    ctx.stdin = Some("stdin content".to_string());
    let result = cat(ctx);
    assert!(result.is_success());
    assert_eq!(result.stdout, "stdin content");
}

#[test]
fn test_cat_from_stdin() {
    let mut ctx = ctx_of(&[]);
    ctx.stdin = Some("a\nb\n".to_string());
    let result = cat(ctx);
    assert!(result.is_success());
    assert_eq!(result.stdout, "a\nb\n");
}

#[test]
fn test_cat_no_input() {
    let result = cat(ctx_of(&[]));
    assert!(result.is_success());
    assert_eq!(result.stdout, "");
}

#[test]
fn test_pwd_from_context() {
    let mut ctx = ctx_of(&[]);
    ctx.cwd = Some("/work/here".to_string());
    let result = pwd(ctx);
    assert!(result.is_success());
    assert_eq!(result.stdout, "/work/here\n");
}

#[test]
fn test_yes_custom_string() {
    let mut ctx = ctx_of(&["hello"]);
    ctx.cancelled = true;
    let result = yes(ctx);
    assert_eq!(result.code, 130);
}

#[test]
fn test_yes_with_cancellation() {
    let result = yes(ctx_of(&[]));
    assert!(!result.stdout.is_empty() || result.code == 130);
}

#[test]
fn test_yes_burst_content() {
    let result = yes(ctx_of(&["ok"]));
    assert!(result.is_success());
    assert!(result.stdout.starts_with("ok\nok\n"));
    assert_eq!(result.stdout.len(), 3000);
}

#[test]
fn test_string_equality() {
    let result = command_stream::commands::test(ctx_of(&["hello", "=", "hello"]));
    assert!(result.is_success());
}

#[test]
fn test_string_inequality() {
    let result = command_stream::commands::test(ctx_of(&["hello", "!=", "world"]));
    assert!(result.is_success());
}

#[test]
fn test_numeric_comparison() {
    let result = command_stream::commands::test(ctx_of(&["5", "-gt", "3"]));
    assert!(result.is_success());
}

#[test]
fn test_empty_string() {
    let result = command_stream::commands::test(ctx_of(&["-z", ""]));
    assert!(result.is_success());
}

#[test]
fn test_non_empty_string() {
    let result = command_stream::commands::test(ctx_of(&["-n", "hello"]));
    assert!(result.is_success());
}

#[test]
fn test_test_string_empty() {
    let result = command_stream::commands::test(ctx_of(&["-z", ""]));
    assert!(result.is_success());
}

#[test]
fn test_test_string_not_empty() {
    let result = command_stream::commands::test(ctx_of(&["-n", "x"]));
    assert!(result.is_success());
}

#[test]
fn test_test_string_equals() {
    let result = command_stream::commands::test(ctx_of(&["a", "=", "a"]));
    assert!(result.is_success());
}

#[test]
fn test_test_string_not_equals() {
    let result = command_stream::commands::test(ctx_of(&["a", "!=", "b"]));
    assert!(result.is_success());
}

#[test]
fn test_test_numeric_operators() {
    assert!(command_stream::commands::test(ctx_of(&["2", "-eq", "2"])).is_success());
    assert!(command_stream::commands::test(ctx_of(&["2", "-ne", "3"])).is_success());
    assert!(command_stream::commands::test(ctx_of(&["2", "-lt", "3"])).is_success());
    assert!(command_stream::commands::test(ctx_of(&["2", "-le", "2"])).is_success());
    assert!(command_stream::commands::test(ctx_of(&["3", "-gt", "2"])).is_success());
    assert!(command_stream::commands::test(ctx_of(&["3", "-ge", "3"])).is_success());
    assert!(!command_stream::commands::test(ctx_of(&["3", "-lt", "2"])).is_success());
}

#[test]
fn test_test_negation() {
    assert!(command_stream::commands::test(ctx_of(&["!", ""])).is_success());
    assert!(!command_stream::commands::test(ctx_of(&["!", "x"])).is_success());
}

#[test]
fn test_evaluate_expression_file_query() {
    let args = vec!["-e".to_string(), "/some/path".to_string()];
    match evaluate_expression(&args) {
        TestEval::FileQuery(q, p) => {
            assert!(matches!(q, TestQuery::Exists));
            assert_eq!(p, "/some/path");
        }
        TestEval::Decided(_) => panic!("expected a file query"),
    }
}

#[test]
fn test_is_virtual_name() {
    assert!(is_virtual_name("echo"));
    assert!(is_virtual_name("cat"));
    assert!(is_virtual_name("seq"));
    assert!(is_virtual_name("test"));
    assert!(!is_virtual_name("grep"));
    assert!(!is_virtual_name("Echo"));
}

#[test]
fn test_mkdir_options() {
    let args = vec!["-p".to_string(), "a/b".to_string(), "c".to_string()];
    let (parents, dirs) = mkdir_options(&args);
    assert!(parents);
    assert_eq!(dirs, vec!["a/b".to_string(), "c".to_string()]);
}

#[test]
fn test_rm_options() {
    let args = vec!["-rf".to_string(), "x".to_string()];
    let (recursive, force, paths) = rm_options(&args);
    assert!(recursive);
    assert!(force);
    assert_eq!(paths, vec!["x".to_string()]);

    let args2 = vec!["--recursive".to_string(), "y".to_string()];
    let (r2, f2, p2) = rm_options(&args2);
    assert!(r2);
    assert!(!f2);
    assert_eq!(p2, vec!["y".to_string()]);
}

#[test]
fn test_cp_options() {
    let args = vec!["-r".to_string(), "src".to_string(), "dst".to_string()];
    let (recursive, paths) = cp_options(&args);
    assert!(recursive);
    assert_eq!(paths, vec!["src".to_string(), "dst".to_string()]);
}

#[test]
fn test_mv_operands() {
    let args = vec!["-v".to_string(), "a".to_string(), "b".to_string()];
    let paths = mv_operands(&args);
    assert_eq!(paths, vec!["a".to_string(), "b".to_string()]);
}

#[test]
fn test_ls_options() {
    let args = vec!["-la".to_string()];
    let (all, long, paths) = ls_options(&args);
    assert!(all);
    assert!(long);
    assert_eq!(paths, vec![".".to_string()]);

    let args2 = vec!["-a".to_string(), "/tmp".to_string()];
    let (all2, long2, paths2) = ls_options(&args2);
    assert!(all2);
    assert!(!long2);
    assert_eq!(paths2, vec!["/tmp".to_string()]);
}

#[test]
fn test_command_context_new() {
    let ctx = CommandContext::new(vec!["arg1".to_string(), "arg2".to_string()]);
    assert_eq!(ctx.args.len(), 2);
    assert_eq!(ctx.args[0], "arg1");
    assert_eq!(ctx.args[1], "arg2");
}

#[test]
fn test_command_context_with_cwd() {
    let ctx = CommandContext {
        args: vec![],
        stdin: None,
        cwd: Some("/tmp".to_string()),
        env: None,
        cancelled: false,
    };
    assert_eq!(ctx.cwd, Some("/tmp".to_string()));
}

#[test]
fn test_command_context_is_cancelled_default() {
    let ctx = CommandContext::new(vec![]);
    assert!(!ctx.is_cancelled());
}

#[test]
fn test_basename_trailing_separators() {
    let result = basename(ctx_of(&["/a/b/"]));
    assert_eq!(result.stdout, "b\n");
}

#[test]
fn test_basename_parent_component() {
    let result = basename(ctx_of(&[".."]));
    assert_eq!(result.stdout, "\n");
}

#[test]
fn test_basename_root() {
    let result = basename(ctx_of(&["/"]));
    assert_eq!(result.stdout, "\n");
}

#[test]
fn test_dirname_trailing_separators() {
    let result = dirname(ctx_of(&["/a/b/"]));
    assert_eq!(result.stdout, "/a\n");
}

#[test]
fn test_dirname_missing_operand() {
    let result = dirname(ctx_of(&[]));
    assert!(!result.is_success());
    assert_eq!(result.stderr, "dirname: missing operand");
}

#[test]
fn test_dirname_trailing_dot_component() {
    let result = dirname(ctx_of(&["a/b/."]));
    assert_eq!(result.stdout, "a\n");
    let result2 = dirname(ctx_of(&["a/."]));
    assert_eq!(result2.stdout, ".\n");
}
