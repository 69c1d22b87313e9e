//! The execution engine driven as its surrounding program would drive it:
//! pure evaluations end at once, and a stage that needs outside work is
//! answered here and the evaluation replayed.
use command_stream::engine::{
    run_command, run_stage, EvalOutcome, ExecutionContext, Pipeline, StageRequest, StageResponse,
};
use command_stream::utils::CommandResult;

fn base_ctx() -> ExecutionContext {
    ExecutionContext {
        cwd: "/start".to_string(),
        env: vec![("HOME".to_string(), "/home/user".to_string())],
        stdin: None,
        cancelled: false,
        virtual_enabled: true,
    }
}

fn done(outcome: EvalOutcome) -> CommandResult {
    match outcome {
        EvalOutcome::Done(r) => r,
        EvalOutcome::Need(q) => panic!("expected a finished result, stopped at: {}", q.command),
    }
}

fn need(outcome: EvalOutcome) -> StageRequest {
    match outcome {
        EvalOutcome::Done(r) => panic!("expected an outside stage, finished with code {}", r.code),
        EvalOutcome::Need(q) => q,
    }
}

#[test]
fn test_sequence_and_skips_after_failure() {
    let (outcome, _, used) = run_command("false && echo x", base_ctx(), &vec![]);
    let r = done(outcome);
    assert_eq!(r.code, 1);
    assert_eq!(r.stdout, "");
    assert_eq!(used, 0);
}

#[test]
fn test_sequence_or_skips_after_success() {
    let (outcome, _, _) = run_command("true || echo x", base_ctx(), &vec![]);
    let r = done(outcome);
    assert_eq!(r.code, 0);
    assert_eq!(r.stdout, "");
}

#[test]
fn test_sequence_and_runs_after_success() {
    let (outcome, _, _) = run_command("true && echo x", base_ctx(), &vec![]);
    let r = done(outcome);
    assert_eq!(r.code, 0);
    assert_eq!(r.stdout, "x\n");
}

#[test]
fn test_sequence_or_runs_after_failure() {
    let (outcome, _, _) = run_command("false || echo x", base_ctx(), &vec![]);
    let r = done(outcome);
    assert_eq!(r.code, 0);
    assert_eq!(r.stdout, "x\n");
}

#[test]
fn test_sequence_semicolon_unconditional() {
    let (outcome, _, _) = run_command("false ; echo x", base_ctx(), &vec![]);
    let r = done(outcome);
    assert_eq!(r.code, 0);
    assert_eq!(r.stdout, "x\n");
}

#[test]
fn test_pipeline_first_failure_short_circuits() {
    let (outcome, _, used) = run_command("echo x | false | echo y", base_ctx(), &vec![]);
    let r = done(outcome);
    assert_eq!(r.code, 1);
    assert_eq!(r.stdout, "");
    assert_eq!(used, 0);
}

#[test]
fn test_pipeline_chains_stdout_to_stdin() {
    let ctx = base_ctx();
    let (outcome, _, _) = run_command("echo 'a\nb\nc' | grep b", ctx, &vec![]);
    let request = need(outcome);
    assert_eq!(request.command, "grep b");
    let received = request.stdin.clone().unwrap();
    let filtered: String = received
        .lines()
        .filter(|l| l.contains('b'))
        .map(|l| format!("{}\n", l))
        .collect();
    let oracle = vec![StageResponse {
        result: CommandResult {
            stdout: filtered,
            stderr: String::new(),
            code: 0,
        },
        new_cwd: None,
    }];
    let (outcome2, _, used) = run_command("echo 'a\nb\nc' | grep b", base_ctx(), &oracle);
    let r = done(outcome2);
    assert_eq!(r.code, 0);
    assert!(r.stdout.contains('b'));
    assert!(!r.stdout.contains('a'));
    assert!(!r.stdout.contains('c'));
    assert_eq!(used, 1);
}

#[test]
fn test_shell_fallback_whole_string() {
    let (outcome, _, _) = run_command("echo $(date)", base_ctx(), &vec![]);
    let request = need(outcome);
    assert_eq!(request.command, "echo $(date)");
}

#[test]
fn test_empty_command_succeeds() {
    let (outcome, _, _) = run_command("", base_ctx(), &vec![]);
    let r = done(outcome);
    assert_eq!(r.code, 0);
    assert_eq!(r.stdout, "");
}

#[test]
fn test_cancelled_context_reports_interrupt_code() {
    let mut ctx = base_ctx();
    ctx.cancelled = true;
    let (outcome, _, _) = run_command("yes forever", ctx, &vec![]);
    let r = done(outcome);
    assert_eq!(r.code, 130);
    assert_eq!(r.stdout, "");
}

#[test]
fn test_disabled_dispatch_goes_outside() {
    let mut ctx = base_ctx();
    ctx.virtual_enabled = false;
    let (outcome, _, _) = run_command("echo hi", ctx, &vec![]);
    let request = need(outcome);
    assert_eq!(request.command, "echo hi");

    let virtual_result = done(run_command("echo hi", base_ctx(), &vec![]).0);
    let oracle = vec![StageResponse {
        result: CommandResult {
            stdout: "hi\n".to_string(),
            stderr: String::new(),
            code: 0,
        },
        new_cwd: None,
    }];
    let mut ctx2 = base_ctx();
    ctx2.virtual_enabled = false;
    let os_result = done(run_command("echo hi", ctx2, &oracle).0);
    assert_eq!(virtual_result.stdout, os_result.stdout);
}

#[test]
fn test_directory_change_threads_through_sequence() {
    let oracle = vec![StageResponse {
        result: CommandResult {
            stdout: String::new(),
            stderr: String::new(),
            code: 0,
        },
        new_cwd: Some("/elsewhere".to_string()),
    }];
    let (outcome, ctx_after, _) = run_command("cd /elsewhere && pwd", base_ctx(), &oracle);
    let r = done(outcome);
    assert_eq!(r.stdout, "/elsewhere\n");
    assert_eq!(ctx_after.cwd, "/elsewhere");
}

#[test]
fn test_subshell_directory_change_stays_inside() {
    let oracle = vec![StageResponse {
        result: CommandResult {
            stdout: String::new(),
            stderr: String::new(),
            code: 0,
        },
        new_cwd: Some("/elsewhere".to_string()),
    }];
    let (outcome, ctx_after, _) = run_command("(cd /elsewhere && pwd) ; pwd", base_ctx(), &oracle);
    let r = done(outcome);
    assert_eq!(r.stdout, "/start\n");
    assert_eq!(ctx_after.cwd, "/start");
}

#[test]
fn test_pipeline_accumulates_stderr() {
    let oracle = vec![StageResponse {
        result: CommandResult {
            stdout: "out1\n".to_string(),
            stderr: "warn1\n".to_string(),
            code: 0,
        },
        new_cwd: None,
    }];
    let (outcome, _, _) = run_command("external1 | false", base_ctx(), &oracle);
    let r = done(outcome);
    assert_eq!(r.code, 1);
    assert_eq!(r.stderr, "warn1\n");
}

#[test]
fn test_run_stage_virtual() {
    let (outcome, _, used) = run_stage("echo staged words", base_ctx(), &vec![], 0);
    let r = done(outcome);
    assert_eq!(r.stdout, "staged words\n");
    assert_eq!(used, 0);
}

#[test]
fn test_run_stage_external() {
    let (outcome, _, _) = run_stage("grep pattern", base_ctx(), &vec![], 0);
    let request = need(outcome);
    assert_eq!(request.command, "grep pattern");
    assert_eq!(request.cwd, "/start");
}

#[test]
fn test_pipeline_simple() {
    let p = Pipeline::new().add("echo hello world");
    let (outcome, _, _) = p.run_with(base_ctx(), &vec![]);
    let r = done(outcome);
    assert!(r.is_success());
    assert!(r.stdout.contains("hello world"));
}

#[test]
fn test_pipeline_with_stdin() {
    let p = Pipeline::new().stdin("line1\nline2\nline3").add("cat");
    let (outcome, _, _) = p.run_with(base_ctx(), &vec![]);
    let r = done(outcome);
    assert!(r.is_success());
    assert!(r.stdout.contains("line1"));
    assert!(r.stdout.contains("line2"));
    assert!(r.stdout.contains("line3"));
}

#[test]
fn test_pipeline_empty() {
    let p = Pipeline::new();
    let (outcome, _, _) = p.run_with(base_ctx(), &vec![]);
    let r = done(outcome);
    assert!(!r.is_success());
    assert!(r.stderr.contains("No commands"));
}

#[test]
fn test_pipeline_failure_propagation() {
    let p = Pipeline::new()
        .add("echo hello")
        .add("false")
        .add("echo should not reach here");
    let (outcome, _, _) = p.run_with(base_ctx(), &vec![]);
    let r = done(outcome);
    assert!(!r.is_success());
    assert_eq!(r.stdout, "");
}

#[test]
fn test_pipeline_builder_pattern() {
    let p = Pipeline::new()
        .add("echo test")
        .mirror_output(false)
        .capture_output(true);
    let (outcome, _, _) = p.run_with(base_ctx(), &vec![]);
    let r = done(outcome);
    assert!(r.is_success());
    assert_eq!(r.stdout, "test\n");
}

#[test]
fn test_pipeline_two_commands() {
    let p = Pipeline::new()
        .add("echo 'hello\nworld\nhello again'")
        .add("grep hello");
    let (outcome, _, _) = p.run_with(base_ctx(), &vec![]);
    let request = need(outcome);
    assert_eq!(request.command, "grep hello");
    let received = request.stdin.clone().unwrap();
    let filtered: String = received
        .lines()
        .filter(|l| l.contains("hello"))
        .map(|l| format!("{}\n", l))
        .collect();
    let oracle = vec![StageResponse {
        result: CommandResult {
            stdout: filtered,
            stderr: String::new(),
            code: 0,
        },
        new_cwd: None,
    }];
    let p2 = Pipeline::new()
        .add("echo 'hello\nworld\nhello again'")
        .add("grep hello");
    let (outcome2, _, _) = p2.run_with(base_ctx(), &oracle);
    let r = done(outcome2);
    assert!(r.is_success());
    assert!(r.stdout.contains("hello"));
}

#[test]
fn test_execute_virtual_echo() {
    let (outcome, _, _) = run_command("echo test virtual", base_ctx(), &vec![]);
    let r = done(outcome);
    assert!(r.is_success());
    assert!(r.stdout.contains("test virtual"));
}

#[test]
fn test_execute_virtual_true() {
    let r = done(run_command("true", base_ctx(), &vec![]).0);
    assert_eq!(r.code, 0);
}

#[test]
fn test_execute_virtual_false() {
    let r = done(run_command("false", base_ctx(), &vec![]).0);
    assert_eq!(r.code, 1);
}

#[test]
fn test_execute_virtual_exit() {
    let r = done(run_command("exit 7", base_ctx(), &vec![]).0);
    assert_eq!(r.code, 7);
}

#[test]
fn test_execute_virtual_pwd() {
    let r = done(run_command("pwd", base_ctx(), &vec![]).0);
    assert!(r.is_success());
    assert_eq!(r.stdout, "/start\n");
}

#[test]
fn test_execute_echo_with_n_flag() {
    let r = done(run_command("echo -n bare", base_ctx(), &vec![]).0);
    assert!(r.is_success());
    assert_eq!(r.stdout, "bare");
}

#[test]
fn test_quoted_argument_reaches_command_as_one_word() {
    let r = done(run_command("echo 'one single  word'", base_ctx(), &vec![]).0);
    assert!(r.is_success());
    assert_eq!(r.stdout, "one single  word\n");
}

#[test]
fn test_external_request_renders_quoted_arguments() {
    let (outcome, _, _) = run_command("grep 'a b' file.txt", base_ctx(), &vec![]);
    let request = need(outcome);
    assert_eq!(request.command, "grep 'a b' file.txt");
}

#[test]
fn test_sequence_result_is_last_executed_stage() {
    let r = done(run_command("false ; true", base_ctx(), &vec![]).0);
    assert_eq!(r.code, 0);
    let r2 = done(run_command("true ; false", base_ctx(), &vec![]).0);
    assert_eq!(r2.code, 1);
}

#[test]
fn test_sequence_skipped_stage_keeps_last_result() {
    let r = done(run_command("false && echo x || echo y", base_ctx(), &vec![]).0);
    assert_eq!(r.code, 0);
    assert_eq!(r.stdout, "y\n");
}

#[test]
fn test_pipeline_applies_cwd_and_env_overrides() {
    let p = Pipeline::new()
        .add("grep x")
        .cwd("/elsewhere")
        .env(vec![("MARK".to_string(), "set".to_string())]);
    let (outcome, _, _) = p.run_with(base_ctx(), &vec![]);
    let request = need(outcome);
    assert_eq!(request.cwd, "/elsewhere");
    assert_eq!(request.env[0], ("MARK".to_string(), "set".to_string()));
    assert!(request
        .env
        .contains(&("HOME".to_string(), "/home/user".to_string())));
}

#[test]
fn test_pipeline_env_reaches_virtual_stage() {
    let p = Pipeline::new()
        .add("cd")
        .env(vec![("HOME".to_string(), "/override/home".to_string())]);
    let (outcome, _, _) = p.run_with(base_ctx(), &vec![]);
    let request = need(outcome);
    assert_eq!(
        request.env[0],
        ("HOME".to_string(), "/override/home".to_string())
    );
}
