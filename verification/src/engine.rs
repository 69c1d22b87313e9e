//! The execution engine: it interprets a command tree against an explicit
//! context, dispatches each simple command to an in-process virtual command
//! or to an outside process, and implements the sequence, pipeline and
//! subshell rules — conditional continuation, stdout-to-stdin chaining with
//! first-failure short-circuit, and directory isolation.
//!
//! Outside work is not performed here: when a stage needs a process or the
//! filesystem, evaluation stops with a request, and the surrounding program
//! appends the outcome to the response list and evaluates again. Evaluation
//! is deterministic, so the replay takes the same path.
use vstd::prelude::*;
use crate::commands::{
    args_view, basename, cat, dirname, echo, env_view, evaluate_expression, exit, false_cmd,
    pwd, repeat_n, spec_dirname_path, spec_echo_output, spec_exit_code, spec_file_name,
    spec_test_eval, spec_yes_line, true_cmd, yes, yes_burst, CommandContext, TestEval,
};
use crate::shell_parser::{
    cmd_view, needs_real_shell, parse_shell_command, spec_needs_real_shell, spec_parse, ArgView,
    CommandView, ParsedArg, ParsedCommand, Redirect, RedirectView, TokenType, TokenView,
};
use crate::text::{spec_split_ws, split_whitespace_words, str_eq};
use crate::utils::{CommandResult, ResultView};

verus! {

/// The context a command tree is evaluated against: a logical working
/// directory, an environment snapshot, the input of the whole invocation,
/// the one-shot cancellation flag as last polled, and the virtual-command
/// switch.
#[derive(Debug)]
pub struct ExecutionContext {
    pub cwd: String,
    pub env: Vec<(String, String)>,
    pub stdin: Option<String>,
    pub cancelled: bool,
    pub virtual_enabled: bool,
}

/// The mathematical image of an execution context.
pub struct CtxView {
    pub cwd: Seq<char>,
    pub env: Seq<(Seq<char>, Seq<char>)>,
    pub stdin: Option<Seq<char>>,
    pub cancelled: bool,
    pub virtual_enabled: bool,
}

impl View for ExecutionContext {
    type V = CtxView;

    open spec fn view(&self) -> CtxView {
        CtxView {
            cwd: self.cwd@,
            env: env_view(self.env@),
            stdin: match self.stdin {
                Some(s) => Some(s@),
                None => None,
            },
            cancelled: self.cancelled,
            virtual_enabled: self.virtual_enabled,
        }
    }
}

/// One stage the engine cannot run in-process: the command text to hand to a
/// shell or filesystem helper, with the input and context it must run under.
#[derive(Debug)]
pub struct StageRequest {
    pub command: String,
    pub stdin: Option<String>,
    pub cwd: String,
    pub env: Vec<(String, String)>,
}

/// The mathematical image of a stage request.
pub struct ReqView {
    pub command: Seq<char>,
    pub stdin: Option<Seq<char>>,
    pub cwd: Seq<char>,
    pub env: Seq<(Seq<char>, Seq<char>)>,
}

impl View for StageRequest {
    type V = ReqView;

    open spec fn view(&self) -> ReqView {
        ReqView {
            command: self.command@,
            stdin: match self.stdin {
                Some(s) => Some(s@),
                None => None,
            },
            cwd: self.cwd@,
            env: env_view(self.env@),
        }
    }
}

/// What came back from one outside stage: its result, and the directory it
/// left the context in if it changed it.
#[derive(Debug)]
pub struct StageResponse {
    pub result: CommandResult,
    pub new_cwd: Option<String>,
}

/// The mathematical image of a stage response.
pub struct RespView {
    pub result: ResultView,
    pub new_cwd: Option<Seq<char>>,
}

impl View for StageResponse {
    type V = RespView;

    open spec fn view(&self) -> RespView {
        RespView {
            result: self.result@,
            new_cwd: match self.new_cwd {
                Some(s) => Some(s@),
                None => None,
            },
        }
    }
}

/// The views of a response list.
pub open spec fn resp_views(oracle: Seq<StageResponse>) -> Seq<RespView> {
    oracle.map_values(|r: StageResponse| r@)
}

/// How one evaluation ended: with a result, or stopped at a stage that needs
/// outside work.
#[derive(Debug)]
pub enum EvalOutcome {
    Done(CommandResult),
    Need(StageRequest),
}

/// The mathematical image of an evaluation outcome.
pub enum OutcomeView {
    Done(ResultView),
    Need(ReqView),
}

impl View for EvalOutcome {
    type V = OutcomeView;

    open spec fn view(&self) -> OutcomeView {
        match self {
            EvalOutcome::Done(r) => OutcomeView::Done(r@),
            EvalOutcome::Need(q) => OutcomeView::Need(q@),
        }
    }
}

/// An empty result with the given code.
pub open spec fn code_result(code: int) -> ResultView {
    ResultView { stdout: Seq::empty(), stderr: Seq::empty(), code }
}

/// The exit code that cancellation forces.
pub open spec fn cancel_code() -> int {
    130
}

/// An argument word as it stands in a rebuilt command line, its quotes put
/// back.
pub open spec fn render_word(a: ArgView) -> Seq<char> {
    if a.quoted && a.quote_char is Some {
        seq![a.quote_char->0] + a.value + seq![a.quote_char->0]
    } else {
        a.value
    }
}

/// The rendered arguments from position `i` on, each after a space.
pub open spec fn render_args(args: Seq<ArgView>, i: int) -> Seq<char>
    decreases args.len() - i,
    when 0 <= i
{
    if i >= args.len() {
        Seq::empty()
    } else {
        " "@ + render_word(args[i]) + render_args(args, i + 1)
    }
}

/// The text of a redirection operator.
pub open spec fn redirect_text(t: TokenView) -> Seq<char> {
    match t {
        TokenView::RedirectOut => ">"@,
        TokenView::RedirectAppend => ">>"@,
        TokenView::RedirectIn => "<"@,
        _ => Seq::empty(),
    }
}

/// The rendered redirections from position `i` on.
pub open spec fn render_redirects(rs: Seq<RedirectView>, i: int) -> Seq<char>
    decreases rs.len() - i,
    when 0 <= i
{
    if i >= rs.len() {
        Seq::empty()
    } else {
        " "@ + redirect_text(rs[i].redirect_type) + " "@ + rs[i].target + render_redirects(
            rs,
            i + 1,
        )
    }
}

/// The command line a simple command is handed to an outside shell as.
pub open spec fn render_simple(
    cmd: Seq<char>,
    args: Seq<ArgView>,
    redirects: Seq<RedirectView>,
) -> Seq<char> {
    cmd + render_args(args, 0) + render_redirects(redirects, 0)
}

/// The simple commands the engine itself computes: those whose outcome
/// depends only on their arguments and context, never on a process or the
/// filesystem.
pub open spec fn is_pure_virtual(name: Seq<char>, args: Seq<Seq<char>>) -> bool {
    ||| name == "echo"@
    ||| name == "true"@
    ||| name == "false"@
    ||| name == "exit"@
    ||| name == "basename"@
    ||| name == "dirname"@
    ||| name == "yes"@
    ||| name == "pwd"@
    ||| (name == "cat"@ && args.len() == 0)
    ||| (name == "test"@ && spec_test_eval(args) is Decided)
}

/// What an in-process virtual command returns, given that cancellation was
/// not signalled.
pub open spec fn run_pure(name: Seq<char>, args: Seq<Seq<char>>, ctx: CtxView) -> ResultView {
    if name == "echo"@ {
        ResultView { stdout: spec_echo_output(args), stderr: Seq::empty(), code: 0 }
    } else if name == "true"@ {
        code_result(0)
    } else if name == "false"@ {
        code_result(1)
    } else if name == "exit"@ {
        code_result(spec_exit_code(args))
    } else if name == "basename"@ {
        if args.len() == 0 {
            ResultView {
                stdout: Seq::empty(),
                stderr: "basename"@ + ": missing operand"@,
                code: 1,
            }
        } else {
            let base = spec_file_name(args[0]);
            let trimmed = if args.len() >= 2 && args[1].len() <= base.len() && base.skip(
                base.len() - args[1].len(),
            ) == args[1] {
                base.take(base.len() - args[1].len())
            } else {
                base
            };
            ResultView { stdout: trimmed + "\n"@, stderr: Seq::empty(), code: 0 }
        }
    } else if name == "dirname"@ {
        if args.len() == 0 {
            ResultView {
                stdout: Seq::empty(),
                stderr: "dirname"@ + ": missing operand"@,
                code: 1,
            }
        } else {
            ResultView {
                stdout: spec_dirname_path(args[0]) + "\n"@,
                stderr: Seq::empty(),
                code: 0,
            }
        }
    } else if name == "yes"@ {
        ResultView {
            stdout: repeat_n(spec_yes_line(args), yes_burst() as nat),
            stderr: Seq::empty(),
            code: 0,
        }
    } else if name == "pwd"@ {
        ResultView { stdout: ctx.cwd + "\n"@, stderr: Seq::empty(), code: 0 }
    } else if name == "cat"@ {
        ResultView {
            stdout: match ctx.stdin {
                Some(s) => s,
                None => Seq::empty(),
            },
            stderr: Seq::empty(),
            code: 0,
        }
    } else {
        code_result(
            if spec_test_eval(args)->Decided_0 {
                0
            } else {
                1
            },
        )
    }
}

/// The values of a list of arguments, quotes stripped.
pub open spec fn arg_values(args: Seq<ArgView>) -> Seq<Seq<char>> {
    args.map_values(|a: ArgView| a.value)
}

/// The context after an outside stage answered: its directory change, if
/// any, is taken over.
pub open spec fn apply_response_ctx(ctx: CtxView, resp: RespView) -> CtxView {
    match resp.new_cwd {
        Some(d) => CtxView { cwd: d, ..ctx },
        None => ctx,
    }
}

/// Whether the operator before a sequence stage lets it run, given the
/// previous exit code: `&&` on success, `||` on failure, `;` always. A stage
/// with no recorded operator runs unconditionally.
pub open spec fn seq_op_runs(op: TokenView, code: int) -> bool {
    match op {
        TokenView::And => code == 0,
        TokenView::Or => code != 0,
        _ => true,
    }
}

/// The operator before stage `i` of a sequence.
pub open spec fn op_before(ops: Seq<TokenView>, i: int) -> TokenView {
    if 1 <= i && i - 1 < ops.len() {
        ops[i - 1]
    } else {
        TokenView::Semicolon
    }
}

/// What evaluating a command tree yields: the outcome, the context it leaves
/// behind, and how many responses it consumed.
pub open spec fn spec_eval(c: CommandView, ctx: CtxView, oracle: Seq<RespView>, used: int) -> (
    OutcomeView,
    CtxView,
    int,
)
    decreases c, 0int, 0int,
{
    if ctx.cancelled {
        (OutcomeView::Done(code_result(cancel_code())), ctx, used)
    } else {
        match c {
            CommandView::Simple { cmd, args, redirects } => {
                let vals = arg_values(args);
                if ctx.virtual_enabled && is_pure_virtual(cmd, vals) {
                    (OutcomeView::Done(run_pure(cmd, vals, ctx)), ctx, used)
                } else {
                    if 0 <= used < oracle.len() {
                        let resp = oracle[used];
                        (
                            OutcomeView::Done(resp.result),
                            apply_response_ctx(ctx, resp),
                            used + 1,
                        )
                    } else {
                        (
                            OutcomeView::Need(
                                ReqView {
                                    command: render_simple(cmd, args, redirects),
                                    stdin: ctx.stdin,
                                    cwd: ctx.cwd,
                                    env: ctx.env,
                                },
                            ),
                            ctx,
                            used,
                        )
                    }
                }
            },
            CommandView::Sequence { commands, operators } => spec_eval_seq(
                commands,
                operators,
                0,
                code_result(0),
                ctx,
                oracle,
                used,
            ),
            CommandView::Pipeline { commands } => spec_eval_pipe(
                commands,
                0,
                code_result(0),
                Seq::empty(),
                ctx,
                oracle,
                used,
            ),
            CommandView::Subshell { command } => {
                let r = spec_eval(*command, ctx, oracle, used);
                (r.0, ctx, r.2)
            },
        }
    }
}

/// The sequence rule from stage `i` on: each stage runs only if the operator
/// before it admits the last executed stage's exit code, every stage starts
/// from the invocation's own input, and the result is the last stage that
/// actually ran.
pub open spec fn spec_eval_seq(
    cmds: Seq<CommandView>,
    ops: Seq<TokenView>,
    i: int,
    last: ResultView,
    ctx: CtxView,
    oracle: Seq<RespView>,
    used: int,
) -> (OutcomeView, CtxView, int)
    decreases cmds, 1int, cmds.len() - i,
    when 0 <= i
{
    if i >= cmds.len() {
        (OutcomeView::Done(last), ctx, used)
    } else if i == 0 || seq_op_runs(op_before(ops, i), last.code) {
        let r = spec_eval(cmds[i], ctx, oracle, used);
        match r.0 {
            OutcomeView::Done(res) => spec_eval_seq(cmds, ops, i + 1, res, r.1, oracle, r.2),
            OutcomeView::Need(q) => (OutcomeView::Need(q), r.1, r.2),
        }
    } else {
        spec_eval_seq(cmds, ops, i + 1, last, ctx, oracle, used)
    }
}

/// The pipeline rule from stage `i` on: each later stage reads the previous
/// stage's output, error output accumulates across stages, and the first
/// stage to fail ends the pipeline with its own output and code.
pub open spec fn spec_eval_pipe(
    cmds: Seq<CommandView>,
    i: int,
    last: ResultView,
    errs: Seq<char>,
    ctx: CtxView,
    oracle: Seq<RespView>,
    used: int,
) -> (OutcomeView, CtxView, int)
    decreases cmds, 1int, cmds.len() - i,
    when 0 <= i
{
    if i >= cmds.len() {
        (
            OutcomeView::Done(
                ResultView { stdout: last.stdout, stderr: errs, code: last.code },
            ),
            ctx,
            used,
        )
    } else {
        let stage_ctx = if i == 0 {
            ctx
        } else {
            CtxView { stdin: Some(last.stdout), ..ctx }
        };
        let r = spec_eval(cmds[i], stage_ctx, oracle, used);
        let ctx2 = CtxView { stdin: ctx.stdin, ..r.1 };
        match r.0 {
            OutcomeView::Done(res) => {
                if res.code != 0 {
                    (
                        OutcomeView::Done(
                            ResultView {
                                stdout: res.stdout,
                                stderr: errs + res.stderr,
                                code: res.code,
                            },
                        ),
                        ctx2,
                        r.2,
                    )
                } else {
                    spec_eval_pipe(cmds, i + 1, res, errs + res.stderr, ctx2, oracle, r.2)
                }
            },
            OutcomeView::Need(q) => (OutcomeView::Need(q), ctx2, r.2),
        }
    }
}

fn copy_opt_string(s: &Option<String>) -> (r: Option<String>)
    ensures
        (match (s, &r) {
            (Some(a), Some(b)) => a@ == b@,
            (None, None) => true,
            _ => false,
        }),
{
    match s {
        Some(x) => Some(x.clone()),
        None => None,
    }
}

#[verifier::loop_isolation(false)]
fn copy_env(env: &Vec<(String, String)>) -> (r: Vec<(String, String)>)
    ensures
        env_view(r@) == env_view(env@),
{
    let mut out: Vec<(String, String)> = Vec::new();
    let mut i: usize = 0;
    while i < env.len()
        invariant
            0 <= i <= env@.len(),
            out@.len() == i,
            forall|k: int| 0 <= k < i ==> (#[trigger] out@[k]).0@ == env@[k].0@ && out@[k].1@
                == env@[k].1@,
        decreases env@.len() - i,
    {
        out.push((env[i].0.clone(), env[i].1.clone()));
        i += 1;
    }
    proof {
        assert forall|k: int| 0 <= k < env@.len() implies env_view(out@)[k] == env_view(env@)[k]
            by {
            assert(out@[k].0@ == env@[k].0@);
        }
        assert(env_view(out@) =~= env_view(env@));
    }
    out
}

fn copy_result(r: &CommandResult) -> (c: CommandResult)
    ensures
        c@ == r@,
{
    CommandResult { stdout: r.stdout.clone(), stderr: r.stderr.clone(), code: r.code }
}

fn copy_ctx(ctx: &ExecutionContext) -> (c: ExecutionContext)
    ensures
        c@ == ctx@,
{
    let c = ExecutionContext {
        cwd: ctx.cwd.clone(),
        env: copy_env(&ctx.env),
        stdin: copy_opt_string(&ctx.stdin),
        cancelled: ctx.cancelled,
        virtual_enabled: ctx.virtual_enabled,
    };
    proof {
        assert(c@ =~~= ctx@);
    }
    c
}

/// Rebuilds the command line of a simple command for an outside shell.
#[verifier::loop_isolation(false)]
fn render_simple_exec(cmd: &String, args: &Vec<ParsedArg>, redirects: &Vec<Redirect>) -> (r:
    String)
    ensures
        r@ == render_simple(
            cmd@,
            args@.map_values(|a: ParsedArg| a@),
            redirects@.map_values(|d: Redirect| d@),
        ),
{
    let ghost av = args@.map_values(|a: ParsedArg| a@);
    let ghost rv = redirects@.map_values(|d: Redirect| d@);
    let mut out = cmd.clone();
    let mut i: usize = 0;
    while i < args.len()
        invariant
            0 <= i <= args@.len(),
            out@ + render_args(av, i as int) == cmd@ + render_args(av, 0),
        decreases args@.len() - i,
    {
        proof {
            assert(render_args(av, i as int) == " "@ + render_word(av[i as int]) + render_args(
                av,
                i as int + 1,
            ));
        }
        out.append(" ");
        let a = &args[i];
        match a.quote_char {
            Some(q) => if a.quoted {
                let mut w: Vec<char> = Vec::new();
                w.push(q);
                let vchars = crate::text::str_to_chars(a.value.as_str());
                let mut k: usize = 0;
                while k < vchars.len()
                    invariant
                        0 <= k <= vchars@.len(),
                        vchars@ == a.value@,
                        w@ == seq![q] + a.value@.subrange(0, k as int),
                    decreases vchars@.len() - k,
                {
                    proof {
                        assert(a.value@.subrange(0, k as int + 1) =~= a.value@.subrange(
                            0,
                            k as int,
                        ) + seq![a.value@[k as int]]);
                    }
                    w.push(vchars[k]);
                    k += 1;
                }
                w.push(q);
                proof {
                    assert(a.value@.subrange(0, a.value@.len() as int) =~= a.value@);
                    assert(w@ =~= render_word(av[i as int]));
                }
                out.append(crate::text::chars_to_string(&w).as_str());
            } else {
                out.append(a.value.as_str());
                proof {
                    assert(render_word(av[i as int]) == a.value@);
                }
            },
            None => {
                out.append(a.value.as_str());
                proof {
                    assert(render_word(av[i as int]) == a.value@);
                }
            },
        }
        proof {
            assert(out@ + render_args(av, i as int + 1) =~= cmd@ + render_args(av, 0));
        }
        i += 1;
    }
    proof {
        assert(render_args(av, args@.len() as int) =~= Seq::<char>::empty());
        assert(out@ =~= cmd@ + render_args(av, 0));
    }
    let mut j: usize = 0;
    while j < redirects.len()
        invariant
            0 <= j <= redirects@.len(),
            out@ + render_redirects(rv, j as int) == cmd@ + render_args(av, 0)
                + render_redirects(rv, 0),
        decreases redirects@.len() - j,
    {
        proof {
            assert(render_redirects(rv, j as int) == " "@ + redirect_text(
                rv[j as int].redirect_type,
            ) + " "@ + rv[j as int].target + render_redirects(rv, j as int + 1));
        }
        out.append(" ");
        let d = &redirects[j];
        match &d.redirect_type {
            TokenType::RedirectOut => {
                out.append(">");
                proof {
                    assert(redirect_text(rv[j as int].redirect_type) == ">"@);
                }
            },
            TokenType::RedirectAppend => {
                out.append(">>");
                proof {
                    assert(redirect_text(rv[j as int].redirect_type) == ">>"@);
                }
            },
            TokenType::RedirectIn => {
                out.append("<");
                proof {
                    assert(redirect_text(rv[j as int].redirect_type) == "<"@);
                }
            },
            _ => {
                proof {
                    assert(redirect_text(rv[j as int].redirect_type) =~= Seq::<char>::empty());
                }
            },
        }
        out.append(" ");
        out.append(d.target.as_str());
        proof {
            assert(out@ + render_redirects(rv, j as int + 1) =~= cmd@ + render_args(av, 0)
                + render_redirects(rv, 0));
        }
        j += 1;
    }
    proof {
        assert(render_redirects(rv, redirects@.len() as int) =~= Seq::<char>::empty());
        assert(out@ =~= cmd@ + render_args(av, 0) + render_redirects(rv, 0));
    }
    out
}

/// Runs one in-process virtual command; `name` must be one the engine
/// computes itself and cancellation must not have been signalled.
fn dispatch_pure(name: &String, vals: Vec<String>, ctx: &ExecutionContext) -> (r: CommandResult)
    requires
        is_pure_virtual(name@, args_view(vals@)),
        !ctx@.cancelled,
    ensures
        r@ == run_pure(name@, args_view(vals@), ctx@),
{
    proof {
        reveal_strlit("echo");
        reveal_strlit("true");
        reveal_strlit("false");
        reveal_strlit("exit");
        reveal_strlit("basename");
        reveal_strlit("dirname");
        reveal_strlit("yes");
        reveal_strlit("pwd");
        reveal_strlit("cat");
        reveal_strlit("test");
    }
    let cctx = CommandContext {
        args: vals,
        stdin: copy_opt_string(&ctx.stdin),
        cwd: Some(ctx.cwd.clone()),
        env: None,
        cancelled: false,
    };
    if str_eq(name.as_str(), "echo") {
        echo(cctx)
    } else if str_eq(name.as_str(), "true") {
        true_cmd(cctx)
    } else if str_eq(name.as_str(), "false") {
        false_cmd(cctx)
    } else if str_eq(name.as_str(), "exit") {
        exit(cctx)
    } else if str_eq(name.as_str(), "basename") {
        let r = basename(cctx);
        proof {
            if vals@.len() > 0 {
                assert(args_view(vals@)[0] == vals@[0]@);
            }
            if vals@.len() >= 2 {
                assert(args_view(vals@)[1] == vals@[1]@);
            }
            assert(r@ == run_pure(name@, args_view(vals@), ctx@));
        }
        r
    } else if str_eq(name.as_str(), "dirname") {
        let r = dirname(cctx);
        proof {
            if vals@.len() > 0 {
                assert(args_view(vals@)[0] == vals@[0]@);
            }
            if vals@.len() >= 2 {
                assert(args_view(vals@)[1] == vals@[1]@);
            }
            assert(r@ == run_pure(name@, args_view(vals@), ctx@));
        }
        r
    } else if str_eq(name.as_str(), "yes") {
        yes(cctx)
    } else if str_eq(name.as_str(), "pwd") {
        pwd(cctx)
    } else if str_eq(name.as_str(), "cat") {
        proof {
            broadcast use vstd::string::group_string_axioms;

            assert("cat"@.len() == 3);
            assert("test"@.len() == 4);
            assert(name@ != "test"@);
            assert(cctx.args@.len() == 0);
        }
        let r = cat(cctx);
        proof {
            match ctx@.stdin {
                Some(s) => {
                    if s.len() == 0 {
                        assert(s =~= Seq::<char>::empty());
                    }
                },
                None => {
                },
            }
            assert(r@ == run_pure(name@, args_view(vals@), ctx@));
        }
        r
    } else {
        crate::commands::test(cctx)
    }
}

/// The views of a command vector.
pub open spec fn cmds_view(commands: Seq<ParsedCommand>) -> Seq<CommandView> {
    commands.map_values(|c: ParsedCommand| cmd_view(c))
}

/// The views of an operator vector.
pub open spec fn ops_view(operators: Seq<TokenType>) -> Seq<TokenView> {
    operators.map_values(|t: TokenType| t@)
}

/// Evaluates a command tree against a context: in-process virtual commands
/// are computed here; any other stage consumes the next entry of the
/// response list, or stops evaluation with the request for it.
pub fn evaluate(
    cmd: &ParsedCommand,
    ctx: ExecutionContext,
    oracle: &Vec<StageResponse>,
    used: usize,
) -> (r: (EvalOutcome, ExecutionContext, usize))
    requires
        used <= oracle@.len(),
    ensures
        ({
            let s = spec_eval(cmd_view(*cmd), ctx@, resp_views(oracle@), used as int);
            r.0@ == s.0 && r.1@ == s.1 && r.2 as int == s.2
        }),
        used <= r.2 <= oracle@.len(),
    decreases *cmd, 0int, 0int,
{
    if ctx.cancelled {
        let res = CommandResult::error_with_code("", 130);
        proof {
            reveal_strlit("");
            let s = spec_eval(cmd_view(*cmd), ctx@, resp_views(oracle@), used as int);
            assert(s.0 == OutcomeView::Done(code_result(cancel_code())));
            assert(res@.stdout =~= Seq::<char>::empty());
            assert(res@.stderr =~= Seq::<char>::empty());
            assert(res@ == code_result(cancel_code()));
        }
        return (EvalOutcome::Done(res), ctx, used);
    }
    match cmd {
        ParsedCommand::Simple { cmd: name, args, redirects } => {
            let ghost av = args@.map_values(|a: ParsedArg| a@);
            let mut vals: Vec<String> = Vec::new();
            let mut k: usize = 0;
            while k < args.len()
                invariant
                    0 <= k <= args@.len(),
                    av == args@.map_values(|a: ParsedArg| a@),
                    vals@.len() == k,
                    forall|j: int| 0 <= j < k ==> (#[trigger] vals@[j])@ == args@[j].value@,
                decreases args@.len() - k,
            {
                vals.push(args[k].value.clone());
                k += 1;
            }
            proof {
                assert forall|j: int| 0 <= j < vals@.len() implies args_view(vals@)[j]
                    == arg_values(av)[j] by {
                    assert(vals@[j]@ == args@[j].value@);
                    assert(av[j] == args@[j]@);
                }
                assert(args_view(vals@) =~= arg_values(av));
            }
            let is_pure = ctx.virtual_enabled && (str_eq(name.as_str(), "echo") || str_eq(
                name.as_str(),
                "true",
            ) || str_eq(name.as_str(), "false") || str_eq(name.as_str(), "exit") || str_eq(
                name.as_str(),
                "basename",
            ) || str_eq(name.as_str(), "dirname") || str_eq(name.as_str(), "yes") || str_eq(
                name.as_str(),
                "pwd",
            ) || (str_eq(name.as_str(), "cat") && vals.len() == 0) || (str_eq(name.as_str(), "test")
                && matches!(evaluate_expression(vals.as_slice()), TestEval::Decided(_))));
            proof {
                assert(is_pure == (ctx@.virtual_enabled && is_pure_virtual(
                    name@,
                    arg_values(av),
                )));
            }
            if is_pure {
                let res = dispatch_pure(name, vals, &ctx);
                (EvalOutcome::Done(res), ctx, used)
            } else {
                if used < oracle.len() {
                    let resp = &oracle[used];
                    proof {
                        assert(resp_views(oracle@)[used as int] == oracle@[used as int]@);
                    }
                    let result = copy_result(&resp.result);
                    let ctx2 = match &resp.new_cwd {
                        Some(d) => {
                            let c = ExecutionContext {
                                cwd: d.clone(),
                                env: ctx.env,
                                stdin: ctx.stdin,
                                cancelled: ctx.cancelled,
                                virtual_enabled: ctx.virtual_enabled,
                            };
                            proof {
                                assert(c@ =~~= apply_response_ctx(
                                    ctx@,
                                    resp_views(oracle@)[used as int],
                                ));
                            }
                            c
                        },
                        None => ctx,
                    };
                    (EvalOutcome::Done(result), ctx2, used + 1)
                } else {
                    let req = StageRequest {
                        command: render_simple_exec(name, args, redirects),
                        stdin: copy_opt_string(&ctx.stdin),
                        cwd: ctx.cwd.clone(),
                        env: copy_env(&ctx.env),
                    };
                    proof {
                        assert(req@ =~~= ReqView {
                            command: render_simple(
                                name@,
                                av,
                                redirects@.map_values(|d: Redirect| d@),
                            ),
                            stdin: ctx@.stdin,
                            cwd: ctx@.cwd,
                            env: ctx@.env,
                        });
                    }
                    (EvalOutcome::Need(req), ctx, used)
                }
            }
        },
        ParsedCommand::Sequence { commands, operators } => {
            proof {
                let cv = cmd_view(*cmd);
                match cv {
                    CommandView::Sequence { commands: got, operators: gops } => {
                        assert forall|j: int| 0 <= j < got.len() implies got[j] == cmds_view(
                            commands@,
                        )[j] by {
                            assert(got[j] == cmd_view(commands@[j]));
                            assert(cmds_view(commands@)[j] == cmd_view(commands@[j]));
                        }
                        assert(got =~= cmds_view(commands@));
                        assert(gops =~= ops_view(operators@));
                    },
                    _ => {
                        assert(false);
                    },
                }
            }
            eval_seq_from(commands, operators, 0, CommandResult::success_empty(), ctx, oracle, used)
        },
        ParsedCommand::Pipeline { commands } => {
            proof {
                let cv = cmd_view(*cmd);
                match cv {
                    CommandView::Pipeline { commands: got } => {
                        assert forall|j: int| 0 <= j < got.len() implies got[j] == cmds_view(
                            commands@,
                        )[j] by {
                            assert(got[j] == cmd_view(commands@[j]));
                            assert(cmds_view(commands@)[j] == cmd_view(commands@[j]));
                        }
                        assert(got =~= cmds_view(commands@));
                    },
                    _ => {
                        assert(false);
                    },
                }
            }
            eval_pipe_from(commands, 0, CommandResult::success_empty(), String::new(), ctx, oracle, used)
        },
        ParsedCommand::Subshell { command } => {
            let saved = copy_ctx(&ctx);
            let (o, _inner_ctx, u2) = evaluate(command, ctx, oracle, used);
            (o, saved, u2)
        },
    }
}

/// Evaluates the stages of a sequence from `i` on, skipping those whose
/// operator rejects the last executed exit code.
fn eval_seq_from(
    commands: &Vec<ParsedCommand>,
    operators: &Vec<TokenType>,
    i: usize,
    last: CommandResult,
    ctx: ExecutionContext,
    oracle: &Vec<StageResponse>,
    used: usize,
) -> (r: (EvalOutcome, ExecutionContext, usize))
    requires
        used <= oracle@.len(),
    ensures
        ({
            let s = spec_eval_seq(
                cmds_view(commands@),
                ops_view(operators@),
                i as int,
                last@,
                ctx@,
                resp_views(oracle@),
                used as int,
            );
            r.0@ == s.0 && r.1@ == s.1 && r.2 as int == s.2
        }),
        used <= r.2 <= oracle@.len(),
    decreases commands@, 1int, commands@.len() - i,
{
    let n = commands.len();
    if i >= n {
        return (EvalOutcome::Done(last), ctx, used);
    }
    let mut run = true;
    if i >= 1 && i - 1 < operators.len() {
        proof {
            assert(ops_view(operators@)[i as int - 1] == operators@[i as int - 1]@);
        }
        match &operators[i - 1] {
            TokenType::And => {
                run = last.code == 0;
            },
            TokenType::Or => {
                run = last.code != 0;
            },
            _ => {
            },
        }
    }
    proof {
        assert(run == (i == 0 || seq_op_runs(
            op_before(ops_view(operators@), i as int),
            last@.code,
        )));
    }
    if run {
        proof {
            assert(cmds_view(commands@)[i as int] == cmd_view(commands@[i as int]));
        }
        let (o, ctx2, u2) = evaluate(&commands[i], ctx, oracle, used);
        match o {
            EvalOutcome::Done(res) => eval_seq_from(commands, operators, i + 1, res, ctx2, oracle, u2),
            EvalOutcome::Need(q) => (EvalOutcome::Need(q), ctx2, u2),
        }
    } else {
        eval_seq_from(commands, operators, i + 1, last, ctx, oracle, used)
    }
}

/// Evaluates the stages of a pipeline from `i` on: each later stage reads
/// the previous stage's output, and the first failure ends the pipeline.
fn eval_pipe_from(
    commands: &Vec<ParsedCommand>,
    i: usize,
    last: CommandResult,
    errs: String,
    ctx: ExecutionContext,
    oracle: &Vec<StageResponse>,
    used: usize,
) -> (r: (EvalOutcome, ExecutionContext, usize))
    requires
        used <= oracle@.len(),
    ensures
        ({
            let s = spec_eval_pipe(
                cmds_view(commands@),
                i as int,
                last@,
                errs@,
                ctx@,
                resp_views(oracle@),
                used as int,
            );
            r.0@ == s.0 && r.1@ == s.1 && r.2 as int == s.2
        }),
        used <= r.2 <= oracle@.len(),
    decreases commands@, 1int, commands@.len() - i,
{
    let n = commands.len();
    if i >= n {
        let result = CommandResult { stdout: last.stdout, stderr: errs, code: last.code };
        return (EvalOutcome::Done(result), ctx, used);
    }
    let orig_stdin = copy_opt_string(&ctx.stdin);
    let stage_ctx: ExecutionContext;
    if i == 0 {
        stage_ctx = ctx;
    } else {
        stage_ctx = ExecutionContext {
            cwd: ctx.cwd,
            env: ctx.env,
            stdin: Some(last.stdout.clone()),
            cancelled: ctx.cancelled,
            virtual_enabled: ctx.virtual_enabled,
        };
        proof {
            assert(stage_ctx@ =~~= CtxView { stdin: Some(last@.stdout), ..old_ctx_view(ctx@) });
        }
    }
    proof {
        assert(cmds_view(commands@)[i as int] == cmd_view(commands@[i as int]));
    }
    let (o, ctx1, u2) = evaluate(&commands[i], stage_ctx, oracle, used);
    let ctx2 = ExecutionContext {
        cwd: ctx1.cwd,
        env: ctx1.env,
        stdin: orig_stdin,
        cancelled: ctx1.cancelled,
        virtual_enabled: ctx1.virtual_enabled,
    };
    match o {
        EvalOutcome::Done(res) => {
            let mut new_errs = errs;
            new_errs.append(res.stderr.as_str());
            if res.code != 0 {
                let result = CommandResult {
                    stdout: res.stdout,
                    stderr: new_errs,
                    code: res.code,
                };
                (EvalOutcome::Done(result), ctx2, u2)
            } else {
                eval_pipe_from(commands, i + 1, res, new_errs, ctx2, oracle, u2)
            }
        },
        EvalOutcome::Need(q) => (EvalOutcome::Need(q), ctx2, u2),
    }
}

/// The identity on context views, written as a helper for struct updates.
pub open spec fn old_ctx_view(c: CtxView) -> CtxView {
    c
}

/// What running one stage given as raw text yields: the first
/// white-space-separated word picks a virtual command when dispatch is on;
/// anything else goes outside with the text handed over verbatim.
pub open spec fn spec_run_stage(s: Seq<char>, ctx: CtxView, oracle: Seq<RespView>, used: int) -> (
    OutcomeView,
    CtxView,
    int,
) {
    if ctx.cancelled {
        (OutcomeView::Done(code_result(cancel_code())), ctx, used)
    } else {
        let ws = spec_split_ws(s);
        let name = if ws.len() > 0 {
            ws[0]
        } else {
            Seq::<char>::empty()
        };
        let args = if ws.len() > 0 {
            ws.drop_first()
        } else {
            Seq::<Seq<char>>::empty()
        };
        if ctx.virtual_enabled && is_pure_virtual(name, args) {
            (OutcomeView::Done(run_pure(name, args, ctx)), ctx, used)
        } else if 0 <= used < oracle.len() {
            (
                OutcomeView::Done(oracle[used].result),
                apply_response_ctx(ctx, oracle[used]),
                used + 1,
            )
        } else {
            (
                OutcomeView::Need(
                    ReqView { command: s, stdin: ctx.stdin, cwd: ctx.cwd, env: ctx.env },
                ),
                ctx,
                used,
            )
        }
    }
}

/// Runs one stage given as raw command text: a virtual command computed
/// here, or the next outside response, or the request for one.
pub fn run_stage(
    command: &str,
    ctx: ExecutionContext,
    oracle: &Vec<StageResponse>,
    used: usize,
) -> (r: (EvalOutcome, ExecutionContext, usize))
    requires
        used <= oracle@.len(),
    ensures
        ({
            let s = spec_run_stage(command@, ctx@, resp_views(oracle@), used as int);
            r.0@ == s.0 && r.1@ == s.1 && r.2 as int == s.2
        }),
        used <= r.2 <= oracle@.len(),
{
    if ctx.cancelled {
        let res = CommandResult::error_with_code("", 130);
        proof {
            reveal_strlit("");
            assert(res@.stdout =~= Seq::<char>::empty());
            assert(res@.stderr =~= Seq::<char>::empty());
            assert(res@ == code_result(cancel_code()));
        }
        return (EvalOutcome::Done(res), ctx, used);
    }
    let mut words = split_whitespace_words(command);
    let ghost ws = spec_split_ws(command@);
    if words.len() > 0 {
        let name = words.remove(0);
        proof {
            assert(name@ == ws[0]);
            assert(words@.map_values(|w: String| w@) =~= ws.drop_first());
            assert(args_view(words@) == ws.drop_first());
        }
        let is_pure = ctx.virtual_enabled && (str_eq(name.as_str(), "echo") || str_eq(
            name.as_str(),
            "true",
        ) || str_eq(name.as_str(), "false") || str_eq(name.as_str(), "exit") || str_eq(
            name.as_str(),
            "basename",
        ) || str_eq(name.as_str(), "dirname") || str_eq(name.as_str(), "yes") || str_eq(
            name.as_str(),
            "pwd",
        ) || (str_eq(name.as_str(), "cat") && words.len() == 0) || (str_eq(name.as_str(), "test")
            && matches!(evaluate_expression(words.as_slice()), TestEval::Decided(_))));
        if is_pure {
            let res = dispatch_pure(&name, words, &ctx);
            return (EvalOutcome::Done(res), ctx, used);
        }
    } else {
        proof {
            let name = Seq::<char>::empty();
            let args = Seq::<Seq<char>>::empty();
            reveal_strlit("echo");
            reveal_strlit("true");
            reveal_strlit("false");
            reveal_strlit("exit");
            reveal_strlit("basename");
            reveal_strlit("dirname");
            reveal_strlit("yes");
            reveal_strlit("pwd");
            reveal_strlit("cat");
            reveal_strlit("test");
            assert(!is_pure_virtual(name, args));
        }
    }
    if used < oracle.len() {
        let resp = &oracle[used];
        proof {
            assert(resp_views(oracle@)[used as int] == oracle@[used as int]@);
        }
        let result = copy_result(&resp.result);
        let ctx2 = match &resp.new_cwd {
            Some(d) => {
                let c = ExecutionContext {
                    cwd: d.clone(),
                    env: ctx.env,
                    stdin: ctx.stdin,
                    cancelled: ctx.cancelled,
                    virtual_enabled: ctx.virtual_enabled,
                };
                proof {
                    assert(c@ =~~= apply_response_ctx(ctx@, resp_views(oracle@)[used as int]));
                }
                c
            },
            None => ctx,
        };
        (EvalOutcome::Done(result), ctx2, used + 1)
    } else {
        let req = StageRequest {
            command: command.to_owned(),
            stdin: copy_opt_string(&ctx.stdin),
            cwd: ctx.cwd.clone(),
            env: copy_env(&ctx.env),
        };
        proof {
            assert(req@ =~~= ReqView {
                command: command@,
                stdin: ctx@.stdin,
                cwd: ctx@.cwd,
                env: ctx@.env,
            });
        }
        (EvalOutcome::Need(req), ctx, used)
    }
}

/// What evaluating one whole command text yields: a text with syntax beyond
/// this engine goes to a real shell verbatim; empty input succeeds with no
/// output; anything else is parsed and evaluated.
pub open spec fn spec_run_command(s: Seq<char>, ctx: CtxView, oracle: Seq<RespView>) -> (
    OutcomeView,
    CtxView,
    int,
) {
    if spec_needs_real_shell(s) {
        if oracle.len() > 0 {
            (OutcomeView::Done(oracle[0].result), apply_response_ctx(ctx, oracle[0]), 1)
        } else {
            (
                OutcomeView::Need(
                    ReqView { command: s, stdin: ctx.stdin, cwd: ctx.cwd, env: ctx.env },
                ),
                ctx,
                0,
            )
        }
    } else {
        match spec_parse(s) {
            Some(c) => spec_eval(c, ctx, oracle, 0),
            None => (OutcomeView::Done(code_result(0)), ctx, 0),
        }
    }
}

/// Evaluates one whole command text: the classifier first, then the parser,
/// then the engine.
pub fn run_command(command: &str, ctx: ExecutionContext, oracle: &Vec<StageResponse>) -> (r: (
    EvalOutcome,
    ExecutionContext,
    usize,
))
    ensures
        ({
            let s = spec_run_command(command@, ctx@, resp_views(oracle@));
            r.0@ == s.0 && r.1@ == s.1 && r.2 as int == s.2
        }),
        r.2 <= oracle@.len(),
{
    if needs_real_shell(command) {
        if oracle.len() > 0 {
            let resp = &oracle[0];
            proof {
                assert(resp_views(oracle@)[0] == oracle@[0]@);
            }
            let result = copy_result(&resp.result);
            let ctx2 = match &resp.new_cwd {
                Some(d) => {
                    let c = ExecutionContext {
                        cwd: d.clone(),
                        env: ctx.env,
                        stdin: ctx.stdin,
                        cancelled: ctx.cancelled,
                        virtual_enabled: ctx.virtual_enabled,
                    };
                    proof {
                        assert(c@ =~~= apply_response_ctx(ctx@, resp_views(oracle@)[0]));
                    }
                    c
                },
                None => ctx,
            };
            return (EvalOutcome::Done(result), ctx2, 1);
        }
        let req = StageRequest {
            command: command.to_owned(),
            stdin: copy_opt_string(&ctx.stdin),
            cwd: ctx.cwd.clone(),
            env: copy_env(&ctx.env),
        };
        proof {
            assert(req@ =~~= ReqView {
                command: command@,
                stdin: ctx@.stdin,
                cwd: ctx@.cwd,
                env: ctx@.env,
            });
        }
        return (EvalOutcome::Need(req), ctx, 0);
    }
    match parse_shell_command(command) {
        Some(c) => evaluate(&c, ctx, oracle, 0),
        None => {
            let res = CommandResult::success_empty();
            proof {
                assert(res@ == code_result(0));
            }
            (EvalOutcome::Done(res), ctx, 0)
        },
    }
}

/// Law: a subshell leaves its parent's context exactly as it was, whatever
/// its inner command changed.
pub proof fn lemma_subshell_isolated(
    inner: CommandView,
    ctx: CtxView,
    oracle: Seq<RespView>,
    used: int,
)
    ensures
        spec_eval(
            CommandView::Subshell { command: Box::new(inner) },
            ctx,
            oracle,
            used,
        ).1 == ctx,
{
}

/// What a pipeline continuation reads after an already-finished first
/// stage: its output when it succeeded, nothing when it failed — the failing
/// result is final.
pub fn pipe_seed(first: &CommandResult) -> (r: Option<String>)
    ensures
        (match r {
            Some(s) => first.code == 0 && s@ == first.stdout@,
            None => first.code != 0,
        }),
{
    if first.code == 0 {
        Some(first.stdout.clone())
    } else {
        None
    }
}

/// The result with earlier error output put before its own.
pub fn prepend_stderr(prefix: &str, result: CommandResult) -> (r: CommandResult)
    ensures
        r.stdout@ == result.stdout@,
        r.code == result.code,
        r.stderr@ == prefix@ + result.stderr@,
{
    let mut merged = prefix.to_owned();
    merged.append(result.stderr.as_str());
    CommandResult { stdout: result.stdout, stderr: merged, code: result.code }
}

/// Law: once cancellation is signalled, evaluation of any command tree stops
/// at once with the cancellation exit code, consuming nothing further.
pub proof fn lemma_cancellation_halts(
    c: CommandView,
    ctx: CtxView,
    oracle: Seq<RespView>,
    used: int,
)
    requires
        ctx.cancelled,
    ensures
        spec_eval(c, ctx, oracle, used) == (
            OutcomeView::Done(code_result(cancel_code())),
            ctx,
            used,
        ),
{
}

/// Law: with virtual dispatch off, a simple command never runs in-process:
/// it takes the next outside response, or asks for one.
pub proof fn lemma_disabled_dispatch_goes_outside(
    cmd: Seq<char>,
    args: Seq<ArgView>,
    redirects: Seq<RedirectView>,
    ctx: CtxView,
    oracle: Seq<RespView>,
    used: int,
)
    requires
        !ctx.virtual_enabled,
        !ctx.cancelled,
        0 <= used,
    ensures
        used < oracle.len() ==> spec_eval(
            CommandView::Simple { cmd, args, redirects },
            ctx,
            oracle,
            used,
        ).0 == OutcomeView::Done(oracle[used].result),
        used >= oracle.len() ==> spec_eval(
            CommandView::Simple { cmd, args, redirects },
            ctx,
            oracle,
            used,
        ).0 is Need,
{
}

/// Law: once a pipeline stage fails, the pipeline's result is that stage's
/// own output and exit code with the error output gathered so far, and no
/// later stage is consulted.
pub proof fn lemma_pipeline_short_circuit(
    cmds: Seq<CommandView>,
    i: int,
    last: ResultView,
    errs: Seq<char>,
    ctx: CtxView,
    oracle: Seq<RespView>,
    used: int,
)
    requires
        0 <= i < cmds.len(),
        !ctx.cancelled,
        ({
            let stage_ctx = if i == 0 {
                ctx
            } else {
                CtxView { stdin: Some(last.stdout), ..ctx }
            };
            spec_eval(cmds[i], stage_ctx, oracle, used).0 matches OutcomeView::Done(res)
                && res.code != 0
        }),
    ensures
        ({
            let stage_ctx = if i == 0 {
                ctx
            } else {
                CtxView { stdin: Some(last.stdout), ..ctx }
            };
            let r = spec_eval(cmds[i], stage_ctx, oracle, used);
            let res = r.0->Done_0;
            spec_eval_pipe(cmds, i, last, errs, ctx, oracle, used).0 == OutcomeView::Done(
                ResultView { stdout: res.stdout, stderr: errs + res.stderr, code: res.code },
            )
        }),
{
}

/// Law: a sequence stage whose operator rejects the last executed exit code
/// is skipped entirely: no context change, no response consumed, and the
/// last result carried on unchanged.
pub proof fn lemma_sequence_operator_gate(
    cmds: Seq<CommandView>,
    ops: Seq<TokenView>,
    i: int,
    last: ResultView,
    ctx: CtxView,
    oracle: Seq<RespView>,
    used: int,
)
    requires
        0 < i < cmds.len(),
        !seq_op_runs(op_before(ops, i), last.code),
    ensures
        spec_eval_seq(cmds, ops, i, last, ctx, oracle, used) == spec_eval_seq(
            cmds,
            ops,
            i + 1,
            last,
            ctx,
            oracle,
            used,
        ),
{
}

/// The pipeline rule over raw stage texts, from stage `i` on: each later
/// stage reads the previous stage's output, error output accumulates, the
/// first failure ends the pipeline.
pub open spec fn spec_pipe_str(
    stages: Seq<Seq<char>>,
    i: int,
    last: ResultView,
    errs: Seq<char>,
    ctx: CtxView,
    oracle: Seq<RespView>,
    used: int,
) -> (OutcomeView, CtxView, int)
    decreases stages.len() - i,
    when 0 <= i
{
    if i >= stages.len() {
        (
            OutcomeView::Done(
                ResultView { stdout: last.stdout, stderr: errs, code: last.code },
            ),
            ctx,
            used,
        )
    } else {
        let stage_ctx = if i == 0 {
            ctx
        } else {
            CtxView { stdin: Some(last.stdout), ..ctx }
        };
        let r = spec_run_stage(stages[i], stage_ctx, oracle, used);
        let ctx2 = CtxView { stdin: ctx.stdin, ..r.1 };
        match r.0 {
            OutcomeView::Done(res) => {
                if res.code != 0 {
                    (
                        OutcomeView::Done(
                            ResultView {
                                stdout: res.stdout,
                                stderr: errs + res.stderr,
                                code: res.code,
                            },
                        ),
                        ctx2,
                        r.2,
                    )
                } else {
                    spec_pipe_str(stages, i + 1, res, errs + res.stderr, ctx2, oracle, r.2)
                }
            },
            OutcomeView::Need(q) => (OutcomeView::Need(q), ctx2, r.2),
        }
    }
}

/// What running a whole pipeline of stage texts yields: an empty pipeline is
/// an error, anything else follows the pipeline rule from its first stage.
pub open spec fn spec_pipeline_run(
    stages: Seq<Seq<char>>,
    ctx: CtxView,
    oracle: Seq<RespView>,
) -> (OutcomeView, CtxView, int) {
    if stages.len() == 0 {
        (
            OutcomeView::Done(
                ResultView {
                    stdout: Seq::empty(),
                    stderr: "No commands in pipeline"@,
                    code: 1,
                },
            ),
            ctx,
            0,
        )
    } else {
        spec_pipe_str(stages, 0, code_result(0), Seq::empty(), ctx, oracle, 0)
    }
}

fn pipe_str_from(
    stages: &Vec<String>,
    i: usize,
    last: CommandResult,
    errs: String,
    ctx: ExecutionContext,
    oracle: &Vec<StageResponse>,
    used: usize,
) -> (r: (EvalOutcome, ExecutionContext, usize))
    requires
        used <= oracle@.len(),
    ensures
        ({
            let s = spec_pipe_str(
                args_view(stages@),
                i as int,
                last@,
                errs@,
                ctx@,
                resp_views(oracle@),
                used as int,
            );
            r.0@ == s.0 && r.1@ == s.1 && r.2 as int == s.2
        }),
        used <= r.2 <= oracle@.len(),
    decreases stages@.len() - i,
{
    let n = stages.len();
    if i >= n {
        let result = CommandResult { stdout: last.stdout, stderr: errs, code: last.code };
        return (EvalOutcome::Done(result), ctx, used);
    }
    let orig_stdin = copy_opt_string(&ctx.stdin);
    let stage_ctx: ExecutionContext;
    if i == 0 {
        stage_ctx = ctx;
    } else {
        stage_ctx = ExecutionContext {
            cwd: ctx.cwd,
            env: ctx.env,
            stdin: Some(last.stdout.clone()),
            cancelled: ctx.cancelled,
            virtual_enabled: ctx.virtual_enabled,
        };
        proof {
            assert(stage_ctx@ =~~= CtxView { stdin: Some(last@.stdout), ..old_ctx_view(ctx@) });
        }
    }
    proof {
        assert(args_view(stages@)[i as int] == stages@[i as int]@);
    }
    let (o, ctx1, u2) = run_stage(stages[i].as_str(), stage_ctx, oracle, used);
    let ctx2 = ExecutionContext {
        cwd: ctx1.cwd,
        env: ctx1.env,
        stdin: orig_stdin,
        cancelled: ctx1.cancelled,
        virtual_enabled: ctx1.virtual_enabled,
    };
    match o {
        EvalOutcome::Done(res) => {
            let mut new_errs = errs;
            new_errs.append(res.stderr.as_str());
            if res.code != 0 {
                let result = CommandResult {
                    stdout: res.stdout,
                    stderr: new_errs,
                    code: res.code,
                };
                (EvalOutcome::Done(result), ctx2, u2)
            } else {
                pipe_str_from(stages, i + 1, res, new_errs, ctx2, oracle, u2)
            }
        },
        EvalOutcome::Need(q) => (EvalOutcome::Need(q), ctx2, u2),
    }
}

#[verifier::loop_isolation(false)]
fn concat_env(a: &Vec<(String, String)>, b: &Vec<(String, String)>) -> (r: Vec<(String, String)>)
    ensures
        env_view(r@) == env_view(a@) + env_view(b@),
{
    let mut out = copy_env(a);
    let ghost base = env_view(a@);
    let mut i: usize = 0;
    proof {
        assert(env_view(out@) =~= base + env_view(b@).subrange(0, 0));
    }
    while i < b.len()
        invariant
            0 <= i <= b@.len(),
            env_view(out@) == base + env_view(b@).subrange(0, i as int),
        decreases b@.len() - i,
    {
        proof {
            assert(env_view(b@).subrange(0, i as int + 1) =~= env_view(b@).subrange(0, i as int)
                + seq![env_view(b@)[i as int]]);
        }
        let ghost pre = out@;
        out.push((b[i].0.clone(), b[i].1.clone()));
        proof {
            assert(env_view(out@) =~= env_view(pre) + seq![env_view(b@)[i as int]]);
        }
        i += 1;
    }
    proof {
        assert(env_view(b@).subrange(0, b@.len() as int) =~= env_view(b@));
        assert(env_view(out@) =~= env_view(a@) + env_view(b@));
    }
    out
}

/// A pipeline of raw command texts, each stage's output feeding the next
/// stage's input.
#[derive(Debug)]
pub struct Pipeline {
    commands: Vec<String>,
    stdin: Option<String>,
    cwd: Option<String>,
    env: Option<Vec<(String, String)>>,
    mirror: bool,
    capture: bool,
}

impl Pipeline {
    /// The stage texts, in order.
    pub closed spec fn stages(&self) -> Seq<Seq<char>> {
        args_view(self.commands@)
    }

    /// The input the first stage reads.
    pub closed spec fn initial_stdin(&self) -> Option<Seq<char>> {
        match self.stdin {
            Some(s) => Some(s@),
            None => None,
        }
    }

    /// The directory the stages run in, if one was set.
    pub closed spec fn dir(&self) -> Option<Seq<char>> {
        match self.cwd {
            Some(s) => Some(s@),
            None => None,
        }
    }

    /// The environment overrides every stage runs under, if any were set.
    pub closed spec fn env_overrides(&self) -> Option<Seq<(Seq<char>, Seq<char>)>> {
        match self.env {
            Some(e) => Some(env_view(e@)),
            None => None,
        }
    }

    /// Whether output is mirrored to the caller's own streams.
    pub closed spec fn mirrors(&self) -> bool {
        self.mirror
    }

    /// Whether output is captured in the result.
    pub closed spec fn captures(&self) -> bool {
        self.capture
    }

    /// An empty pipeline that mirrors and captures output.
    pub fn new() -> (p: Pipeline)
        ensures
            p.stages() == Seq::<Seq<char>>::empty(),
            p.initial_stdin() is None,
            p.dir() is None,
            p.env_overrides() is None,
            p.mirrors(),
            p.captures(),
    {
        let p = Pipeline {
            commands: Vec::new(),
            stdin: None,
            cwd: None,
            env: None,
            mirror: true,
            capture: true,
        };
        proof {
            assert(p.stages() =~= Seq::<Seq<char>>::empty());
        }
        p
    }

    /// Appends one stage.
    pub fn add(self, command: &str) -> (p: Pipeline)
        ensures
            p.stages() == self.stages().push(command@),
            p.initial_stdin() == self.initial_stdin(),
            p.dir() == self.dir(),
            p.env_overrides() == self.env_overrides(),
            p.mirrors() == self.mirrors(),
            p.captures() == self.captures(),
    {
        let mut p = self;
        let ghost pre = p.commands@;
        p.commands.push(command.to_owned());
        proof {
            assert(p.stages() =~= args_view(pre).push(command@));
        }
        p
    }

    /// Sets the input of the first stage.
    pub fn stdin(self, content: &str) -> (p: Pipeline)
        ensures
            p.stages() == self.stages(),
            p.initial_stdin() == Some(content@),
            p.dir() == self.dir(),
            p.env_overrides() == self.env_overrides(),
            p.mirrors() == self.mirrors(),
            p.captures() == self.captures(),
    {
        let mut p = self;
        p.stdin = Some(content.to_owned());
        p
    }

    /// Sets the working directory of every stage.
    pub fn cwd(self, path: &str) -> (p: Pipeline)
        ensures
            p.stages() == self.stages(),
            p.initial_stdin() == self.initial_stdin(),
            p.dir() == Some(path@),
            p.env_overrides() == self.env_overrides(),
            p.mirrors() == self.mirrors(),
            p.captures() == self.captures(),
    {
        let mut p = self;
        p.cwd = Some(path.to_owned());
        p
    }

    /// Sets the environment overrides of every stage.
    pub fn env(self, env: Vec<(String, String)>) -> (p: Pipeline)
        ensures
            p.stages() == self.stages(),
            p.initial_stdin() == self.initial_stdin(),
            p.dir() == self.dir(),
            p.env_overrides() == Some(env_view(env@)),
            p.mirrors() == self.mirrors(),
            p.captures() == self.captures(),
    {
        let mut p = self;
        p.env = Some(env);
        p
    }

    /// Sets whether output is mirrored.
    pub fn mirror_output(self, mirror: bool) -> (p: Pipeline)
        ensures
            p.stages() == self.stages(),
            p.initial_stdin() == self.initial_stdin(),
            p.dir() == self.dir(),
            p.env_overrides() == self.env_overrides(),
            p.mirrors() == mirror,
            p.captures() == self.captures(),
    {
        let mut p = self;
        p.mirror = mirror;
        p
    }

    /// Sets whether output is captured.
    pub fn capture_output(self, capture: bool) -> (p: Pipeline)
        ensures
            p.stages() == self.stages(),
            p.initial_stdin() == self.initial_stdin(),
            p.dir() == self.dir(),
            p.env_overrides() == self.env_overrides(),
            p.mirrors() == self.mirrors(),
            p.captures() == capture,
    {
        let mut p = self;
        p.capture = capture;
        p
    }

    /// Runs the pipeline's stages against a context: the builder's own input
    /// feeds the first stage, its directory and environment overrides stand
    /// in the context every stage runs under — overrides ahead of the
    /// caller's own bindings — and the pipeline rule does the rest.
    pub fn run_with(&self, ctx: ExecutionContext, oracle: &Vec<StageResponse>) -> (r: (
        EvalOutcome,
        ExecutionContext,
        usize,
    ))
        ensures
            ({
                let base = CtxView {
                    stdin: self.initial_stdin(),
                    cwd: (match self.dir() {
                        Some(d) => d,
                        None => ctx@.cwd,
                    }),
                    env: (match self.env_overrides() {
                        Some(e) => e + ctx@.env,
                        None => ctx@.env,
                    }),
                    ..old_ctx_view(ctx@)
                };
                let s = spec_pipeline_run(self.stages(), base, resp_views(oracle@));
                r.0@ == s.0 && r.1@ == s.1 && r.2 as int == s.2
            }),
            r.2 <= oracle@.len(),
    {
        let base = ExecutionContext {
            cwd: (match &self.cwd {
                Some(d) => d.clone(),
                None => ctx.cwd,
            }),
            env: (match &self.env {
                Some(e) => concat_env(e, &ctx.env),
                None => ctx.env,
            }),
            stdin: copy_opt_string(&self.stdin),
            cancelled: ctx.cancelled,
            virtual_enabled: ctx.virtual_enabled,
        };
        proof {
            assert(base@ =~~= CtxView {
                stdin: self.initial_stdin(),
                cwd: (match self.dir() {
                    Some(d) => d,
                    None => ctx@.cwd,
                }),
                env: (match self.env_overrides() {
                    Some(e) => e + ctx@.env,
                    None => ctx@.env,
                }),
                ..old_ctx_view(ctx@)
            });
        }
        if self.commands.len() == 0 {
            let result = CommandResult::error("No commands in pipeline");
            return (EvalOutcome::Done(result), base, 0);
        }
        pipe_str_from(&self.commands, 0, CommandResult::success_empty(), String::new(), base, oracle, 0)
    }
}

} // verus!
