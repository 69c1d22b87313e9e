//! The virtual commands that run in-process, and the argument-splitting
//! helpers of those whose filesystem work is done by the surrounding program.
use vstd::prelude::*;
use crate::text::{
    chars_to_string, parse_i32_str, parse_i64_str, parsed_i32, parsed_i64, str_eq, str_to_chars,
};
use crate::utils::CommandResult;

verus! {

/// One chunk of streamed output.
#[derive(Debug, Clone)]
pub enum StreamChunk {
    Stdout(String),
    Stderr(String),
}

/// What a virtual command sees: its arguments after the program name, the
/// literal input handed to it, overrides for directory and environment, and
/// the one-shot cancellation flag as last polled.
#[derive(Debug)]
pub struct CommandContext {
    pub args: Vec<String>,
    pub stdin: Option<String>,
    pub cwd: Option<String>,
    pub env: Option<Vec<(String, String)>>,
    pub cancelled: bool,
}

impl CommandContext {
    /// A context holding only arguments.
    pub fn new(args: Vec<String>) -> (ctx: CommandContext)
        ensures
            ctx.args == args,
            ctx.stdin is None,
            ctx.cwd is None,
            ctx.env is None,
            !ctx.cancelled,
    {
        CommandContext { args, stdin: None, cwd: None, env: None, cancelled: false }
    }

    /// Whether cancellation had been signalled when this context was built.
    pub fn is_cancelled(&self) -> (r: bool)
        ensures
            r == self.cancelled,
    {
        self.cancelled
    }
}

/// The views of a list of argument strings.
pub open spec fn args_view(args: Seq<String>) -> Seq<Seq<char>> {
    args.map_values(|s: String| s@)
}

/// The words joined by single spaces.
pub open spec fn join_space(ws: Seq<Seq<char>>) -> Seq<char>
    decreases ws.len(),
{
    if ws.len() == 0 {
        Seq::empty()
    } else if ws.len() == 1 {
        ws[0]
    } else {
        ws[0] + " "@ + join_space(ws.drop_first())
    }
}

/// Joins words with single spaces.
#[verifier::loop_isolation(false)]
fn join_with_spaces(args: &Vec<String>, from: usize) -> (r: String)
    requires
        from <= args@.len(),
    ensures
        r@ == join_space(args_view(args@).skip(from as int)),
{
    let ghost ws = args_view(args@);
    let n = args.len();
    let mut out = String::new();
    let mut i: usize = from;
    while i < n
        invariant
            from <= i <= n,
            join_space(ws.skip(from as int)) == out@ + join_space(ws.skip(i as int)),
        decreases n - i,
    {
        let ghost suffix = ws.skip(i as int);
        proof {
            assert(suffix[0] == ws[i as int]);
            assert(suffix.drop_first() =~= ws.skip(i as int + 1));
            reveal_strlit(" ");
        }
        out.append(args[i].as_str());
        if i + 1 < n {
            out.append(" ");
        }
        i += 1;
    }
    proof {
        assert(join_space(ws.skip(n as int)) =~= Seq::<char>::empty());
    }
    out
}

/// A word that `echo` reads as flags: a dash followed only by `n`, `e` and
/// `E`.
pub open spec fn is_echo_flag(w: Seq<char>) -> bool {
    w.len() > 1 && w[0] == '-' && (forall|k: int|
        1 <= k < w.len() ==> (w[k] == 'n' || w[k] == 'e' || w[k] == 'E'))
}

/// How many leading arguments `echo` reads as flags.
pub open spec fn echo_flag_count(args: Seq<Seq<char>>, i: int) -> int
    decreases args.len() - i,
    when 0 <= i <= args.len()
{
    if i < args.len() && is_echo_flag(args[i]) {
        echo_flag_count(args, i + 1)
    } else {
        i
    }
}

/// The flag state after reading one flag word from position `k` on:
/// `n` suppresses the newline, `e` turns escape handling on, `E` off.
pub open spec fn echo_fold_word(w: Seq<char>, k: int, st: (bool, bool)) -> (bool, bool)
    decreases w.len() - k,
    when 0 <= k <= w.len()
{
    if k < w.len() {
        let c = w[k];
        let st2 = if c == 'n' {
            (true, st.1)
        } else if c == 'e' {
            (st.0, true)
        } else if c == 'E' {
            (st.0, false)
        } else {
            st
        };
        echo_fold_word(w, k + 1, st2)
    } else {
        st
    }
}

/// The flag state after reading the flag words `[i, end)`.
pub open spec fn echo_fold(args: Seq<Seq<char>>, i: int, end: int, st: (bool, bool)) -> (
    bool,
    bool,
)
    decreases end - i,
    when 0 <= i && i <= end <= args.len()
{
    if i < end {
        echo_fold(args, i + 1, end, echo_fold_word(args[i], 1, st))
    } else {
        st
    }
}

/// The string with every non-overlapping occurrence of the two characters
/// `a b` replaced by `r`, scanning left to right.
pub open spec fn replace_pair(s: Seq<char>, a: char, b: char, r: char) -> Seq<char>
    decreases s.len(),
{
    if s.len() >= 2 && s[0] == a && s[1] == b {
        seq![r] + replace_pair(s.skip(2), a, b, r)
    } else if s.len() == 0 {
        Seq::empty()
    } else {
        seq![s[0]] + replace_pair(s.drop_first(), a, b, r)
    }
}

#[verifier::loop_isolation(false)]
fn do_replace_pair(v: &Vec<char>, a: char, b: char, rep: char) -> (out: Vec<char>)
    ensures
        out@ == replace_pair(v@, a, b, rep),
{
    let n = v.len();
    let mut out: Vec<char> = Vec::new();
    let mut i: usize = 0;
    proof {
        assert(v@.skip(0) =~= v@);
    }
    while i < n
        invariant
            0 <= i <= n,
            replace_pair(v@, a, b, rep) == out@ + replace_pair(v@.skip(i as int), a, b, rep),
        decreases n - i,
    {
        let ghost suffix = v@.skip(i as int);
        proof {
            assert(suffix[0] == v@[i as int]);
            if suffix.len() >= 2 {
                assert(suffix[1] == v@[i as int + 1]);
            }
            assert(suffix.drop_first() =~= v@.skip(i as int + 1));
            if suffix.len() >= 2 {
                assert(suffix.skip(2) =~= v@.skip(i as int + 2));
            }
        }
        let ghost pre = out@;
        if i + 1 < n && v[i] == a && v[i + 1] == b {
            out.push(rep);
            proof {
                assert(out@ =~= pre + seq![rep]);
            }
            i += 2;
        } else {
            out.push(v[i]);
            proof {
                assert(out@ =~= pre + seq![v@[i as int]]);
            }
            i += 1;
        }
    }
    proof {
        assert(replace_pair(v@.skip(n as int), a, b, rep) =~= Seq::<char>::empty());
        assert(out@ =~= replace_pair(v@, a, b, rep));
    }
    out
}

/// What `echo` prints for the given arguments: flags first, then the
/// remaining words joined by spaces, escape sequences interpreted when `-e`
/// is in force, and a final newline unless `-n` is.
pub open spec fn spec_echo_output(args: Seq<Seq<char>>) -> Seq<char> {
    let fe = echo_flag_count(args, 0);
    let st = echo_fold(args, 0, fe, (false, false));
    let joined = join_space(args.skip(fe));
    let processed = if st.1 {
        replace_pair(
            replace_pair(
                replace_pair(replace_pair(joined, '\\', 'n', '\n'), '\\', 't', '\t'),
                '\\',
                'r',
                '\r',
            ),
            '\\',
            '\\',
            '\\',
        )
    } else {
        joined
    };
    if st.0 {
        processed
    } else {
        processed + "\n"@
    }
}

proof fn lemma_flag_prefix(args: Seq<Seq<char>>, i: int, j: int)
    requires
        0 <= i <= args.len(),
        i <= j < echo_flag_count(args, i),
    ensures
        is_echo_flag(args[j]),
    decreases args.len() - i,
{
    if i < args.len() && is_echo_flag(args[i]) {
        if j > i {
            lemma_flag_prefix(args, i + 1, j);
        }
    }
}

#[verifier::loop_isolation(false)]
fn echo_flag_word(w: &String) -> (r: bool)
    ensures
        r == is_echo_flag(w@),
{
    let chars = str_to_chars(w.as_str());
    let n = chars.len();
    if n <= 1 || chars[0] != '-' {
        return false;
    }
    let mut k: usize = 1;
    while k < n && (chars[k] == 'n' || chars[k] == 'e' || chars[k] == 'E')
        invariant
            1 <= k <= n,
            forall|j: int| 1 <= j < k ==> (chars@[j] == 'n' || chars@[j] == 'e' || chars@[j]
                == 'E'),
        decreases n - k,
    {
        k += 1;
    }
    if k == n {
        true
    } else {
        proof {
            if is_echo_flag(w@) {
                assert(w@[k as int] == 'n' || w@[k as int] == 'e' || w@[k as int] == 'E');
            }
        }
        false
    }
}

/// Prints its arguments separated by spaces. `-n` withholds the final
/// newline; `-e` makes `\n`, `\t`, `\r` and `\\` literal escape sequences;
/// `-E` turns that off again.
#[verifier::loop_isolation(false)]
pub fn echo(ctx: CommandContext) -> (r: CommandResult)
    ensures
        r.stdout@ == spec_echo_output(args_view(ctx.args@)),
        r.stderr@ == Seq::<char>::empty(),
        r.code == 0,
{
    let ghost av = args_view(ctx.args@);
    let n = ctx.args.len();
    let mut fe: usize = 0;
    while fe < n && echo_flag_word(&ctx.args[fe])
        invariant
            0 <= fe <= n,
            echo_flag_count(av, 0) == echo_flag_count(av, fe as int),
        decreases n - fe,
    {
        fe += 1;
    }
    proof {
        assert(echo_flag_count(av, fe as int) == fe as int);
    }
    let mut no_newline = false;
    let mut escapes = false;
    let mut i: usize = 0;
    while i < fe
        invariant
            0 <= i <= fe,
            echo_fold(av, 0, fe as int, (false, false)) == echo_fold(
                av,
                i as int,
                fe as int,
                (no_newline, escapes),
            ),
        decreases fe - i,
    {
        proof {
            lemma_flag_prefix(av, 0, i as int);
        }
        let chars = str_to_chars(ctx.args[i].as_str());
        let m = chars.len();
        let mut k: usize = 1;
        proof {
            assert(echo_fold(av, i as int, fe as int, (no_newline, escapes)) == echo_fold(
                av,
                i as int + 1,
                fe as int,
                echo_fold_word(av[i as int], 1, (no_newline, escapes)),
            ));
        }
        while k < m
            invariant
                1 <= k <= m,
                m == chars@.len(),
                chars@ == av[i as int],
                0 <= i < fe <= av.len(),
                echo_fold(av, 0, fe as int, (false, false)) == echo_fold(
                    av,
                    i as int + 1,
                    fe as int,
                    echo_fold_word(av[i as int], k as int, (no_newline, escapes)),
                ),
            decreases m - k,
        {
            let c = chars[k];
            if c == 'n' {
                no_newline = true;
            } else if c == 'e' {
                escapes = true;
            } else if c == 'E' {
                escapes = false;
            }
            k += 1;
        }
        i += 1;
    }
    let joined = join_with_spaces(&ctx.args, fe);
    let processed: String;
    if escapes {
        let v0 = str_to_chars(joined.as_str());
        let v1 = do_replace_pair(&v0, '\\', 'n', '\n');
        let v2 = do_replace_pair(&v1, '\\', 't', '\t');
        let v3 = do_replace_pair(&v2, '\\', 'r', '\r');
        let v4 = do_replace_pair(&v3, '\\', '\\', '\\');
        processed = chars_to_string(&v4);
    } else {
        processed = joined;
    }
    if no_newline {
        CommandResult::success(processed.as_str())
    } else {
        let mut with_nl = processed;
        with_nl.append("\n");
        CommandResult::success(with_nl.as_str())
    }
}

/// Succeeds, with no output.
pub fn true_cmd(ctx: CommandContext) -> (r: CommandResult)
    ensures
        r.stdout@ == Seq::<char>::empty(),
        r.stderr@ == Seq::<char>::empty(),
        r.code == 0,
{
    let _ = ctx;
    CommandResult::success_empty()
}

/// Fails with exit code 1, with no output.
pub fn false_cmd(ctx: CommandContext) -> (r: CommandResult)
    ensures
        r.stdout@ == Seq::<char>::empty(),
        r.stderr@ == Seq::<char>::empty(),
        r.code == 1,
{
    let _ = ctx;
    proof {
        reveal_strlit("");
    }
    CommandResult::error_with_code("", 1)
}

/// The exit code `exit` reports: its first argument read as a number, zero
/// when absent or unreadable.
pub open spec fn spec_exit_code(args: Seq<Seq<char>>) -> int {
    if args.len() == 0 {
        0
    } else {
        match parsed_i32(args[0]) {
            Some(v) => v as int,
            None => 0,
        }
    }
}

/// Reports the given exit code without ending the engine.
pub fn exit(ctx: CommandContext) -> (r: CommandResult)
    ensures
        r.stdout@ == Seq::<char>::empty(),
        r.stderr@ == Seq::<char>::empty(),
        r.code == spec_exit_code(args_view(ctx.args@)),
{
    proof {
        reveal_strlit("");
    }
    if ctx.args.len() == 0 {
        CommandResult::error_with_code("", 0)
    } else {
        match parse_i32_str(ctx.args[0].as_str()) {
            Some(v) => CommandResult::error_with_code("", v),
            None => CommandResult::error_with_code("", 0),
        }
    }
}

/// Echoes its literal input when it got one; with no input it prints
/// nothing. Reading files is the surrounding program's work, so arguments
/// are not accepted here.
pub fn cat(ctx: CommandContext) -> (r: CommandResult)
    requires
        ctx.args@.len() == 0,
    ensures
        (match ctx.stdin {
            Some(s) => s@.len() > 0 && r.stdout@ == s@ || s@.len() == 0 && r.stdout@
                == Seq::<char>::empty(),
            None => r.stdout@ == Seq::<char>::empty(),
        }),
        r.stderr@ == Seq::<char>::empty(),
        r.code == 0,
{
    match &ctx.stdin {
        Some(s) => if !s.as_str().is_empty() {
            CommandResult::success(s.as_str())
        } else {
            CommandResult::success_empty()
        },
        None => CommandResult::success_empty(),
    }
}

/// Prints the working directory of its context.
pub fn pwd(ctx: CommandContext) -> (r: CommandResult)
    requires
        ctx.cwd is Some,
    ensures
        r.stdout@ == ctx.cwd->0@ + "\n"@,
        r.stderr@ == Seq::<char>::empty(),
        r.code == 0,
{
    match &ctx.cwd {
        Some(c) => {
            let mut out = c.clone();
            out.append("\n");
            CommandResult::success(out.as_str())
        },
        None => CommandResult::success_empty(),
    }
}

/// The sequence repeated `n` times.
pub open spec fn repeat_n(s: Seq<char>, n: nat) -> Seq<char>
    decreases n,
{
    if n == 0 {
        Seq::empty()
    } else {
        repeat_n(s, (n - 1) as nat) + s
    }
}

/// How many lines `yes` emits in one bounded burst when it cannot stream.
pub open spec fn yes_burst() -> int {
    1000
}

/// The line `yes` repeats: its arguments joined, or `y`.
pub open spec fn spec_yes_line(args: Seq<Seq<char>>) -> Seq<char> {
    if args.len() == 0 {
        "y\n"@
    } else {
        join_space(args) + "\n"@
    }
}

/// Emits its line over and over: a bounded burst of repetitions, or, when
/// cancellation has been signalled, nothing with the cancellation code.
#[verifier::loop_isolation(false)]
pub fn yes(ctx: CommandContext) -> (r: CommandResult)
    ensures
        ctx.cancelled ==> r.code == 130 && r.stdout@ == Seq::<char>::empty(),
        !ctx.cancelled ==> r.code == 0 && r.stdout@ == repeat_n(
            spec_yes_line(args_view(ctx.args@)),
            yes_burst() as nat,
        ),
        r.stderr@ == Seq::<char>::empty(),
{
    if ctx.cancelled {
        proof {
            reveal_strlit("");
        }
        return CommandResult::error_with_code("", 130);
    }
    let line: String;
    if ctx.args.len() == 0 {
        line = "y\n".to_owned();
    } else {
        let mut l = join_with_spaces(&ctx.args, 0);
        l.append("\n");
        proof {
            assert(args_view(ctx.args@).skip(0) =~= args_view(ctx.args@));
        }
        line = l;
    }
    let mut out = String::new();
    let mut i: usize = 0;
    while i < 1000
        invariant
            0 <= i <= 1000,
            line@ == spec_yes_line(args_view(ctx.args@)),
            out@ == repeat_n(line@, i as nat),
        decreases 1000 - i,
    {
        out.append(line.as_str());
        i += 1;
    }
    CommandResult::success(out.as_str())
}

/// The string holds the character `c`.
pub open spec fn has_char(s: Seq<char>, c: char) -> bool {
    exists|i: int| 0 <= i < s.len() && s[i] == c
}

/// Whether the word holds the character.
fn contains_char(w: &String, c: char) -> (r: bool)
    ensures
        r == has_char(w@, c),
{
    let chars = str_to_chars(w.as_str());
    let n = chars.len();
    let mut i: usize = 0;
    while i < n && chars[i] != c
        invariant
            0 <= i <= n,
            n == chars@.len(),
            chars@ == w@,
            forall|k: int| 0 <= k < i ==> chars@[k] != c,
        decreases n - i,
    {
        i += 1;
    }
    if i < n {
        proof {
            assert(w@[i as int] == c);
        }
        true
    } else {
        proof {
            if has_char(w@, c) {
                let j = choose|j: int| 0 <= j < w@.len() && w@[j] == c;
                assert(chars@[j] == c);
            }
        }
        false
    }
}

/// A file property the `test` command can only learn from the filesystem.
#[derive(Debug, Clone, Copy, PartialEq, Eq, Structural)]
pub enum TestQuery {
    Exists,
    IsFile,
    IsDir,
    Readable,
    Writable,
    Executable,
    NonEmptyFile,
}

/// What evaluating a `test` expression yields: a decided truth value, or a
/// file question with its path that the surrounding program must answer.
#[derive(Debug)]
pub enum TestEval {
    Decided(bool),
    FileQuery(TestQuery, String),
}

/// The mathematical image of a `test` evaluation.
pub enum TestEvalView {
    Decided(bool),
    FileQuery(TestQuery, Seq<char>),
}

impl View for TestEval {
    type V = TestEvalView;

    open spec fn view(&self) -> TestEvalView {
        match self {
            TestEval::Decided(b) => TestEvalView::Decided(*b),
            TestEval::FileQuery(q, p) => TestEvalView::FileQuery(*q, p@),
        }
    }
}

/// The integer a `test` operand denotes, zero when unreadable.
pub open spec fn test_num(s: Seq<char>) -> int {
    match parsed_i64(s) {
        Some(v) => v as int,
        None => 0,
    }
}

/// What a `test` expression means: one operand is a non-emptiness check, a
/// unary operator is a string check, a negation, or a file question, and a
/// binary operator compares strings or numbers. Anything else is false.
pub open spec fn spec_test_eval(args: Seq<Seq<char>>) -> TestEvalView {
    if args.len() == 2 {
        let op = args[0];
        let arg = args[1];
        if op == "-e"@ {
            TestEvalView::FileQuery(TestQuery::Exists, arg)
        } else if op == "-f"@ {
            TestEvalView::FileQuery(TestQuery::IsFile, arg)
        } else if op == "-d"@ {
            TestEvalView::FileQuery(TestQuery::IsDir, arg)
        } else if op == "-r"@ {
            TestEvalView::FileQuery(TestQuery::Readable, arg)
        } else if op == "-w"@ {
            TestEvalView::FileQuery(TestQuery::Writable, arg)
        } else if op == "-x"@ {
            TestEvalView::FileQuery(TestQuery::Executable, arg)
        } else if op == "-s"@ {
            TestEvalView::FileQuery(TestQuery::NonEmptyFile, arg)
        } else if op == "-z"@ {
            TestEvalView::Decided(arg.len() == 0)
        } else if op == "-n"@ {
            TestEvalView::Decided(arg.len() > 0)
        } else if op == "!"@ {
            TestEvalView::Decided(arg.len() == 0)
        } else {
            TestEvalView::Decided(false)
        }
    } else if args.len() == 3 {
        let l = args[0];
        let op = args[1];
        let r = args[2];
        if op == "="@ || op == "=="@ {
            TestEvalView::Decided(l == r)
        } else if op == "!="@ {
            TestEvalView::Decided(l != r)
        } else if op == "-eq"@ {
            TestEvalView::Decided(test_num(l) == test_num(r))
        } else if op == "-ne"@ {
            TestEvalView::Decided(test_num(l) != test_num(r))
        } else if op == "-lt"@ {
            TestEvalView::Decided(test_num(l) < test_num(r))
        } else if op == "-le"@ {
            TestEvalView::Decided(test_num(l) <= test_num(r))
        } else if op == "-gt"@ {
            TestEvalView::Decided(test_num(l) > test_num(r))
        } else if op == "-ge"@ {
            TestEvalView::Decided(test_num(l) >= test_num(r))
        } else {
            TestEvalView::Decided(false)
        }
    } else if args.len() == 1 {
        TestEvalView::Decided(args[0].len() > 0)
    } else {
        TestEvalView::Decided(false)
    }
}

fn test_num_of(s: &String) -> (r: i64)
    ensures
        r as int == test_num(s@),
{
    match parse_i64_str(s.as_str()) {
        Some(v) => v,
        None => 0,
    }
}

/// Evaluates a `test` expression as far as strings and numbers decide it,
/// and names the file question where only the filesystem can.
pub fn evaluate_expression(args: &[String]) -> (r: TestEval)
    ensures
        r@ == spec_test_eval(args@.map_values(|s: String| s@)),
{
    let ghost av = args@.map_values(|s: String| s@);
    if args.len() == 2 {
        let op = &args[0];
        let arg = &args[1];
        if str_eq(op.as_str(), "-e") {
            TestEval::FileQuery(TestQuery::Exists, arg.clone())
        } else if str_eq(op.as_str(), "-f") {
            TestEval::FileQuery(TestQuery::IsFile, arg.clone())
        } else if str_eq(op.as_str(), "-d") {
            TestEval::FileQuery(TestQuery::IsDir, arg.clone())
        } else if str_eq(op.as_str(), "-r") {
            TestEval::FileQuery(TestQuery::Readable, arg.clone())
        } else if str_eq(op.as_str(), "-w") {
            TestEval::FileQuery(TestQuery::Writable, arg.clone())
        } else if str_eq(op.as_str(), "-x") {
            TestEval::FileQuery(TestQuery::Executable, arg.clone())
        } else if str_eq(op.as_str(), "-s") {
            TestEval::FileQuery(TestQuery::NonEmptyFile, arg.clone())
        } else if str_eq(op.as_str(), "-z") {
            TestEval::Decided(arg.as_str().is_empty())
        } else if str_eq(op.as_str(), "-n") {
            TestEval::Decided(!arg.as_str().is_empty())
        } else if str_eq(op.as_str(), "!") {
            TestEval::Decided(arg.as_str().is_empty())
        } else {
            TestEval::Decided(false)
        }
    } else if args.len() == 3 {
        let l = &args[0];
        let op = &args[1];
        let r = &args[2];
        if str_eq(op.as_str(), "=") || str_eq(op.as_str(), "==") {
            TestEval::Decided(str_eq(l.as_str(), r.as_str()))
        } else if str_eq(op.as_str(), "!=") {
            TestEval::Decided(!str_eq(l.as_str(), r.as_str()))
        } else if str_eq(op.as_str(), "-eq") {
            TestEval::Decided(test_num_of(l) == test_num_of(r))
        } else if str_eq(op.as_str(), "-ne") {
            TestEval::Decided(test_num_of(l) != test_num_of(r))
        } else if str_eq(op.as_str(), "-lt") {
            TestEval::Decided(test_num_of(l) < test_num_of(r))
        } else if str_eq(op.as_str(), "-le") {
            TestEval::Decided(test_num_of(l) <= test_num_of(r))
        } else if str_eq(op.as_str(), "-gt") {
            TestEval::Decided(test_num_of(l) > test_num_of(r))
        } else if str_eq(op.as_str(), "-ge") {
            TestEval::Decided(test_num_of(l) >= test_num_of(r))
        } else {
            TestEval::Decided(false)
        }
    } else if args.len() == 1 {
        TestEval::Decided(!args[0].as_str().is_empty())
    } else {
        TestEval::Decided(false)
    }
}

/// Evaluates the conditional expression in its arguments, as far as no file
/// question is involved: exit code 0 when it holds, 1 when it does not.
pub fn test(ctx: CommandContext) -> (r: CommandResult)
    requires
        spec_test_eval(args_view(ctx.args@)) is Decided,
    ensures
        r.stdout@ == Seq::<char>::empty(),
        r.stderr@ == Seq::<char>::empty(),
        r.code == (if spec_test_eval(args_view(ctx.args@))->Decided_0 {
            0int
        } else {
            1int
        }),
{
    proof {
        reveal_strlit("");
    }
    match evaluate_expression(ctx.args.as_slice()) {
        TestEval::Decided(b) => if b {
            CommandResult::success_empty()
        } else {
            CommandResult::error_with_code("", 1)
        },
        TestEval::FileQuery(_, _) => CommandResult::error_with_code("", 1),
    }
}

/// The path with its trailing separators removed.
pub open spec fn strip_slashes(s: Seq<char>) -> Seq<char>
    decreases s.len(),
{
    if s.len() > 0 && s.last() == '/' {
        strip_slashes(s.drop_last())
    } else {
        s
    }
}

proof fn lemma_strip_slashes_len(s: Seq<char>)
    ensures
        strip_slashes(s).len() <= s.len(),
    decreases s.len(),
{
    if s.len() > 0 && s.last() == '/' {
        lemma_strip_slashes_len(s.drop_last());
    }
}

/// How many characters the path keeps up to and including its last
/// separator; zero when it has none.
pub open spec fn last_slash_end(s: Seq<char>) -> int
    decreases s.len(),
{
    if s.len() == 0 {
        0
    } else if s.last() == '/' {
        s.len() as int
    } else {
        last_slash_end(s.drop_last())
    }
}

proof fn lemma_last_slash_end_bounds(s: Seq<char>)
    ensures
        0 <= last_slash_end(s) <= s.len(),
    decreases s.len(),
{
    if s.len() > 0 && s.last() != '/' {
        lemma_last_slash_end_bounds(s.drop_last());
    }
}

/// The final component of a path, as the standard path type names it:
/// trailing separators and current-directory dots fall away, the root and a
/// parent-directory component have no file name.
pub open spec fn spec_file_name(s: Seq<char>) -> Seq<char>
    decreases s.len(),
    via spec_file_name_decreases
{
    let t = strip_slashes(s);
    if t.len() == 0 {
        Seq::empty()
    } else if t.len() == 1 && t[0] == '.' {
        Seq::empty()
    } else if t.len() >= 2 && t[t.len() - 1] == '.' && t[t.len() - 2] == '/' {
        spec_file_name(t.take(t.len() - 1))
    } else {
        let j = last_slash_end(t);
        let seg = t.skip(j);
        if seg.len() == 2 && seg[0] == '.' && seg[1] == '.' {
            Seq::empty()
        } else {
            seg
        }
    }
}

#[via_fn]
proof fn spec_file_name_decreases(s: Seq<char>) {
    lemma_strip_slashes_len(s);
}

/// The directory part of a path: everything before its final component,
/// with trailing separators and current-directory dots falling away first; a
/// bare name lives in `.`, a top-level name in the root.
pub open spec fn spec_dirname_path(s: Seq<char>) -> Seq<char>
    decreases s.len(),
    via spec_dirname_path_decreases
{
    let t = strip_slashes(s);
    if t.len() == 0 {
        seq!['.']
    } else if t.len() == 1 && t[0] == '.' {
        seq!['.']
    } else if t.len() >= 2 && t[t.len() - 1] == '.' && t[t.len() - 2] == '/' {
        spec_dirname_path(t.take(t.len() - 1))
    } else {
        let j = last_slash_end(t);
        if j == 0 {
            seq!['.']
        } else {
            let h = strip_slashes(t.take(j - 1));
            if h.len() == 0 {
                seq!['/']
            } else {
                h
            }
        }
    }
}

#[via_fn]
proof fn spec_dirname_path_decreases(s: Seq<char>) {
    lemma_strip_slashes_len(s);
}

/// Runs the trailing-separator strip on a prefix of `chars`.
#[verifier::loop_isolation(false)]
fn strip_slashes_end(chars: &Vec<char>, e: usize) -> (r: usize)
    requires
        e <= chars@.len(),
    ensures
        r <= e,
        chars@.take(r as int) == strip_slashes(chars@.take(e as int)),
        r > 0 ==> chars@[r as int - 1] != '/',
{
    let mut e2 = e;
    while e2 > 0 && chars[e2 - 1] == '/'
        invariant
            0 <= e2 <= e,
            strip_slashes(chars@.take(e as int)) == strip_slashes(chars@.take(e2 as int)),
        decreases e2,
    {
        proof {
            assert(chars@.take(e2 as int).last() == chars@[e2 as int - 1]);
            assert(chars@.take(e2 as int).drop_last() =~= chars@.take(e2 as int - 1));
        }
        e2 -= 1;
    }
    proof {
        if e2 > 0 {
            assert(chars@.take(e2 as int).last() == chars@[e2 as int - 1]);
        }
        assert(strip_slashes(chars@.take(e2 as int)) == chars@.take(e2 as int));
    }
    e2
}

/// Finds where the last separator of `chars[..e]` ends.
#[verifier::loop_isolation(false)]
fn last_slash_scan(chars: &Vec<char>, e: usize) -> (j: usize)
    requires
        e <= chars@.len(),
    ensures
        j as int == last_slash_end(chars@.take(e as int)),
        j <= e,
{
    let mut j = e;
    while j > 0 && chars[j - 1] != '/'
        invariant
            0 <= j <= e,
            last_slash_end(chars@.take(e as int)) == last_slash_end(chars@.take(j as int)),
        decreases j,
    {
        proof {
            assert(chars@.take(j as int).last() == chars@[j as int - 1]);
            assert(chars@.take(j as int).drop_last() =~= chars@.take(j as int - 1));
        }
        j -= 1;
    }
    proof {
        if j > 0 {
            assert(chars@.take(j as int).last() == chars@[j as int - 1]);
        }
    }
    j
}

fn copy_range(chars: &Vec<char>, from: usize, to: usize) -> (r: String)
    requires
        from <= to <= chars@.len(),
    ensures
        r@ == chars@.subrange(from as int, to as int),
{
    let mut out: Vec<char> = Vec::new();
    let mut k = from;
    while k < to
        invariant
            from <= k <= to <= chars@.len(),
            out@ == chars@.subrange(from as int, k as int),
        decreases to - k,
    {
        proof {
            assert(chars@.subrange(from as int, k as int + 1) =~= chars@.subrange(
                from as int,
                k as int,
            ) + seq![chars@[k as int]]);
        }
        out.push(chars[k]);
        k += 1;
    }
    chars_to_string(&out)
}

/// The final path component of `chars[..e]`.
fn file_name_of(chars: &Vec<char>, e: usize) -> (r: String)
    requires
        e <= chars@.len(),
    ensures
        r@ == spec_file_name(chars@.take(e as int)),
    decreases e,
{
    let e2 = strip_slashes_end(chars, e);
    let ghost t = strip_slashes(chars@.take(e as int));
    if e2 == 0 {
        return String::new();
    }
    if e2 == 1 && chars[0] == '.' {
        return String::new();
    }
    if chars[e2 - 1] == '.' && e2 >= 2 && chars[e2 - 2] == '/' {
        proof {
            assert(t.take(t.len() - 1) =~= chars@.take(e2 as int - 1));
            assert(chars@.take(e2 as int - 1).len() < e as int);
        }
        return file_name_of(chars, e2 - 1);
    }
    let j = last_slash_scan(chars, e2);
    if e2 - j == 2 && chars[j] == '.' && chars[j + 1] == '.' {
        proof {
            let seg = t.skip(last_slash_end(t));
            assert(seg =~= chars@.subrange(j as int, e2 as int));
        }
        return String::new();
    }
    let r = copy_range(chars, j, e2);
    proof {
        let seg = t.skip(last_slash_end(t));
        assert(seg =~= chars@.subrange(j as int, e2 as int));
    }
    r
}

/// Strips the directory part, and then an optional suffix, from its first
/// argument.
pub fn basename(ctx: CommandContext) -> (r: CommandResult)
    ensures
        ctx.args@.len() == 0 ==> r.stdout@ == Seq::<char>::empty() && r.stderr@ == "basename"@
            + ": missing operand"@ && r.code == 1,
        ctx.args@.len() > 0 ==> ({
            let base = spec_file_name(ctx.args@[0]@);
            let trimmed = if ctx.args@.len() >= 2 && ctx.args@[1]@.len() <= base.len()
                && base.skip(base.len() - ctx.args@[1]@.len()) == ctx.args@[1]@ {
                base.take(base.len() - ctx.args@[1]@.len())
            } else {
                base
            };
            r.stdout@ == trimmed + "\n"@ && r.stderr@ == Seq::<char>::empty() && r.code == 0
        }),
{
    if ctx.args.len() == 0 {
        return crate::utils::VirtualUtils::missing_operand_error("basename");
    }
    let chars = str_to_chars(ctx.args[0].as_str());
    proof {
        assert(chars@.take(chars@.len() as int) =~= ctx.args@[0]@);
    }
    let base = file_name_of(&chars, chars.len());
    let bchars = str_to_chars(base.as_str());
    let bn = bchars.len();
    let mut result = base;
    if ctx.args.len() >= 2 {
        let suf = str_to_chars(ctx.args[1].as_str());
        let sn = suf.len();
        if sn <= bn {
            let mut k: usize = 0;
            while k < sn && bchars[bn - sn + k] == suf[k]
                invariant
                    0 <= k <= sn <= bn,
                    bn == bchars@.len(),
                    sn == suf@.len(),
                    forall|j: int| 0 <= j < k ==> bchars@[bn - sn + j] == suf@[j],
                decreases sn - k,
            {
                k += 1;
            }
            if k == sn {
                proof {
                    assert(bchars@.skip(bn as int - sn as int) =~= suf@);
                }
                result = copy_range(&bchars, 0, bn - sn);
                proof {
                    assert(bchars@.subrange(0, bn as int - sn as int) =~= bchars@.take(
                        bn as int - sn as int,
                    ));
                }
            } else {
                proof {
                    if bchars@.skip(bn as int - sn as int) == suf@ {
                        assert(bchars@.skip(bn as int - sn as int)[k as int] == suf@[k as int]);
                    }
                }
            }
        } else {
            proof {
                assert(ctx.args@[1]@.len() > spec_file_name(ctx.args@[0]@).len());
            }
        }
    }
    let mut out = result;
    out.append("\n");
    CommandResult::success(out.as_str())
}

/// The directory part of `chars[..e]`.
fn dirname_of(chars: &Vec<char>, e: usize) -> (r: String)
    requires
        e <= chars@.len(),
    ensures
        r@ == spec_dirname_path(chars@.take(e as int)),
    decreases e,
{
    let e2 = strip_slashes_end(chars, e);
    let ghost t = strip_slashes(chars@.take(e as int));
    if e2 == 0 {
        let out = ".".to_owned();
        proof {
            reveal_strlit(".");
            assert(out@ =~= seq!['.']);
        }
        return out;
    }
    if e2 == 1 && chars[0] == '.' {
        let out = ".".to_owned();
        proof {
            reveal_strlit(".");
            assert(out@ =~= seq!['.']);
        }
        return out;
    }
    if chars[e2 - 1] == '.' && e2 >= 2 && chars[e2 - 2] == '/' {
        proof {
            assert(t.take(t.len() - 1) =~= chars@.take(e2 as int - 1));
            assert(chars@.take(e2 as int - 1).len() < e as int);
        }
        return dirname_of(chars, e2 - 1);
    }
    let j = last_slash_scan(chars, e2);
    if j == 0 {
        let out = ".".to_owned();
        proof {
            reveal_strlit(".");
            assert(out@ =~= seq!['.']);
        }
        out
    } else {
        proof {
            assert(t.take(j as int - 1) =~= chars@.take(j as int - 1));
        }
        let h = strip_slashes_end(chars, j - 1);
        if h == 0 {
            let out = "/".to_owned();
            proof {
                reveal_strlit("/");
                assert(out@ =~= seq!['/']);
            }
            out
        } else {
            let out = copy_range(chars, 0, h);
            proof {
                assert(chars@.subrange(0, h as int) =~= chars@.take(h as int));
            }
            out
        }
    }
}

/// Strips the final component from its first argument.
pub fn dirname(ctx: CommandContext) -> (r: CommandResult)
    ensures
        ctx.args@.len() == 0 ==> r.stdout@ == Seq::<char>::empty() && r.stderr@ == "dirname"@
            + ": missing operand"@ && r.code == 1,
        ctx.args@.len() > 0 ==> r.stdout@ == spec_dirname_path(ctx.args@[0]@) + "\n"@ && r.stderr@
            == Seq::<char>::empty() && r.code == 0,
{
    if ctx.args.len() == 0 {
        return crate::utils::VirtualUtils::missing_operand_error("dirname");
    }
    let chars = str_to_chars(ctx.args[0].as_str());
    proof {
        assert(chars@.take(chars@.len() as int) =~= ctx.args@[0]@);
    }
    let mut out = dirname_of(&chars, chars.len());
    out.append("\n");
    CommandResult::success(out.as_str())
}

/// The first value bound to the key in an environment snapshot.
pub open spec fn env_lookup(env: Seq<(Seq<char>, Seq<char>)>, key: Seq<char>) -> Option<Seq<char>>
    decreases env.len(),
{
    if env.len() == 0 {
        None
    } else if env[0].0 == key {
        Some(env[0].1)
    } else {
        env_lookup(env.drop_first(), key)
    }
}

/// The views of an environment snapshot.
pub open spec fn env_view(env: Seq<(String, String)>) -> Seq<(Seq<char>, Seq<char>)> {
    env.map_values(|p: (String, String)| (p.0@, p.1@))
}

/// Looks a key up in an environment snapshot.
#[verifier::loop_isolation(false)]
fn lookup_env(env: &Vec<(String, String)>, key: &str) -> (r: Option<String>)
    ensures
        match r {
            Some(v) => env_lookup(env_view(env@), key@) == Some(v@),
            None => env_lookup(env_view(env@), key@) is None,
        },
{
    let ghost ev = env_view(env@);
    let n = env.len();
    let mut i: usize = 0;
    proof {
        assert(ev.skip(0) =~= ev);
    }
    while i < n
        invariant
            0 <= i <= n,
            env_lookup(ev, key@) == env_lookup(ev.skip(i as int), key@),
        decreases n - i,
    {
        proof {
            assert(ev.skip(i as int)[0] == ev[i as int]);
            assert(ev.skip(i as int).drop_first() =~= ev.skip(i as int + 1));
        }
        if str_eq(env[i].0.as_str(), key) {
            return Some(env[i].1.clone());
        }
        i += 1;
    }
    proof {
        assert(ev.skip(n as int) =~= Seq::<(Seq<char>, Seq<char>)>::empty());
    }
    None
}

/// Where `cd` goes: its argument, else the home directory from the context's
/// environment snapshot, else the root.
pub open spec fn spec_cd_target(args: Seq<Seq<char>>, env: Option<Seq<(Seq<char>, Seq<char>)>>)
    -> Seq<char> {
    if args.len() > 0 {
        args[0]
    } else {
        match env {
            Some(e) => match env_lookup(e, "HOME"@) {
                Some(v) => v,
                None => match env_lookup(e, "USERPROFILE"@) {
                    Some(v) => v,
                    None => "/"@,
                },
            },
            None => "/"@,
        }
    }
}

/// The directory `cd` aims at; whether it exists is the filesystem's answer.
pub fn cd_target(ctx: &CommandContext) -> (t: String)
    ensures
        t@ == spec_cd_target(
            args_view(ctx.args@),
            match ctx.env {
                Some(e) => Some(env_view(e@)),
                None => None,
            },
        ),
{
    if ctx.args.len() > 0 {
        return ctx.args[0].clone();
    }
    match &ctx.env {
        Some(e) => match lookup_env(e, "HOME") {
            Some(v) => v,
            None => match lookup_env(e, "USERPROFILE") {
                Some(v) => v,
                None => "/".to_owned(),
            },
        },
        None => "/".to_owned(),
    }
}

/// How `mkdir` reads its arguments: `-p` asks for parents, other dashed
/// words are ignored, the rest are directories.
pub open spec fn mkdir_split(args: Seq<Seq<char>>) -> (bool, Seq<Seq<char>>)
    decreases args.len(),
{
    if args.len() == 0 {
        (false, Seq::empty())
    } else {
        let w = args[0];
        let rest = mkdir_split(args.drop_first());
        if w == "-p"@ {
            (true, rest.1)
        } else if w.len() > 0 && w[0] == '-' {
            rest
        } else {
            (rest.0, seq![w] + rest.1)
        }
    }
}

/// How `rm` reads its arguments: recursive and force flags in their long,
/// short and combined forms, then the paths.
pub open spec fn rm_split(args: Seq<Seq<char>>) -> (bool, bool, Seq<Seq<char>>)
    decreases args.len(),
{
    if args.len() == 0 {
        (false, false, Seq::empty())
    } else {
        let w = args[0];
        let rest = rm_split(args.drop_first());
        if w == "-r"@ || w == "-R"@ || w == "--recursive"@ {
            (true, rest.1, rest.2)
        } else if w == "-f"@ || w == "--force"@ {
            (rest.0, true, rest.2)
        } else if w == "-rf"@ || w == "-fr"@ {
            (true, true, rest.2)
        } else if w.len() > 0 && w[0] == '-' {
            (
                rest.0 || has_char(w, 'r') || has_char(w, 'R'),
                rest.1 || has_char(w, 'f'),
                rest.2,
            )
        } else {
            (rest.0, rest.1, seq![w] + rest.2)
        }
    }
}

/// How `cp` reads its arguments: a recursive flag, then the paths.
pub open spec fn cp_split(args: Seq<Seq<char>>) -> (bool, Seq<Seq<char>>)
    decreases args.len(),
{
    if args.len() == 0 {
        (false, Seq::empty())
    } else {
        let w = args[0];
        let rest = cp_split(args.drop_first());
        if w == "-r"@ || w == "-R"@ || w == "--recursive"@ {
            (true, rest.1)
        } else if w.len() > 0 && w[0] == '-' {
            (rest.0 || has_char(w, 'r') || has_char(w, 'R'), rest.1)
        } else {
            (rest.0, seq![w] + rest.1)
        }
    }
}

/// How `mv` reads its arguments: dashed words fall away, the rest are paths.
pub open spec fn mv_split(args: Seq<Seq<char>>) -> Seq<Seq<char>>
    decreases args.len(),
{
    if args.len() == 0 {
        Seq::empty()
    } else {
        let w = args[0];
        let rest = mv_split(args.drop_first());
        if w.len() > 0 && w[0] == '-' {
            rest
        } else {
            seq![w] + rest
        }
    }
}

/// How `ls` reads its arguments: flags for hidden entries and the long
/// format, then the paths.
pub open spec fn ls_split(args: Seq<Seq<char>>) -> (bool, bool, Seq<Seq<char>>)
    decreases args.len(),
{
    if args.len() == 0 {
        (false, false, Seq::empty())
    } else {
        let w = args[0];
        let rest = ls_split(args.drop_first());
        if w == "-a"@ || w == "--all"@ {
            (true, rest.1, rest.2)
        } else if w == "-l"@ {
            (rest.0, true, rest.2)
        } else if w == "-la"@ || w == "-al"@ {
            (true, true, rest.2)
        } else if w.len() > 0 && w[0] == '-' {
            (rest.0 || has_char(w, 'a'), rest.1 || has_char(w, 'l'), rest.2)
        } else {
            (rest.0, rest.1, seq![w] + rest.2)
        }
    }
}

fn starts_dash(w: &String) -> (r: bool)
    ensures
        r == (w@.len() > 0 && w@[0] == '-'),
{
    let chars = str_to_chars(w.as_str());
    chars.len() > 0 && chars[0] == '-'
}

/// Splits `mkdir` arguments into the parents flag and the directory list.
#[verifier::loop_isolation(false)]
pub fn mkdir_options(args: &Vec<String>) -> (r: (bool, Vec<String>))
    ensures
        ({
            let sp = mkdir_split(args_view(args@));
            r.0 == sp.0 && r.1@.map_values(|s: String| s@) == sp.1
        }),
{
    let ghost av = args_view(args@);
    let n = args.len();
    let mut parents = false;
    let mut dirs: Vec<String> = Vec::new();
    let mut i: usize = 0;
    proof {
        assert(av.skip(0) =~= av);
        assert(dirs@.map_values(|s: String| s@) + mkdir_split(av).1 =~= mkdir_split(av).1);
    }
    while i < n
        invariant
            0 <= i <= n,
            mkdir_split(av).0 == (parents || mkdir_split(av.skip(i as int)).0),
            mkdir_split(av).1 == dirs@.map_values(|s: String| s@) + mkdir_split(
                av.skip(i as int),
            ).1,
        decreases n - i,
    {
        proof {
            assert(av.skip(i as int)[0] == av[i as int]);
            assert(av.skip(i as int).drop_first() =~= av.skip(i as int + 1));
        }
        let w = &args[i];
        if str_eq(w.as_str(), "-p") {
            parents = true;
        } else if starts_dash(w) {
        } else {
            let ghost pre = dirs@;
            dirs.push(w.clone());
            proof {
                assert(dirs@.map_values(|s: String| s@) =~= pre.map_values(|s: String| s@)
                    + seq![av[i as int]]);
                assert(pre.map_values(|s: String| s@) + (seq![av[i as int]] + mkdir_split(
                    av.skip(i as int + 1),
                ).1) =~= (pre.map_values(|s: String| s@) + seq![av[i as int]]) + mkdir_split(
                    av.skip(i as int + 1),
                ).1);
            }
        }
        i += 1;
    }
    proof {
        assert(av.skip(n as int) =~= Seq::<Seq<char>>::empty());
        assert(mkdir_split(av).1 =~= dirs@.map_values(|s: String| s@));
    }
    (parents, dirs)
}

/// Splits `rm` arguments into the recursive and force flags and the paths.
#[verifier::loop_isolation(false)]
pub fn rm_options(args: &Vec<String>) -> (r: (bool, bool, Vec<String>))
    ensures
        ({
            let sp = rm_split(args_view(args@));
            r.0 == sp.0 && r.1 == sp.1 && r.2@.map_values(|s: String| s@) == sp.2
        }),
{
    let ghost av = args_view(args@);
    let n = args.len();
    let mut recursive = false;
    let mut force = false;
    let mut paths: Vec<String> = Vec::new();
    let mut i: usize = 0;
    proof {
        assert(av.skip(0) =~= av);
        assert(paths@.map_values(|s: String| s@) + rm_split(av).2 =~= rm_split(av).2);
    }
    while i < n
        invariant
            0 <= i <= n,
            rm_split(av).0 == (recursive || rm_split(av.skip(i as int)).0),
            rm_split(av).1 == (force || rm_split(av.skip(i as int)).1),
            rm_split(av).2 == paths@.map_values(|s: String| s@) + rm_split(av.skip(i as int)).2,
        decreases n - i,
    {
        proof {
            assert(av.skip(i as int)[0] == av[i as int]);
            assert(av.skip(i as int).drop_first() =~= av.skip(i as int + 1));
        }
        let w = &args[i];
        if str_eq(w.as_str(), "-r") || str_eq(w.as_str(), "-R") || str_eq(
            w.as_str(),
            "--recursive",
        ) {
            recursive = true;
        } else if str_eq(w.as_str(), "-f") || str_eq(w.as_str(), "--force") {
            force = true;
        } else if str_eq(w.as_str(), "-rf") || str_eq(w.as_str(), "-fr") {
            recursive = true;
            force = true;
        } else if starts_dash(w) {
            if contains_char(w, 'r') || contains_char(w, 'R') {
                recursive = true;
            }
            if contains_char(w, 'f') {
                force = true;
            }
        } else {
            let ghost pre = paths@;
            paths.push(w.clone());
            proof {
                assert(paths@.map_values(|s: String| s@) =~= pre.map_values(|s: String| s@)
                    + seq![av[i as int]]);
                assert(pre.map_values(|s: String| s@) + (seq![av[i as int]] + rm_split(
                    av.skip(i as int + 1),
                ).2) =~= (pre.map_values(|s: String| s@) + seq![av[i as int]]) + rm_split(
                    av.skip(i as int + 1),
                ).2);
            }
        }
        i += 1;
    }
    proof {
        assert(av.skip(n as int) =~= Seq::<Seq<char>>::empty());
        assert(rm_split(av).2 =~= paths@.map_values(|s: String| s@));
    }
    (recursive, force, paths)
}

/// Splits `cp` arguments into the recursive flag and the paths.
#[verifier::loop_isolation(false)]
pub fn cp_options(args: &Vec<String>) -> (r: (bool, Vec<String>))
    ensures
        ({
            let sp = cp_split(args_view(args@));
            r.0 == sp.0 && r.1@.map_values(|s: String| s@) == sp.1
        }),
{
    let ghost av = args_view(args@);
    let n = args.len();
    let mut recursive = false;
    let mut paths: Vec<String> = Vec::new();
    let mut i: usize = 0;
    proof {
        assert(av.skip(0) =~= av);
        assert(paths@.map_values(|s: String| s@) + cp_split(av).1 =~= cp_split(av).1);
    }
    while i < n
        invariant
            0 <= i <= n,
            cp_split(av).0 == (recursive || cp_split(av.skip(i as int)).0),
            cp_split(av).1 == paths@.map_values(|s: String| s@) + cp_split(av.skip(i as int)).1,
        decreases n - i,
    {
        proof {
            assert(av.skip(i as int)[0] == av[i as int]);
            assert(av.skip(i as int).drop_first() =~= av.skip(i as int + 1));
        }
        let w = &args[i];
        if str_eq(w.as_str(), "-r") || str_eq(w.as_str(), "-R") || str_eq(
            w.as_str(),
            "--recursive",
        ) {
            recursive = true;
        } else if starts_dash(w) {
            if contains_char(w, 'r') || contains_char(w, 'R') {
                recursive = true;
            }
        } else {
            let ghost pre = paths@;
            paths.push(w.clone());
            proof {
                assert(paths@.map_values(|s: String| s@) =~= pre.map_values(|s: String| s@)
                    + seq![av[i as int]]);
                assert(pre.map_values(|s: String| s@) + (seq![av[i as int]] + cp_split(
                    av.skip(i as int + 1),
                ).1) =~= (pre.map_values(|s: String| s@) + seq![av[i as int]]) + cp_split(
                    av.skip(i as int + 1),
                ).1);
            }
        }
        i += 1;
    }
    proof {
        assert(av.skip(n as int) =~= Seq::<Seq<char>>::empty());
        assert(cp_split(av).1 =~= paths@.map_values(|s: String| s@));
    }
    (recursive, paths)
}

/// Keeps the path operands of `mv`, dropping dashed words.
#[verifier::loop_isolation(false)]
pub fn mv_operands(args: &Vec<String>) -> (r: Vec<String>)
    ensures
        r@.map_values(|s: String| s@) == mv_split(args_view(args@)),
{
    let ghost av = args_view(args@);
    let n = args.len();
    let mut paths: Vec<String> = Vec::new();
    let mut i: usize = 0;
    proof {
        assert(av.skip(0) =~= av);
        assert(paths@.map_values(|s: String| s@) + mv_split(av) =~= mv_split(av));
    }
    while i < n
        invariant
            0 <= i <= n,
            mv_split(av) == paths@.map_values(|s: String| s@) + mv_split(av.skip(i as int)),
        decreases n - i,
    {
        proof {
            assert(av.skip(i as int)[0] == av[i as int]);
            assert(av.skip(i as int).drop_first() =~= av.skip(i as int + 1));
        }
        let w = &args[i];
        if !starts_dash(w) {
            let ghost pre = paths@;
            paths.push(w.clone());
            proof {
                assert(paths@.map_values(|s: String| s@) =~= pre.map_values(|s: String| s@)
                    + seq![av[i as int]]);
                assert(pre.map_values(|s: String| s@) + (seq![av[i as int]] + mv_split(
                    av.skip(i as int + 1),
                )) =~= (pre.map_values(|s: String| s@) + seq![av[i as int]]) + mv_split(
                    av.skip(i as int + 1),
                ));
            }
        }
        i += 1;
    }
    proof {
        assert(av.skip(n as int) =~= Seq::<Seq<char>>::empty());
        assert(mv_split(av) =~= paths@.map_values(|s: String| s@));
    }
    paths
}

/// Splits `ls` arguments into the hidden-entry and long-format flags and the
/// paths; with no path given it lists the current directory.
#[verifier::loop_isolation(false)]
pub fn ls_options(args: &Vec<String>) -> (r: (bool, bool, Vec<String>))
    ensures
        ({
            let sp = ls_split(args_view(args@));
            r.0 == sp.0 && r.1 == sp.1 && r.2@.map_values(|s: String| s@) == (if sp.2.len() == 0 {
                seq!["."@]
            } else {
                sp.2
            })
        }),
{
    let ghost av = args_view(args@);
    let n = args.len();
    let mut show_all = false;
    let mut long_format = false;
    let mut paths: Vec<String> = Vec::new();
    let mut i: usize = 0;
    proof {
        assert(av.skip(0) =~= av);
        assert(paths@.map_values(|s: String| s@) + ls_split(av).2 =~= ls_split(av).2);
    }
    while i < n
        invariant
            0 <= i <= n,
            ls_split(av).0 == (show_all || ls_split(av.skip(i as int)).0),
            ls_split(av).1 == (long_format || ls_split(av.skip(i as int)).1),
            ls_split(av).2 == paths@.map_values(|s: String| s@) + ls_split(av.skip(i as int)).2,
        decreases n - i,
    {
        proof {
            assert(av.skip(i as int)[0] == av[i as int]);
            assert(av.skip(i as int).drop_first() =~= av.skip(i as int + 1));
        }
        let w = &args[i];
        if str_eq(w.as_str(), "-a") || str_eq(w.as_str(), "--all") {
            show_all = true;
        } else if str_eq(w.as_str(), "-l") {
            long_format = true;
        } else if str_eq(w.as_str(), "-la") || str_eq(w.as_str(), "-al") {
            show_all = true;
            long_format = true;
        } else if starts_dash(w) {
            if contains_char(w, 'a') {
                show_all = true;
            }
            if contains_char(w, 'l') {
                long_format = true;
            }
        } else {
            let ghost pre = paths@;
            paths.push(w.clone());
            proof {
                assert(paths@.map_values(|s: String| s@) =~= pre.map_values(|s: String| s@)
                    + seq![av[i as int]]);
                assert(pre.map_values(|s: String| s@) + (seq![av[i as int]] + ls_split(
                    av.skip(i as int + 1),
                ).2) =~= (pre.map_values(|s: String| s@) + seq![av[i as int]]) + ls_split(
                    av.skip(i as int + 1),
                ).2);
            }
        }
        i += 1;
    }
    proof {
        assert(av.skip(n as int) =~= Seq::<Seq<char>>::empty());
        assert(ls_split(av).2 =~= paths@.map_values(|s: String| s@));
    }
    if paths.len() == 0 {
        paths.push(".".to_owned());
        proof {
            assert(paths@.map_values(|s: String| s@) =~= seq!["."@]);
        }
    }
    (show_all, long_format, paths)
}

/// The names the virtual-command table answers to.
pub open spec fn spec_is_virtual(name: Seq<char>) -> bool {
    ||| name == "echo"@
    ||| name == "pwd"@
    ||| name == "cd"@
    ||| name == "true"@
    ||| name == "false"@
    ||| name == "sleep"@
    ||| name == "cat"@
    ||| name == "ls"@
    ||| name == "mkdir"@
    ||| name == "rm"@
    ||| name == "touch"@
    ||| name == "cp"@
    ||| name == "mv"@
    ||| name == "basename"@
    ||| name == "dirname"@
    ||| name == "env"@
    ||| name == "exit"@
    ||| name == "which"@
    ||| name == "yes"@
    ||| name == "seq"@
    ||| name == "test"@
}

/// Whether a program name is in the virtual-command table.
pub fn is_virtual_name(name: &str) -> (r: bool)
    ensures
        r == spec_is_virtual(name@),
{
    str_eq(name, "echo") || str_eq(name, "pwd") || str_eq(name, "cd") || str_eq(name, "true")
        || str_eq(name, "false") || str_eq(name, "sleep") || str_eq(name, "cat") || str_eq(
        name,
        "ls",
    ) || str_eq(name, "mkdir") || str_eq(name, "rm") || str_eq(name, "touch") || str_eq(name, "cp")
        || str_eq(name, "mv") || str_eq(name, "basename") || str_eq(name, "dirname") || str_eq(
        name,
        "env",
    ) || str_eq(name, "exit") || str_eq(name, "which") || str_eq(name, "yes") || str_eq(name, "seq")
        || str_eq(name, "test")
}

} // verus!
