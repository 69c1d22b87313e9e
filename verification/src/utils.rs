//! Shared result type of every command stage, and the helpers the virtual
//! commands use for their fixed error vocabulary and for path arithmetic.
use vstd::prelude::*;
use crate::text::{chars_to_string, str_to_chars};

verus! {

/// Outcome of one command stage: captured output, captured error output and
/// the exit code. Zero means success.
#[derive(Debug, Clone)]
pub struct CommandResult {
    pub stdout: String,
    pub stderr: String,
    pub code: i32,
}

/// The mathematical image of a stage result.
pub struct ResultView {
    pub stdout: Seq<char>,
    pub stderr: Seq<char>,
    pub code: int,
}

impl View for CommandResult {
    type V = ResultView;

    open spec fn view(&self) -> ResultView {
        ResultView { stdout: self.stdout@, stderr: self.stderr@, code: self.code as int }
    }
}

impl CommandResult {
    /// A success with the given standard output and nothing on standard error.
    pub fn success(stdout: &str) -> (r: CommandResult)
        ensures
            r.stdout@ == stdout@,
            r.stderr@ == Seq::<char>::empty(),
            r.code == 0,
    {
        CommandResult { stdout: stdout.to_owned(), stderr: String::new(), code: 0 }
    }

    /// A success with no output at all.
    pub fn success_empty() -> (r: CommandResult)
        ensures
            r.stdout@ == Seq::<char>::empty(),
            r.stderr@ == Seq::<char>::empty(),
            r.code == 0,
    {
        CommandResult { stdout: String::new(), stderr: String::new(), code: 0 }
    }

    /// A failure with exit code 1 and the given error output.
    pub fn error(stderr: &str) -> (r: CommandResult)
        ensures
            r.stdout@ == Seq::<char>::empty(),
            r.stderr@ == stderr@,
            r.code == 1,
    {
        CommandResult { stdout: String::new(), stderr: stderr.to_owned(), code: 1 }
    }

    /// A failure with the given error output and exit code.
    pub fn error_with_code(stderr: &str, code: i32) -> (r: CommandResult)
        ensures
            r.stdout@ == Seq::<char>::empty(),
            r.stderr@ == stderr@,
            r.code == code,
    {
        CommandResult { stdout: String::new(), stderr: stderr.to_owned(), code }
    }

    /// True exactly when the exit code is zero.
    pub fn is_success(&self) -> (r: bool)
        ensures
            r == (self.code == 0),
    {
        self.code == 0
    }
}

/// The character for one decimal digit value.
pub open spec fn digit_char(d: nat) -> char {
    if d == 0 {
        '0'
    } else if d == 1 {
        '1'
    } else if d == 2 {
        '2'
    } else if d == 3 {
        '3'
    } else if d == 4 {
        '4'
    } else if d == 5 {
        '5'
    } else if d == 6 {
        '6'
    } else if d == 7 {
        '7'
    } else if d == 8 {
        '8'
    } else {
        '9'
    }
}

/// The decimal rendering of a natural number, most significant digit first.
pub open spec fn dec_str(n: nat) -> Seq<char>
    decreases n,
{
    if n < 10 {
        seq![digit_char(n)]
    } else {
        dec_str(n / 10) + seq![digit_char(n % 10)]
    }
}

fn digit_to_char(d: usize) -> (c: char)
    requires
        d < 10,
    ensures
        c == digit_char(d as nat),
{
    if d == 0 {
        '0'
    } else if d == 1 {
        '1'
    } else if d == 2 {
        '2'
    } else if d == 3 {
        '3'
    } else if d == 4 {
        '4'
    } else if d == 5 {
        '5'
    } else if d == 6 {
        '6'
    } else if d == 7 {
        '7'
    } else if d == 8 {
        '8'
    } else {
        '9'
    }
}

/// Renders a number in decimal.
#[verifier::loop_isolation(false)]
pub fn usize_to_string(n: usize) -> (s: String)
    ensures
        s@ == dec_str(n as nat),
{
    let mut digits: Vec<char> = Vec::new();
    let mut m: usize = n;
    while m >= 10
        invariant
            dec_str(n as nat) == dec_str(m as nat) + digits@.reverse(),
        decreases m,
    {
        let d = m % 10;
        proof {
            assert((digits@ + seq![digit_char((m % 10) as nat)]).reverse() =~= seq![
                digit_char((m % 10) as nat),
            ] + digits@.reverse());
        }
        digits.push(digit_to_char(d));
        m = m / 10;
    }
    proof {
        assert((digits@ + seq![digit_char(m as nat)]).reverse() =~= seq![digit_char(m as nat)]
            + digits@.reverse());
    }
    digits.push(digit_to_char(m));
    let mut out: Vec<char> = Vec::new();
    let mut i: usize = digits.len();
    while i > 0
        invariant
            i <= digits@.len(),
            out@ =~= digits@.subrange(i as int, digits@.len() as int).reverse(),
        decreases i,
    {
        i -= 1;
        proof {
            assert(digits@.subrange(i as int, digits@.len() as int).reverse() =~= out@ + seq![
                digits@[i as int],
            ]);
        }
        out.push(digits[i]);
    }
    proof {
        assert(digits@.subrange(0, digits@.len() as int) =~= digits@);
    }
    chars_to_string(&out)
}

/// Helpers that build the fixed error vocabulary of the virtual commands and
/// resolve their path arguments.
pub struct VirtualUtils;

impl VirtualUtils {
    /// The standard complaint of a command that was given no operand.
    pub fn missing_operand_error(command_name: &str) -> (r: CommandResult)
        ensures
            r.stdout@ == Seq::<char>::empty(),
            r.stderr@ == command_name@ + ": missing operand"@,
            r.code == 1,
    {
        let mut msg = command_name.to_owned();
        msg.append(": missing operand");
        CommandResult::error(msg.as_str())
    }

    /// A complaint about a missing operand with its own wording.
    pub fn missing_operand_error_with_message(command_name: &str, message: &str) -> (r:
        CommandResult)
        ensures
            r.stdout@ == Seq::<char>::empty(),
            r.stderr@ == command_name@ + ": "@ + message@,
            r.code == 1,
    {
        let mut msg = command_name.to_owned();
        msg.append(": ");
        msg.append(message);
        CommandResult::error(msg.as_str())
    }

    /// A complaint about an invalid argument.
    pub fn invalid_argument_error(command_name: &str, message: &str) -> (r: CommandResult)
        ensures
            r.stdout@ == Seq::<char>::empty(),
            r.stderr@ == command_name@ + ": "@ + message@,
            r.code == 1,
    {
        let mut msg = command_name.to_owned();
        msg.append(": ");
        msg.append(message);
        CommandResult::error(msg.as_str())
    }

    /// A success with the given output.
    pub fn success(stdout: &str) -> (r: CommandResult)
        ensures
            r.stdout@ == stdout@,
            r.stderr@ == Seq::<char>::empty(),
            r.code == 0,
    {
        CommandResult::success(stdout)
    }

    /// A failure with the given error output.
    pub fn error(stderr: &str) -> (r: CommandResult)
        ensures
            r.stdout@ == Seq::<char>::empty(),
            r.stderr@ == stderr@,
            r.code == 1,
    {
        CommandResult::error(stderr)
    }

    /// The error a command reports when it has fewer arguments than it needs:
    /// nothing when enough were given, the missing-operand message when one
    /// was needed, a count otherwise.
    pub fn validate_args(args: &[String], min_count: usize, command_name: &str) -> (r: Option<
        CommandResult,
    >)
        ensures
            args@.len() >= min_count ==> r is None,
            args@.len() < min_count && min_count == 1 ==> (r matches Some(e) && e.stderr@
                == command_name@ + ": missing operand"@ && e.code == 1),
            args@.len() < min_count && min_count != 1 ==> (r matches Some(e) && e.stderr@
                == command_name@ + ": requires at least "@ + dec_str(min_count as nat)
                + " arguments"@ && e.code == 1),
    {
        if args.len() < min_count {
            if min_count == 1 {
                Some(Self::missing_operand_error(command_name))
            } else {
                let mut msg = String::from_str("requires at least ");
                msg.append(usize_to_string(min_count).as_str());
                msg.append(" arguments");
                let e = Self::invalid_argument_error(command_name, msg.as_str());
                proof {
                    reveal_strlit(": ");
                    reveal_strlit("requires at least ");
                    reveal_strlit(": requires at least ");
                    assert(e.stderr@ =~= command_name@ + ": requires at least "@ + dec_str(
                        min_count as nat,
                    ) + " arguments"@);
                }
                Some(e)
            }
        } else {
            None
        }
    }

    /// Resolves a path against a working directory: an absolute path stands
    /// alone, a relative one is joined to the directory with a separator, and
    /// with no directory given it is left as it is.
    pub fn resolve_path(file_path: &str, cwd: Option<&str>) -> (r: String)
        ensures
            file_path@.len() > 0 && file_path@[0] == '/' ==> r@ == file_path@,
            !(file_path@.len() > 0 && file_path@[0] == '/') ==> match cwd {
                Some(base) => if base@.len() > 0 && base@.last() == '/' {
                    r@ == base@ + file_path@
                } else {
                    r@ == base@ + "/"@ + file_path@
                },
                None => r@ == file_path@,
            },
    {
        let chars = str_to_chars(file_path);
        if chars.len() > 0 && chars[0] == '/' {
            return file_path.to_owned();
        }
        match cwd {
            Some(base) => {
                let base_chars = str_to_chars(base);
                let mut out = base.to_owned();
                if !(base_chars.len() > 0 && base_chars[base_chars.len() - 1] == '/') {
                    out.append("/");
                }
                out.append(file_path);
                proof {
                    if base@.len() > 0 && base@.last() == '/' {
                    } else {
                        assert(out@ == base@ + "/"@ + file_path@);
                    }
                }
                out
            },
            None => file_path.to_owned(),
        }
    }
}

} // verus!
