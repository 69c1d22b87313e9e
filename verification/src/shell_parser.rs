//! Tokenizer and recursive-descent parser for the restricted shell syntax:
//! words with quoting and escapes, the operators `&&`, `||`, `;`, `|`,
//! parentheses and redirections, and the whole-string classifier that decides
//! when a real shell is needed instead.
use vstd::prelude::*;
use crate::text::{chars_to_string, is_op_char, is_space, op_char, space_char, str_to_chars};

verus! {

/// The kind of one token, with word tokens carrying their raw text,
/// surrounding quotes still in place.
#[derive(Debug, Clone, PartialEq)]
pub enum TokenType {
    Word(String),
    And,
    Or,
    Semicolon,
    Pipe,
    LParen,
    RParen,
    RedirectOut,
    RedirectAppend,
    RedirectIn,
    Eof,
}

/// The mathematical image of a token: its kind, a word reduced to its
/// character sequence.
pub enum TokenView {
    Word(Seq<char>),
    And,
    Or,
    Semicolon,
    Pipe,
    LParen,
    RParen,
    RedirectOut,
    RedirectAppend,
    RedirectIn,
    Eof,
}

impl View for TokenType {
    type V = TokenView;

    open spec fn view(&self) -> TokenView {
        match self {
            TokenType::Word(s) => TokenView::Word(s@),
            TokenType::And => TokenView::And,
            TokenType::Or => TokenView::Or,
            TokenType::Semicolon => TokenView::Semicolon,
            TokenType::Pipe => TokenView::Pipe,
            TokenType::LParen => TokenView::LParen,
            TokenType::RParen => TokenView::RParen,
            TokenType::RedirectOut => TokenView::RedirectOut,
            TokenType::RedirectAppend => TokenView::RedirectAppend,
            TokenType::RedirectIn => TokenView::RedirectIn,
            TokenType::Eof => TokenView::Eof,
        }
    }
}

/// A token together with the text it was read from.
#[derive(Debug, Clone)]
pub struct Token {
    pub token_type: TokenType,
    pub value: String,
}

impl View for Token {
    type V = TokenView;

    open spec fn view(&self) -> TokenView {
        self.token_type@
    }
}

/// The raw text a token of this kind carries in its `value` field.
pub open spec fn token_wf(t: Token) -> bool {
    match t.token_type {
        TokenType::Word(s) => t.value@ == s@,
        TokenType::And => t.value@ == "&&"@ || t.value@ == "&"@,
        TokenType::Or => t.value@ == "||"@,
        TokenType::Semicolon => t.value@ == ";"@,
        TokenType::Pipe => t.value@ == "|"@,
        TokenType::LParen => t.value@ == "("@,
        TokenType::RParen => t.value@ == ")"@,
        TokenType::RedirectOut => t.value@ == ">"@,
        TokenType::RedirectAppend => t.value@ == ">>"@,
        TokenType::RedirectIn => t.value@ == "<"@,
        TokenType::Eof => t.value@ == Seq::<char>::empty(),
    }
}

/// Where a word that starts at `i` in state (`in_q`, `qc`) ends: the scan
/// consumes quoted regions verbatim, honours backslash escapes, and stops at
/// unquoted white space or an operator character. Every consumed character
/// belongs to the word.
pub open spec fn word_end(s: Seq<char>, i: int, in_q: bool, qc: char) -> int
    decreases s.len() - i,
{
    if i < 0 || i >= s.len() {
        i
    } else {
        let c = s[i];
        if !in_q {
            if c == '"' || c == '\'' {
                word_end(s, i + 1, true, c)
            } else if is_space(c) || is_op_char(c) {
                i
            } else if c == '\\' && i + 1 < s.len() {
                word_end(s, i + 2, false, qc)
            } else {
                word_end(s, i + 1, false, qc)
            }
        } else {
            if c == qc && !(i > 0 && s[i - 1] == '\\') {
                word_end(s, i + 1, false, qc)
            } else if c == '\\' && i + 1 < s.len() && (s[i + 1] == qc || s[i + 1] == '\\') {
                word_end(s, i + 2, true, qc)
            } else {
                word_end(s, i + 1, true, qc)
            }
        }
    }
}

proof fn lemma_word_end_bounds(s: Seq<char>, i: int, in_q: bool, qc: char)
    requires
        0 <= i <= s.len(),
    ensures
        i <= word_end(s, i, in_q, qc) <= s.len(),
    decreases s.len() - i,
{
    if i < s.len() {
        let c = s[i];
        if !in_q {
            if c == '"' || c == '\'' {
                lemma_word_end_bounds(s, i + 1, true, c);
            } else if is_space(c) || is_op_char(c) {
            } else if c == '\\' && i + 1 < s.len() {
                lemma_word_end_bounds(s, i + 2, false, qc);
            } else {
                lemma_word_end_bounds(s, i + 1, false, qc);
            }
        } else {
            if c == qc && !(i > 0 && s[i - 1] == '\\') {
                lemma_word_end_bounds(s, i + 1, false, qc);
            } else if c == '\\' && i + 1 < s.len() && (s[i + 1] == qc || s[i + 1] == '\\') {
                lemma_word_end_bounds(s, i + 2, true, qc);
            } else {
                lemma_word_end_bounds(s, i + 1, true, qc);
            }
        }
    }
}

/// A word entered at a character that is neither white space nor an operator
/// consumes at least that character.
proof fn lemma_word_end_progress(s: Seq<char>, i: int)
    requires
        0 <= i < s.len(),
        !is_space(s[i]),
        !is_op_char(s[i]),
    ensures
        i < word_end(s, i, false, ' ') <= s.len(),
{
    let c = s[i];
    if c == '"' || c == '\'' {
        lemma_word_end_bounds(s, i + 1, true, c);
    } else if c == '\\' && i + 1 < s.len() {
        lemma_word_end_bounds(s, i + 2, false, ' ');
    } else {
        lemma_word_end_bounds(s, i + 1, false, ' ');
    }
}

/// The token that starts at position `i`, which holds neither white space nor
/// the end of the text: two-character operators first, then one-character
/// ones, else a word running to `word_end`. A lone `&` is read as the
/// conjunction operator.
pub open spec fn token_at(s: Seq<char>, i: int) -> (TokenView, int) {
    let c = s[i];
    if c == '&' && i + 1 < s.len() && s[i + 1] == '&' {
        (TokenView::And, i + 2)
    } else if c == '|' && i + 1 < s.len() && s[i + 1] == '|' {
        (TokenView::Or, i + 2)
    } else if c == '|' {
        (TokenView::Pipe, i + 1)
    } else if c == ';' {
        (TokenView::Semicolon, i + 1)
    } else if c == '(' {
        (TokenView::LParen, i + 1)
    } else if c == ')' {
        (TokenView::RParen, i + 1)
    } else if c == '>' && i + 1 < s.len() && s[i + 1] == '>' {
        (TokenView::RedirectAppend, i + 2)
    } else if c == '>' {
        (TokenView::RedirectOut, i + 1)
    } else if c == '<' {
        (TokenView::RedirectIn, i + 1)
    } else if c == '&' {
        (TokenView::And, i + 1)
    } else {
        (TokenView::Word(s.subrange(i, word_end(s, i, false, ' '))), word_end(s, i, false, ' '))
    }
}

/// The tokens of the text from position `i` on: white space separates tokens,
/// and a final end-of-input token is always present.
pub open spec fn tokens_from(s: Seq<char>, i: int) -> Seq<TokenView>
    decreases s.len() - i,
    when 0 <= i
    via tokens_from_decreases
{
    if i >= s.len() {
        seq![TokenView::Eof]
    } else if is_space(s[i]) {
        tokens_from(s, i + 1)
    } else {
        let (t, j) = token_at(s, i);
        seq![t] + tokens_from(s, j)
    }
}

#[via_fn]
proof fn tokens_from_decreases(s: Seq<char>, i: int) {
    if 0 <= i < s.len() && !is_space(s[i]) {
        let c = s[i];
        if !is_op_char(c) {
            lemma_word_end_progress(s, i);
        }
    }
}

/// The token sequence of a whole text.
pub open spec fn spec_tokenize(s: Seq<char>) -> Seq<TokenView> {
    tokens_from(s, 0)
}

/// A redirection: its operator kind and the file word after it.
#[derive(Debug, Clone)]
pub struct Redirect {
    pub redirect_type: TokenType,
    pub target: String,
}

/// The mathematical image of a redirection.
pub struct RedirectView {
    pub redirect_type: TokenView,
    pub target: Seq<char>,
}

impl View for Redirect {
    type V = RedirectView;

    open spec fn view(&self) -> RedirectView {
        RedirectView { redirect_type: self.redirect_type@, target: self.target@ }
    }
}

/// An argument word after quote stripping, remembering whether and how it was
/// quoted.
#[derive(Debug, Clone)]
pub struct ParsedArg {
    pub value: String,
    pub quoted: bool,
    pub quote_char: Option<char>,
}

/// The mathematical image of an argument.
pub struct ArgView {
    pub value: Seq<char>,
    pub quoted: bool,
    pub quote_char: Option<char>,
}

impl View for ParsedArg {
    type V = ArgView;

    open spec fn view(&self) -> ArgView {
        ArgView { value: self.value@, quoted: self.quoted, quote_char: self.quote_char }
    }
}

/// The command tree: a simple command, a sequence over `&&`/`||`/`;`, a
/// pipeline over `|`, or a parenthesised subshell.
#[derive(Debug)]
pub enum ParsedCommand {
    Simple { cmd: String, args: Vec<ParsedArg>, redirects: Vec<Redirect> },
    Sequence { commands: Vec<ParsedCommand>, operators: Vec<TokenType> },
    Pipeline { commands: Vec<ParsedCommand> },
    Subshell { command: Box<ParsedCommand> },
}

/// The mathematical image of a command tree.
pub enum CommandView {
    Simple { cmd: Seq<char>, args: Seq<ArgView>, redirects: Seq<RedirectView> },
    Sequence { commands: Seq<CommandView>, operators: Seq<TokenView> },
    Pipeline { commands: Seq<CommandView> },
    Subshell { command: Box<CommandView> },
}

/// The image of a command tree, child by child.
pub open spec fn cmd_view(c: ParsedCommand) -> CommandView
    decreases c,
{
    match c {
        ParsedCommand::Simple { cmd, args, redirects } => CommandView::Simple {
            cmd: cmd@,
            args: args@.map_values(|a: ParsedArg| a@),
            redirects: redirects@.map_values(|r: Redirect| r@),
        },
        ParsedCommand::Sequence { commands, operators } => CommandView::Sequence {
            commands: Seq::new(
                commands@.len(),
                |i: int|
                    if 0 <= i < commands@.len() {
                        cmd_view(commands@[i])
                    } else {
                        CommandView::Pipeline { commands: Seq::empty() }
                    },
            ),
            operators: operators@.map_values(|t: TokenType| t@),
        },
        ParsedCommand::Pipeline { commands } => CommandView::Pipeline {
            commands: Seq::new(
                commands@.len(),
                |i: int|
                    if 0 <= i < commands@.len() {
                        cmd_view(commands@[i])
                    } else {
                        CommandView::Pipeline { commands: Seq::empty() }
                    },
            ),
        },
        ParsedCommand::Subshell { command } => CommandView::Subshell {
            command: Box::new(cmd_view(*command)),
        },
    }
}

impl View for ParsedCommand {
    type V = CommandView;

    open spec fn view(&self) -> CommandView {
        cmd_view(*self)
    }
}

/// The image of an optional command.
pub open spec fn opt_view(c: Option<ParsedCommand>) -> Option<CommandView> {
    match c {
        Some(x) => Some(cmd_view(x)),
        None => None,
    }
}

/// The token the parser sees at position `p`: past the end it sees
/// end-of-input.
pub open spec fn cur(toks: Seq<TokenView>, p: int) -> TokenView {
    if 0 <= p < toks.len() {
        toks[p]
    } else {
        TokenView::Eof
    }
}

/// An optional parse result as a sequence of zero or one commands.
pub open spec fn opt_seq(c: Option<CommandView>) -> Seq<CommandView> {
    match c {
        Some(x) => seq![x],
        None => Seq::empty(),
    }
}

/// Clamps a continuation position so that it makes progress past `p` and
/// stays within the token list; the parser's own positions always do.
pub open spec fn step_past(p: int, q: int, n: int) -> int {
    if p < q <= n {
        q
    } else {
        p + 1
    }
}

/// Clamps a continuation position so that it does not run backwards.
pub open spec fn step_from(p: int, q: int, n: int) -> int {
    if p <= q <= n {
        q
    } else {
        p
    }
}

/// An argument word with exactly one outer pair of matching quotes loses that
/// pair and remembers it; any other word stands unchanged.
pub open spec fn dequoted(w: Seq<char>) -> ArgView {
    if w.len() >= 2 && ((w.first() == '"' && w.last() == '"') || (w.first() == '\'' && w.last()
        == '\'')) {
        ArgView { value: w.subrange(1, w.len() - 1), quoted: true, quote_char: Some(w.first()) }
    } else {
        ArgView { value: w, quoted: false, quote_char: None }
    }
}

/// The words and redirections a simple command collects from position `p` on:
/// words accumulate, a redirection operator takes the word after it as its
/// target, and one with no word after it is dropped.
pub open spec fn sp_simple_rest(toks: Seq<TokenView>, p: int) -> (Seq<Seq<char>>, Seq<
    RedirectView,
>, int)
    decreases toks.len() - p, 0int,
    when 0 <= p <= toks.len()
{
    match cur(toks, p) {
        TokenView::Word(w) => {
            let (ws, rs, e) = sp_simple_rest(toks, p + 1);
            (seq![w] + ws, rs, e)
        },
        TokenView::RedirectOut | TokenView::RedirectAppend | TokenView::RedirectIn => {
            if cur(toks, p + 1) is Word {
                let (ws, rs, e) = sp_simple_rest(toks, p + 2);
                (
                    ws,
                    seq![
                        RedirectView {
                            redirect_type: cur(toks, p),
                            target: cur(toks, p + 1)->Word_0,
                        },
                    ] + rs,
                    e,
                )
            } else {
                sp_simple_rest(toks, p + 1)
            }
        },
        _ => (Seq::empty(), Seq::empty(), p),
    }
}

/// A simple command: its first word names the program, the rest are dequoted
/// arguments; no word at all parses to nothing.
pub open spec fn sp_simple(toks: Seq<TokenView>, p: int) -> (Option<CommandView>, int)
    decreases toks.len() - p, 1int,
    when 0 <= p <= toks.len()
{
    let (ws, rs, e) = sp_simple_rest(toks, p);
    if ws.len() == 0 {
        (None, e)
    } else {
        (
            Some(
                CommandView::Simple {
                    cmd: ws[0],
                    args: ws.drop_first().map_values(|w: Seq<char>| dequoted(w)),
                    redirects: rs,
                },
            ),
            e,
        )
    }
}

/// One command: a parenthesised subshell, else a simple command. A missing
/// closing parenthesis is tolerated.
pub open spec fn sp_command(toks: Seq<TokenView>, p: int) -> (Option<CommandView>, int)
    decreases toks.len() - p, 2int,
    when 0 <= p <= toks.len()
{
    if cur(toks, p) is LParen {
        let (inner, q) = sp_sequence(toks, p + 1);
        let q1 = step_from(p + 1, q, toks.len() as int);
        let q2 = if cur(toks, q1) is RParen {
            q1 + 1
        } else {
            q1
        };
        (
            match inner {
                Some(c) => Some(CommandView::Subshell { command: Box::new(c) }),
                None => None,
            },
            q2,
        )
    } else {
        sp_simple(toks, p)
    }
}

/// The later stages of a pipeline: each `|` takes the command after it.
pub open spec fn sp_pipe_rest(toks: Seq<TokenView>, p: int) -> (Seq<CommandView>, int)
    decreases toks.len() - p, 3int,
    when 0 <= p <= toks.len()
{
    if cur(toks, p) is Pipe {
        let (c, q) = sp_command(toks, p + 1);
        let q2 = step_past(p, q, toks.len() as int);
        let (cs, e) = sp_pipe_rest(toks, q2);
        (opt_seq(c) + cs, e)
    } else {
        (Seq::empty(), p)
    }
}

/// A pipeline of commands joined by `|`; a single stage stands for itself.
pub open spec fn sp_pipeline(toks: Seq<TokenView>, p: int) -> (Option<CommandView>, int)
    decreases toks.len() - p, 4int,
    when 0 <= p <= toks.len()
{
    let (c0, p1) = sp_command(toks, p);
    let (cs, e) = sp_pipe_rest(toks, step_from(p, p1, toks.len() as int));
    let all = opt_seq(c0) + cs;
    if all.len() == 1 {
        (Some(all[0]), e)
    } else if all.len() == 0 {
        (None, e)
    } else {
        (Some(CommandView::Pipeline { commands: all }), e)
    }
}

/// The later stages of a sequence, as operator-stage pairs: each `&&`, `||`
/// or `;` takes the pipeline after it, and an operator whose pipeline is
/// empty is dropped with it.
pub open spec fn sp_seq_rest(toks: Seq<TokenView>, p: int) -> (Seq<(TokenView, CommandView)>, int)
    decreases toks.len() - p, 5int,
    when 0 <= p <= toks.len()
{
    match cur(toks, p) {
        TokenView::And | TokenView::Or | TokenView::Semicolon => {
            let (c, q) = sp_pipeline(toks, p + 1);
            let q2 = step_past(p, q, toks.len() as int);
            let (ps, e) = sp_seq_rest(toks, q2);
            (
                match c {
                    Some(x) => seq![(cur(toks, p), x)] + ps,
                    None => ps,
                },
                e,
            )
        },
        _ => (Seq::empty(), p),
    }
}

/// The stages of a run of operator-stage pairs.
pub open spec fn pair_stages(ps: Seq<(TokenView, CommandView)>) -> Seq<CommandView> {
    ps.map_values(|pr: (TokenView, CommandView)| pr.1)
}

/// The operators of a run of operator-stage pairs.
pub open spec fn pair_ops(ps: Seq<(TokenView, CommandView)>) -> Seq<TokenView> {
    ps.map_values(|pr: (TokenView, CommandView)| pr.0)
}

/// The operators a sequence keeps: one between each two stages. Without a
/// first stage before the pairs, the first pair's operator dangles and is
/// dropped.
pub open spec fn kept_ops(have_first: bool, ps: Seq<(TokenView, CommandView)>) -> Seq<TokenView> {
    if have_first {
        pair_ops(ps)
    } else if ps.len() > 0 {
        pair_ops(ps).drop_first()
    } else {
        Seq::empty()
    }
}

/// A sequence of pipelines joined by `&&`, `||` and `;`; a single pipeline
/// with no operators stands for itself, and nothing at all parses to nothing.
pub open spec fn sp_sequence(toks: Seq<TokenView>, p: int) -> (Option<CommandView>, int)
    decreases toks.len() - p, 6int,
    when 0 <= p <= toks.len()
{
    let (c0, p1) = sp_pipeline(toks, p);
    let (ps, e) = sp_seq_rest(toks, step_from(p, p1, toks.len() as int));
    let all = opt_seq(c0) + pair_stages(ps);
    let ops = kept_ops(c0 is Some, ps);
    if all.len() == 1 && ops.len() == 0 {
        (Some(all[0]), e)
    } else if all.len() == 0 {
        (None, e)
    } else {
        (Some(CommandView::Sequence { commands: all, operators: ops }), e)
    }
}

proof fn lemma_command_not_sequence(toks: Seq<TokenView>, p: int)
    requires
        0 <= p <= toks.len(),
    ensures
        sp_command(toks, p).0 matches Some(x) ==> !(x is Sequence),
{
}

proof fn lemma_pipe_rest_not_sequence(toks: Seq<TokenView>, p: int)
    requires
        0 <= p <= toks.len(),
    ensures
        forall|k: int|
            0 <= k < sp_pipe_rest(toks, p).0.len() ==> !(#[trigger] sp_pipe_rest(
                toks,
                p,
            ).0[k] is Sequence),
    decreases toks.len() - p, 7int,
{
    if cur(toks, p) is Pipe {
        let (c, q) = sp_command(toks, p + 1);
        let q2 = step_past(p, q, toks.len() as int);
        lemma_command_not_sequence(toks, p + 1);
        lemma_pipe_rest_not_sequence(toks, q2);
        let (cs, e) = sp_pipe_rest(toks, q2);
        assert forall|k: int|
            0 <= k < sp_pipe_rest(toks, p).0.len() implies !(#[trigger] sp_pipe_rest(
            toks,
            p,
        ).0[k] is Sequence) by {
            if k >= opt_seq(c).len() {
                assert(sp_pipe_rest(toks, p).0[k] == cs[k - opt_seq(c).len()]);
            }
        }
    }
}

/// A pipeline parse never yields a sequence node: one stage collapses to
/// itself, several wrap in a pipeline node.
proof fn lemma_pipeline_not_sequence(toks: Seq<TokenView>, p: int)
    requires
        0 <= p <= toks.len(),
    ensures
        sp_pipeline(toks, p).0 matches Some(x) ==> !(x is Sequence),
{
    lemma_command_not_sequence(toks, p);
    let (c0, p1) = sp_command(toks, p);
    lemma_pipe_rest_not_sequence(toks, step_from(p, p1, toks.len() as int));
}

proof fn lemma_seq_rest_not_sequence(toks: Seq<TokenView>, p: int)
    requires
        0 <= p <= toks.len(),
    ensures
        forall|k: int|
            0 <= k < sp_seq_rest(toks, p).0.len() ==> !((#[trigger] sp_seq_rest(
                toks,
                p,
            ).0[k]).1 is Sequence),
    decreases toks.len() - p, 8int,
{
    match cur(toks, p) {
        TokenView::And | TokenView::Or | TokenView::Semicolon => {
            let (c, q) = sp_pipeline(toks, p + 1);
            let q2 = step_past(p, q, toks.len() as int);
            lemma_pipeline_not_sequence(toks, p + 1);
            lemma_seq_rest_not_sequence(toks, q2);
            let (ps, e) = sp_seq_rest(toks, q2);
            assert forall|k: int|
                0 <= k < sp_seq_rest(toks, p).0.len() implies !((#[trigger] sp_seq_rest(
                toks,
                p,
            ).0[k]).1 is Sequence) by {
                match c {
                    Some(x) => {
                        if k > 0 {
                            assert(sp_seq_rest(toks, p).0[k] == ps[k - 1]);
                        }
                    },
                    None => {
                        assert(sp_seq_rest(toks, p).0[k] == ps[k]);
                    },
                }
            }
        },
        _ => {
        },
    }
}

/// Law: every sequence node the parser builds holds exactly one operator
/// between each two stages.
pub proof fn lemma_sequence_operator_count(toks: Seq<TokenView>, p: int)
    requires
        0 <= p <= toks.len(),
    ensures
        sp_sequence(toks, p).0 matches Some(c) ==> (c matches CommandView::Sequence {
            commands,
            operators,
        } ==> operators.len() == commands.len() - 1),
{
    let (c0, p1) = sp_pipeline(toks, p);
    let (ps, e) = sp_seq_rest(toks, step_from(p, p1, toks.len() as int));
    let all = opt_seq(c0) + pair_stages(ps);
    let ops = kept_ops(c0 is Some, ps);
    assert(pair_stages(ps).len() == ps.len());
    assert(pair_ops(ps).len() == ps.len());
    // The collapsed single stage is a pipeline result, never a sequence
    // node, so the law speaks only of the constructed node.
    lemma_pipeline_not_sequence(toks, p);
    lemma_seq_rest_not_sequence(toks, step_from(p, p1, toks.len() as int));
    if all.len() == 1 && ops.len() == 0 {
        if c0 is Some {
        } else {
            assert(all[0] == pair_stages(ps)[0]);
            assert(pair_stages(ps)[0] == ps[0].1);
        }
        assert(!(all[0] is Sequence));
    }
    if c0 is Some {
        assert(all.len() == 1 + ps.len());
        assert(ops.len() == ps.len());
    } else {
        assert(all.len() == ps.len());
        if ps.len() > 0 {
            assert(ops.len() == ps.len() - 1);
        } else {
            assert(ops.len() == 0);
        }
    }
}

/// What parsing a whole token list yields.
pub open spec fn sp_parse(toks: Seq<TokenView>) -> Option<CommandView> {
    sp_sequence(toks, 0).0
}

/// What parsing a whole command text yields.
pub open spec fn spec_parse(s: Seq<char>) -> Option<CommandView> {
    sp_parse(spec_tokenize(s))
}

fn make_op_token(kind: TokenType, value: &str) -> (t: Token)
    ensures
        t.token_type == kind,
        t.value@ == value@,
{
    Token { token_type: kind, value: value.to_owned() }
}

/// Splits a command text into tokens: words keep their quotes, operators are
/// recognised two-character forms first, and the list always ends with an
/// end-of-input token.
#[verifier::loop_isolation(false)]
pub fn tokenize(command: &str) -> (tokens: Vec<Token>)
    ensures
        tokens@.map_values(|t: Token| t@) == spec_tokenize(command@),
        forall|k: int| 0 <= k < tokens@.len() ==> token_wf(#[trigger] tokens@[k]),
{
    let chars = str_to_chars(command);
    let n = chars.len();
    let mut tokens: Vec<Token> = Vec::new();
    let mut i: usize = 0;
    while i < n
        invariant
            i <= n,
            spec_tokenize(command@) == tokens@.map_values(|t: Token| t@) + tokens_from(
                command@,
                i as int,
            ),
            forall|k: int| 0 <= k < tokens@.len() ==> token_wf(#[trigger] tokens@[k]),
        decreases n - i,
    {
        let c = chars[i];
        if space_char(c) {
            i += 1;
            continue;
        }
        let ghost pre = tokens@;
        let ghost ti = i as int;
        let tok: Token;
        let next: usize;
        if c == '&' && i + 1 < n && chars[i + 1] == '&' {
            tok = make_op_token(TokenType::And, "&&");
            next = i + 2;
        } else if c == '|' && i + 1 < n && chars[i + 1] == '|' {
            tok = make_op_token(TokenType::Or, "||");
            next = i + 2;
        } else if c == '|' {
            tok = make_op_token(TokenType::Pipe, "|");
            next = i + 1;
        } else if c == ';' {
            tok = make_op_token(TokenType::Semicolon, ";");
            next = i + 1;
        } else if c == '(' {
            tok = make_op_token(TokenType::LParen, "(");
            next = i + 1;
        } else if c == ')' {
            tok = make_op_token(TokenType::RParen, ")");
            next = i + 1;
        } else if c == '>' && i + 1 < n && chars[i + 1] == '>' {
            tok = make_op_token(TokenType::RedirectAppend, ">>");
            next = i + 2;
        } else if c == '>' {
            tok = make_op_token(TokenType::RedirectOut, ">");
            next = i + 1;
        } else if c == '<' {
            tok = make_op_token(TokenType::RedirectIn, "<");
            next = i + 1;
        } else if c == '&' {
            tok = make_op_token(TokenType::And, "&");
            next = i + 1;
        } else {
            let end = scan_word(&chars, i);
            let mut word: Vec<char> = Vec::new();
            let mut k: usize = i;
            while k < end
                invariant
                    i <= k <= end <= n,
                    word@ == chars@.subrange(i as int, k as int),
                decreases end - k,
            {
                proof {
                    assert(chars@.subrange(i as int, k as int + 1) =~= chars@.subrange(
                        i as int,
                        k as int,
                    ) + seq![chars@[k as int]]);
                }
                word.push(chars[k]);
                k += 1;
            }
            let text = chars_to_string(&word);
            tok = Token { token_type: TokenType::Word(text.clone()), value: text };
            next = end;
            proof {
                lemma_word_end_progress(command@, i as int);
            }
        }
        proof {
            assert((pre + seq![tok]).map_values(|t: Token| t@) =~= pre.map_values(|t: Token| t@)
                + seq![tok@]);
            assert(tokens_from(command@, ti) =~= seq![tok@] + tokens_from(command@, next as int));
        }
        tokens.push(tok);
        i = next;
    }
    let eof = Token { token_type: TokenType::Eof, value: String::new() };
    proof {
        assert((tokens@ + seq![eof]).map_values(|t: Token| t@) =~= tokens@.map_values(
            |t: Token| t@,
        ) + seq![eof@]);
        assert(tokens_from(command@, i as int) =~= seq![TokenView::Eof]);
    }
    tokens.push(eof);
    tokens
}

proof fn lemma_simple_rest_words(toks: Seq<TokenView>, p: int)
    requires
        0 <= p <= toks.len() - 1,
        toks.last() is Eof,
        forall|k: int| 0 <= k < toks.len() - 1 ==> (#[trigger] toks[k]) is Word,
    ensures
        ({
            let (ws, rs, e) = sp_simple_rest(toks, p);
            &&& ws =~= Seq::new((toks.len() - 1 - p) as nat, |j: int| toks[p + j]->Word_0)
            &&& rs.len() == 0
            &&& e == toks.len() - 1
        }),
    decreases toks.len() - p,
{
    if p == toks.len() - 1 {
        assert(cur(toks, p) is Eof);
    } else {
        assert(cur(toks, p) == toks[p]);
        assert(toks[p] is Word);
        lemma_simple_rest_words(toks, p + 1);
        let (ws1, rs1, e1) = sp_simple_rest(toks, p + 1);
        let (ws, rs, e) = sp_simple_rest(toks, p);
        assert(ws == seq![toks[p]->Word_0] + ws1);
        assert forall|j: int| 0 <= j < toks.len() - 1 - p implies ws[j] == toks[p + j]->Word_0
            by {
            if j > 0 {
                assert(ws[j] == ws1[j - 1]);
            }
        }
        assert(ws =~= Seq::new((toks.len() - 1 - p) as nat, |j: int| toks[p + j]->Word_0));
    }
}

/// Law: a token list made only of words parses to one simple command: the
/// first word names the program and the remaining words, each with one outer
/// pair of matching quotes stripped, are its arguments — the shell-split
/// reading of an input in which the tokenizer found no operators.
pub proof fn lemma_parse_words_simple(toks: Seq<TokenView>)
    requires
        toks.len() >= 2,
        toks.last() is Eof,
        forall|k: int| 0 <= k < toks.len() - 1 ==> (#[trigger] toks[k]) is Word,
    ensures
        ({
            let r = sp_parse(toks);
            &&& r matches Some(c)
            &&& c matches CommandView::Simple { cmd, args, redirects } && cmd == toks[0]->Word_0
                && args.len() == toks.len() - 2 && (forall|j: int|
                0 <= j < args.len() ==> args[j] == dequoted(toks[j + 1]->Word_0))
                && redirects.len() == 0
        }),
{
    let n = toks.len() as int;
    lemma_simple_rest_words(toks, 0);
    let (ws, rs, e) = sp_simple_rest(toks, 0);
    let (c0, p1) = sp_simple(toks, 0);
    assert(ws.len() == n - 1 >= 1);
    let simple = CommandView::Simple {
        cmd: ws[0],
        args: ws.drop_first().map_values(|w: Seq<char>| dequoted(w)),
        redirects: rs,
    };
    assert(c0 == Some(simple));
    assert(p1 == n - 1);
    assert(!(cur(toks, 0) is LParen));
    assert(sp_command(toks, 0) == (c0, p1));
    assert(cur(toks, n - 1) is Eof);
    assert(sp_pipe_rest(toks, n - 1) == (Seq::<CommandView>::empty(), n - 1));
    assert(step_from(0, n - 1, n) == n - 1);
    let all = opt_seq(c0) + sp_pipe_rest(toks, n - 1).0;
    assert(all =~= seq![simple]);
    assert(sp_pipeline(toks, 0) == (Some(simple), n - 1));
    assert(sp_seq_rest(toks, n - 1) == (Seq::<(TokenView, CommandView)>::empty(), n - 1));
    let all2 = opt_seq(Some(simple)) + pair_stages(sp_seq_rest(toks, n - 1).0);
    assert(pair_stages(Seq::<(TokenView, CommandView)>::empty())
        =~= Seq::<CommandView>::empty());
    assert(kept_ops(true, Seq::<(TokenView, CommandView)>::empty()) =~= Seq::<TokenView>::empty());
    assert(all2 =~= seq![simple]);
    assert(sp_sequence(toks, 0).0 == Some(simple));
    let argsv = ws.drop_first().map_values(|w: Seq<char>| dequoted(w));
    assert forall|j: int| 0 <= j < argsv.len() implies #[trigger] argsv[j] == dequoted(
        toks[j + 1]->Word_0,
    ) by {
        assert(ws.drop_first()[j] == ws[j + 1]);
        assert(ws[j + 1] == toks[j + 1]->Word_0);
    }
}

/// Law: a command text in which the tokenizer found only words — no
/// operators, parentheses or redirections — parses to one simple command
/// holding exactly the shell-split words, the first as the program, the rest
/// dequoted as its arguments.
pub proof fn lemma_word_text_parses_to_simple(s: Seq<char>)
    requires
        spec_tokenize(s).len() >= 2,
        forall|k: int| 0 <= k < spec_tokenize(s).len() - 1 ==> (#[trigger] spec_tokenize(s)[k])
            is Word,
    ensures
        ({
            let toks = spec_tokenize(s);
            let r = spec_parse(s);
            &&& r matches Some(c)
            &&& c matches CommandView::Simple { cmd, args, redirects } && cmd == toks[0]->Word_0
                && args.len() == toks.len() - 2 && (forall|j: int|
                0 <= j < args.len() ==> args[j] == dequoted(toks[j + 1]->Word_0))
                && redirects.len() == 0
        }),
{
    lemma_tokens_from_shape(s, 0);
    lemma_parse_words_simple(spec_tokenize(s));
}

/// A token list as the parser needs it: non-empty, ending in the one
/// end-of-input token.
pub open spec fn eof_terminated(toks: Seq<TokenView>) -> bool {
    &&& toks.len() >= 1
    &&& toks.last() is Eof
    &&& forall|k: int| 0 <= k < toks.len() - 1 ==> !(#[trigger] toks[k] is Eof)
}

proof fn lemma_tokens_from_shape(s: Seq<char>, i: int)
    requires
        0 <= i,
    ensures
        eof_terminated(tokens_from(s, i)),
    decreases s.len() - i,
{
    let ts = tokens_from(s, i);
    if i >= s.len() {
    } else if is_space(s[i]) {
        lemma_tokens_from_shape(s, i + 1);
    } else {
        let (t, j) = token_at(s, i);
        if !is_op_char(s[i]) {
            lemma_word_end_progress(s, i);
        }
        lemma_tokens_from_shape(s, j);
        let rest = tokens_from(s, j);
        assert(!(t is Eof));
        assert(ts.last() == rest.last());
        assert forall|k: int| 0 <= k < ts.len() - 1 implies !(#[trigger] ts[k] is Eof) by {
            if k > 0 {
                assert(ts[k] == rest[k - 1]);
            }
        }
    }
}

/// The view of a vector of tokens.
pub open spec fn toks_of(tokens: Seq<Token>) -> Seq<TokenView> {
    tokens.map_values(|t: Token| t@)
}

fn copy_token_type(t: &TokenType) -> (r: TokenType)
    ensures
        r@ == t@,
{
    match t {
        TokenType::Word(s) => TokenType::Word(s.clone()),
        TokenType::And => TokenType::And,
        TokenType::Or => TokenType::Or,
        TokenType::Semicolon => TokenType::Semicolon,
        TokenType::Pipe => TokenType::Pipe,
        TokenType::LParen => TokenType::LParen,
        TokenType::RParen => TokenType::RParen,
        TokenType::RedirectOut => TokenType::RedirectOut,
        TokenType::RedirectAppend => TokenType::RedirectAppend,
        TokenType::RedirectIn => TokenType::RedirectIn,
        TokenType::Eof => TokenType::Eof,
    }
}

/// Strips one outer pair of matching quotes from an argument word, if there
/// is one.
fn dequote_word(w: &String) -> (a: ParsedArg)
    ensures
        a@ == dequoted(w@),
{
    let chars = str_to_chars(w.as_str());
    let n = chars.len();
    if n >= 2 && ((chars[0] == '"' && chars[n - 1] == '"') || (chars[0] == '\'' && chars[n - 1]
        == '\'')) {
        let mut inner: Vec<char> = Vec::new();
        let mut k: usize = 1;
        while k < n - 1
            invariant
                1 <= k <= n - 1,
                n == chars@.len(),
                inner@ == chars@.subrange(1, k as int),
            decreases n - 1 - k,
        {
            proof {
                assert(chars@.subrange(1, k as int + 1) =~= chars@.subrange(1, k as int) + seq![
                    chars@[k as int],
                ]);
            }
            inner.push(chars[k]);
            k += 1;
        }
        ParsedArg {
            value: chars_to_string(&inner),
            quoted: true,
            quote_char: Some(chars[0]),
        }
    } else {
        ParsedArg { value: w.clone(), quoted: false, quote_char: None }
    }
}

/// Parses one simple command at `pos`: words, then interleaved redirections.
fn parse_simple(tokens: &Vec<Token>, pos: usize) -> (r: (Option<ParsedCommand>, usize))
    requires
        eof_terminated(toks_of(tokens@)),
        pos < tokens@.len(),
    ensures
        ({
            let (c, e) = sp_simple(toks_of(tokens@), pos as int);
            opt_view(r.0) == c && r.1 == e
        }),
        pos <= r.1 < tokens@.len(),
    decreases tokens@.len() - pos, 1int,
{
    let ghost toks = toks_of(tokens@);
    let n = tokens.len();
    let mut words: Vec<String> = Vec::new();
    let mut redirects: Vec<Redirect> = Vec::new();
    let mut p = pos;
    proof {
        assert(words@.map_values(|w: String| w@) =~= Seq::<Seq<char>>::empty());
        assert(redirects@.map_values(|r: Redirect| r@) =~= Seq::<RedirectView>::empty());
    }
    loop
        invariant
            toks == toks_of(tokens@),
            n == tokens@.len(),
            eof_terminated(toks),
            pos <= p < n,
            sp_simple_rest(toks, pos as int) == {
                let (ws, rs, e) = sp_simple_rest(toks, p as int);
                (
                    words@.map_values(|w: String| w@) + ws,
                    redirects@.map_values(|r: Redirect| r@) + rs,
                    e,
                )
            },
        ensures
            pos <= p < n,
            sp_simple_rest(toks, pos as int).0 == words@.map_values(|w: String| w@),
            sp_simple_rest(toks, pos as int).1 == redirects@.map_values(|r: Redirect| r@),
            sp_simple_rest(toks, pos as int).2 == p as int,
        decreases n - p,
    {
        proof {
            assert(toks[p as int] == tokens@[p as int]@);
        }
        match &tokens[p].token_type {
            TokenType::Word(w) => {
                let ghost pre = words@;
                words.push(w.clone());
                proof {
                    assert(words@.map_values(|w: String| w@) =~= pre.map_values(|w: String| w@)
                        + seq![tokens@[p as int]@->Word_0]);
                    assert(sp_simple_rest(toks, pos as int).0 =~= words@.map_values(
                        |w: String| w@,
                    ) + sp_simple_rest(toks, p as int + 1).0);
                }
                p += 1;
            },
            TokenType::RedirectOut | TokenType::RedirectAppend | TokenType::RedirectIn => {
                let rt = copy_token_type(&tokens[p].token_type);
                proof {
                    assert(toks[p as int + 1] == tokens@[p as int + 1]@);
                }
                let mut took_target = false;
                match &tokens[p + 1].token_type {
                    TokenType::Word(t) => {
                        let ghost pre = redirects@;
                        let red = Redirect { redirect_type: rt, target: t.clone() };
                        redirects.push(red);
                        proof {
                            assert(redirects@.map_values(|r: Redirect| r@) =~= pre.map_values(
                                |r: Redirect| r@,
                            ) + seq![red@]);
                            assert(sp_simple_rest(toks, pos as int).1 =~= redirects@.map_values(
                                |r: Redirect| r@,
                            ) + sp_simple_rest(toks, p as int + 2).1);
                        }
                        took_target = true;
                    },
                    _ => {
                    },
                }
                if took_target {
                    p += 2;
                } else {
                    p += 1;
                }
            },
            _ => {
                proof {
                    assert(sp_simple_rest(toks, p as int) == (
                        Seq::<Seq<char>>::empty(),
                        Seq::<RedirectView>::empty(),
                        p as int,
                    ));
                    assert(sp_simple_rest(toks, pos as int).0 =~= words@.map_values(
                        |w: String| w@,
                    ));
                    assert(sp_simple_rest(toks, pos as int).1 =~= redirects@.map_values(
                        |r: Redirect| r@,
                    ));
                }
                break;
            },
        }
    }
    if words.len() == 0 {
        return (None, p);
    }
    let cmd = words[0].clone();
    let mut args: Vec<ParsedArg> = Vec::new();
    let mut i: usize = 1;
    while i < words.len()
        invariant
            1 <= i <= words@.len(),
            args@.map_values(|a: ParsedArg| a@) =~= words@.subrange(1, i as int).map_values(
                |w: String| w@,
            ).map_values(|w: Seq<char>| dequoted(w)),
        decreases words@.len() - i,
    {
        let a = dequote_word(&words[i]);
        proof {
            assert(words@.subrange(1, i as int + 1) =~= words@.subrange(1, i as int) + seq![
                words@[i as int],
            ]);
            assert(words@.subrange(1, i as int + 1).map_values(|w: String| w@).map_values(
                |w: Seq<char>| dequoted(w),
            ) =~= words@.subrange(1, i as int).map_values(|w: String| w@).map_values(
                |w: Seq<char>| dequoted(w),
            ) + seq![dequoted(words@[i as int]@)]);
        }
        args.push(a);
        i += 1;
    }
    let result = ParsedCommand::Simple { cmd, args, redirects };
    proof {
        let (ws, rs, e) = sp_simple_rest(toks, pos as int);
        assert(words@.subrange(1, words@.len() as int) =~= words@.drop_first());
        assert(ws.drop_first() =~= words@.drop_first().map_values(|w: String| w@));
        assert(ws.drop_first().map_values(|w: Seq<char>| dequoted(w)) =~= args@.map_values(
            |a: ParsedArg| a@,
        ));
        assert(cmd_view(result) =~~= CommandView::Simple {
            cmd: ws[0],
            args: ws.drop_first().map_values(|w: Seq<char>| dequoted(w)),
            redirects: rs,
        });
    }
    (Some(result), p)
}

/// Parses one command at `pos`: a parenthesised subshell or a simple command.
fn parse_command(tokens: &Vec<Token>, pos: usize) -> (r: (Option<ParsedCommand>, usize))
    requires
        eof_terminated(toks_of(tokens@)),
        pos < tokens@.len(),
    ensures
        ({
            let (c, e) = sp_command(toks_of(tokens@), pos as int);
            opt_view(r.0) == c && r.1 == e
        }),
        pos <= r.1 < tokens@.len(),
    decreases tokens@.len() - pos, 2int,
{
    let ghost toks = toks_of(tokens@);
    let n = tokens.len();
    proof {
        assert(toks[pos as int] == tokens@[pos as int]@);
    }
    if matches!(&tokens[pos].token_type, TokenType::LParen) {
        proof {
            assert(!(toks[pos as int] is Eof));
            assert(pos < tokens@.len() - 1);
        }
        let (inner, q0) = parse_sequence(tokens, pos + 1);
        proof {
            assert(toks[q0 as int] == tokens@[q0 as int]@);
        }
        let q1: usize;
        if matches!(&tokens[q0].token_type, TokenType::RParen) {
            proof {
                assert(!(toks[q0 as int] is Eof));
                assert(q0 < tokens@.len() - 1);
            }
            q1 = q0 + 1;
        } else {
            q1 = q0;
        }
        match inner {
            Some(c) => (Some(ParsedCommand::Subshell { command: Box::new(c) }), q1),
            None => (None, q1),
        }
    } else {
        parse_simple(tokens, pos)
    }
}

/// Parses a pipeline at `pos`: commands joined by `|`.
fn parse_pipeline(tokens: &Vec<Token>, pos: usize) -> (r: (Option<ParsedCommand>, usize))
    requires
        eof_terminated(toks_of(tokens@)),
        pos < tokens@.len(),
    ensures
        ({
            let (c, e) = sp_pipeline(toks_of(tokens@), pos as int);
            opt_view(r.0) == c && r.1 == e
        }),
        pos <= r.1 < tokens@.len(),
    decreases tokens@.len() - pos, 3int,
{
    let ghost toks = toks_of(tokens@);
    let n = tokens.len();
    let (c0, p1) = parse_command(tokens, pos);
    let ghost c0v = sp_command(toks, pos as int).0;
    let mut commands: Vec<ParsedCommand> = Vec::new();
    match c0 {
        Some(c) => {
            commands.push(c);
        },
        None => {
        },
    }
    let mut p = p1;
    proof {
        assert(opt_seq(c0v) =~= commands@.map_values(|c: ParsedCommand| cmd_view(c)));
    }
    loop
        invariant
            toks == toks_of(tokens@),
            n == tokens@.len(),
            eof_terminated(toks),
            pos <= p1 <= p < n,
            opt_seq(c0v) + sp_pipe_rest(toks, p1 as int).0 =~= commands@.map_values(
                |c: ParsedCommand| cmd_view(c),
            ) + sp_pipe_rest(toks, p as int).0,
            sp_pipe_rest(toks, p1 as int).1 == sp_pipe_rest(toks, p as int).1,
        ensures
            p1 <= p < n,
            opt_seq(c0v) + sp_pipe_rest(toks, p1 as int).0 =~= commands@.map_values(
                |c: ParsedCommand| cmd_view(c),
            ),
            sp_pipe_rest(toks, p1 as int).1 == p as int,
        decreases n - p,
    {
        proof {
            assert(toks[p as int] == tokens@[p as int]@);
        }
        if matches!(&tokens[p].token_type, TokenType::Pipe) {
            proof {
                assert(!(toks[p as int] is Eof));
                assert(p < tokens@.len() - 1);
            }
            let (c, q) = parse_command(tokens, p + 1);
            let ghost pre = commands@;
            match c {
                Some(cmd) => {
                    commands.push(cmd);
                },
                None => {
                },
            }
            proof {
                assert(commands@.map_values(|c: ParsedCommand| cmd_view(c)) =~= pre.map_values(
                    |c: ParsedCommand| cmd_view(c),
                ) + opt_seq(sp_command(toks, p as int + 1).0));
            }
            p = q;
        } else {
            proof {
                assert(sp_pipe_rest(toks, p as int).0 =~= Seq::<CommandView>::empty());
            }
            break;
        }
    }
    if commands.len() == 1 {
        let c = commands.pop().unwrap();
        proof {
            let all = opt_seq(sp_pipeline(toks, pos as int).0);
            assert(cmd_view(c) == (opt_seq(c0v) + sp_pipe_rest(toks, p1 as int).0)[0]);
        }
        (Some(c), p)
    } else if commands.len() == 0 {
        (None, p)
    } else {
        let ghost cvec = commands@;
        let result = ParsedCommand::Pipeline { commands };
        proof {
            let all = opt_seq(c0v) + sp_pipe_rest(toks, p1 as int).0;
            assert(all == cvec.map_values(|c: ParsedCommand| cmd_view(c)));
            let cv = cmd_view(result);
            match cv {
                CommandView::Pipeline { commands: got } => {
                    assert forall|i: int| 0 <= i < got.len() implies got[i] == all[i] by {
                        assert(got[i] == cmd_view(cvec[i]));
                        assert(all[i] == cmd_view(cvec[i]));
                    }
                    assert(got =~= all);
                },
                _ => {
                    assert(false);
                },
            }
            assert(cv == CommandView::Pipeline { commands: all });
        }
        (Some(result), p)
    }
}

/// Parses a sequence at `pos`: pipelines joined by `&&`, `||` and `;`.
fn parse_sequence(tokens: &Vec<Token>, pos: usize) -> (r: (Option<ParsedCommand>, usize))
    requires
        eof_terminated(toks_of(tokens@)),
        pos < tokens@.len(),
    ensures
        ({
            let (c, e) = sp_sequence(toks_of(tokens@), pos as int);
            opt_view(r.0) == c && r.1 == e
        }),
        pos <= r.1 < tokens@.len(),
    decreases tokens@.len() - pos, 4int,
{
    let ghost toks = toks_of(tokens@);
    let n = tokens.len();
    let (c0, p1) = parse_pipeline(tokens, pos);
    let ghost c0v = sp_pipeline(toks, pos as int).0;
    let mut commands: Vec<ParsedCommand> = Vec::new();
    let mut operators: Vec<TokenType> = Vec::new();
    match c0 {
        Some(c) => {
            commands.push(c);
        },
        None => {
        },
    }
    let mut p = p1;
    proof {
        assert(opt_seq(c0v) =~= commands@.map_values(|c: ParsedCommand| cmd_view(c)));
        assert(Seq::<TokenView>::empty() =~= operators@.map_values(|t: TokenType| t@));
        assert(kept_ops(c0v is Some, sp_seq_rest(toks, p1 as int).0) =~= operators@.map_values(
            |t: TokenType| t@,
        ) + kept_ops(commands@.len() > 0, sp_seq_rest(toks, p1 as int).0));
    }
    loop
        invariant
            toks == toks_of(tokens@),
            n == tokens@.len(),
            eof_terminated(toks),
            pos <= p1 <= p < n,
            opt_seq(c0v) + pair_stages(sp_seq_rest(toks, p1 as int).0) =~= commands@.map_values(
                |c: ParsedCommand| cmd_view(c),
            ) + pair_stages(sp_seq_rest(toks, p as int).0),
            kept_ops(c0v is Some, sp_seq_rest(toks, p1 as int).0) =~= operators@.map_values(
                |t: TokenType| t@,
            ) + kept_ops(commands@.len() > 0, sp_seq_rest(toks, p as int).0),
            sp_seq_rest(toks, p1 as int).1 == sp_seq_rest(toks, p as int).1,
        ensures
            p1 <= p < n,
            opt_seq(c0v) + pair_stages(sp_seq_rest(toks, p1 as int).0) =~= commands@.map_values(
                |c: ParsedCommand| cmd_view(c),
            ),
            kept_ops(c0v is Some, sp_seq_rest(toks, p1 as int).0) =~= operators@.map_values(
                |t: TokenType| t@,
            ),
            sp_seq_rest(toks, p1 as int).1 == p as int,
        decreases n - p,
    {
        proof {
            assert(toks[p as int] == tokens@[p as int]@);
        }
        let is_seq_op = matches!(
            &tokens[p].token_type,
            TokenType::And | TokenType::Or | TokenType::Semicolon
        );
        if is_seq_op {
            proof {
                assert(!(toks[p as int] is Eof));
                assert(p < tokens@.len() - 1);
            }
            let op = copy_token_type(&tokens[p].token_type);
            let (c, q) = parse_pipeline(tokens, p + 1);
            let ghost rest_cur = sp_seq_rest(toks, p as int).0;
            let ghost rest_next = sp_seq_rest(toks, q as int).0;
            let ghost pre = commands@;
            let ghost pre_ops = operators@;
            match c {
                Some(cmd) => {
                    proof {
                        assert(rest_cur =~= seq![(toks[p as int], cmd_view(cmd))] + rest_next);
                        assert(pair_stages(rest_cur) =~= seq![cmd_view(cmd)] + pair_stages(
                            rest_next,
                        ));
                        assert(pair_ops(rest_cur) =~= seq![toks[p as int]] + pair_ops(rest_next));
                    }
                    if commands.len() > 0 {
                        operators.push(op);
                        proof {
                            assert(operators@.map_values(|t: TokenType| t@) =~= pre_ops.map_values(
                                |t: TokenType| t@,
                            ) + seq![toks[p as int]]);
                            assert(kept_ops(pre.len() > 0, rest_cur) =~= seq![toks[p as int]]
                                + kept_ops(true, rest_next));
                        }
                    } else {
                        proof {
                            assert(pair_ops(rest_cur).drop_first() =~= pair_ops(rest_next));
                            assert(kept_ops(false, rest_cur) =~= kept_ops(true, rest_next));
                        }
                    }
                    commands.push(cmd);
                    proof {
                        assert(commands@.map_values(|c: ParsedCommand| cmd_view(c))
                            =~= pre.map_values(|c: ParsedCommand| cmd_view(c)) + seq![
                            cmd_view(cmd),
                        ]);
                    }
                },
                None => {
                    proof {
                        assert(rest_cur =~= rest_next);
                    }
                },
            }
            p = q;
        } else {
            proof {
                assert(sp_seq_rest(toks, p as int).0 =~= Seq::<(TokenView, CommandView)>::empty());
                assert(pair_stages(sp_seq_rest(toks, p as int).0) =~= Seq::<CommandView>::empty());
                assert(kept_ops(commands@.len() > 0, sp_seq_rest(toks, p as int).0)
                    =~= Seq::<TokenView>::empty());
            }
            break;
        }
    }
    if commands.len() == 1 && operators.len() == 0 {
        let c = commands.pop().unwrap();
        proof {
            assert(cmd_view(c) == (opt_seq(c0v) + pair_stages(sp_seq_rest(toks, p1 as int).0))[0]);
        }
        (Some(c), p)
    } else if commands.len() == 0 {
        (None, p)
    } else {
        let ghost cvec = commands@;
        let ghost ovec = operators@;
        let result = ParsedCommand::Sequence { commands, operators };
        proof {
            let all = opt_seq(c0v) + pair_stages(sp_seq_rest(toks, p1 as int).0);
            let ops = kept_ops(c0v is Some, sp_seq_rest(toks, p1 as int).0);
            assert(all == cvec.map_values(|c: ParsedCommand| cmd_view(c)));
            assert(ops == ovec.map_values(|t: TokenType| t@));
            let cv = cmd_view(result);
            match cv {
                CommandView::Sequence { commands: got, operators: gops } => {
                    assert forall|i: int| 0 <= i < got.len() implies got[i] == all[i] by {
                        assert(got[i] == cmd_view(cvec[i]));
                        assert(all[i] == cmd_view(cvec[i]));
                    }
                    assert(got =~= all);
                    assert(gops =~= ops);
                },
                _ => {
                    assert(false);
                },
            }
            assert(cv == CommandView::Sequence { commands: all, operators: ops });
        }
        (Some(result), p)
    }
}

/// The parser: a token list and a cursor into it.
pub struct ShellParser {
    tokens: Vec<Token>,
    pos: usize,
}

impl ShellParser {
    /// The token views this parser walks over.
    pub closed spec fn toks(&self) -> Seq<TokenView> {
        toks_of(self.tokens@)
    }

    /// The parser's cursor.
    pub closed spec fn position(&self) -> int {
        self.pos as int
    }

    /// A parser in a usable state: its tokens end in the one end-of-input
    /// token and the cursor has not passed it.
    pub closed spec fn wf(&self) -> bool {
        &&& eof_terminated(self.toks())
        &&& self.pos < self.tokens@.len()
    }

    /// Tokenizes a command text and places the cursor at its start.
    pub fn new(command: &str) -> (parser: ShellParser)
        ensures
            parser.wf(),
            parser.toks() == spec_tokenize(command@),
            parser.position() == 0,
    {
        let tokens = tokenize(command);
        proof {
            lemma_tokens_from_shape(command@, 0);
        }
        ShellParser { tokens, pos: 0 }
    }

    /// Parses the whole command sequence under the cursor.
    pub fn parse(&mut self) -> (r: Option<ParsedCommand>)
        requires
            old(self).wf(),
        ensures
            final(self).wf(),
            final(self).toks() == old(self).toks(),
            opt_view(r) == sp_sequence(old(self).toks(), old(self).position()).0,
            final(self).position() == sp_sequence(old(self).toks(), old(self).position()).1,
    {
        let (r, p) = parse_sequence(&self.tokens, self.pos);
        self.pos = p;
        r
    }
}

/// Parses a shell command text into its command tree: sequences over
/// `&&`/`||`/`;` of pipelines over `|` of simple commands and parenthesised
/// subshells. Empty input parses to nothing.
pub fn parse_shell_command(command: &str) -> (r: Option<ParsedCommand>)
    ensures
        opt_view(r) == spec_parse(command@),
{
    let mut parser = ShellParser::new(command);
    parser.parse()
}

/// The marker `m` occurs in `s` at position `i`.
pub open spec fn marker_at(s: Seq<char>, m: Seq<char>, i: int) -> bool {
    0 <= i && i + m.len() <= s.len() && s.subrange(i, i + m.len()) == m
}

/// The marker `m` occurs somewhere in `s`.
pub open spec fn contains_marker(s: Seq<char>, m: Seq<char>) -> bool {
    exists|i: int| marker_at(s, m, i)
}

/// The whole-string scan that forces a real shell: command substitution,
/// variable and home expansion, glob characters, descriptor redirection and
/// here-documents are beyond this engine.
pub open spec fn spec_needs_real_shell(s: Seq<char>) -> bool {
    ||| contains_marker(s, "`"@)
    ||| contains_marker(s, "$("@)
    ||| contains_marker(s, "${"@)
    ||| contains_marker(s, "~"@)
    ||| contains_marker(s, "*"@)
    ||| contains_marker(s, "?"@)
    ||| contains_marker(s, "["@)
    ||| contains_marker(s, "2>"@)
    ||| contains_marker(s, "&>"@)
    ||| contains_marker(s, ">&"@)
    ||| contains_marker(s, "<<"@)
    ||| contains_marker(s, "<<<"@)
}

/// Whether `needle` occurs in `hay`, found by scanning every position.
#[verifier::loop_isolation(false)]
fn find_marker(hay: &Vec<char>, needle: &Vec<char>) -> (r: bool)
    ensures
        r == contains_marker(hay@, needle@),
{
    let m = needle.len();
    let n = hay.len();
    if m == 0 {
        proof {
            assert(hay@.subrange(0, 0) =~= needle@);
            assert(marker_at(hay@, needle@, 0));
        }
        return true;
    }
    if m > n {
        proof {
            assert forall|i: int| !marker_at(hay@, needle@, i) by {}
        }
        return false;
    }
    let mut i: usize = 0;
    while i <= n - m
        invariant
            0 <= i <= n - m + 1,
            forall|k: int| 0 <= k < i ==> !marker_at(hay@, needle@, k),
        decreases n - m + 1 - i,
    {
        let mut j: usize = 0;
        let mut all = true;
        proof {
            assert(hay@.subrange(i as int, i as int) =~= needle@.subrange(0, 0));
        }
        while j < m
            invariant
                0 <= j <= m,
                i + m <= n,
                all ==> hay@.subrange(i as int, i as int + j as int) == needle@.subrange(
                    0,
                    j as int,
                ),
                !all ==> !marker_at(hay@, needle@, i as int),
            decreases m - j,
        {
            if hay[i + j] != needle[j] {
                all = false;
                proof {
                    if marker_at(hay@, needle@, i as int) {
                        assert(hay@.subrange(i as int, i as int + m as int) == needle@);
                        assert(hay@.subrange(i as int, i as int + m as int)[j as int] == hay@[
                            i as int + j as int
                        ]);
                        assert(needle@[j as int] == hay@[i as int + j as int]);
                    }
                }
                break;
            }
            proof {
                if all {
                    let a = hay@.subrange(i as int, i as int + j as int + 1);
                    let b = needle@.subrange(0, j as int + 1);
                    assert forall|k: int| 0 <= k < a.len() implies a[k] == b[k] by {
                        if k < j {
                            assert(hay@.subrange(i as int, i as int + j as int)[k]
                                == needle@.subrange(0, j as int)[k]);
                        }
                    }
                    assert(a =~= b);
                }
            }
            j += 1;
        }
        if all {
            proof {
                assert(needle@.subrange(0, m as int) =~= needle@);
                assert(marker_at(hay@, needle@, i as int));
            }
            return true;
        }
        i += 1;
    }
    proof {
        assert forall|k: int| !marker_at(hay@, needle@, k) by {
            if k >= 0 && k + m <= n {
                assert(k < i);
            }
        }
    }
    false
}

/// Law: any text that holds one of the unsupported markers is sent to a
/// real shell, whole.
pub proof fn lemma_marker_forces_shell(s: Seq<char>)
    requires
        ({
            ||| contains_marker(s, "`"@)
            ||| contains_marker(s, "$("@)
            ||| contains_marker(s, "${"@)
            ||| contains_marker(s, "~"@)
            ||| contains_marker(s, "*"@)
            ||| contains_marker(s, "?"@)
            ||| contains_marker(s, "["@)
            ||| contains_marker(s, "2>"@)
            ||| contains_marker(s, "&>"@)
            ||| contains_marker(s, ">&"@)
            ||| contains_marker(s, "<<"@)
            ||| contains_marker(s, "<<<"@)
        }),
    ensures
        spec_needs_real_shell(s),
{
}

/// Decides whether a command text uses shell features this engine does not
/// implement, so that the whole text must go to a real shell: command
/// substitution, variable or home expansion, glob patterns, descriptor
/// redirection, or here-documents.
pub fn needs_real_shell(command: &str) -> (r: bool)
    ensures
        r == spec_needs_real_shell(command@),
{
    let hay = str_to_chars(command);
    let markers = ["`", "$(", "${", "~", "*", "?", "[", "2>", "&>", ">&", "<<", "<<<"];
    if find_marker(&hay, &str_to_chars(markers[0])) {
        return true;
    }
    if find_marker(&hay, &str_to_chars(markers[1])) {
        return true;
    }
    if find_marker(&hay, &str_to_chars(markers[2])) {
        return true;
    }
    if find_marker(&hay, &str_to_chars(markers[3])) {
        return true;
    }
    if find_marker(&hay, &str_to_chars(markers[4])) {
        return true;
    }
    if find_marker(&hay, &str_to_chars(markers[5])) {
        return true;
    }
    if find_marker(&hay, &str_to_chars(markers[6])) {
        return true;
    }
    if find_marker(&hay, &str_to_chars(markers[7])) {
        return true;
    }
    if find_marker(&hay, &str_to_chars(markers[8])) {
        return true;
    }
    if find_marker(&hay, &str_to_chars(markers[9])) {
        return true;
    }
    if find_marker(&hay, &str_to_chars(markers[10])) {
        return true;
    }
    if find_marker(&hay, &str_to_chars(markers[11])) {
        return true;
    }
    false
}

/// Runs the word scan from position `start`, returning where the word ends.
fn scan_word(chars: &Vec<char>, start: usize) -> (end: usize)
    requires
        start < chars@.len(),
        !is_space(chars@[start as int]),
        !is_op_char(chars@[start as int]),
    ensures
        end == word_end(chars@, start as int, false, ' '),
        start <= end <= chars@.len(),
{
    let ghost s = chars@;
    let n = chars.len();
    let mut i: usize = start;
    let mut in_q = false;
    let mut qc: char = ' ';
    proof {
        lemma_word_end_progress(s, start as int);
        lemma_word_end_bounds(s, start as int, false, ' ');
    }
    loop
        invariant
            s == chars@,
            n == chars@.len(),
            start <= i <= n,
            in_q ==> i >= 1,
            word_end(s, start as int, false, ' ') == word_end(s, i as int, in_q, qc),
        ensures
            word_end(s, start as int, false, ' ') == i,
        decreases n - i,
    {
        if i >= n {
            break;
        }
        let c = chars[i];
        if !in_q {
            if c == '"' || c == '\'' {
                in_q = true;
                qc = c;
                i += 1;
            } else if space_char(c) || op_char(c) {
                break;
            } else if c == '\\' && i + 1 < n {
                i += 2;
            } else {
                i += 1;
            }
        } else {
            if c == qc && !(i > 0 && chars[i - 1] == '\\') {
                in_q = false;
                i += 1;
            } else if c == '\\' && i + 1 < n && (chars[i + 1] == qc || chars[i + 1] == '\\') {
                i += 2;
            } else {
                i += 1;
            }
        }
    }
    proof {
        lemma_word_end_bounds(s, start as int, false, ' ');
    }
    i
}

} // verus!
