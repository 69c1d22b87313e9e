//! Quoting for interpolated values: a value is wrapped so that the tokenizer
//! reads it back as exactly one word, and for values without single quotes
//! that round trip is proved.
use vstd::prelude::*;
use crate::shell_parser::{
    dequoted, spec_tokenize, token_at, tokens_from, word_end, TokenView,
};
use crate::text::{chars_to_string, is_op_char, is_space, str_to_chars};

verus! {

/// A character that needs no quoting: letters, digits, and a fixed set of
/// punctuation safe in every shell word.
pub open spec fn is_safe_char(c: char) -> bool {
    ||| ('a' <= c && c <= 'z')
    ||| ('A' <= c && c <= 'Z')
    ||| ('0' <= c && c <= '9')
    ||| c == '_'
    ||| c == '-'
    ||| c == '.'
    ||| c == '/'
    ||| c == '='
    ||| c == ','
    ||| c == '+'
    ||| c == '@'
    ||| c == ':'
}

fn safe_char(c: char) -> (r: bool)
    ensures
        r == is_safe_char(c),
{
    ('a' <= c && c <= 'z') || ('A' <= c && c <= 'Z') || ('0' <= c && c <= '9') || c == '_' || c
        == '-' || c == '.' || c == '/' || c == '=' || c == ',' || c == '+' || c == '@' || c == ':'
}

/// Every character of the string is safe.
pub open spec fn all_safe(s: Seq<char>) -> bool {
    forall|i: int| 0 <= i < s.len() ==> is_safe_char(s[i])
}

proof fn lemma_not_all_safe(s: Seq<char>, k: int)
    requires
        0 <= k < s.len(),
        !is_safe_char(s[k]),
    ensures
        !all_safe(s),
{
    if all_safe(s) {
        assert(is_safe_char(s[k]));
    }
}

/// The string holds a single-quote character.
pub open spec fn has_quote(s: Seq<char>) -> bool {
    exists|i: int| 0 <= i < s.len() && s[i] == '\''
}

/// The string with every single quote replaced by the four characters that
/// close a quoted region, escape one quote and reopen it.
pub open spec fn quote_escaped(s: Seq<char>) -> Seq<char>
    decreases s.len(),
{
    if s.len() == 0 {
        Seq::empty()
    } else if s.first() == '\'' {
        "'\\''"@ + quote_escaped(s.drop_first())
    } else {
        seq![s.first()] + quote_escaped(s.drop_first())
    }
}

/// What quoting a value yields: the empty value becomes a pair of quotes; a
/// value already in single quotes with none inside, or made only of safe
/// characters, stands unchanged; a double-quoted value is wrapped in single
/// quotes; anything else is wrapped in single quotes with its own single
/// quotes escaped.
pub open spec fn spec_quote(s: Seq<char>) -> Seq<char> {
    if s.len() == 0 {
        "''"@
    } else if s.len() >= 2 && s.first() == '\'' && s.last() == '\'' && !has_quote(
        s.subrange(1, s.len() - 1),
    ) {
        s
    } else if s.len() > 2 && s.first() == '"' && s.last() == '"' {
        seq!['\''] + s + seq!['\'']
    } else if all_safe(s) {
        s
    } else {
        seq!['\''] + quote_escaped(s) + seq!['\'']
    }
}

/// Quotes a value so that the shell, and this crate's tokenizer, read it back
/// as one word.
#[verifier::loop_isolation(false)]
pub fn quote(value: &str) -> (r: String)
    ensures
        r@ == spec_quote(value@),
{
    let chars = str_to_chars(value);
    let n = chars.len();
    if n == 0 {
        return "''".to_owned();
    }
    if n >= 2 && chars[0] == '\'' && chars[n - 1] == '\'' {
        let ghost inner = value@.subrange(1, value@.len() - 1);
        let mut i: usize = 1;
        while i < n - 1 && chars[i] != '\''
            invariant
                1 <= i <= n - 1,
                forall|k: int| 1 <= k < i ==> chars@[k] != '\'',
            decreases n - 1 - i,
        {
            i += 1;
        }
        if i == n - 1 {
            proof {
                if has_quote(inner) {
                    let j = choose|j: int| 0 <= j < inner.len() && inner[j] == '\'';
                    assert(inner[j] == chars@[j + 1]);
                }
            }
            return value.to_owned();
        }
        proof {
            assert(inner[i - 1] == chars@[i as int]);
            assert(has_quote(inner));
        }
    }
    if n > 2 && chars[0] == '"' && chars[n - 1] == '"' {
        let mut out = "'".to_owned();
        out.append(value);
        out.append("'");
        proof {
            reveal_strlit("'");
            assert(out@ =~= seq!['\''] + value@ + seq!['\'']);
        }
        return out;
    }
    let mut i: usize = 0;
    while i < n && safe_char(chars[i])
        invariant
            0 <= i <= n,
            forall|k: int| 0 <= k < i ==> is_safe_char(chars@[k]),
        decreases n - i,
    {
        i += 1;
    }
    if i == n {
        return value.to_owned();
    }
    proof {
        lemma_not_all_safe(value@, i as int);
    }
    let mut out: Vec<char> = Vec::new();
    out.push('\'');
    proof {
        assert(value@.skip(0) =~= value@);
        assert(out@ =~= seq!['\'']);
    }
    let mut k: usize = 0;
    while k < n
        invariant
            0 <= k <= n,
            seq!['\''] + quote_escaped(value@) == out@ + quote_escaped(value@.skip(k as int)),
        decreases n - k,
    {
        let c = chars[k];
        let ghost suffix = value@.skip(k as int);
        proof {
            assert(suffix.first() == value@[k as int]);
            assert(suffix.drop_first() =~= value@.skip(k as int + 1));
        }
        if c == '\'' {
            let ghost pre = out@;
            out.push('\'');
            out.push('\\');
            out.push('\'');
            out.push('\'');
            proof {
                reveal_strlit("'\\''");
                assert(out@ =~= pre + "'\\''"@);
            }
        } else {
            out.push(c);
            proof {
                assert(out@ =~= out@.subrange(0, out@.len() - 1) + seq![c]);
            }
        }
        k += 1;
    }
    proof {
        assert(value@.skip(n as int) =~= Seq::<char>::empty());
        assert(out@ =~= seq!['\''] + quote_escaped(value@));
    }
    out.push('\'');
    proof {
        assert(out@ =~= seq!['\''] + quote_escaped(value@) + seq!['\'']);
    }
    chars_to_string(&out)
}

/// Whether a value would be changed or wrapped by `quote`: the empty value
/// and any value with an unsafe character need quoting.
pub fn needs_quoting(value: &str) -> (r: bool)
    ensures
        r == (value@.len() == 0 || !all_safe(value@)),
{
    let chars = str_to_chars(value);
    let n = chars.len();
    if n == 0 {
        return true;
    }
    let mut i: usize = 0;
    while i < n && safe_char(chars[i])
        invariant
            0 <= i <= n,
            n == chars@.len(),
            chars@ == value@,
            forall|k: int| 0 <= k < i ==> is_safe_char(chars@[k]),
        decreases n - i,
    {
        i += 1;
    }
    if i == n {
        false
    } else {
        proof {
            lemma_not_all_safe(value@, i as int);
        }
        true
    }
}

/// The quoted values joined by single spaces.
pub open spec fn spec_quote_all(vs: Seq<Seq<char>>) -> Seq<char>
    decreases vs.len(),
{
    if vs.len() == 0 {
        Seq::empty()
    } else if vs.len() == 1 {
        spec_quote(vs[0])
    } else {
        spec_quote(vs[0]) + " "@ + spec_quote_all(vs.drop_first())
    }
}

proof fn lemma_quote_all_snoc(vs: Seq<Seq<char>>, x: Seq<char>)
    ensures
        vs.len() == 0 ==> spec_quote_all(vs.push(x)) == spec_quote(x),
        vs.len() > 0 ==> spec_quote_all(vs.push(x)) == spec_quote_all(vs) + " "@ + spec_quote(x),
    decreases vs.len(),
{
    if vs.len() == 0 {
        assert(vs.push(x)[0] == x);
    } else {
        lemma_quote_all_snoc(vs.drop_first(), x);
        assert(vs.push(x).drop_first() =~= vs.drop_first().push(x));
        assert(vs.push(x)[0] == vs[0]);
        if vs.len() == 1 {
            assert(spec_quote_all(vs.push(x)) == spec_quote(vs[0]) + " "@ + spec_quote_all(
                vs.drop_first().push(x),
            ));
            assert(spec_quote_all(vs.drop_first().push(x)) == spec_quote(x));
        } else {
            assert(spec_quote_all(vs.push(x)) == spec_quote(vs[0]) + " "@ + spec_quote_all(
                vs.drop_first().push(x),
            ));
            assert(spec_quote(vs[0]) + " "@ + (spec_quote_all(vs.drop_first()) + " "@
                + spec_quote(x)) =~= (spec_quote(vs[0]) + " "@ + spec_quote_all(vs.drop_first()))
                + " "@ + spec_quote(x));
        }
    }
}

/// Quotes each value and joins them with spaces, ready to stand in a command
/// line.
#[verifier::loop_isolation(false)]
pub fn quote_all(values: &[&str]) -> (r: String)
    ensures
        r@ == spec_quote_all(values@.map_values(|v: &str| v@)),
{
    let ghost vs = values@.map_values(|v: &str| v@);
    let mut out = String::new();
    let mut i: usize = 0;
    while i < values.len()
        invariant
            0 <= i <= values@.len(),
            out@ == spec_quote_all(vs.subrange(0, i as int)),
        decreases values@.len() - i,
    {
        proof {
            assert(vs.subrange(0, i as int + 1) =~= vs.subrange(0, i as int).push(
                vs[i as int],
            ));
            lemma_quote_all_snoc(vs.subrange(0, i as int), vs[i as int]);
        }
        if i > 0 {
            out.append(" ");
        }
        let q = quote(values[i]);
        out.append(q.as_str());
        i += 1;
    }
    proof {
        assert(vs.subrange(0, vs.len() as int) =~= vs);
    }
    out
}

/// The command text built from template parts with one quoted value after
/// each part that has one.
pub open spec fn spec_build_command(parts: Seq<Seq<char>>, values: Seq<Seq<char>>, i: int)
    -> Seq<char>
    decreases parts.len() - i,
    when 0 <= i
{
    if i >= parts.len() {
        Seq::empty()
    } else {
        parts[i] + (if i < values.len() {
            spec_quote(values[i])
        } else {
            Seq::empty()
        }) + spec_build_command(parts, values, i + 1)
    }
}

/// Interleaves template parts with safely quoted interpolated values.
#[verifier::loop_isolation(false)]
pub fn build_shell_command(parts: &[&str], values: &[&str]) -> (r: String)
    ensures
        r@ == spec_build_command(
            parts@.map_values(|p: &str| p@),
            values@.map_values(|v: &str| v@),
            0,
        ),
{
    let ghost ps = parts@.map_values(|p: &str| p@);
    let ghost vs = values@.map_values(|v: &str| v@);
    let mut out = String::new();
    let mut i: usize = 0;
    while i < parts.len()
        invariant
            0 <= i <= parts@.len(),
            spec_build_command(ps, vs, 0) == out@ + spec_build_command(ps, vs, i as int),
        decreases parts@.len() - i,
    {
        out.append(parts[i]);
        if i < values.len() {
            let q = quote(values[i]);
            out.append(q.as_str());
        }
        i += 1;
    }
    proof {
        assert(spec_build_command(ps, vs, parts@.len() as int) =~= Seq::<char>::empty());
    }
    out
}

/// A character that ends no word and starts no operator or quote.
pub open spec fn is_plain(c: char) -> bool {
    !is_space(c) && !is_op_char(c) && c != '"' && c != '\'' && c != '\\'
}

proof fn lemma_word_end_plain(s: Seq<char>, i: int)
    requires
        0 <= i <= s.len(),
        forall|k: int| i <= k < s.len() ==> is_plain(s[k]),
    ensures
        word_end(s, i, false, ' ') == s.len(),
    decreases s.len() - i,
{
    if i < s.len() {
        lemma_word_end_plain(s, i + 1);
    }
}

/// Scanning a word inside single quotes runs to the end of the text when the
/// only single quote left is the final character.
proof fn lemma_scan_quoted(full: Seq<char>, i: int)
    requires
        2 <= full.len(),
        1 <= i <= full.len() - 1,
        full.last() == '\'',
        forall|k: int| i <= k < full.len() - 1 ==> full[k] != '\'',
    ensures
        word_end(full, i, true, '\'') == full.len(),
    decreases full.len() - i,
{
    let n = full.len() as int;
    let c = full[i];
    if i == n - 1 {
        assert(c == '\'');
        if !(i > 0 && full[i - 1] == '\\') {
            assert(word_end(full, i, true, '\'') == word_end(full, i + 1, false, '\''));
        } else {
            assert(word_end(full, i, true, '\'') == word_end(full, i + 1, true, '\''));
        }
    } else {
        assert(c != '\'');
        if c == '\\' && i + 1 < n && (full[i + 1] == '\'' || full[i + 1] == '\\') {
            if i + 1 == n - 1 {
                assert(word_end(full, i, true, '\'') == word_end(full, i + 2, true, '\''));
            } else {
                lemma_scan_quoted(full, i + 2);
            }
        } else {
            lemma_scan_quoted(full, i + 1);
        }
    }
}

/// A text of one single-quoted word tokenizes to that word and end-of-input.
proof fn lemma_tokenize_wrapped(mid: Seq<char>)
    requires
        forall|k: int| 0 <= k < mid.len() ==> mid[k] != '\'',
    ensures
        ({
            let full = seq!['\''] + mid + seq!['\''];
            spec_tokenize(full) == seq![TokenView::Word(full), TokenView::Eof]
        }),
{
    let full = seq!['\''] + mid + seq!['\''];
    let n = full.len() as int;
    assert(full[0] == '\'');
    assert(full.last() == '\'');
    assert forall|k: int| 1 <= k < n - 1 implies full[k] != '\'' by {
        assert(full[k] == mid[k - 1]);
    }
    lemma_scan_quoted(full, 1);
    assert(word_end(full, 0, false, ' ') == word_end(full, 1, true, '\''));
    let (t, j) = token_at(full, 0);
    assert(j == n);
    assert(full.subrange(0, n) =~= full);
    assert(tokens_from(full, 0) == seq![t] + tokens_from(full, n));
    assert(spec_tokenize(full) =~= seq![TokenView::Word(full), TokenView::Eof]);
}

/// A text of one plain word tokenizes to that word and end-of-input.
proof fn lemma_tokenize_plain(s: Seq<char>)
    requires
        s.len() >= 1,
        forall|k: int| 0 <= k < s.len() ==> is_plain(s[k]),
    ensures
        spec_tokenize(s) == seq![TokenView::Word(s), TokenView::Eof],
{
    let n = s.len() as int;
    lemma_word_end_plain(s, 0);
    let (t, j) = token_at(s, 0);
    assert(j == n);
    assert(s.subrange(0, n) =~= s);
    assert(tokens_from(s, 0) == seq![t] + tokens_from(s, n));
    assert(spec_tokenize(s) =~= seq![TokenView::Word(s), TokenView::Eof]);
}

proof fn lemma_quote_escaped_id(s: Seq<char>)
    requires
        forall|i: int| 0 <= i < s.len() ==> s[i] != '\'',
    ensures
        quote_escaped(s) == s,
    decreases s.len(),
{
    if s.len() > 0 {
        assert forall|i: int| 0 <= i < s.drop_first().len() implies s.drop_first()[i] != '\''
            by {
            assert(s.drop_first()[i] == s[i + 1]);
        }
        lemma_quote_escaped_id(s.drop_first());
        assert(seq![s.first()] + s.drop_first() =~= s);
    }
}

/// Law: for a value without single quotes, tokenizing the quoted value yields
/// exactly one word before end-of-input, and dequoting that word restores the
/// value exactly.
pub proof fn lemma_quote_round_trip(s: Seq<char>)
    requires
        forall|i: int| 0 <= i < s.len() ==> s[i] != '\'',
    ensures
        spec_tokenize(spec_quote(s)).len() == 2,
        spec_tokenize(spec_quote(s))[0] is Word,
        spec_tokenize(spec_quote(s))[1] is Eof,
        dequoted(spec_tokenize(spec_quote(s))[0]->Word_0).value == s,
{
    let q = spec_quote(s);
    if s.len() == 0 {
        reveal_strlit("''");
        assert(q =~= seq!['\''] + Seq::<char>::empty() + seq!['\'']);
        lemma_tokenize_wrapped(Seq::empty());
        assert(q.subrange(1, q.len() - 1) =~= s);
    } else if s.len() > 2 && s.first() == '"' && s.last() == '"' {
        lemma_tokenize_wrapped(s);
        assert(q == seq!['\''] + s + seq!['\'']);
        assert(q.subrange(1, q.len() - 1) =~= s);
    } else if all_safe(s) {
        assert forall|k: int| 0 <= k < s.len() implies is_plain(s[k]) by {
            assert(is_safe_char(s[k]));
        }
        lemma_tokenize_plain(s);
        assert(!(s[0] == '"' || s[0] == '\''));
    } else {
        lemma_quote_escaped_id(s);
        assert(q == seq!['\''] + s + seq!['\'']);
        lemma_tokenize_wrapped(s);
        assert(q.subrange(1, q.len() - 1) =~= s);
    }
}

} // verus!
