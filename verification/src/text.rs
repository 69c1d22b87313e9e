//! Character-level helpers shared by the tokenizer, the quoting rules and the
//! virtual commands: character classes, string/char-vector conversions and a
//! decimal integer reader.
use vstd::prelude::*;

verus! {

/// The Unicode white-space characters, as `char::is_whitespace` counts them.
pub open spec fn is_space(c: char) -> bool {
    ||| c == ' '
    ||| c == '\t'
    ||| c == '\n'
    ||| c == '\r'
    ||| c == '\u{0b}'
    ||| c == '\u{0c}'
    ||| c == '\u{85}'
    ||| c == '\u{a0}'
    ||| c == '\u{1680}'
    ||| ('\u{2000}' <= c && c <= '\u{200a}')
    ||| c == '\u{2028}'
    ||| c == '\u{2029}'
    ||| c == '\u{202f}'
    ||| c == '\u{205f}'
    ||| c == '\u{3000}'
}

/// White-space test on one character.
pub fn space_char(c: char) -> (r: bool)
    ensures
        r == is_space(c),
{
    c == ' ' || c == '\t' || c == '\n' || c == '\r' || c == '\u{0b}' || c == '\u{0c}'
        || c == '\u{85}' || c == '\u{a0}' || c == '\u{1680}' || ('\u{2000}' <= c && c
        <= '\u{200a}') || c == '\u{2028}' || c == '\u{2029}' || c == '\u{202f}' || c == '\u{205f}'
        || c == '\u{3000}'
}

/// The characters that end an unquoted word and start an operator token.
pub open spec fn is_op_char(c: char) -> bool {
    c == '&' || c == '|' || c == ';' || c == '(' || c == ')' || c == '<' || c == '>'
}

/// Operator-character test.
pub fn op_char(c: char) -> (r: bool)
    ensures
        r == is_op_char(c),
{
    c == '&' || c == '|' || c == ';' || c == '(' || c == ')' || c == '<' || c == '>'
}

/// Relies on `str::chars` and `Iterator::collect`: the characters of the
/// string, in order.
#[verifier::external_body]
pub fn str_to_chars(s: &str) -> (v: Vec<char>)
    ensures
        v@ == s@,
{
    s.chars().collect()
}

/// Relies on `String::from_iter` over characters: the string made of exactly
/// the given characters, in order.
#[verifier::external_body]
pub fn chars_to_string(v: &Vec<char>) -> (s: String)
    ensures
        s@ == v@,
{
    v.iter().collect()
}

/// Equality of two strings, decided character by character.
pub fn str_eq(a: &str, b: &str) -> (r: bool)
    ensures
        r == (a@ == b@),
{
    let av = str_to_chars(a);
    let bv = str_to_chars(b);
    if av.len() != bv.len() {
        return false;
    }
    let mut i: usize = 0;
    while i < av.len()
        invariant
            i <= av.len(),
            av.len() == bv.len(),
            av@ == a@,
            bv@ == b@,
            forall|j: int| 0 <= j < i ==> av@[j] == bv@[j],
        decreases av.len() - i,
    {
        if av[i] != bv[i] {
            return false;
        }
        i += 1;
    }
    proof {
        assert(a@ =~= b@);
    }
    true
}

/// Decimal digit test.
pub open spec fn is_digit(c: char) -> bool {
    '0' <= c && c <= '9'
}

/// The numeric value of a decimal digit.
pub open spec fn digit_val(c: char) -> int {
    c as int - '0' as int
}

/// The value of a digit sequence read left to right.
pub open spec fn digits_val(s: Seq<char>) -> int
    decreases s.len(),
{
    if s.len() == 0 {
        0
    } else {
        digits_val(s.drop_last()) * 10 + digit_val(s.last())
    }
}

/// True when every character of the sequence is a decimal digit.
pub open spec fn all_digits(s: Seq<char>) -> bool {
    forall|i: int| 0 <= i < s.len() ==> is_digit(s[i])
}

/// The digits of a decimal string, its optional leading sign removed.
pub open spec fn sign_stripped(s: Seq<char>) -> Seq<char> {
    if s.len() > 0 && (s[0] == '+' || s[0] == '-') {
        s.drop_first()
    } else {
        s
    }
}

/// The mathematical integer denoted by a decimal string: an optional sign
/// followed by at least one digit and nothing else, as `i64::from_str` reads
/// it.
pub open spec fn parsed_int(s: Seq<char>) -> Option<int> {
    let ds = sign_stripped(s);
    if ds.len() > 0 && all_digits(ds) {
        if s.len() > 0 && s[0] == '-' {
            Some(-digits_val(ds))
        } else {
            Some(digits_val(ds))
        }
    } else {
        None
    }
}

/// A string with a non-digit after its optional sign denotes no integer.
proof fn lemma_parsed_int_none(s: Seq<char>, k: int)
    requires
        0 <= k < sign_stripped(s).len(),
        !is_digit(sign_stripped(s)[k]),
    ensures
        parsed_int(s) is None,
{
    let ds = sign_stripped(s);
    if parsed_int(s) is Some {
        assert(all_digits(ds));
        assert(is_digit(ds[k]));
    }
}

/// What `str::parse::<i64>` returns: the denoted integer where the string is
/// well-formed and the value fits, nothing otherwise.
pub open spec fn parsed_i64(s: Seq<char>) -> Option<i64> {
    match parsed_int(s) {
        Some(v) => if i64::MIN <= v <= i64::MAX {
            Some(v as i64)
        } else {
            None
        },
        None => None,
    }
}

/// What `str::parse::<i32>` returns.
pub open spec fn parsed_i32(s: Seq<char>) -> Option<i32> {
    match parsed_int(s) {
        Some(v) => if i32::MIN <= v <= i32::MAX {
            Some(v as i32)
        } else {
            None
        },
        None => None,
    }
}

proof fn lemma_digits_val_bounds(s: Seq<char>)
    requires
        forall|i: int| 0 <= i < s.len() ==> is_digit(s[i]),
    ensures
        0 <= digits_val(s),
        s.len() > 0 && digit_val(s[0]) >= 1 ==> digits_val(s) >= pow10((s.len() - 1) as nat),
        digits_val(s) < pow10(s.len()),
    decreases s.len(),
{
    if s.len() == 0 {
    } else {
        lemma_digits_val_bounds(s.drop_last());
        if s.len() > 1 {
            assert(s.drop_last()[0] == s[0]);
        }
        assert(pow10(s.len()) == pow10((s.len() - 1) as nat) * 10);
    }
}

/// Ten to the given power.
pub open spec fn pow10(n: nat) -> int
    decreases n,
{
    if n == 0 {
        1
    } else {
        pow10((n - 1) as nat) * 10
    }
}

proof fn lemma_pow10_monotone(a: nat, b: nat)
    requires
        a <= b,
    ensures
        pow10(a) <= pow10(b),
        1 <= pow10(a),
    decreases b,
{
    if b > 0 {
        if a == b {
            lemma_pow10_monotone((a - 1) as nat, (b - 1) as nat);
        } else {
            lemma_pow10_monotone(a, (b - 1) as nat);
        }
    }
}

/// Leading zeroes do not change the value of a digit string.
proof fn lemma_digits_drop_leading_zero(s: Seq<char>)
    requires
        s.len() > 0,
        s[0] == '0',
    ensures
        digits_val(s) == digits_val(s.drop_first()),
    decreases s.len(),
{
    if s.len() == 1 {
        assert(s.drop_last().len() == 0);
        assert(s.drop_first().len() == 0);
        assert(digits_val(s.drop_last()) == 0);
        assert(digits_val(s.drop_first()) == 0);
        assert(s.last() == '0');
    } else {
        lemma_digits_drop_leading_zero(s.drop_last());
        assert(s.drop_last()[0] == s[0]);
        assert(s.drop_first().drop_last() =~= s.drop_last().drop_first());
        assert(s.drop_first().last() == s.last());
    }
}

/// Reads the digits `s[from..]` left to right, all of them decimal digits,
/// returning their value where it stays within `limit`.
fn read_digits(s: &Vec<char>, from: usize, limit: u64) -> (r: Option<u64>)
    requires
        from <= s@.len(),
        limit <= 9223372036854775808u64,
        forall|i: int| from <= i < s@.len() ==> is_digit(s@[i]),
    ensures
        match r {
            Some(v) => v == digits_val(s@.skip(from as int)) && v <= limit,
            None => digits_val(s@.skip(from as int)) > limit,
        },
{
    // Skip leading zeroes so that the digit count bounds the value.
    let ghost whole = s@.skip(from as int);
    let mut start: usize = from;
    while start < s.len() && s[start] == '0'
        invariant
            from <= start <= s@.len(),
            forall|i: int| from <= i < s@.len() ==> is_digit(s@[i]),
            digits_val(s@.skip(from as int)) == digits_val(s@.skip(start as int)),
        decreases s@.len() - start,
    {
        proof {
            lemma_digits_drop_leading_zero(s@.skip(start as int));
            assert(s@.skip(start as int).drop_first() =~= s@.skip(start as int + 1));
        }
        start += 1;
    }
    if s.len() - start > 19 {
        // At least twenty digits with a non-zero lead: the value is at least
        // ten to the nineteenth, past any sixty-four-bit limit.
        proof {
            let ds = s@.skip(start as int);
            lemma_digits_val_bounds(ds);
            lemma_pow10_monotone(19, (ds.len() - 1) as nat);
            assert(pow10(19) == 10000000000000000000) by {
                reveal_with_fuel(pow10, 20);
            }
        }
        return None;
    }
    let mut acc: u64 = 0;
    let mut i: usize = start;
    while i < s.len()
        invariant
            from <= start <= i <= s@.len(),
            s@.len() - start <= 19,
            forall|j: int| from <= j < s@.len() ==> is_digit(s@[j]),
            acc == digits_val(s@.subrange(start as int, i as int)),
            acc < pow10((i - start) as nat),
        decreases s@.len() - i,
    {
        proof {
            lemma_pow10_monotone((i - start) as nat, 18);
            assert(pow10(18) == 1000000000000000000) by {
                reveal_with_fuel(pow10, 19);
            }
            assert(s@.subrange(start as int, i as int + 1).drop_last() =~= s@.subrange(
                start as int,
                i as int,
            ));
            assert(s@.subrange(start as int, i as int + 1).last() == s@[i as int]);
            assert(is_digit(s@[i as int]));
        }
        let d: u64 = (s[i] as u32 - '0' as u32) as u64;
        acc = acc * 10 + d;
        i += 1;
    }
    proof {
        assert(s@.subrange(start as int, s@.len() as int) =~= s@.skip(start as int));
    }
    if acc <= limit {
        Some(acc)
    } else {
        None
    }
}

/// Reads a decimal integer as `str::parse::<i64>` does.
#[verifier::loop_isolation(false)]
pub fn parse_i64_chars(s: &Vec<char>) -> (r: Option<i64>)
    ensures
        r == parsed_i64(s@),
{
    let negative = s.len() > 0 && s[0] == '-';
    let signed = s.len() > 0 && (s[0] == '+' || s[0] == '-');
    let from: usize = if signed {
        1
    } else {
        0
    };
    let ghost ds = if signed {
        s@.drop_first()
    } else {
        s@
    };
    proof {
        if signed {
            assert(s@.skip(1) =~= s@.drop_first());
        } else {
            assert(s@.skip(0) =~= s@);
        }
    }
    if s.len() == from {
        return None;
    }
    let mut i: usize = from;
    while i < s.len()
        invariant
            from <= i <= s@.len(),
            forall|j: int| from <= j < i ==> is_digit(s@[j]),
        decreases s@.len() - i,
    {
        let c = s[i];
        if c < '0' || c > '9' {
            proof {
                let k = i - from;
                assert(ds[k as int] == s@[i as int]);
                lemma_parsed_int_none(s@, k as int);
            }
            return None;
        }
        i += 1;
    }
    let limit: u64 = if negative {
        9223372036854775808u64
    } else {
        9223372036854775807u64
    };
    match read_digits(s, from, limit) {
        Some(v) => if negative {
            if v == 9223372036854775808u64 {
                Some(i64::MIN)
            } else {
                Some(-((v) as i64))
            }
        } else {
            Some(v as i64)
        },
        None => None,
    }
}

/// Reads a decimal integer as `str::parse::<i64>` does.
pub fn parse_i64_str(s: &str) -> (r: Option<i64>)
    ensures
        r == parsed_i64(s@),
{
    let v = str_to_chars(s);
    parse_i64_chars(&v)
}

/// Reads a decimal integer as `str::parse::<i32>` does.
pub fn parse_i32_str(s: &str) -> (r: Option<i32>)
    ensures
        r == parsed_i32(s@),
{
    let v = str_to_chars(s);
    match parse_i64_chars(&v) {
        Some(x) => if -2147483648i64 <= x && x <= 2147483647i64 {
            Some(x as i32)
        } else {
            None
        },
        None => None,
    }
}

/// Where the white-space-delimited word starting at `i` ends.
pub open spec fn ws_word_end(s: Seq<char>, i: int) -> int
    decreases s.len() - i,
{
    if 0 <= i < s.len() && !is_space(s[i]) {
        ws_word_end(s, i + 1)
    } else {
        i
    }
}

proof fn lemma_ws_word_end_bounds(s: Seq<char>, i: int)
    requires
        0 <= i <= s.len(),
    ensures
        i <= ws_word_end(s, i) <= s.len(),
    decreases s.len() - i,
{
    if i < s.len() && !is_space(s[i]) {
        lemma_ws_word_end_bounds(s, i + 1);
    }
}

/// The white-space-separated words of the text from position `i` on.
pub open spec fn split_ws_from(s: Seq<char>, i: int) -> Seq<Seq<char>>
    decreases s.len() - i,
    when 0 <= i
    via split_ws_from_decreases
{
    if i >= s.len() {
        Seq::empty()
    } else if is_space(s[i]) {
        split_ws_from(s, i + 1)
    } else {
        let e = ws_word_end(s, i);
        seq![s.subrange(i, e)] + split_ws_from(s, e)
    }
}

#[via_fn]
proof fn split_ws_from_decreases(s: Seq<char>, i: int) {
    if 0 <= i < s.len() && !is_space(s[i]) {
        lemma_ws_word_end_bounds(s, i + 1);
    }
}

/// The white-space-separated words of a text.
pub open spec fn spec_split_ws(s: Seq<char>) -> Seq<Seq<char>> {
    split_ws_from(s, 0)
}

/// Splits a text at white space.
#[verifier::loop_isolation(false)]
pub fn split_whitespace_words(s: &str) -> (r: Vec<String>)
    ensures
        r@.map_values(|w: String| w@) == spec_split_ws(s@),
{
    let chars = str_to_chars(s);
    let n = chars.len();
    let mut words: Vec<String> = Vec::new();
    let mut i: usize = 0;
    proof {
        assert(words@.map_values(|w: String| w@) =~= Seq::<Seq<char>>::empty());
    }
    while i < n
        invariant
            0 <= i <= n,
            spec_split_ws(s@) == words@.map_values(|w: String| w@) + split_ws_from(s@, i as int),
        decreases n - i,
    {
        if space_char(chars[i]) {
            i += 1;
            continue;
        }
        let start = i;
        while i < n && !space_char(chars[i])
            invariant
                start <= i <= n,
                ws_word_end(s@, start as int) == ws_word_end(s@, i as int),
            decreases n - i,
        {
            i += 1;
        }
        let mut word: Vec<char> = Vec::new();
        let mut k = start;
        while k < i
            invariant
                start <= k <= i,
                word@ == s@.subrange(start as int, k as int),
            decreases i - k,
        {
            proof {
                assert(s@.subrange(start as int, k as int + 1) =~= s@.subrange(
                    start as int,
                    k as int,
                ) + seq![s@[k as int]]);
            }
            word.push(chars[k]);
            k += 1;
        }
        let ghost pre = words@;
        words.push(chars_to_string(&word));
        proof {
            assert(words@.map_values(|w: String| w@) =~= pre.map_values(|w: String| w@) + seq![
                s@.subrange(start as int, i as int),
            ]);
            assert(split_ws_from(s@, start as int) =~= seq![s@.subrange(start as int, i as int)]
                + split_ws_from(s@, i as int));
            assert(pre.map_values(|w: String| w@) + (seq![s@.subrange(start as int, i as int)]
                + split_ws_from(s@, i as int)) =~= (pre.map_values(|w: String| w@) + seq![
                s@.subrange(start as int, i as int),
            ]) + split_ws_from(s@, i as int));
        }
    }
    proof {
        assert(split_ws_from(s@, n as int) =~= Seq::<Seq<char>>::empty());
        assert(spec_split_ws(s@) =~= words@.map_values(|w: String| w@));
    }
    words
}

} // verus!
