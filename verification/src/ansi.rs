//! Stripping of ANSI escape sequences and control characters from captured
//! output, with the exact shape of a recognised escape sequence spelled out.
use vstd::prelude::*;
use crate::text::{chars_to_string, str_to_chars};

verus! {

/// A parameter character inside an escape sequence: a digit or a semicolon.
pub open spec fn is_param(c: char) -> bool {
    ('0' <= c && c <= '9') || c == ';'
}

fn param_char(c: char) -> (r: bool)
    ensures
        r == is_param(c),
{
    ('0' <= c && c <= '9') || c == ';'
}

/// A letter that ends an escape sequence.
pub open spec fn is_final(c: char) -> bool {
    c == 'm' || c == 'G' || c == 'K' || c == 'H' || c == 'F' || c == 'J'
}

fn final_char(c: char) -> (r: bool)
    ensures
        r == is_final(c),
{
    c == 'm' || c == 'G' || c == 'K' || c == 'H' || c == 'F' || c == 'J'
}

/// The first position at or after `i` that does not hold a parameter
/// character.
pub open spec fn param_run_end(s: Seq<char>, i: int) -> int
    decreases s.len() - i,
{
    if 0 <= i < s.len() && is_param(s[i]) {
        param_run_end(s, i + 1)
    } else {
        i
    }
}

proof fn lemma_param_run_end_bounds(s: Seq<char>, i: int)
    requires
        0 <= i <= s.len(),
    ensures
        i <= param_run_end(s, i) <= s.len(),
    decreases s.len() - i,
{
    if i < s.len() && is_param(s[i]) {
        lemma_param_run_end_bounds(s, i + 1);
    }
}

/// Where the escape sequence starting at `i` ends, if one starts there: the
/// escape character, an opening bracket, any run of parameters, and one final
/// letter.
pub open spec fn ansi_end(s: Seq<char>, i: int) -> Option<int> {
    if 0 <= i && i + 1 < s.len() && s[i] == '\u{1b}' && s[i + 1] == '[' {
        let j = param_run_end(s, i + 2);
        if j < s.len() && is_final(s[j]) {
            Some(j + 1)
        } else {
            None
        }
    } else {
        None
    }
}

/// The text from position `i` on with every escape sequence removed, scanning
/// left to right without overlap.
pub open spec fn strip_ansi_from(s: Seq<char>, i: int) -> Seq<char>
    decreases s.len() - i,
    when 0 <= i
    via strip_ansi_from_decreases
{
    if i >= s.len() {
        Seq::empty()
    } else {
        match ansi_end(s, i) {
            Some(j) => strip_ansi_from(s, j),
            None => seq![s[i]] + strip_ansi_from(s, i + 1),
        }
    }
}

#[via_fn]
proof fn strip_ansi_from_decreases(s: Seq<char>, i: int) {
    if 0 <= i < s.len() && ansi_end(s, i) is Some {
        lemma_param_run_end_bounds(s, i + 2);
    }
}

/// The text with every ANSI escape sequence removed.
pub open spec fn spec_strip_ansi(s: Seq<char>) -> Seq<char> {
    strip_ansi_from(s, 0)
}

/// A character that survives control stripping: anything but the control
/// range, except newline, carriage return and tab.
pub open spec fn keeps_control(c: char) -> bool {
    !((c as u32 <= 0x08) || c as u32 == 0x0B || c as u32 == 0x0C || (0x0E <= c as u32 && c as u32
        <= 0x1F) || c as u32 == 0x7F)
}

fn keep_control_char(c: char) -> (r: bool)
    ensures
        r == keeps_control(c),
{
    let u = c as u32;
    !((u <= 0x08) || u == 0x0B || u == 0x0C || (0x0E <= u && u <= 0x1F) || u == 0x7F)
}

/// The text with every stripped control character removed.
pub open spec fn spec_strip_control(s: Seq<char>) -> Seq<char>
    decreases s.len(),
{
    if s.len() == 0 {
        Seq::empty()
    } else if keeps_control(s.first()) {
        seq![s.first()] + spec_strip_control(s.drop_first())
    } else {
        spec_strip_control(s.drop_first())
    }
}

/// Helpers that strip ANSI escape sequences and control characters from
/// captured output.
pub struct AnsiUtils;

impl AnsiUtils {
    /// Removes every ANSI escape sequence — colour, cursor and erase codes —
    /// and keeps all other text.
    #[verifier::loop_isolation(false)]
    pub fn strip_ansi(text: &str) -> (r: String)
        ensures
            r@ == spec_strip_ansi(text@),
    {
        let chars = str_to_chars(text);
        let n = chars.len();
        let mut out: Vec<char> = Vec::new();
        let mut i: usize = 0;
        proof {
            assert(out@ + strip_ansi_from(text@, 0) =~= strip_ansi_from(text@, 0));
        }
        while i < n
            invariant
                0 <= i <= n,
                spec_strip_ansi(text@) == out@ + strip_ansi_from(text@, i as int),
            decreases n - i,
        {
            if chars[i] == '\u{1b}' && i + 1 < n && chars[i + 1] == '[' {
                let mut j: usize = i + 2;
                while j < n && param_char(chars[j])
                    invariant
                        i + 2 <= j <= n,
                        param_run_end(text@, i as int + 2) == param_run_end(text@, j as int),
                    decreases n - j,
                {
                    j += 1;
                }
                if j < n && final_char(chars[j]) {
                    proof {
                        assert(ansi_end(text@, i as int) == Some(j as int + 1));
                    }
                    i = j + 1;
                    continue;
                }
            }
            let ghost pre = out@;
            out.push(chars[i]);
            proof {
                assert(ansi_end(text@, i as int) is None);
                assert(out@ =~= pre + seq![text@[i as int]]);
                assert(pre + (seq![text@[i as int]] + strip_ansi_from(text@, i as int + 1)) =~= (
                pre + seq![text@[i as int]]) + strip_ansi_from(text@, i as int + 1));
            }
            i += 1;
        }
        proof {
            assert(strip_ansi_from(text@, n as int) =~= Seq::<char>::empty());
            assert(out@ =~= spec_strip_ansi(text@));
        }
        chars_to_string(&out)
    }

    /// Removes control characters, keeping newlines, carriage returns and
    /// tabs.
    #[verifier::loop_isolation(false)]
    pub fn strip_control_chars(text: &str) -> (r: String)
        ensures
            r@ == spec_strip_control(text@),
    {
        let chars = str_to_chars(text);
        let n = chars.len();
        let mut out: Vec<char> = Vec::new();
        let mut i: usize = 0;
        proof {
            assert(text@.skip(0) =~= text@);
            assert(out@ + spec_strip_control(text@) =~= spec_strip_control(text@));
        }
        while i < n
            invariant
                0 <= i <= n,
                spec_strip_control(text@) == out@ + spec_strip_control(text@.skip(i as int)),
            decreases n - i,
        {
            let ghost suffix = text@.skip(i as int);
            proof {
                assert(suffix.first() == text@[i as int]);
                assert(suffix.drop_first() =~= text@.skip(i as int + 1));
            }
            let c = chars[i];
            if keep_control_char(c) {
                let ghost pre = out@;
                out.push(c);
                proof {
                    assert(out@ =~= pre + seq![c]);
                    assert(pre + (seq![c] + spec_strip_control(text@.skip(i as int + 1))) =~= (pre
                        + seq![c]) + spec_strip_control(text@.skip(i as int + 1)));
                }
            }
            i += 1;
        }
        proof {
            assert(text@.skip(n as int) =~= Seq::<char>::empty());
            assert(out@ =~= spec_strip_control(text@));
        }
        chars_to_string(&out)
    }

    /// Removes ANSI escape sequences first and control characters second.
    pub fn strip_all(text: &str) -> (r: String)
        ensures
            r@ == spec_strip_control(spec_strip_ansi(text@)),
    {
        let stripped = Self::strip_ansi(text);
        Self::strip_control_chars(stripped.as_str())
    }

    /// Cleans data for further processing: both kinds of stripping.
    pub fn clean_for_processing(data: &str) -> (r: String)
        ensures
            r@ == spec_strip_control(spec_strip_ansi(data@)),
    {
        Self::strip_all(data)
    }
}

/// What `AnsiConfig::process_output` yields for given preservation flags.
pub open spec fn spec_process_output(
    preserve_ansi: bool,
    preserve_control: bool,
    s: Seq<char>,
) -> Seq<char> {
    if !preserve_ansi && !preserve_control {
        spec_strip_control(spec_strip_ansi(s))
    } else if !preserve_ansi {
        spec_strip_ansi(s)
    } else if !preserve_control {
        spec_strip_control(s)
    } else {
        s
    }
}

/// Which parts of raw output survive processing.
#[derive(Debug, Clone, Copy, PartialEq, Eq, Structural)]
pub struct AnsiConfig {
    /// Keep ANSI escape sequences in output.
    pub preserve_ansi: bool,
    /// Keep control characters in output.
    pub preserve_control_chars: bool,
}

impl Default for AnsiConfig {
    /// The default keeps everything.
    fn default() -> (c: AnsiConfig)
        ensures
            c.preserve_ansi && c.preserve_control_chars,
    {
        AnsiConfig { preserve_ansi: true, preserve_control_chars: true }
    }
}

impl AnsiConfig {
    /// The configuration that keeps everything.
    pub fn new() -> (c: AnsiConfig)
        ensures
            c.preserve_ansi && c.preserve_control_chars,
    {
        AnsiConfig { preserve_ansi: true, preserve_control_chars: true }
    }

    /// The configuration that strips both escape sequences and control
    /// characters.
    pub fn strip_all() -> (c: AnsiConfig)
        ensures
            !c.preserve_ansi && !c.preserve_control_chars,
    {
        AnsiConfig { preserve_ansi: false, preserve_control_chars: false }
    }

    /// Applies the configured stripping to one chunk of output.
    pub fn process_output(&self, data: &str) -> (r: String)
        ensures
            r@ == spec_process_output(self.preserve_ansi, self.preserve_control_chars, data@),
    {
        if !self.preserve_ansi && !self.preserve_control_chars {
            AnsiUtils::clean_for_processing(data)
        } else if !self.preserve_ansi {
            AnsiUtils::strip_ansi(data)
        } else if !self.preserve_control_chars {
            AnsiUtils::strip_control_chars(data)
        } else {
            data.to_owned()
        }
    }
}

} // verus!
