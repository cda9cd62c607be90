//! The runtime configuration of one program invocation: which
//! manipulation to apply, the output raster mode, and the input and
//! output paths, parsed from the command-line words.

use vstd::prelude::*;
use vstd::string::StrSliceExecFns;

verus! {

/// The possible manipulation options, including "Do Nothing".
#[derive(Debug, Clone, Copy, PartialEq, Eq, Structural)]
pub enum ManipOption {
    DoNothing,
    Negate,
    Brighten(usize),
    Sharpen,
    Smooth,
    Grayscale,
    Contrast,
}

/// Output mode for the image written out.
#[derive(Debug, Clone, Copy, PartialEq, Eq, Structural)]
pub enum OutputMode {
    Ascii,
    Binary,
}

/// The runtime options for a single invocation.
#[derive(Debug, PartialEq)]
pub struct ProgOpts {
    pub op: ManipOption,
    pub mode: OutputMode,
    pub infile: String,
    pub outfile: String,
}

/// The mathematical model of a parsed option set.
pub struct ProgOptsView {
    pub op: ManipOption,
    pub mode: OutputMode,
    pub infile: Seq<char>,
    pub outfile: Seq<char>,
}

impl View for ProgOpts {
    type V = ProgOptsView;

    open spec fn view(&self) -> ProgOptsView {
        ProgOptsView {
            op: self.op,
            mode: self.mode,
            infile: self.infile@,
            outfile: self.outfile@,
        }
    }
}

/// Whether a character is a decimal digit.
pub open spec fn is_digit_char(c: char) -> bool {
    48 <= c as int <= 57
}

/// Every character of `s` is a decimal digit.
pub open spec fn all_digit_chars(s: Seq<char>) -> bool {
    forall|i: int| 0 <= i < s.len() ==> is_digit_char(s[i])
}

/// The number denoted by a digit string, most significant digit first.
pub open spec fn dec_value_chars(s: Seq<char>) -> int
    decreases s.len(),
{
    if s.len() == 0 {
        0
    } else {
        dec_value_chars(s.drop_last()) * 10 + (s.last() as int - 48)
    }
}

/// The value of a decimal word: nonempty, all digits, and machine-sized.
pub open spec fn spec_parse_amount(s: Seq<char>) -> Option<int> {
    if s.len() >= 1 && all_digit_chars(s) && dec_value_chars(s) <= usize::MAX {
        Some(dec_value_chars(s))
    } else {
        None
    }
}

/// The manipulation selected by a single-flag word, if any.
pub open spec fn spec_flag_op(a: Seq<char>) -> Option<ManipOption> {
    if a == seq!['-', 'c'] {
        Some(ManipOption::Contrast)
    } else if a == seq!['-', 'g'] {
        Some(ManipOption::Grayscale)
    } else if a == seq!['-', 'n'] {
        Some(ManipOption::Negate)
    } else if a == seq!['-', 'p'] {
        Some(ManipOption::Sharpen)
    } else if a == seq!['-', 's'] {
        Some(ManipOption::Smooth)
    } else {
        None
    }
}

/// The output mode selected by the third-to-last word, if any.
pub open spec fn spec_mode(a: Seq<char>) -> Option<OutputMode> {
    if a == seq!['-', 'o', 'a'] {
        Some(OutputMode::Ascii)
    } else if a == seq!['-', 'o', 'b'] {
        Some(OutputMode::Binary)
    } else {
        None
    }
}

/// What parsing a word list into program options yields: three words are
/// mode, input and output; four words start with a manipulation flag;
/// five words start with `-b` and its amount; anything else is rejected,
/// as is an unknown flag, a bad amount, or a bad mode word.
pub open spec fn spec_parse(args: Seq<Seq<char>>) -> Option<ProgOptsView> {
    let n = args.len() as int;
    if n < 3 || n > 5 {
        None
    } else {
        let op = if n == 3 {
            Some(ManipOption::DoNothing)
        } else if n == 4 {
            spec_flag_op(args[0])
        } else {
            if args[0] == seq!['-', 'b'] {
                match spec_parse_amount(args[1]) {
                    Some(v) => Some(ManipOption::Brighten(v as usize)),
                    None => None,
                }
            } else {
                None
            }
        };
        match op {
            None => None,
            Some(op) => match spec_mode(args[n - 3]) {
                None => None,
                Some(mode) => Some(
                    ProgOptsView { op, mode, infile: args[n - 2], outfile: args[n - 1] },
                ),
            },
        }
    }
}

/// Compares two string slices character for character.
fn str_eq(a: &str, b: &str) -> (r: bool)
    ensures
        r == (a@ == b@),
{
    let la = a.unicode_len();
    let lb = b.unicode_len();
    if la != lb {
        return false;
    }
    let mut i: usize = 0;
    while i < la
        invariant
            0 <= i <= la,
            la == a@.len(),
            la == b@.len(),
            forall|j: int| 0 <= j < i ==> a@[j] == b@[j],
        decreases la - i,
    {
        if a.get_char(i) != b.get_char(i) {
            return false;
        }
        i = i + 1;
    }
    proof {
        assert(a@ =~= b@);
    }
    true
}

/// Parses a word as a decimal amount, failing on an empty word, a
/// non-digit character, or a value that does not fit in `usize`.
fn parse_amount(s: &str) -> (r: Option<usize>)
    ensures
        match r {
            Some(v) => spec_parse_amount(s@) == Some(v as int),
            None => spec_parse_amount(s@) is None,
        },
{
    let n = s.unicode_len();
    if n == 0 {
        return None;
    }
    let mut acc: usize = 0;
    let mut i: usize = 0;
    while i < n
        invariant
            0 <= i <= n,
            n == s@.len(),
            all_digit_chars(s@.subrange(0, i as int)),
            acc == dec_value_chars(s@.subrange(0, i as int)),
        decreases n - i,
    {
        let c = s.get_char(i);
        let u = c as u32;
        if u < 48 || u > 57 {
            assert(!is_digit_char(s@[i as int]));
            return None;
        }
        let d = (u - 48) as usize;
        let ghost pre = s@.subrange(0, i as int);
        let ghost pre2 = s@.subrange(0, i + 1);
        proof {
            assert(pre2.drop_last() =~= pre);
            assert(pre2.last() == s@[i as int]);
            assert(all_digit_chars(pre2));
        }
        let next = match acc.checked_mul(10) {
            Some(x) => x.checked_add(d),
            None => None,
        };
        match next {
            Some(x) => {
                acc = x;
            },
            None => {
                proof {
                    if all_digit_chars(s@) {
                        lemma_dec_chars_prefix(s@, i + 1);
                    }
                }
                return None;
            },
        }
        i = i + 1;
    }
    proof {
        assert(s@.subrange(0, n as int) =~= s@);
    }
    Some(acc)
}

proof fn lemma_dec_chars_nonneg(s: Seq<char>)
    requires
        all_digit_chars(s),
    ensures
        dec_value_chars(s) >= 0,
    decreases s.len(),
{
    if s.len() > 0 {
        assert(all_digit_chars(s.drop_last()));
        lemma_dec_chars_nonneg(s.drop_last());
    }
}

/// Extending a digit word on the right can only grow its value.
proof fn lemma_dec_chars_prefix(s: Seq<char>, k: int)
    requires
        all_digit_chars(s),
        0 <= k <= s.len(),
    ensures
        dec_value_chars(s.subrange(0, k)) <= dec_value_chars(s),
    decreases s.len() - k,
{
    if k < s.len() {
        let t = s.subrange(0, k + 1);
        assert(t.drop_last() =~= s.subrange(0, k));
        assert(all_digit_chars(t.drop_last()));
        lemma_dec_chars_nonneg(t.drop_last());
        assert(dec_value_chars(t) == dec_value_chars(s.subrange(0, k)) * 10 + (s[k] as int - 48));
        lemma_dec_chars_prefix(s, k + 1);
        assert(s.subrange(0, s.len() as int) =~= s);
    } else {
        assert(s.subrange(0, k) =~= s);
    }
}

impl ProgOpts {
    /// Parses the given command line words into explicit program options.
    ///
    /// Exactly the word lists accepted by [`spec_parse`] are accepted;
    /// every other list is rejected with an error message.
    pub fn parse(args: Vec<String>) -> (r: Result<ProgOpts, String>)
        ensures
            match r {
                Ok(o) => spec_parse(args.deep_view()) == Some(o@),
                Err(_) => spec_parse(args.deep_view()) is None,
            },
    {
        proof {
            reveal_strlit("-c");
            reveal_strlit("-g");
            reveal_strlit("-n");
            reveal_strlit("-p");
            reveal_strlit("-s");
            reveal_strlit("-b");
            reveal_strlit("-oa");
            reveal_strlit("-ob");
            assert("-c"@ =~= seq!['-', 'c']);
            assert("-g"@ =~= seq!['-', 'g']);
            assert("-n"@ =~= seq!['-', 'n']);
            assert("-p"@ =~= seq!['-', 'p']);
            assert("-s"@ =~= seq!['-', 's']);
            assert("-b"@ =~= seq!['-', 'b']);
            assert("-oa"@ =~= seq!['-', 'o', 'a']);
            assert("-ob"@ =~= seq!['-', 'o', 'b']);
            assert(args.deep_view() =~= Seq::new(
                args@.len(),
                |i: int| args@[i]@,
            ));
        }
        let n = args.len();
        if n < 3 || n > 5 {
            return Err("expected between three and five arguments".to_owned());
        }
        let op = if n == 3 {
            ManipOption::DoNothing
        } else if n == 4 {
            if str_eq(args[0].as_str(), "-c") {
                ManipOption::Contrast
            } else if str_eq(args[0].as_str(), "-g") {
                ManipOption::Grayscale
            } else if str_eq(args[0].as_str(), "-n") {
                ManipOption::Negate
            } else if str_eq(args[0].as_str(), "-p") {
                ManipOption::Sharpen
            } else if str_eq(args[0].as_str(), "-s") {
                ManipOption::Smooth
            } else {
                return Err("unexpected option".to_owned());
            }
        } else {
            if str_eq(args[0].as_str(), "-b") {
                match parse_amount(args[1].as_str()) {
                    Some(v) => ManipOption::Brighten(v),
                    None => {
                        return Err("the brighten amount must be a number".to_owned());
                    },
                }
            } else {
                return Err("unexpected option".to_owned());
            }
        };
        let mode = if str_eq(args[n - 3].as_str(), "-oa") {
            OutputMode::Ascii
        } else if str_eq(args[n - 3].as_str(), "-ob") {
            OutputMode::Binary
        } else {
            return Err("expected an output mode of -oa or -ob".to_owned());
        };
        Ok(
            ProgOpts {
                op,
                mode,
                infile: args[n - 2].clone(),
                outfile: args[n - 1].clone(),
            },
        )
    }
}

/// Whether a character separates words on a command line.
pub open spec fn is_ws_char(c: char) -> bool {
    c as int == 32 || 9 <= c as int <= 13
}

/// One pass of the word splitter from position `i`: splits on runs of
/// whitespace, never yielding an empty word.
pub open spec fn split_from(
    s: Seq<char>,
    i: int,
    in_tok: bool,
    start: int,
    acc: Seq<Seq<char>>,
) -> Seq<Seq<char>>
    decreases s.len() - i,
{
    if i < 0 {
        acc
    } else if i >= s.len() {
        if in_tok {
            acc.push(s.subrange(start, s.len() as int))
        } else {
            acc
        }
    } else {
        if in_tok {
            if is_ws_char(s[i]) {
                split_from(s, i + 1, false, start, acc.push(s.subrange(start, i)))
            } else {
                split_from(s, i + 1, true, start, acc)
            }
        } else {
            if is_ws_char(s[i]) {
                split_from(s, i + 1, false, start, acc)
            } else {
                split_from(s, i + 1, true, i, acc)
            }
        }
    }
}

/// The whitespace-separated words of a string.
pub open spec fn spec_split_ws(s: Seq<char>) -> Seq<Seq<char>> {
    split_from(s, 0, false, 0, Seq::empty())
}

/// Splits a string into its whitespace-separated words.
pub fn split_ws(s: &str) -> (out: Vec<String>)
    ensures
        out.deep_view() == spec_split_ws(s@),
{
    let n = s.unicode_len();
    let mut out: Vec<String> = Vec::new();
    let mut i: usize = 0;
    let mut in_tok = false;
    let mut start: usize = 0;
    proof {
        assert(out.deep_view() =~= Seq::<Seq<char>>::empty());
    }
    while i < n
        invariant
            0 <= i <= n,
            n == s@.len(),
            start <= i,
            spec_split_ws(s@) == split_from(s@, i as int, in_tok, start as int, out.deep_view()),
        decreases n - i,
    {
        let c = s.get_char(i);
        let u = c as u32;
        let ws = u == 32 || (9 <= u && u <= 13);
        assert(ws == is_ws_char(s@[i as int]));
        if in_tok {
            if ws {
                let word = s.substring_char(start, i).to_owned();
                let ghost old_dv = out.deep_view();
                out.push(word);
                proof {
                    assert(out.deep_view() =~= old_dv.push(s@.subrange(start as int, i as int)));
                }
                in_tok = false;
            }
        } else {
            if !ws {
                start = i;
                in_tok = true;
            }
        }
        i = i + 1;
    }
    if in_tok {
        let word = s.substring_char(start, n).to_owned();
        let ghost old_dv = out.deep_view();
        out.push(word);
        proof {
            assert(out.deep_view() =~= old_dv.push(s@.subrange(start as int, s@.len() as int)));
        }
    }
    out
}

impl core::str::FromStr for ProgOpts {
    type Err = String;

    /// Splits a whole command line on whitespace and parses the words.
    fn from_str(s: &str) -> Result<ProgOpts, String> {
        ProgOpts::parse(split_ws(s))
    }
}

} // verus!
