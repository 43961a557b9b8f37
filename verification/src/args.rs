//! Command-line argument parsing for the monitor.
//!
//! The grammar is the program's own: a required `--threshold <i32>` (also
//! `--threshold=<i32>`) in whole decibels, and an optional `--device <name>`
//! (also `--device=<name>`). The first token is the program name and is
//! ignored. A flag given twice, a flag missing its value, a malformed or
//! out-of-range threshold, or an unknown token is an error; a missing
//! `--threshold` is reported once the tokens are exhausted.

use vstd::prelude::*;

verus! {

/// Parsed command line: the threshold in whole decibels and the optional
/// input device name.
#[derive(Debug)]
pub struct Args {
    /// Audio threshold in dB (e.g. -20).
    pub threshold: i32,
    /// Audio input device name; the default device is used when absent.
    pub device: Option<String>,
}

/// Why a command line was rejected.
#[derive(Clone, Copy, Debug, PartialEq, Eq, Structural)]
pub enum ArgsError {
    /// No `--threshold` flag was given.
    MissingThreshold,
    /// A flag that needs a value was the last token.
    MissingValue,
    /// The threshold value is not an integer that fits in 32 bits.
    InvalidThreshold,
    /// A token that is not part of the grammar.
    UnknownArgument,
    /// A flag was given twice.
    DuplicateArgument,
}

/// A decimal digit.
pub open spec fn spec_is_digit(c: char) -> bool {
    48 <= c as u32 <= 57
}

/// The numeric value of one digit.
pub open spec fn spec_digit_val(c: char) -> int {
    c as u32 - 48
}

/// A nonempty run of digits.
pub open spec fn spec_is_digits(s: Seq<char>) -> bool {
    s.len() >= 1 && forall|i: int| 0 <= i < s.len() ==> spec_is_digit(s[i])
}

/// The value of a digit run, most significant digit first.
pub open spec fn spec_digits_val(s: Seq<char>) -> int
    decreases s.len(),
{
    if s.len() == 0 {
        0
    } else {
        spec_digits_val(s.drop_last()) * 10 + spec_digit_val(s.last())
    }
}

/// An optionally signed, nonempty digit run.
pub open spec fn spec_is_int_literal(s: Seq<char>) -> bool {
    if s.len() == 0 {
        false
    } else if s[0] == '-' || s[0] == '+' {
        spec_is_digits(s.drop_first())
    } else {
        spec_is_digits(s)
    }
}

/// The signed value of an integer literal.
pub open spec fn spec_int_val(s: Seq<char>) -> int {
    if s.len() == 0 {
        0
    } else if s[0] == '-' {
        -spec_digits_val(s.drop_first())
    } else if s[0] == '+' {
        spec_digits_val(s.drop_first())
    } else {
        spec_digits_val(s)
    }
}

/// Whether an integer literal names a value representable as an `i32`.
pub open spec fn spec_int_fits(s: Seq<char>) -> bool {
    -2147483648 <= spec_int_val(s) <= 2147483647
}

/// The tokens after the program name, scanned left to right with the
/// threshold and device collected so far; the first offending token wins.
pub open spec fn spec_scan(
    toks: Seq<Seq<char>>,
    th: Option<int>,
    dev: Option<Seq<char>>,
) -> Result<(int, Option<Seq<char>>), ArgsError>
    decreases toks.len(),
{
    if toks.len() == 0 {
        match th {
            Some(v) => Ok((v, dev)),
            None => Err(ArgsError::MissingThreshold),
        }
    } else {
        let t = toks[0];
        if t == "--threshold"@ {
            if th is Some {
                Err(ArgsError::DuplicateArgument)
            } else if toks.len() < 2 {
                Err(ArgsError::MissingValue)
            } else if !(spec_is_int_literal(toks[1]) && spec_int_fits(toks[1])) {
                Err(ArgsError::InvalidThreshold)
            } else {
                spec_scan(toks.skip(2), Some(spec_int_val(toks[1])), dev)
            }
        } else if t.len() >= 12 && t.subrange(0, 12) == "--threshold="@ {
            let v = t.subrange(12, t.len() as int);
            if th is Some {
                Err(ArgsError::DuplicateArgument)
            } else if !(spec_is_int_literal(v) && spec_int_fits(v)) {
                Err(ArgsError::InvalidThreshold)
            } else {
                spec_scan(toks.skip(1), Some(spec_int_val(v)), dev)
            }
        } else if t == "--device"@ {
            if dev is Some {
                Err(ArgsError::DuplicateArgument)
            } else if toks.len() < 2 {
                Err(ArgsError::MissingValue)
            } else {
                spec_scan(toks.skip(2), th, Some(toks[1]))
            }
        } else if t.len() >= 9 && t.subrange(0, 9) == "--device="@ {
            if dev is Some {
                Err(ArgsError::DuplicateArgument)
            } else {
                spec_scan(toks.skip(1), th, Some(t.subrange(9, t.len() as int)))
            }
        } else {
            Err(ArgsError::UnknownArgument)
        }
    }
}

/// What a whole command line parses to: the first token (the program name)
/// is dropped, the rest are scanned.
pub open spec fn spec_parse_result(argv: Seq<Seq<char>>) -> Result<
    (int, Option<Seq<char>>),
    ArgsError,
> {
    if argv.len() == 0 {
        spec_scan(argv, None::<int>, None::<Seq<char>>)
    } else {
        spec_scan(argv.drop_first(), None::<int>, None::<Seq<char>>)
    }
}

/// The mathematical image of a parse outcome, for stating the contract.
pub open spec fn spec_of_result(r: Result<Args, ArgsError>) -> Result<
    (int, Option<Seq<char>>),
    ArgsError,
> {
    match r {
        Ok(a) => Ok(
            (
                a.threshold as int,
                match a.device {
                    Some(d) => Some(d@),
                    None => None,
                },
            ),
        ),
        Err(e) => Err(e),
    }
}

/// Whether two string slices hold the same characters.
fn str_eq_check(s: &str, t: &str) -> (b: bool)
    ensures
        b == (s@ == t@),
{
    let sl = s.unicode_len();
    let tl = t.unicode_len();
    if sl != tl {
        return false;
    }
    let mut i: usize = 0;
    while i < sl
        invariant
            i <= sl,
            sl == s@.len(),
            sl == t@.len(),
            forall|j: int| 0 <= j < i ==> s@[j] == t@[j],
        decreases sl - i,
    {
        if s.get_char(i) != t.get_char(i) {
            return false;
        }
        i = i + 1;
    }
    proof {
        assert(s@ =~= t@);
    }
    true
}

/// Whether `s` begins with the characters of `p`.
fn str_starts_with(s: &str, p: &str) -> (b: bool)
    ensures
        b == (s@.len() >= p@.len() && s@.subrange(0, p@.len() as int) == p@),
{
    let sl = s.unicode_len();
    let pl = p.unicode_len();
    if sl < pl {
        return false;
    }
    let mut i: usize = 0;
    while i < pl
        invariant
            i <= pl,
            pl <= sl,
            sl == s@.len(),
            pl == p@.len(),
            forall|j: int| 0 <= j < i ==> s@[j] == p@[j],
        decreases pl - i,
    {
        if s.get_char(i) != p.get_char(i) {
            proof {
                assert(s@.subrange(0, p@.len() as int)[i as int] == s@[i as int]);
            }
            return false;
        }
        i = i + 1;
    }
    proof {
        assert(s@.subrange(0, p@.len() as int) =~= p@);
    }
    true
}

/// The value of a digit run is never negative.
proof fn lemma_digits_val_nonneg(s: Seq<char>)
    requires
        forall|i: int| 0 <= i < s.len() ==> spec_is_digit(s[i]),
    ensures
        spec_digits_val(s) >= 0,
    decreases s.len(),
{
    if s.len() > 0 {
        assert(s.last() == s[s.len() - 1]);
        lemma_digits_val_nonneg(s.drop_last());
    }
}

/// Appending digits never shrinks the value: a prefix of a digit run is
/// worth no more than the whole run.
proof fn lemma_digits_val_prefix(s: Seq<char>, i: int)
    requires
        forall|k: int| 0 <= k < s.len() ==> spec_is_digit(s[k]),
        0 <= i <= s.len(),
    ensures
        spec_digits_val(s.take(i)) <= spec_digits_val(s),
    decreases s.len() - i,
{
    if i == s.len() {
        assert(s.take(i) =~= s);
    } else {
        lemma_digits_val_prefix(s, i + 1);
        let u = s.take(i + 1);
        assert(u.drop_last() =~= s.take(i));
        assert(u.last() == s[i]);
        lemma_digits_val_nonneg(s.take(i));
        assert(spec_digits_val(s.take(i)) * 10 >= spec_digits_val(s.take(i)));
        assert(spec_digits_val(s.take(i)) <= spec_digits_val(u));
    }
}

/// Parse a signed decimal integer, exactly as `i32` holds it: `Some` when
/// the text is an optionally signed digit run whose value fits, `None`
/// otherwise.
pub fn parse_i32_str(s: &str) -> (r: Option<i32>)
    ensures
        r is Some <==> (spec_is_int_literal(s@) && spec_int_fits(s@)),
        r is Some ==> r->0 as int == spec_int_val(s@),
{
    let len = s.unicode_len();
    if len == 0 {
        return None;
    }
    let c0 = s.get_char(0);
    let neg = c0 == '-';
    let signed = neg || c0 == '+';
    let start: usize = if signed {
        1
    } else {
        0
    };
    if len == start {
        return None;
    }
    let ghost digits = s@.subrange(start as int, len as int);
    let mut acc: u64 = 0;
    let mut i: usize = start;
    while i < len
        invariant
            start <= i <= len,
            len == s@.len(),
            start == 0 || start == 1,
            start < len,
            neg ==> s@[0] == '-',
            signed == (s@[0] == '-' || s@[0] == '+'),
            neg == (s@[0] == '-'),
            start == 1 <==> signed,
            digits == s@.subrange(start as int, len as int),
            forall|j: int| start <= j < i ==> spec_is_digit(s@[j]),
            acc == spec_digits_val(s@.subrange(start as int, i as int)),
            acc <= 2147483648,
        decreases len - i,
    {
        let c = s.get_char(i);
        let cu = c as u32;
        if cu < 48 || cu > 57 {
            proof {
                assert(digits[i - start] == s@[i as int]);
                assert(!spec_is_digits(digits));
                if start == 1 {
                    assert(digits =~= s@.drop_first());
                } else {
                    assert(digits =~= s@);
                }
                assert(!spec_is_int_literal(s@));
            }
            return None;
        }
        proof {
            let pre = s@.subrange(start as int, i as int + 1);
            assert(pre.drop_last() =~= s@.subrange(start as int, i as int));
            assert(pre.last() == s@[i as int]);
        }
        acc = acc * 10 + ((cu - 48) as u64);
        i = i + 1;
        if acc > 2147483648 {
            proof {
                let part = s@.subrange(start as int, i as int);
                assert(forall|k: int| 0 <= k < part.len() ==> spec_is_digit(part[k]));
                if start == 1 {
                    assert(digits =~= s@.drop_first());
                } else {
                    assert(digits =~= s@);
                }
                if spec_is_digits(digits) {
                    assert(part =~= digits.take(i - start));
                    lemma_digits_val_prefix(digits, i - start);
                    assert(spec_digits_val(digits) > 2147483648);
                    assert(spec_int_val(s@) == spec_digits_val(digits)
                        || spec_int_val(s@) == -spec_digits_val(digits));
                    assert(!spec_int_fits(s@));
                }
            }
            return None;
        }
    }
    proof {
        assert(s@.subrange(start as int, i as int) =~= digits);
        assert(spec_is_digits(digits));
        if start == 1 {
            assert(digits =~= s@.drop_first());
        } else {
            assert(digits =~= s@);
        }
        assert(spec_is_int_literal(s@));
        assert(acc == spec_digits_val(digits));
        if neg {
            assert(spec_int_val(s@) == -spec_digits_val(digits));
        } else {
            assert(spec_int_val(s@) == spec_digits_val(digits));
        }
    }
    if neg {
        if acc == 2147483648 {
            Some(-2147483647 - 1)
        } else {
            Some(-(acc as i32))
        }
    } else {
        if acc > 2147483647 {
            proof {
                assert(spec_int_val(s@) == 2147483648);
            }
            None
        } else {
            Some(acc as i32)
        }
    }
}

impl Args {
    /// Parse a command line given as its tokens, the program name first.
    /// The returned threshold and device are exactly what the token
    /// grammar assigns; every malformed command line is rejected with the
    /// error for its first offending token.
    pub fn try_parse_from(args: Vec<String>) -> (r: Result<Args, ArgsError>)
        ensures
            spec_of_result(r) == spec_parse_result(args@.map_values(|s: String| s@)),
    {
        let ghost argv = args@.map_values(|s: String| s@);
        proof {
            reveal_strlit("--threshold");
            reveal_strlit("--threshold=");
            reveal_strlit("--device");
            reveal_strlit("--device=");
        }
        let n = args.len();
        if n == 0 {
            return Err(ArgsError::MissingThreshold);
        }
        let mut th: Option<i32> = None;
        let mut dev: Option<String> = None;
        let mut i: usize = 1;
        proof {
            assert(argv.skip(1) =~= argv.drop_first());
        }
        while i < n
            invariant
                1 <= i <= n,
                n == argv.len(),
                argv == args@.map_values(|s: String| s@),
                n == args@.len(),
                spec_parse_result(argv) == spec_scan(
                    argv.skip(i as int),
                    match th {
                        Some(v) => Some(v as int),
                        None => None,
                    },
                    match dev {
                        Some(ref d) => Some(d@),
                        None => None,
                    },
                ),
            decreases n - i,
        {
            let tok = &args[i];
            let ghost t = argv.skip(i as int)[0];
            proof {
                reveal_strlit("--threshold");
                reveal_strlit("--threshold=");
                reveal_strlit("--device");
                reveal_strlit("--device=");
                assert(argv[i as int] == args@[i as int]@);
                assert(t == tok@);
            }
            if str_eq_check(tok.as_str(), "--threshold") {
                if th.is_some() {
                    return Err(ArgsError::DuplicateArgument);
                }
                if i + 1 >= n {
                    return Err(ArgsError::MissingValue);
                }
                let val = &args[i + 1];
                proof {
                    assert(argv.skip(i as int)[1] == argv[i as int + 1]);
                    assert(argv[i as int + 1] == args@[i as int + 1]@);
                }
                match parse_i32_str(val.as_str()) {
                    Some(v) => {
                        th = Some(v);
                        proof {
                            assert(argv.skip(i as int).skip(2) =~= argv.skip(i as int + 2));
                        }
                        i = i + 2;
                    },
                    None => {
                        return Err(ArgsError::InvalidThreshold);
                    },
                }
            } else if str_starts_with(tok.as_str(), "--threshold=") {
                if th.is_some() {
                    return Err(ArgsError::DuplicateArgument);
                }
                let tok_len = tok.as_str().unicode_len();
                let val = tok.as_str().substring_char(12, tok_len);
                proof {
                    assert(val@ == t.subrange(12, t.len() as int));
                }
                match parse_i32_str(val) {
                    Some(v) => {
                        th = Some(v);
                        proof {
                            assert(argv.skip(i as int).skip(1) =~= argv.skip(i as int + 1));
                        }
                        i = i + 1;
                    },
                    None => {
                        return Err(ArgsError::InvalidThreshold);
                    },
                }
            } else if str_eq_check(tok.as_str(), "--device") {
                if dev.is_some() {
                    return Err(ArgsError::DuplicateArgument);
                }
                if i + 1 >= n {
                    return Err(ArgsError::MissingValue);
                }
                let val = args[i + 1].clone();
                proof {
                    assert(argv.skip(i as int)[1] == argv[i as int + 1]);
                    assert(argv[i as int + 1] == args@[i as int + 1]@);
                    assert(argv.skip(i as int).skip(2) =~= argv.skip(i as int + 2));
                }
                dev = Some(val);
                i = i + 2;
            } else if str_starts_with(tok.as_str(), "--device=") {
                if dev.is_some() {
                    return Err(ArgsError::DuplicateArgument);
                }
                let tok_len = tok.as_str().unicode_len();
                let val = tok.as_str().substring_char(9, tok_len).to_owned();
                proof {
                    assert(val@ == t.subrange(9, t.len() as int));
                    assert(argv.skip(i as int).skip(1) =~= argv.skip(i as int + 1));
                }
                dev = Some(val);
                i = i + 1;
            } else {
                return Err(ArgsError::UnknownArgument);
            }
        }
        proof {
            assert(argv.skip(n as int) =~= Seq::<Seq<char>>::empty());
        }
        match th {
            Some(v) => Ok(Args { threshold: v, device: dev }),
            None => Err(ArgsError::MissingThreshold),
        }
    }
}

} // verus!
