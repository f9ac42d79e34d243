//! The options of a run, read from command-line arguments.

use crate::version::{char_is_digit, is_digit};
use vstd::prelude::*;
use vstd::string::*;

verus! {

/// The number of workers where none is asked for.
pub const DEFAULT_CONCURRENCY: usize = 10;

/// The options of a run.
#[derive(Debug, Clone, Copy, PartialEq, Eq, Structural)]
pub struct Options {
    /// `-c`: the number of concurrent workers, at least 1.
    pub concurrency: usize,
    /// `-w`: whether to rewrite the manifest.
    pub write: bool,
}

/// Why the arguments gave no options.
#[derive(Debug, Clone, Copy, PartialEq, Eq, Structural)]
pub enum OptionsError {
    /// What follows `-c` is not a positive integer that fits the machine.
    InvalidConcurrency,
}

/// The number that a digit stands for.
pub open spec fn digit_value(c: char) -> nat {
    (c as nat - '0' as nat) as nat
}

/// The number that a string of digits stands for, read in base ten.
pub open spec fn digits_value(digits: Seq<char>) -> nat
    decreases digits.len(),
{
    if digits.len() == 0 {
        0
    } else {
        digits_value(digits.drop_last()) * 10 + digit_value(digits.last())
    }
}

/// Whether every character is a digit.
pub open spec fn all_digits(digits: Seq<char>) -> bool {
    forall|i: int| 0 <= i < digits.len() ==> is_digit(#[trigger] digits[i])
}

/// The digits of a number text: the text without a leading `+`.
pub open spec fn unsigned_part(text: Seq<char>) -> Seq<char> {
    if text.len() > 0 && text[0] == '+' {
        text.subrange(1, text.len() as int)
    } else {
        text
    }
}

/// The number that a text stands for: an optional `+` and then one or more
/// digits, no more than the machine's word holds. Anything else is no number.
pub open spec fn number_of(text: Seq<char>) -> Option<usize> {
    let digits = unsigned_part(text);
    if digits.len() > 0 && all_digits(digits) && digits_value(digits) <= usize::MAX {
        Some(digits_value(digits) as usize)
    } else {
        None
    }
}

/// The number of workers that a text asks for: a number that is not zero.
pub open spec fn concurrency_of(text: Seq<char>) -> Option<usize> {
    match number_of(text) {
        Some(n) => if n > 0 {
            Some(n)
        } else {
            None
        },
        None => None,
    }
}

/// Whether the argument at `i` is a `-c` with an argument after it.
pub open spec fn sets_concurrency(args: Seq<Seq<char>>, i: int) -> bool {
    0 <= i && i + 1 < args.len() && args[i] == "-c"@
}

/// Whether every `-c` is followed by a number of workers, if by anything.
pub open spec fn valid_args(args: Seq<Seq<char>>) -> bool {
    forall|i: int| #[trigger]
        sets_concurrency(args, i) ==> concurrency_of(args[i + 1]) is Some
}

/// The number of workers that the first `n` arguments ask for, with what
/// follows the last of them: that of the last `-c`, or the default.
pub open spec fn concurrency_upto(args: Seq<Seq<char>>, n: int) -> usize
    decreases n,
{
    if n <= 0 {
        DEFAULT_CONCURRENCY
    } else if sets_concurrency(args, n - 1) && concurrency_of(args[n]) is Some {
        concurrency_of(args[n])->0
    } else {
        concurrency_upto(args, n - 1)
    }
}

/// Whether some argument is `-w`.
pub open spec fn wants_write(args: Seq<Seq<char>>) -> bool {
    exists|i: int| 0 <= i < args.len() && #[trigger] args[i] == "-w"@
}

/// The texts of a list of arguments.
pub open spec fn arg_views(args: Seq<String>) -> Seq<Seq<char>> {
    args.map_values(|a: String| a@)
}

/// A longer string of digits stands for no smaller a number.
pub proof fn lemma_digits_grow(digits: Seq<char>, n: int)
    requires
        0 <= n <= digits.len(),
    ensures
        digits_value(digits.take(n)) <= digits_value(digits),
    decreases digits.len() - n,
{
    if n < digits.len() {
        lemma_digits_grow(digits, n + 1);
        assert(digits.take(n + 1).drop_last() =~= digits.take(n));
        assert(digits_value(digits.take(n)) * 10 >= digits_value(digits.take(n)));
    } else {
        assert(digits.take(n) =~= digits);
    }
}

/// Reads a number: an optional `+`, then digits.
pub fn parse_number(text: &str) -> (r: Option<usize>)
    ensures
        r == number_of(text@),
{
    let len = text.unicode_len();
    let start: usize = if len > 0 && text.get_char(0) == '+' {
        1
    } else {
        0
    };
    let ghost digits = unsigned_part(text@);
    assert(digits =~= text@.subrange(start as int, len as int));
    if start == len {
        return None;
    }
    let mut value: usize = 0;
    let mut i: usize = start;
    while i < len
        invariant
            start <= i <= len,
            len == text@.len(),
            digits == text@.subrange(start as int, len as int),
            digits == unsigned_part(text@),
            all_digits(digits.take(i - start)),
            value == digits_value(digits.take(i - start)),
        decreases len - i,
    {
        let c = text.get_char(i);
        proof {
            assert(digits[i - start] == c);
            assert(digits.take(i - start + 1).drop_last() =~= digits.take(i - start));
            assert(digits.take(i - start + 1).last() == c);
        }
        if !char_is_digit(c) {
            assert(!is_digit(digits[i - start]));
            return None;
        }
        let d: usize = (c as u32 - '0' as u32) as usize;
        assert(d == digit_value(c));
        if value > (usize::MAX - d) / 10 {
            proof {
                lemma_digits_grow(digits, i - start + 1);
                assert(digits_value(digits.take(i - start + 1)) == value * 10 + d);
                assert(value * 10 + d > usize::MAX);
            }
            return None;
        }
        value = value * 10 + d;
        proof {
            assert forall|k: int| 0 <= k < i - start + 1 implies is_digit(
                #[trigger] digits.take(i - start + 1)[k],
            ) by {
                if k < i - start {
                    assert(digits.take(i - start)[k] == digits[k]);
                }
            }
        }
        i += 1;
    }
    proof {
        assert(digits.take(i - start) =~= digits);
    }
    Some(value)
}

/// Reads a number of workers: a number that is not zero.
pub fn parse_concurrency(text: &str) -> (r: Option<usize>)
    ensures
        r == concurrency_of(text@),
{
    match parse_number(text) {
        Some(n) => if n > 0 {
            Some(n)
        } else {
            None
        },
        None => None,
    }
}

impl Options {
    /// The options that `args` ask for. `-c` takes the number of workers from
    /// the argument after it, the last `-c` deciding; a `-c` at the very end
    /// is ignored. `-w` asks for the manifest to be rewritten. Without `-c`
    /// the number of workers is [`DEFAULT_CONCURRENCY`].
    pub fn new(args: &Vec<String>) -> (r: Result<Options, OptionsError>)
        ensures
            r is Ok <==> valid_args(arg_views(args@)),
            r matches Ok(options) ==> options.concurrency == concurrency_upto(
                arg_views(args@),
                args@.len() as int,
            ) && options.concurrency > 0 && options.write == wants_write(arg_views(args@)),
    {
        let ghost all = arg_views(args@);
        let flag_c = String::from_str("-c");
        let flag_w = String::from_str("-w");
        let mut concurrency: usize = DEFAULT_CONCURRENCY;
        let mut write = false;
        let mut i: usize = 0;
        while i < args.len()
            invariant
                0 <= i <= args.len(),
                all == arg_views(args@),
                flag_c@ == "-c"@,
                flag_w@ == "-w"@,
                forall|k: int|
                    0 <= k < i && #[trigger] sets_concurrency(all, k) ==> concurrency_of(
                        all[k + 1],
                    ) is Some,
                concurrency == concurrency_upto(all, i as int),
                concurrency > 0,
                write == (exists|k: int| 0 <= k < i && #[trigger] all[k] == "-w"@),
            decreases args.len() - i,
        {
            assert(all[i as int] == args@[i as int]@);
            if args[i] == flag_c && i + 1 < args.len() {
                assert(all[i + 1] == args@[i + 1]@);
                match parse_concurrency(args[i + 1].as_str()) {
                    Some(n) => {
                        concurrency = n;
                    },
                    None => {
                        assert(sets_concurrency(all, i as int));
                        return Err(OptionsError::InvalidConcurrency);
                    },
                }
            }
            if args[i] == flag_w {
                write = true;
            }
            i += 1;
        }
        proof {
            assert forall|k: int| #[trigger] sets_concurrency(all, k) implies concurrency_of(
                all[k + 1],
            ) is Some by {
                assert(k < i);
            }
        }
        Ok(Options { concurrency, write })
    }
}

} // verus!
