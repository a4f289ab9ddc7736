//! The command-line arguments that steer the tree layout flags.
//!
//! Recognized arguments, after the program name: `--tree-columns`,
//! `--max-shown <NUM>` and `--max-shown=<NUM>`, where `NUM` is a decimal
//! `i64` with an optional sign. A later `--max-shown` overrides an earlier one.

use vstd::prelude::*;
use crate::text::{chars_of, chars_eq, chars_starts_with};

verus! {

/// The parsed command line.
#[derive(Debug)]
pub struct Cli {
    pub max_shown: Option<i64>,
    pub tree_columns: bool,
}

/// Why a command line was refused.
#[derive(Debug)]
pub enum CliError {
    /// An argument that names no known option.
    UnknownArgument(String),
    /// `--max-shown` was the last argument.
    MissingValue(String),
    /// The value given to `--max-shown` is not a decimal `i64`.
    InvalidValue(String),
}

/// A refusal, over plain values.
pub enum ArgFault {
    Unknown(Seq<char>),
    Missing(Seq<char>),
    Invalid(Seq<char>),
}

impl View for CliError {
    type V = ArgFault;

    open spec fn view(&self) -> ArgFault {
        match self {
            CliError::UnknownArgument(s) => ArgFault::Unknown(s@),
            CliError::MissingValue(s) => ArgFault::Missing(s@),
            CliError::InvalidValue(s) => ArgFault::Invalid(s@),
        }
    }
}

/// The switch that asks for packed tree columns.
pub open spec fn tree_columns_flag() -> Seq<char> {
    seq!['-', '-', 't', 'r', 'e', 'e', '-', 'c', 'o', 'l', 'u', 'm', 'n', 's']
}

/// The option that caps the entries shown per directory.
pub open spec fn max_shown_flag() -> Seq<char> {
    seq!['-', '-', 'm', 'a', 'x', '-', 's', 'h', 'o', 'w', 'n']
}

/// `--max-shown=`, the prefix of the one-argument form.
pub open spec fn max_shown_eq_prefix() -> Seq<char> {
    max_shown_flag().push('=')
}

/// Whether `c` is an ASCII decimal digit.
pub open spec fn is_digit(c: char) -> bool {
    '0' <= c && c <= '9'
}

/// Whether `s` holds decimal digits only.
pub open spec fn all_digits(s: Seq<char>) -> bool {
    forall|i: int| 0 <= i < s.len() ==> is_digit(#[trigger] s[i])
}

/// The number that a string of decimal digits writes.
pub open spec fn digits_value(s: Seq<char>) -> int
    decreases s.len(),
{
    if s.len() == 0 {
        0
    } else {
        digits_value(s.drop_last()) * 10 + (s.last() as int - '0' as int)
    }
}

/// The `i64` that `s` writes: an optional `+` or `-`, then at least one
/// decimal digit, and a value within the range of `i64`.
pub open spec fn parse_i64(s: Seq<char>) -> Option<i64> {
    let neg = s.len() > 0 && s[0] == '-';
    let signed = s.len() > 0 && (s[0] == '-' || s[0] == '+');
    let d = if signed { s.skip(1) } else { s };
    if d.len() == 0 || !all_digits(d) {
        None
    } else {
        let v = if neg { -digits_value(d) } else { digits_value(d) };
        if i64::MIN <= v && v <= i64::MAX {
            Some(v as i64)
        } else {
            None
        }
    }
}

/// The settings that `args[i..]` gives, starting from `max_shown` and
/// `tree_columns`, or the first refusal.
pub open spec fn parse_from(
    args: Seq<Seq<char>>,
    i: int,
    max_shown: Option<i64>,
    tree_columns: bool,
) -> Result<(Option<i64>, bool), ArgFault>
    decreases args.len() - i,
{
    if i < 0 || i >= args.len() {
        Ok((max_shown, tree_columns))
    } else {
        let a = args[i];
        if a == tree_columns_flag() {
            parse_from(args, i + 1, max_shown, true)
        } else if a == max_shown_flag() {
            if i + 1 >= args.len() {
                Err(ArgFault::Missing(a))
            } else {
                match parse_i64(args[i + 1]) {
                    Some(n) => parse_from(args, i + 2, Some(n), tree_columns),
                    None => Err(ArgFault::Invalid(args[i + 1])),
                }
            }
        } else if max_shown_eq_prefix().is_prefix_of(a) {
            let value = a.skip(max_shown_eq_prefix().len() as int);
            match parse_i64(value) {
                Some(n) => parse_from(args, i + 1, Some(n), tree_columns),
                None => Err(ArgFault::Invalid(value)),
            }
        } else {
            Err(ArgFault::Unknown(a))
        }
    }
}

/// What a whole command line gives; its first argument is the program name.
pub open spec fn parse_args(args: Seq<Seq<char>>) -> Result<(Option<i64>, bool), ArgFault> {
    parse_from(args, 1, None, false)
}

proof fn lemma_digits_value_nonneg(s: Seq<char>)
    requires
        all_digits(s),
    ensures
        digits_value(s) >= 0,
    decreases s.len(),
{
    if s.len() > 0 {
        assert(all_digits(s.drop_last())) by {
            assert forall|i: int| 0 <= i < s.drop_last().len() implies is_digit(
                #[trigger] s.drop_last()[i],
            ) by {
                assert(s.drop_last()[i] == s[i]);
            }
        }
        lemma_digits_value_nonneg(s.drop_last());
        assert(is_digit(s[s.len() - 1]));
    }
}

/// Digits only add: a longer prefix of a digit string writes a number at
/// least as large as a shorter one.
proof fn lemma_digits_value_grows(s: Seq<char>, k: int, j: int)
    requires
        all_digits(s),
        0 <= k <= j <= s.len(),
    ensures
        digits_value(s.take(k)) <= digits_value(s.take(j)),
    decreases j - k,
{
    if k < j {
        lemma_digits_value_grows(s, k, j - 1);
        let t = s.take(j);
        assert(t.drop_last() =~= s.take(j - 1));
        assert(all_digits(s.take(j - 1))) by {
            assert forall|i: int| 0 <= i < s.take(j - 1).len() implies is_digit(
                #[trigger] s.take(j - 1)[i],
            ) by {
                assert(s.take(j - 1)[i] == s[i]);
            }
        }
        lemma_digits_value_nonneg(s.take(j - 1));
        assert(is_digit(s[j - 1]));
        assert(t.last() == s[j - 1]);
    }
}

/// The `i64` that `s` writes, as `parse_i64` states.
pub fn parse_i64_chars(s: &Vec<char>) -> (r: Option<i64>)
    ensures
        r == parse_i64(s@),
{
    let n = s.len();
    let neg = n > 0 && s[0] == '-';
    let signed = n > 0 && (s[0] == '-' || s[0] == '+');
    let start: usize = if signed { 1 } else { 0 };
    let ghost d = if signed { s@.skip(1) } else { s@ };
    assert(s@.skip(0) =~= s@);
    if start >= n {
        assert(d.len() == 0);
        return None;
    }
    let mut acc: i128 = 0;
    let mut k: usize = start;
    while k < n
        invariant
            start <= k <= n,
            n == s@.len(),
            d == s@.skip(start as int),
            neg == (s@.len() > 0 && s@[0] == '-'),
            signed == (s@.len() > 0 && (s@[0] == '-' || s@[0] == '+')),
            start == (if signed { 1usize } else { 0usize }),
            d == (if signed { s@.skip(1) } else { s@ }),
            forall|i: int| 0 <= i < k - start ==> is_digit(#[trigger] d[i]),
            acc == digits_value(d.take(k - start)),
            0 <= acc <= 0x8000_0000_0000_0000,
        decreases n - k,
    {
        let c = s[k];
        if !('0' <= c && c <= '9') {
            assert(!is_digit(d[k - start]));
            assert(!all_digits(d));
            return None;
        }
        let ghost dk = d.take(k - start + 1);
        assert(dk.drop_last() =~= d.take(k - start));
        assert(dk.last() == c);
        let digit: i128 = (c as u32 - '0' as u32) as i128;
        acc = acc * 10 + digit;
        k = k + 1;
        if acc > 0x8000_0000_0000_0000 {
            let all = forall_digits(s, k);
            proof {
                if all {
                    assert forall|i: int| 0 <= i < d.len() implies is_digit(#[trigger] d[i]) by {
                        if i >= k - start {
                            assert(d[i] == s@[i + start]);
                        }
                    }
                    assert(all_digits(d));
                    lemma_digits_value_grows(d, k - start, d.len() as int);
                    assert(d.take(d.len() as int) =~= d);
                } else {
                    let j = choose|j: int| k <= j < s@.len() && !is_digit(#[trigger] s@[j]);
                    assert(d[j - start] == s@[j]);
                    assert(!all_digits(d));
                }
            }
            return None;
        }
    }
    assert(d.take(n - start) =~= d);
    assert(all_digits(d));
    if neg {
        Some((0 - acc) as i64)
    } else if acc > 0x7fff_ffff_ffff_ffff {
        None
    } else {
        Some(acc as i64)
    }
}

/// Whether `s[from..]` is all decimal digits.
fn forall_digits(s: &Vec<char>, from: usize) -> (b: bool)
    requires
        from <= s@.len(),
    ensures
        b == (forall|i: int| from <= i < s@.len() ==> is_digit(#[trigger] s@[i])),
{
    let mut k = from;
    while k < s.len()
        invariant
            from <= k <= s@.len(),
            forall|i: int| from <= i < k ==> is_digit(#[trigger] s@[i]),
        decreases s@.len() - k,
    {
        if !('0' <= s[k] && s[k] <= '9') {
            return false;
        }
        k = k + 1;
    }
    true
}

impl Cli {
    /// Parse a command line whose first element is the program name.
    pub fn try_parse_from(argv: &[&str]) -> (r: Result<Cli, CliError>)
        ensures
            match r {
                Ok(cli) => parse_args(argv@.map_values(|a: &str| a@)) == Ok::<
                    (Option<i64>, bool),
                    ArgFault,
                >((cli.max_shown, cli.tree_columns)),
                Err(e) => parse_args(argv@.map_values(|a: &str| a@)) == Err::<
                    (Option<i64>, bool),
                    ArgFault,
                >(e@),
            },
    {
        let ghost args = argv@.map_values(|a: &str| a@);
        let tc_flag: Vec<char> = vec!['-', '-', 't', 'r', 'e', 'e', '-', 'c', 'o', 'l', 'u', 'm', 'n', 's'];
        let ms_flag: Vec<char> = vec!['-', '-', 'm', 'a', 'x', '-', 's', 'h', 'o', 'w', 'n'];
        let ms_eq: Vec<char> = vec!['-', '-', 'm', 'a', 'x', '-', 's', 'h', 'o', 'w', 'n', '='];
        assert(tc_flag@ =~= tree_columns_flag());
        assert(ms_flag@ =~= max_shown_flag());
        assert(ms_eq@ =~= max_shown_eq_prefix());
        let mut max_shown: Option<i64> = None;
        let mut tree_columns = false;
        let mut i: usize = 1;
        while i < argv.len()
            invariant
                args == argv@.map_values(|a: &str| a@),
                args.len() == argv@.len(),
                1 <= i,
                tc_flag@ == tree_columns_flag(),
                ms_flag@ == max_shown_flag(),
                ms_eq@ == max_shown_eq_prefix(),
                parse_args(args) == parse_from(args, i as int, max_shown, tree_columns),
            decreases argv@.len() - i,
        {
            let a = chars_of(argv[i]);
            assert(a@ == args[i as int]);
            if chars_eq(&a, &tc_flag) {
                tree_columns = true;
                i = i + 1;
            } else if chars_eq(&a, &ms_flag) {
                if i + 1 >= argv.len() {
                    return Err(CliError::MissingValue(argv[i].to_string()));
                }
                let v = chars_of(argv[i + 1]);
                assert(v@ == args[i + 1]);
                match parse_i64_chars(&v) {
                    Some(n) => {
                        max_shown = Some(n);
                        i = i + 2;
                    },
                    None => {
                        return Err(CliError::InvalidValue(argv[i + 1].to_string()));
                    },
                }
            } else if chars_starts_with(&a, &ms_eq) {
                let mut v: Vec<char> = Vec::new();
                let mut k: usize = ms_eq.len();
                while k < a.len()
                    invariant
                        ms_eq@.len() <= k <= a@.len(),
                        v@ == a@.subrange(ms_eq@.len() as int, k as int),
                    decreases a@.len() - k,
                {
                    v.push(a[k]);
                    k = k + 1;
                }
                assert(v@ =~= a@.skip(ms_eq@.len() as int));
                match parse_i64_chars(&v) {
                    Some(n) => {
                        max_shown = Some(n);
                        i = i + 1;
                    },
                    None => {
                        return Err(CliError::InvalidValue(crate::text::string_from_chars(&v)));
                    },
                }
            } else {
                return Err(CliError::UnknownArgument(argv[i].to_string()));
            }
        }
        Ok(Cli { max_shown, tree_columns })
    }
}

} // verus!
