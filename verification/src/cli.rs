//! Command line of the `reef-infer` program.
//!
//! ```text
//! reef-infer <model.tflite> [--bench [N]] [--input <file>] [--output <file>]
//! ```

use vstd::prelude::*;

verus! {

/// Timed repetitions of a benchmark without a count.
pub const DEFAULT_REPS: usize = 50;

/// Untimed repetitions before those of a benchmark.
pub const WARMUP_REPS: usize = 3;

/// Parsed command line.
#[derive(Debug)]
pub struct Options {
    /// Path of the model, the first argument.
    pub model: Option<String>,
    /// Timed repetitions, if a benchmark was asked for.
    pub bench: Option<usize>,
    /// Path of the file that holds the input.
    pub input: Option<String>,
    /// Path of the file to write the output to.
    pub output: Option<String>,
}

/// Whether a text consists of decimal digits.
pub open spec fn all_digits(s: Seq<char>) -> bool {
    forall|i: int| 0 <= i < s.len() ==> '0' <= #[trigger] s[i] <= '9'
}

/// The number that decimal digits stand for.
pub open spec fn digits_value(s: Seq<char>) -> nat
    decreases s.len(),
{
    if s.len() == 0 {
        0
    } else {
        (10 * digits_value(s.drop_last()) + (s.last() as int - '0' as int)) as nat
    }
}

/// A text without its leading plus sign, if it has one.
pub open spec fn unsigned_part(s: Seq<char>) -> Seq<char> {
    if s.len() > 0 && s[0] == '+' {
        s.skip(1)
    } else {
        s
    }
}

/// The count that a text stands for: at least one decimal digit, behind an
/// optional plus sign, with a value that fits `usize`.
pub open spec fn count_of(s: Seq<char>) -> Option<nat> {
    let digits = unsigned_part(s);
    if digits.len() > 0 && all_digits(digits) && digits_value(digits) <= usize::MAX {
        Some(digits_value(digits))
    } else {
        None
    }
}

/// The first digits stand for no more than all of them.
proof fn lemma_digits_prefix(s: Seq<char>, n: int)
    requires
        all_digits(s),
        0 <= n <= s.len(),
    ensures
        digits_value(s.take(n)) <= digits_value(s),
    decreases s.len() - n,
{
    if n == s.len() {
        assert(s.take(n) =~= s);
    } else {
        lemma_digits_prefix(s, n + 1);
        assert(s.take(n + 1).drop_last() =~= s.take(n));
        assert('0' <= s[n]);
    }
}

/// Reads a count.
pub fn parse_count(s: &str) -> (r: Option<usize>)
    ensures
        match r {
            Some(n) => count_of(s@) == Some(n as nat),
            None => count_of(s@) is None,
        },
{
    let ghost digits = unsigned_part(s@);
    let len: usize = s.unicode_len();
    let first: usize = if len > 0 && s.get_char(0) == '+' {
        1
    } else {
        0
    };
    if first == len {
        return None;
    }
    let mut value: usize = 0;
    let mut i: usize = first;
    assert(digits.take(0) =~= Seq::empty());
    while i < len
        invariant
            first <= i <= len,
            len == s@.len(),
            digits == unsigned_part(s@),
            digits.len() == len - first,
            forall|k: int| first <= k < len ==> #[trigger] s@[k] == digits[k - first],
            all_digits(digits.take(i - first)),
            value == digits_value(digits.take(i - first)),
        decreases len - i,
    {
        let c: char = s.get_char(i);
        proof {
            let n = i - first;
            assert(s@[i as int] == digits[n]);
            assert(digits.take(n + 1).drop_last() =~= digits.take(n));
            if all_digits(digits) {
                assert('0' <= digits[n] <= '9');
                lemma_digits_prefix(digits, n + 1);
            }
        }
        if c < '0' || c > '9' {
            return None;
        }
        let d: usize = (c as u32 - '0' as u32) as usize;
        match value.checked_mul(10) {
            Some(tens) => match tens.checked_add(d) {
                Some(sum) => {
                    value = sum;
                },
                None => {
                    return None;
                },
            },
            None => {
                return None;
            },
        }
        proof {
            let n = i - first;
            assert forall|k: int| 0 <= k < n + 1 implies '0' <= #[trigger] digits.take(
                n + 1,
            )[k] <= '9' by {
                if k < n {
                    assert(digits.take(n)[k] == digits.take(n + 1)[k]);
                }
            }
        }
        i = i + 1;
    }
    assert(digits.take(i - first) =~= digits);
    Some(value)
}

/// The argument behind the first `flag` at or after position `from` that has
/// one.
pub open spec fn value_after(args: Seq<String>, flag: Seq<char>, from: nat) -> Option<Seq<char>>
    decreases args.len() - from,
{
    if from + 1 >= args.len() {
        None
    } else if args[from as int]@ == flag {
        Some(args[from as int + 1]@)
    } else {
        value_after(args, flag, from + 1)
    }
}

/// The first count behind a `--bench` at or after position `from`.
pub open spec fn count_after(args: Seq<String>, from: nat) -> Option<nat>
    decreases args.len() - from,
{
    if from + 1 >= args.len() {
        None
    } else if args[from as int]@ == "--bench"@ && count_of(args[from as int + 1]@) is Some {
        count_of(args[from as int + 1]@)
    } else {
        count_after(args, from + 1)
    }
}

/// Whether some argument is `flag`.
pub open spec fn has_flag(args: Seq<String>, flag: Seq<char>) -> bool {
    exists|i: int| 0 <= i < args.len() && (#[trigger] args[i])@ == flag
}

/// How many repetitions a command line asks for: the first count behind a
/// `--bench`, or the default if there is only the flag.
pub open spec fn bench_reps(args: Seq<String>) -> Option<nat> {
    match count_after(args, 0) {
        Some(n) => Some(n),
        None => if has_flag(args, "--bench"@) {
            Some(DEFAULT_REPS as nat)
        } else {
            None
        },
    }
}

/// Whether an optional text holds some characters.
pub open spec fn holds(s: Option<String>, chars: Option<Seq<char>>) -> bool {
    match (s, chars) {
        (Some(s), Some(c)) => s@ == c,
        (None, None) => true,
        _ => false,
    }
}

/// Finds the argument behind a flag.
fn find_value(args: &[String], flag: &str) -> (r: Option<String>)
    ensures
        holds(r, value_after(args@, flag@, 0)),
{
    let name: String = flag.to_string();
    assert(args.len() == args@.len());
    let mut i: usize = 0;
    while i < args.len() && i + 1 < args.len()
        invariant
            args.len() == args@.len(),
            name@ == flag@,
            i <= args@.len(),
            value_after(args@, flag@, 0) == value_after(args@, flag@, i as nat),
        decreases args@.len() - i,
    {
        if args[i] == name {
            return Some(args[i + 1].clone());
        }
        i = i + 1;
    }
    None
}

/// Finds the number of repetitions.
fn find_reps(args: &[String]) -> (r: Option<usize>)
    ensures
        match r {
            Some(n) => bench_reps(args@) == Some(n as nat),
            None => bench_reps(args@) is None,
        },
{
    let name: String = "--bench".to_string();
    assert(args.len() == args@.len());
    let mut found: bool = false;
    let mut i: usize = 0;
    while i < args.len()
        invariant
            args.len() == args@.len(),
            name@ == "--bench"@,
            i <= args@.len(),
            count_after(args@, 0) == count_after(args@, i as nat),
            found ==> has_flag(args@, "--bench"@),
            !found ==> forall|k: int| 0 <= k < i ==> (#[trigger] args@[k])@ != "--bench"@,
        decreases args@.len() - i,
    {
        if args[i] == name {
            found = true;
            assert(args@[i as int]@ == "--bench"@);
            if i + 1 < args.len() {
                match parse_count(args[i + 1].as_str()) {
                    Some(n) => {
                        return Some(n);
                    },
                    None => {},
                }
            }
        }
        i = i + 1;
    }
    if found {
        Some(DEFAULT_REPS)
    } else {
        None
    }
}

/// Parses a command line, the program's name first.
pub fn parse_args(args: &[String]) -> (r: Options)
    ensures
        holds(
            r.model,
            if args@.len() > 1 {
                Some(args@[1]@)
            } else {
                None
            },
        ),
        match r.bench {
            Some(n) => bench_reps(args@) == Some(n as nat),
            None => bench_reps(args@) is None,
        },
        holds(r.input, value_after(args@, "--input"@, 0)),
        holds(r.output, value_after(args@, "--output"@, 0)),
{
    Options {
        model: if args.len() > 1 {
            Some(args[1].clone())
        } else {
            None
        },
        bench: find_reps(args),
        input: find_value(args, "--input"),
        output: find_value(args, "--output"),
    }
}

/// Digits are read from left to right, each one worth ten times the next.
pub proof fn law_digits(s: Seq<char>, c: char)
    requires
        '0' <= c <= '9',
    ensures
        digits_value(s.push(c)) == 10 * digits_value(s) + (c as int - 48),
        digits_value(Seq::empty()) == 0,
{
    assert(s.push(c).drop_last() =~= s);
}

/// A count is one or more decimal digits with a value that fits `usize`, and a
/// plus sign before them makes no difference. Anything else is none.
pub proof fn law_counts(s: Seq<char>)
    ensures
        s.len() > 0 && s[0] != '+' ==> count_of(s) == if (forall|i: int|
            0 <= i < s.len() ==> 48 <= #[trigger] s[i] as int <= 57) && digits_value(s)
            <= usize::MAX {
            Some(digits_value(s))
        } else {
            None
        },
        s.len() > 0 && s[0] != '+' ==> count_of(seq!['+'] + s) == count_of(s),
        count_of(seq!['+', '+'] + s) is None,
        count_of(seq!['+']) is None,
        count_of(Seq::empty()) is None,
{
    assert((seq!['+'] + s).skip(1) =~= s);
    let doubled = (seq!['+', '+'] + s).skip(1);
    assert(doubled[0] == '+');
    assert(seq!['+'].skip(1) =~= Seq::empty());
    if s.len() > 0 && s[0] != '+' {
        if forall|i: int| 0 <= i < s.len() ==> 48 <= #[trigger] s[i] as int <= 57 {
            assert(all_digits(s));
        }
        if all_digits(s) {
            assert forall|i: int| 0 <= i < s.len() implies 48 <= #[trigger] s[i] as int <= 57 by {
                assert('0' <= s[i] <= '9');
            }
        }
    }
}

/// The value of a flag is the argument behind the first place where the flag
/// stands before another argument.
pub proof fn law_flag_values(args: Seq<String>, flag: Seq<char>, from: nat)
    ensures
        match value_after(args, flag, from) {
            Some(value) => exists|i: int|
                from <= i < args.len() - 1 && (#[trigger] args[i])@ == flag && args[i + 1]@ == value
                    && forall|j: int| from <= j < i ==> (#[trigger] args[j])@ != flag,
            None => forall|j: int| from <= j < args.len() - 1 ==> (#[trigger] args[j])@ != flag,
        },
    decreases args.len() - from,
{
    if from + 1 < args.len() {
        if args[from as int]@ != flag {
            law_flag_values(args, flag, from + 1);
        }
    }
}

/// The number of repetitions is the count behind the first `--bench` that is
/// followed by one, or 50 where `--bench` stands without any.
pub proof fn law_repetitions(args: Seq<String>)
    ensures
        ({
            let counted = |i: int|
                0 <= i < args.len() - 1 && args[i]@ == "--bench"@ && count_of(args[i + 1]@) is Some;
            match bench_reps(args) {
                Some(n) => {
                    ||| exists|i: int|
                        #[trigger] counted(i) && count_of(args[i + 1]@) == Some(n) && forall|j: int|
                            0 <= j < i ==> !#[trigger] counted(j)
                    ||| n == 50 && (forall|j: int| !#[trigger] counted(j)) && exists|i: int|
                        0 <= i < args.len() && (#[trigger] args[i])@ == "--bench"@
                },
                None => forall|i: int|
                    0 <= i < args.len() ==> (#[trigger] args[i])@ != "--bench"@,
            }
        }),
        WARMUP_REPS == 3,
{
    let counted = |i: int|
        0 <= i < args.len() - 1 && args[i]@ == "--bench"@ && count_of(args[i + 1]@) is Some;
    lemma_first_count(args, 0);
    match count_after(args, 0) {
        Some(n) => {
            let i = choose|i: int|
                0 <= i < args.len() - 1 && (#[trigger] args[i])@ == "--bench"@ && count_of(
                    args[i + 1]@,
                ) == Some(n) && forall|j: int|
                    0 <= j < i ==> !((#[trigger] args[j])@ == "--bench"@ && count_of(args[j + 1]@)
                        is Some);
            assert(counted(i));
            assert forall|j: int| 0 <= j < i implies !#[trigger] counted(j) by {
                assert(!(args[j]@ == "--bench"@ && count_of(args[j + 1]@) is Some));
            }
        },
        None => {
            assert forall|j: int| !#[trigger] counted(j) by {
                if 0 <= j < args.len() - 1 {
                    assert(!(args[j]@ == "--bench"@ && count_of(args[j + 1]@) is Some));
                }
            }
        },
    }
}

proof fn lemma_first_count(args: Seq<String>, from: nat)
    ensures
        match count_after(args, from) {
            Some(n) => exists|i: int|
                from <= i < args.len() - 1 && (#[trigger] args[i])@ == "--bench"@ && count_of(
                    args[i + 1]@,
                ) == Some(n) && forall|j: int|
                    from <= j < i ==> !((#[trigger] args[j])@ == "--bench"@ && count_of(
                        args[j + 1]@,
                    ) is Some),
            None => forall|j: int|
                from <= j < args.len() - 1 ==> !((#[trigger] args[j])@ == "--bench"@ && count_of(
                    args[j + 1]@,
                ) is Some),
        },
    decreases args.len() - from,
{
    if from + 1 < args.len() {
        if !(args[from as int]@ == "--bench"@ && count_of(args[from as int + 1]@) is Some) {
            lemma_first_count(args, from + 1);
        }
    }
}

/// An optional text holds characters exactly where it is one and has them.
pub proof fn law_holds(s: String, chars: Seq<char>)
    ensures
        holds(Some(s), Some(chars)) <==> s@ == chars,
        !holds(Some(s), None),
        !holds(None, Some(chars)),
        holds(None, None),
{
}

} // verus!
