//! Plain-text rendering of numbers: decimal and hexadecimal numerals, padding
//! and joining, with the exact characters stated in every contract.

use vstd::prelude::*;

verus! {

/// The character of one digit, `0` to `9` and then `a` to `f`, or `A` to `F`
/// when `upper` is set.
pub open spec fn digit_char(d: nat, upper: bool) -> char {
    if d < 10 {
        seq!['0', '1', '2', '3', '4', '5', '6', '7', '8', '9'][d as int]
    } else if upper {
        seq!['A', 'B', 'C', 'D', 'E', 'F'][d - 10]
    } else {
        seq!['a', 'b', 'c', 'd', 'e', 'f'][d - 10]
    }
}

/// The numeral of `n` in the given base, most significant digit first and
/// without leading zeros.
pub open spec fn numeral(n: nat, base: nat, upper: bool) -> Seq<char>
    decreases n,
{
    if n < base || base < 2 {
        seq![digit_char(n, upper)]
    } else {
        proof {
            assert(n / base < n) by (nonlinear_arith)
                requires
                    n >= base,
                    base >= 2,
            ;
        }
        numeral(n / base, base, upper).push(digit_char(n % base, upper))
    }
}

/// The decimal numeral of a natural number.
pub open spec fn decimal(n: nat) -> Seq<char> {
    numeral(n, 10, false)
}

/// The decimal numeral of an integer, with a leading `-` when it is negative.
pub open spec fn signed_decimal(n: int) -> Seq<char> {
    if n < 0 {
        seq!['-'] + decimal((-n) as nat)
    } else {
        decimal(n as nat)
    }
}

/// `count` copies of one character.
pub open spec fn repeated(c: char, count: int) -> Seq<char> {
    Seq::new(
        if count > 0 {
            count as nat
        } else {
            0
        },
        |i: int| c,
    )
}

/// `s` filled up with zeros on the left to at least `width` characters.
pub open spec fn zero_padded(s: Seq<char>, width: nat) -> Seq<char> {
    repeated('0', width - s.len()) + s
}

/// `s` filled up with spaces on the right to at least `width` characters.
pub open spec fn space_padded(s: Seq<char>, width: nat) -> Seq<char> {
    s + repeated(' ', width - s.len())
}

/// The parts of `parts` in order, with `sep` between neighbours.
pub open spec fn joined(parts: Seq<Seq<char>>, sep: Seq<char>) -> Seq<char>
    decreases parts.len(),
{
    if parts.len() == 0 {
        Seq::empty()
    } else if parts.len() == 1 {
        parts[0]
    } else {
        joined(parts.drop_last(), sep) + sep + parts.last()
    }
}

/// The text of one digit.
fn digit_text(d: u64, upper: bool) -> (r: &'static str)
    requires
        d < 16,
    ensures
        r@ == seq![digit_char(d as nat, upper)],
{
    proof {
        reveal_strlit("0");
        reveal_strlit("1");
        reveal_strlit("2");
        reveal_strlit("3");
        reveal_strlit("4");
        reveal_strlit("5");
        reveal_strlit("6");
        reveal_strlit("7");
        reveal_strlit("8");
        reveal_strlit("9");
        reveal_strlit("a");
        reveal_strlit("b");
        reveal_strlit("c");
        reveal_strlit("d");
        reveal_strlit("e");
        reveal_strlit("f");
        reveal_strlit("A");
        reveal_strlit("B");
        reveal_strlit("C");
        reveal_strlit("D");
        reveal_strlit("E");
        reveal_strlit("F");
    }
    let r = match (d, upper) {
        (0, _) => "0",
        (1, _) => "1",
        (2, _) => "2",
        (3, _) => "3",
        (4, _) => "4",
        (5, _) => "5",
        (6, _) => "6",
        (7, _) => "7",
        (8, _) => "8",
        (9, _) => "9",
        (10, false) => "a",
        (11, false) => "b",
        (12, false) => "c",
        (13, false) => "d",
        (14, false) => "e",
        (15, false) => "f",
        (10, true) => "A",
        (11, true) => "B",
        (12, true) => "C",
        (13, true) => "D",
        (14, true) => "E",
        _ => "F",
    };
    assert(r@ =~= seq![digit_char(d as nat, upper)]);
    r
}

/// Appends the numeral of `n` in base `base` to `out`.
pub fn push_numeral(out: &mut String, n: u64, base: u64, upper: bool)
    requires
        2 <= base <= 16,
    ensures
        final(out)@ == old(out)@ + numeral(n as nat, base as nat, upper),
    decreases n,
{
    if n < base {
        out.append(digit_text(n, upper));
        assert(out@ =~= old(out)@ + numeral(n as nat, base as nat, upper));
    } else {
        assert(n / base < n) by (nonlinear_arith)
            requires
                base >= 2,
                n >= base,
        ;
        assert(n % base < base) by (nonlinear_arith)
            requires
                base >= 2,
        ;
        push_numeral(out, n / base, base, upper);
        out.append(digit_text(n % base, upper));
        assert(out@ =~= old(out)@ + numeral(n as nat, base as nat, upper));
    }
}

/// Appends the decimal numeral of `n` to `out`.
pub fn push_decimal(out: &mut String, n: u64)
    ensures
        final(out)@ == old(out)@ + decimal(n as nat),
{
    push_numeral(out, n, 10, false);
}

/// Appends the decimal numeral of a signed number to `out`.
pub fn push_signed(out: &mut String, n: i64)
    ensures
        final(out)@ == old(out)@ + signed_decimal(n as int),
{
    if n < 0 {
        proof {
            reveal_strlit("-");
        }
        out.append("-");
        let m: u64 = (-(n + 1)) as u64 + 1;
        push_numeral(out, m, 10, false);
        assert(out@ =~= old(out)@ + signed_decimal(n as int));
    } else {
        push_numeral(out, n as u64, 10, false);
    }
}

/// Appends the numeral of `n`, filled up with zeros on the left to `width`
/// characters.
pub fn push_zero_padded(out: &mut String, n: u64, base: u64, upper: bool, width: u64)
    requires
        2 <= base <= 16,
    ensures
        final(out)@ == old(out)@ + zero_padded(numeral(n as nat, base as nat, upper), width as nat),
{
    let len = numeral_len(n, base, upper);
    let mut i: u64 = len;
    proof {
        reveal_strlit("0");
        assert(out@ =~= old(out)@ + repeated('0', 0));
    }
    while i < width
        invariant
            len <= i,
            i == len || i <= width,
            len == numeral(n as nat, base as nat, upper).len(),
            out@ == old(out)@ + repeated('0', i - len),
        decreases width - i,
    {
        proof {
            reveal_strlit("0");
        }
        out.append("0");
        i = i + 1;
        assert(out@ =~= old(out)@ + repeated('0', i - len));
    }
    proof {
        assert(repeated('0', i - len) =~= repeated('0', width - len));
    }
    push_numeral(out, n, base, upper);
    assert(out@ =~= old(out)@ + zero_padded(numeral(n as nat, base as nat, upper), width as nat));
}

/// The number of digits in the numeral of `n`.
fn numeral_len(n: u64, base: u64, upper: bool) -> (len: u64)
    requires
        2 <= base <= 16,
    ensures
        len == numeral(n as nat, base as nat, upper).len(),
        1 <= len <= n + 1,
    decreases n,
{
    if n < base {
        1
    } else {
        assert(n / base <= n / 2) by (nonlinear_arith)
            requires
                base >= 2,
        ;
        let shorter = numeral_len(n / base, base, upper);
        shorter + 1
    }
}

/// Appends `s`, filled up with spaces on the right to `width` characters.
pub fn push_space_padded(out: &mut String, s: &str, width: usize)
    ensures
        final(out)@ == old(out)@ + space_padded(s@, width as nat),
{
    out.append(s);
    let len: usize = s.unicode_len();
    let mut i: usize = len;
    assert(out@ =~= old(out)@ + (s@ + repeated(' ', 0)));
    while i < width
        invariant
            len == s@.len(),
            len <= i,
            i == len || i <= width,
            out@ == old(out)@ + (s@ + repeated(' ', i - len)),
        decreases width - i,
    {
        proof {
            reveal_strlit(" ");
        }
        out.append(" ");
        i = i + 1;
        assert(out@ =~= old(out)@ + (s@ + repeated(' ', i - len)));
    }
    assert(repeated(' ', i - len) =~= repeated(' ', width - len));
}

/// A digit reads as the usual character.
pub proof fn law_digit_characters(upper: bool)
    ensures
        digit_char(0, upper) == '0',
        digit_char(1, upper) == '1',
        digit_char(2, upper) == '2',
        digit_char(3, upper) == '3',
        digit_char(4, upper) == '4',
        digit_char(5, upper) == '5',
        digit_char(6, upper) == '6',
        digit_char(7, upper) == '7',
        digit_char(8, upper) == '8',
        digit_char(9, upper) == '9',
        digit_char(10, upper) == if upper { 'A' } else { 'a' },
        digit_char(11, upper) == if upper { 'B' } else { 'b' },
        digit_char(12, upper) == if upper { 'C' } else { 'c' },
        digit_char(13, upper) == if upper { 'D' } else { 'd' },
        digit_char(14, upper) == if upper { 'E' } else { 'e' },
        digit_char(15, upper) == if upper { 'F' } else { 'f' },
{
}

/// Appending a digit to the numeral of a number multiplies it by the base and
/// adds the digit; numbers below the base are single digits.
pub proof fn law_numeral_is_positional(q: nat, d: nat, base: nat, upper: bool)
    requires
        2 <= base <= 16,
        d < base,
    ensures
        numeral(d, base, upper) == seq![digit_char(d, upper)],
        q > 0 ==> numeral(q * base + d, base, upper) == numeral(q, base, upper).push(
            digit_char(d, upper),
        ),
{
    if q > 0 {
        assert((q * base + d) / base == q && (q * base + d) % base == d && q * base + d >= base)
            by (nonlinear_arith)
            requires
                d < base,
                q > 0,
        ;
    }
}

/// Decimal numerals are numerals of base ten; a negative number is a minus sign
/// and the numeral of its opposite.
pub proof fn law_decimal_is_base_ten(n: nat)
    ensures
        decimal(n) == numeral(n, 10, false),
        signed_decimal(n as int) == numeral(n, 10, false),
        n > 0 ==> signed_decimal(-(n as int)) == seq!['-'] + numeral(n, 10, false),
{
}

/// Different numbers have different numerals.
pub proof fn law_numerals_differ(m: nat, n: nat, base: nat, upper: bool)
    requires
        2 <= base <= 16,
        numeral(m, base, upper) == numeral(n, base, upper),
    ensures
        m == n,
    decreases m,
{
    lemma_numeral_is_not_empty(m, base, upper);
    lemma_numeral_is_not_empty(n, base, upper);
    let s = numeral(m, base, upper);
    if m >= base {
        assert(m / base < m && m / base > 0 && m == (m / base) * base + m % base) by (nonlinear_arith)
            requires
                m >= base,
                base >= 2,
        ;
        lemma_numeral_is_not_empty(m / base, base, upper);
        assert(s.len() > 1);
    }
    if n >= base {
        assert(n / base > 0 && n == (n / base) * base + n % base) by (nonlinear_arith)
            requires
                n >= base,
                base >= 2,
        ;
        lemma_numeral_is_not_empty(n / base, base, upper);
        assert(s.len() > 1);
    }
    assert(m % base < base && n % base < base) by (nonlinear_arith)
        requires
            base >= 2,
    ;
    assert(m < base ==> s.last() == digit_char(m, upper));
    assert(n < base ==> s.last() == digit_char(n, upper));
    assert(m >= base ==> s.last() == digit_char(m % base, upper));
    assert(n >= base ==> s.last() == digit_char(n % base, upper));
    if m >= base {
        assert(s.drop_last() =~= numeral(m / base, base, upper));
        assert(s.drop_last() =~= numeral(n / base, base, upper));
        law_numerals_differ(m / base, n / base, base, upper);
    }
}

proof fn lemma_numeral_is_not_empty(n: nat, base: nat, upper: bool)
    requires
        base >= 2,
    ensures
        numeral(n, base, upper).len() > 0,
{
}

/// Padding reaches the width, keeps the text and adds nothing but the filler:
/// zeros in front, spaces behind.
pub proof fn law_padding(s: Seq<char>, width: nat)
    ensures
        ({
            let n = if s.len() < width {
                (width - s.len()) as int
            } else {
                0
            };
            &&& zero_padded(s, width).len() == n + s.len()
            &&& zero_padded(s, width).skip(n) == s
            &&& forall|i: int| 0 <= i < n ==> (#[trigger] zero_padded(s, width)[i]) == '0'
            &&& space_padded(s, width).len() == n + s.len()
            &&& space_padded(s, width).take(s.len() as int) == s
            &&& forall|i: int|
                s.len() <= i < s.len() + n ==> (#[trigger] space_padded(s, width)[i]) == ' '
        }),
{
    let n = if s.len() < width {
        (width - s.len()) as int
    } else {
        0
    };
    assert(zero_padded(s, width).skip(n) =~= s);
    assert(space_padded(s, width).take(s.len() as int) =~= s);
}

/// Joining puts the separator between neighbours, and nowhere else.
pub proof fn law_joined(parts: Seq<Seq<char>>, part: Seq<char>, sep: Seq<char>)
    ensures
        joined(Seq::empty(), sep) == Seq::<char>::empty(),
        joined(seq![part], sep) == part,
        parts.len() > 0 ==> joined(parts.push(part), sep) == joined(parts, sep) + sep + part,
{
    if parts.len() > 0 {
        assert(parts.push(part).drop_last() =~= parts);
    }
}

} // verus!
