//! The fast integer formatter: minimal decimal text for fixed-width
//! integers, written straight into the output buffer.
//!
//! The textual form is pinned down by [`dec_digits`] and [`int_text`]:
//! no leading zeros (`0` exactly for zero), a leading `-` exactly for
//! negative values.  [`digits_value`] and [`int_value`] read such text
//! back, and the round-trip laws below tie the two together.

use crate::buffer::Buffer;
use crate::buffer::char_byte_len;
use crate::escape::escaped;
use crate::escape::lemma_escaped_identity;
use crate::escape::reserved_char;
use vstd::prelude::*;

verus! {

/// The decimal digit character for a value below ten.
pub open spec fn dec_digit(d: nat) -> char {
    if d == 0 {
        '0'
    } else if d == 1 {
        '1'
    } else if d == 2 {
        '2'
    } else if d == 3 {
        '3'
    } else if d == 4 {
        '4'
    } else if d == 5 {
        '5'
    } else if d == 6 {
        '6'
    } else if d == 7 {
        '7'
    } else if d == 8 {
        '8'
    } else {
        '9'
    }
}

/// The value of a decimal digit character; ten for any other character.
pub open spec fn char_digit(c: char) -> nat {
    if c == '0' {
        0
    } else if c == '1' {
        1
    } else if c == '2' {
        2
    } else if c == '3' {
        3
    } else if c == '4' {
        4
    } else if c == '5' {
        5
    } else if c == '6' {
        6
    } else if c == '7' {
        7
    } else if c == '8' {
        8
    } else if c == '9' {
        9
    } else {
        10
    }
}

/// Whether a character is a decimal digit.
pub open spec fn is_digit_char(c: char) -> bool {
    char_digit(c) < 10
}

/// The minimal decimal digit string of a non-negative value: no leading
/// zeros, `0` exactly for zero.
pub open spec fn dec_digits(n: nat) -> Seq<char>
    decreases n,
{
    if n < 10 {
        seq![dec_digit(n)]
    } else {
        dec_digits(n / 10).push(dec_digit(n % 10))
    }
}

/// The minimal decimal text of an integer: the digit string of its
/// magnitude, prefixed by `-` exactly when the value is negative.
pub open spec fn int_text(v: int) -> Seq<char> {
    if v < 0 {
        seq!['-'] + dec_digits((-v) as nat)
    } else {
        dec_digits(v as nat)
    }
}

/// Powers of ten, for bounding the length of decimal text.
pub open spec fn pow10(k: nat) -> nat
    decreases k,
{
    if k == 0 {
        1
    } else {
        10 * pow10((k - 1) as nat)
    }
}

/// The powers of ten that bound each supported integer width.
pub proof fn lemma_pow10_values()
    ensures
        pow10(3) == 1000,
        pow10(5) == 100000,
        pow10(10) == 10000000000,
        pow10(19) == 10000000000000000000,
        pow10(20) == 100000000000000000000,
{
    reveal_with_fuel(pow10, 21);
}

/// A value below the `k`-th power of ten has at most `k` decimal digits:
/// the maximum textual length each width declares is honest.
pub proof fn lemma_dec_digits_len(n: nat, k: nat)
    requires
        1 <= k,
        n < pow10(k),
    ensures
        dec_digits(n).len() <= k,
    decreases n,
{
    if n >= 10 {
        assert(pow10(0) == 1);
        assert(pow10(1) == 10);
        assert(k != 1);
        assert(pow10(k) == 10 * pow10((k - 1) as nat));
        vstd::arithmetic::div_mod::lemma_multiply_divide_lt(
            n as int,
            10,
            pow10((k - 1) as nat) as int,
        );
        lemma_dec_digits_len(n / 10, (k - 1) as nat);
    }
}

/// The decimal text of an integer whose magnitude is below the `k`-th
/// power of ten takes at most `k` digits, plus one byte for the sign.
pub proof fn lemma_int_text_len(v: int, k: nat)
    requires
        1 <= k,
        v >= 0 ==> v < pow10(k),
        v < 0 ==> -v < pow10(k),
    ensures
        v >= 0 ==> int_text(v).len() <= k,
        v < 0 ==> int_text(v).len() <= k + 1,
{
    if v < 0 {
        lemma_dec_digits_len((-v) as nat, k);
    } else {
        lemma_dec_digits_len(v as nat, k);
    }
}

/// The number read back from a digit string.
pub open spec fn digits_value(s: Seq<char>) -> nat
    decreases s.len(),
{
    if s.len() == 0 {
        0
    } else {
        digits_value(s.drop_last()) * 10 + char_digit(s.last())
    }
}

/// The integer read back from decimal text with an optional leading `-`.
pub open spec fn int_value(s: Seq<char>) -> int {
    if s.len() > 0 && s[0] == '-' {
        -(digits_value(s.drop_first()) as int)
    } else {
        digits_value(s) as int
    }
}

/// The digit string of a non-negative value reads back to that value, is
/// never empty, consists of digit characters only, and starts with `0`
/// only for zero itself.
pub proof fn lemma_dec_digits_round_trip(n: nat)
    ensures
        digits_value(dec_digits(n)) == n,
        dec_digits(n).len() >= 1,
        forall|i: int| 0 <= i < dec_digits(n).len() ==> is_digit_char(#[trigger] dec_digits(n)[i]),
        n == 0 ==> dec_digits(n) == seq!['0'],
        n > 0 ==> dec_digits(n)[0] != '0',
    decreases n,
{
    if n < 10 {
        assert(seq![dec_digit(n)].drop_last() =~= Seq::<char>::empty());
        assert(digits_value(Seq::<char>::empty()) == 0);
        assert(char_digit(dec_digit(n)) == n);
    } else {
        lemma_dec_digits_round_trip(n / 10);
        let d = dec_digit(n % 10);
        assert(dec_digits(n) == dec_digits(n / 10).push(d));
        assert(dec_digits(n).drop_last() =~= dec_digits(n / 10));
        assert(dec_digits(n).last() == d);
        assert(char_digit(d) == n % 10);
        vstd::arithmetic::div_mod::lemma_fundamental_div_mod(n as int, 10);
        assert(digits_value(dec_digits(n)) == (n / 10) * 10 + n % 10);
        assert(dec_digits(n)[0] == dec_digits(n / 10)[0]);
    }
}

/// The decimal text of an integer reads back to that value, starts with
/// `-` exactly when the value is negative, and has no leading zeros.
pub proof fn lemma_int_text_round_trip(v: int)
    ensures
        int_value(int_text(v)) == v,
        int_text(v).len() >= 1,
        int_text(v)[0] == '-' <==> v < 0,
        v > 0 ==> int_text(v)[0] != '0',
        v < 0 ==> int_text(v)[1] != '0',
        v == 0 ==> int_text(v) == seq!['0'],
{
    if v < 0 {
        lemma_dec_digits_round_trip((-v) as nat);
        let t = int_text(v);
        assert(t[0] == '-');
        assert(t.drop_first() =~= dec_digits((-v) as nat));
        assert(t[1] == dec_digits((-v) as nat)[0]);
    } else {
        lemma_dec_digits_round_trip(v as nat);
        assert(is_digit_char(int_text(v)[0]));
        assert(int_text(v)[0] != '-');
    }
}

/// Decimal text contains digits and at most a leading `-`, none of which
/// the escaping policy touches: numeric output never needs escaping.
pub proof fn lemma_int_text_unescaped(v: int)
    ensures
        escaped(int_text(v)) == int_text(v),
{
    lemma_int_text_round_trip(v);
    if v < 0 {
        lemma_dec_digits_round_trip((-v) as nat);
        assert forall|i: int| 0 <= i < int_text(v).len() implies !reserved_char(
            #[trigger] int_text(v)[i],
        ) by {
            if i > 0 {
                assert(int_text(v)[i] == dec_digits((-v) as nat)[i - 1]);
                assert(is_digit_char(int_text(v)[i]));
            }
        }
    } else {
        lemma_dec_digits_round_trip(v as nat);
        assert forall|i: int| 0 <= i < int_text(v).len() implies !reserved_char(
            #[trigger] int_text(v)[i],
        ) by {
            assert(is_digit_char(int_text(v)[i]));
        }
    }
    lemma_escaped_identity(int_text(v));
}

/// Digit characters and the sign take one byte each in the encoding:
/// decimal text is as many bytes as it is characters.
pub proof fn lemma_decimal_char_byte_len(c: char)
    requires
        is_digit_char(c) || c == '-',
    ensures
        char_byte_len(c) == 1,
{
}

/// The digit character for a value below ten.
fn digit_char(d: u64) -> (c: char)
    requires
        d < 10,
    ensures
        c == dec_digit(d as nat),
{
    match d {
        0 => '0',
        1 => '1',
        2 => '2',
        3 => '3',
        4 => '4',
        5 => '5',
        6 => '6',
        7 => '7',
        8 => '8',
        _ => '9',
    }
}

/// Appends the minimal decimal digit string of `n` to the buffer.  The
/// digits of the magnitude are collected back-to-front by repeated
/// division, then emitted from the end.
pub fn write_u64(n: u64, b: &mut Buffer)
    ensures
        final(b)@ == old(b)@ + dec_digits(n as nat),
        old(b).spec_len() + dec_digits(n as nat).len() <= usize::MAX ==> final(b).spec_len()
            == old(b).spec_len() + dec_digits(n as nat).len(),
{
    let mut tmp: Vec<char> = Vec::new();
    let mut m: u64 = n;
    proof {
        assert(Seq::<char>::empty().reverse() =~= Seq::<char>::empty());
        assert(dec_digits(n as nat) =~= dec_digits(n as nat) + Seq::<char>::empty());
    }
    while m >= 10
        invariant
            dec_digits(n as nat) == dec_digits(m as nat) + tmp@.reverse(),
        decreases m,
    {
        let d = m % 10;
        let c = digit_char(d);
        proof {
            let t = tmp@;
            assert(dec_digits(m as nat) == dec_digits((m as nat) / 10).push(c));
            assert(t.push(c).reverse() =~= seq![c] + t.reverse());
            assert(dec_digits((m as nat) / 10).push(c) + t.reverse() =~= dec_digits(
                (m as nat) / 10,
            ) + (seq![c] + t.reverse()));
            assert((m / 10) as nat == (m as nat) / 10);
        }
        tmp.push(c);
        m = m / 10;
    }
    let c = digit_char(m);
    proof {
        let t = tmp@;
        assert(dec_digits(m as nat) == seq![c]);
        assert(t.push(c).reverse() =~= seq![c] + t.reverse());
        assert(dec_digits(n as nat) =~= t.push(c).reverse());
    }
    tmp.push(c);
    let ghost b0 = b@;
    let ghost l0 = b.spec_len();
    let k = tmp.len();
    let mut j: usize = k;
    proof {
        lemma_dec_digits_round_trip(n as nat);
        assert(tmp@.subrange(k as int, k as int).reverse() =~= Seq::<char>::empty());
        assert(b@ =~= b0 + tmp@.subrange(k as int, k as int).reverse());
    }
    while j > 0
        invariant
            j <= k,
            k == tmp@.len(),
            tmp@.reverse() == dec_digits(n as nat),
            forall|i: int|
                0 <= i < dec_digits(n as nat).len() ==> is_digit_char(
                    #[trigger] dec_digits(n as nat)[i],
                ),
            b@ == b0 + tmp@.subrange(j as int, k as int).reverse(),
            l0 + k <= usize::MAX ==> b.spec_len() == l0 + (k - j),
        decreases j,
    {
        j = j - 1;
        let c2 = tmp[j];
        proof {
            assert(tmp@.subrange(j as int, k as int).reverse() =~= tmp@.subrange(
                j + 1,
                k as int,
            ).reverse().push(tmp@[j as int]));
            assert(tmp@[j as int] == tmp@.reverse()[k - 1 - j]);
            assert(is_digit_char(c2));
            lemma_decimal_char_byte_len(c2);
        }
        b.push(c2);
        proof {
            assert(b@ =~= b0 + tmp@.subrange(j as int, k as int).reverse());
        }
    }
    proof {
        assert(tmp@.subrange(0, k as int) =~= tmp@);
        assert(b@ =~= b0 + tmp@.reverse());
    }
}

/// Appends the minimal decimal text of `v`, sign included, to the buffer.
/// The minimum of the signed range is negated as an unsigned magnitude.
pub fn write_i64(v: i64, b: &mut Buffer)
    ensures
        final(b)@ == old(b)@ + int_text(v as int),
        old(b).spec_len() + int_text(v as int).len() <= usize::MAX ==> final(b).spec_len()
            == old(b).spec_len() + int_text(v as int).len(),
{
    if v >= 0 {
        write_u64(v as u64, b);
    } else {
        let ghost start = b@;
        proof {
            lemma_decimal_char_byte_len('-');
            lemma_dec_digits_round_trip((-(v as int)) as nat);
        }
        b.push('-');
        let m: u64 = if v == i64::MIN {
            9223372036854775808u64
        } else {
            (-v) as u64
        };
        proof {
            assert(m as nat == (-(v as int)) as nat);
        }
        let ghost mid = b@;
        write_u64(m, b);
        proof {
            assert(mid =~= start + seq!['-']);
            assert(b@ =~= start + (seq!['-'] + dec_digits(m as nat)));
        }
    }
}

} // verus!
