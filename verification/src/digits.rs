//! Decimal representation of integers: the spec-level canonical form
//! used by the encoded-set codec, and verified conversion routines.

use vstd::prelude::*;

verus! {

use vstd::arithmetic::div_mod::lemma_fundamental_div_mod;
use vstd::arithmetic::div_mod::lemma_div_is_ordered;

/// The character for one decimal digit.
pub open spec fn digit_char(d: int) -> char {
    if d == 0 { '0' }
    else if d == 1 { '1' }
    else if d == 2 { '2' }
    else if d == 3 { '3' }
    else if d == 4 { '4' }
    else if d == 5 { '5' }
    else if d == 6 { '6' }
    else if d == 7 { '7' }
    else if d == 8 { '8' }
    else if d == 9 { '9' }
    else { ' ' }
}

/// The value of a digit character, or -1 for any other character.
pub open spec fn digit_val(c: char) -> int {
    if c == '0' { 0 }
    else if c == '1' { 1 }
    else if c == '2' { 2 }
    else if c == '3' { 3 }
    else if c == '4' { 4 }
    else if c == '5' { 5 }
    else if c == '6' { 6 }
    else if c == '7' { 7 }
    else if c == '8' { 8 }
    else if c == '9' { 9 }
    else { -1 }
}

pub open spec fn is_digit(c: char) -> bool {
    digit_val(c) != -1
}

/// The canonical decimal digit string of a natural number: no sign,
/// no leading zero except for the single digit of zero itself.
pub open spec fn dec_digits(n: nat) -> Seq<char>
    decreases n,
{
    if n < 10 {
        seq![digit_char(n as int)]
    } else {
        dec_digits(n / 10).push(digit_char((n % 10) as int))
    }
}

/// The numeric value of a digit string, read most significant first.
pub open spec fn num_val(s: Seq<char>) -> int
    decreases s.len(),
{
    if s.len() == 0 {
        0
    } else {
        num_val(s.drop_last()) * 10 + digit_val(s.last())
    }
}

pub open spec fn all_digits(s: Seq<char>) -> bool {
    forall|i: int| 0 <= i < s.len() ==> is_digit(#[trigger] s[i])
}

/// The canonical decimal string of an integer, with a leading minus
/// sign when it is negative.
pub open spec fn int_repr(v: int) -> Seq<char> {
    if v < 0 {
        seq!['-'] + dec_digits((-v) as nat)
    } else {
        dec_digits(v as nat)
    }
}

/// The magnitude of an integer, as a natural number.
pub open spec fn mag_of(v: int) -> nat {
    if v < 0 { (-v) as nat } else { v as nat }
}

/// A digit character reads back as its digit.
pub proof fn lemma_digit_roundtrip(d: int)
    requires
        0 <= d < 10,
    ensures
        digit_val(digit_char(d)) == d,
{
}

/// Basic shape facts about the canonical digit string.
pub proof fn lemma_dec_digits_props(n: nat)
    ensures
        dec_digits(n).len() >= 1,
        all_digits(dec_digits(n)),
        (dec_digits(n)[0] == '0') <==> (n == 0),
    decreases n,
{
    if n < 10 {
    } else {
        lemma_dec_digits_props(n / 10);
        assert(dec_digits(n)[0] == dec_digits(n / 10)[0]);
    }
}

/// Reading the canonical digits of a number back gives the number.
pub proof fn lemma_num_val_dec_digits(n: nat)
    ensures
        num_val(dec_digits(n)) == n,
    decreases n,
{
    assert(num_val(Seq::<char>::empty()) == 0);
    if n < 10 {
        lemma_digit_roundtrip(n as int);
        assert(dec_digits(n).drop_last() =~= Seq::<char>::empty());
        assert(dec_digits(n).last() == digit_char(n as int));
        assert(num_val(dec_digits(n))
            == num_val(Seq::<char>::empty()) * 10 + digit_val(digit_char(n as int)));
    } else {
        lemma_num_val_dec_digits(n / 10);
        lemma_digit_roundtrip((n % 10) as int);
        assert(dec_digits(n).drop_last() =~= dec_digits(n / 10));
        assert(dec_digits(n).last() == digit_char((n % 10) as int));
        assert(num_val(dec_digits(n))
            == num_val(dec_digits(n / 10)) * 10 + digit_val(digit_char((n % 10) as int)));
        lemma_fundamental_div_mod(n as int, 10);
    }
}

/// Every prefix of a canonical digit string has a value no greater
/// than the whole number, and no smaller than zero.
pub proof fn lemma_dec_digits_prefix(n: nat, i: int)
    requires
        0 <= i <= dec_digits(n).len(),
    ensures
        0 <= num_val(dec_digits(n).take(i)) <= n,
        i < dec_digits(n).len() ==> num_val(dec_digits(n).take(i)) <= n / 10,
    decreases n,
{
    lemma_dec_digits_props(n);
    if i == dec_digits(n).len() {
        assert(dec_digits(n).take(i) =~= dec_digits(n));
        lemma_num_val_dec_digits(n);
    } else if n < 10 {
        assert(dec_digits(n).take(0) =~= Seq::<char>::empty());
    } else {
        assert(dec_digits(n).take(i) =~= dec_digits(n / 10).take(i));
        lemma_dec_digits_prefix(n / 10, i);
    }
}

/// Two integers with the same canonical string are equal.
pub proof fn lemma_int_repr_injective(a: int, b: int)
    requires
        int_repr(a) == int_repr(b),
    ensures
        a == b,
{
    lemma_dec_digits_props(mag_of(a));
    lemma_dec_digits_props(mag_of(b));
    if a < 0 && b >= 0 {
        assert(int_repr(b)[0] == dec_digits(b as nat)[0]);
        assert(is_digit(int_repr(b)[0]));
        assert(int_repr(a)[0] == '-');
    } else if a >= 0 && b < 0 {
        assert(int_repr(a)[0] == dec_digits(a as nat)[0]);
        assert(is_digit(int_repr(a)[0]));
        assert(int_repr(b)[0] == '-');
    } else if a < 0 && b < 0 {
        assert(dec_digits((-a) as nat) =~= int_repr(a).skip(1));
        assert(dec_digits((-b) as nat) =~= int_repr(b).skip(1));
        lemma_num_val_dec_digits((-a) as nat);
        lemma_num_val_dec_digits((-b) as nat);
    } else {
        lemma_num_val_dec_digits(a as nat);
        lemma_num_val_dec_digits(b as nat);
    }
}

/// Every character of a canonical integer string is a digit or the
/// leading minus sign; in particular none is a bracket or a comma.
pub proof fn lemma_int_repr_chars(v: int)
    ensures
        int_repr(v).len() >= 1,
        forall|i: int| 0 <= i < int_repr(v).len() ==>
            (is_digit(#[trigger] int_repr(v)[i]) || int_repr(v)[i] == '-'),
{
    lemma_dec_digits_props(mag_of(v));
    if v < 0 {
        assert forall|i: int| 0 <= i < int_repr(v).len() implies
            (is_digit(#[trigger] int_repr(v)[i]) || int_repr(v)[i] == '-') by {
            if i >= 1 {
                assert(int_repr(v)[i] == dec_digits((-v) as nat)[i - 1]);
            }
        }
    }
}

/// Pushes one decimal digit character.
fn push_digit(s: &mut String, d: u64)
    requires
        d < 10,
    ensures
        final(s)@ == old(s)@.push(digit_char(d as int)),
{
    let c: char = if d == 0 { '0' }
        else if d == 1 { '1' }
        else if d == 2 { '2' }
        else if d == 3 { '3' }
        else if d == 4 { '4' }
        else if d == 5 { '5' }
        else if d == 6 { '6' }
        else if d == 7 { '7' }
        else { if d == 8 { '8' } else { '9' } };
    crate::trusted::push_char(s, c);
}

/// Appends the canonical digits of `n` to `s`.
pub fn push_dec_digits(s: &mut String, n: u64)
    ensures
        final(s)@ == old(s)@ + dec_digits(n as nat),
    decreases n,
{
    if n < 10 {
        push_digit(s, n);
        assert(old(s)@ + dec_digits(n as nat) =~= old(s)@.push(digit_char(n as int)));
    } else {
        push_dec_digits(s, n / 10);
        push_digit(s, n % 10);
        assert(old(s)@ + dec_digits(n as nat)
            =~= (old(s)@ + dec_digits(n as nat / 10)).push(digit_char((n % 10) as int)));
    }
}

/// Appends the canonical decimal string of `v` to `s`.
pub fn push_int(s: &mut String, v: i64)
    ensures
        final(s)@ == old(s)@ + int_repr(v as int),
{
    if v < 0 {
        crate::trusted::push_char(s, '-');
        let mag: u64 = (-(v as i128)) as u64;
        push_dec_digits(s, mag);
        assert(old(s)@ + int_repr(v as int)
            =~= old(s)@.push('-') + dec_digits((-(v as int)) as nat));
    } else {
        push_dec_digits(s, v as u64);
    }
}

/// The exec value of one digit character, or 10 for any other character.
fn digit_of(c: char) -> (r: u64)
    ensures
        digit_val(c) == -1 ==> r == 10,
        digit_val(c) != -1 ==> r == digit_val(c),
{
    if c == '0' { 0 }
    else if c == '1' { 1 }
    else if c == '2' { 2 }
    else if c == '3' { 3 }
    else if c == '4' { 4 }
    else if c == '5' { 5 }
    else if c == '6' { 6 }
    else if c == '7' { 7 }
    else if c == '8' { 8 }
    else if c == '9' { 9 }
    else { 10 }
}

/// Parses a canonical decimal integer. On any string that is the
/// canonical form of an `i64`, it returns that value; on other
/// strings its result is unspecified beyond being a parse attempt.
pub fn parse_i64(s: &str) -> (r: Option<i64>)
    ensures
        forall|v: i64| s@ == int_repr(v as int) ==> r == Some(v),
{
    let n = s.unicode_len();
    if n == 0 {
        return None;
    }
    let neg = s.get_char(0) == '-';
    let start: usize = if neg { 1 } else { 0 };
    if start == n {
        assert forall|v: i64| s@ == int_repr(v as int) implies false by {
            lemma_int_repr_chars(v as int);
            lemma_dec_digits_props(mag_of(v as int));
            if v < 0 {
                assert(int_repr(v as int).len() >= 2);
            } else {
                assert(is_digit(s@[0]));
            }
        }
        return None;
    }
    let mut acc: u64 = 0;
    let mut i: usize = start;
    while i < n
        invariant
            start <= i <= n,
            n == s@.len(),
            start == 1 ==> s@[0] == '-',
            start == if neg { 1int } else { 0int },
            neg == (s@[0] == '-'),
            all_digits(s@.subrange(start as int, i as int)),
            acc == num_val(s@.subrange(start as int, i as int)),
        decreases n - i,
    {
        let c = s.get_char(i);
        let d = digit_of(c);
        if d == 10 {
            assert forall|v: i64| s@ == int_repr(v as int) implies false by {
                lemma_int_repr_chars(v as int);
                lemma_dec_digits_props(mag_of(v as int));
                if v < 0 {
                    assert(s@[i as int] == dec_digits((-(v as int)) as nat)[i - 1]);
                } else {
                    assert(s@[i as int] == dec_digits((v as int) as nat)[i as int]);
                    assert(s@[0] == dec_digits((v as int) as nat)[0]);
                }
            }
            return None;
        }
        if acc > (u64::MAX - 9) / 10 {
            assert forall|v: i64| s@ == int_repr(v as int) implies false by {
                let mag = mag_of(v as int);
                lemma_int_repr_chars(v as int);
                lemma_dec_digits_props(mag);
                assert(mag <= 0x8000_0000_0000_0000);
                if v < 0 {
                    assert(s@.subrange(1, i as int) =~= dec_digits(mag).take(i - 1));
                    lemma_dec_digits_prefix(mag, i - 1);
                } else {
                    assert(s@[0] == dec_digits(mag)[0]);
                    assert(s@.subrange(0, i as int) =~= dec_digits(mag).take(i as int));
                    lemma_dec_digits_prefix(mag, i as int);
                }
                lemma_div_is_ordered(mag as int, 0x8000_0000_0000_0000, 10);
                assert(acc <= 0x8000_0000_0000_0000int / 10);
            }
            return None;
        }
        let ghost pre = s@.subrange(start as int, i as int);
        acc = acc * 10 + d;
        i = i + 1;
        proof {
            assert(s@.subrange(start as int, i as int) =~= pre.push(c));
            assert(pre.push(c).drop_last() =~= pre);
            assert(digit_val(c) == d);
        }
    }
    assert(s@.subrange(start as int, n as int) =~= s@.skip(start as int));
    if neg {
        if acc > 1u64 << 63 {
            assert forall|v: i64| s@ == int_repr(v as int) implies false by {
                lemma_int_repr_chars(v as int);
                lemma_dec_digits_props(mag_of(v as int));
                if v < 0 {
                    let mag = (-(v as int)) as nat;
                    assert(s@.skip(1) =~= dec_digits(mag));
                    lemma_num_val_dec_digits(mag);
                    assert(acc == mag);
                    assert(mag <= 0x8000_0000_0000_0000);
                    assert((1u64 << 63) == 0x8000_0000_0000_0000) by (bit_vector);
                } else {
                    assert(s@[0] == dec_digits((v as int) as nat)[0]);
                }
            }
            return None;
        }
        assert((1u64 << 63) == 0x8000_0000_0000_0000) by (bit_vector);
        let r: i64 = (-(acc as i128)) as i64;
        assert forall|v: i64| s@ == int_repr(v as int) implies Some(r) == Some(v) by {
            lemma_int_repr_chars(v as int);
            lemma_dec_digits_props(mag_of(v as int));
            if v < 0 {
                let mag = (-(v as int)) as nat;
                assert(s@.skip(1) =~= dec_digits(mag));
                lemma_num_val_dec_digits(mag);
            } else {
                assert(s@[0] == dec_digits((v as int) as nat)[0]);
            }
        }
        Some(r)
    } else {
        if acc > i64::MAX as u64 {
            assert forall|v: i64| s@ == int_repr(v as int) implies false by {
                lemma_int_repr_chars(v as int);
                lemma_dec_digits_props(mag_of(v as int));
                if v < 0 {
                    assert(s@[0] == '-');
                } else {
                    let mag = (v as int) as nat;
                    assert(s@.skip(0) =~= dec_digits(mag));
                    lemma_num_val_dec_digits(mag);
                }
            }
            return None;
        }
        let r: i64 = acc as i64;
        assert forall|v: i64| s@ == int_repr(v as int) implies Some(r) == Some(v) by {
            lemma_int_repr_chars(v as int);
            lemma_dec_digits_props(mag_of(v as int));
            if v < 0 {
                assert(s@[0] == '-');
                assert(is_digit(s@[0]));
            } else {
                let mag = (v as int) as nat;
                assert(s@.skip(0) =~= dec_digits(mag));
                lemma_num_val_dec_digits(mag);
            }
        }
        Some(r)
    }
}

} // verus!
