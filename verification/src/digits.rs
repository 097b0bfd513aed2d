//! Verified decimal rendering and parsing of unsigned integers, plus the
//! zero-padded forms used for date tokens and file names.

use vstd::prelude::*;

verus! {

use crate::strings::push_char;

/// The decimal digit character for `d`.
pub open spec fn digit_char(d: int) -> char {
    if d == 0 {
        '0'
    } else if d == 1 {
        '1'
    } else if d == 2 {
        '2'
    } else if d == 3 {
        '3'
    } else if d == 4 {
        '4'
    } else if d == 5 {
        '5'
    } else if d == 6 {
        '6'
    } else if d == 7 {
        '7'
    } else if d == 8 {
        '8'
    } else {
        '9'
    }
}

/// The value of a decimal digit character, or `-1` if it is none.
pub open spec fn digit_value(c: char) -> int {
    if c == '0' {
        0
    } else if c == '1' {
        1
    } else if c == '2' {
        2
    } else if c == '3' {
        3
    } else if c == '4' {
        4
    } else if c == '5' {
        5
    } else if c == '6' {
        6
    } else if c == '7' {
        7
    } else if c == '8' {
        8
    } else if c == '9' {
        9
    } else {
        -1
    }
}

/// Whether `c` is a decimal digit.
pub open spec fn is_digit(c: char) -> bool {
    digit_value(c) >= 0
}

/// The decimal rendering of `n`, without sign or padding.
pub open spec fn dec_str(n: nat) -> Seq<char>
    decreases n,
{
    if n < 10 {
        seq![digit_char(n as int)]
    } else {
        dec_str(n / 10).push(digit_char((n % 10) as int))
    }
}

/// `n` rendered in decimal, zero-padded on the left to two characters.
pub open spec fn dec_str_pad2(n: nat) -> Seq<char> {
    if n < 10 {
        seq!['0'] + dec_str(n)
    } else {
        dec_str(n)
    }
}

/// `n` rendered in decimal, zero-padded on the left to four characters.
pub open spec fn dec_str_pad4(n: nat) -> Seq<char> {
    if n < 10 {
        seq!['0', '0', '0'] + dec_str(n)
    } else if n < 100 {
        seq!['0', '0'] + dec_str(n)
    } else if n < 1000 {
        seq!['0'] + dec_str(n)
    } else {
        dec_str(n)
    }
}

/// The digit character for `d`.
pub fn digit_to_char(d: u32) -> (c: char)
    requires
        d < 10,
    ensures
        c == digit_char(d as int),
{
    match d {
        0 => '0',
        1 => '1',
        2 => '2',
        3 => '3',
        4 => '4',
        5 => '5',
        6 => '6',
        7 => '7',
        8 => '8',
        _ => '9',
    }
}

/// The value of a digit character, if it is one.
pub fn char_to_digit(c: char) -> (r: Option<u32>)
    ensures
        match r {
            Some(d) => digit_value(c) == d as int && d < 10,
            None => !is_digit(c),
        },
{
    match c {
        '0' => Some(0),
        '1' => Some(1),
        '2' => Some(2),
        '3' => Some(3),
        '4' => Some(4),
        '5' => Some(5),
        '6' => Some(6),
        '7' => Some(7),
        '8' => Some(8),
        '9' => Some(9),
        _ => None,
    }
}

/// `n` rendered in decimal.
pub fn u64_to_string(n: u64) -> (s: String)
    ensures
        s@ == dec_str(n as nat),
    decreases n,
{
    if n < 10 {
        let c = digit_to_char(n as u32);
        let mut s = String::new();
        push_char(&mut s, c);
        proof {
            assert(s@ =~= seq![digit_char(n as int)]);
        }
        s
    } else {
        let mut s = u64_to_string(n / 10);
        let c = digit_to_char((n % 10) as u32);
        push_char(&mut s, c);
        s
    }
}

/// `n` rendered in decimal.
pub fn u32_to_string(n: u32) -> (s: String)
    ensures
        s@ == dec_str(n as nat),
{
    u64_to_string(n as u64)
}

/// `n` rendered in decimal, zero-padded to two characters.
///
/// Values of ten or more keep their full decimal form.
pub fn pad_two_digits(number: u32) -> (s: String)
    ensures
        s@ == dec_str_pad2(number as nat),
{
    if number < 10 {
        let mut s = String::new();
        push_char(&mut s, '0');
        let c = digit_to_char(number);
        push_char(&mut s, c);
        proof {
            assert(s@ =~= seq!['0'] + dec_str(number as nat));
        }
        s
    } else {
        u32_to_string(number)
    }
}

/// `n` rendered in decimal, zero-padded to four characters.
pub fn pad_four_digits(number: u32) -> (s: String)
    ensures
        s@ == dec_str_pad4(number as nat),
{
    let digits = u32_to_string(number);
    let mut s = String::new();
    if number < 10 {
        push_char(&mut s, '0');
        push_char(&mut s, '0');
        push_char(&mut s, '0');
        proof {
            assert(s@ =~= seq!['0', '0', '0']);
        }
    } else if number < 100 {
        push_char(&mut s, '0');
        push_char(&mut s, '0');
        proof {
            assert(s@ =~= seq!['0', '0']);
        }
    } else if number < 1000 {
        push_char(&mut s, '0');
        proof {
            assert(s@ =~= seq!['0']);
        }
    }
    let r = s.concat(digits.as_str());
    proof {
        if number >= 1000 {
            assert(r@ =~= dec_str(number as nat));
        }
    }
    r
}

/// Every character of a decimal rendering is a digit.
pub proof fn lemma_dec_str_digits(n: nat)
    ensures
        forall|i: int| 0 <= i < dec_str(n).len() ==> is_digit(#[trigger] dec_str(n)[i]),
        dec_str(n).len() >= 1,
    decreases n,
{
    if n >= 10 {
        lemma_dec_str_digits(n / 10);
        assert forall|i: int| 0 <= i < dec_str(n).len() implies is_digit(#[trigger] dec_str(n)[i])
            by {
            if i < dec_str(n).len() - 1 {
                assert(dec_str(n)[i] == dec_str(n / 10)[i]);
            }
        }
    }
}

/// The numeric value of a sequence of digit characters, read left to
/// right.  Only meaningful when every character is a digit.
pub open spec fn digits_value(s: Seq<char>) -> int
    decreases s.len(),
{
    if s.len() == 0 {
        0
    } else {
        digits_value(s.drop_last()) * 10 + digit_value(s.last())
    }
}

/// Whether every character of `s` is a decimal digit.
pub open spec fn all_digits(s: Seq<char>) -> bool {
    forall|i: int| 0 <= i < s.len() ==> is_digit(#[trigger] s[i])
}

/// What parsing `s` as an unsigned 32-bit decimal number yields: the
/// value, if `s` is non-empty, all digits, and in range.
pub open spec fn parse_u32_spec(s: Seq<char>) -> Option<u32> {
    if s.len() > 0 && all_digits(s) && digits_value(s) <= u32::MAX {
        Some(digits_value(s) as u32)
    } else {
        None
    }
}

proof fn lemma_digits_value_nonneg(s: Seq<char>)
    requires
        all_digits(s),
    ensures
        digits_value(s) >= 0,
    decreases s.len(),
{
    if s.len() > 0 {
        assert(all_digits(s.drop_last())) by {
            assert(forall|i: int|
                0 <= i < s.len() - 1 ==> s.drop_last()[i] == #[trigger] s[i]);
        }
        lemma_digits_value_nonneg(s.drop_last());
    }
}

proof fn lemma_digits_value_monotone(s: Seq<char>, i: int)
    requires
        all_digits(s),
        0 <= i <= s.len(),
    ensures
        digits_value(s.subrange(0, i)) <= digits_value(s),
    decreases s.len() - i,
{
    if i == s.len() {
        assert(s.subrange(0, i) =~= s);
    } else {
        let t = s.subrange(0, i + 1);
        assert(t.drop_last() =~= s.subrange(0, i));
        assert(all_digits(t)) by {
            assert(forall|k: int| 0 <= k < t.len() ==> t[k] == #[trigger] s[k]);
        }
        lemma_digits_value_nonneg(s.subrange(0, i));
        assert(digits_value(s.subrange(0, i)) <= digits_value(t));
        lemma_digits_value_monotone(s, i + 1);
    }
}

/// The decimal rendering of `n` reads back as `n`.
pub proof fn lemma_dec_str_value(n: nat)
    ensures
        digits_value(dec_str(n)) == n,
    decreases n,
{
    if n < 10 {
        assert(seq![digit_char(n as int)].drop_last() =~= Seq::<char>::empty());
        assert(digits_value(Seq::<char>::empty()) == 0);
    } else {
        lemma_dec_str_value(n / 10);
        assert(dec_str(n).drop_last() =~= dec_str(n / 10));
        assert(dec_str(n).last() == digit_char((n % 10) as int));
    }
}

proof fn lemma_digits_value_prepend_zero(x: Seq<char>)
    ensures
        digits_value(seq!['0'] + x) == digits_value(x),
    decreases x.len(),
{
    if x.len() == 0 {
        assert(seq!['0'] + x =~= seq!['0']);
        assert(seq!['0'].drop_last() =~= Seq::<char>::empty());
        assert(digits_value(Seq::<char>::empty()) == 0);
    } else {
        assert((seq!['0'] + x).drop_last() =~= seq!['0'] + x.drop_last());
        assert((seq!['0'] + x).last() == x.last());
        lemma_digits_value_prepend_zero(x.drop_last());
    }
}

proof fn lemma_all_digits_prepend_zero(x: Seq<char>)
    requires
        all_digits(x),
    ensures
        all_digits(seq!['0'] + x),
{
    assert forall|i: int| 0 <= i < (seq!['0'] + x).len() implies is_digit(
        #[trigger] (seq!['0'] + x)[i],
    ) by {
        if i >= 1 {
            assert((seq!['0'] + x)[i] == x[i - 1]);
        }
    }
}

/// A two-character zero-padded rendering reads back as its value.
pub proof fn lemma_pad2_value(n: nat)
    requires
        n <= u32::MAX,
    ensures
        parse_u32_spec(dec_str_pad2(n)) == Some(n as u32),
        all_digits(dec_str_pad2(n)),
        dec_str_pad2(n).len() >= 1,
{
    lemma_dec_str_value(n);
    lemma_dec_str_digits(n);
    if n < 10 {
        lemma_digits_value_prepend_zero(dec_str(n));
        lemma_all_digits_prepend_zero(dec_str(n));
    }
}

/// A four-character zero-padded rendering reads back as its value.
pub proof fn lemma_pad4_value(n: nat)
    requires
        n <= u32::MAX,
    ensures
        parse_u32_spec(dec_str_pad4(n)) == Some(n as u32),
        all_digits(dec_str_pad4(n)),
        dec_str_pad4(n).len() >= 1,
{
    lemma_dec_str_value(n);
    lemma_dec_str_digits(n);
    let x = dec_str(n);
    if n < 10 {
        assert(seq!['0', '0', '0'] + x =~= seq!['0'] + (seq!['0'] + (seq!['0'] + x)));
        lemma_digits_value_prepend_zero(x);
        lemma_all_digits_prepend_zero(x);
        lemma_digits_value_prepend_zero(seq!['0'] + x);
        lemma_all_digits_prepend_zero(seq!['0'] + x);
        lemma_digits_value_prepend_zero(seq!['0'] + (seq!['0'] + x));
        lemma_all_digits_prepend_zero(seq!['0'] + (seq!['0'] + x));
    } else if n < 100 {
        assert(seq!['0', '0'] + x =~= seq!['0'] + (seq!['0'] + x));
        lemma_digits_value_prepend_zero(x);
        lemma_all_digits_prepend_zero(x);
        lemma_digits_value_prepend_zero(seq!['0'] + x);
        lemma_all_digits_prepend_zero(seq!['0'] + x);
    } else if n < 1000 {
        lemma_digits_value_prepend_zero(x);
        lemma_all_digits_prepend_zero(x);
    }
}

/// Parses `s` as an unsigned 32-bit decimal number.
pub fn parse_u32(s: &str) -> (r: Option<u32>)
    ensures
        r == parse_u32_spec(s@),
{
    let n: usize = s.unicode_len();
    if n == 0 {
        return None;
    }
    let mut value: u32 = 0;
    let mut i: usize = 0;
    while i < n
        invariant
            n == s@.len(),
            0 <= i <= n,
            all_digits(s@.subrange(0, i as int)),
            value as int == digits_value(s@.subrange(0, i as int)),
        decreases n - i,
    {
        let c = s.get_char(i);
        proof {
            assert(s@.subrange(0, i + 1).drop_last() =~= s@.subrange(0, i as int));
            assert(s@.subrange(0, i + 1).last() == s@[i as int]);
        }
        match char_to_digit(c) {
            None => {
                proof {
                    assert(!all_digits(s@)) by {
                        assert(s@[i as int] == c);
                    }
                }
                return None;
            },
            Some(d) => {
                if value > (u32::MAX - d) / 10 {
                    proof {
                        let t = s@.subrange(0, i + 1);
                        assert(all_digits(t));
                        assert(digits_value(t) == value * 10 + d);
                        assert(digits_value(t) > u32::MAX);
                        if all_digits(s@) {
                            lemma_digits_value_monotone(s@, i + 1);
                        }
                    }
                    return None;
                }
                value = value * 10 + d;
                i += 1;
            },
        }
    }
    proof {
        assert(s@.subrange(0, n as int) =~= s@);
    }
    Some(value)
}

} // verus!
