//! Whole numbers in decimal notation.

use vstd::prelude::*;

verus! {

/// The character that stands for a digit.
pub open spec fn digit(d: nat) -> char
    recommends
        d < 10,
{
    (48 + d) as char
}

/// A number in decimal notation, without leading zeros.
pub open spec fn decimal(n: nat) -> Seq<char>
    decreases n,
{
    if n < 10 {
        seq![digit(n)]
    } else {
        decimal(n / 10).push(digit(n % 10))
    }
}

/// A run of zeros.
pub open spec fn zeros(count: nat) -> Seq<char> {
    Seq::new(count, |i: int| '0')
}

/// A number in decimal notation with leading zeros up to a width.
pub open spec fn padded(n: nat, width: nat) -> Seq<char> {
    let d = decimal(n);
    if d.len() < width {
        zeros((width - d.len()) as nat) + d
    } else {
        d
    }
}

/// A decimal digit.
pub open spec fn is_digit(c: char) -> bool {
    '0' <= c <= '9'
}

/// A text made of decimal digits alone.
pub open spec fn all_digits(s: Seq<char>) -> bool {
    forall|i: int| 0 <= i < s.len() ==> is_digit(#[trigger] s[i])
}

/// The number that a run of digits stands for.
pub open spec fn digits_value(s: Seq<char>) -> nat
    decreases s.len(),
{
    if s.len() == 0 {
        0
    } else {
        10 * digits_value(s.drop_last()) + (s.last() as nat - 48) as nat
    }
}

/// A text without one leading plus sign.
pub open spec fn unsigned_part(s: Seq<char>) -> Seq<char> {
    if s.len() > 0 && s[0] == '+' {
        s.drop_first()
    } else {
        s
    }
}

/// The number that a text stands for: an optional plus sign, then at least one
/// digit and nothing else.
pub open spec fn parsed(s: Seq<char>) -> Option<nat> {
    let d = unsigned_part(s);
    if d.len() > 0 && all_digits(d) {
        Some(digits_value(d))
    } else {
        None
    }
}

/// The number that a text stands for, where it fits in a `usize`.
pub open spec fn parsed_usize(s: Seq<char>) -> Option<usize> {
    match parsed(s) {
        Some(n) => if n <= usize::MAX {
            Some(n as usize)
        } else {
            None
        },
        None => None,
    }
}

/// Appends a number in decimal notation.
pub fn push_decimal(s: &mut String, n: u64)
    ensures
        final(s)@ == old(s)@ + decimal(n as nat),
    decreases n,
{
    if n >= 10 {
        push_decimal(s, n / 10);
    }
    let d: u8 = (n % 10) as u8;
    s.push((48u8 + d) as char);
    assert(s@ =~= old(s)@ + decimal(n as nat));
}

/// Appends a number in decimal notation with leading zeros up to a width.
pub fn push_padded(s: &mut String, n: u64, width: usize)
    ensures
        final(s)@ == old(s)@ + padded(n as nat, width as nat),
    decreases n,
{
    proof {
        lemma_padded_step(n as nat, width as nat);
    }
    let rest: usize = if width > 0 {
        width - 1
    } else {
        0
    };
    if n >= 10 {
        push_padded(s, n / 10, rest);
    } else {
        let mut i: usize = 0;
        while i < rest
            invariant
                i <= rest,
                s@ == old(s)@ + zeros(i as nat),
            decreases rest - i,
        {
            s.push('0');
            i = i + 1;
            assert(s@ =~= old(s)@ + zeros(i as nat));
        }
    }
    let d: u8 = (n % 10) as u8;
    s.push((48u8 + d) as char);
    assert(s@ =~= old(s)@ + padded(n as nat, width as nat));
}

/// Reads a number, as `str::parse` does for a `usize`.
pub fn parse_usize(s: &str) -> (r: Option<usize>)
    ensures
        r == parsed_usize(s@),
{
    let chars = crate::text::chars_of(s);
    let mut i: usize = 0;
    if chars.len() > 0 && chars[0] == '+' {
        i = 1;
    }
    let ghost d = unsigned_part(s@);
    let start = i;
    assert(d =~= s@.skip(start as int));
    if i == chars.len() {
        return None;
    }
    let mut value: usize = 0;
    assert(d.take(0) =~= Seq::<char>::empty());
    while i < chars.len()
        invariant
            start <= i <= chars@.len(),
            chars@ == s@,
            d == unsigned_part(s@),
            d == s@.skip(start as int),
            d.len() > 0,
            all_digits(d.take(i - start)),
            value == digits_value(d.take(i - start)),
        decreases chars@.len() - i,
    {
        let c = chars[i];
        assert(c == d[i - start]);
        if !('0' <= c && c <= '9') {
            return None;
        }
        let v: usize = (c as u32 - 48) as usize;
        assert(d.take(i + 1 - start).drop_last() =~= d.take(i - start));
        assert(digits_value(d.take(i + 1 - start)) == 10 * value + v);
        if value > usize::MAX / 10 || (value == usize::MAX / 10 && v > usize::MAX % 10) {
            proof {
                lemma_digits_value_grows(d, i + 1 - start);
            }
            return None;
        }
        value = value * 10 + v;
        i = i + 1;
    }
    assert(d.take(i - start) =~= d);
    Some(value)
}

pub proof fn lemma_decimal_nonempty(n: nat)
    ensures
        decimal(n).len() > 0,
    decreases n,
{
}

proof fn lemma_padded_step(n: nat, width: nat)
    ensures
        ({
            let rest = if width > 0 {
                (width - 1) as nat
            } else {
                0
            };
            &&& n < 10 ==> padded(n, width) == zeros(rest).push(digit(n))
            &&& n >= 10 ==> padded(n, width) == padded(n / 10, rest).push(digit(n % 10))
        }),
{
    let rest = if width > 0 {
        (width - 1) as nat
    } else {
        0
    };
    if n < 10 {
        assert(padded(n, width) =~= zeros(rest).push(digit(n)));
    } else {
        lemma_decimal_nonempty(n / 10);
        assert(padded(n, width) =~= padded(n / 10, rest).push(digit(n % 10)));
    }
}

proof fn lemma_digits_value_grows(d: Seq<char>, count: int)
    requires
        0 <= count <= d.len(),
    ensures
        digits_value(d.take(count)) <= digits_value(d),
    decreases d.len(),
{
    if count < d.len() {
        assert(d.drop_last().take(count) =~= d.take(count));
        lemma_digits_value_grows(d.drop_last(), count);
    } else {
        assert(d.take(count) =~= d);
    }
}

/// Decimal notation consists of digits that stand for the number.
pub proof fn law_decimal_value(n: nat)
    ensures
        all_digits(decimal(n)),
        decimal(n).len() > 0,
        digits_value(decimal(n)) == n,
    decreases n,
{
    if n < 10 {
        assert(decimal(n).drop_last() =~= Seq::<char>::empty());
        assert(digits_value(Seq::<char>::empty()) == 0);
    } else {
        law_decimal_value(n / 10);
        assert(decimal(n).drop_last() =~= decimal(n / 10));
    }
}

/// Leading zeros change neither that it is all digits nor what they stand for.
pub proof fn law_padded_value(n: nat, width: nat)
    ensures
        all_digits(padded(n, width)),
        padded(n, width).len() > 0,
        padded(n, width).len() >= width,
        digits_value(padded(n, width)) == n,
{
    law_decimal_value(n);
    let d = decimal(n);
    if d.len() < width {
        lemma_leading_zeros((width - d.len()) as nat, d);
    }
}

proof fn lemma_leading_zeros(count: nat, d: Seq<char>)
    requires
        all_digits(d),
    ensures
        digits_value(zeros(count) + d) == digits_value(d),
    decreases count + d.len(),
{
    let s = zeros(count) + d;
    if d.len() > 0 {
        assert(s.drop_last() =~= zeros(count) + d.drop_last());
        lemma_leading_zeros(count, d.drop_last());
    } else if count > 0 {
        assert(s.drop_last() =~= zeros((count - 1) as nat) + d);
        lemma_leading_zeros((count - 1) as nat, d);
    }
}

/// Reading a number back gives the number that was written, padded or not.
pub proof fn law_parse_reads_back(n: usize, width: nat)
    ensures
        parsed_usize(padded(n as nat, width)) == Some(n),
        parsed_usize(decimal(n as nat)) == Some(n),
{
    law_padded_value(n as nat, width);
    law_decimal_value(n as nat);
}

/// Different numbers have different decimal notations.
pub proof fn law_decimal_injective(m: nat, n: nat)
    requires
        decimal(m) == decimal(n),
    ensures
        m == n,
{
    law_decimal_value(m);
    law_decimal_value(n);
}

/// Digits are the characters from `0` to `9`, and a run of digits stands for ten times
/// what it stands for without its last digit, and that digit.
pub proof fn law_digits_have_their_value(s: Seq<char>, c: char)
    ensures
        is_digit(c) <==> 48 <= c as u32 <= 57,
        digits_value(Seq::empty()) == 0,
        is_digit(c) ==> digits_value(s.push(c)) == 10 * digits_value(s) + (c as u32 - 48),
{
    assert(s.push(c).drop_last() =~= s);
}

/// Decimal notation has no leading zero, but for zero itself.
pub proof fn law_decimal_has_no_leading_zero(n: nat)
    ensures
        n > 0 ==> decimal(n)[0] != '0',
        n == 0 ==> decimal(n) == seq!['0'],
    decreases n,
{
    if n >= 10 {
        law_decimal_has_no_leading_zero(n / 10);
        lemma_decimal_nonempty(n / 10);
    }
}

/// Padding puts zeros before the decimal notation, just as many as are needed.
pub proof fn law_padding_is_zeros(n: nat, width: nat)
    ensures
        decimal(n).len() >= width ==> padded(n, width) == decimal(n),
        decimal(n).len() < width ==> {
            let fill = width - decimal(n).len();
            &&& padded(n, width).len() == width
            &&& padded(n, width).skip(fill) == decimal(n)
            &&& forall|i: int| 0 <= i < fill ==> #[trigger] padded(n, width)[i] == '0'
        },
{
    if decimal(n).len() < width {
        assert(padded(n, width).skip(width - decimal(n).len()) =~= decimal(n));
    }
}

/// A run of digits is read as the number that it stands for, with or without a plus
/// sign, unless that number is too large.
pub proof fn law_digits_are_read(d: Seq<char>)
    requires
        d.len() > 0,
        all_digits(d),
    ensures
        digits_value(d) <= usize::MAX ==> {
            &&& parsed_usize(d) == Some(digits_value(d) as usize)
            &&& parsed_usize(seq!['+'] + d) == Some(digits_value(d) as usize)
        },
        digits_value(d) > usize::MAX ==> parsed_usize(d) is None && parsed_usize(seq!['+'] + d) is None,
{
    assert(is_digit(d[0]));
    assert((seq!['+'] + d).drop_first() =~= d);
}

/// Nothing, a sign alone, and a text with any other character than digits after an
/// optional plus sign are no numbers.
pub proof fn law_other_texts_are_no_numbers(s: Seq<char>, i: int)
    requires
        s.len() == 0 || (s.len() == 1 && s[0] == '+') || (0 <= i < s.len() && !is_digit(s[i]) && (i
            > 0 || s[0] != '+')),
    ensures
        parsed_usize(s) is None,
{
    let d = unsigned_part(s);
    if s.len() > 0 && 0 <= i < s.len() && !is_digit(s[i]) {
        if s[0] == '+' {
            if i > 0 {
                assert(d[i - 1] == s[i]);
            }
        } else {
            assert(d[i] == s[i]);
        }
    }
}

} // verus!
