//! Text: numbers in decimal, and padding to a width.
use vstd::prelude::*;

verus! {

/// Taken on trust: `String::push` of the standard library appends the
/// character to the end of the string and leaves the characters before it
/// as they were.
pub assume_specification[ std::string::String::push ](s: &mut std::string::String, ch: char)
    ensures
        final(s)@ == old(s)@.push(ch),
;

/// The character of the decimal digit `d`.
pub open spec fn digit_char(d: nat) -> char {
    if d == 0 {
        '0'
    } else if d == 1 {
        '1'
    } else if d == 2 {
        '2'
    } else if d == 3 {
        '3'
    } else if d == 4 {
        '4'
    } else if d == 5 {
        '5'
    } else if d == 6 {
        '6'
    } else if d == 7 {
        '7'
    } else if d == 8 {
        '8'
    } else {
        '9'
    }
}

/// The decimal digits of `n`, without leading zeros.
pub open spec fn digits(n: nat) -> Seq<char>
    decreases n,
{
    if n < 10 {
        seq![digit_char(n)]
    } else {
        digits(n / 10).push(digit_char(n % 10))
    }
}

/// `count` copies of `fill`.
pub open spec fn filler(count: int, fill: char) -> Seq<char> {
    Seq::new(
        if count > 0 {
            count as nat
        } else {
            0
        },
        |i: int| fill,
    )
}

/// `text` with as many copies of `fill` before it as bring it to `width`
/// characters; `text` itself where it is as long or longer.
pub open spec fn padded_left(text: Seq<char>, width: nat, fill: char) -> Seq<char> {
    filler(width - text.len(), fill) + text
}

/// `text` with as many spaces after it as bring it to `width` characters;
/// `text` itself where it is as long or longer.
pub open spec fn padded_right(text: Seq<char>, width: nat) -> Seq<char> {
    text + filler(width - text.len(), ' ')
}

/// Appends the decimal digits of `n` to `out`.
pub fn push_decimal(out: &mut String, n: usize)
    ensures
        final(out)@ == old(out)@ + digits(n as nat),
    decreases n,
{
    if n >= 10 {
        push_decimal(out, n / 10);
    }
    let digit = match n % 10 {
        0 => '0',
        1 => '1',
        2 => '2',
        3 => '3',
        4 => '4',
        5 => '5',
        6 => '6',
        7 => '7',
        8 => '8',
        _ => '9',
    };
    out.push(digit);
}

/// The number of decimal digits of `n`.
pub fn decimal_width(n: usize) -> (width: usize)
    ensures
        width == digits(n as nat).len(),
        1 <= width <= 20,
{
    let mut width: usize = 1;
    let mut rest = n;
    proof {
        lemma_digits_bound(n as nat);
    }
    while rest >= 10
        invariant
            1 <= width,
            digits(n as nat).len() == width - 1 + digits(rest as nat).len(),
            width <= 20,
            rest <= usize::MAX,
            width + digits(rest as nat).len() <= 21,
        decreases rest,
    {
        rest = rest / 10;
        width += 1;
    }
    width
}

/// A number below 2^64 has at most 20 decimal digits.
proof fn lemma_digits_bound(n: nat)
    ensures
        digits(n).len() >= 1,
        n < 10 ==> digits(n).len() == 1,
        n <= u64::MAX ==> digits(n).len() <= 20,
{
    reveal_with_fuel(digits, 21);
}

/// Appends `count` copies of `fill` to `out`.
pub fn push_filler(out: &mut String, count: usize, fill: char)
    ensures
        final(out)@ == old(out)@ + filler(count as int, fill),
{
    let mut i: usize = 0;
    while i < count
        invariant
            i <= count,
            out@ == old(out)@ + filler(i as int, fill),
        decreases count - i,
    {
        out.push(fill);
        i += 1;
    }
}

/// Appends the decimal digits of `n` to `out`, with `fill` before them up
/// to `width` characters.
pub fn push_number(out: &mut String, n: usize, width: usize, fill: char)
    ensures
        final(out)@ == old(out)@ + padded_left(digits(n as nat), width as nat, fill),
{
    let length = decimal_width(n);
    if length < width {
        push_filler(out, width - length, fill);
    }
    push_decimal(out, n);
}

} // verus!
