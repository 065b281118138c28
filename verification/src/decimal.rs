//! Numbers as decimal text: whole numbers, and numbers of billionths written with a point.
//!
//! The text of a number is fixed: no sign but a minus, no leading zeros, no zeros at the end
//! behind the point, and no point without digits behind it. Reading is more lenient: it
//! takes leading zeros and zeros at the end as well. What is written reads back as the
//! number that was written.

use vstd::prelude::*;

verus! {

/// Whether `c` is one of the ten digits.
pub open spec fn is_digit(c: char) -> bool {
    '0' <= c && c <= '9'
}

/// The number that the digit `c` stands for.
pub open spec fn digit_value(c: char) -> nat {
    (c as u32 - '0' as u32) as nat
}

/// The digit that stands for `d`, a number below ten.
pub open spec fn digit_char(d: nat) -> char {
    if d == 0 {
        '0'
    } else if d == 1 {
        '1'
    } else if d == 2 {
        '2'
    } else if d == 3 {
        '3'
    } else if d == 4 {
        '4'
    } else if d == 5 {
        '5'
    } else if d == 6 {
        '6'
    } else if d == 7 {
        '7'
    } else if d == 8 {
        '8'
    } else {
        '9'
    }
}

/// Whether `text` holds digits only.
pub open spec fn all_digits(text: Seq<char>) -> bool {
    forall|i: int| 0 <= i < text.len() ==> is_digit(#[trigger] text[i])
}

/// The number that a run of digits stands for, the most significant digit first.
pub open spec fn digits_value(text: Seq<char>) -> nat
    decreases text.len(),
{
    if text.len() == 0 {
        0
    } else {
        digits_value(text.drop_last()) * 10 + digit_value(text.last())
    }
}

/// The digits of `n`, the most significant first, without leading zeros.
pub open spec fn digits_of(n: nat) -> Seq<char>
    decreases n,
{
    if n < 10 {
        seq![digit_char(n)]
    } else {
        digits_of(n / 10).push(digit_char(n % 10))
    }
}

/// The last `width` digits of `n`, the most significant first, zeros included.
pub open spec fn padded_digits(n: nat, width: nat) -> Seq<char>
    decreases width,
{
    if width == 0 {
        Seq::empty()
    } else {
        padded_digits(n / 10, (width - 1) as nat).push(digit_char(n % 10))
    }
}

/// The digits behind the point for `fraction` parts in ten to the `width`: its `width`
/// digits without the zeros at the end. Nothing at all stands for no parts.
pub open spec fn fraction_digits(fraction: nat, width: nat) -> Seq<char>
    decreases width,
{
    if width == 0 {
        Seq::empty()
    } else if fraction % 10 == 0 {
        fraction_digits(fraction / 10, (width - 1) as nat)
    } else {
        padded_digits(fraction, width)
    }
}

/// Ten to the power of `e`.
pub open spec fn pow10(e: nat) -> nat
    decreases e,
{
    if e == 0 {
        1
    } else {
        10 * pow10((e - 1) as nat)
    }
}

/// How many digits `text` begins with.
pub open spec fn leading_digits(text: Seq<char>) -> nat
    decreases text.len(),
{
    if text.len() > 0 && is_digit(text[0]) {
        1 + leading_digits(text.skip(1))
    } else {
        0
    }
}

/// The number that `text` stands for when it is a run of one or more digits.
pub open spec fn unsigned_value(text: Seq<char>) -> Option<nat> {
    if text.len() >= 1 && all_digits(text) {
        Some(digits_value(text))
    } else {
        None
    }
}

/// The text of a whole number: a minus sign where it is negative, then its digits.
pub open spec fn integer_text(value: int) -> Seq<char> {
    if value < 0 {
        seq!['-'] + digits_of((-value) as nat)
    } else {
        digits_of(value as nat)
    }
}

/// The text of a number of billionths: a minus sign where it is negative, the digits of the
/// whole part, and, where there is a fraction, a point and the digits of the fraction
/// without zeros at the end.
pub open spec fn billionths_text(value: int) -> Seq<char> {
    let magnitude = if value < 0 {
        (-value) as nat
    } else {
        value as nat
    };
    let sign = if value < 0 {
        seq!['-']
    } else {
        Seq::empty()
    };
    let fraction = magnitude % 1_000_000_000;
    let tail = if fraction == 0 {
        Seq::empty()
    } else {
        seq!['.'] + fraction_digits(fraction, 9)
    };
    sign + digits_of(magnitude / 1_000_000_000) + tail
}

/// The number of billionths that `text` stands for: an optional minus sign, one or more
/// digits, and optionally a point with one to nine digits behind it. Any other text stands
/// for nothing.
pub open spec fn billionths_value(text: Seq<char>) -> Option<int> {
    let negative = text.len() > 0 && text[0] == '-';
    let body = if negative {
        text.skip(1)
    } else {
        text
    };
    let n = leading_digits(body) as int;
    let whole = digits_value(body.take(n)) * 1_000_000_000;
    let fraction = body.skip(n + 1);
    if n == 0 {
        None
    } else if n == body.len() {
        Some(if negative { -whole } else { whole as int })
    } else if body[n] == '.' && 1 <= fraction.len() <= 9 && all_digits(fraction) {
        let magnitude = whole + digits_value(fraction) * pow10((9 - fraction.len()) as nat);
        Some(if negative { -magnitude } else { magnitude as int })
    } else {
        None
    }
}

/// The digits for the numbers in `low`, the last of them first.
pub open spec fn reversed_digits(low: Seq<u8>) -> Seq<char>
    decreases low.len(),
{
    if low.len() == 0 {
        Seq::empty()
    } else {
        seq![digit_char(low.last() as nat)] + reversed_digits(low.drop_last())
    }
}

/// The text of one digit.
fn digit_str(d: u8) -> (r: &'static str)
    requires
        d < 10,
    ensures
        r@ == seq![digit_char(d as nat)],
{
    proof {
        reveal_strlit("0");
        reveal_strlit("1");
        reveal_strlit("2");
        reveal_strlit("3");
        reveal_strlit("4");
        reveal_strlit("5");
        reveal_strlit("6");
        reveal_strlit("7");
        reveal_strlit("8");
        reveal_strlit("9");
    }
    let r = match d {
        0 => "0",
        1 => "1",
        2 => "2",
        3 => "3",
        4 => "4",
        5 => "5",
        6 => "6",
        7 => "7",
        8 => "8",
        _ => "9",
    };
    assert(r@ =~= seq![digit_char(d as nat)]);
    r
}

/// Appends the digits for the numbers in `low` to `text`, the last of them first.
fn push_reversed_digits(text: &mut String, low: &Vec<u8>)
    requires
        forall|i: int| 0 <= i < low.len() ==> low[i] < 10,
    ensures
        final(text)@ == old(text)@ + reversed_digits(low@),
{
    let mut i: usize = low.len();
    assert(low@.take(i as int) =~= low@);
    while i > 0
        invariant
            i <= low.len(),
            forall|j: int| 0 <= j < low.len() ==> low[j] < 10,
            text@ + reversed_digits(low@.take(i as int)) == old(text)@ + reversed_digits(low@),
        decreases i,
    {
        let ghost before = text@;
        let ghost upto = low@.take(i as int);
        i -= 1;
        text.append(digit_str(low[i]));
        proof {
            assert(upto.drop_last() =~= low@.take(i as int));
            assert(upto.last() == low[i as int]);
            assert(text@ + reversed_digits(low@.take(i as int)) =~= before + reversed_digits(upto));
        }
    }
    assert(text@ + reversed_digits(low@.take(0)) =~= text@);
}

/// Appends the digits of `n` to `text`.
pub fn push_digits(text: &mut String, n: u128)
    ensures
        final(text)@ == old(text)@ + digits_of(n as nat),
{
    let mut low: Vec<u8> = Vec::new();
    let mut rest: u128 = n;
    assert(digits_of(rest as nat) + reversed_digits(low@) =~= digits_of(n as nat));
    while rest >= 10
        invariant
            forall|i: int| 0 <= i < low.len() ==> low[i] < 10,
            digits_of(rest as nat) + reversed_digits(low@) == digits_of(n as nat),
        decreases rest,
    {
        let ghost before = low@;
        let digit: u8 = (rest % 10) as u8;
        low.push(digit);
        proof {
            assert(low@.drop_last() =~= before);
            assert(digits_of((rest / 10) as nat) + reversed_digits(low@) =~= digits_of(rest as nat)
                + reversed_digits(before));
        }
        rest = rest / 10;
    }
    let ghost start = text@;
    text.append(digit_str(rest as u8));
    push_reversed_digits(text, &low);
    assert(text@ =~= start + (digits_of(rest as nat) + reversed_digits(low@)));
}

/// Appends the last `width` digits of `n` to `text`, zeros included.
fn push_padded_digits(text: &mut String, n: u128, width: u8)
    ensures
        final(text)@ == old(text)@ + padded_digits(n as nat, width as nat),
{
    let mut low: Vec<u8> = Vec::new();
    let mut rest: u128 = n;
    let mut left: u8 = width;
    assert(padded_digits(rest as nat, left as nat) + reversed_digits(low@) =~= padded_digits(
        n as nat,
        width as nat,
    ));
    while left > 0
        invariant
            forall|i: int| 0 <= i < low.len() ==> low[i] < 10,
            padded_digits(rest as nat, left as nat) + reversed_digits(low@) == padded_digits(
                n as nat,
                width as nat,
            ),
        decreases left,
    {
        let ghost before = low@;
        let digit: u8 = (rest % 10) as u8;
        low.push(digit);
        proof {
            assert(low@.drop_last() =~= before);
            assert(padded_digits((rest / 10) as nat, (left - 1) as nat) + reversed_digits(low@)
                =~= padded_digits(rest as nat, left as nat) + reversed_digits(before));
        }
        rest = rest / 10;
        left -= 1;
    }
    let ghost start = text@;
    push_reversed_digits(text, &low);
    assert(text@ =~= start + (padded_digits(rest as nat, 0) + reversed_digits(low@)));
}

/// Appends to `text` the digits behind the point for `fraction` parts in ten to the
/// `width`.
fn push_fraction_digits(text: &mut String, fraction: u128, width: u8)
    ensures
        final(text)@ == old(text)@ + fraction_digits(fraction as nat, width as nat),
{
    let mut rest: u128 = fraction;
    let mut left: u8 = width;
    while left > 0 && rest % 10 == 0
        invariant
            fraction_digits(rest as nat, left as nat) == fraction_digits(
                fraction as nat,
                width as nat,
            ),
        decreases left,
    {
        rest = rest / 10;
        left -= 1;
    }
    if left > 0 {
        push_padded_digits(text, rest, left);
    } else {
        assert(text@ + fraction_digits(rest as nat, 0) =~= text@);
    }
}

/// The digits of `n`.
pub fn unsigned_to_text(n: u128) -> (r: String)
    ensures
        r@ == digits_of(n as nat),
{
    let mut text = String::new();
    push_digits(&mut text, n);
    assert(text@ =~= digits_of(n as nat));
    text
}

/// The text of the whole number `value`.
pub fn integer_to_text(value: i64) -> (r: String)
    ensures
        r@ == integer_text(value as int),
{
    let mut text = String::new();
    if value < 0 {
        proof {
            reveal_strlit("-");
        }
        text.append("-");
        assert(text@ =~= seq!['-']);
        let magnitude: u128 = (-(value as i128)) as u128;
        push_digits(&mut text, magnitude);
    } else {
        push_digits(&mut text, value as u128);
        assert(text@ =~= digits_of(value as nat));
    }
    text
}

/// The text of `value` billionths.
pub fn billionths_to_text(value: i128) -> (r: String)
    ensures
        r@ == billionths_text(value as int),
{
    let mut text = String::new();
    let magnitude: u128 = if value < 0 {
        proof {
            reveal_strlit("-");
        }
        text.append("-");
        ((-(value + 1)) as u128) + 1
    } else {
        value as u128
    };
    let ghost sign = text@;
    assert(sign =~= if value < 0 { seq!['-'] } else { Seq::<char>::empty() });
    push_digits(&mut text, magnitude / 1_000_000_000);
    let fraction: u128 = magnitude % 1_000_000_000;
    if fraction != 0 {
        proof {
            reveal_strlit(".");
        }
        let ghost whole = text@;
        text.append(".");
        push_fraction_digits(&mut text, fraction, 9);
        assert(text@ =~= whole + (seq!['.'] + fraction_digits(fraction as nat, 9)));
    } else {
        assert(text@ =~= text@ + Seq::<char>::empty());
    }
    text
}

/// The byte of the digit zero.
pub const DIGIT_ZERO: u8 = 48;

/// The byte of the digit nine.
pub const DIGIT_NINE: u8 = 57;

/// The byte of the minus sign.
pub const MINUS_SIGN: u8 = 45;

/// The byte of the point.
pub const POINT: u8 = 46;

/// Whether `bytes` holds the characters of `text`, one byte each.
pub open spec fn spells(bytes: Seq<u8>, text: Seq<char>) -> bool {
    &&& bytes.len() == text.len()
    &&& forall|i: int|
        0 <= i < text.len() ==> '\0' <= (#[trigger] text[i]) <= '\u{7f}' && bytes[i]
            == text[i] as u8
}

/// How many digits stand in `bytes` from `from` on.
fn count_digits(bytes: &[u8], from: usize, Ghost(text): Ghost<Seq<char>>) -> (n: usize)
    requires
        from <= bytes.len(),
        spells(bytes@, text),
    ensures
        n == leading_digits(text.skip(from as int)),
        from + n <= bytes.len(),
{
    let ghost rest = text.skip(from as int);
    let mut n: usize = 0;
    while from + n < bytes.len() && DIGIT_ZERO <= bytes[from + n] && bytes[from + n] <= DIGIT_NINE
        invariant
            from + n <= bytes.len(),
            spells(bytes@, text),
            rest == text.skip(from as int),
            all_digits(rest.take(n as int)),
        decreases bytes.len() - n,
    {
        assert(rest[n as int] == text[from + n]);
        assert(is_digit(rest[n as int]));
        assert(forall|i: int|
            0 <= i < n + 1 ==> rest.take(n + 1)[i] == if i < n {
                rest.take(n as int)[i]
            } else {
                rest[n as int]
            });
        n += 1;
    }
    proof {
        if from + n < bytes.len() {
            assert(rest[n as int] == text[from + n]);
            assert(!is_digit(rest[n as int]));
            assert(rest.skip(n as int)[0] == rest[n as int]);
        }
        lemma_leading_digits_of_run(rest.take(n as int), rest.skip(n as int));
        assert(rest.take(n as int) + rest.skip(n as int) =~= rest);
    }
    n
}

/// The number that the digits in `bytes` from `from` up to `to` stand for, unless it is
/// more than can be held.
fn read_digits(bytes: &[u8], from: usize, to: usize, Ghost(text): Ghost<Seq<char>>) -> (r:
    Option<u128>)
    requires
        from <= to <= bytes.len(),
        spells(bytes@, text),
        all_digits(text.subrange(from as int, to as int)),
    ensures
        r == if digits_value(text.subrange(from as int, to as int)) <= u128::MAX {
            Some(digits_value(text.subrange(from as int, to as int)) as u128)
        } else {
            None
        },
{
    let ghost run = text.subrange(from as int, to as int);
    let mut value: u128 = 0;
    let mut i: usize = from;
    while i < to
        invariant
            from <= i <= to <= bytes.len(),
            spells(bytes@, text),
            run == text.subrange(from as int, to as int),
            all_digits(run),
            value == digits_value(run.take(i - from)),
        decreases to - i,
    {
        let byte: u8 = bytes[i];
        assert(is_digit(run[i - from]));
        let digit: u128 = (byte - DIGIT_ZERO) as u128;
        proof {
            assert(digit == digit_value(run[i - from]));
            assert(run.take(i - from + 1).drop_last() =~= run.take(i - from));
            lemma_digits_value_of_prefix(run, i - from + 1);
        }
        value = match value.checked_mul(10) {
            Some(tenfold) => match tenfold.checked_add(digit) {
                Some(next) => next,
                None => {
                    return None;
                },
            },
            None => {
                return None;
            },
        };
        i += 1;
    }
    assert(run.take(to - from) =~= run);
    Some(value)
}

/// Ten to the power of `e`, for the powers up to the ninth.
fn power_of_ten(e: usize) -> (r: u128)
    requires
        e <= 9,
    ensures
        r == pow10(e as nat),
        1 <= r <= 1_000_000_000,
{
    proof {
        reveal_with_fuel(pow10, 10);
    }
    match e {
        0 => 1,
        1 => 10,
        2 => 100,
        3 => 1_000,
        4 => 10_000,
        5 => 100_000,
        6 => 1_000_000,
        7 => 10_000_000,
        8 => 100_000_000,
        _ => 1_000_000_000,
    }
}

/// Reads a whole number without sign from `text`.
///
/// The result is `None` when `text` is not a run of one or more digits, or stands for more
/// than can be held.
pub fn parse_u128(text: &str) -> (r: Option<u128>)
    ensures
        r == match unsigned_value(text@) {
            Some(value) => if value <= u128::MAX {
                Some(value as u128)
            } else {
                None
            },
            None => None,
        },
{
    if !text.is_ascii() {
        return None;
    }
    let bytes = text.as_bytes();
    proof {
        vstd::string::is_ascii_spec_bytes(text);
        lemma_leading_digits(text@);
        assert(text@.skip(0) =~= text@);
        assert(text@.take(text@.len() as int) =~= text@);
        assert(text@.subrange(0, text@.len() as int) =~= text@);
    }
    let n = count_digits(bytes, 0, Ghost(text@));
    if n == 0 || n < bytes.len() {
        return None;
    }
    read_digits(bytes, 0, n, Ghost(text@))
}

/// Reads a number of billionths from `text`.
///
/// The result is `None` when `text` is not the text of a number, or stands for more than
/// can be held.
pub fn parse_billionths(text: &str) -> (r: Option<i128>)
    ensures
        r == match billionths_value(text@) {
            Some(value) => if i128::MIN <= value <= i128::MAX {
                Some(value as i128)
            } else {
                None
            },
            None => None,
        },
{
    if !text.is_ascii() {
        proof {
            if billionths_value(text@) is Some {
                lemma_number_text_is_ascii(text@);
            }
        }
        return None;
    }
    let bytes = text.as_bytes();
    proof {
        vstd::string::is_ascii_spec_bytes(text);
        lemma_pow10_nine();
    }
    let negative = bytes.len() > 0 && bytes[0] == MINUS_SIGN;
    let start: usize = if negative {
        1
    } else {
        0
    };
    let ghost body = text@.skip(start as int);
    let n = count_digits(bytes, start, Ghost(text@));
    proof {
        assert(negative <==> text@.len() > 0 && text@[0] == '-');
        assert(body =~= if negative { text@.skip(1) } else { text@ });
        lemma_leading_digits(body);
        assert(body.take(n as int) =~= text@.subrange(start as int, start + n));
    }
    if n == 0 {
        return None;
    }
    let whole = match read_digits(bytes, start, start + n, Ghost(text@)) {
        Some(whole) => whole,
        None => {
            assert(digits_value(body.take(n as int)) * 1_000_000_000 > i128::MAX + 1)
                by (nonlinear_arith)
                requires
                    digits_value(body.take(n as int)) > u128::MAX,
            ;
            return None;
        },
    };
    let dot: usize = start + n;
    let mut fraction: u128 = 0;
    if dot < bytes.len() {
        if bytes[dot] != POINT {
            return None;
        }
        let digits: usize = bytes.len() - dot - 1;
        let ghost behind = body.skip(n + 1);
        assert(behind =~= text@.skip(dot + 1));
        if digits == 0 || digits > 9 {
            return None;
        }
        let m = count_digits(bytes, dot + 1, Ghost(text@));
        proof {
            lemma_leading_digits(behind);
            assert(behind.take(behind.len() as int) =~= behind);
        }
        if m != digits {
            return None;
        }
        assert(behind =~= text@.subrange(dot + 1, bytes.len() as int));
        proof {
            lemma_digits_below_pow10(behind);
            lemma_pow10_up_to_nine(digits as nat);
        }
        fraction = match read_digits(bytes, dot + 1, bytes.len(), Ghost(text@)) {
            Some(fraction) => fraction,
            None => {
                return None;
            },
        };
        let scale = power_of_ten(9 - digits);
        assert(fraction * scale < 1_000_000_000 * 1_000_000_000) by (nonlinear_arith)
            requires
                fraction < 1_000_000_000,
                scale <= 1_000_000_000,
        ;
        fraction = fraction * scale;
    }
    let magnitude: u128 = match whole.checked_mul(1_000_000_000) {
        Some(scaled) => match scaled.checked_add(fraction) {
            Some(magnitude) => magnitude,
            None => {
                return None;
            },
        },
        None => {
            return None;
        },
    };
    if negative {
        if magnitude > 0x8000_0000_0000_0000_0000_0000_0000_0000 {
            None
        } else if magnitude == 0x8000_0000_0000_0000_0000_0000_0000_0000 {
            Some(i128::MIN)
        } else {
            Some(-(magnitude as i128))
        }
    } else {
        if magnitude > 0x7fff_ffff_ffff_ffff_ffff_ffff_ffff_ffff {
            None
        } else {
            Some(magnitude as i128)
        }
    }
}

/// A digit stands for the number that it was made from.
pub proof fn lemma_digit_char(d: nat)
    requires
        d < 10,
    ensures
        is_digit(digit_char(d)),
        digit_value(digit_char(d)) == d,
{
}

/// The digits of a number are digits, at least one, and stand for that number.
pub proof fn lemma_digits_of(n: nat)
    ensures
        digits_of(n).len() >= 1,
        all_digits(digits_of(n)),
        digits_value(digits_of(n)) == n,
    decreases n,
{
    if n < 10 {
        lemma_digit_char(n);
        assert(digits_of(n).drop_last() =~= Seq::<char>::empty());
        assert(digits_value(digits_of(n).drop_last()) == 0);
    } else {
        lemma_digits_of(n / 10);
        lemma_digit_char(n % 10);
        assert(digits_of(n).drop_last() =~= digits_of(n / 10));
    }
}

/// The padded digits of a number below ten to the `width` are `width` digits and stand for
/// that number.
pub proof fn lemma_padded_digits(n: nat, width: nat)
    requires
        n < pow10(width),
    ensures
        padded_digits(n, width).len() == width,
        all_digits(padded_digits(n, width)),
        digits_value(padded_digits(n, width)) == n,
    decreases width,
{
    if width > 0 {
        lemma_padded_digits(n / 10, (width - 1) as nat);
        lemma_digit_char(n % 10);
        assert(padded_digits(n, width).drop_last() =~= padded_digits(n / 10, (width - 1) as nat));
    }
}

/// The digits behind the point are at most `width` digits, and stand for the fraction once
/// the zeros left out at the end are counted in. A fraction that is not zero has at
/// least one digit.
pub proof fn lemma_fraction_digits(fraction: nat, width: nat)
    requires
        fraction < pow10(width),
    ensures
        fraction_digits(fraction, width).len() <= width,
        all_digits(fraction_digits(fraction, width)),
        digits_value(fraction_digits(fraction, width)) * pow10(
            (width - fraction_digits(fraction, width).len()) as nat,
        ) == fraction,
        fraction > 0 ==> fraction_digits(fraction, width).len() >= 1,
    decreases width,
{
    let digits = fraction_digits(fraction, width);
    if width == 0 {
        assert(digits_value(digits) == 0);
        assert(0 * pow10(0) == 0);
    } else if fraction % 10 == 0 {
        lemma_fraction_digits(fraction / 10, (width - 1) as nat);
        let left_out = (width - 1 - digits.len()) as nat;
        assert(pow10((width - digits.len()) as nat) == 10 * pow10(left_out));
        assert(digits_value(digits) * (10 * pow10(left_out)) == 10 * (digits_value(digits) * pow10(
            left_out,
        ))) by (nonlinear_arith);
    } else {
        lemma_padded_digits(fraction, width);
        assert(pow10(0) == 1);
        assert(digits_value(digits) * 1 == digits_value(digits));
    }
}

/// A run of digits stands for at least as much as any run that it begins with.
pub proof fn lemma_digits_value_of_prefix(text: Seq<char>, n: int)
    requires
        0 <= n <= text.len(),
    ensures
        digits_value(text.take(n)) <= digits_value(text),
    decreases text.len(),
{
    if n < text.len() {
        assert(text.drop_last().take(n) =~= text.take(n));
        lemma_digits_value_of_prefix(text.drop_last(), n);
    } else {
        assert(text.take(n) =~= text);
    }
}

/// Ten to any power is at least one, and a run of digits stands for less than ten to the
/// power of its length.
pub proof fn lemma_digits_below_pow10(text: Seq<char>)
    requires
        all_digits(text),
    ensures
        pow10(text.len()) >= 1,
        digits_value(text) < pow10(text.len()),
    decreases text.len(),
{
    if text.len() > 0 {
        lemma_digits_below_pow10(text.drop_last());
    }
}

/// The leading digits of a text are digits, and what follows them, if anything, is none.
pub proof fn lemma_leading_digits(text: Seq<char>)
    ensures
        leading_digits(text) <= text.len(),
        all_digits(text.take(leading_digits(text) as int)),
        leading_digits(text) < text.len() ==> !is_digit(text[leading_digits(text) as int]),
    decreases text.len(),
{
    if text.len() > 0 && is_digit(text[0]) {
        lemma_leading_digits(text.skip(1));
        let n = leading_digits(text);
        assert(forall|i: int|
            0 <= i < n ==> text.take(n as int)[i] == if i == 0 {
                text[0]
            } else {
                text.skip(1).take(n - 1)[i - 1]
            });
    }
}

/// A run of digits followed by something that is no digit, or by nothing, has as many
/// leading digits as the run is long.
pub proof fn lemma_leading_digits_of_run(run: Seq<char>, rest: Seq<char>)
    requires
        all_digits(run),
        rest.len() == 0 || !is_digit(rest[0]),
    ensures
        leading_digits(run + rest) == run.len(),
    decreases run.len(),
{
    if run.len() > 0 {
        assert((run + rest).skip(1) =~= run.skip(1) + rest);
        assert(forall|i: int| 0 <= i < run.skip(1).len() ==> run.skip(1)[i] == run[i + 1]);
        lemma_leading_digits_of_run(run.skip(1), rest);
    }
}

/// The powers of ten up to the ninth lie between one and a billion.
pub proof fn lemma_pow10_up_to_nine(e: nat)
    requires
        e <= 9,
    ensures
        1 <= pow10(e) <= 1_000_000_000,
{
    reveal_with_fuel(pow10, 10);
}

/// Ten to the ninth is a billion.
pub proof fn lemma_pow10_nine()
    ensures
        pow10(9) == 1_000_000_000,
{
    reveal_with_fuel(pow10, 10);
}

/// Only digits, a minus sign and a point occur in the text of a number.
pub proof fn lemma_number_text_is_ascii(text: Seq<char>)
    requires
        billionths_value(text) is Some,
    ensures
        vstd::utf8::is_ascii_chars(text),
{
    let negative = text.len() > 0 && text[0] == '-';
    let body = if negative {
        text.skip(1)
    } else {
        text
    };
    let n = leading_digits(body) as int;
    lemma_leading_digits(body);
    assert forall|i: int| 0 <= i < body.len() implies '\0' <= (#[trigger] body[i]) <= '\u{7f}' by {
        if i < n {
            assert(body.take(n)[i] == body[i]);
        } else if i == n {
        } else {
            assert(body.skip(n + 1)[i - n - 1] == body[i]);
        }
    }
    assert forall|i: int| 0 <= i < text.len() implies '\0' <= (#[trigger] text[i]) <= '\u{7f}' by {
        if !negative {
            assert(body[i] == text[i]);
        } else if i > 0 {
            assert(body[i - 1] == text[i]);
        }
    }
}

/// The text of a number of billionths stands for that number.
pub proof fn lemma_billionths_text_reads_back(value: int)
    ensures
        billionths_value(billionths_text(value)) == Some(value),
{
    let magnitude = if value < 0 {
        (-value) as nat
    } else {
        value as nat
    };
    let sign = if value < 0 {
        seq!['-']
    } else {
        Seq::<char>::empty()
    };
    let whole = digits_of(magnitude / 1_000_000_000);
    let fraction = magnitude % 1_000_000_000;
    let tail = if fraction == 0 {
        Seq::<char>::empty()
    } else {
        seq!['.'] + fraction_digits(fraction, 9)
    };
    let text = billionths_text(value);
    assert(text == sign + whole + tail);
    lemma_digits_of(magnitude / 1_000_000_000);
    lemma_pow10_nine();
    lemma_fraction_digits(fraction, 9);
    lemma_leading_digits_of_run(whole, tail);
    let body = if value < 0 {
        text.skip(1)
    } else {
        text
    };
    assert(is_digit(whole[0]));
    assert(body =~= whole + tail);
    assert(body.take(whole.len() as int) =~= whole);
    if fraction != 0 {
        assert(body.skip(whole.len() as int + 1) =~= fraction_digits(fraction, 9));
    }
}

} // verus!
