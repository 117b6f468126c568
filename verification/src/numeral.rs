//! Whole numbers as decimal text, written and read.

use crate::text::chars_of;
use vstd::prelude::*;

verus! {

/// The character of a decimal digit.
pub open spec fn digit(d: int) -> char {
    ('0' as int + d) as char
}

/// Whether a character is a decimal digit.
pub open spec fn is_digit(c: char) -> bool {
    '0' <= c <= '9'
}

/// The decimal text of a natural number.
pub open spec fn decimal(n: nat) -> Seq<char>
    decreases n,
{
    if n < 10 {
        seq![digit(n as int)]
    } else {
        decimal(n / 10).push(digit((n % 10) as int))
    }
}

/// The decimal text of a whole number, with a minus sign where it is negative.
pub open spec fn signed_decimal(n: int) -> Seq<char> {
    if n < 0 {
        seq!['-'] + decimal((-n) as nat)
    } else {
        decimal(n as nat)
    }
}

/// A run of zeros.
pub open spec fn zeros(count: nat) -> Seq<char> {
    Seq::new(count, |i: int| '0')
}

/// The decimal text of a whole number, filled with zeros behind the sign up to a width.
pub open spec fn padded(n: int, width: nat) -> Seq<char> {
    let digits = decimal(if n < 0 {
        (-n) as nat
    } else {
        n as nat
    });
    let sign = if n < 0 {
        seq!['-']
    } else {
        seq![]
    };
    let used = sign.len() + digits.len();
    if used < width {
        sign + zeros((width - used) as nat) + digits
    } else {
        sign + digits
    }
}

/// The decimal text of a natural number is one or more digits.
pub proof fn lemma_decimal_digits(n: nat)
    ensures
        decimal(n).len() > 0,
        forall|i: int| 0 <= i < decimal(n).len() ==> is_digit(#[trigger] decimal(n)[i]),
    decreases n,
{
    if n >= 10 {
        lemma_decimal_digits(n / 10);
    }
}

/// Writes the decimal digits of a number, last digit first.
fn digits_backwards(n: u64) -> (r: Vec<char>)
    ensures
        r@.reverse() == decimal(n as nat),
        r@.len() > 0,
{
    let mut out: Vec<char> = Vec::new();
    let mut rest: u64 = n;
    proof {
        assert(decimal(rest as nat) + out@.reverse() == decimal(n as nat));
    }
    while rest >= 10
        invariant
            decimal(rest as nat) + out@.reverse() == decimal(n as nat),
        decreases rest,
    {
        let c: char = (48u8 + (rest % 10) as u8) as char;
        proof {
            assert(c == digit((rest % 10) as int));
            assert(out@.push(c).reverse() == seq![c] + out@.reverse());
            assert(decimal(rest as nat) + out@.reverse() == decimal((rest / 10) as nat) + (seq![c]
                + out@.reverse()));
        }
        out.push(c);
        rest = rest / 10;
    }
    let c: char = (48u8 + rest as u8) as char;
    proof {
        assert(c == digit(rest as int));
        assert(out@.push(c).reverse() == seq![c] + out@.reverse());
    }
    out.push(c);
    out
}

/// Appends characters in reverse order to a text.
fn append_backwards(out: &mut String, chars: &Vec<char>)
    ensures
        final(out)@ == old(out)@ + chars@.reverse(),
{
    let mut i: usize = chars.len();
    proof {
        assert(out@ == old(out)@ + chars@.reverse().take(0));
    }
    while i > 0
        invariant
            i <= chars@.len(),
            out@ == old(out)@ + chars@.reverse().take(chars@.len() - i),
        decreases i,
    {
        i = i - 1;
        out.push(chars[i]);
        proof {
            let back = chars@.reverse();
            assert(back.take(chars@.len() - i) == back.take(chars@.len() - i - 1).push(
                chars@[i as int],
            ));
            assert(out@ == old(out)@ + back.take(chars@.len() - i));
        }
    }
    proof {
        assert(chars@.reverse().take(chars@.len() as int) == chars@.reverse());
    }
}

/// Writes a natural number in decimal.
pub fn write_decimal(n: u64) -> (r: String)
    ensures
        r@ == decimal(n as nat),
{
    let mut out = String::new();
    let digits = digits_backwards(n);
    append_backwards(&mut out, &digits);
    proof {
        assert(Seq::<char>::empty() + decimal(n as nat) == decimal(n as nat));
    }
    out
}

/// The distance of a number from zero.
fn magnitude(n: i64) -> (r: u64)
    ensures
        r == if n < 0 {
            -n
        } else {
            n as int
        },
{
    if n < 0 {
        (-(n + 1)) as u64 + 1
    } else {
        n as u64
    }
}

/// Writes a whole number in decimal.
pub fn write_signed(n: i64) -> (r: String)
    ensures
        r@ == signed_decimal(n as int),
{
    let mut out = String::new();
    if n < 0 {
        out.push('-');
    }
    let ghost sign = out@;
    let digits = digits_backwards(magnitude(n));
    append_backwards(&mut out, &digits);
    proof {
        if n < 0 {
            assert(sign == seq!['-']);
        } else {
            assert(sign + decimal(n as nat) == decimal(n as nat));
        }
    }
    out
}

/// Writes a whole number in decimal, filled with zeros behind the sign up to a width.
pub fn write_padded(n: i64, width: usize) -> (r: String)
    ensures
        r@ == padded(n as int, width as nat),
{
    let digits = digits_backwards(magnitude(n));
    let mut out = String::new();
    let mut used: usize = 0;
    if n < 0 {
        out.push('-');
        used = 1;
    }
    let ghost sign = out@;
    proof {
        assert(sign == if n < 0 {
            seq!['-']
        } else {
            Seq::<char>::empty()
        });
        assert(digits@.reverse().len() == digits@.len());
        assert(sign == sign + zeros(0));
    }
    let mut filled: usize = 0;
    while filled < width && used < width - filled && digits.len() < width - filled - used
        invariant
            used == sign.len(),
            sign.len() <= 1,
            filled <= width,
            filled > 0 ==> filled + used + digits@.len() <= width,
            out@ == sign + zeros(filled as nat),
        decreases width - filled,
    {
        out.push('0');
        proof {
            assert(zeros(filled as nat).push('0') == zeros((filled + 1) as nat));
            assert(out@ == sign + zeros((filled + 1) as nat));
        }
        filled = filled + 1;
    }
    append_backwards(&mut out, &digits);
    proof {
        if filled == 0 {
            assert(sign + zeros(0) == sign);
        }
    }
    out
}

/// Why a text is not a whole number of the wanted range.
#[derive(Clone, Copy, Debug, PartialEq, Eq, Structural)]
pub enum IntFault {
    Empty,
    InvalidDigit,
    TooLarge,
    TooSmall,
}

/// The text that describes a fault.
pub open spec fn fault_text(fault: IntFault) -> Seq<char> {
    match fault {
        IntFault::Empty => "cannot parse integer from empty string"@,
        IntFault::InvalidDigit => "invalid digit found in string"@,
        IntFault::TooLarge => "number too large to fit in target type"@,
        IntFault::TooSmall => "number too small to fit in target type"@,
    }
}

impl IntFault {
    /// Describes the fault.
    pub fn message(self) -> (r: String)
        ensures
            r@ == fault_text(self),
    {
        match self {
            IntFault::Empty => "cannot parse integer from empty string".to_string(),
            IntFault::InvalidDigit => "invalid digit found in string".to_string(),
            IntFault::TooLarge => "number too large to fit in target type".to_string(),
            IntFault::TooSmall => "number too small to fit in target type".to_string(),
        }
    }
}

/// The number that the digits from index `i` on make of `acc`, away from zero on the side of the sign.
/// The first character that is no digit, or that leads out of the range, decides the fault.
pub open spec fn digits_value(
    s: Seq<char>,
    i: int,
    acc: int,
    negative: bool,
    low: int,
    high: int,
) -> Result<int, IntFault>
    decreases s.len() - i,
{
    if i >= s.len() {
        Ok(acc)
    } else if !is_digit(s[i]) {
        Err(IntFault::InvalidDigit)
    } else {
        let d = s[i] as int - '0' as int;
        let next = if negative {
            acc * 10 - d
        } else {
            acc * 10 + d
        };
        if next > high {
            Err(IntFault::TooLarge)
        } else if next < low {
            Err(IntFault::TooSmall)
        } else {
            digits_value(s, i + 1, next, negative, low, high)
        }
    }
}

/// The whole number from `low` to `high` that a text spells: an optional sign and one or more digits.
/// A minus sign is a sign only where the range has negative numbers.
pub open spec fn int_value(s: Seq<char>, low: int, high: int) -> Result<int, IntFault> {
    if s.len() == 0 {
        Err(IntFault::Empty)
    } else if s.len() == 1 && (s[0] == '+' || s[0] == '-') {
        Err(IntFault::InvalidDigit)
    } else if s[0] == '+' {
        digits_value(s, 1, 0, false, low, high)
    } else if s[0] == '-' && low < 0 {
        digits_value(s, 1, 0, true, low, high)
    } else {
        digits_value(s, 0, 0, false, low, high)
    }
}

/// The number that digits make of one in the range lies in the range.
proof fn lemma_digits_value_in_range(
    s: Seq<char>,
    i: int,
    acc: int,
    negative: bool,
    low: int,
    high: int,
)
    requires
        low <= acc <= high,
    ensures
        digits_value(s, i, acc, negative, low, high) matches Ok(n) ==> low <= n <= high,
    decreases s.len() - i,
{
    if i < s.len() && is_digit(s[i]) {
        let d = s[i] as int - '0' as int;
        let next = if negative {
            acc * 10 - d
        } else {
            acc * 10 + d
        };
        if low <= next <= high {
            lemma_digits_value_in_range(s, i + 1, next, negative, low, high);
        }
    }
}

/// The whole number that a text spells lies in the range.
pub proof fn lemma_int_value_in_range(s: Seq<char>, low: int, high: int)
    requires
        low <= 0 <= high,
    ensures
        int_value(s, low, high) matches Ok(n) ==> low <= n <= high,
{
    lemma_digits_value_in_range(s, 1, 0, false, low, high);
    lemma_digits_value_in_range(s, 1, 0, true, low, high);
    lemma_digits_value_in_range(s, 0, 0, false, low, high);
}

/// Reads a whole number from `low` to `high`.
pub fn parse_int(s: &str, low: i64, high: i64) -> (r: Result<i64, IntFault>)
    requires
        low <= 0 <= high,
    ensures
        match r {
            Ok(n) => int_value(s@, low as int, high as int) == Ok::<int, IntFault>(n as int),
            Err(e) => int_value(s@, low as int, high as int) == Err::<int, IntFault>(e),
        },
        r matches Ok(n) ==> low <= n <= high,
{
    let chars = chars_of(s);
    if chars.len() == 0 {
        return Err(IntFault::Empty);
    }
    if chars.len() == 1 && (chars[0] == '+' || chars[0] == '-') {
        return Err(IntFault::InvalidDigit);
    }
    let mut negative = false;
    let mut i: usize = 0;
    if chars[0] == '+' {
        i = 1;
    } else if chars[0] == '-' && low < 0 {
        negative = true;
        i = 1;
    }
    let mut acc: i64 = 0;
    while i < chars.len()
        invariant
            i <= chars@.len(),
            low <= acc <= high,
            chars@ == s@,
            int_value(s@, low as int, high as int) == digits_value(
                s@,
                i as int,
                acc as int,
                negative,
                low as int,
                high as int,
            ),
        decreases chars@.len() - i,
    {
        let c = chars[i];
        if c < '0' || '9' < c {
            return Err(IntFault::InvalidDigit);
        }
        let d: i128 = (c as u32 - 48) as i128;
        let next: i128 = if negative {
            acc as i128 * 10 - d
        } else {
            acc as i128 * 10 + d
        };
        if next > high as i128 {
            return Err(IntFault::TooLarge);
        }
        if next < low as i128 {
            return Err(IntFault::TooSmall);
        }
        acc = next as i64;
        i = i + 1;
    }
    Ok(acc)
}

/// Digits read on from an accumulator: what the decimal text of `n` behind it gives.
proof fn lemma_digits_value_decimal(s: Seq<char>, start: int, n: nat, negative: bool, low: int, high: int)
    requires
        0 <= start <= s.len(),
        s.skip(start) == decimal(n),
        low <= 0 <= high,
        negative ==> low <= -(n as int),
        !negative ==> n <= high,
    ensures
        digits_value(s, start, 0, negative, low, high) == Ok::<int, IntFault>(
            if negative {
                -(n as int)
            } else {
                n as int
            },
        ),
{
    lemma_digits_prefix(s, start, s.len() as int, n, negative, low, high);
}

/// Reading the first digits of a text, up to `end`, that spell `n`, leads to reading on from `n`.
proof fn lemma_digits_prefix(s: Seq<char>, start: int, end: int, n: nat, negative: bool, low: int, high: int)
    requires
        0 <= start <= end <= s.len(),
        s.subrange(start, end) == decimal(n),
        low <= 0 <= high,
        negative ==> low <= -(n as int),
        !negative ==> n <= high,
    ensures
        digits_value(s, start, 0, negative, low, high) == digits_value(
            s,
            end,
            if negative {
                -(n as int)
            } else {
                n as int
            },
            negative,
            low,
            high,
        ),
    decreases n,
{
    if n < 10 {
        assert(s.subrange(start, end)[0] == s[start]);
        assert(digits_value(s, start, 0, negative, low, high) == digits_value(
            s,
            start + 1,
            if negative {
                -(n as int)
            } else {
                n as int
            },
            negative,
            low,
            high,
        ));
    } else {
        let q = n / 10;
        assert(s.subrange(start, end).drop_last() == s.subrange(start, end - 1));
        assert(decimal(n).drop_last() == decimal(q));
        lemma_decimal_digits(q);
        assert(s.subrange(start, end).last() == s[end - 1]);
        lemma_digits_prefix(s, start, end - 1, q, negative, low, high);
    }
}

/// A number that is written in decimal and read back is the same number.
pub proof fn law_decimal_reads_back(n: int, low: int, high: int)
    requires
        low <= 0 <= high,
        low <= n <= high,
    ensures
        int_value(signed_decimal(n), low, high) == Ok::<int, IntFault>(n),
{
    let s = signed_decimal(n);
    if n < 0 {
        lemma_decimal_digits((-n) as nat);
        assert(s.skip(1) == decimal((-n) as nat));
        lemma_digits_value_decimal(s, 1, (-n) as nat, true, low, high);
    } else {
        lemma_decimal_digits(n as nat);
        assert(is_digit(s[0]));
        assert(s.skip(0) == decimal(n as nat));
        lemma_digits_value_decimal(s, 0, n as nat, false, low, high);
    }
}

/// A smaller number has no more digits.
proof fn lemma_decimal_len(a: nat, b: nat)
    requires
        a <= b,
    ensures
        decimal(a).len() <= decimal(b).len(),
    decreases b,
{
    if b >= 10 {
        lemma_decimal_digits(b / 10);
        if a >= 10 {
            lemma_decimal_len(a / 10, b / 10);
        }
    }
}

/// The last digit of a padded number stands behind the padded rest.
proof fn lemma_padded_step(n: nat, width: nat)
    requires
        decimal(n).len() <= width,
        width >= 2,
    ensures
        padded(n as int, width) == padded((n / 10) as int, (width - 1) as nat).push(
            digit((n % 10) as int),
        ),
        decimal(n / 10).len() <= width - 1,
{
    if n < 10 {
        assert(decimal(0) == seq!['0']);
    }
    assert(padded(n as int, width) =~= padded((n / 10) as int, (width - 1) as nat).push(
        digit((n % 10) as int),
    ));
}

/// Numbers of one width stand in the order of their texts.
pub proof fn lemma_padded_order(a: nat, b: nat, width: nat)
    requires
        a < b,
        decimal(b).len() <= width,
    ensures
        padded(a as int, width).len() == width,
        padded(b as int, width).len() == width,
        crate::text::text_lt(padded(a as int, width), padded(b as int, width)),
    decreases width,
{
    lemma_decimal_len(a, b);
    lemma_decimal_digits(a);
    lemma_decimal_digits(b);
    let x = padded(a as int, width);
    let y = padded(b as int, width);
    if width == 1 {
        lemma_decimal_digits(b / 10);
        assert(b < 10);
        assert(x =~= seq![digit(a as int)]);
        assert(y =~= seq![digit(b as int)]);
        crate::text::lemma_first_difference(x, y, 0);
    } else {
        lemma_padded_step(a, width);
        lemma_padded_step(b, width);
        let c = seq![digit((a % 10) as int)];
        let d = seq![digit((b % 10) as int)];
        let p = padded((a / 10) as int, (width - 1) as nat);
        let q = padded((b / 10) as int, (width - 1) as nat);
        assert(x =~= p + c);
        assert(y =~= q + d);
        if a / 10 < b / 10 {
            lemma_padded_order(a / 10, b / 10, (width - 1) as nat);
            crate::text::lemma_ordered_start(p, q, c, d);
        } else {
            crate::text::lemma_first_difference(c, d, 0);
            crate::text::lemma_common_start(p, c, d);
        }
    }
}

/// Numbers below ten thousand have up to four digits.
pub proof fn lemma_small_decimal(n: nat)
    ensures
        n < 100 ==> decimal(n).len() <= 2,
        n < 1000 ==> decimal(n).len() <= 3,
        n < 10000 ==> decimal(n).len() <= 4,
{
    reveal_with_fuel(decimal, 5);
}

/// A number that has no more digits than a width is padded to that many digits.
pub proof fn lemma_padded_digits(n: nat, width: nat)
    requires
        decimal(n).len() <= width,
    ensures
        padded(n as int, width).len() == width,
        forall|i: int|
            0 <= i < width ==> is_digit(#[trigger] padded(n as int, width)[i]),
{
    lemma_decimal_digits(n);
    let digits = decimal(n);
    let gap = width - digits.len();
    let all = padded(n as int, width);
    assert forall|i: int| 0 <= i < width implies is_digit(#[trigger] all[i]) by {
        if i >= gap {
            assert(all[i] == digits[i - gap]);
        }
    }
}

/// Zeros before digits do not change the number that they spell.
proof fn lemma_zeros_value(s: Seq<char>, i: int, end: int, low: int, high: int)
    requires
        0 <= i <= end <= s.len(),
        low <= 0 <= high,
        forall|k: int| i <= k < end ==> #[trigger] s[k] == '0',
    ensures
        digits_value(s, i, 0, false, low, high) == digits_value(s, end, 0, false, low, high),
    decreases end - i,
{
    if i < end {
        assert(s[i] == '0');
        lemma_zeros_value(s, i + 1, end, low, high);
    }
}

/// A natural number that is written with zeros before it is read as that number.
pub proof fn law_padded_reads_back(n: nat, width: nat, low: int, high: int)
    requires
        low <= 0,
        n <= high,
    ensures
        int_value(padded(n as int, width), low, high) == Ok::<int, IntFault>(n as int),
{
    let s = padded(n as int, width);
    let digits = decimal(n);
    lemma_decimal_digits(n);
    let gap: int = if digits.len() < width {
        width - digits.len()
    } else {
        0
    };
    assert(s =~= zeros(gap as nat) + digits);
    assert(s.skip(gap) =~= digits);
    assert(is_digit(s[0])) by {
        if gap == 0 {
            assert(s[0] == digits[0]);
        }
    }
    assert forall|k: int| 0 <= k < gap implies #[trigger] s[k] == '0' by {}
    lemma_zeros_value(s, 0, gap, low, high);
    lemma_digits_value_decimal(s, gap, n, false, low, high);
}

/// What the digits of a text weigh: one more digit behind a number makes it ten times as large and adds
/// the digit; a minus sign before it turns it round, and a plus sign changes nothing.
pub proof fn law_digits_weigh_ten(s: Seq<char>, d: int, high: int)
    requires
        s.len() > 0,
        forall|i: int| 0 <= i < s.len() ==> '0' <= #[trigger] s[i] <= '9',
        0 <= d <= 9,
        int_value(s, -high, high) matches Ok(n) && n * 10 + d <= high,
        high >= 9,
    ensures
        int_value(s, -high, high) matches Ok(n) && {
            &&& n >= 0
            &&& int_value(s.push(('0' as int + d) as char), -high, high) == Ok::<int, IntFault>(
                n * 10 + d,
            )
            &&& int_value(seq!['-'] + s, -high, high) == Ok::<int, IntFault>(-n)
            &&& int_value(seq!['+'] + s, -high, high) == Ok::<int, IntFault>(n)
        },
        int_value(seq![('0' as int + d) as char], -high, high) == Ok::<int, IntFault>(d),
{
    assert('0' <= s[0] <= '9');
    let c = ('0' as int + d) as char;
    lemma_digits_push(s, 0, 0, d, high);
    let minus = seq!['-'] + s;
    let plus = seq!['+'] + s;
    assert(minus.skip(1) =~= s);
    assert(plus.skip(1) =~= s);
    lemma_digits_turned(s, 0, minus, 0, high);
    lemma_digits_same(s, 0, plus, 0, high);
    assert(s.push(c)[0] == s[0]);
    reveal_with_fuel(digits_value, 2);
}

/// One more digit behind digits.
proof fn lemma_digits_push(s: Seq<char>, i: int, acc: int, d: int, high: int)
    requires
        0 <= i <= s.len(),
        0 <= acc <= high,
        forall|k: int| 0 <= k < s.len() ==> '0' <= #[trigger] s[k] <= '9',
        0 <= d <= 9,
        high >= 9,
    ensures
        digits_value(s, i, acc, false, -high, high) matches Ok(n) ==> n >= 0 && (n * 10 + d <= high
            ==> digits_value(s.push(('0' as int + d) as char), i, acc, false, -high, high) == Ok::<
            int,
            IntFault,
        >(n * 10 + d)),
    decreases s.len() - i,
{
    let c = ('0' as int + d) as char;
    let t = s.push(c);
    if i < s.len() {
        assert('0' <= s[i] <= '9');
        assert(t[i] == s[i]);
        let next = acc * 10 + (s[i] as int - '0' as int);
        if next <= high {
            lemma_digits_push(s, i + 1, next, d, high);
        }
    } else {
        assert(t[i] == c);
        reveal_with_fuel(digits_value, 2);
    }
}

/// Digits behind a minus sign spell the same number below zero.
proof fn lemma_digits_turned(s: Seq<char>, i: int, t: Seq<char>, acc: int, high: int)
    requires
        0 <= i <= s.len(),
        t.len() == s.len() + 1,
        t.skip(1) == s,
        0 <= acc <= high,
        forall|k: int| 0 <= k < s.len() ==> '0' <= #[trigger] s[k] <= '9',
    ensures
        digits_value(s, i, acc, false, -high, high) matches Ok(n) ==> digits_value(
            t,
            i + 1,
            -acc,
            true,
            -high,
            high,
        ) == Ok::<int, IntFault>(-n),
    decreases s.len() - i,
{
    if i < s.len() {
        assert('0' <= s[i] <= '9');
        assert(t[i + 1] == t.skip(1)[i]);
        let next = acc * 10 + (s[i] as int - '0' as int);
        if next <= high {
            lemma_digits_turned(s, i + 1, t, next, high);
        }
    }
}

/// Digits behind a plus sign spell the same number.
proof fn lemma_digits_same(s: Seq<char>, i: int, t: Seq<char>, acc: int, high: int)
    requires
        0 <= i <= s.len(),
        t.len() == s.len() + 1,
        t.skip(1) == s,
        0 <= acc <= high,
        forall|k: int| 0 <= k < s.len() ==> '0' <= #[trigger] s[k] <= '9',
    ensures
        digits_value(s, i, acc, false, -high, high) matches Ok(n) ==> digits_value(
            t,
            i + 1,
            acc,
            false,
            -high,
            high,
        ) == Ok::<int, IntFault>(n),
    decreases s.len() - i,
{
    if i < s.len() {
        assert('0' <= s[i] <= '9');
        assert(t[i + 1] == t.skip(1)[i]);
        let next = acc * 10 + (s[i] as int - '0' as int);
        if next <= high {
            lemma_digits_same(s, i + 1, t, next, high);
        }
    }
}

/// A number that is too large for its range, or too small, is refused as such.
pub proof fn law_numbers_keep_to_their_range(n: int, low: int, high: int)
    requires
        low < 0 <= high,
        n < low || high < n,
    ensures
        int_value(signed_decimal(n), low, high) == if high < n {
            Err::<int, IntFault>(IntFault::TooLarge)
        } else {
            Err::<int, IntFault>(IntFault::TooSmall)
        },
{
    let s = signed_decimal(n);
    if n < 0 {
        lemma_decimal_digits((-n) as nat);
        assert(s.subrange(1, s.len() as int) =~= decimal((-n) as nat));
        lemma_out_of_range(s, 1, s.len() as int, (-n) as nat, true, low, high);
    } else {
        lemma_decimal_digits(n as nat);
        assert(is_digit(s[0]));
        assert(s.subrange(0, s.len() as int) =~= decimal(n as nat));
        lemma_out_of_range(s, 0, s.len() as int, n as nat, false, low, high);
    }
}

/// Reading digits that lead out of the range ends there.
proof fn lemma_out_of_range(
    s: Seq<char>,
    start: int,
    end: int,
    n: nat,
    negative: bool,
    low: int,
    high: int,
)
    requires
        0 <= start <= end <= s.len(),
        s.subrange(start, end) == decimal(n),
        low <= 0 <= high,
        negative ==> -(n as int) < low,
        !negative ==> high < n,
    ensures
        digits_value(s, start, 0, negative, low, high) == if negative {
            Err::<int, IntFault>(IntFault::TooSmall)
        } else {
            Err::<int, IntFault>(IntFault::TooLarge)
        },
    decreases n,
{
    if n < 10 {
        assert(s.subrange(start, end)[0] == s[start]);
    } else {
        let q = n / 10;
        assert(s.subrange(start, end).drop_last() =~= s.subrange(start, end - 1));
        assert(decimal(n).drop_last() =~= decimal(q));
        lemma_decimal_digits(q);
        assert(s.subrange(start, end).last() == s[end - 1]);
        if negative && -(q as int) < low || !negative && high < q {
            lemma_out_of_range(s, start, end - 1, q, negative, low, high);
        } else {
            lemma_digits_prefix(s, start, end - 1, q, negative, low, high);
        }
    }
}

/// Whole numbers are digits, with one sign before them or none, and nothing else.
pub proof fn law_numbers_are_digits(s: Seq<char>, low: int, high: int)
    ensures
        int_value(s, low, high) is Ok ==> s.len() > 0 && is_digit(s.last()) && (is_digit(s[0]) || s[0]
            == '+' || s[0] == '-' && low < 0) && forall|i: int|
            0 < i < s.len() ==> is_digit(#[trigger] s[i]),
{
    if int_value(s, low, high) is Ok {
        if s[0] == '+' {
            lemma_only_digits(s, 1, 0, false, low, high);
        } else if s[0] == '-' && low < 0 {
            lemma_only_digits(s, 1, 0, true, low, high);
        } else {
            lemma_only_digits(s, 0, 0, false, low, high);
        }
    }
}

/// What is read to the end holds digits alone.
proof fn lemma_only_digits(s: Seq<char>, i: int, acc: int, negative: bool, low: int, high: int)
    requires
        0 <= i <= s.len(),
        digits_value(s, i, acc, negative, low, high) is Ok,
    ensures
        forall|k: int| i <= k < s.len() ==> is_digit(#[trigger] s[k]),
    decreases s.len() - i,
{
    if i < s.len() {
        let d = s[i] as int - '0' as int;
        let next = if negative {
            acc * 10 - d
        } else {
            acc * 10 + d
        };
        lemma_only_digits(s, i + 1, next, negative, low, high);
    }
}

} // verus!
