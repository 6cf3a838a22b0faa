//! Decimal numbers in text: reading with a range check, and writing.

use vstd::prelude::*;

use crate::text::{ascii_lower_all, is_literal, part, to_ascii_lower};

verus! {

/// Whether the character is one of the ten ASCII digits.
pub open spec fn is_digit(c: char) -> bool {
    '0' <= c && c <= '9'
}

/// The digit that stands for a number below ten.
pub open spec fn digit(n: int) -> char {
    (48 + n) as char
}

/// Whether every character is a digit.
pub open spec fn all_digits(s: Seq<char>) -> bool {
    forall|i: int| 0 <= i < s.len() ==> is_digit(#[trigger] s[i])
}

/// The number that a row of digits writes out.
pub open spec fn digits_value(s: Seq<char>) -> int
    decreases s.len(),
{
    if s.len() == 0 {
        0
    } else {
        10 * digits_value(s.drop_last()) + (s.last() as int - 48)
    }
}

/// What an unsigned number text stands for: an optional plus sign and at least
/// one digit, with a value up to `max`.
pub open spec fn unsigned_value(s: Seq<char>, max: int) -> Option<int> {
    let d = if s.len() > 0 && s[0] == '+' {
        s.drop_first()
    } else {
        s
    };
    if d.len() > 0 && all_digits(d) && digits_value(d) <= max {
        Some(digits_value(d))
    } else {
        None
    }
}

/// What a 32-bit signed number text stands for: an optional sign and at least
/// one digit, with a value in range.
pub open spec fn i32_value(s: Seq<char>) -> Option<int> {
    if s.len() > 0 && s[0] == '-' {
        let d = s.drop_first();
        if d.len() > 0 && all_digits(d) && digits_value(d) <= 0x8000_0000 {
            Some(-digits_value(d))
        } else {
            None
        }
    } else {
        unsigned_value(s, 0x7fff_ffff)
    }
}

proof fn lemma_value_grows(s: Seq<char>, i: int)
    requires
        all_digits(s),
        0 <= i <= s.len(),
    ensures
        0 <= digits_value(s.take(i)) <= digits_value(s),
    decreases s.len(),
{
    if i < s.len() {
        lemma_value_grows(s.drop_last(), i);
        assert(s.drop_last().take(i) =~= s.take(i));
        assert(is_digit(s[s.len() - 1]));
    } else {
        assert(s.take(i) =~= s);
        if s.len() > 0 {
            lemma_value_grows(s.drop_last(), s.len() - 1);
            assert(s.drop_last().take(s.len() - 1) =~= s.drop_last());
            assert(is_digit(s[s.len() - 1]));
        }
    }
}

/// Reads the digits from `from` to the end of a text.
fn read_digits(s: &[char], from: usize, max: u64) -> (r: Option<u64>)
    requires
        from <= s@.len(),
    ensures
        ({
            let d = s@.skip(from as int);
            let good = d.len() > 0 && all_digits(d) && digits_value(d) <= max;
            match r {
                Some(n) => good && n == digits_value(d),
                None => !good,
            }
        }),
{
    let n: usize = s.len();
    let ghost d = s@.skip(from as int);
    if from == n {
        return None;
    }
    let mut value: u64 = 0;
    let mut i: usize = from;
    while i < n
        invariant
            from <= i <= n,
            n == s@.len(),
            d == s@.skip(from as int),
            all_digits(d.take(i - from)),
            value == digits_value(d.take(i - from)),
            value <= max,
        decreases n - i,
    {
        let c: char = s[i];
        assert(d[i - from] == c);
        assert(d.take(i - from + 1).drop_last() =~= d.take(i - from));
        if c < '0' || c > '9' {
            assert(!is_digit(d[i - from]));
            return None;
        }
        let add: u64 = (c as u32 - 48) as u64;
        assert(digits_value(d.take(i - from + 1)) == 10 * value + add);
        if max < add || value > (max - add) / 10 {
            proof {
                if all_digits(d) {
                    lemma_value_grows(d, i - from + 1);
                }
            }
            return None;
        }
        value = 10 * value + add;
        i += 1;
    }
    assert(d.take(d.len() as int) =~= d);
    Some(value)
}

/// Reads an unsigned number of at most `max`.
pub fn parse_unsigned(s: &[char], max: u64) -> (r: Option<u64>)
    ensures
        match r {
            Some(n) => unsigned_value(s@, max as int) == Some(n as int),
            None => unsigned_value(s@, max as int) is None,
        },
{
    if s.len() > 0 && s[0] == '+' {
        assert(s@.skip(1) =~= s@.drop_first());
        read_digits(s, 1, max)
    } else {
        assert(s@.skip(0) =~= s@);
        read_digits(s, 0, max)
    }
}

/// Reads a `u16`.
pub fn parse_u16(s: &[char]) -> (r: Option<u16>)
    ensures
        match r {
            Some(n) => unsigned_value(s@, u16::MAX as int) == Some(n as int),
            None => unsigned_value(s@, u16::MAX as int) is None,
        },
{
    match parse_unsigned(s, u16::MAX as u64) {
        Some(n) => Some(n as u16),
        None => None,
    }
}

/// Reads a `u32`.
pub fn parse_u32(s: &[char]) -> (r: Option<u32>)
    ensures
        match r {
            Some(n) => unsigned_value(s@, u32::MAX as int) == Some(n as int),
            None => unsigned_value(s@, u32::MAX as int) is None,
        },
{
    match parse_unsigned(s, u32::MAX as u64) {
        Some(n) => Some(n as u32),
        None => None,
    }
}

/// Reads an `i32`.
pub fn parse_i32(s: &[char]) -> (r: Option<i32>)
    ensures
        match r {
            Some(n) => i32_value(s@) == Some(n as int),
            None => i32_value(s@) is None,
        },
{
    if s.len() > 0 && s[0] == '-' {
        assert(s@.skip(1) =~= s@.drop_first());
        match read_digits(s, 1, 0x8000_0000) {
            Some(n) => {
                let wide: i64 = n as i64;
                Some((-wide) as i32)
            },
            None => None,
        }
    } else {
        match parse_unsigned(s, 0x7fff_ffff) {
            Some(n) => Some(n as i32),
            None => None,
        }
    }
}

/// The decimal digits of a number, without leading zeros.
pub open spec fn decimal(n: int) -> Seq<char>
    decreases n,
{
    if n < 10 {
        seq![digit(n)]
    } else {
        decimal(n / 10).push(digit(n % 10))
    }
}

/// Appends the decimal digits of a number to a text.
pub fn push_decimal(to: &mut Vec<char>, n: u64)
    ensures
        final(to)@ == old(to)@ + decimal(n as int),
    decreases n,
{
    let ghost start = to@;
    if n >= 10 {
        push_decimal(to, n / 10);
    }
    let last: u8 = 48 + (n % 10) as u8;
    to.push(last as char);
    assert(to@ =~= start + decimal(n as int));
}

/// The three digits of a number below a thousand, with leading zeros.
pub open spec fn three_digits(n: int) -> Seq<char> {
    seq![digit(n / 100), digit((n / 10) % 10), digit(n % 10)]
}

/// Appends the three digits of a number below a thousand to a text.
pub fn push_three_digits(to: &mut Vec<char>, n: u64)
    requires
        n < 1000,
    ensures
        final(to)@ == old(to)@ + three_digits(n as int),
{
    let ghost start = to@;
    to.push((48 + (n / 100) as u8) as char);
    to.push((48 + ((n / 10) % 10) as u8) as char);
    to.push((48 + (n % 10) as u8) as char);
    assert(to@ =~= start + three_digits(n as int));
}

/// The digit that stands for a number below sixteen.
pub open spec fn hex_digit(n: int) -> char {
    if n < 10 {
        (48 + n) as char
    } else {
        (87 + n) as char
    }
}

/// The lowest `k` hexadecimal digits of a number, with leading zeros.
pub open spec fn hex_digits(n: int, k: int) -> Seq<char>
    decreases k,
{
    if k <= 0 {
        Seq::empty()
    } else {
        hex_digits(n / 16, k - 1).push(hex_digit(n % 16))
    }
}

/// Appends the lowest `k` hexadecimal digits of a number to a text.
pub fn push_hex(to: &mut Vec<char>, n: u64, k: usize)
    ensures
        final(to)@ == old(to)@ + hex_digits(n as int, k as int),
    decreases k,
{
    let ghost start = to@;
    if k > 0 {
        push_hex(to, n / 16, k - 1);
        let low: u8 = (n % 16) as u8;
        let c: u8 = if low < 10 {
            48 + low
        } else {
            87 + low
        };
        to.push(c as char);
    }
    assert(to@ =~= start + hex_digits(n as int, k as int));
}

/// Numbers of up to `k` hexadecimal digits are told apart by those digits.
pub proof fn law_hex_digits_tell_numbers_apart(a: int, b: int, k: nat)
    requires
        0 <= a < vstd::arithmetic::power::pow(16, k),
        0 <= b < vstd::arithmetic::power::pow(16, k),
        hex_digits(a, k as int) == hex_digits(b, k as int),
    ensures
        a == b,
    decreases k,
{
    reveal(vstd::arithmetic::power::pow);
    if k > 0 {
        let x = hex_digits(a, k as int);
        let y = hex_digits(b, k as int);
        assert(x.drop_last() =~= hex_digits(a / 16, k - 1));
        assert(y.drop_last() =~= hex_digits(b / 16, k - 1));
        assert(x.last() == hex_digit(a % 16));
        assert(y.last() == hex_digit(b % 16));
        let before = vstd::arithmetic::power::pow(16, (k - 1) as nat);
        assert(vstd::arithmetic::power::pow(16, k) == 16 * before);
        law_hex_digits_tell_numbers_apart(a / 16, b / 16, (k - 1) as nat);
        assert(a % 16 == b % 16);
    }
}

// ---------------------------------------------------------------------------
// Numbers with a fraction
// ---------------------------------------------------------------------------

/// Position of the first character at or after `from` that is no digit.
pub open spec fn digits_end(s: Seq<char>, from: int) -> int
    decreases s.len() - from,
{
    if 0 <= from < s.len() && is_digit(s[from]) {
        digits_end(s, from + 1)
    } else {
        from
    }
}

fn find_digits_end(s: &[char], from: usize) -> (r: usize)
    requires
        from <= s@.len(),
    ensures
        r == digits_end(s@, from as int),
        from <= r <= s@.len(),
{
    let n: usize = s.len();
    let mut i: usize = from;
    while i < n && '0' <= s[i] && s[i] <= '9'
        invariant
            from <= i <= n,
            n == s@.len(),
            digits_end(s@, from as int) == digits_end(s@, i as int),
        decreases n - i,
    {
        i += 1;
    }
    i
}

/// Whether a text is, from `from` to its end, empty or an exponent: `e` or `E`,
/// an optional sign and at least one digit.
pub open spec fn is_exponent(s: Seq<char>, from: int) -> bool {
    let first = if from + 1 < s.len() && (s[from + 1] == '+' || s[from + 1] == '-') {
        from + 2
    } else {
        from + 1
    };
    ||| from == s.len()
    ||| {
        &&& s[from] == 'e' || s[from] == 'E'
        &&& digits_end(s, first) > first
        &&& digits_end(s, first) == s.len()
    }
}

/// Whether a text is, from `from` to its end, a number without a sign: digits
/// with an optional point among, before or after them, at least one digit in
/// all, and an optional exponent.
pub open spec fn is_unsigned_real(s: Seq<char>, from: int) -> bool {
    let whole = digits_end(s, from);
    if 0 <= whole < s.len() && s[whole] == '.' {
        let end = digits_end(s, whole + 1);
        (whole > from || end > whole + 1) && is_exponent(s, end)
    } else {
        whole > from && is_exponent(s, whole)
    }
}

/// Whether a text is a number with an optional fraction and exponent, or stands
/// for an infinity or for no number, in whatever case; with an optional sign.
pub open spec fn is_real(s: Seq<char>) -> bool {
    let from: int = if s.len() > 0 && (s[0] == '+' || s[0] == '-') {
        1
    } else {
        0
    };
    let name = ascii_lower_all(s.skip(from));
    name == "inf"@ || name == "infinity"@ || name == "nan"@ || is_unsigned_real(s, from)
}

fn exponent_at(s: &[char], from: usize) -> (r: bool)
    requires
        from <= s@.len(),
    ensures
        r == is_exponent(s@, from as int),
{
    let n: usize = s.len();
    if from == n {
        return true;
    }
    if s[from] != 'e' && s[from] != 'E' {
        return false;
    }
    let first: usize = if from + 1 < n && (s[from + 1] == '+' || s[from + 1] == '-') {
        from + 2
    } else {
        from + 1
    };
    let end: usize = find_digits_end(s, first);
    end > first && end == n
}

fn unsigned_real_at(s: &[char], from: usize) -> (r: bool)
    requires
        from <= s@.len(),
    ensures
        r == is_unsigned_real(s@, from as int),
{
    let whole: usize = find_digits_end(s, from);
    if whole < s.len() && s[whole] == '.' {
        let end: usize = find_digits_end(s, whole + 1);
        (whole > from || end > whole + 1) && exponent_at(s, end)
    } else {
        whole > from && exponent_at(s, whole)
    }
}

/// Tests whether a text is a number with an optional fraction and exponent, an
/// infinity or no number.
pub fn reads_as_real(s: &[char]) -> (r: bool)
    ensures
        r == is_real(s@),
{
    let n: usize = s.len();
    let from: usize = if n > 0 && (s[0] == '+' || s[0] == '-') {
        1
    } else {
        0
    };
    let rest: Vec<char> = part(s, from, n);
    assert(rest@ =~= s@.skip(from as int));
    let name: Vec<char> = to_ascii_lower(rest.as_slice());
    let name = name.as_slice();
    is_literal(name, "inf") || is_literal(name, "infinity") || is_literal(name, "nan")
        || unsigned_real_at(s, from)
}

/// A number written with digits, a point and three digits reads as a number.
pub proof fn law_decimals_read_as_numbers(whole: int, thousandths: int)
    requires
        0 <= whole,
        0 <= thousandths < 1000,
    ensures
        is_real(decimal(whole) + seq!['.'] + three_digits(thousandths)),
{
    let s = decimal(whole) + seq!['.'] + three_digits(thousandths);
    let n = decimal(whole).len() as int;
    lemma_decimal_value(whole);
    assert(is_digit(decimal(whole)[0]));
    assert forall|i: int| 0 <= i < n implies is_digit(#[trigger] s[i]) by {
        assert(s[i] == decimal(whole)[i]);
    }
    lemma_digits_end(s, 0, n);
    lemma_digits_end(s, n + 1, n + 4);
}

proof fn lemma_digits_end(s: Seq<char>, from: int, end: int)
    requires
        0 <= from <= end <= s.len(),
        forall|i: int| from <= i < end ==> is_digit(#[trigger] s[i]),
        end < s.len() ==> !is_digit(s[end]),
    ensures
        digits_end(s, from) == end,
    decreases end - from,
{
    if from < end {
        assert(is_digit(s[from]));
        lemma_digits_end(s, from + 1, end);
    }
}

/// Digits write a number in tens: one more digit makes it ten times as large, and
/// the digit's worth more. A digit is worth its distance from zero.
pub proof fn law_digits_count_in_tens(s: Seq<char>, n: int)
    requires
        0 <= n < 10,
    ensures
        digits_value(Seq::<char>::empty()) == 0,
        digits_value(s.push(digit(n))) == 10 * digits_value(s) + n,
        digit(0) == '0' && digit(1) == '1' && digit(2) == '2' && digit(3) == '3' && digit(4)
            == '4' && digit(5) == '5' && digit(6) == '6' && digit(7) == '7' && digit(8) == '8'
            && digit(9) == '9',
        is_digit(digit(n)),
{
    assert(s.push(digit(n)).drop_last() =~= s);
}

/// Three digits write a number below a thousand.
pub proof fn law_three_digits_read_back(n: int)
    requires
        0 <= n < 1000,
    ensures
        digits_value(three_digits(n)) == n,
        all_digits(three_digits(n)),
        three_digits(n).len() == 3,
{
    let s = three_digits(n);
    let none = Seq::<char>::empty();
    law_digits_count_in_tens(none, n / 100);
    law_digits_count_in_tens(none.push(digit(n / 100)), (n / 10) % 10);
    law_digits_count_in_tens(none.push(digit(n / 100)).push(digit((n / 10) % 10)), n % 10);
    assert(s =~= none.push(digit(n / 100)).push(digit((n / 10) % 10)).push(digit(n % 10)));
}

/// What digits write is never negative.
pub proof fn lemma_digits_are_not_negative(s: Seq<char>)
    requires
        all_digits(s),
    ensures
        0 <= digits_value(s),
{
    lemma_value_grows(s, 0);
    assert(s.take(0) =~= Seq::<char>::empty());
}

/// Writing a number and reading it back gives the number.
pub proof fn law_decimal_reads_back(n: int, max: int)
    requires
        0 <= n <= max,
    ensures
        unsigned_value(decimal(n), max) == Some(n),
{
    lemma_decimal_value(n);
    assert(is_digit(decimal(n)[0]));
}

proof fn lemma_decimal_value(n: int)
    requires
        0 <= n,
    ensures
        decimal(n).len() > 0,
        all_digits(decimal(n)),
        digits_value(decimal(n)) == n,
    decreases n,
{
    if n >= 10 {
        lemma_decimal_value(n / 10);
        assert(decimal(n).drop_last() =~= decimal(n / 10));
    } else {
        assert(decimal(n).drop_last() =~= Seq::<char>::empty());
        assert(digits_value(Seq::<char>::empty()) == 0);
    }
}

/// Hexadecimal digits are read from the back: the last is the rest by sixteen, told
/// by a figure or a small letter, and those before it are the digits of the quotient.
pub proof fn law_hex_digits_count_in_sixteens(n: int, k: int)
    requires
        0 <= n,
        0 <= k,
    ensures
        hex_digits(n, k).len() == k,
        0 < k ==> ({
            let s = hex_digits(n, k);
            let d = n % 16;
            &&& s.drop_last() == hex_digits(n / 16, k - 1)
            &&& d < 10 ==> s.last() as int == '0' as int + d
            &&& d >= 10 ==> s.last() as int == 'a' as int + (d - 10)
        }),
    decreases k,
{
    if 0 < k {
        law_hex_digits_count_in_sixteens(n / 16, k - 1);
        assert(hex_digits(n, k).drop_last() =~= hex_digits(n / 16, k - 1));
    }
}

/// A number of 32 bits may be negative: behind a minus sign stand its digits, and it
/// reaches one further down than up. Without a minus sign it is read as one without
/// sign.
pub proof fn law_signed_numbers_have_a_range(digits: Seq<char>)
    requires
        digits.len() > 0,
        all_digits(digits),
    ensures
        digits_value(digits) <= 2_147_483_648 ==> i32_value(seq!['-'] + digits) == Some(
            -digits_value(digits),
        ),
        digits_value(digits) > 2_147_483_648 ==> i32_value(seq!['-'] + digits) is None,
        digits_value(digits) <= 2_147_483_647 ==> i32_value(digits) == Some(digits_value(digits)),
        digits_value(digits) > 2_147_483_647 ==> i32_value(digits) is None,
        i32_value(seq!['-']) is None,
        i32_value(Seq::empty()) is None,
{
    assert((seq!['-'] + digits).drop_first() =~= digits);
    assert(seq!['-'].drop_first() =~= Seq::empty());
    assert(is_digit(digits[0]));
}

/// Figures read as a number: with a point among them or none, and with an exponent
/// behind them, signed or not. A point alone, and an exponent without figures, do
/// not.
pub proof fn law_figures_read_as_a_number(whole: Seq<char>, part: Seq<char>, power: Seq<char>)
    requires
        all_digits(whole),
        all_digits(part),
        all_digits(power),
        whole.len() > 0,
        power.len() > 0,
    ensures
        is_real(whole),
        is_real(seq!['-'] + whole),
        is_real(whole + seq!['.'] + part),
        is_real(whole + seq!['e'] + power),
        is_real(whole + seq!['E', '-'] + power),
        is_real(whole + seq!['e', '+'] + power),
        part.len() > 0 ==> is_real(seq!['.'] + part),
        !is_real(seq!['.']),
        !is_real(whole + seq!['e']),
        !is_real(Seq::empty()),
{
    let n = whole.len() as int;
    let m = part.len() as int;
    let p = power.len() as int;
    assert(is_digit(whole[0]));
    assert(is_digit(power[0]));
    reveal_strlit("inf");
    reveal_strlit("infinity");
    reveal_strlit("nan");

    lemma_digits_end(whole, 0, n);

    let minus = seq!['-'] + whole;
    assert forall|k: int| 1 <= k < n + 1 implies is_digit(#[trigger] minus[k]) by {
        assert(minus[k] == whole[k - 1]);
    }
    lemma_digits_end(minus, 1, n + 1);

    let pointed = whole + seq!['.'] + part;
    assert forall|k: int| 0 <= k < n implies is_digit(#[trigger] pointed[k]) by {
        assert(pointed[k] == whole[k]);
    }
    assert forall|k: int| n + 1 <= k < n + 1 + m implies is_digit(#[trigger] pointed[k]) by {
        assert(pointed[k] == part[k - n - 1]);
    }
    assert(pointed[n] == '.');
    lemma_digits_end(pointed, 0, n);
    lemma_digits_end(pointed, n + 1, n + 1 + m);

    let raised = whole + seq!['e'] + power;
    assert forall|k: int| 0 <= k < n implies is_digit(#[trigger] raised[k]) by {
        assert(raised[k] == whole[k]);
    }
    assert forall|k: int| n + 1 <= k < n + 1 + p implies is_digit(#[trigger] raised[k]) by {
        assert(raised[k] == power[k - n - 1]);
    }
    assert(raised[n] == 'e');
    lemma_digits_end(raised, 0, n);
    lemma_digits_end(raised, n + 1, n + 1 + p);
    assert(raised[n + 1] == power[0]);

    lemma_signed_power(whole, seq!['E', '-'], power);
    lemma_signed_power(whole, seq!['e', '+'], power);

    if part.len() > 0 {
        let bare = seq!['.'] + part;
        assert forall|k: int| 1 <= k < 1 + m implies is_digit(#[trigger] bare[k]) by {
            assert(bare[k] == part[k - 1]);
        }
        lemma_digits_end(bare, 0, 0);
        lemma_digits_end(bare, 1, 1 + m);
    }
    let point = seq!['.'];
    lemma_digits_end(point, 0, 0);
    lemma_digits_end(point, 1, 1);
    assert(point.skip(0) =~= point);
    assert(ascii_lower_all(point)[0] == '.');
    assert(ascii_lower_all(point).len() == 1);

    let cut = whole + seq!['e'];
    assert forall|k: int| 0 <= k < n implies is_digit(#[trigger] cut[k]) by {
        assert(cut[k] == whole[k]);
    }
    lemma_digits_end(cut, 0, n);
    lemma_digits_end(cut, n + 1, n + 1);
    assert(cut[0] == whole[0]);
    assert(cut.skip(0) =~= cut);
    assert(ascii_lower_all(cut)[0] == crate::text::ascii_lower(cut[0]));
    assert("inf"@[0] == 'i' && "infinity"@[0] == 'i' && "nan"@[0] == 'n');

    let none = Seq::<char>::empty();
    assert(none.skip(0) =~= none);
    assert(ascii_lower_all(none).len() == 0);
}

proof fn lemma_signed_power(whole: Seq<char>, mark: Seq<char>, power: Seq<char>)
    requires
        all_digits(whole),
        all_digits(power),
        whole.len() > 0,
        power.len() > 0,
        mark.len() == 2,
        mark[0] == 'e' || mark[0] == 'E',
        mark[1] == '+' || mark[1] == '-',
    ensures
        is_real(whole + mark + power),
{
    let n = whole.len() as int;
    let p = power.len() as int;
    let s = whole + mark + power;
    assert(is_digit(whole[0]));
    assert(s[0] == whole[0]);
    assert forall|k: int| 0 <= k < n implies is_digit(#[trigger] s[k]) by {
        assert(s[k] == whole[k]);
    }
    assert forall|k: int| n + 2 <= k < n + 2 + p implies is_digit(#[trigger] s[k]) by {
        assert(s[k] == power[k - n - 2]);
    }
    assert(s[n] == mark[0] && s[n + 1] == mark[1]);
    lemma_digits_end(s, 0, n);
    lemma_digits_end(s, n + 2, n + 2 + p);
}

} // verus!
