//! Bar intervals: how they are written, and how they cut time into buckets.

use vstd::arithmetic::div_mod::lemma_fundamental_div_mod;
use vstd::arithmetic::div_mod::lemma_fundamental_div_mod_converse;
use vstd::arithmetic::div_mod::lemma_mod_bound;
use vstd::arithmetic::div_mod::lemma_mod_decreases;
use vstd::arithmetic::div_mod::lemma_mod_multiples_basic;
use vstd::prelude::*;

verus! {

/// The intervals, in seconds, whose current bar is kept up to date trade by trade.
pub const ACTIVE_KLINE_INTERVALS: [u64; 2] = [60, 300];

/// An ASCII decimal digit.
pub open spec fn is_digit(c: char) -> bool {
    '0' <= c && c <= '9'
}

/// The number that a sequence of decimal digits denotes.
pub open spec fn decimal_value(digits: Seq<char>) -> nat
    decreases digits.len(),
{
    if digits.len() == 0 {
        0
    } else {
        (decimal_value(digits.drop_last()) * 10 + (digits.last() as int - '0' as int)) as nat
    }
}

/// A number without its optional leading plus sign.
pub open spec fn without_plus(s: Seq<char>) -> Seq<char> {
    if s.len() > 0 && s[0] == '+' {
        s.skip(1)
    } else {
        s
    }
}

/// An optional plus sign followed by at least one digit, and nothing else.
pub open spec fn is_number(s: Seq<char>) -> bool {
    &&& without_plus(s).len() > 0
    &&& forall|i: int| 0 <= i < without_plus(s).len() ==> is_digit(#[trigger] without_plus(s)[i])
}

/// The number written in `s`, where `s` is a number that fits in 64 bits.
pub open spec fn number_value(s: Seq<char>) -> Option<u64> {
    if is_number(s) && decimal_value(without_plus(s)) <= u64::MAX {
        Some(decimal_value(without_plus(s)) as u64)
    } else {
        None
    }
}

/// How many seconds a unit letter stands for.
pub open spec fn unit_seconds(unit: char) -> Option<u64> {
    if unit == 's' {
        Some(1)
    } else if unit == 'm' {
        Some(60)
    } else if unit == 'h' {
        Some(3600)
    } else if unit == 'd' {
        Some(86400)
    } else {
        None
    }
}

/// The length in seconds of the interval written in `s`: a number and then a unit letter, of
/// together no more seconds than fit in 64 bits.
pub open spec fn interval_value(s: Seq<char>) -> Option<u64> {
    if s.len() == 0 {
        None
    } else {
        match (number_value(s.drop_last()), unit_seconds(s.last())) {
            (Some(number), Some(seconds)) => if number * seconds <= u64::MAX {
                Some((number * seconds) as u64)
            } else {
                None
            },
            _ => None,
        }
    }
}

/// The characters of a string.
fn chars_of(s: &str) -> (chars: Vec<char>)
    ensures
        chars@ == s@,
{
    let mut chars: Vec<char> = Vec::new();
    for c in it: s.chars()
        invariant
            it.seq() == s@,
            chars@ == s@.take(it.index()),
    {
        chars.push(c);
    }
    chars
}

/// Reading more digits never makes the number smaller.
proof fn lemma_decimal_value_grows(digits: Seq<char>, i: int)
    requires
        0 <= i <= digits.len(),
        forall|j: int| 0 <= j < digits.len() ==> is_digit(#[trigger] digits[j]),
    ensures
        decimal_value(digits.take(i)) <= decimal_value(digits),
    decreases digits.len() - i,
{
    if i == digits.len() {
        assert(digits.take(i) == digits);
    } else {
        assert(digits.take(i + 1).drop_last() == digits.take(i));
        assert(is_digit(digits[i]));
        lemma_decimal_value_grows(digits, i + 1);
    }
}

/// Reads the number in the first `end` characters.
fn read_number(chars: &Vec<char>, end: usize) -> (number: Option<u64>)
    requires
        end <= chars@.len(),
    ensures
        number == number_value(chars@.take(end as int)),
{
    let ghost text = chars@.take(end as int);
    let ghost digits = without_plus(text);
    let start: usize = if end > 0 && chars[0] == '+' {
        1
    } else {
        0
    };
    if start == end {
        return None;
    }
    let mut value: u64 = 0;
    let mut i: usize = start;
    while i < end
        invariant
            start <= i <= end <= chars@.len(),
            text == chars@.take(end as int),
            digits == without_plus(text),
            digits.len() == end - start,
            forall|j: int| 0 <= j < digits.len() ==> digits[j] == chars@[start + j],
            forall|j: int| 0 <= j < i - start ==> is_digit(#[trigger] digits[j]),
            value == decimal_value(digits.take(i - start)),
        decreases end - i,
    {
        let c: char = chars[i];
        if !('0' <= c && c <= '9') {
            assert(!is_digit(digits[i - start]));
            return None;
        }
        let digit: u64 = (c as u32 - '0' as u32) as u64;
        proof {
            assert(digits[i - start] == c);
            assert(digits.take(i - start + 1).drop_last() == digits.take(i - start));
            assert(decimal_value(digits.take(i - start + 1)) == value * 10 + digit);
            if is_number(text) {
                lemma_decimal_value_grows(digits, i - start + 1);
            }
        }
        if value > (u64::MAX - digit) / 10 {
            return None;
        }
        value = value * 10 + digit;
        i = i + 1;
    }
    assert(digits.take(end - start) == digits);
    Some(value)
}

/// The length in seconds of an interval such as "30s", "5m", "1h" or "1d", and `None` for
/// anything that is not a number followed by one of these units, or whose seconds do not fit
/// in 64 bits.
pub fn parse_interval_to_seconds(interval_str: &str) -> (result: Option<u64>)
    ensures
        result == interval_value(interval_str@),
{
    let chars = chars_of(interval_str);
    if chars.len() == 0 {
        return None;
    }
    let end: usize = chars.len() - 1;
    assert(chars@.take(end as int) == interval_str@.drop_last());
    let number: u64 = match read_number(&chars, end) {
        Some(number) => number,
        None => return None,
    };
    let seconds: u64 = match chars[end] {
        's' => 1,
        'm' => 60,
        'h' => 3600,
        'd' => 86400,
        _ => return None,
    };
    assert(unit_seconds(interval_str@.last()) == Some(seconds));
    number.checked_mul(seconds)
}

/// The interval of a request that names none: one minute.
pub fn default_interval() -> (interval: String)
    ensures
        interval@ == "1m"@,
{
    "1m".to_owned()
}

/// The start of the bucket of length `interval` that holds the time `timestamp`:
/// the largest multiple of `interval` that is not after it.
pub open spec fn interval_start(timestamp: u64, interval: u64) -> u64 {
    (timestamp - timestamp % interval) as u64
}

/// How a number is written in decimal digits, without leading zeros.
pub open spec fn decimal(n: nat) -> Seq<char>
    decreases n,
{
    let digit = (n % 10 + '0' as nat) as char;
    if n < 10 {
        seq![digit]
    } else {
        decimal(n / 10).push(digit)
    }
}

/// What the digits of a number denote is the number.
proof fn lemma_decimal(n: nat)
    ensures
        decimal(n).len() > 0,
        forall|i: int| 0 <= i < decimal(n).len() ==> is_digit(#[trigger] decimal(n)[i]),
        decimal_value(decimal(n)) == n,
    decreases n,
{
    let digit = (n % 10 + '0' as nat) as char;
    if n < 10 {
        assert(seq![digit].drop_last() =~= Seq::<char>::empty());
        reveal_with_fuel(decimal_value, 2);
    } else {
        lemma_decimal(n / 10);
        assert(decimal(n).drop_last() =~= decimal(n / 10));
    }
}

/// A number that fits in 64 bits, written in decimal digits and followed by a unit, is read as
/// that many of the unit, where their seconds fit too.
pub proof fn written_interval_is_read(n: u64, unit: char)
    ensures
        interval_value(decimal(n as nat).push(unit)) == (match unit_seconds(unit) {
            Some(seconds) => if n * seconds <= u64::MAX {
                Some((n * seconds) as u64)
            } else {
                None
            },
            None => None,
        }),
{
    let s = decimal(n as nat).push(unit);
    lemma_decimal(n as nat);
    assert(s.drop_last() =~= decimal(n as nat));
    assert(is_digit(decimal(n as nat)[0]));
}

/// The default interval has the length of a minute.
pub proof fn default_is_one_minute()
    ensures
        interval_value("1m"@) == Some(60u64),
{
    reveal_strlit("1m");
    assert("1m"@.drop_last() =~= seq!['1']);
    assert(seq!['1'].drop_last() =~= Seq::<char>::empty());
    assert(decimal_value(seq!['1']) == decimal_value(Seq::<char>::empty()) * 10 + 1);
}

/// Computes the start of the bucket of length `interval` that holds `timestamp`.
pub fn interval_start_ts(timestamp: u64, interval: u64) -> (start: u64)
    requires
        interval > 0,
    ensures
        start == interval_start(timestamp, interval),
{
    proof {
        lemma_mod_decreases(timestamp as nat, interval as nat);
    }
    timestamp - timestamp % interval
}

/// A bucket that starts at `start` holds the times from its start up to, and without, the
/// start of the next one, and starts are multiples of the interval.
pub proof fn bucket_bounds(timestamp: u64, interval: u64, start: u64)
    requires
        interval > 0,
    ensures
        interval_start(timestamp, interval) == start <==> {
            &&& start % interval == 0
            &&& start <= timestamp < start + interval
        },
{
    let t = timestamp as int;
    let n = interval as int;
    let s = start as int;
    lemma_fundamental_div_mod(t, n);
    lemma_mod_decreases(timestamp as nat, interval as nat);
    lemma_mod_bound(t, n);
    assert(interval_start(timestamp, interval) == t - t % n);
    lemma_mod_multiples_basic(t / n, n);
    assert(n * (t / n) == (t / n) * n) by (nonlinear_arith);
    if s % n == 0 && s <= t < s + n {
        lemma_fundamental_div_mod(s, n);
        let q = s / n;
        assert(t == q * n + (t - s)) by (nonlinear_arith)
            requires
                s == n * q + s % n,
                s % n == 0,
        ;
        lemma_fundamental_div_mod_converse(t, n, q, t - s);
    }
}

/// An interval whose current bar is kept up to date trade by trade.
pub open spec fn is_active(interval: u64) -> bool {
    ACTIVE_KLINE_INTERVALS@.contains(interval)
}

/// Tells whether the current bar of this interval is kept up to date trade by trade.
pub fn is_active_interval(interval: u64) -> (result: bool)
    ensures
        result == is_active(interval),
        result == (interval == 60 || interval == 300),
{
    proof {
        one_and_five_minutes_are_active(interval);
    }
    let mut i: usize = 0;
    while i < ACTIVE_KLINE_INTERVALS.len()
        invariant
            i <= ACTIVE_KLINE_INTERVALS@.len(),
            forall|j: int| 0 <= j < i ==> ACTIVE_KLINE_INTERVALS@[j] != interval,
        decreases ACTIVE_KLINE_INTERVALS@.len() - i,
    {
        if ACTIVE_KLINE_INTERVALS[i] == interval {
            return true;
        }
        i = i + 1;
    }
    false
}

/// Nothing is an interval but what ends in one of the letters s, m, h and d, with something
/// before it.
pub proof fn only_four_units(s: Seq<char>)
    ensures
        s.len() <= 1 ==> interval_value(s) is None,
        s.len() > 0 && s.last() != 's' && s.last() != 'm' && s.last() != 'h' && s.last() != 'd'
            ==> interval_value(s) is None,
{
}

/// A minute, an hour and a day are 60, 3600 and 86400 seconds: the same number of them is that
/// many times the seconds, where these fit in 64 bits, and is no interval where they do not.
pub proof fn units_scale_seconds(number: Seq<char>)
    ensures
        match interval_value(number.push('s')) {
            Some(n) => {
                &&& interval_value(number.push('m')) == (if n * 60 <= 0xffff_ffff_ffff_ffff {
                    Some((n * 60) as u64)
                } else {
                    None
                })
                &&& interval_value(number.push('h')) == (if n * 3600 <= 0xffff_ffff_ffff_ffff {
                    Some((n * 3600) as u64)
                } else {
                    None
                })
                &&& interval_value(number.push('d')) == (if n * 86400 <= 0xffff_ffff_ffff_ffff {
                    Some((n * 86400) as u64)
                } else {
                    None
                })
            },
            None => {
                &&& interval_value(number.push('m')) is None
                &&& interval_value(number.push('h')) is None
                &&& interval_value(number.push('d')) is None
            },
        },
{
    lemma_number_with_unit(number, 's', 1);
    lemma_number_with_unit(number, 'm', 60);
    lemma_number_with_unit(number, 'h', 3600);
    lemma_number_with_unit(number, 'd', 86400);
}

/// A number followed by a unit.
proof fn lemma_number_with_unit(number: Seq<char>, unit: char, seconds: u64)
    requires
        unit_seconds(unit) == Some(seconds),
    ensures
        interval_value(number.push(unit)) == (match number_value(number) {
            Some(n) => if n * seconds <= u64::MAX {
                Some((n * seconds) as u64)
            } else {
                None
            },
            None => None,
        }),
{
    assert(number.push(unit).drop_last() =~= number);
}

/// Reading goes on digit by digit. A digit alone, or after a plus sign alone, is its own value.
/// A digit after a number makes it ten times as much and the digit more, where that fits in 64
/// bits. After what is no number it gives none.
pub proof fn one_digit_more(number: Seq<char>, digit: char)
    requires
        '0' <= digit && digit <= '9',
    ensures
        interval_value(number.push(digit).push('s')) == (if number.len() == 0 || number == seq![
            '+',
        ] {
            Some((digit as int - 48) as u64)
        } else {
            match interval_value(number.push('s')) {
                Some(n) => if n * 10 + (digit as int - 48) <= 0xffff_ffff_ffff_ffff {
                    Some((n * 10 + (digit as int - 48)) as u64)
                } else {
                    None
                },
                None => None,
            }
        }),
{
    let more = number.push(digit);
    let before = without_plus(number);
    let after = without_plus(more);
    lemma_number_with_unit(more, 's', 1);
    lemma_number_with_unit(number, 's', 1);
    if number.len() == 0 {
        assert(before =~= Seq::<char>::empty());
        assert(after =~= before.push(digit));
    } else if number[0] == '+' {
        assert(after =~= before.push(digit));
        assert(number.len() == 1 ==> number =~= seq!['+']);
    } else {
        assert(after =~= before.push(digit));
    }
    assert(after.drop_last() =~= before);
    assert(decimal_value(after) == decimal_value(before) * 10 + (digit as int - 48));
    if before.len() == 0 {
        assert(decimal_value(before) == 0);
        assert(is_digit(after[0]));
        assert(number.len() == 0 || number =~= seq!['+']);
    } else {
        assert(is_number(more) == is_number(number)) by {
            if is_number(number) {
                assert forall|i: int| 0 <= i < after.len() implies is_digit(
                    #[trigger] after[i],
                ) by {
                    if i < before.len() {
                        assert(after[i] == before[i]);
                    }
                }
            }
            if is_number(more) {
                assert forall|i: int| 0 <= i < before.len() implies is_digit(
                    #[trigger] before[i],
                ) by {
                    assert(after[i] == before[i]);
                }
            }
        }
    }
}

/// Nothing but a digit stands directly before the unit.
pub proof fn only_digits_before_unit(number: Seq<char>, other: char, unit: char)
    requires
        other < '0' || '9' < other,
    ensures
        interval_value(number.push(other).push(unit)) is None,
{
    let text = number.push(other);
    assert(text.push(unit).drop_last() =~= text);
    let digits = without_plus(text);
    if digits.len() > 0 {
        assert(digits.last() == other);
        assert(!is_digit(digits[digits.len() - 1]));
    }
}

/// The active intervals are those of one and of five minutes.
pub proof fn one_and_five_minutes_are_active(interval: u64)
    ensures
        is_active(interval) <==> interval == 60 || interval == 300,
{
    assert(ACTIVE_KLINE_INTERVALS@[0] == 60 && ACTIVE_KLINE_INTERVALS@[1] == 300);
}

} // verus!
