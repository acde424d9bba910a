//! Numbers written as text.

use vstd::prelude::*;
use vstd::arithmetic::div_mod::lemma_fundamental_div_mod_converse;
use crate::chars::{in_class, is_space, CharClass};
use crate::outside::parse_radix;
use crate::text::{only, only_the_edges_are_trimmed, trim, trimmed};

verus! {

/// The character that stands for the digit `d`, below ten.
pub open spec fn digit(d: int) -> char {
    (('0' as u32) + d) as char
}

/// `n` written in decimal.
pub open spec fn decimal(n: nat) -> Seq<char>
    decreases n,
{
    if n < 10 {
        seq![digit(n as int)]
    } else {
        decimal(n / 10).push(digit((n % 10) as int))
    }
}

/// The value of the digit `c` in bases up to 36.
pub open spec fn digit_value(c: char) -> Option<nat> {
    if '0' <= c <= '9' {
        Some(((c as u32) - ('0' as u32)) as nat)
    } else if 'a' <= c <= 'z' {
        Some(((c as u32) - ('a' as u32) + 10) as nat)
    } else if 'A' <= c <= 'Z' {
        Some(((c as u32) - ('A' as u32) + 10) as nat)
    } else {
        None
    }
}

/// The value of a row of digits of the given base.
pub open spec fn digits_value(s: Seq<char>, radix: int) -> Option<nat>
    decreases s.len(),
{
    if s.len() == 0 {
        Some(0)
    } else {
        match (digits_value(s.drop_last(), radix), digit_value(s.last())) {
            (Some(high), Some(d)) => if d < radix {
                Some((high * radix + d) as nat)
            } else {
                None
            },
            _ => None,
        }
    }
}

/// The number that `s` writes in the given base: an optional `+` and then at least one digit.
pub open spec fn number(s: Seq<char>, radix: int) -> Option<nat> {
    let digits = if s.len() > 0 && s[0] == '+' {
        s.skip(1)
    } else {
        s
    };
    if digits.len() == 0 {
        None
    } else {
        digits_value(digits, radix)
    }
}

/// `n` written in decimal with at least two digits.
pub open spec fn two_digits(n: nat) -> Seq<char> {
    if n < 10 {
        seq!['0'] + decimal(n)
    } else {
        decimal(n)
    }
}

/// What a numeric field of the window means: the number in it, kept between `min` and `max`, or
/// `default` where no number that fits stands in it.
pub open spec fn field_value(raw: Seq<char>, default: usize, min: usize, max: usize) -> usize {
    match number(trimmed(raw), 10) {
        Some(n) => if n > usize::MAX {
            default
        } else if n < min {
            min
        } else if n > max {
            max
        } else {
            n as usize
        },
        None => default,
    }
}

/// The digit `d` as a character.
fn digit_char(d: u8) -> (r: char)
    requires
        d < 10,
    ensures
        r == digit(d as int),
{
    (48 + d) as char
}

/// `n` written in decimal.
pub fn to_decimal(n: u128) -> (r: String)
    ensures
        r@ == decimal(n as nat),
    decreases n,
{
    if n < 10 {
        let mut out: String = String::new();
        out.push(digit_char(n as u8));
        out
    } else {
        let mut out = to_decimal(n / 10);
        out.push(digit_char((n % 10) as u8));
        out
    }
}

/// `n` written in decimal with at least two digits.
pub fn to_two_digits(n: u64) -> (r: String)
    ensures
        r@ == two_digits(n as nat),
{
    if n < 10 {
        let mut out: String = String::new();
        out.push('0');
        out.append(to_decimal(n as u128).as_str());
        out
    } else {
        to_decimal(n as u128)
    }
}

/// Reads a numeric field of the window.
pub fn parse_usize_field(raw: &str, default: usize, min: usize, max: usize) -> (r: usize)
    requires
        match number(trimmed(raw@), 10) {
            Some(n) => n <= usize::MAX ==> min <= max,
            None => true,
        },
    ensures
        r == field_value(raw@, default, min, max),
{
    match parse_radix(trim(raw), 10) {
        Ok(n) => if n < min {
            min
        } else if n > max {
            max
        } else {
            n
        },
        Err(_) => default,
    }
}

/// The time of day that the log shows: two hours ahead of UTC.
pub open spec fn clock_text(secs: nat) -> Seq<char> {
    let day = secs % 86400;
    two_digits((day / 3600 + 2) % 24) + ":"@ + two_digits((day % 3600) / 60) + ":"@ + two_digits(
        day % 60,
    )
}

/// What is written in decimal is nothing but digits, begins with a zero only for zero itself, and
/// read as a number gives back what was written.
pub proof fn numbers_are_read_back(n: nat)
    ensures
        decimal(n).len() > 0,
        forall|i: int| 0 <= i < decimal(n).len() ==> '0' <= #[trigger] decimal(n)[i] <= '9',
        n > 0 ==> decimal(n)[0] != '0',
        digits_value(decimal(n), 10) == Some(n),
        number(decimal(n), 10) == Some(n),
    decreases n,
{
    let s = decimal(n);
    lemma_digit((n % 10) as int);
    if n < 10 {
        assert(s.drop_last() =~= Seq::<char>::empty());
        assert(digits_value(s.drop_last(), 10) == Some(0nat));
    } else {
        let high = decimal(n / 10);
        numbers_are_read_back(n / 10);
        assert(s.drop_last() =~= high);
        assert(s[0] == high[0]);
        assert forall|i: int| 0 <= i < s.len() implies '0' <= #[trigger] s[i] <= '9' by {
            if i < high.len() {
                assert(s[i] == high[i]);
            }
        }
    }
    assert('0' <= s[0]);
}

/// A plus in front of a number makes no difference; without any digit there is no number; and letters
/// are digits behind nine, in capitals or not.
pub proof fn signs_and_capitals_make_no_difference(n: nat, i: int, radix: int)
    ensures
        number(seq!['+'] + decimal(n), 10) == Some(n),
        number(Seq::empty(), radix) is None,
        number(seq!['+'], radix) is None,
        0 <= i < 26 ==> digit_value((('a' as u32) + i) as char) == Some((10 + i) as nat),
        0 <= i < 26 ==> digit_value((('A' as u32) + i) as char) == Some((10 + i) as nat),
{
    numbers_are_read_back(n);
    let s = seq!['+'] + decimal(n);
    assert(s[0] == '+');
    assert(s.skip(1) =~= decimal(n));
    let plus = seq!['+'];
    assert(plus[0] == '+');
    assert(plus.skip(1).len() == 0);
}

/// A digit has its value.
proof fn lemma_digit(d: int)
    requires
        0 <= d < 10,
    ensures
        '0' <= digit(d) <= '9',
        digit_value(digit(d)) == Some(d as nat),
        d > 0 ==> digit(d) != '0',
{
}

/// A number in a field counts as it is where it lies between the bounds, and as the nearer bound
/// where it does not; white space around it does not matter; and a field without anything in it
/// counts as the default.
pub proof fn fields_are_kept_between_their_bounds(
    front: Seq<char>,
    n: nat,
    behind: Seq<char>,
    default: usize,
    min: usize,
    max: usize,
)
    requires
        only(front, |c: char| is_space(c)),
        only(behind, |c: char| is_space(c)),
        n <= usize::MAX,
        min <= max,
    ensures
        ({
            let value = field_value(front + decimal(n) + behind, default, min, max);
            &&& min <= value <= max
            &&& min <= n <= max ==> value == n
            &&& n < min ==> value == min
            &&& n > max ==> value == max
        }),
        field_value(front, default, min, max) == default,
{
    let k = CharClass::Space;
    let s = decimal(n);
    numbers_are_read_back(n);
    assert('0' <= s[0] <= '9');
    assert('0' <= s[s.len() - 1] <= '9');
    lemma_edges(front);
    lemma_edges(behind);
    only_the_edges_are_trimmed(front, s, behind, k);
    let none = Seq::<char>::empty();
    assert(only(none, |c: char| in_class(k, c)));
    only_the_edges_are_trimmed(front, none, none, k);
    assert(front + none + none =~= front);
}

/// White space is what is trimmed.
proof fn lemma_edges(s: Seq<char>)
    requires
        only(s, |c: char| is_space(c)),
    ensures
        only(s, |c: char| in_class(CharClass::Space, c)),
{
    let p = |c: char| is_space(c);
    assert forall|i: int| 0 <= i < s.len() implies in_class(CharClass::Space, #[trigger] s[i]) by {
        assert(p(s[i]));
    }
}

/// The clock shows hours, minutes and seconds with two digits each and colons between them, two hours
/// ahead, and the same at the same time of any day.
pub proof fn the_clock_shows_the_time_of_day(days: nat, h: nat, m: nat, s: nat)
    requires
        h < 24,
        m < 60,
        s < 60,
    ensures
        ({
            let shown = clock_text(days * 86400 + h * 3600 + m * 60 + s);
            &&& shown.len() == 8
            &&& digits_value(shown.subrange(0, 2), 10) == Some((h + 2) % 24)
            &&& shown[2] == ':'
            &&& digits_value(shown.subrange(3, 5), 10) == Some(m)
            &&& shown[5] == ':'
            &&& digits_value(shown.subrange(6, 8), 10) == Some(s)
        }),
{
    lemma_time_of_day(days, h, m, s);
    lemma_two_digits((h + 2) % 24);
    lemma_two_digits(m);
    lemma_two_digits(s);
    lemma_colons(two_digits((h + 2) % 24), two_digits(m), two_digits(s));
}

/// Hours, minutes and seconds are found again in a number of seconds.
proof fn lemma_time_of_day(days: nat, h: nat, m: nat, s: nat)
    requires
        h < 24,
        m < 60,
        s < 60,
    ensures
        ({
            let day = (days * 86400 + h * 3600 + m * 60 + s) % 86400;
            day / 3600 == h && (day % 3600) / 60 == m && day % 60 == s
        }),
{
    let hour = m * 60 + s;
    let day = h * 3600 + hour;
    lemma_fundamental_div_mod_converse(
        (days * 86400 + day) as int,
        86400,
        days as int,
        day as int,
    );
    lemma_fundamental_div_mod_converse(day as int, 3600, h as int, hour as int);
    lemma_fundamental_div_mod_converse(hour as int, 60, m as int, s as int);
    lemma_fundamental_div_mod_converse(day as int, 60, (h * 60 + m) as int, s as int);
}

/// Three texts of two characters with colons between them.
proof fn lemma_colons(a: Seq<char>, b: Seq<char>, c: Seq<char>)
    requires
        a.len() == 2,
        b.len() == 2,
        c.len() == 2,
    ensures
        ({
            let all = a + ":"@ + b + ":"@ + c;
            all.len() == 8 && all.subrange(0, 2) == a && all[2] == ':' && all.subrange(3, 5) == b
                && all[5] == ':' && all.subrange(6, 8) == c
        }),
{
    reveal_strlit(":");
    let all = a + ":"@ + b + ":"@ + c;
    assert(all.subrange(0, 2) =~= a);
    assert(all.subrange(3, 5) =~= b);
    assert(all.subrange(6, 8) =~= c);
}

/// Below a hundred, two digits are two.
proof fn lemma_two_digits(n: nat)
    requires
        n < 100,
    ensures
        two_digits(n).len() == 2,
        digits_value(two_digits(n), 10) == Some(n),
{
    numbers_are_read_back(n);
    reveal_with_fuel(decimal, 2);
    reveal_with_fuel(digits_value, 3);
    let s = two_digits(n);
    if n < 10 {
        assert(s.drop_last() =~= seq!['0']);
        assert(s.drop_last().drop_last() =~= Seq::<char>::empty());
        assert(s.last() == digit(n as int));
        lemma_digit(n as int);
        assert(digits_value(s.drop_last(), 10) == Some(0nat));
    }
}

/// The time of day that the log shows, `secs` seconds after the start of 1970.
pub fn now_hhmmss(secs: u64) -> (r: String)
    ensures
        r@ == clock_text(secs as nat),
{
    let day: u64 = secs % 86400;
    let h: u64 = (day / 3600 + 2) % 24;
    let m: u64 = (day % 3600) / 60;
    let s: u64 = day % 60;
    let mut out = to_two_digits(h);
    out.append(":");
    out.append(to_two_digits(m).as_str());
    out.append(":");
    out.append(to_two_digits(s).as_str());
    out
}

} // verus!
