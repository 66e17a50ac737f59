//! Integers written in decimal, and read back.

use vstd::prelude::*;

use crate::text;

verus! {

/// The decimal digit of a number below ten.
pub open spec fn digit_spec(n: nat) -> char {
    (('0' as u32) + n) as char
}

/// A natural number in decimal, without leading zeros.
pub open spec fn digits_spec(n: nat) -> Seq<char>
    decreases n,
{
    if n < 10 {
        seq![digit_spec(n)]
    } else {
        digits_spec(n / 10).push(digit_spec(n % 10))
    }
}

/// An integer in decimal, with a minus sign where it is negative.
pub open spec fn decimal_spec(n: int) -> Seq<char> {
    if n < 0 {
        seq!['-'] + digits_spec((-n) as nat)
    } else {
        digits_spec(n as nat)
    }
}

pub open spec fn is_digit_spec(c: char) -> bool {
    '0' as u32 <= c as u32 <= '9' as u32
}

pub open spec fn all_digits(s: Seq<char>) -> bool {
    forall|i: int| 0 <= i < s.len() ==> is_digit_spec(#[trigger] s[i])
}

/// The number that a run of digits stands for.
pub open spec fn value_spec(s: Seq<char>) -> nat
    decreases s.len(),
{
    if s.len() == 0 {
        0
    } else {
        10 * value_spec(s.drop_last()) + (s.last() as u32 - '0' as u32) as nat
    }
}

/// A run of at least one digit, as the number it stands for.
pub open spec fn parse_digits_spec(s: Seq<char>) -> Option<nat> {
    if s.len() > 0 && all_digits(s) {
        Some(value_spec(s))
    } else {
        None
    }
}

/// An unsigned decimal integer of at most `max`: digits, with a plus sign allowed in front.
pub open spec fn parse_unsigned_spec(s: Seq<char>, max: nat) -> Option<nat> {
    let body = if s.len() > 0 && s[0] == '+' {
        s.drop_first()
    } else {
        s
    };
    match parse_digits_spec(body) {
        Some(n) => if n <= max {
            Some(n)
        } else {
            None
        },
        None => None,
    }
}

/// A signed decimal integer of 64 bits: digits, with a sign allowed in front.
pub open spec fn parse_i64_spec(s: Seq<char>) -> Option<int> {
    if s.len() > 0 && s[0] == '-' {
        match parse_digits_spec(s.drop_first()) {
            Some(n) => if -n >= i64::MIN {
                Some(-(n as int))
            } else {
                None
            },
            None => None,
        }
    } else {
        match parse_unsigned_spec(s, i64::MAX as nat) {
            Some(n) => Some(n as int),
            None => None,
        }
    }
}

/// Whether `c` is one of the ten decimal digits.
pub fn is_digit(c: char) -> (r: bool)
    ensures
        r == is_digit_spec(c),
{
    '0' as u32 <= c as u32 && c as u32 <= '9' as u32
}

fn digit(n: u64) -> (r: char)
    requires
        n < 10,
    ensures
        r == digit_spec(n as nat),
{
    if n == 0 {
        '0'
    } else if n == 1 {
        '1'
    } else if n == 2 {
        '2'
    } else if n == 3 {
        '3'
    } else if n == 4 {
        '4'
    } else if n == 5 {
        '5'
    } else if n == 6 {
        '6'
    } else if n == 7 {
        '7'
    } else if n == 8 {
        '8'
    } else {
        '9'
    }
}

/// A natural number in decimal.
pub fn of_u64(n: u64) -> (r: String)
    ensures
        r@ == digits_spec(n as nat),
    decreases n,
{
    let mut r = if n < 10 {
        String::new()
    } else {
        of_u64(n / 10)
    };
    r.push(digit(n % 10));
    r
}

/// An integer in decimal.
pub fn of_i64(n: i64) -> (r: String)
    ensures
        r@ == decimal_spec(n as int),
{
    if n < 0 {
        let m: u64 = (-(n as i128)) as u64;
        let mut r = String::new();
        r.push('-');
        r.append(of_u64(m).as_str());
        r
    } else {
        of_u64(n as u64)
    }
}

proof fn lemma_value_grows(s: Seq<char>, i: int)
    requires
        0 <= i <= s.len(),
        all_digits(s),
    ensures
        value_spec(s.take(i)) <= value_spec(s),
    decreases s.len() - i,
{
    if i == s.len() {
        assert(s.take(i) =~= s);
    } else {
        lemma_value_grows(s, i + 1);
        assert(s.take(i + 1).drop_last() =~= s.take(i));
    }
}

/// Reads the digits from `from` on, as a number of at most `max`.
fn parse_digits(x: &Vec<char>, from: usize, max: u64) -> (r: Option<u64>)
    requires
        from <= x@.len(),
    ensures
        r is Some <==> (parse_digits_spec(x@.skip(from as int)) matches Some(n) && n <= max),
        r matches Some(n) ==> parse_digits_spec(x@.skip(from as int)) == Some(n as nat),
{
    let ghost s = x@.skip(from as int);
    if from == x.len() {
        return None;
    }
    for i in from..x.len()
        invariant
            from <= x@.len(),
            s == x@.skip(from as int),
            forall|j: int| 0 <= j < i - from ==> is_digit_spec(#[trigger] s[j]),
    {
        if !is_digit(x[i]) {
            assert(!is_digit_spec(s[i - from]));
            return None;
        }
        assert(s[i - from] == x@[i as int]);
    }
    let mut total: u64 = 0;
    for i in from..x.len()
        invariant
            from <= x@.len(),
            s == x@.skip(from as int),
            all_digits(s),
            s.len() > 0,
            total == value_spec(s.take(i - from)),
            total <= max,
    {
        assert(s[i - from] == x@[i as int]);
        assert(is_digit_spec(s[i - from]));
        let d: u64 = (x[i] as u32 as u64) - ('0' as u32 as u64);
        let next: u128 = (total as u128) * 10 + d as u128;
        proof {
            assert(s.take(i - from + 1).drop_last() =~= s.take(i - from));
            assert(next == value_spec(s.take(i - from + 1)));
            lemma_value_grows(s, i - from + 1);
        }
        if next > max as u128 {
            return None;
        }
        total = next as u64;
    }
    assert(s.take(s.len() as int) =~= s);
    Some(total)
}

fn parse_unsigned(s: &str, max: u64) -> (r: Option<u64>)
    ensures
        parse_unsigned_spec(s@, max as nat) == (match r {
            Some(n) => Some(n as nat),
            None => None,
        }),
{
    let x = text::chars_of(s);
    assert(x@.skip(0) =~= x@);
    if x.len() > 0 && x[0] == '+' {
        assert(x@.skip(1) =~= x@.drop_first());
        parse_digits(&x, 1, max)
    } else {
        parse_digits(&x, 0, max)
    }
}

/// Reads an unsigned integer of 32 bits.
pub fn parse_u32(s: &str) -> (r: Option<u32>)
    ensures
        parse_unsigned_spec(s@, u32::MAX as nat) == (match r {
            Some(n) => Some(n as nat),
            None => None,
        }),
{
    match parse_unsigned(s, u32::MAX as u64) {
        Some(n) => Some(n as u32),
        None => None,
    }
}

/// Reads an unsigned integer of the size of a pointer.
pub fn parse_usize(s: &str) -> (r: Option<usize>)
    ensures
        parse_unsigned_spec(s@, usize::MAX as nat) == (match r {
            Some(n) => Some(n as nat),
            None => None,
        }),
{
    match parse_unsigned(s, usize::MAX as u64) {
        Some(n) => Some(n as usize),
        None => None,
    }
}

/// Reads a signed integer of 64 bits.
pub fn parse_i64(s: &str) -> (r: Option<i64>)
    ensures
        parse_i64_spec(s@) == (match r {
            Some(n) => Some(n as int),
            None => None,
        }),
{
    let x = text::chars_of(s);
    if x.len() > 0 && x[0] == '-' {
        assert(x@.skip(1) =~= x@.drop_first());
        match parse_digits(&x, 1, 0x8000_0000_0000_0000) {
            Some(n) => Some((-(n as i128)) as i64),
            None => None,
        }
    } else {
        match parse_unsigned(s, i64::MAX as u64) {
            Some(n) => Some(n as i64),
            None => None,
        }
    }
}

proof fn lemma_digits(n: nat)
    ensures
        digits_spec(n).len() > 0,
        all_digits(digits_spec(n)),
        value_spec(digits_spec(n)) == n,
    decreases n,
{
    reveal_with_fuel(value_spec, 2);
    if n >= 10 {
        lemma_digits(n / 10);
        assert(digits_spec(n).drop_last() =~= digits_spec(n / 10));
        assert(digits_spec(n).last() == digit_spec(n % 10));
    } else {
        assert(digits_spec(n).drop_last().len() == 0);
    }
}

/// A natural number that was written in decimal reads back as itself.
pub proof fn law_unsigned_round_trip(n: nat, max: nat)
    requires
        n <= max,
    ensures
        parse_unsigned_spec(digits_spec(n), max) == Some(n),
{
    lemma_digits(n);
    assert(is_digit_spec(digits_spec(n)[0]));
}

/// An integer that was written in decimal reads back as itself.
pub proof fn law_decimal_round_trip(n: i64)
    ensures
        parse_i64_spec(decimal_spec(n as int)) == Some(n as int),
{
    if n < 0 {
        let m = (-n) as nat;
        lemma_digits(m);
        assert((seq!['-'] + digits_spec(m)).drop_first() =~= digits_spec(m));
    } else {
        lemma_digits(n as nat);
        assert(is_digit_spec(digits_spec(n as nat)[0]));
    }
}

/// A number in decimal is a run of digits that does not begin with a zero, unless it is one,
/// and stands for the number.
pub proof fn law_decimal_digits(n: nat)
    ensures
        digits_spec(n).len() > 0,
        all_digits(digits_spec(n)),
        value_spec(digits_spec(n)) == n,
        n > 0 ==> digits_spec(n)[0] != '0',
        n < 10 <==> digits_spec(n).len() == 1,
    decreases n,
{
    lemma_digits(n);
    if n >= 10 {
        law_decimal_digits(n / 10);
        assert(digits_spec(n)[0] == digits_spec(n / 10)[0]);
    } else if n > 0 {
        assert(digits_spec(n)[0] == digit_spec(n));
        vstd::utf8::char_u32_cast(digit_spec(n), ('0' as u32 + n) as u32);
    }
}

/// What is no decimal integer is not read as one: nothing, a character that is no digit behind
/// the sign, or more than the bound allows. Leading zeros do not matter, and a plus sign may
/// stand in front.
pub proof fn law_not_a_number(s: Seq<char>, max: nat, i: int)
    ensures
        parse_unsigned_spec(Seq::empty(), max) is None,
        parse_unsigned_spec(seq!['+'], max) is None,
        0 <= i < s.len() && !('0' as u32 <= s[i] as u32 <= '9' as u32) && (i > 0 || s[i] != '+')
            ==> parse_unsigned_spec(s, max) is None,
        parse_unsigned_spec(s, max) matches Some(n) ==> n <= max,
        all_digits(s) && s.len() > 0 ==> parse_unsigned_spec(seq!['+'] + s, max)
            == parse_unsigned_spec(s, max) && parse_unsigned_spec(seq!['0'] + s, max)
            == parse_unsigned_spec(s, max),
        all_digits(s) && s.len() > 0 && value_spec(s) > max ==> parse_unsigned_spec(s, max) is None,
        0 <= i < s.len() && !('0' as u32 <= s[i] as u32 <= '9' as u32) && (i > 0 || (s[i] != '+'
            && s[i] != '-')) ==> parse_i64_spec(s) is None,
{
    let body = if s.len() > 0 && s[0] == '+' {
        s.drop_first()
    } else {
        s
    };
    assert(seq!['+'].drop_first() =~= Seq::empty());
    if 0 <= i < s.len() && !('0' as u32 <= s[i] as u32 <= '9' as u32) {
        if i > 0 && s[0] == '+' {
            assert(body[i - 1] == s[i]);
        } else if s[0] != '+' {
            assert(body[i] == s[i]);
        }
        if i > 0 && s[0] == '-' {
            assert(s.drop_first()[i - 1] == s[i]);
        }
    }
    if all_digits(s) && s.len() > 0 {
        assert(is_digit_spec(s[0]));
        let plus = seq!['+'] + s;
        assert(plus.drop_first() =~= s);
        lemma_leading_zero(s);
        let zero = seq!['0'] + s;
        assert forall|j: int| 0 <= j < zero.len() implies is_digit_spec(#[trigger] zero[j]) by {
            if j > 0 {
                assert(zero[j] == s[j - 1]);
            }
        }
    }
}

proof fn lemma_leading_zero(s: Seq<char>)
    ensures
        value_spec(seq!['0'] + s) == value_spec(s),
    decreases s.len(),
{
    if s.len() == 0 {
        let zero = seq!['0'] + s;
        assert(zero.drop_last() =~= Seq::empty());
        assert(zero.last() == '0');
        assert(value_spec(zero.drop_last()) == 0);
    } else {
        lemma_leading_zero(s.drop_last());
        assert((seq!['0'] + s).drop_last() =~= seq!['0'] + s.drop_last());
    }
}

} // verus!
