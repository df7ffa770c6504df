//! Decimal numerals: how integers are written into queries and read out of
//! parameters.
use vstd::prelude::*;

use crate::text;
use crate::text::chars_of;

verus! {

/// The digit of value `d`.
pub open spec fn digit_char(d: nat) -> char {
    (48 + d) as char
}

/// The value of a digit.
pub open spec fn digit_value(c: char) -> nat {
    (c as u32 - 48) as nat
}

/// The decimal numeral of `n`, without leading zeros.
pub open spec fn decimal(n: nat) -> Seq<char>
    decreases n,
{
    if n < 10 {
        seq![digit_char(n)]
    } else {
        decimal(n / 10).push(digit_char(n % 10))
    }
}

/// The decimal numeral of an integer, with a `-` where it is negative.
pub open spec fn signed_decimal(n: int) -> Seq<char> {
    if n < 0 {
        seq!['-'] + decimal((-n) as nat)
    } else {
        decimal(n as nat)
    }
}

/// `true` or `false`.
pub open spec fn bool_text(b: bool) -> Seq<char> {
    if b {
        "true"@
    } else {
        "false"@
    }
}

/// Every character of `s` is a digit.
pub open spec fn all_digits(s: Seq<char>) -> bool {
    forall|i: int| 0 <= i < s.len() ==> text::is_digit(#[trigger] s[i])
}

/// The value of a sequence of digits, read in base ten.
pub open spec fn digits_value(s: Seq<char>) -> nat
    decreases s.len(),
{
    if s.len() == 0 {
        0
    } else {
        digits_value(s.drop_last()) * 10 + digit_value(s.last())
    }
}

/// `s` without the `+` that a numeral may begin with.
pub open spec fn unsigned_part(s: Seq<char>) -> Seq<char> {
    if s.len() > 0 && s[0] == '+' {
        s.skip(1)
    } else {
        s
    }
}

/// The number that `s` writes: an optional `+`, then one digit or more, and
/// nothing else.
pub open spec fn numeral(s: Seq<char>) -> Option<nat> {
    if unsigned_part(s).len() > 0 && all_digits(unsigned_part(s)) {
        Some(digits_value(unsigned_part(s)))
    } else {
        None
    }
}

/// The number that `s` writes, if it is at most `max`.
pub open spec fn numeral_up_to(s: Seq<char>, max: nat) -> Option<nat> {
    match numeral(s) {
        Some(n) => if n <= max {
            Some(n)
        } else {
            None
        },
        None => None,
    }
}

/// The message of the error with which a text is refused as a `u16`.
pub uninterp spec fn u16_error_text(s: Seq<char>) -> Seq<char>;

/// `str::parse::<u16>`: the number that the text writes, where it writes one
/// that fits; else the message of the `ParseIntError`. Which message that is, is
/// left to its name.
#[verifier::external_body]
pub(crate) fn parse_u16(s: &str) -> (r: Result<u16, String>)
    ensures
        match r {
            Ok(n) => numeral_up_to(s@, 65535) == Some(n as nat),
            Err(e) => numeral_up_to(s@, 65535) is None && e@ == u16_error_text(s@),
        },
{
    s.parse::<u16>().map_err(|e| e.to_string())
}

/// The decimal numeral of `n`.
pub fn decimal_text(n: u64) -> (r: String)
    ensures
        r@ == decimal(n as nat),
    decreases n,
{
    if n < 10 {
        let mut r = String::new();
        r.push((48u8 + n as u8) as char);
        assert(r@ == decimal(n as nat));
        r
    } else {
        let mut r = decimal_text(n / 10);
        r.push((48u8 + (n % 10) as u8) as char);
        r
    }
}

/// The decimal numeral of `n`, with a `-` where it is negative.
pub fn signed_decimal_text(n: i64) -> (r: String)
    ensures
        r@ == signed_decimal(n as int),
{
    if n >= 0 {
        decimal_text(n as u64)
    } else {
        let mut r = String::new();
        r.push('-');
        let m: u64 = if n == i64::MIN {
            9223372036854775808u64
        } else {
            (-n) as u64
        };
        r.push_str(decimal_text(m).as_str());
        assert(r@ == signed_decimal(n as int));
        r
    }
}

/// `true` or `false`.
pub fn text_of_bool(b: bool) -> (r: String)
    ensures
        r@ == bool_text(b),
{
    if b {
        "true".to_owned()
    } else {
        "false".to_owned()
    }
}

/// More digits never make a smaller number.
proof fn lemma_digits_value_grows(s: Seq<char>, i: int)
    requires
        0 <= i <= s.len(),
        all_digits(s),
    ensures
        digits_value(s.take(i)) <= digits_value(s),
    decreases s.len() - i,
{
    if i < s.len() {
        lemma_digits_value_grows(s, i + 1);
        assert(s.take(i + 1).drop_last() == s.take(i));
    } else {
        assert(s.take(i) == s);
    }
}

/// The number that `s` writes, if it is at most `max`.
pub fn parse_number(s: &str, max: u64) -> (r: Option<u64>)
    ensures
        r is Some <==> numeral_up_to(s@, max as nat) is Some,
        r matches Some(n) ==> numeral_up_to(s@, max as nat) == Some(n as nat),
{
    let cs = chars_of(s);
    let start: usize = if cs.len() > 0 && cs[0] == '+' {
        1
    } else {
        0
    };
    let ghost d = unsigned_part(s@);
    assert(d == cs@.skip(start as int));
    if start == cs.len() {
        return None;
    }
    let mut i: usize = start;
    while i < cs.len()
        invariant
            start <= i <= cs.len(),
            d == cs@.skip(start as int),
            d == unsigned_part(s@),
            forall|k: int| start <= k < i ==> text::is_digit(#[trigger] cs[k]),
        decreases cs.len() - i,
    {
        if !('0' <= cs[i] && cs[i] <= '9') {
            assert(!text::is_digit(d[i - start]));
            return None;
        }
        i += 1;
    }
    assert(all_digits(d));
    let mut n: u64 = 0;
    i = start;
    while i < cs.len()
        invariant
            start <= i <= cs.len(),
            d == cs@.skip(start as int),
            d == unsigned_part(s@),
            d.len() > 0,
            all_digits(d),
            n <= max,
            n as nat == digits_value(d.take(i - start)),
        decreases cs.len() - i,
    {
        proof {
            assert(d.take(i - start + 1).drop_last() == d.take(i - start));
            assert(text::is_digit(d[i - start]));
            lemma_digits_value_grows(d, i - start + 1);
        }
        let v: u64 = (cs[i] as u32 - 48) as u64;
        if n > (u64::MAX - v) / 10 || n * 10 + v > max {
            assert(digits_value(d.take(i - start + 1)) > max);
            return None;
        }
        n = n * 10 + v;
        i += 1;
    }
    assert(d.take(i - start) == d);
    Some(n)
}

/// A numeral is made of digits and has at least one.
pub proof fn lemma_decimal_digits(n: nat)
    ensures
        decimal(n).len() > 0,
        all_digits(decimal(n)),
        digits_value(decimal(n)) == n,
    decreases n,
{
    if n < 10 {
        assert(decimal(n).drop_last() == Seq::<char>::empty());
        assert(digits_value(decimal(n).drop_last()) == 0);
    } else {
        lemma_decimal_digits(n / 10);
        assert(decimal(n).drop_last() == decimal(n / 10));
    }
}

/// Reading gives back what was written: the numeral of `n` writes `n`.
pub proof fn law_numeral_round_trip(n: nat)
    ensures
        numeral(decimal(n)) == Some(n),
{
    lemma_decimal_digits(n);
    assert(text::is_digit(decimal(n)[0]));
    assert(unsigned_part(decimal(n)) == decimal(n));
}

/// Numerals are positional: the last digit of `10 * q + r` is that of `r`, those before
/// it are those of `q`; and the ten digits are `0` to `9`.
pub proof fn law_numerals_are_positional(q: nat, r: nat)
    requires
        r < 10,
    ensures
        decimal(r).len() == 1 && decimal(r)[0] as u32 == '0' as u32 + r,
        q > 0 ==> decimal(10 * q + r) == decimal(q) + decimal(r),
        q > 0 ==> signed_decimal(-(q as int)) == seq!['-'] + decimal(q),
        signed_decimal(q as int) == decimal(q),
{
    let n = 10 * q + r;
    assert(n / 10 == q && n % 10 == r);
    if q > 0 {
        assert(decimal(n) =~= decimal(q) + decimal(r));
    }
}

/// Leading zeros and a plus sign change nothing, and nothing but digits can be read.
pub proof fn law_numerals_are_digits(s: Seq<char>)
    ensures
        numeral(s) is Some ==> forall|i: int|
            0 <= i < s.len() ==> ('0' <= (#[trigger] s[i]) && s[i] <= '9') || (i == 0 && s[i] == '+'
                && s.len() > 1),
        numeral(seq!['0'] + s) is Some && s.len() > 0 && s[0] != '+' ==> numeral(seq!['0'] + s)
            == numeral(s),
        s.len() > 0 && s[0] != '+' ==> numeral(seq!['+'] + s) == numeral(s),
{
    if numeral(s) is Some {
        assert forall|i: int| 0 <= i < s.len() implies ('0' <= (#[trigger] s[i]) && s[i] <= '9') || (i
            == 0 && s[i] == '+' && s.len() > 1) by {
            if s[0] == '+' {
                if i > 0 {
                    assert(s.skip(1)[i - 1] == s[i]);
                    assert(text::is_digit(s.skip(1)[i - 1]));
                }
            } else {
                assert(text::is_digit(s[i]));
            }
        }
    }
    if s.len() > 0 && s[0] != '+' {
        assert((seq!['+'] + s).skip(1) =~= s);
        let z = seq!['0'] + s;
        if numeral(z) is Some {
            assert forall|i: int| 0 <= i < s.len() implies text::is_digit(#[trigger] s[i]) by {
                assert(z[i + 1] == s[i]);
                assert(text::is_digit(z[i + 1]));
            }
            lemma_leading_zero(s);
        }
    }
}

proof fn lemma_leading_zero(s: Seq<char>)
    ensures
        digits_value(seq!['0'] + s) == digits_value(s),
    decreases s.len(),
{
    let z = seq!['0'] + s;
    if s.len() > 0 {
        lemma_leading_zero(s.drop_last());
        assert(z.drop_last() =~= seq!['0'] + s.drop_last());
        assert(z.last() == s.last());
    } else {
        assert(z.drop_last().len() == 0);
        assert(digits_value(z.drop_last()) == 0);
        assert(z.last() == '0');
    }
}

/// The ports that servers listen at unless another is set.
pub proof fn lemma_default_ports()
    ensures
        numeral("19530"@) == Some(19530nat),
        numeral("7474"@) == Some(7474nat),
{
    reveal_strlit("19530");
    reveal_strlit("7474");
    let p = "19530"@;
    assert(digits_value(p) == 19530) by {
        reveal_with_fuel(digits_value, 6);
        assert(p.drop_last() =~= seq!['1', '9', '5', '3']);
        assert(p.drop_last().drop_last() =~= seq!['1', '9', '5']);
        assert(p.drop_last().drop_last().drop_last() =~= seq!['1', '9']);
        assert(p.drop_last().drop_last().drop_last().drop_last() =~= seq!['1']);
    }
    let q = "7474"@;
    assert(digits_value(q) == 7474) by {
        reveal_with_fuel(digits_value, 5);
        assert(q.drop_last() =~= seq!['7', '4', '7']);
        assert(q.drop_last().drop_last() =~= seq!['7', '4']);
        assert(q.drop_last().drop_last().drop_last() =~= seq!['7']);
    }
    assert(all_digits(p) && all_digits(q));
}

} // verus!
