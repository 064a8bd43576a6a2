//! Decimal text: the numbers that appear in messages, selectors and
//! command-line values.
use vstd::prelude::*;
use vstd::string::*;

verus! {

/// The character of one decimal digit.
pub open spec fn digit_char(d: nat) -> char {
    (48 + d) as char
}

/// The decimal representation of `n`, without leading zeros.
pub open spec fn decimal(n: nat) -> Seq<char>
    decreases n,
{
    if n < 10 {
        seq![digit_char(n)]
    } else {
        decimal(n / 10).push(digit_char(n % 10))
    }
}

/// Whether `c` is one of the ASCII digits.
pub open spec fn is_digit(c: char) -> bool {
    '0' <= c && c <= '9'
}

/// The value of a string of digits, most significant first.
pub open spec fn digits_value(s: Seq<char>) -> nat
    decreases s.len(),
{
    if s.len() == 0 {
        0
    } else {
        10 * digits_value(s.drop_last()) + (s.last() as nat - 48) as nat
    }
}

/// Whether every character of `s` is a digit.
pub open spec fn all_digits(s: Seq<char>) -> bool {
    forall|i: int| 0 <= i < s.len() ==> is_digit(#[trigger] s[i])
}

/// The digits of an unsigned number: `s` without one leading `+`.
pub open spec fn without_plus(s: Seq<char>) -> Seq<char> {
    if s.len() > 0 && s[0] == '+' {
        s.drop_first()
    } else {
        s
    }
}

/// The number that `s` denotes: an optional `+`, then one or more digits and
/// nothing else.
pub open spec fn unsigned_value(s: Seq<char>) -> Option<nat> {
    let body = without_plus(s);
    if body.len() > 0 && all_digits(body) {
        Some(digits_value(body))
    } else {
        None
    }
}

/// The number that `s` denotes, if it does not exceed `max`.
pub open spec fn bounded_value(s: Seq<char>, max: nat) -> Option<nat> {
    match unsigned_value(s) {
        Some(n) => if n <= max {
            Some(n)
        } else {
            None
        },
        None => None,
    }
}

/// One digit as a string.
fn digit_text(d: u8) -> (s: &'static str)
    requires
        d < 10,
    ensures
        s@ == seq![digit_char(d as nat)],
{
    proof {
        reveal_strlit("0");
        reveal_strlit("1");
        reveal_strlit("2");
        reveal_strlit("3");
        reveal_strlit("4");
        reveal_strlit("5");
        reveal_strlit("6");
        reveal_strlit("7");
        reveal_strlit("8");
        reveal_strlit("9");
    }
    let s = match d {
        0 => "0",
        1 => "1",
        2 => "2",
        3 => "3",
        4 => "4",
        5 => "5",
        6 => "6",
        7 => "7",
        8 => "8",
        _ => "9",
    };
    assert(s@ =~= seq![digit_char(d as nat)]);
    s
}

/// Renders `n` in decimal.
pub fn decimal_text(n: u128) -> (s: String)
    ensures
        s@ == decimal(n as nat),
    decreases n,
{
    if n < 10 {
        digit_text(n as u8).to_owned()
    } else {
        let mut s = decimal_text(n / 10);
        s.append(digit_text((n % 10) as u8));
        assert(s@ =~= decimal(n as nat));
        s
    }
}

/// Appends `n` in decimal to `s`.
pub fn push_decimal(s: &mut String, n: u128)
    ensures
        final(s)@ == old(s)@ + decimal(n as nat),
{
    let digits = decimal_text(n);
    s.append(digits.as_str());
}

/// A prefix of a string of digits denotes no more than the whole.
proof fn lemma_prefix_value(s: Seq<char>, i: int)
    requires
        0 <= i <= s.len(),
        all_digits(s),
    ensures
        digits_value(s.take(i)) <= digits_value(s),
    decreases s.len() - i,
{
    if i < s.len() {
        lemma_prefix_value(s, i + 1);
        assert(s.take(i + 1).drop_last() =~= s.take(i));
    } else {
        assert(s.take(i) =~= s);
    }
}

/// Reads an unsigned decimal number: an optional `+`, then one or more digits
/// and nothing else. `None` when the text is anything else or the number does
/// not fit a `u64`.
pub fn parse_u64(text: &str) -> (r: Option<u64>)
    ensures
        r matches Some(n) ==> bounded_value(text@, u64::MAX as nat) == Some(n as nat),
        r is None ==> bounded_value(text@, u64::MAX as nat) is None,
{
    let len: usize = text.unicode_len();
    let start: usize = if len > 0 && text.get_char(0) == '+' {
        1
    } else {
        0
    };
    let ghost body = without_plus(text@);
    assert(body =~= text@.skip(start as int));
    if start >= len {
        return None;
    }
    let mut value: u64 = 0;
    let mut i: usize = start;
    assert(body.take(0) =~= Seq::<char>::empty());
    while i < len
        invariant
            start <= i <= len,
            len == text@.len(),
            body == text@.skip(start as int),
            body == without_plus(text@),
            body.len() == len - start,
            start < len,
            all_digits(body.take(i - start)),
            value == digits_value(body.take(i - start)),
        decreases len - i,
    {
        let c = text.get_char(i);
        assert(c == body[i - start]);
        if c < '0' || c > '9' {
            return None;
        }
        let digit: u64 = (c as u32 - 48) as u64;
        let ghost prefix = body.take(i - start);
        let ghost longer = body.take(i + 1 - start);
        proof {
            assert(longer.drop_last() =~= prefix);
            assert(longer =~= prefix.push(c));
            assert(digits_value(longer) == 10 * value + digit);
        }
        if value > (u64::MAX - digit) / 10 {
            proof {
                assert(10 * value + digit > u64::MAX);
                if all_digits(body) {
                    lemma_prefix_value(body, i + 1 - start);
                }
            }
            return None;
        }
        value = value * 10 + digit;
        i = i + 1;
    }
    assert(body.take(len - start) =~= body);
    Some(value)
}

/// Reads an unsigned decimal number that fits a `u32`.
pub fn parse_u32(text: &str) -> (r: Option<u32>)
    ensures
        r matches Some(n) ==> bounded_value(text@, u32::MAX as nat) == Some(n as nat),
        r is None ==> bounded_value(text@, u32::MAX as nat) is None,
{
    match parse_u64(text) {
        Some(n) => if n <= u32::MAX as u64 {
            Some(n as u32)
        } else {
            None
        },
        None => None,
    }
}

/// Rendering a number and reading it back gives the number.
pub proof fn law_decimal_round_trip(n: nat)
    ensures
        unsigned_value(decimal(n)) == Some(n),
{
    lemma_decimal_digits(n);
    let s = decimal(n);
    assert(is_digit(s[0]));
    assert(without_plus(s) == s);
}

/// A decimal number ends at the first character that is no digit.
pub(crate) proof fn lemma_decimal_splits(m: nat, x: Seq<char>, n: nat, y: Seq<char>)
    requires
        decimal(m) + x == decimal(n) + y,
        x.len() > 0,
        !is_digit(x[0]),
        y.len() > 0,
        !is_digit(y[0]),
    ensures
        m == n,
        x == y,
{
    lemma_decimal_digits(m);
    lemma_decimal_digits(n);
    let left = decimal(m) + x;
    let right = decimal(n) + y;
    let (p, q) = (decimal(m).len() as int, decimal(n).len() as int);
    if p < q {
        assert(left[p] == x[0]);
        assert(right[p] == decimal(n)[p]);
    } else if q < p {
        assert(right[q] == y[0]);
        assert(left[q] == decimal(m)[q]);
    }
    assert(left.take(p) =~= decimal(m));
    assert(right.take(p) =~= decimal(n));
    assert(left.skip(p) =~= x);
    assert(right.skip(p) =~= y);
}

pub(crate) proof fn lemma_decimal_digits(n: nat)
    ensures
        decimal(n).len() > 0,
        all_digits(decimal(n)),
        digits_value(decimal(n)) == n,
    decreases n,
{
    if n < 10 {
        let s = seq![digit_char(n)];
        assert(s.drop_last() =~= Seq::<char>::empty());
        assert(digits_value(s.drop_last()) == 0);
    } else {
        lemma_decimal_digits(n / 10);
        assert(decimal(n).drop_last() =~= decimal(n / 10));
    }
}

/// A number below ten is its digit; any other is the number without its last
/// digit, followed by that digit.
pub proof fn law_decimal_digit_by_digit(n: nat, d: nat)
    requires
        d < 10,
    ensures
        decimal(d) == seq![(48 + d) as char],
        n > 0 ==> decimal(10 * n + d) == decimal(n).push((48 + d) as char),
        n > 0 ==> decimal(n)[0] != '0',
        decimal(n).len() > 0,
        forall|i: int| 0 <= i < decimal(n).len() ==> '0' <= #[trigger] decimal(n)[i] <= '9',
{
    assert((10 * n + d) / 10 == n);
    assert((10 * n + d) % 10 == d);
    lemma_decimal_digits(n);
    assert forall|i: int| 0 <= i < decimal(n).len() implies '0' <= #[trigger] decimal(n)[i]
        <= '9' by {
        assert(is_digit(decimal(n)[i]));
    }
    if n > 0 {
        lemma_no_leading_zero(n);
    }
}

proof fn lemma_no_leading_zero(n: nat)
    requires
        n > 0,
    ensures
        decimal(n)[0] != '0',
    decreases n,
{
    if n >= 10 {
        lemma_no_leading_zero(n / 10);
        lemma_decimal_digits(n / 10);
    }
}

/// A number is read digit by digit: one more digit makes it ten times as much and
/// adds the digit, and anything else after it makes it no number, once and for
/// all. Nothing at all and a lone plus sign are no numbers, but may begin one.
pub proof fn law_numbers_are_read_digit_by_digit(s: Seq<char>, c: char)
    ensures
        ({
            let more = unsigned_value(s.push(c));
            let digit = '0' <= c <= '9';
            if s.len() == 0 || s == seq!['+'] {
                &&& unsigned_value(s) is None
                &&& more == (if digit {
                    Some((c as nat - 48) as nat)
                } else {
                    None
                })
            } else {
                more == (match unsigned_value(s) {
                    Some(n) => if digit {
                        Some((10 * n + (c as nat - 48)) as nat)
                    } else {
                        None
                    },
                    None => None,
                })
            }
        }),
{
    let longer = s.push(c);
    let body = without_plus(s);
    let more = without_plus(longer);
    if s.len() == 0 {
        assert(longer[0] == c);
        if c == '+' {
            assert(more.len() == 0);
        } else {
            assert(more.drop_last() =~= Seq::<char>::empty());
            assert(digits_value(more.drop_last()) == 0);
            assert(more[0] == c);
        }
    } else {
        assert(longer[0] == s[0]);
        assert(more =~= body.push(c));
        assert(more.drop_last() =~= body);
        assert(more[more.len() - 1] == c);
        if s[0] == '+' && s.len() == 1 {
            assert(s =~= seq!['+']);
            assert(digits_value(body) == 0);
        }
        if all_digits(body) && is_digit(c) {
            assert forall|i: int| 0 <= i < more.len() implies is_digit(#[trigger] more[i]) by {
                if i < body.len() {
                    assert(is_digit(body[i]));
                }
            }
        }
        if all_digits(more) {
            assert forall|i: int| 0 <= i < body.len() implies is_digit(#[trigger] body[i]) by {
                assert(is_digit(more[i]));
            }
        }
    }
}

/// A bounded number is read if it is one and within its bound.
pub proof fn law_bounds_are_respected(s: Seq<char>, max: nat)
    ensures
        bounded_value(s, max) matches Some(n) ==> n <= max && unsigned_value(s) == Some(n),
        bounded_value(s, max) is None ==> (unsigned_value(s) matches Some(n) ==> n > max),
{
}

} // verus!
