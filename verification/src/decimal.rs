//! Whole numbers as decimal text, the form in which a worker's seed and
//! iteration count are kept on disk.

use vstd::prelude::*;
use vstd::string::*;

verus! {

/// The character of the decimal digit `d`.
pub open spec fn digit_of(d: int) -> char {
    seq!['0', '1', '2', '3', '4', '5', '6', '7', '8', '9'][d]
}

/// The value of the decimal digit `c`, or -1 where `c` is no digit.
pub open spec fn value_of(c: char) -> int {
    if c == '0' {
        0
    } else if c == '1' {
        1
    } else if c == '2' {
        2
    } else if c == '3' {
        3
    } else if c == '4' {
        4
    } else if c == '5' {
        5
    } else if c == '6' {
        6
    } else if c == '7' {
        7
    } else if c == '8' {
        8
    } else if c == '9' {
        9
    } else {
        -1
    }
}

/// The decimal text of `n`, without leading zeros.
pub open spec fn decimal(n: nat) -> Seq<char>
    decreases n,
{
    if n < 10 {
        seq![digit_of(n as int)]
    } else {
        decimal(n / 10).push(digit_of(n as int % 10))
    }
}

/// Every character of `s` is a decimal digit.
pub open spec fn all_digits(s: Seq<char>) -> bool {
    forall|i: int| 0 <= i < s.len() ==> value_of(#[trigger] s[i]) >= 0
}

/// The number that the digits `s` write; the empty text writes zero.
pub open spec fn number(s: Seq<char>) -> int
    decreases s.len(),
{
    if s.len() == 0 {
        0
    } else {
        number(s.drop_last()) * 10 + value_of(s.last())
    }
}

/// The digits of `s`: all of it, but for one leading plus sign.
pub open spec fn digits_of(s: Seq<char>) -> Seq<char> {
    if s.len() > 0 && s[0] == '+' {
        s.subrange(1, s.len() as int)
    } else {
        s
    }
}

/// The number that the text `s` writes: `s` is one digit or more, with or
/// without a plus sign before them, and the number fits in 64 bits.
pub open spec fn parsed(s: Seq<char>) -> Option<u64> {
    let digits = digits_of(s);
    if digits.len() > 0 && all_digits(digits) && number(digits) <= u64::MAX {
        Some(number(digits) as u64)
    } else {
        None
    }
}

/// Digits write a number that is not negative, and no smaller than the
/// number that any of their prefixes writes.
pub proof fn lemma_number_monotone(s: Seq<char>, k: int)
    requires
        all_digits(s),
        0 <= k <= s.len(),
    ensures
        0 <= number(s.take(k)) <= number(s),
    decreases s.len() - k,
{
    if k == 0 {
        assert(s.take(0) =~= Seq::<char>::empty());
        lemma_number_nonnegative(s);
    } else if k == s.len() {
        assert(s.take(k) =~= s);
        lemma_number_nonnegative(s);
    } else {
        lemma_number_monotone(s, k + 1);
        assert(s.take(k + 1).drop_last() =~= s.take(k));
        assert(s.take(k + 1).last() == s[k]);
        lemma_number_nonnegative(s.take(k));
    }
}

proof fn lemma_number_nonnegative(s: Seq<char>)
    requires
        all_digits(s),
    ensures
        0 <= number(s),
    decreases s.len(),
{
    if s.len() > 0 {
        assert(s.last() == s[s.len() - 1]);
        assert forall|i: int| 0 <= i < s.drop_last().len() implies value_of(
            #[trigger] s.drop_last()[i],
        ) >= 0 by {
            assert(s.drop_last()[i] == s[i]);
        }
        lemma_number_nonnegative(s.drop_last());
    }
}

/// What is written can be read: the decimal text of `n` is digits only,
/// begins with no plus sign, and writes `n`.
pub proof fn lemma_decimal_number(n: nat)
    ensures
        decimal(n).len() > 0,
        all_digits(decimal(n)),
        number(decimal(n)) == n,
        digits_of(decimal(n)) == decimal(n),
    decreases n,
{
    if n < 10 {
        let s = decimal(n);
        assert(s.drop_last() =~= Seq::<char>::empty());
        assert(number(s.drop_last()) == 0);
        assert(s.last() == digit_of(n as int));
    } else {
        lemma_decimal_number(n / 10);
        let front = decimal(n / 10);
        let s = decimal(n);
        assert(s.drop_last() =~= front);
        assert(s.last() == digit_of(n as int % 10));
        assert(s[0] == front[0]);
        assert forall|i: int| 0 <= i < s.len() implies value_of(#[trigger] s[i]) >= 0 by {
            if i < front.len() {
                assert(s[i] == front[i]);
            }
        }
    }
}

/// Writing a number and reading the text back gives the number.
pub proof fn lemma_round_trip(n: u64)
    ensures
        parsed(decimal(n as nat)) == Some(n),
{
    lemma_decimal_number(n as nat);
}

/// The text of one decimal digit.
fn digit_text(d: u64) -> (r: &'static str)
    requires
        d < 10,
    ensures
        r@ == seq![digit_of(d as int)],
{
    proof {
        reveal_strlit("0");
        reveal_strlit("1");
        reveal_strlit("2");
        reveal_strlit("3");
        reveal_strlit("4");
        reveal_strlit("5");
        reveal_strlit("6");
        reveal_strlit("7");
        reveal_strlit("8");
        reveal_strlit("9");
    }
    let r = if d == 0 {
        "0"
    } else if d == 1 {
        "1"
    } else if d == 2 {
        "2"
    } else if d == 3 {
        "3"
    } else if d == 4 {
        "4"
    } else if d == 5 {
        "5"
    } else if d == 6 {
        "6"
    } else if d == 7 {
        "7"
    } else if d == 8 {
        "8"
    } else {
        "9"
    };
    assert(r@ =~= seq![digit_of(d as int)]);
    r
}

/// The decimal text of `n`.
pub fn to_decimal(n: u64) -> (r: String)
    ensures
        r@ == decimal(n as nat),
    decreases n,
{
    if n < 10 {
        digit_text(n).to_owned()
    } else {
        let mut r = to_decimal(n / 10);
        r.append(digit_text(n % 10));
        assert(r@ =~= decimal(n as nat));
        r
    }
}

/// The value of the decimal digit `c`, if `c` is one.
fn digit_value(c: char) -> (r: Option<u64>)
    ensures
        r is Some <==> value_of(c) >= 0,
        r matches Some(d) ==> d == value_of(c),
{
    if c == '0' {
        Some(0)
    } else if c == '1' {
        Some(1)
    } else if c == '2' {
        Some(2)
    } else if c == '3' {
        Some(3)
    } else if c == '4' {
        Some(4)
    } else if c == '5' {
        Some(5)
    } else if c == '6' {
        Some(6)
    } else if c == '7' {
        Some(7)
    } else if c == '8' {
        Some(8)
    } else if c == '9' {
        Some(9)
    } else {
        None
    }
}

/// Reads the number that `text` writes in decimal: one digit or more, with
/// or without a plus sign before them. Anything else, and a number that
/// does not fit in 64 bits, gives `None`.
pub fn from_decimal(text: &str) -> (r: Option<u64>)
    ensures
        r == parsed(text@),
{
    let len = text.unicode_len();
    let start: usize = if len > 0 && text.get_char(0) == '+' {
        1
    } else {
        0
    };
    let ghost digits = digits_of(text@);
    assert(digits =~= text@.subrange(start as int, len as int));
    if start == len {
        return None;
    }
    let mut value: u64 = 0;
    let mut i: usize = start;
    proof {
        assert(digits.take(0) =~= Seq::<char>::empty());
    }
    while i < len
        invariant
            start <= i <= len,
            len == text@.len(),
            digits == text@.subrange(start as int, len as int),
            digits == digits_of(text@),
            all_digits(digits.take(i - start)),
            value == number(digits.take(i - start)),
        decreases len - i,
    {
        let c = text.get_char(i);
        proof {
            assert(digits[i - start] == c);
            assert(digits.take(i - start + 1).drop_last() =~= digits.take(i - start));
            assert(digits.take(i - start + 1).last() == c);
        }
        match digit_value(c) {
            None => {
                assert(!all_digits(digits)) by {
                    assert(value_of(digits[i - start]) < 0);
                }
                return None;
            },
            Some(d) => {
                if value > (u64::MAX - d) / 10 {
                    proof {
                        let longer = digits.take(i - start + 1);
                        assert(number(longer) > u64::MAX);
                        if all_digits(digits) {
                            lemma_number_monotone(digits, i - start + 1);
                        }
                    }
                    return None;
                }
                value = value * 10 + d;
                proof {
                    let longer = digits.take(i - start + 1);
                    assert forall|j: int| 0 <= j < longer.len() implies value_of(
                        #[trigger] longer[j],
                    ) >= 0 by {
                        if j < i - start {
                            assert(longer[j] == digits.take(i - start)[j]);
                        }
                    }
                }
            },
        }
        i += 1;
    }
    assert(digits.take(len - start) =~= digits);
    Some(value)
}

} // verus!
