//! Decimal numbers as text.
use vstd::prelude::*;

use crate::text::{char_is_digit, chars_of};

verus! {

/// The character for one decimal digit.
pub open spec fn digit_char(d: nat) -> char {
    (('0' as u32 + d) as u32) as char
}

/// The number that a decimal digit stands for.
pub open spec fn digit_value(c: char) -> nat {
    (c as u32 - '0' as u32) as nat
}

/// `n` in decimal, without leading zeros.
pub open spec fn digits(n: nat) -> Seq<char>
    decreases n,
{
    if n < 10 {
        seq![digit_char(n)]
    } else {
        digits(n / 10).push(digit_char(n % 10))
    }
}

/// `i` in decimal, with a minus sign where it is negative.
pub open spec fn signed_digits(i: int) -> Seq<char> {
    if i < 0 {
        seq!['-'] + digits((-i) as nat)
    } else {
        digits(i as nat)
    }
}

/// `n` copies of `0`.
pub open spec fn zeros(n: nat) -> Seq<char> {
    Seq::new(n, |i: int| '0')
}

/// `n` in decimal, filled up with leading zeros to `width` characters.
pub open spec fn padded(n: nat, width: nat) -> Seq<char> {
    if digits(n).len() < width {
        zeros((width - digits(n).len()) as nat) + digits(n)
    } else {
        digits(n)
    }
}

/// `s` is made of decimal digits alone.
pub open spec fn all_digits(s: Seq<char>) -> bool {
    forall|i: int| 0 <= i < s.len() ==> crate::text::is_digit(#[trigger] s[i])
}

/// The number that a row of decimal digits stands for.
pub open spec fn digits_value(s: Seq<char>) -> nat
    decreases s.len(),
{
    if s.len() == 0 {
        0
    } else {
        digits_value(s.drop_last()) * 10 + digit_value(s.last())
    }
}

/// `s` without the one plus sign that may stand before an unsigned number.
pub open spec fn unsigned_part(s: Seq<char>) -> Seq<char> {
    if s.len() > 0 && s[0] == '+' {
        s.drop_first()
    } else {
        s
    }
}

/// The unsigned number that `s` writes: digits, at least one, with at most one
/// plus sign before them, and no more than `max`.
pub open spec fn parsed(s: Seq<char>, max: nat) -> Option<nat> {
    let d = unsigned_part(s);
    if d.len() > 0 && all_digits(d) && digits_value(d) <= max {
        Some(digits_value(d))
    } else {
        None
    }
}

proof fn lemma_value_grows(s: Seq<char>, i: int)
    requires
        0 <= i <= s.len(),
        all_digits(s),
    ensures
        digits_value(s.take(i)) <= digits_value(s),
    decreases s.len(),
{
    if i == s.len() {
        assert(s.take(i) =~= s);
    } else {
        lemma_value_grows(s.drop_last(), i);
        assert(s.drop_last().take(i) =~= s.take(i));
    }
}

/// `n` in decimal.
pub fn decimal(n: u64) -> (r: String)
    ensures
        r@ == digits(n as nat),
    decreases n,
{
    let last: char = (((n % 10) as u8) + ('0' as u8)) as char;
    if n < 10 {
        let mut r: String = String::new();
        r.push(last);
        proof {
            assert(r@ =~= digits(n as nat));
        }
        r
    } else {
        let mut r: String = decimal(n / 10);
        r.push(last);
        r
    }
}

/// `i` in decimal, with a minus sign where it is negative.
pub fn signed_decimal(i: i64) -> (r: String)
    ensures
        r@ == signed_digits(i as int),
{
    if i < 0 {
        let mut r: String = String::new();
        r.push('-');
        let size: u64 = ((-(i + 1)) as u64) + 1;
        let d = decimal(size);
        r.append(d.as_str());
        proof {
            assert(r@ =~= signed_digits(i as int));
        }
        r
    } else {
        decimal(i as u64)
    }
}

/// `n` in decimal, filled up with leading zeros to `width` characters.
pub fn padded_decimal(n: u64, width: usize) -> (r: String)
    ensures
        r@ == padded(n as nat, width as nat),
{
    let d = decimal(n);
    let have: usize = chars_of(d.as_str()).len();
    let mut r: String = String::new();
    let mut i: usize = have;
    while i < width
        invariant
            have == digits(n as nat).len(),
            r@ == zeros((i - have) as nat),
            have <= i,
            i <= width || i == have,
        decreases width - i,
    {
        r.push('0');
        i += 1;
        proof {
            assert(r@ =~= zeros((i - have) as nat));
        }
    }
    r.append(d.as_str());
    proof {
        assert(r@ =~= padded(n as nat, width as nat));
    }
    r
}

/// The unsigned number, at most `max`, that `s` writes.
pub fn parse_up_to(s: &str, max: u64) -> (r: Option<u64>)
    ensures
        match r {
            Some(n) => parsed(s@, max as nat) == Some(n as nat),
            None => parsed(s@, max as nat) is None,
        },
{
    let cs = chars_of(s);
    let start: usize = if cs.len() > 0 && cs[0] == '+' {
        1
    } else {
        0
    };
    let ghost d = unsigned_part(s@);
    proof {
        assert(d =~= s@.skip(start as int));
    }
    if cs.len() == start {
        return None;
    }
    let mut n: u64 = 0;
    let mut i: usize = start;
    while i < cs.len()
        invariant
            start <= i <= cs.len(),
            cs@ == s@,
            start <= 1,
            d == s@.skip(start as int),
            d == unsigned_part(s@),
            d.len() > 0,
            forall|j: int| 0 <= j < i - start ==> crate::text::is_digit(#[trigger] d[j]),
            n == digits_value(d.take(i - start)),
            n <= max,
        decreases cs.len() - i,
    {
        let c: char = cs[i];
        if !char_is_digit(c) {
            proof {
                assert(!crate::text::is_digit(d[i - start]));
            }
            return None;
        }
        let v: u64 = (c as u64) - ('0' as u64);
        proof {
            assert(d.take(i + 1 - start).drop_last() =~= d.take(i - start));
            assert(d.take(i + 1 - start).last() == c);
        }
        if n > (u64::MAX - v) / 10 || n * 10 + v > max {
            proof {
                if all_digits(d) {
                    lemma_value_grows(d, i + 1 - start);
                }
            }
            return None;
        }
        n = n * 10 + v;
        i += 1;
    }
    proof {
        assert(d.take(d.len() as int) =~= d);
    }
    Some(n)
}

/// A number's decimal digits read back as that number.
pub proof fn digits_read_back(n: nat)
    ensures
        digits(n).len() > 0,
        all_digits(digits(n)),
        digits_value(digits(n)) == n,
    decreases n,
{
    if n < 10 {
        assert(digits(n).drop_last() =~= Seq::<char>::empty());
        assert(digits_value(Seq::<char>::empty()) == 0);
    } else {
        digits_read_back(n / 10);
        assert(digits(n).drop_last() =~= digits(n / 10));
    }
}

/// Two numbers are never written alike.
pub proof fn digits_distinct(a: nat, b: nat)
    requires
        digits(a) == digits(b),
    ensures
        a == b,
{
    digits_read_back(a);
    digits_read_back(b);
}

/// A number is written in decimal: one more digit makes it ten times as large and adds
/// what the digit stands for.
pub proof fn a_number_is_written_in_decimal(n: nat, d: nat)
    requires
        d < 10,
    ensures
        n > 0 ==> digits(n * 10 + d) == digits(n) + digits(d),
        digits(d).len() == 1,
        digits(d)[0] as int == 48 + d,
{
    if n > 0 {
        assert((n * 10 + d) / 10 == n && (n * 10 + d) % 10 == d);
        assert(digits(n * 10 + d) =~= digits(n) + digits(d));
    }
}

/// A number that is written in decimal is read as it was, up to what is allowed, with
/// or without a plus sign; and nothing that holds anything but digits is a number.
pub proof fn a_number_is_read_as_written(n: nat, max: nat, s: Seq<char>)
    ensures
        n <= max ==> parsed(digits(n), max) == Some(n) && parsed(seq!['+'] + digits(n), max)
            == Some(n),
        n > max ==> parsed(digits(n), max) is None,
        parsed(Seq::empty(), max) is None,
        parsed(s, max) is Some ==> forall|i: int|
            0 < i < s.len() ==> '0' <= #[trigger] s[i] <= '9',
{
    digits_read_back(n);
    assert(crate::text::is_digit(digits(n)[0]));
    assert((seq!['+'] + digits(n)).drop_first() =~= digits(n));
    if parsed(s, max) is Some {
        let u = unsigned_part(s);
        assert forall|i: int| 0 < i < s.len() implies '0' <= #[trigger] s[i] <= '9' by {
            if s[0] == '+' {
                assert(u[i - 1] == s[i]);
            } else {
                assert(u[i] == s[i]);
            }
        }
    }
}

/// Filling up adds zeros in front, no more than are needed, and changes no digit.
pub proof fn filling_up_adds_zeros_in_front(n: nat, width: nat)
    ensures
        padded(n, width).len() >= width,
        digits(n).is_suffix_of(padded(n, width)),
        digits(n).len() >= width ==> padded(n, width) == digits(n),
        digits(n).len() < width ==> padded(n, width).len() == width,
        forall|i: int|
            0 <= i < padded(n, width).len() - digits(n).len() ==> #[trigger] padded(n, width)[i]
                == '0',
        signed_digits(n as int) == digits(n),
        n > 0 ==> signed_digits(-n) == seq!['-'] + digits(n),
{
    let p = padded(n, width);
    assert(p.subrange(p.len() - digits(n).len(), p.len() as int) =~= digits(n));
}

} // verus!
