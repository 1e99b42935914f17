//! Numbers in decimal digits: writing them and reading them.

use vstd::prelude::*;
use vstd::string::*;

use crate::text::{CharClass, drop_run, lemma_run_len, lemma_run_len_is_run, scan_run, take_run};

verus! {

/// The character that stands for the decimal digit `d`.
pub open spec fn digit_char(d: nat) -> char {
    if d == 0 {
        '0'
    } else if d == 1 {
        '1'
    } else if d == 2 {
        '2'
    } else if d == 3 {
        '3'
    } else if d == 4 {
        '4'
    } else if d == 5 {
        '5'
    } else if d == 6 {
        '6'
    } else if d == 7 {
        '7'
    } else if d == 8 {
        '8'
    } else {
        '9'
    }
}

/// The number `n` in decimal digits, without leading zeros.
pub open spec fn decimal(n: nat) -> Seq<char>
    decreases n,
{
    if n < 10 {
        seq![digit_char(n)]
    } else {
        decimal(n / 10).push(digit_char(n % 10))
    }
}

/// The decimal digit `d` as a string.
fn digit_str(d: usize) -> (r: &'static str)
    requires
        d < 10,
    ensures
        r@ == seq![digit_char(d as nat)],
{
    proof {
        reveal_strlit("0");
        reveal_strlit("1");
        reveal_strlit("2");
        reveal_strlit("3");
        reveal_strlit("4");
        reveal_strlit("5");
        reveal_strlit("6");
        reveal_strlit("7");
        reveal_strlit("8");
        reveal_strlit("9");
    }
    let r = if d == 0 {
        "0"
    } else if d == 1 {
        "1"
    } else if d == 2 {
        "2"
    } else if d == 3 {
        "3"
    } else if d == 4 {
        "4"
    } else if d == 5 {
        "5"
    } else if d == 6 {
        "6"
    } else if d == 7 {
        "7"
    } else if d == 8 {
        "8"
    } else {
        "9"
    };
    assert(r@ =~= seq![digit_char(d as nat)]);
    r
}

/// Writes the number `n` in decimal digits at the end of `out`.
pub fn push_decimal_u64(out: &mut String, n: u64)
    ensures
        final(out)@ == old(out)@ + decimal(n as nat),
    decreases n,
{
    if n >= 10 {
        push_decimal_u64(out, n / 10);
    }
    out.append(digit_str((n % 10) as usize));
    assert(out@ =~= old(out)@ + decimal(n as nat));
}

/// Writes the number `n` in decimal digits at the end of `out`.
pub fn push_decimal(out: &mut String, n: usize)
    ensures
        final(out)@ == old(out)@ + decimal(n as nat),
{
    push_decimal_u64(out, n as u64);
}

/// The value of the decimal digit `c`.
pub open spec fn digit_value(c: char) -> nat {
    (c as u32 - '0' as u32) as nat
}

/// The number that the decimal digits `s` write.
pub open spec fn decimal_value(s: Seq<char>) -> nat
    decreases s.len(),
{
    if s.len() == 0 {
        0
    } else {
        decimal_value(s.drop_last()) * 10 + digit_value(s.last())
    }
}

/// The number that `i` starts with, and what is left of `i` behind its
/// digits. `None` where `i` starts with no digit, and where the number is too
/// large for the machine.
pub open spec fn spec_number(i: Seq<char>) -> Option<(Seq<char>, usize)> {
    let digits = take_run(i, CharClass::Digit, true);
    if digits.len() > 0 && decimal_value(digits) <= usize::MAX {
        Some((drop_run(i, CharClass::Digit, true), decimal_value(digits) as usize))
    } else {
        None
    }
}

/// The first digits of a number write no more than all its digits.
pub proof fn lemma_decimal_value_grows(s: Seq<char>, k: int)
    requires
        0 <= k <= s.len(),
    ensures
        decimal_value(s.take(k)) <= decimal_value(s),
    decreases s.len() - k,
{
    if k < s.len() {
        assert(s.take(k + 1).drop_last() =~= s.take(k));
        lemma_decimal_value_grows(s, k + 1);
    } else {
        assert(s.take(k) =~= s);
    }
}

/// Reads the number at the start of the window `[lo, hi)` of `s`. Returns
/// where the rest of the input starts, and the number.
pub fn number_at(s: &[char], lo: usize, hi: usize) -> (r: Option<(usize, usize)>)
    requires
        lo <= hi <= s@.len(),
    ensures
        match r {
            Some((p, n)) => lo < p <= hi && spec_number(s@.subrange(lo as int, hi as int))
                == Some((s@.subrange(p as int, hi as int), n)),
            None => spec_number(s@.subrange(lo as int, hi as int)) is None,
        },
{
    let e = scan_run(s, lo, hi, CharClass::Digit, true);
    if e == lo {
        return None;
    }
    let ghost digits = s@.subrange(lo as int, e as int);
    proof {
        lemma_run_len_is_run(s@.subrange(lo as int, hi as int), CharClass::Digit, true);
        assert forall|j: int| 0 <= j < digits.len() implies CharClass::Digit.has(
            #[trigger] digits[j],
        ) by {
            assert(digits[j] == s@.subrange(lo as int, hi as int)[j]);
        }
    }
    let mut value: usize = 0;
    let mut k: usize = lo;
    assert(digits.take(0) =~= Seq::empty());
    while k < e
        invariant
            lo <= k <= e <= hi <= s@.len(),
            digits == s@.subrange(lo as int, e as int),
            digits == take_run(s@.subrange(lo as int, hi as int), CharClass::Digit, true),
            forall|j: int| 0 <= j < digits.len() ==> CharClass::Digit.has(#[trigger] digits[j]),
            value == decimal_value(digits.take(k - lo)),
        decreases e - k,
    {
        let c = s[k];
        assert(c == digits[k - lo]);
        let d = (c as u32 - '0' as u32) as usize;
        assert(digits.take(k + 1 - lo).drop_last() =~= digits.take(k - lo));
        assert(digits.take(k + 1 - lo).last() == c);
        if value > (usize::MAX - d) / 10 {
            proof {
                lemma_decimal_value_grows(digits, k + 1 - lo);
                assert(decimal_value(digits.take(k + 1 - lo)) == value * 10 + d);
                assert(value * 10 + d > usize::MAX);
            }
            return None;
        }
        value = value * 10 + d;
        k += 1;
    }
    assert(digits.take(e - lo) =~= digits);
    Some((e, value))
}

/// The character of a digit is a digit, and has the digit's value.
pub proof fn lemma_digit_char(d: nat)
    requires
        d < 10,
    ensures
        CharClass::Digit.has(digit_char(d)),
        digit_value(digit_char(d)) == d,
{
    assert(digit_value('0') == 0);
    assert(digit_value('1') == 1);
    assert(digit_value('2') == 2);
    assert(digit_value('3') == 3);
    assert(digit_value('4') == 4);
    assert(digit_value('5') == 5);
    assert(digit_value('6') == 6);
    assert(digit_value('7') == 7);
    assert(digit_value('8') == 8);
    assert(digit_value('9') == 9);
}

/// The digits of a number are digits, and write the number.
pub proof fn lemma_decimal(n: nat)
    ensures
        decimal(n).len() > 0,
        forall|i: int| 0 <= i < decimal(n).len() ==> CharClass::Digit.has(#[trigger] decimal(n)[i]),
        decimal_value(decimal(n)) == n,
    decreases n,
{
    lemma_digit_char(n % 10);
    let all = decimal(n);
    if n >= 10 {
        lemma_decimal(n / 10);
        let front = decimal(n / 10);
        assert(all.drop_last() =~= front);
        assert(all.last() == digit_char(n % 10));
        assert forall|i: int| 0 <= i < all.len() implies CharClass::Digit.has(
            #[trigger] all[i],
        ) by {
            if i < front.len() {
                assert(all[i] == front[i]);
            }
        }
        assert(decimal_value(all) == decimal_value(front) * 10 + digit_value(all.last()));
    } else {
        assert(all.drop_last() =~= Seq::<char>::empty());
        assert(all.last() == digit_char(n));
        assert(decimal_value(all.drop_last()) == 0);
        assert(decimal_value(all) == decimal_value(all.drop_last()) * 10 + digit_value(
            all.last(),
        ));
    }
}

/// A number in decimal digits, followed by something that is no digit, reads
/// as that number.
pub proof fn lemma_number_of_decimal(n: usize, rest: Seq<char>)
    requires
        rest.len() == 0 || !CharClass::Digit.has(rest[0]),
    ensures
        spec_number(decimal(n as nat) + rest) == Some((rest, n)),
{
    let d = decimal(n as nat);
    let s = d + rest;
    lemma_decimal(n as nat);
    assert forall|i: int| 0 <= i < d.len() implies CharClass::Digit.has(#[trigger] s[i]) == true by {
        assert(s[i] == d[i]);
    }
    if rest.len() > 0 {
        assert(s[d.len() as int] == rest[0]);
    }
    lemma_run_len(s, CharClass::Digit, true, d.len() as int);
    assert(s.take(d.len() as int) =~= d);
    assert(s.skip(d.len() as int) =~= rest);
}

} // verus!
