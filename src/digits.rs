//! Digit runs: recognising ASCII digits and reading a run as a saturating
//! unsigned number.

use vstd::prelude::*;

verus! {

/// An ASCII decimal digit.
pub open spec fn is_digit(c: char) -> bool {
    '0' <= c && c <= '9'
}

/// The decimal value of a run of digits, unbounded.
pub open spec fn digits_value(s: Seq<char>) -> nat
    decreases s.len(),
{
    if s.len() == 0 {
        0
    } else {
        digits_value(s.drop_last()) * 10 + ((s.last() as u32 - '0' as u32) as nat)
    }
}

/// A value clamped to the largest `u64`.
pub open spec fn saturate(n: nat) -> nat {
    if n > u64::MAX as nat {
        u64::MAX as nat
    } else {
        n
    }
}

/// The saturated value of a run of digits.
pub open spec fn run_value(s: Seq<char>) -> nat {
    saturate(digits_value(s))
}

/// Whether `c` is an ASCII digit.
pub fn is_ascii_digit(c: char) -> (r: bool)
    ensures
        r == is_digit(c),
{
    '0' <= c && c <= '9'
}

proof fn lemma_saturate_step(v: nat, d: nat)
    requires
        d < 10,
    ensures
        saturate(saturate(v) * 10 + d) == saturate(v * 10 + d),
{
    if v > u64::MAX as nat {
        assert(v * 10 + d > u64::MAX as nat) by (nonlinear_arith)
            requires
                v > u64::MAX as nat,
        ;
        assert(saturate(v) * 10 + d > u64::MAX as nat) by (nonlinear_arith)
            requires
                saturate(v) == u64::MAX as nat,
        ;
    }
}

/// Reads the run of digits that starts at `start` and returns its value,
/// saturated to `u64::MAX`, with the position just after the run.
pub fn extract_number_from_chars(chars: &[char], start: usize) -> (r: (u64, usize))
    ensures
        start <= chars@.len() ==> {
            &&& start <= r.1 <= chars@.len()
            &&& forall|i: int| start <= i < r.1 ==> is_digit(#[trigger] chars@[i])
            &&& r.1 == chars@.len() || !is_digit(chars@[r.1 as int])
            &&& r.0 as nat == run_value(chars@.subrange(start as int, r.1 as int))
        },
        start > chars@.len() ==> r == (0u64, start),
{
    let mut num: u64 = 0;
    let mut pos: usize = start;
    while pos < chars.len() && is_ascii_digit(chars[pos])
        invariant
            start > chars@.len() ==> pos == start && num == 0,
            start <= chars@.len() ==> {
                &&& start <= pos <= chars@.len()
                &&& forall|i: int| start <= i < pos ==> is_digit(#[trigger] chars@[i])
                &&& num as nat == run_value(chars@.subrange(start as int, pos as int))
            },
        decreases chars@.len() - pos,
    {
        let digit: u64 = (chars[pos] as u32 - '0' as u32) as u64;
        let ghost before = chars@.subrange(start as int, pos as int);
        let ghost after = chars@.subrange(start as int, pos + 1);
        proof {
            assert(after.drop_last() =~= before);
            lemma_saturate_step(digits_value(before), digit as nat);
        }
        num = match num.checked_mul(10) {
            Some(m) => m.saturating_add(digit),
            None => u64::MAX,
        };
        pos = pos + 1;
    }
    (num, pos)
}

} // verus!
