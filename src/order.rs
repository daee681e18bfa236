//! The natural order on names: digit runs by value, other runs letter by
//! letter along the alphabet table, case only as a last tiebreak.

use std::cmp::Ordering;
use vstd::prelude::*;
use crate::digits::{is_digit, is_ascii_digit, run_value, extract_number_from_chars};
use crate::text::chars_of;
use crate::tokens::{tokenize, is_run, views_of, lemma_tokens_are_runs, split_alphanumeric};

verus! {

/// Added to a character's code point when the alphabet table does not list it,
/// so that every unlisted character ranks after every listed one.
pub const UNLISTED_OFFSET: u32 = 1000;

/// What `char::to_lowercase` yields for `c`.
pub uninterp spec fn lowercase_of(c: char) -> Seq<char>;

/// Relies on `char::to_lowercase`: the lowercase mapping of one character,
/// which depends on that character alone.
#[verifier::external_body]
fn char_to_lowercase(c: char) -> (r: Vec<char>)
    ensures
        r@ == lowercase_of(c),
{
    c.to_lowercase().collect()
}

/// The character looked up in the table for `c`: the first character of its
/// lowercase mapping, or `c` itself should that mapping be empty.
pub open spec fn folded(c: char) -> char {
    if lowercase_of(c).len() > 0 {
        lowercase_of(c)[0]
    } else {
        c
    }
}

/// The rank of the table entry `letter`; for a letter the table does not list,
/// the code point of `c`, the character it was folded from, plus the offset.
pub open spec fn table_rank(letter: char, c: char) -> nat {
    match letter {
        'a' => 1,
        'b' => 2,
        'c' => 3,
        'ç' => 4,
        'd' => 5,
        'e' => 6,
        'ə' => 7,
        'f' => 8,
        'g' => 9,
        'ğ' => 10,
        'h' => 11,
        'x' => 12,
        'ı' => 13,
        'i' => 14,
        'İ' => 14,
        'j' => 15,
        'k' => 16,
        'q' => 17,
        'l' => 18,
        'm' => 19,
        'n' => 20,
        'o' => 21,
        'ö' => 22,
        'p' => 23,
        'r' => 24,
        's' => 25,
        'ş' => 26,
        't' => 27,
        'u' => 28,
        'ü' => 29,
        'v' => 30,
        'w' => 31,
        'y' => 32,
        'z' => 33,
        _ => c as nat + UNLISTED_OFFSET as nat,
    }
}

/// The collation rank of a character, the same for its upper and lower case.
pub open spec fn char_rank(c: char) -> nat {
    table_rank(folded(c), c)
}

/// The ordering of two integers.
pub open spec fn cmp_int(x: int, y: int) -> Ordering {
    if x < y {
        Ordering::Less
    } else if x > y {
        Ordering::Greater
    } else {
        Ordering::Equal
    }
}

/// Two characters: by rank, then by code point.
pub open spec fn cmp_char(a: char, b: char) -> Ordering {
    if char_rank(a) != char_rank(b) {
        cmp_int(char_rank(a) as int, char_rank(b) as int)
    } else {
        cmp_int(a as int, b as int)
    }
}

/// Two non-digit runs: character by character, a proper prefix first.
pub open spec fn cmp_text(a: Seq<char>, b: Seq<char>) -> Ordering
    decreases a.len(),
{
    if a.len() == 0 || b.len() == 0 {
        cmp_int(a.len() as int, b.len() as int)
    } else if cmp_char(a[0], b[0]) != Ordering::Equal {
        cmp_char(a[0], b[0])
    } else {
        cmp_text(a.drop_first(), b.drop_first())
    }
}

/// A run of digits.
pub open spec fn is_number_run(t: Seq<char>) -> bool {
    t.len() > 0 && is_digit(t[0])
}

/// Two runs: numbers by saturated value and, at equal value, the shorter
/// run first (`7` before `007`); numbers before text; text by `cmp_text`.
pub open spec fn cmp_token(a: Seq<char>, b: Seq<char>) -> Ordering {
    if is_number_run(a) && is_number_run(b) {
        if run_value(a) != run_value(b) {
            cmp_int(run_value(a) as int, run_value(b) as int)
        } else {
            cmp_int(a.len() as int, b.len() as int)
        }
    } else if is_number_run(a) {
        Ordering::Less
    } else if is_number_run(b) {
        Ordering::Greater
    } else {
        cmp_text(a, b)
    }
}

/// Two lists of runs: run by run, the shorter list first when one is a
/// prefix of the other.
pub open spec fn cmp_tokens(a: Seq<Seq<char>>, b: Seq<Seq<char>>) -> Ordering
    decreases a.len(),
{
    if a.len() == 0 || b.len() == 0 {
        cmp_int(a.len() as int, b.len() as int)
    } else if cmp_token(a[0], b[0]) != Ordering::Equal {
        cmp_token(a[0], b[0])
    } else {
        cmp_tokens(a.drop_first(), b.drop_first())
    }
}

/// The natural order of two names.
#[verifier::opaque]
pub open spec fn natural_cmp(a: Seq<char>, b: Seq<char>) -> Ordering {
    cmp_tokens(tokenize(a), tokenize(b))
}

fn compare_usize(x: usize, y: usize) -> (r: Ordering)
    ensures
        r == cmp_int(x as int, y as int),
{
    if x < y {
        Ordering::Less
    } else if x > y {
        Ordering::Greater
    } else {
        Ordering::Equal
    }
}

fn compare_u64(x: u64, y: u64) -> (r: Ordering)
    ensures
        r == cmp_int(x as int, y as int),
{
    if x < y {
        Ordering::Less
    } else if x > y {
        Ordering::Greater
    } else {
        Ordering::Equal
    }
}

/// The rank of table entry `letter`, where `c` is the character it was
/// folded from.
pub fn alphabet_rank(letter: char, c: char) -> (r: u32)
    ensures
        r as nat == table_rank(letter, c),
{
    match letter {
        'a' => 1,
        'b' => 2,
        'c' => 3,
        'ç' => 4,
        'd' => 5,
        'e' => 6,
        'ə' => 7,
        'f' => 8,
        'g' => 9,
        'ğ' => 10,
        'h' => 11,
        'x' => 12,
        'ı' => 13,
        'i' => 14,
        'İ' => 14,
        'j' => 15,
        'k' => 16,
        'q' => 17,
        'l' => 18,
        'm' => 19,
        'n' => 20,
        'o' => 21,
        'ö' => 22,
        'p' => 23,
        'r' => 24,
        's' => 25,
        'ş' => 26,
        't' => 27,
        'u' => 28,
        'ü' => 29,
        'v' => 30,
        'w' => 31,
        'y' => 32,
        'z' => 33,
        _ => c as u32 + UNLISTED_OFFSET,
    }
}

/// The collation rank of `ch`.
pub fn get_azerbaijani_char_order(ch: char) -> (r: u32)
    ensures
        r as nat == char_rank(ch),
{
    let lower = char_to_lowercase(ch);
    let letter = if lower.len() > 0 {
        lower[0]
    } else {
        ch
    };
    alphabet_rank(letter, ch)
}

/// Two characters by rank, then by code point.
pub fn compare_chars(a: char, b: char) -> (r: Ordering)
    ensures
        r == cmp_char(a, b),
{
    let ra = get_azerbaijani_char_order(a);
    let rb = get_azerbaijani_char_order(b);
    if ra < rb {
        Ordering::Less
    } else if ra > rb {
        Ordering::Greater
    } else if a < b {
        Ordering::Less
    } else if a > b {
        Ordering::Greater
    } else {
        Ordering::Equal
    }
}

/// Two non-digit runs, character by character.
pub fn compare_text_runs(a: &[char], b: &[char]) -> (r: Ordering)
    ensures
        r == cmp_text(a@, b@),
{
    let mut i: usize = 0;
    assert(a@.skip(0) =~= a@);
    assert(b@.skip(0) =~= b@);
    while i < a.len() && i < b.len()
        invariant
            i <= a@.len(),
            i <= b@.len(),
            cmp_text(a@, b@) == cmp_text(a@.skip(i as int), b@.skip(i as int)),
        decreases a@.len() - i,
    {
        let o = compare_chars(a[i], b[i]);
        proof {
            assert(a@.skip(i as int)[0] == a@[i as int]);
            assert(b@.skip(i as int)[0] == b@[i as int]);
            assert(a@.skip(i as int).drop_first() =~= a@.skip(i + 1));
            assert(b@.skip(i as int).drop_first() =~= b@.skip(i + 1));
        }
        match o {
            Ordering::Equal => {},
            _ => {
                return o;
            },
        }
        i = i + 1;
    }
    compare_usize(a.len() - i, b.len() - i)
}

/// Two runs of a tokenized name.
pub fn compare_runs(a: &str, b: &str) -> (r: Ordering)
    requires
        is_run(a@),
        is_run(b@),
    ensures
        r == cmp_token(a@, b@),
{
    let va = chars_of(a);
    let vb = chars_of(b);
    let da = is_ascii_digit(va[0]);
    let db = is_ascii_digit(vb[0]);
    if da && db {
        let (na, ea) = extract_number_from_chars(va.as_slice(), 0);
        let (nb, eb) = extract_number_from_chars(vb.as_slice(), 0);
        proof {
            assert(ea == va@.len());
            assert(eb == vb@.len());
            assert(va@.subrange(0, ea as int) =~= a@);
            assert(vb@.subrange(0, eb as int) =~= b@);
        }
        if na != nb {
            compare_u64(na, nb)
        } else {
            compare_usize(ea, eb)
        }
    } else if da {
        Ordering::Less
    } else if db {
        Ordering::Greater
    } else {
        compare_text_runs(va.as_slice(), vb.as_slice())
    }
}

/// The natural order of two names: their runs compared pairwise, then the
/// name with fewer runs first.
pub fn azerbaijani_natural_sort(a: &str, b: &str) -> (r: Ordering)
    ensures
        r == natural_cmp(a@, b@),
{
    let a_parts = split_alphanumeric(a);
    let b_parts = split_alphanumeric(b);
    let ghost ta = tokenize(a@);
    let ghost tb = tokenize(b@);
    proof {
        lemma_tokens_are_runs(a@);
        lemma_tokens_are_runs(b@);
    }
    let mut i: usize = 0;
    assert(ta.skip(0) =~= ta);
    assert(tb.skip(0) =~= tb);
    assert(ta.len() == a_parts@.len());
    assert(tb.len() == b_parts@.len());
    while i < a_parts.len() && i < b_parts.len()
        invariant
            ta == tokenize(a@),
            tb == tokenize(b@),
            ta == views_of(a_parts@),
            tb == views_of(b_parts@),
            forall|k: int| 0 <= k < ta.len() ==> is_run(#[trigger] ta[k]),
            forall|k: int| 0 <= k < tb.len() ==> is_run(#[trigger] tb[k]),
            i <= a_parts@.len(),
            i <= b_parts@.len(),
            ta.len() == a_parts@.len(),
            tb.len() == b_parts@.len(),
            cmp_tokens(ta, tb) == cmp_tokens(ta.skip(i as int), tb.skip(i as int)),
        decreases a_parts@.len() - i,
    {
        proof {
            assert(ta[i as int] == a_parts@[i as int]@);
            assert(tb[i as int] == b_parts@[i as int]@);
            assert(ta.skip(i as int)[0] == ta[i as int]);
            assert(tb.skip(i as int)[0] == tb[i as int]);
            assert(ta.skip(i as int).drop_first() =~= ta.skip(i + 1));
            assert(tb.skip(i as int).drop_first() =~= tb.skip(i + 1));
        }
        let o = compare_runs(a_parts[i].as_str(), b_parts[i].as_str());
        match o {
            Ordering::Equal => {},
            _ => {
                proof {
                    reveal(natural_cmp);
                }
                return o;
            },
        }
        i = i + 1;
    }
    proof {
        reveal(natural_cmp);
    }
    compare_usize(a_parts.len() - i, b_parts.len() - i)
}

/// The order used wherever names are listed.
pub fn natural_sort_compare(a: &str, b: &str) -> (r: Ordering)
    ensures
        r == natural_cmp(a@, b@),
{
    azerbaijani_natural_sort(a, b)
}

/// The order used for names as a file manager would list them.
pub fn windows_natural_sort(a: &str, b: &str) -> (r: Ordering)
    ensures
        r == natural_cmp(a@, b@),
{
    azerbaijani_natural_sort(a, b)
}

} // verus!
