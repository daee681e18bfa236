//! The natural order is a total order: proofs over the spec functions of
//! `order`.

use std::cmp::Ordering;
use vstd::prelude::*;
use crate::digits::is_digit;
use crate::digits::run_value;
use crate::tokens::{tokenize, lemma_first_token, lemma_text_is_one_token, lemma_text_then_number};
use crate::order::{UNLISTED_OFFSET, char_rank, cmp_int, cmp_char, cmp_text, cmp_token, cmp_tokens, natural_cmp};

verus! {

/// The ordering seen from the other side.
pub open spec fn reversed(o: Ordering) -> Ordering {
    match o {
        Ordering::Less => Ordering::Greater,
        Ordering::Equal => Ordering::Equal,
        Ordering::Greater => Ordering::Less,
    }
}

/// Transitivity of three comparisons: `xy` of x with y, `yz` of y with z,
/// `xz` of x with z.
pub open spec fn chains(xy: Ordering, yz: Ordering, xz: Ordering) -> bool {
    &&& (xy == Ordering::Less && yz != Ordering::Greater) ==> xz == Ordering::Less
    &&& (xy != Ordering::Greater && yz == Ordering::Less) ==> xz == Ordering::Less
    &&& (xy == Ordering::Equal && yz == Ordering::Equal) ==> xz == Ordering::Equal
}

proof fn lemma_char_laws(x: char, y: char, z: char)
    ensures
        cmp_char(x, x) == Ordering::Equal,
        cmp_char(y, x) == reversed(cmp_char(x, y)),
        chains(cmp_char(x, y), cmp_char(y, z), cmp_char(x, z)),
        cmp_char(x, y) == Ordering::Equal ==> x == y,
{
}

proof fn lemma_text_refl(x: Seq<char>)
    ensures
        cmp_text(x, x) == Ordering::Equal,
    decreases x.len(),
{
    if x.len() > 0 {
        lemma_char_laws(x[0], x[0], x[0]);
        lemma_text_refl(x.drop_first());
    }
}

proof fn lemma_text_antisym(x: Seq<char>, y: Seq<char>)
    ensures
        cmp_text(y, x) == reversed(cmp_text(x, y)),
    decreases x.len(),
{
    if x.len() > 0 && y.len() > 0 {
        lemma_char_laws(x[0], y[0], y[0]);
        lemma_text_antisym(x.drop_first(), y.drop_first());
    }
}

proof fn lemma_text_trans(x: Seq<char>, y: Seq<char>, z: Seq<char>)
    ensures
        chains(cmp_text(x, y), cmp_text(y, z), cmp_text(x, z)),
    decreases x.len(),
{
    if x.len() > 0 && y.len() > 0 && z.len() > 0 {
        lemma_char_laws(x[0], y[0], z[0]);
        lemma_text_trans(x.drop_first(), y.drop_first(), z.drop_first());
    }
}

proof fn lemma_token_laws(x: Seq<char>, y: Seq<char>, z: Seq<char>)
    ensures
        cmp_token(x, x) == Ordering::Equal,
        cmp_token(y, x) == reversed(cmp_token(x, y)),
        chains(cmp_token(x, y), cmp_token(y, z), cmp_token(x, z)),
{
    lemma_text_refl(x);
    lemma_text_antisym(x, y);
    lemma_text_trans(x, y, z);
}

proof fn lemma_tokens_refl(x: Seq<Seq<char>>)
    ensures
        cmp_tokens(x, x) == Ordering::Equal,
    decreases x.len(),
{
    if x.len() > 0 {
        lemma_token_laws(x[0], x[0], x[0]);
        lemma_tokens_refl(x.drop_first());
    }
}

proof fn lemma_tokens_antisym(x: Seq<Seq<char>>, y: Seq<Seq<char>>)
    ensures
        cmp_tokens(y, x) == reversed(cmp_tokens(x, y)),
    decreases x.len(),
{
    if x.len() > 0 && y.len() > 0 {
        lemma_token_laws(x[0], y[0], y[0]);
        lemma_tokens_antisym(x.drop_first(), y.drop_first());
    }
}

proof fn lemma_tokens_trans(x: Seq<Seq<char>>, y: Seq<Seq<char>>, z: Seq<Seq<char>>)
    ensures
        chains(cmp_tokens(x, y), cmp_tokens(y, z), cmp_tokens(x, z)),
    decreases x.len(),
{
    if x.len() > 0 && y.len() > 0 && z.len() > 0 {
        lemma_token_laws(x[0], y[0], z[0]);
        lemma_tokens_trans(x.drop_first(), y.drop_first(), z.drop_first());
    }
}

/// The natural order is a total order: every name equals itself, swapping
/// the two names reverses the result, and `Less` and `Equal` chain through a
/// middle name (so `Less` is transitive, and so is `Equal`).
pub proof fn lemma_natural_order_is_total(x: Seq<char>, y: Seq<char>, z: Seq<char>)
    ensures
        natural_cmp(x, x) == Ordering::Equal,
        natural_cmp(y, x) == reversed(natural_cmp(x, y)),
        chains(natural_cmp(x, y), natural_cmp(y, z), natural_cmp(x, z)),
{
    reveal(natural_cmp);
    lemma_tokens_refl(tokenize(x));
    lemma_tokens_antisym(tokenize(x), tokenize(y));
    lemma_tokens_trans(tokenize(x), tokenize(y), tokenize(z));
}

/// The empty name equals itself and comes before every other name.
pub proof fn lemma_empty_name_first(s: Seq<char>)
    ensures
        natural_cmp(Seq::empty(), Seq::empty()) == Ordering::Equal,
        s.len() > 0 ==> natural_cmp(Seq::empty(), s) == Ordering::Less,
{
    reveal(natural_cmp);
    assert(tokenize(Seq::<char>::empty()) =~= Seq::<Seq<char>>::empty());
    if s.len() > 0 {
        lemma_first_token(s);
    }
}

/// A name that starts with a digit comes before a name that starts with
/// any other character.
pub proof fn lemma_digit_first(x: Seq<char>, y: Seq<char>)
    requires
        x.len() > 0,
        y.len() > 0,
        is_digit(x[0]),
        !is_digit(y[0]),
    ensures
        natural_cmp(x, y) == Ordering::Less,
{
    reveal(natural_cmp);
    lemma_first_token(x);
    lemma_first_token(y);
}

/// Names made of the same text followed by different digit runs are
/// ordered by the value of those runs, and at equal value by their length
/// (`file2` before `file10`, `file7` before `file007`).
pub proof fn lemma_numbered_names(p: Seq<char>, m: Seq<char>, n: Seq<char>)
    requires
        p.len() > 0,
        m.len() > 0,
        n.len() > 0,
        forall|i: int| 0 <= i < p.len() ==> !is_digit(#[trigger] p[i]),
        forall|i: int| 0 <= i < m.len() ==> is_digit(#[trigger] m[i]),
        forall|i: int| 0 <= i < n.len() ==> is_digit(#[trigger] n[i]),
    ensures
        natural_cmp(p + m, p + n) == if run_value(m) != run_value(n) {
            cmp_int(run_value(m) as int, run_value(n) as int)
        } else {
            cmp_int(m.len() as int, n.len() as int)
        },
{
    reveal(natural_cmp);
    lemma_text_then_number(p, m);
    lemma_text_then_number(p, n);
    lemma_token_laws(p, p, p);
    let (tm, tn) = (seq![p, m], seq![p, n]);
    assert(tm.drop_first() =~= seq![m]);
    assert(tn.drop_first() =~= seq![n]);
    assert(seq![m].drop_first() =~= Seq::<Seq<char>>::empty());
    assert(seq![n].drop_first() =~= Seq::<Seq<char>>::empty());
    assert(is_digit(m[0]) && is_digit(n[0]) && !is_digit(p[0]));
    assert(cmp_token(tm[0], tn[0]) == Ordering::Equal);
    assert(cmp_tokens(Seq::<Seq<char>>::empty(), Seq::<Seq<char>>::empty()) == Ordering::Equal);
    assert(cmp_tokens(seq![m], seq![n]) == cmp_token(m, n));
    assert(cmp_tokens(tm, tn) == cmp_tokens(seq![m], seq![n]));
}

/// A character that the alphabet table lists.
pub open spec fn is_listed(c: char) -> bool {
    char_rank(c) != c as nat + UNLISTED_OFFSET as nat
}

/// A name that starts with a character the table does not list comes after
/// every name that starts with a listed letter (neither being a digit).
pub proof fn lemma_unlisted_after_listed(x: Seq<char>, y: Seq<char>)
    requires
        x.len() > 0,
        y.len() > 0,
        !is_digit(x[0]),
        !is_digit(y[0]),
        !is_listed(x[0]),
        is_listed(y[0]),
    ensures
        cmp_char(x[0], y[0]) == Ordering::Greater,
        natural_cmp(x, y) == Ordering::Greater,
{
    reveal(natural_cmp);
    lemma_first_token(x);
    lemma_first_token(y);
}

/// Two strings ordered by code point alone, a proper prefix first.
pub open spec fn cmp_code_points(a: Seq<char>, b: Seq<char>) -> Ordering
    decreases a.len(),
{
    if a.len() == 0 || b.len() == 0 {
        cmp_int(a.len() as int, b.len() as int)
    } else if a[0] != b[0] {
        cmp_int(a[0] as int, b[0] as int)
    } else {
        cmp_code_points(a.drop_first(), b.drop_first())
    }
}

/// Both strings have the same rank at each position they share.
pub open spec fn same_ranks(a: Seq<char>, b: Seq<char>) -> bool {
    forall|i: int| 0 <= i < a.len() && i < b.len() ==> char_rank(#[trigger] a[i]) == char_rank(b[i])
}

proof fn lemma_text_by_code_points(a: Seq<char>, b: Seq<char>)
    requires
        same_ranks(a, b),
    ensures
        cmp_text(a, b) == cmp_code_points(a, b),
    decreases a.len(),
{
    if a.len() > 0 && b.len() > 0 {
        assert(char_rank(a[0]) == char_rank(b[0]));
        let (a1, b1) = (a.drop_first(), b.drop_first());
        assert(same_ranks(a1, b1)) by {
            assert forall|i: int| 0 <= i < a1.len() && i < b1.len() implies char_rank(
                #[trigger] a1[i],
            ) == char_rank(b1[i]) by {
                assert(a1[i] == a[i + 1] && b1[i] == b[i + 1]);
            }
        }
        lemma_text_by_code_points(a1, b1);
    }
}

/// Where two names without digits agree in rank at every position they
/// share, their order is the code-point order: case decides, rank never does.
pub proof fn lemma_case_breaks_rank_ties(x: Seq<char>, y: Seq<char>)
    requires
        x.len() > 0,
        y.len() > 0,
        forall|i: int| 0 <= i < x.len() ==> !is_digit(#[trigger] x[i]),
        forall|i: int| 0 <= i < y.len() ==> !is_digit(#[trigger] y[i]),
        same_ranks(x, y),
    ensures
        natural_cmp(x, y) == cmp_code_points(x, y),
{
    reveal(natural_cmp);
    lemma_text_is_one_token(x);
    lemma_text_is_one_token(y);
    lemma_text_by_code_points(x, y);
    let (tx, ty) = (tokenize(x), tokenize(y));
    assert(tx.drop_first() =~= Seq::<Seq<char>>::empty());
    assert(ty.drop_first() =~= Seq::<Seq<char>>::empty());
    assert(tx[0] == x && ty[0] == y);
    assert(!is_digit(x[0]) && !is_digit(y[0]));
    assert(cmp_token(x, y) == cmp_text(x, y));
    assert(cmp_tokens(tx.drop_first(), ty.drop_first()) == Ordering::Equal);
}

} // verus!
