//! Splitting a name into maximal runs of digits and of other characters.

use vstd::prelude::*;
use crate::digits::{is_digit, is_ascii_digit};
use crate::text::push_char;

verus! {

/// The maximal runs of `s`, left to right: each run is either all ASCII
/// digits or holds no ASCII digit, and two neighbouring runs differ in kind.
pub open spec fn tokenize(s: Seq<char>) -> Seq<Seq<char>>
    decreases s.len(),
{
    if s.len() == 0 {
        Seq::empty()
    } else {
        let t = tokenize(s.drop_last());
        let c = s.last();
        if t.len() > 0 && is_digit(t.last().last()) == is_digit(c) {
            t.update(t.len() - 1, t.last().push(c))
        } else {
            t.push(seq![c])
        }
    }
}

/// A run is non-empty and all of one kind.
pub open spec fn is_run(t: Seq<char>) -> bool {
    &&& t.len() > 0
    &&& forall|i: int| 0 <= i < t.len() ==> is_digit(#[trigger] t[i]) == is_digit(t[0])
}

/// Every token of a string is a run.
pub proof fn lemma_tokens_are_runs(s: Seq<char>)
    ensures
        forall|k: int| 0 <= k < tokenize(s).len() ==> is_run(#[trigger] tokenize(s)[k]),
    decreases s.len(),
{
    if s.len() > 0 {
        lemma_tokens_are_runs(s.drop_last());
        let t = tokenize(s.drop_last());
        let c = s.last();
        if t.len() > 0 && is_digit(t.last().last()) == is_digit(c) {
            let u = t.last().push(c);
            assert(is_run(t[t.len() - 1]));
            assert(is_run(u)) by {
                assert forall|i: int| 0 <= i < u.len() implies is_digit(#[trigger] u[i]) == is_digit(
                    u[0],
                ) by {
                    if i < u.len() - 1 {
                        assert(u[i] == t.last()[i]);
                    }
                }
            }
        } else {
            assert(is_run(seq![c]));
        }
    }
}

/// A non-empty string has a first run, and that run starts with the
/// string's first character.
pub proof fn lemma_first_token(s: Seq<char>)
    requires
        s.len() > 0,
    ensures
        tokenize(s).len() > 0,
        tokenize(s)[0].len() > 0,
        tokenize(s)[0][0] == s[0],
    decreases s.len(),
{
    let u = s.drop_last();
    if u.len() > 0 {
        lemma_first_token(u);
        assert(u[0] == s[0]);
        lemma_tokens_are_runs(u);
        let t = tokenize(u);
        assert(is_run(t[t.len() - 1]));
        if is_digit(t.last().last()) == is_digit(s.last()) {
            let w = t.update(t.len() - 1, t.last().push(s.last()));
            assert(tokenize(s) == w);
            if t.len() == 1 {
                assert(w[0] == t[0].push(s.last()));
            } else {
                assert(w[0] == t[0]);
            }
        } else {
            assert(tokenize(s) == t.push(seq![s.last()]));
            assert(tokenize(s)[0] == t[0]);
        }
    } else {
        assert(tokenize(u) =~= Seq::<Seq<char>>::empty());
        assert(tokenize(s) == seq![seq![s.last()]]);
    }
}

/// A non-empty string without digits is a single run.
pub proof fn lemma_text_is_one_token(s: Seq<char>)
    requires
        s.len() > 0,
        forall|i: int| 0 <= i < s.len() ==> !is_digit(#[trigger] s[i]),
    ensures
        tokenize(s) == seq![s],
    decreases s.len(),
{
    let u = s.drop_last();
    if u.len() > 0 {
        lemma_text_is_one_token(u);
        assert(u.last() == s[u.len() - 1]);
        assert(u.push(s.last()) =~= s);
        assert(tokenize(s) =~= seq![s]);
    } else {
        assert(tokenize(u) =~= Seq::<Seq<char>>::empty());
        assert(seq![s.last()] =~= s);
    }
}

/// A run without digits followed by a run of digits splits into exactly
/// those two runs.
pub proof fn lemma_text_then_number(p: Seq<char>, m: Seq<char>)
    requires
        p.len() > 0,
        m.len() > 0,
        forall|i: int| 0 <= i < p.len() ==> !is_digit(#[trigger] p[i]),
        forall|i: int| 0 <= i < m.len() ==> is_digit(#[trigger] m[i]),
    ensures
        tokenize(p + m) == seq![p, m],
    decreases m.len(),
{
    let s = p + m;
    let u = m.drop_last();
    assert(s.drop_last() =~= p + u);
    assert(s.last() == m.last());
    if u.len() == 0 {
        lemma_text_is_one_token(p);
        assert(p + u =~= p);
        assert(seq![m.last()] =~= m);
        assert(tokenize(s) =~= seq![p, m]);
    } else {
        lemma_text_then_number(p, u);
        assert(u.last() == m[u.len() - 1]);
        assert(u.push(m.last()) =~= m);
        assert(tokenize(s) =~= seq![p, m]);
    }
}

/// A list of runs put back together.
pub open spec fn joined(ts: Seq<Seq<char>>) -> Seq<char>
    decreases ts.len(),
{
    if ts.len() == 0 {
        Seq::empty()
    } else {
        joined(ts.drop_last()) + ts.last()
    }
}

/// The runs of a string, put back together, give the string, and two
/// neighbouring runs differ in kind: the runs are maximal.
pub proof fn lemma_runs_rebuild(s: Seq<char>)
    ensures
        joined(tokenize(s)) == s,
        forall|k: int|
            0 < k < tokenize(s).len() ==> is_digit(#[trigger] tokenize(s)[k][0]) != is_digit(
                tokenize(s)[k - 1][0],
            ),
    decreases s.len(),
{
    lemma_tokens_are_runs(s);
    if s.len() > 0 {
        let u = s.drop_last();
        let c = s.last();
        let t = tokenize(u);
        lemma_runs_rebuild(u);
        lemma_tokens_are_runs(u);
        if t.len() > 0 && is_digit(t.last().last()) == is_digit(c) {
            let w = t.update(t.len() - 1, t.last().push(c));
            assert(w.drop_last() =~= t.drop_last());
            assert(joined(t) == joined(t.drop_last()) + t.last());
            assert(joined(w) == joined(t.drop_last()) + t.last().push(c));
            assert(s =~= u.push(c));
            assert(joined(w) =~= (joined(t.drop_last()) + t.last()).push(c));
            assert(is_run(t[t.len() - 1]));
            assert forall|k: int| 0 < k < w.len() implies is_digit(#[trigger] w[k][0]) != is_digit(
                w[k - 1][0],
            ) by {
                if k == w.len() - 1 {
                    assert(w[k][0] == t[k][0]);
                }
            }
        } else {
            let w = t.push(seq![c]);
            assert(w.drop_last() =~= t);
            assert(joined(w) =~= s);
            assert forall|k: int| 0 < k < w.len() implies is_digit(#[trigger] w[k][0]) != is_digit(
                w[k - 1][0],
            ) by {
                if k == w.len() - 1 {
                    assert(is_run(t[k - 1]));
                    assert(is_digit(t[k - 1][t[k - 1].len() - 1]) == is_digit(t[k - 1][0]));
                } else {
                    assert(w[k] == t[k] && w[k - 1] == t[k - 1]);
                }
            }
        }
    } else {
        assert(tokenize(s) =~= Seq::<Seq<char>>::empty());
    }
}

/// The views of a list of strings.
pub open spec fn views_of(v: Seq<String>) -> Seq<Seq<char>> {
    v.map_values(|p: String| p@)
}

/// Splits `s` into its maximal digit and non-digit runs, in order.
pub fn split_alphanumeric(s: &str) -> (r: Vec<String>)
    ensures
        views_of(r@) == tokenize(s@),
{
    let mut parts: Vec<String> = Vec::new();
    let mut current_part = String::new();
    let mut digit_run = false;
    let mut first_char = true;
    for ch in it: s.chars()
        invariant
            it.seq() == s@,
            first_char <==> it.index() == 0,
            it.index() == 0 ==> parts@.len() == 0 && current_part@.len() == 0,
            it.index() > 0 ==> {
                &&& current_part@.len() > 0
                &&& digit_run == is_digit(current_part@.last())
                &&& tokenize(s@.take(it.index() as int)) == views_of(parts@).push(
                    current_part@,
                )
            },
    {
        let ghost prefix = s@.take(it.index() as int);
        let ghost next = s@.take(it.index() + 1);
        proof {
            assert(next.drop_last() =~= prefix);
            assert(next.last() == ch);
        }
        if first_char {
            digit_run = is_ascii_digit(ch);
            first_char = false;
        }
        if is_ascii_digit(ch) == digit_run {
            push_char(&mut current_part, ch);
            proof {
                if prefix.len() > 0 {
                    assert(views_of(parts@).push(current_part@) =~= tokenize(prefix).update(
                        tokenize(prefix).len() - 1,
                        tokenize(prefix).last().push(ch),
                    ));
                } else {
                    assert(views_of(parts@) =~= Seq::<Seq<char>>::empty());
                    assert(current_part@ =~= seq![ch]);
                    assert(tokenize(prefix) =~= Seq::<Seq<char>>::empty());
                    assert(tokenize(next) =~= seq![seq![ch]]);
                    assert(views_of(parts@).push(current_part@) =~= seq![seq![ch]]);
                }
            }
        } else {
            let ghost old_parts = views_of(parts@);
            if !current_part.as_str().is_empty() {
                parts.push(current_part);
                current_part = String::new();
            }
            push_char(&mut current_part, ch);
            digit_run = is_ascii_digit(ch);
            proof {
                assert(views_of(parts@) =~= tokenize(prefix));
                assert(views_of(parts@).push(current_part@) =~= tokenize(prefix).push(seq![ch]));
            }
        }
    }
    if !current_part.as_str().is_empty() {
        parts.push(current_part);
    }
    proof {
        assert(s@.take(s@.len() as int) =~= s@);
        assert(views_of(parts@) =~= tokenize(s@));
    }
    parts
}

} // verus!
