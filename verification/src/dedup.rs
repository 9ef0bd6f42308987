//! Ordered deduplication of strict-space tokens: each distinct token is
//! kept exactly once, at the position of its first occurrence, and the
//! kept tokens are rejoined with single spaces.

use crate::chars;
use crate::tokens;
use crate::tokens::{join_spaces, split_spaces, token_views};
use vstd::prelude::*;

verus! {

/// The subsequence of `ts` holding each distinct token exactly once, with
/// every repetition after the first removed and the relative order of the
/// kept tokens preserved.
pub open spec fn dedup_first(ts: Seq<Seq<char>>) -> Seq<Seq<char>>
    decreases ts.len(),
{
    if ts.len() == 0 {
        Seq::<Seq<char>>::empty()
    } else {
        let d = dedup_first(ts.drop_last());
        if d.contains(ts.last()) {
            d
        } else {
            d.push(ts.last())
        }
    }
}

/// The subsequence of `ts` holding exactly the positions whose token does
/// not occur at any earlier position.
pub open spec fn first_occurrence_subsequence(ts: Seq<Seq<char>>) -> Seq<Seq<char>>
    decreases ts.len(),
{
    if ts.len() == 0 {
        Seq::<Seq<char>>::empty()
    } else {
        let r = first_occurrence_subsequence(ts.drop_last());
        if ts.drop_last().contains(ts.last()) {
            r
        } else {
            r.push(ts.last())
        }
    }
}

/// The ordered-deduplication transform on a whole value: strict-space
/// tokens, deduplicated, rejoined with single spaces.
pub open spec fn unique_words_seq(s: Seq<char>) -> Seq<char> {
    join_spaces(dedup_first(split_spaces(s)))
}

/// Deduplication keeps membership: a token occurs in the result exactly
/// when it occurs in the input.
pub proof fn lemma_dedup_first_membership(ts: Seq<Seq<char>>)
    ensures
        forall|x: Seq<char>| #[trigger] dedup_first(ts).contains(x) <==> ts.contains(x),
    decreases ts.len(),
{
    if ts.len() > 0 {
        let dl = ts.drop_last();
        lemma_dedup_first_membership(dl);
        let d = dedup_first(dl);
        assert forall|x: Seq<char>| #[trigger] dedup_first(ts).contains(x) implies ts.contains(
            x,
        ) by {
            if x == ts.last() {
                assert(ts[ts.len() - 1] == x);
            } else {
                assert(d.contains(x)) by {
                    let j = choose|j: int|
                        0 <= j < dedup_first(ts).len() && dedup_first(ts)[j] == x;
                    if j < d.len() {
                        assert(d[j] == x);
                    }
                }
                assert(dl.contains(x));
                let i = choose|i: int| 0 <= i < dl.len() && dl[i] == x;
                assert(ts[i] == x);
            }
        }
        assert forall|x: Seq<char>| ts.contains(x) implies #[trigger] dedup_first(ts).contains(
            x,
        ) by {
            let i = choose|i: int| 0 <= i < ts.len() && ts[i] == x;
            if i < ts.len() - 1 {
                assert(dl[i] == x);
                assert(dl.contains(x));
                assert(d.contains(x));
                let j = choose|j: int| 0 <= j < d.len() && d[j] == x;
                assert(dedup_first(ts)[j] == x);
            } else {
                if d.contains(ts.last()) {
                    assert(dedup_first(ts).contains(x));
                } else {
                    assert(dedup_first(ts)[d.len() as int] == x);
                }
            }
        }
    }
}

/// The result of deduplication holds no token twice.
pub proof fn lemma_dedup_first_distinct(ts: Seq<Seq<char>>)
    ensures
        forall|i: int, j: int|
            0 <= i < j < dedup_first(ts).len() ==> dedup_first(ts)[i] != dedup_first(ts)[j],
    decreases ts.len(),
{
    if ts.len() > 0 {
        let dl = ts.drop_last();
        lemma_dedup_first_distinct(dl);
        let d = dedup_first(dl);
        if !d.contains(ts.last()) {
            assert forall|i: int, j: int|
                0 <= i < j < dedup_first(ts).len() implies dedup_first(ts)[i] != dedup_first(
                ts,
            )[j] by {
                if j < d.len() {
                    assert(d[i] != d[j]);
                } else {
                    assert(dedup_first(ts)[j] == ts.last());
                    if d[i] == ts.last() {
                        assert(d.contains(ts.last()));
                    }
                }
            }
        }
    }
}

/// Deduplicating a sequence that already holds no token twice changes
/// nothing.
pub proof fn lemma_dedup_first_of_distinct(ts: Seq<Seq<char>>)
    requires
        forall|i: int, j: int| 0 <= i < j < ts.len() ==> ts[i] != ts[j],
    ensures
        dedup_first(ts) == ts,
    decreases ts.len(),
{
    if ts.len() > 0 {
        let dl = ts.drop_last();
        assert forall|i: int, j: int| 0 <= i < j < dl.len() implies dl[i] != dl[j] by {
            assert(ts[i] != ts[j]);
        }
        lemma_dedup_first_of_distinct(dl);
        assert(!dl.contains(ts.last())) by {
            if dl.contains(ts.last()) {
                let i = choose|i: int| 0 <= i < dl.len() && dl[i] == ts.last();
                assert(ts[i] == ts[ts.len() - 1]);
            }
        }
        assert(dedup_first(ts) =~= ts);
    }
}

/// Deduplication at the token level is idempotent.
pub proof fn lemma_dedup_first_idempotent(ts: Seq<Seq<char>>)
    ensures
        dedup_first(dedup_first(ts)) == dedup_first(ts),
{
    lemma_dedup_first_distinct(ts);
    lemma_dedup_first_of_distinct(dedup_first(ts));
}

/// Deduplication keeps exactly the first occurrence of each token: its
/// result is the subsequence of positions whose token occurs nowhere
/// earlier, in input order.
pub proof fn lemma_dedup_first_keeps_first_occurrences(ts: Seq<Seq<char>>)
    ensures
        dedup_first(ts) == first_occurrence_subsequence(ts),
    decreases ts.len(),
{
    if ts.len() > 0 {
        let dl = ts.drop_last();
        lemma_dedup_first_keeps_first_occurrences(dl);
        lemma_dedup_first_membership(dl);
    }
}

/// Ordered deduplication of a value is idempotent: transforming an
/// already transformed value changes nothing.
pub proof fn lemma_unique_words_idempotent(s: Seq<char>)
    ensures
        unique_words_seq(unique_words_seq(s)) == unique_words_seq(s),
{
    let ts = split_spaces(s);
    let d = dedup_first(ts);
    tokens::lemma_split_spaces_len(s);
    tokens::lemma_split_spaces_space_free(s);
    lemma_dedup_first_membership(ts);
    assert(ts[0] == ts.first());
    assert(ts.contains(ts[0]));
    assert(d.contains(ts[0]));
    assert(d.len() >= 1);
    assert forall|i: int| 0 <= i < d.len() implies !(#[trigger] d[i]).contains(' ') by {
        assert(d.contains(d[i]));
        assert(ts.contains(d[i]));
        let j = choose|j: int| 0 <= j < ts.len() && ts[j] == d[i];
    }
    tokens::lemma_split_join(d);
    lemma_dedup_first_idempotent(ts);
}

/// Whether a token with the same characters is already in the list.
fn contains_token(list: &Vec<Vec<char>>, t: &Vec<char>) -> (r: bool)
    ensures
        r == token_views(list@).contains(t@),
{
    let mut i: usize = 0;
    while i < list.len()
        invariant
            i <= list@.len(),
            forall|j: int| 0 <= j < i ==> list@[j]@ != t@,
        decreases list@.len() - i,
    {
        if chars::chars_eq(&list[i], t) {
            proof {
                assert(token_views(list@)[i as int] == t@);
            }
            return true;
        }
        i += 1;
    }
    proof {
        if token_views(list@).contains(t@) {
            let j = choose|j: int|
                0 <= j < token_views(list@).len() && token_views(list@)[j] == t@;
            assert(list@[j]@ == t@);
        }
    }
    false
}

/// Keeps the first occurrence of each strict-space token of `value`,
/// preserving order, and appends the tokens rejoined with single spaces to
/// the output buffer. Empty tokens between consecutive spaces take part in
/// deduplication like any other token.
pub fn unique_words(value: &str, output: &mut String)
    ensures
        final(output)@ == old(output)@ + unique_words_seq(value@),
{
    let cs = chars::str_chars(value);
    let toks = tokens::split_value_spaces(&cs);
    let mut uniq: Vec<Vec<char>> = Vec::new();
    proof {
        assert(token_views(uniq@) =~= dedup_first(token_views(toks@).take(0)));
    }
    let mut i: usize = 0;
    while i < toks.len()
        invariant
            i <= toks@.len(),
            token_views(toks@) == split_spaces(cs@),
            token_views(uniq@) == dedup_first(token_views(toks@).take(i as int)),
        decreases toks@.len() - i,
    {
        let ghost tv = token_views(toks@);
        let ghost u0 = uniq@;
        proof {
            assert(tv.take(i as int + 1).drop_last() =~= tv.take(i as int));
            assert(tv.take(i as int + 1).last() == tv[i as int]);
        }
        let present = contains_token(&uniq, &toks[i]);
        if !present {
            let t = chars::copy_chars(&toks[i]);
            uniq.push(t);
            proof {
                assert(token_views(uniq@) =~= token_views(u0).push(tv[i as int]));
            }
        }
        i += 1;
    }
    proof {
        assert(token_views(toks@).take(toks@.len() as int) =~= token_views(toks@));
    }
    let joined = tokens::join_tokens(&uniq);
    chars::push_chars(output, &joined);
}

} // verus!
