//! Tokenization of a text value and rejoining of tokens.
//!
//! Two splitting policies exist because downstream consumers disagree on
//! semantics: the strict-space split breaks on the literal space character
//! only and keeps the empty tokens that consecutive spaces produce, while
//! the generic-whitespace split breaks on any run of whitespace and yields
//! no empty tokens.

use crate::chars;
use crate::chars::is_ws;
use vstd::prelude::*;

verus! {

/// The character sequences of a vector of tokens, in order.
pub open spec fn token_views(ts: Seq<Vec<char>>) -> Seq<Seq<char>> {
    Seq::new(ts.len(), |i: int| ts[i]@)
}

/// The strict-space split of a value: tokens are the runs between literal
/// space characters. Consecutive spaces yield empty tokens, and the empty
/// value yields one empty token, as splitting on a separator always yields
/// one token more than there are separators.
pub open spec fn split_spaces(s: Seq<char>) -> Seq<Seq<char>>
    decreases s.len(),
{
    if s.len() == 0 {
        seq![Seq::<char>::empty()]
    } else if s.last() == ' ' {
        split_spaces(s.drop_last()).push(Seq::<char>::empty())
    } else {
        let r = split_spaces(s.drop_last());
        r.update(r.len() - 1, r.last().push(s.last()))
    }
}

/// The generic-whitespace split of a value: tokens are the maximal runs of
/// non-whitespace characters; empty tokens do not occur.
pub open spec fn split_ws(s: Seq<char>) -> Seq<Seq<char>>
    decreases s.len(),
{
    if s.len() == 0 {
        Seq::empty()
    } else if is_ws(s.last()) {
        split_ws(s.drop_last())
    } else if s.len() >= 2 && !is_ws(s[s.len() - 2]) {
        let r = split_ws(s.drop_last());
        r.update(r.len() - 1, r.last().push(s.last()))
    } else {
        split_ws(s.drop_last()).push(seq![s.last()])
    }
}

/// Tokens rejoined with a single space between consecutive tokens and no
/// leading or trailing separator; a join of zero tokens is empty.
pub open spec fn join_spaces(ts: Seq<Seq<char>>) -> Seq<char>
    decreases ts.len(),
{
    if ts.len() == 0 {
        Seq::<char>::empty()
    } else if ts.len() == 1 {
        ts[0]
    } else {
        join_spaces(ts.drop_last()) + seq![' '] + ts.last()
    }
}

/// A strict-space split always yields at least one token.
pub proof fn lemma_split_spaces_len(s: Seq<char>)
    ensures
        split_spaces(s).len() >= 1,
    decreases s.len(),
{
    if s.len() > 0 {
        lemma_split_spaces_len(s.drop_last());
    }
}

/// No token of a strict-space split contains a space.
pub proof fn lemma_split_spaces_space_free(s: Seq<char>)
    ensures
        forall|i: int|
            0 <= i < split_spaces(s).len() ==> !(#[trigger] split_spaces(s)[i]).contains(' '),
    decreases s.len(),
{
    if s.len() == 0 {
        assert forall|i: int| 0 <= i < split_spaces(s).len() implies !(
        #[trigger] split_spaces(s)[i]).contains(' ') by {
            assert(split_spaces(s)[i] =~= Seq::<char>::empty());
        }
    } else {
        lemma_split_spaces_space_free(s.drop_last());
        lemma_split_spaces_len(s.drop_last());
        let r = split_spaces(s.drop_last());
        if s.last() == ' ' {
            assert forall|i: int| 0 <= i < split_spaces(s).len() implies !(
            #[trigger] split_spaces(s)[i]).contains(' ') by {
                if i < r.len() {
                    assert(split_spaces(s)[i] == r[i]);
                } else {
                    assert(split_spaces(s)[i] =~= Seq::<char>::empty());
                }
            }
        } else {
            assert forall|i: int| 0 <= i < split_spaces(s).len() implies !(
            #[trigger] split_spaces(s)[i]).contains(' ') by {
                if i < r.len() - 1 {
                    assert(split_spaces(s)[i] == r[i]);
                } else {
                    assert(split_spaces(s)[i] == r.last().push(s.last()));
                    assert(!r.last().contains(' '));
                    assert forall|j: int|
                        0 <= j < r.last().push(s.last()).len() implies r.last().push(s.last())[j]
                        != ' ' by {
                        if j < r.last().len() {
                            assert(!r.last().contains(' '));
                        }
                    }
                }
            }
        }
    }
}

/// A value without spaces splits into itself as the single token.
pub proof fn lemma_split_spaces_single(t: Seq<char>)
    requires
        !t.contains(' '),
    ensures
        split_spaces(t) == seq![t],
    decreases t.len(),
{
    if t.len() == 0 {
        assert(t =~= Seq::<char>::empty());
        assert(split_spaces(t) =~= seq![t]);
    } else {
        assert(!t.drop_last().contains(' ')) by {
            if t.drop_last().contains(' ') {
                let j = choose|j: int| 0 <= j < t.drop_last().len() && t.drop_last()[j] == ' ';
                assert(t[j] == ' ');
            }
        }
        assert(t.last() != ' ');
        lemma_split_spaces_single(t.drop_last());
        assert(split_spaces(t) =~= seq![t.drop_last().push(t.last())]);
        assert(t.drop_last().push(t.last()) =~= t);
    }
}

/// Appending a separator and one space-free token to a value extends its
/// strict-space split by that token.
pub proof fn lemma_split_spaces_append(a: Seq<char>, t: Seq<char>)
    requires
        !t.contains(' '),
    ensures
        split_spaces(a + seq![' '] + t) == split_spaces(a).push(t),
    decreases t.len(),
{
    if t.len() == 0 {
        let s = a + seq![' '] + t;
        assert(s.last() == ' ');
        assert(s.drop_last() =~= a);
        assert(t =~= Seq::<char>::empty());
        assert(split_spaces(s) =~= split_spaces(a).push(t));
    } else {
        assert(!t.drop_last().contains(' ')) by {
            if t.drop_last().contains(' ') {
                let j = choose|j: int| 0 <= j < t.drop_last().len() && t.drop_last()[j] == ' ';
                assert(t[j] == ' ');
            }
        }
        lemma_split_spaces_append(a, t.drop_last());
        lemma_split_spaces_len(a);
        let s = a + seq![' '] + t;
        assert(s.last() == t.last());
        assert(t.last() != ' ');
        assert(s.drop_last() =~= a + seq![' '] + t.drop_last());
        let r = split_spaces(a).push(t.drop_last());
        assert(split_spaces(s.drop_last()) == r);
        assert(split_spaces(s) == r.update(r.len() - 1, r.last().push(t.last())));
        assert(r.last() == t.drop_last());
        assert(t.drop_last().push(t.last()) =~= t);
        assert(r.update(r.len() - 1, t) =~= split_spaces(a).push(t));
    }
}

/// Splitting the space-joined form of space-free tokens restores the
/// tokens exactly.
pub proof fn lemma_split_join(ts: Seq<Seq<char>>)
    requires
        ts.len() >= 1,
        forall|i: int| 0 <= i < ts.len() ==> !(#[trigger] ts[i]).contains(' '),
    ensures
        split_spaces(join_spaces(ts)) == ts,
    decreases ts.len(),
{
    if ts.len() == 1 {
        lemma_split_spaces_single(ts[0]);
        assert(seq![ts[0]] =~= ts);
    } else {
        lemma_split_join(ts.drop_last());
        lemma_split_spaces_append(join_spaces(ts.drop_last()), ts.last());
        assert(split_spaces(join_spaces(ts)) == ts.drop_last().push(ts.last()));
        assert(ts.drop_last().push(ts.last()) =~= ts);
    }
}

/// Splits a value on the literal space character; empty tokens between
/// consecutive spaces are kept.
pub fn split_value_spaces(cs: &Vec<char>) -> (r: Vec<Vec<char>>)
    ensures
        token_views(r@) == split_spaces(cs@),
{
    let mut toks: Vec<Vec<char>> = Vec::new();
    let mut cur: Vec<char> = Vec::new();
    proof {
        assert(token_views(toks@).push(cur@) =~= split_spaces(cs@.take(0)));
    }
    let mut i: usize = 0;
    while i < cs.len()
        invariant
            i <= cs@.len(),
            token_views(toks@).push(cur@) == split_spaces(cs@.take(i as int)),
        decreases cs@.len() - i,
    {
        let ghost pre = cs@.take(i as int);
        let ghost toks0 = toks@;
        let ghost cur0 = cur@;
        let c = cs[i];
        proof {
            assert(cs@.take(i as int + 1).drop_last() =~= pre);
            assert(cs@.take(i as int + 1).last() == cs@[i as int]);
        }
        if c == ' ' {
            toks.push(cur);
            cur = Vec::new();
            proof {
                assert(token_views(toks@) =~= token_views(toks0).push(cur0));
                assert(token_views(toks@).push(cur@) =~= split_spaces(pre).push(
                    Seq::<char>::empty(),
                ));
            }
        } else {
            cur.push(c);
            proof {
                let r = split_spaces(pre);
                assert(r == token_views(toks0).push(cur0));
                assert(r.len() - 1 == token_views(toks0).len());
                assert(r.last() == cur0);
                assert(split_spaces(cs@.take(i as int + 1)) == r.update(
                    r.len() - 1,
                    cur0.push(c),
                ));
                assert(token_views(toks@).push(cur@) =~= r.update(r.len() - 1, cur0.push(c)));
            }
        }
        i += 1;
    }
    toks.push(cur);
    proof {
        assert(cs@.take(cs@.len() as int) =~= cs@);
        assert(token_views(toks@) =~= split_spaces(cs@));
    }
    toks
}

/// Splits a value on runs of whitespace; no empty tokens are produced.
pub fn split_value_ws(cs: &Vec<char>) -> (r: Vec<Vec<char>>)
    ensures
        token_views(r@) == split_ws(cs@),
{
    let mut toks: Vec<Vec<char>> = Vec::new();
    let mut cur: Vec<char> = Vec::new();
    proof {
        assert(token_views(toks@) =~= split_ws(cs@.take(0)));
    }
    let mut i: usize = 0;
    while i < cs.len()
        invariant
            i <= cs@.len(),
            (i == 0 || is_ws(cs@[i as int - 1])) ==> cur@.len() == 0 && token_views(toks@)
                == split_ws(cs@.take(i as int)),
            (i > 0 && !is_ws(cs@[i as int - 1])) ==> cur@.len() >= 1 && token_views(toks@).push(
                cur@,
            ) == split_ws(cs@.take(i as int)),
        decreases cs@.len() - i,
    {
        let ghost pre = cs@.take(i as int);
        let ghost toks0 = toks@;
        let ghost cur0 = cur@;
        let c = cs[i];
        proof {
            assert(cs@.take(i as int + 1).drop_last() =~= pre);
            assert(cs@.take(i as int + 1).last() == cs@[i as int]);
        }
        if chars::ws_char(c) {
            if cur.len() > 0 {
                toks.push(cur);
                cur = Vec::new();
                proof {
                    assert(token_views(toks@) =~= token_views(toks0).push(cur0));
                }
            }
            proof {
                assert(split_ws(cs@.take(i as int + 1)) == split_ws(pre));
            }
        } else {
            if i > 0 && cur.len() > 0 {
                cur.push(c);
                proof {
                    let r = split_ws(pre);
                    assert(r == token_views(toks0).push(cur0));
                    assert(r.len() - 1 == token_views(toks0).len());
                    assert(r.last() == cur0);
                    assert(split_ws(cs@.take(i as int + 1)) == r.update(
                        r.len() - 1,
                        cur0.push(c),
                    ));
                    assert(token_views(toks@).push(cur@) =~= r.update(r.len() - 1, cur0.push(c)));
                }
            } else {
                cur.push(c);
                proof {
                    assert(split_ws(cs@.take(i as int + 1)) == split_ws(pre).push(seq![c]));
                    assert(cur@ =~= seq![c]);
                    assert(token_views(toks@).push(cur@) =~= split_ws(pre).push(seq![c]));
                }
            }
        }
        i += 1;
    }
    proof {
        assert(cs@.take(cs@.len() as int) =~= cs@);
    }
    if cur.len() > 0 {
        let ghost toks0 = toks@;
        let ghost cur0 = cur@;
        toks.push(cur);
        proof {
            assert(token_views(toks@) =~= token_views(toks0).push(cur0));
        }
    }
    toks
}

/// Appends every character of `t` to a character vector.
pub fn extend_chars(out: &mut Vec<char>, t: &Vec<char>)
    ensures
        final(out)@ == old(out)@ + t@,
{
    let mut i: usize = 0;
    while i < t.len()
        invariant
            i <= t@.len(),
            out@ == old(out)@ + t@.take(i as int),
        decreases t@.len() - i,
    {
        out.push(t[i]);
        i += 1;
        proof {
            assert(old(out)@ + t@.take(i as int) =~= (old(out)@ + t@.take(i as int - 1)).push(
                t@[i as int - 1],
            ));
        }
    }
    proof {
        assert(old(out)@ + t@.take(t@.len() as int) =~= old(out)@ + t@);
    }
}

/// Rejoins tokens with a single space as separator, no leading or trailing
/// separator.
pub fn join_tokens(ts: &Vec<Vec<char>>) -> (r: Vec<char>)
    ensures
        r@ == join_spaces(token_views(ts@)),
{
    let mut out: Vec<char> = Vec::new();
    if ts.len() == 0 {
        return out;
    }
    let mut i: usize = 0;
    while i < ts.len()
        invariant
            i <= ts@.len(),
            ts@.len() >= 1,
            out@ == join_spaces(token_views(ts@).take(i as int)),
        decreases ts@.len() - i,
    {
        let ghost out0 = out@;
        if i > 0 {
            out.push(' ');
        }
        extend_chars(&mut out, &ts[i]);
        proof {
            let tv = token_views(ts@);
            assert(tv.take(i as int + 1).drop_last() =~= tv.take(i as int));
            assert(tv.take(i as int + 1).last() == tv[i as int]);
            if i == 0 {
                assert(join_spaces(tv.take(1)) == tv[0]);
                assert(out@ =~= Seq::<char>::empty() + ts@[0]@);
            } else {
                assert(join_spaces(tv.take(i as int + 1)) == join_spaces(tv.take(i as int))
                    + seq![' '] + tv[i as int]);
                assert(out@ =~= (out0.push(' ')) + ts@[i as int]@);
                assert((out0.push(' ')) + ts@[i as int]@ =~= out0 + seq![' '] + tv[i as int]);
            }
        }
        i += 1;
    }
    proof {
        assert(token_views(ts@).take(ts@.len() as int) =~= token_views(ts@));
    }
    out
}

} // verus!
