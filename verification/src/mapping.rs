//! Dictionary substitution of generic-whitespace tokens: each token is
//! replaced by its dictionary value when the dictionary has its key, and
//! kept unchanged otherwise; the tokens are rejoined with single spaces,
//! so the original spacing of the value is not preserved.

use crate::chars;
use crate::tokens;
use crate::tokens::{join_spaces, split_ws, token_views};
use crate::ConfigError;
use vstd::prelude::*;

verus! {

/// The first value paired with key `t`, scanning the pairs in order. With
/// distinct keys it is the value of the one pair whose key is `t`.
pub open spec fn lookup(pairs: Seq<(Seq<char>, Seq<char>)>, t: Seq<char>) -> Option<Seq<char>>
    decreases pairs.len(),
{
    if pairs.len() == 0 {
        None
    } else if pairs[0].0 == t {
        Some(pairs[0].1)
    } else {
        lookup(pairs.drop_first(), t)
    }
}

/// The replacement of one token: the dictionary's value for it when
/// present, else the token unchanged.
pub open spec fn map_token(pairs: Seq<(Seq<char>, Seq<char>)>, t: Seq<char>) -> Seq<char> {
    match lookup(pairs, t) {
        Some(v) => v,
        None => t,
    }
}

/// The replacement of every token, position by position.
pub open spec fn map_tokens(pairs: Seq<(Seq<char>, Seq<char>)>, ts: Seq<Seq<char>>) -> Seq<
    Seq<char>,
> {
    Seq::new(ts.len(), |i: int| map_token(pairs, ts[i]))
}

/// The token-mapping transform on a whole value: generic-whitespace
/// tokens, each replaced through the dictionary, rejoined with single
/// spaces.
pub open spec fn map_words_seq(pairs: Seq<(Seq<char>, Seq<char>)>, s: Seq<char>) -> Seq<char> {
    join_spaces(map_tokens(pairs, split_ws(s)))
}

/// The key and value character sequences of a vector of pairs, in order.
pub open spec fn pair_views(ps: Seq<(String, String)>) -> Seq<(Seq<char>, Seq<char>)> {
    Seq::new(ps.len(), |i: int| (ps[i].0@, ps[i].1@))
}

/// No two pairs share a key.
pub open spec fn distinct_keys(pairs: Seq<(Seq<char>, Seq<char>)>) -> bool {
    forall|i: int, j: int| 0 <= i < j < pairs.len() ==> pairs[i].0 != pairs[j].0
}

/// A mapping dictionary: finite (key, replacement) pairs with distinct
/// keys, supplied once per column invocation and read-only afterwards.
pub struct Dict {
    keys: Vec<Vec<char>>,
    vals: Vec<Vec<char>>,
}

impl Dict {
    /// Every key has its value at the same position.
    #[verifier::type_invariant]
    spec fn len_inv(&self) -> bool {
        self.keys@.len() == self.vals@.len()
    }

    /// The (key, value) pairs, in insertion order.
    pub closed spec fn pairs(&self) -> Seq<(Seq<char>, Seq<char>)> {
        Seq::new(self.keys@.len(), |i: int| (self.keys@[i]@, self.vals@[i]@))
    }

    /// Keys are distinct, and every key has its value.
    pub open spec fn wf(&self) -> bool {
        distinct_keys(self.pairs())
    }

    /// Builds a dictionary from (key, value) pairs. A repeated key makes
    /// the configuration malformed: the error is reported once, before any
    /// row is processed.
    pub fn new(entries: &Vec<(String, String)>) -> (r: Result<Dict, ConfigError>)
        ensures
            r is Ok <==> distinct_keys(pair_views(entries@)),
            r matches Ok(d) ==> d.wf() && d.pairs() == pair_views(entries@),
            r is Err ==> r == Result::<Dict, ConfigError>::Err(ConfigError::DuplicateMapKey),
    {
        let mut keys: Vec<Vec<char>> = Vec::new();
        let mut vals: Vec<Vec<char>> = Vec::new();
        let mut i: usize = 0;
        while i < entries.len()
            invariant
                i <= entries@.len(),
                keys@.len() == i,
                vals@.len() == i,
                forall|j: int| 0 <= j < i ==> keys@[j]@ == entries@[j].0@,
                forall|j: int| 0 <= j < i ==> vals@[j]@ == entries@[j].1@,
                forall|j: int, k: int| 0 <= j < k < i ==> keys@[j]@ != keys@[k]@,
            decreases entries@.len() - i,
        {
            let key = chars::str_chars(entries[i].0.as_str());
            let val = chars::str_chars(entries[i].1.as_str());
            let mut j: usize = 0;
            while j < keys.len()
                invariant
                    j <= keys@.len(),
                    i < entries@.len(),
                    keys@.len() == i,
                    key@ == entries@[i as int].0@,
                    forall|k: int| 0 <= k < i ==> keys@[k]@ == entries@[k].0@,
                    forall|k: int| 0 <= k < j ==> keys@[k]@ != key@,
                decreases keys@.len() - j,
            {
                if chars::chars_eq(&keys[j], &key) {
                    proof {
                        assert(pair_views(entries@)[j as int].0 == entries@[j as int].0@);
                        assert(pair_views(entries@)[i as int].0 == entries@[i as int].0@);
                        assert(pair_views(entries@)[j as int].0 == pair_views(
                            entries@,
                        )[i as int].0);
                    }
                    return Err(ConfigError::DuplicateMapKey);
                }
                j += 1;
            }
            keys.push(key);
            vals.push(val);
            i += 1;
        }
        let d = Dict { keys, vals };
        proof {
            assert(d.pairs() =~= pair_views(entries@));
        }
        Ok(d)
    }

    /// The replacement of one token: the value stored under it, or the
    /// token itself when no pair has it as key.
    fn map_token_exec(&self, t: &Vec<char>) -> (r: Vec<char>)
        ensures
            r@ == map_token(self.pairs(), t@),
    {
        proof {
            use_type_invariant(self);
        }
        let mut i: usize = 0;
        while i < self.keys.len()
            invariant
                i <= self.keys@.len(),
                self.vals@.len() == self.keys@.len(),
                forall|j: int| 0 <= j < i ==> self.keys@[j]@ != t@,
            decreases self.keys@.len() - i,
        {
            if chars::chars_eq(&self.keys[i], t) {
                proof {
                    lemma_lookup_skip(self.pairs(), t@, i as int);
                    assert(self.pairs().skip(i as int)[0] == self.pairs()[i as int]);
                    assert(lookup(self.pairs().skip(i as int), t@) == Some(self.vals@[i as int]@));
                }
                return chars::copy_chars(&self.vals[i]);
            }
            i += 1;
        }
        proof {
            lemma_lookup_skip(self.pairs(), t@, self.keys@.len() as int);
            assert(self.pairs().skip(self.keys@.len() as int).len() == 0);
        }
        chars::copy_chars(t)
    }

}

/// Scanning past pairs whose keys all differ from `t` leaves the lookup
/// unchanged.
proof fn lemma_lookup_skip(pairs: Seq<(Seq<char>, Seq<char>)>, t: Seq<char>, i: int)
    requires
        0 <= i <= pairs.len(),
        forall|j: int| 0 <= j < i ==> pairs[j].0 != t,
    ensures
        lookup(pairs, t) == lookup(pairs.skip(i), t),
    decreases i,
{
    if i > 0 {
        lemma_lookup_skip(pairs, t, i - 1);
        assert(pairs.skip(i - 1)[0] == pairs[i - 1]);
        assert(pairs.skip(i - 1).drop_first() =~= pairs.skip(i));
    } else {
        assert(pairs.skip(0) =~= pairs);
    }
}

/// Token mapping is total, with identity as the fallback: every output
/// token is the dictionary's value for the corresponding input token when
/// the dictionary has that key, and the input token unchanged otherwise.
pub proof fn lemma_map_tokens_total(pairs: Seq<(Seq<char>, Seq<char>)>, ts: Seq<Seq<char>>)
    ensures
        map_tokens(pairs, ts).len() == ts.len(),
        forall|i: int|
            0 <= i < ts.len() ==> (lookup(pairs, ts[i]) matches Some(v) ==> #[trigger] map_tokens(
                pairs,
                ts,
            )[i] == v),
        forall|i: int|
            0 <= i < ts.len() ==> (lookup(pairs, ts[i]) is None ==> #[trigger] map_tokens(
                pairs,
                ts,
            )[i] == ts[i]),
{
}

/// Replaces each generic-whitespace token of `value` through the
/// dictionary, identity for unmapped tokens, and appends the replacements
/// rejoined with single spaces to the output buffer. Runs of whitespace
/// collapse: the output is always single-space separated.
pub fn map_words(value: &str, dict: &Dict, output: &mut String)
    ensures
        final(output)@ == old(output)@ + map_words_seq(dict.pairs(), value@),
{
    let cs = chars::str_chars(value);
    let toks = tokens::split_value_ws(&cs);
    let mut mapped: Vec<Vec<char>> = Vec::new();
    let mut i: usize = 0;
    while i < toks.len()
        invariant
            i <= toks@.len(),
            token_views(toks@) == split_ws(cs@),
            token_views(mapped@) == map_tokens(dict.pairs(), token_views(toks@)).take(i as int),
        decreases toks@.len() - i,
    {
        let ghost m0 = mapped@;
        let t = dict.map_token_exec(&toks[i]);
        mapped.push(t);
        proof {
            let full = map_tokens(dict.pairs(), token_views(toks@));
            assert(full.take(i as int + 1) =~= full.take(i as int).push(full[i as int]));
            assert(token_views(mapped@) =~= token_views(m0).push(
                map_token(dict.pairs(), token_views(toks@)[i as int]),
            ));
        }
        i += 1;
    }
    proof {
        let full = map_tokens(dict.pairs(), token_views(toks@));
        assert(full.take(toks@.len() as int) =~= full);
    }
    let joined = tokens::join_tokens(&mapped);
    chars::push_chars(output, &joined);
}

} // verus!
