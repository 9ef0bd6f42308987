//! Removal of content enclosed in matched bracket pairs.
//!
//! The configuration is a flat, even-length sequence of glyphs: positions
//! (2k, 2k+1) form bracket kind k as its (open, close) pair. The scan keeps
//! one 0/1 depth flag per kind, set by the kind's open glyph and reset to
//! zero by its close glyph. Resetting instead of decrementing means nested
//! same-kind pairs are not tracked as a stack: the first close of a kind
//! puts the scan back outside that kind, whatever was opened before. This
//! flat-reset behaviour is deliberate and kept as the component's
//! semantics; the regression tests pin it down.

use crate::chars;
use crate::ConfigError;
use vstd::prelude::*;

verus! {

/// The position of the first open glyph equal to `c` at or after position
/// `i` of the glyph sequence. The glyphs are scanned in configured order
/// and an open match stops the scan, so where a glyph is reused across
/// kinds the earliest-configured kind takes precedence.
pub open spec fn open_match_from(bs: Seq<char>, c: char, i: int) -> Option<int>
    decreases bs.len() - i,
{
    if i >= bs.len() {
        None
    } else if i % 2 == 0 && bs[i] == c {
        Some(i)
    } else {
        open_match_from(bs, c, i + 1)
    }
}

/// Where the glyph scan for `c` stops: at the open glyph that consumes it,
/// or past the last glyph.
pub open spec fn scan_stop(bs: Seq<char>, c: char) -> int {
    match open_match_from(bs, c, 0) {
        Some(i) => i,
        None => bs.len() as int,
    }
}

/// Whether `c` is consumed as an open bracket.
pub open spec fn opens(bs: Seq<char>, c: char) -> bool {
    open_match_from(bs, c, 0) is Some
}

/// The depth flag of kind `k` after the scan processes one character `c`:
/// the kind whose open glyph consumed `c` is set; a kind whose close glyph
/// equals `c` and is reached before the scan stops is reset to zero; every
/// other kind keeps its flag.
pub open spec fn step_kind(bs: Seq<char>, c: char, d: Seq<bool>, k: int) -> bool {
    if open_match_from(bs, c, 0) == Some(2 * k) {
        true
    } else if 2 * k + 1 < scan_stop(bs, c) && bs[2 * k + 1] == c {
        false
    } else {
        d[k]
    }
}

/// All depth flags after one character.
pub open spec fn step_depths(bs: Seq<char>, c: char, d: Seq<bool>) -> Seq<bool> {
    Seq::new(d.len(), |k: int| step_kind(bs, c, d, k))
}

/// The scan position lies outside every bracket span.
pub open spec fn all_outside(d: Seq<bool>) -> bool {
    forall|k: int| 0 <= k < d.len() ==> !d[k]
}

/// A character passes the filter exactly when the scan is outside every
/// bracket span as the character is reached and the character is not itself
/// consumed as an open glyph. A close glyph that ends a span is reached
/// while its own kind is still open, so it is suppressed; a stray close
/// with no open span before it passes through like any other character.
pub open spec fn emits(bs: Seq<char>, c: char, d: Seq<bool>) -> bool {
    all_outside(d) && !opens(bs, c)
}

/// The characters of `s` that the filter emits, scanning with current
/// depth flags `d`.
pub open spec fn erase_from(bs: Seq<char>, s: Seq<char>, d: Seq<bool>) -> Seq<char>
    decreases s.len(),
{
    if s.len() == 0 {
        Seq::empty()
    } else {
        let rest = erase_from(bs, s.drop_first(), step_depths(bs, s[0], d));
        if emits(bs, s[0], d) {
            seq![s[0]] + rest
        } else {
            rest
        }
    }
}

/// The value with every character that lies inside some bracket span, and
/// every glyph that opens or closes one, removed. Each value is scanned
/// with all depth flags zero: no state survives from one value to the next.
pub open spec fn erase_brackets(bs: Seq<char>, s: Seq<char>) -> Seq<char> {
    erase_from(bs, s, Seq::new(bs.len() / 2, |k: int| false))
}

/// A parsed bracket configuration: the flat glyph sequence, with an even
/// number of glyphs.
pub struct BracketSpec {
    glyph_chars: Vec<char>,
}

impl BracketSpec {
    /// The flat glyph sequence; positions (2k, 2k+1) are kind k.
    pub closed spec fn glyphs(&self) -> Seq<char> {
        self.glyph_chars@
    }

    /// Every glyph belongs to an (open, close) pair.
    pub open spec fn wf(&self) -> bool {
        self.glyphs().len() % 2 == 0
    }

    /// Parses a bracket configuration string; a string of odd length is a
    /// configuration error, reported before any row is scanned.
    pub fn new(brackets: &str) -> (r: Result<BracketSpec, ConfigError>)
        ensures
            r is Ok <==> brackets@.len() % 2 == 0,
            r matches Ok(b) ==> b.wf() && b.glyphs() == brackets@,
            r is Err ==> r == Result::<BracketSpec, ConfigError>::Err(ConfigError::OddBracketSpec),
    {
        let cs = chars::str_chars(brackets);
        if cs.len() % 2 == 0 {
            Ok(BracketSpec { glyph_chars: cs })
        } else {
            Err(ConfigError::OddBracketSpec)
        }
    }
}

/// The scan of the glyphs for `c` reaches position `j` unchanged when no
/// open glyph before `j` equals `c`.
proof fn lemma_open_match_skip(bs: Seq<char>, c: char, j: int)
    requires
        0 <= j <= bs.len(),
        forall|t: int| 0 <= t < j && t % 2 == 0 ==> bs[t] != c,
    ensures
        open_match_from(bs, c, 0) == open_match_from(bs, c, j),
    decreases j,
{
    if j > 0 {
        lemma_open_match_skip(bs, c, j - 1);
        assert((j - 1) % 2 == 0 ==> bs[j - 1] != c);
        assert(open_match_from(bs, c, j - 1) == open_match_from(bs, c, j));
    }
}

/// Whether every depth flag is currently zero.
fn depths_all_outside(d: &Vec<bool>) -> (r: bool)
    ensures
        r == all_outside(d@),
{
    let mut i: usize = 0;
    while i < d.len()
        invariant
            i <= d@.len(),
            forall|k: int| 0 <= k < i ==> !d@[k],
        decreases d@.len() - i,
    {
        if d[i] {
            proof {
                assert(d@[i as int]);
            }
            return false;
        }
        i += 1;
    }
    true
}

/// Removes bracket-enclosed content from `value` and appends the kept
/// characters, in order, to the output buffer. Unbalanced input raises no
/// error: a close with no open span before it passes through, and an open
/// that is never closed suppresses the rest of the value.
pub fn remove_bracketed_content(value: &str, brackets: &BracketSpec, output: &mut String)
    requires
        brackets.wf(),
    ensures
        final(output)@ == old(output)@ + erase_brackets(brackets.glyphs(), value@),
{
    let cs = chars::str_chars(value);
    let bs = &brackets.glyph_chars;
    let half = bs.len() / 2;
    let mut depth: Vec<bool> = Vec::new();
    while depth.len() < half
        invariant
            depth@.len() <= half,
            forall|k: int| 0 <= k < depth@.len() ==> !depth@[k],
        decreases half - depth@.len(),
    {
        depth.push(false);
    }
    proof {
        assert(depth@ =~= Seq::new(bs@.len() / 2, |k: int| false));
        assert(cs@.skip(0) =~= cs@);
        assert(Seq::<char>::empty() + erase_from(bs@, cs@, depth@) =~= erase_from(
            bs@,
            cs@,
            depth@,
        ));
    }
    let mut kept: Vec<char> = Vec::new();
    let mut i: usize = 0;
    while i < cs.len()
        invariant
            brackets.wf(),
            bs@ == brackets.glyphs(),
            depth@.len() == bs@.len() / 2,
            i <= cs@.len(),
            kept@ + erase_from(bs@, cs@.skip(i as int), depth@) == erase_brackets(bs@, cs@),
        decreases cs@.len() - i,
    {
        let c = cs[i];
        let outside = depths_all_outside(&depth);
        let ghost d0 = depth@;
        let mut consumed = false;
        let mut j: usize = 0;
        while j < bs.len() && !consumed
            invariant
                bs@ == brackets.glyphs(),
                bs@.len() % 2 == 0,
                j <= bs@.len(),
                depth@.len() == d0.len(),
                d0.len() == bs@.len() / 2,
                !consumed ==> forall|t: int| 0 <= t < j && t % 2 == 0 ==> bs@[t] != c,
                !consumed ==> forall|k: int|
                    0 <= k < d0.len() ==> depth@[k] == (if 2 * k + 1 < j && bs@[2 * k + 1] == c {
                        false
                    } else {
                        d0[k]
                    }),
                consumed ==> opens(bs@, c) && depth@ == step_depths(bs@, c, d0),
            decreases bs@.len() - j,
        {
            if c == bs[j] {
                if j % 2 == 0 {
                    proof {
                        lemma_open_match_skip(bs@, c, j as int);
                        assert(open_match_from(bs@, c, j as int) == Some(j as int));
                    }
                    depth[j / 2] = true;
                    consumed = true;
                    let ghost jm = j as int;
                    j += 1;
                    proof {
                        assert(scan_stop(bs@, c) == jm);
                        assert forall|k: int| 0 <= k < d0.len() implies depth@[k] == step_kind(
                            bs@,
                            c,
                            d0,
                            k,
                        ) by {
                            if k == jm / 2 {
                                assert(2 * k == jm);
                            } else {
                                assert(open_match_from(bs@, c, 0) != Some(2 * k));
                            }
                        }
                        assert(depth@ =~= step_depths(bs@, c, d0));
                    }
                } else {
                    depth[j / 2] = false;
                    proof {
                        assert(2 * (j as int / 2) + 1 == j as int);
                    }
                    j += 1;
                }
            } else {
                j += 1;
            }
        }
        proof {
            if !consumed {
                assert(j == bs@.len());
                lemma_open_match_skip(bs@, c, j as int);
                assert(open_match_from(bs@, c, j as int) is None);
                assert forall|k: int| 0 <= k < d0.len() implies depth@[k] == step_kind(
                    bs@,
                    c,
                    d0,
                    k,
                ) by {
                    assert(2 * k + 1 < bs@.len());
                }
                assert(depth@ =~= step_depths(bs@, c, d0));
            }
        }
        let ghost kept0 = kept@;
        if outside && !consumed {
            kept.push(c);
        }
        proof {
            let tail = cs@.skip(i as int);
            assert(tail[0] == cs@[i as int]);
            assert(tail.drop_first() =~= cs@.skip(i as int + 1));
            let rest = erase_from(bs@, cs@.skip(i as int + 1), depth@);
            assert(erase_from(bs@, tail, d0) == (if emits(bs@, c, d0) {
                seq![c] + rest
            } else {
                rest
            }));
            if emits(bs@, c, d0) {
                assert(kept@ =~= kept0.push(c));
                assert(kept0.push(c) + rest =~= kept0 + (seq![c] + rest));
            }
        }
        i += 1;
    }
    proof {
        assert(cs@.skip(cs@.len() as int) =~= Seq::<char>::empty());
        assert(kept@ + Seq::<char>::empty() =~= kept@);
    }
    chars::push_chars(output, &kept);
}

} // verus!
