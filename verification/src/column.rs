//! The row mapper: applies one selected transform across a whole column.
//!
//! The transform is a closed set of named operations, each carrying its
//! own configuration payload, selected once per column invocation. Every
//! row's output is derived from that row's input alone; an absent (null)
//! input row yields an absent output row and no transform runs on it. A
//! single output buffer is reused across the rows, cleared between them,
//! so no row can observe what an earlier row wrote.

use crate::brackets;
use crate::brackets::BracketSpec;
use crate::chars;
use crate::dedup;
use crate::mapping;
use crate::mapping::Dict;
use crate::unicode;
use vstd::prelude::*;

verus! {

/// One of the per-value transforms, with its configuration.
pub enum Transform {
    /// Ordered deduplication of strict-space tokens; no configuration.
    UniqueWords,
    /// Dictionary substitution of generic-whitespace tokens.
    MapWords(Dict),
    /// Unicode normalization under a form selector string.
    Normalize(String),
    /// Canonical decomposition, then only ASCII code points kept.
    RemoveDiacritics,
    /// Removal of bracket-enclosed content.
    RemoveBracketed(BracketSpec),
}

impl Transform {
    /// The carried configuration is well-formed.
    pub open spec fn wf(&self) -> bool {
        match self {
            Transform::MapWords(d) => d.wf(),
            Transform::RemoveBracketed(b) => b.wf(),
            _ => true,
        }
    }
}

/// The output value of the selected transform for one input value.
pub open spec fn transform_value(t: Transform, s: Seq<char>) -> Seq<char> {
    match t {
        Transform::UniqueWords => dedup::unique_words_seq(s),
        Transform::MapWords(d) => mapping::map_words_seq(d.pairs(), s),
        Transform::Normalize(f) => unicode::norm_of(f@, s),
        Transform::RemoveDiacritics => unicode::remove_diacritics_seq(s),
        Transform::RemoveBracketed(b) => brackets::erase_brackets(b.glyphs(), s),
    }
}

/// Applies the selected transform to one value, appending the output to
/// the caller-supplied buffer.
pub fn apply_value(t: &Transform, value: &str, output: &mut String)
    requires
        t.wf(),
    ensures
        final(output)@ == old(output)@ + transform_value(*t, value@),
{
    match t {
        Transform::UniqueWords => dedup::unique_words(value, output),
        Transform::MapWords(d) => mapping::map_words(value, d, output),
        Transform::Normalize(f) => unicode::normalize(value, f.as_str(), output),
        Transform::RemoveDiacritics => unicode::remove_diacritics(value, output),
        Transform::RemoveBracketed(b) => brackets::remove_bracketed_content(value, b, output),
    }
}

/// Applies the selected transform to every present row of a column. The
/// output column has the same length and positional correspondence as the
/// input: row i of the output is derived from row i of the input alone.
/// A null input row gives a null output row, with no transform invoked.
pub fn apply_to_column(t: &Transform, column: &Vec<Option<String>>) -> (out: Vec<Option<String>>)
    requires
        t.wf(),
    ensures
        out@.len() == column@.len(),
        forall|i: int| 0 <= i < column@.len() ==> (column@[i] is None <==> out@[i] is None),
        forall|i: int|
            0 <= i < column@.len() ==> ((#[trigger] column@[i]) matches Some(v) ==> out@[i] matches Some(
                w,
            ) && w@ == transform_value(*t, v@)),
{
    let mut out: Vec<Option<String>> = Vec::new();
    let mut buf = String::new();
    let mut i: usize = 0;
    while i < column.len()
        invariant
            t.wf(),
            i <= column@.len(),
            out@.len() == i,
            forall|j: int| 0 <= j < i ==> (column@[j] is None <==> out@[j] is None),
            forall|j: int|
                0 <= j < i ==> ((#[trigger] column@[j]) matches Some(v) ==> out@[j] matches Some(
                    w,
                ) && w@ == transform_value(*t, v@)),
        decreases column@.len() - i,
    {
        match &column[i] {
            None => {
                out.push(None);
            },
            Some(v) => {
                chars::clear_string(&mut buf);
                apply_value(t, v.as_str(), &mut buf);
                proof {
                    assert(buf@ =~= transform_value(*t, v@));
                }
                out.push(Some(buf.clone()));
            },
        }
        i += 1;
    }
    out
}

} // verus!
