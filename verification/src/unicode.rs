//! Unicode normalization of a whole value and diacritic stripping.
//!
//! The four standard normalization forms are computed by the
//! `unicode_normalization` crate; their results are named, not spelled
//! out, since writing out the Unicode algorithms here would state nothing
//! that could be checked. Normalization of a given character sequence
//! depends on that sequence alone, and each form is idempotent, as
//! Unicode Standard Annex #15 specifies; the wrappers record both.

use crate::chars;
use crate::chars::is_ascii_char;
use unicode_normalization::UnicodeNormalization;
use vstd::prelude::*;
use vstd::string::StringExecFns;

verus! {

/// Canonical composition (NFC) of a character sequence.
pub uninterp spec fn nfc_of(s: Seq<char>) -> Seq<char>;

/// Canonical decomposition (NFD) of a character sequence.
pub uninterp spec fn nfd_of(s: Seq<char>) -> Seq<char>;

/// Compatibility composition (NFKC) of a character sequence.
pub uninterp spec fn nfkc_of(s: Seq<char>) -> Seq<char>;

/// Compatibility decomposition (NFKD) of a character sequence.
pub uninterp spec fn nfkd_of(s: Seq<char>) -> Seq<char>;

/// Relies on `unicode_normalization::UnicodeNormalization::nfc`: the
/// result is the canonical composition of the input's characters, a
/// function of those characters alone, and idempotent per UAX #15.
#[verifier::external_body]
fn nfc_str(s: &str) -> (r: String)
    ensures
        r@ == nfc_of(s@),
        nfc_of(r@) == r@,
{
    s.nfc().collect()
}

/// Relies on `unicode_normalization::UnicodeNormalization::nfd`: the
/// result is the canonical decomposition of the input's characters, a
/// function of those characters alone, and idempotent per UAX #15.
#[verifier::external_body]
fn nfd_str(s: &str) -> (r: String)
    ensures
        r@ == nfd_of(s@),
        nfd_of(r@) == r@,
{
    s.nfd().collect()
}

/// Relies on `unicode_normalization::UnicodeNormalization::nfkc`: the
/// result is the compatibility composition of the input's characters, a
/// function of those characters alone, and idempotent per UAX #15.
#[verifier::external_body]
fn nfkc_str(s: &str) -> (r: String)
    ensures
        r@ == nfkc_of(s@),
        nfkc_of(r@) == r@,
{
    s.nfkc().collect()
}

/// Relies on `unicode_normalization::UnicodeNormalization::nfkd`: the
/// result is the compatibility decomposition of the input's characters, a
/// function of those characters alone, and idempotent per UAX #15.
#[verifier::external_body]
fn nfkd_str(s: &str) -> (r: String)
    ensures
        r@ == nfkd_of(s@),
        nfkd_of(r@) == r@,
{
    s.nfkd().collect()
}

/// The normalized form of `s` under the form selector: an exact-match
/// dispatch over the four selector spellings. Any other selector leaves
/// the value unchanged; this silent no-op is kept deliberately, for
/// compatibility, instead of being promoted to a configuration error.
pub open spec fn norm_of(form: Seq<char>, s: Seq<char>) -> Seq<char> {
    if form == seq!['N', 'F', 'C'] {
        nfc_of(s)
    } else if form == seq!['N', 'F', 'K', 'C'] {
        nfkc_of(s)
    } else if form == seq!['N', 'F', 'D'] {
        nfd_of(s)
    } else if form == seq!['N', 'F', 'K', 'D'] {
        nfkd_of(s)
    } else {
        s
    }
}

/// Rewrites `value` in the normalization form that the selector names and
/// appends the result to the output buffer. A selector other than the
/// four standard spellings appends the value unchanged. Applying the same
/// form a second time changes nothing.
pub fn normalize(value: &str, form: &str, output: &mut String)
    ensures
        final(output)@ == old(output)@ + norm_of(form@, value@),
        norm_of(form@, norm_of(form@, value@)) == norm_of(form@, value@),
{
    let fs = chars::str_chars(form);
    let is_nfc = fs.len() == 3 && fs[0] == 'N' && fs[1] == 'F' && fs[2] == 'C';
    let is_nfkc = fs.len() == 4 && fs[0] == 'N' && fs[1] == 'F' && fs[2] == 'K' && fs[3] == 'C';
    let is_nfd = fs.len() == 3 && fs[0] == 'N' && fs[1] == 'F' && fs[2] == 'D';
    let is_nfkd = fs.len() == 4 && fs[0] == 'N' && fs[1] == 'F' && fs[2] == 'K' && fs[3] == 'D';
    proof {
        assert(is_nfc == (form@ == seq!['N', 'F', 'C'])) by {
            if is_nfc {
                assert(fs@ =~= seq!['N', 'F', 'C']);
            }
        }
        assert(is_nfkc == (form@ == seq!['N', 'F', 'K', 'C'])) by {
            if is_nfkc {
                assert(fs@ =~= seq!['N', 'F', 'K', 'C']);
            }
        }
        assert(is_nfd == (form@ == seq!['N', 'F', 'D'])) by {
            if is_nfd {
                assert(fs@ =~= seq!['N', 'F', 'D']);
            }
        }
        assert(is_nfkd == (form@ == seq!['N', 'F', 'K', 'D'])) by {
            if is_nfkd {
                assert(fs@ =~= seq!['N', 'F', 'K', 'D']);
            }
        }
    }
    if is_nfc {
        let r = nfc_str(value);
        output.append(r.as_str());
    } else if is_nfkc {
        let r = nfkc_str(value);
        output.append(r.as_str());
    } else if is_nfd {
        let r = nfd_str(value);
        output.append(r.as_str());
    } else if is_nfkd {
        let r = nfkd_str(value);
        output.append(r.as_str());
    } else {
        output.append(value);
    }
}

/// The subsequence of ASCII code points, in original relative order.
pub open spec fn ascii_only(s: Seq<char>) -> Seq<char>
    decreases s.len(),
{
    if s.len() == 0 {
        Seq::<char>::empty()
    } else if is_ascii_char(s.last()) {
        ascii_only(s.drop_last()).push(s.last())
    } else {
        ascii_only(s.drop_last())
    }
}

/// Diacritic removal is closed over ASCII: every character that the
/// filter keeps lies in the ASCII range, whatever the input held.
pub proof fn lemma_ascii_only_closed(s: Seq<char>)
    ensures
        forall|i: int| 0 <= i < ascii_only(s).len() ==> is_ascii_char(#[trigger] ascii_only(s)[i]),
    decreases s.len(),
{
    if s.len() > 0 {
        lemma_ascii_only_closed(s.drop_last());
        let d = ascii_only(s.drop_last());
        assert forall|i: int| 0 <= i < ascii_only(s).len() implies is_ascii_char(
            #[trigger] ascii_only(s)[i],
        ) by {
            if is_ascii_char(s.last()) {
                if i < d.len() {
                    assert(ascii_only(s)[i] == d[i]);
                } else {
                    assert(ascii_only(s)[i] == s.last());
                }
            } else {
                assert(ascii_only(s)[i] == d[i]);
            }
        }
    }
}

/// The diacritic-stripping transform: canonical decomposition, then only
/// the ASCII code points kept. Combining marks decompose away from their
/// base letters and are discarded; so is any character with no ASCII
/// decomposition at all, ideographs included — the transform's scope is
/// deliberately wider than accents alone.
pub open spec fn remove_diacritics_seq(s: Seq<char>) -> Seq<char> {
    ascii_only(nfd_of(s))
}

/// Decomposes `value` canonically, keeps only the ASCII code points of
/// the decomposition in their original relative order, and appends them
/// to the output buffer.
pub fn remove_diacritics(value: &str, output: &mut String)
    ensures
        final(output)@ == old(output)@ + remove_diacritics_seq(value@),
{
    let nd = nfd_str(value);
    let cs = chars::str_chars(nd.as_str());
    let mut kept: Vec<char> = Vec::new();
    let mut i: usize = 0;
    while i < cs.len()
        invariant
            i <= cs@.len(),
            cs@ == nfd_of(value@),
            kept@ == ascii_only(cs@.take(i as int)),
        decreases cs@.len() - i,
    {
        proof {
            assert(cs@.take(i as int + 1).drop_last() =~= cs@.take(i as int));
            assert(cs@.take(i as int + 1).last() == cs@[i as int]);
        }
        if chars::ascii_char(cs[i]) {
            kept.push(cs[i]);
        }
        i += 1;
    }
    proof {
        assert(cs@.take(cs@.len() as int) =~= cs@);
    }
    chars::push_chars(output, &kept);
}

} // verus!
