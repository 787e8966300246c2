//! Edit tracking: records pairs of (generated output, the user's version).

use vstd::prelude::*;
use crate::ratio::Ratio;
use crate::text::{
    byte_len, byte_len_chars, chars_of, chars_of_string, common_words, larger_vocabulary,
    lemma_words_len, overlap_counts, same_chars, split_words, texts, trim, trim_chars, words,
};
use crate::time::{now, Timestamp};

verus! {

/// A single edit record: what was generated vs what the user posted.
#[derive(Debug, Clone)]
pub struct EditRecord {
    /// The original generated text.
    pub original: String,
    /// The text the user actually used (possibly edited).
    pub edited: String,
    /// Whether the user modified the original.
    pub was_edited: bool,
    /// When this edit was recorded.
    pub timestamp: Timestamp,
    /// Length difference in bytes (negative = shortened, positive = expanded).
    pub length_delta: i64,
    /// Word count difference.
    pub word_delta: i64,
}

/// Percentage of the original's bytes removed, as an exact ratio (0 if not edited,
/// empty, or not shortened).
pub open spec fn removal_ratio(original: Seq<char>, edited: Seq<char>, was_edited: bool) -> Ratio {
    let o = byte_len(original);
    let e = byte_len(edited);
    if !was_edited || original.len() == 0 || e >= o {
        Ratio { num: 0, den: 1 }
    } else {
        Ratio { num: ((o - e) * 100) as u128, den: o as u128 }
    }
}

/// Percentage of the original's bytes added, as an exact ratio (0 if not edited, empty,
/// or not expanded).
pub open spec fn addition_ratio(original: Seq<char>, edited: Seq<char>, was_edited: bool) -> Ratio {
    let o = byte_len(original);
    let e = byte_len(edited);
    if !was_edited || original.len() == 0 || e <= o {
        Ratio { num: 0, den: 1 }
    } else {
        Ratio { num: ((e - o) * 100) as u128, den: o as u128 }
    }
}

/// Distinct words shared by `a` and `b` over the distinct words of the larger one
/// (1 when both have none).
pub open spec fn overlap_ratio(a: Seq<char>, b: Seq<char>) -> Ratio {
    let big = larger_vocabulary(words(a), words(b));
    if big == 0 {
        Ratio { num: 1, den: 1 }
    } else {
        Ratio { num: common_words(words(a), words(b)) as u128, den: big as u128 }
    }
}

/// Word overlap does not depend on which text comes first.
pub proof fn lemma_overlap_symmetric(a: Seq<char>, b: Seq<char>)
    ensures
        overlap_ratio(a, b) == overlap_ratio(b, a),
{
    assert(words(a).to_set().intersect(words(b).to_set()) =~= words(b).to_set().intersect(
        words(a).to_set(),
    ));
}

/// A text overlaps itself fully.
pub proof fn lemma_overlap_self(a: Seq<char>)
    ensures
        overlap_ratio(a, a).num == overlap_ratio(a, a).den,
{
    assert(words(a).to_set().intersect(words(a).to_set()) =~= words(a).to_set());
}

/// An edit never both removes and adds text.
pub proof fn lemma_removal_excludes_addition(original: Seq<char>, edited: Seq<char>, was_edited: bool)
    ensures
        removal_ratio(original, edited, was_edited).num == 0 || addition_ratio(
            original,
            edited,
            was_edited,
        ).num == 0,
        !was_edited ==> removal_ratio(original, edited, was_edited).num == 0 && addition_ratio(
            original,
            edited,
            was_edited,
        ).num == 0,
{
}

/// No edit removes more than all of the text, and both percentages have a positive
/// denominator.
pub proof fn lemma_removal_at_most_all(original: Seq<char>, edited: Seq<char>, was_edited: bool)
    requires
        byte_len(original) * 100 <= u128::MAX,
    ensures
        removal_ratio(original, edited, was_edited).num <= 100 * removal_ratio(
            original,
            edited,
            was_edited,
        ).den,
        removal_ratio(original, edited, was_edited).den > 0,
        addition_ratio(original, edited, was_edited).den > 0,
{
}

/// Word-level overlap of two texts (see `overlap_ratio`).
pub fn text_overlap(a: &[char], b: &[char]) -> (r: Ratio)
    ensures
        r == overlap_ratio(a@, b@),
        r.wf(),
        r.num <= r.den,
        r.den <= 0x1_0000_0000_0000_0000,
{
    let wa = split_words(a);
    let wb = split_words(b);
    let (common, big) = overlap_counts(&wa, &wb);
    if big == 0 {
        Ratio { num: 1, den: 1 }
    } else {
        Ratio { num: common as u128, den: big as u128 }
    }
}

impl EditRecord {
    /// Create a new edit record, detecting whether editing occurred; the record is
    /// stamped with the current time.
    pub fn new(original: &str, edited: &str) -> (r: Self)
        requires
            byte_len(original@) <= i64::MAX,
            byte_len(edited@) <= i64::MAX,
        ensures
            r.original@ == original@,
            r.edited@ == edited@,
            r.was_edited == (trim(original@) != trim(edited@)),
            r.length_delta == byte_len(edited@) - byte_len(original@),
            r.word_delta == words(edited@).len() - words(original@).len(),
    {
        let o = chars_of(original);
        let e = chars_of(edited);
        let to = trim_chars(o.as_slice());
        let te = trim_chars(e.as_slice());
        let was_edited = !same_chars(to.as_slice(), te.as_slice());
        let ow = split_words(o.as_slice());
        let ew = split_words(e.as_slice());
        let ob = byte_len_chars(o.as_slice());
        let eb = byte_len_chars(e.as_slice());
        proof {
            lemma_words_len(o@);
            lemma_words_len(e@);
        }
        let orig_words = ow.len() as i64;
        let edit_words = ew.len() as i64;
        EditRecord {
            original: original.to_owned(),
            edited: edited.to_owned(),
            was_edited,
            timestamp: now(),
            length_delta: eb as i64 - ob as i64,
            word_delta: edit_words - orig_words,
        }
    }

    /// Percentage of text that was removed (0 if expanded or unchanged).
    pub fn removal_pct(&self) -> (r: Ratio)
        ensures
            r == removal_ratio(self.original@, self.edited@, self.was_edited),
            r.wf(),
            r.den <= 0x1_0000_0000_0000_0000_0000,
    {
        let o = chars_of_string(&self.original);
        if !self.was_edited || o.len() == 0 {
            return Ratio { num: 0, den: 1 };
        }
        let e = chars_of_string(&self.edited);
        let ob = byte_len_chars(o.as_slice());
        let eb = byte_len_chars(e.as_slice());
        let ol = o.len();
        assert(ob <= 4 * ol);
        if eb >= ob {
            Ratio { num: 0, den: 1 }
        } else {
            Ratio { num: (ob - eb) * 100, den: ob }
        }
    }

    /// Percentage of text that was added (0 if shortened or unchanged).
    pub fn addition_pct(&self) -> (r: Ratio)
        ensures
            r == addition_ratio(self.original@, self.edited@, self.was_edited),
            r.wf(),
            r.den <= 0x1_0000_0000_0000_0000_0000,
    {
        let o = chars_of_string(&self.original);
        if !self.was_edited || o.len() == 0 {
            return Ratio { num: 0, den: 1 };
        }
        let e = chars_of_string(&self.edited);
        let ob = byte_len_chars(o.as_slice());
        let eb = byte_len_chars(e.as_slice());
        let el = e.len();
        assert(eb <= 4 * el);
        let ol = o.len();
        assert(ob <= 4 * ol);
        if eb <= ob {
            Ratio { num: 0, den: 1 }
        } else {
            Ratio { num: (eb - ob) * 100, den: ob }
        }
    }

    /// Word-level overlap between original and edited (from 0 to 1).
    pub fn word_overlap(&self) -> (r: Ratio)
        ensures
            r == overlap_ratio(self.original@, self.edited@),
            r.wf(),
            r.num <= r.den,
            r.den <= 0x1_0000_0000_0000_0000,
    {
        let o = chars_of_string(&self.original);
        let e = chars_of_string(&self.edited);
        text_overlap(o.as_slice(), e.as_slice())
    }
}

} // verus!
