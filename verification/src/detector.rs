//! Edit pattern detection: identifies recurring edit behaviours in a history of edit
//! records, such as "user always shortens output" or "user removes trailing questions".

use vstd::prelude::*;
use crate::ratio::Ratio;
use crate::text::{
    boundary_at, byte_len, byte_len_chars, char_offset, char_offset_of, chars_of, chars_of_string, contains,
    contains_chars, copy_range, is_boundary, is_stop, lowercase, lowercase_chars, member_of,
    push_str, split_stops, stop_scan, string_of, trim, trim_chars, lemma_boundary_prefix,
};
use crate::tracker::{addition_ratio, overlap_ratio, removal_ratio, text_overlap, EditRecord};

verus! {

/// Categories of edit patterns.
#[derive(Debug, Clone, Copy, PartialEq, Eq, Hash, Structural)]
pub enum PatternType {
    /// User removes 20%+ of the text.
    Shortened,
    /// User removes a trailing question.
    RemovedQuestion,
    /// User completely rewrites the opener (first sentence, <30% overlap).
    RemovedOpener,
    /// User strips machine-sounding phrases.
    RemovedAiPhrases,
    /// User adds 30%+ more content.
    AddedContent,
    /// User replaces complex words with simpler ones.
    SimplifiedLanguage,
    /// User softens the tone.
    ChangedToneSofter,
    /// User makes the tone more aggressive/direct.
    ChangedToneStronger,
}

/// A detected edit pattern with frequency data.
#[derive(Debug, Clone)]
pub struct EditPattern {
    /// What kind of edit this is.
    pub pattern_type: PatternType,
    /// What percentage of edits exhibit this pattern (exact).
    pub frequency_pct: Ratio,
    /// How many edits matched this pattern.
    pub count: usize,
    /// Up to 3 example (original, edited) pairs, each text cut to 80 bytes.
    pub examples: Vec<(String, String)>,
}

/// Direction of a tone change.
#[derive(Debug, Clone, Copy, PartialEq, Eq, Structural)]
pub enum ToneShift {
    Softer,
    Stronger,
    Neutral,
}

/// Phrases that users commonly strip from generated text.
pub open spec fn ai_tell_phrases() -> Seq<Seq<char>> {
    seq![
        "it's worth noting"@,
        "it's important to note"@,
        "it should be noted"@,
        "moving forward"@,
        "at the end of the day"@,
        "the implications"@,
        "in this context"@,
        "it bears mentioning"@,
        "one could argue"@,
        "from this perspective"@,
        "underscores the"@,
        "highlights the importance"@,
        "a testament to"@,
        "needless to say"@,
        "in essence"@,
    ]
}

fn ai_tell_list() -> (v: Vec<&'static str>)
    ensures
        v@.map_values(|s: &str| s@) == ai_tell_phrases(),
{
    let v = vec![
        "it's worth noting",
        "it's important to note",
        "it should be noted",
        "moving forward",
        "at the end of the day",
        "the implications",
        "in this context",
        "it bears mentioning",
        "one could argue",
        "from this perspective",
        "underscores the",
        "highlights the importance",
        "a testament to",
        "needless to say",
        "in essence",
    ];
    assert(v@.map_values(|s: &str| s@) =~= ai_tell_phrases());
    v
}

/// Words that indicate a softer tone.
pub open spec fn softer_words() -> Seq<Seq<char>> {
    seq![
        "perhaps"@,
        "maybe"@,
        "might"@,
        "could"@,
        "possibly"@,
        "somewhat"@,
        "slightly"@,
        "tend to"@,
        "it seems"@,
        "in a way"@,
    ]
}

fn softer_list() -> (v: Vec<&'static str>)
    ensures
        v@.map_values(|s: &str| s@) == softer_words(),
{
    let v = vec![
        "perhaps",
        "maybe",
        "might",
        "could",
        "possibly",
        "somewhat",
        "slightly",
        "tend to",
        "it seems",
        "in a way",
    ];
    assert(v@.map_values(|s: &str| s@) =~= softer_words());
    v
}

/// Words that indicate a stronger, more direct tone.
pub open spec fn stronger_words() -> Seq<Seq<char>> {
    seq![
        "never"@,
        "always"@,
        "absolutely"@,
        "definitely"@,
        "clearly"@,
        "obviously"@,
        "must"@,
        "need to"@,
        "wrong"@,
        "right"@,
        "exactly"@,
        "period"@,
    ]
}

fn stronger_list() -> (v: Vec<&'static str>)
    ensures
        v@.map_values(|s: &str| s@) == stronger_words(),
{
    let v = vec![
        "never",
        "always",
        "absolutely",
        "definitely",
        "clearly",
        "obviously",
        "must",
        "need to",
        "wrong",
        "right",
        "exactly",
        "period",
    ];
    assert(v@.map_values(|s: &str| s@) =~= stronger_words());
    v
}

/// How many of `list` occur in `text`.
pub open spec fn occurring(text: Seq<char>, list: Seq<Seq<char>>) -> nat
    decreases list.len(),
{
    if list.len() == 0 {
        0
    } else {
        occurring(text, list.drop_last()) + if contains(text, list.last()) {
            1nat
        } else {
            0nat
        }
    }
}

/// How many of `list` occur in `text`.
fn count_occurring(text: &[char], list: &Vec<&str>) -> (n: usize)
    ensures
        n == occurring(text@, list@.map_values(|s: &str| s@)),
        n <= list@.len(),
{
    let ghost lv = list@.map_values(|s: &str| s@);
    let mut n: usize = 0;
    let mut i: usize = 0;
    while i < list.len()
        invariant
            i <= list@.len(),
            lv == list@.map_values(|s: &str| s@),
            n == occurring(text@, lv.subrange(0, i as int)),
            n <= i,
        decreases list@.len() - i,
    {
        assert(lv.subrange(0, i + 1).drop_last() =~= lv.subrange(0, i as int));
        let p = chars_of(list[i]);
        if contains_chars(text, p.as_slice()) {
            n = n + 1;
        }
        i += 1;
    }
    assert(lv.subrange(0, list@.len() as int) =~= lv);
    n
}

/// The tone change from a text to its edit, given their lowercase forms.
pub open spec fn shift_of(orig_lower: Seq<char>, edit_lower: Seq<char>) -> ToneShift {
    let soft = occurring(edit_lower, softer_words()) - occurring(orig_lower, softer_words());
    let strong = occurring(edit_lower, stronger_words()) - occurring(orig_lower, stronger_words());
    if soft > 0 && strong <= 0 {
        ToneShift::Softer
    } else if strong > 0 && soft <= 0 {
        ToneShift::Stronger
    } else {
        ToneShift::Neutral
    }
}

/// How many entries of `list` occur in `text`, counted as the entries kept by a filter.
pub open spec fn count_in(text: Seq<char>, list: Seq<Seq<char>>) -> nat {
    list.filter(|w: Seq<char>| contains(text, w)).len()
}

proof fn lemma_occurring_counts(text: Seq<char>, list: Seq<Seq<char>>)
    ensures
        occurring(text, list) == count_in(text, list),
    decreases list.len(),
{
    reveal(Seq::filter);
    if list.len() > 0 {
        lemma_occurring_counts(text, list.drop_last());
    }
}

/// An edit reads softer exactly when more softer words occur in it than in the original
/// and no more stronger words do; stronger exactly when more stronger words occur and no
/// more softer words do; and neutral otherwise.
pub proof fn lemma_tone_shift_counts(orig_lower: Seq<char>, edit_lower: Seq<char>)
    ensures
        shift_of(orig_lower, edit_lower) == ToneShift::Softer <==> (count_in(edit_lower, softer_words())
            > count_in(orig_lower, softer_words()) && count_in(edit_lower, stronger_words()) <= count_in(
            orig_lower,
            stronger_words(),
        )),
        shift_of(orig_lower, edit_lower) == ToneShift::Stronger <==> (count_in(edit_lower, stronger_words())
            > count_in(orig_lower, stronger_words()) && count_in(edit_lower, softer_words()) <= count_in(
            orig_lower,
            softer_words(),
        )),
        shift_of(orig_lower, edit_lower) == ToneShift::Neutral <==> !(count_in(edit_lower, softer_words())
            > count_in(orig_lower, softer_words()) && count_in(edit_lower, stronger_words()) <= count_in(
            orig_lower,
            stronger_words(),
        )) && !(count_in(edit_lower, stronger_words()) > count_in(orig_lower, stronger_words()) && count_in(
            edit_lower,
            softer_words(),
        ) <= count_in(orig_lower, softer_words())),
{
    lemma_occurring_counts(orig_lower, softer_words());
    lemma_occurring_counts(edit_lower, softer_words());
    lemma_occurring_counts(orig_lower, stronger_words());
    lemma_occurring_counts(edit_lower, stronger_words());
}

/// The tone change from a text to its edit, given their lowercase forms.
pub fn tone_shift_between(orig_lower: &[char], edit_lower: &[char]) -> (t: ToneShift)
    ensures
        t == shift_of(orig_lower@, edit_lower@),
{
    let softer = softer_list();
    let stronger = stronger_list();
    let orig_soft = count_occurring(orig_lower, &softer) as i32;
    let edit_soft = count_occurring(edit_lower, &softer) as i32;
    let orig_strong = count_occurring(orig_lower, &stronger) as i32;
    let edit_strong = count_occurring(edit_lower, &stronger) as i32;
    let soft_delta = edit_soft - orig_soft;
    let strong_delta = edit_strong - orig_strong;
    if soft_delta > 0 && strong_delta <= 0 {
        ToneShift::Softer
    } else if strong_delta > 0 && soft_delta <= 0 {
        ToneShift::Stronger
    } else {
        ToneShift::Neutral
    }
}

/// Some phrase of `list` occurs in `orig_lower` but not in `edit_lower`.
pub open spec fn strips_phrase(orig_lower: Seq<char>, edit_lower: Seq<char>) -> bool {
    exists|i: int|
        0 <= i < ai_tell_phrases().len() && contains(orig_lower, #[trigger] ai_tell_phrases()[i])
            && !contains(edit_lower, ai_tell_phrases()[i])
}

/// Whether a machine-sounding phrase was stripped, given the lowercase forms.
pub fn strips_ai_phrase(orig_lower: &[char], edit_lower: &[char]) -> (b: bool)
    ensures
        b == strips_phrase(orig_lower@, edit_lower@),
{
    let list = ai_tell_list();
    let mut i: usize = 0;
    while i < list.len()
        invariant
            i <= list@.len(),
            list@.map_values(|s: &str| s@) == ai_tell_phrases(),
            forall|t: int|
                0 <= t < i ==> !(contains(orig_lower@, #[trigger] ai_tell_phrases()[t]) && !contains(
                    edit_lower@,
                    ai_tell_phrases()[t],
                )),
        decreases list@.len() - i,
    {
        let p = chars_of(list[i]);
        assert(p@ == ai_tell_phrases()[i as int]);
        if contains_chars(orig_lower, p.as_slice()) && !contains_chars(edit_lower, p.as_slice()) {
            return true;
        }
        i += 1;
    }
    false
}

/// The first sentence of `text`: the part before the first stop, trimmed.
pub open spec fn first_sentence(text: Seq<char>) -> Seq<char> {
    trim(split_stops(text)[0])
}

proof fn lemma_first_piece(s: Seq<char>, k: int)
    requires
        0 <= k <= s.len(),
        forall|t: int| 0 <= t < k ==> !is_stop(#[trigger] s[t]),
        k == s.len() || is_stop(s[k]),
    ensures
        split_stops(s)[0] == s.subrange(0, k),
{
    lemma_first_piece_scan(s, k);
    if k == s.len() {
        assert(s.subrange(0, k) =~= s);
    }
}

proof fn lemma_first_piece_scan(s: Seq<char>, k: int)
    requires
        0 <= k <= s.len(),
        forall|t: int| 0 <= t < k ==> !is_stop(#[trigger] s[t]),
        k == s.len() || is_stop(s[k]),
    ensures
        k == s.len() ==> stop_scan(s).0.len() == 0 && stop_scan(s).1 == s,
        k < s.len() ==> stop_scan(s).0.len() > 0 && stop_scan(s).0[0] == s.subrange(0, k),
    decreases s.len(),
{
    if s.len() > 0 {
        let p = s.drop_last();
        if k < p.len() {
            assert forall|t: int| 0 <= t < k implies !is_stop(#[trigger] p[t]) by {
                assert(p[t] == s[t]);
            }
            assert(is_stop(p[k]));
            lemma_first_piece_scan(p, k);
            assert(p.subrange(0, k) =~= s.subrange(0, k));
        } else {
            assert forall|t: int| 0 <= t < p.len() implies !is_stop(#[trigger] p[t]) by {
                assert(p[t] == s[t]);
            }
            lemma_first_piece_scan(p, p.len() as int);
            if k == p.len() {
                assert(p =~= s.subrange(0, k));
            } else {
                assert(!is_stop(s[s.len() - 1]));
                assert(p.push(s.last()) =~= s);
            }
        }
    }
}

/// The index of the first `.`, `!` or `?` of `s`, or its length when it has none.
proof fn lemma_first_stop(s: Seq<char>) -> (k: int)
    ensures
        0 <= k <= s.len(),
        forall|t: int| 0 <= t < k ==> !is_stop(#[trigger] s[t]),
        k == s.len() || is_stop(s[k]),
    decreases s.len(),
{
    if s.len() == 0 {
        0
    } else {
        let k0 = lemma_first_stop(s.drop_last());
        assert forall|t: int| 0 <= t < k0 implies !is_stop(#[trigger] s[t]) by {
            assert(s[t] == s.drop_last()[t]);
        }
        if k0 < s.len() - 1 {
            assert(s[k0] == s.drop_last()[k0]);
            k0
        } else if is_stop(s[s.len() - 1]) {
            k0
        } else {
            s.len() as int
        }
    }
}

/// The first sentence of a text is what comes before its first `.`, `!` or `?` (the whole
/// text when it has none), with surrounding whitespace trimmed.
pub proof fn lemma_first_sentence_is_leading_clause(text: Seq<char>)
    ensures
        exists|k: int|
            {
                &&& 0 <= k <= text.len()
                &&& forall|t: int| 0 <= t < k ==> !is_stop(#[trigger] text[t])
                &&& (k == text.len() || is_stop(text[k]))
                &&& first_sentence(text) == trim(#[trigger] text.subrange(0, k))
            },
{
    let k = lemma_first_stop(text);
    lemma_first_piece(text, k);
}

/// A cut at 80 bytes keeps a text that fits, and otherwise keeps the leading characters
/// that take up exactly `max` bytes, followed by "...".
pub proof fn lemma_truncated_is_prefix(s: Seq<char>, max: nat)
    requires
        byte_len(s) <= max || is_boundary(s, max as int),
    ensures
        byte_len(s) <= max ==> truncated(s, max) == s,
        byte_len(s) > max ==> exists|k: int|
            {
                &&& 0 <= k <= s.len()
                &&& byte_len(#[trigger] s.subrange(0, k)) == max
                &&& truncated(s, max) == s.subrange(0, k) + "..."@
            },
{
    if byte_len(s) > max {
        lemma_boundary_prefix(s, max as int);
        let k = char_offset(s, max as int) as int;
        assert(byte_len(s.subrange(0, k)) == max);
    }
}

/// The first sentence of `text`.
fn first_sentence_of(text: &[char]) -> (res: Vec<char>)
    ensures
        res@ == first_sentence(text@),
{
    let mut k: usize = 0;
    while k < text.len() && !(text[k] == '.' || text[k] == '!' || text[k] == '?')
        invariant
            k <= text@.len(),
            forall|t: int| 0 <= t < k ==> !is_stop(#[trigger] text@[t]),
        decreases text@.len() - k,
    {
        k += 1;
    }
    proof {
        lemma_first_piece(text@, k as int);
    }
    let head = copy_range(text, 0, k);
    trim_chars(head.as_slice())
}

/// `s` cut to its first `max` bytes with "..." appended, when longer than `max` bytes.
pub open spec fn truncated(s: Seq<char>, max: nat) -> Seq<char> {
    if byte_len(s) <= max {
        s
    } else {
        s.subrange(0, char_offset(s, max as int) as int) + "..."@
    }
}

/// `s` cut to its first `max` bytes with "..." appended, when longer than `max` bytes.
/// The cut must fall between characters.
pub fn truncate(s: &str, max: usize) -> (res: String)
    requires
        byte_len(s@) <= max || is_boundary(s@, max as int),
    ensures
        res@ == truncated(s@, max as nat),
{
    let c = chars_of(s);
    let n = byte_len_chars(c.as_slice());
    if n <= max as u128 {
        return s.to_owned();
    }
    let k = char_offset_of(c.as_slice(), max);
    let mut out = copy_range(c.as_slice(), 0, k);
    push_str(&mut out, "...");
    string_of(out.as_slice())
}

/// `text`, trimmed, ends with a question mark.
pub open spec fn ends_in_question(text: Seq<char>) -> bool {
    trim(text).len() > 0 && trim(text).last() == '?'
}

/// Whether an edit shows `p`, given the lowercase forms of its texts.
pub open spec fn shows_pattern(e: EditRecord, p: PatternType, orig_lower: Seq<char>, edit_lower: Seq<char>) -> bool {
    match p {
        PatternType::Shortened => {
            let r = removal_ratio(e.original@, e.edited@, e.was_edited);
            r.num >= 20 * r.den
        },
        PatternType::RemovedQuestion => ends_in_question(e.original@) && !ends_in_question(e.edited@),
        PatternType::RemovedOpener => {
            let r = overlap_ratio(first_sentence(e.original@), first_sentence(e.edited@));
            10 * r.num < 3 * r.den
        },
        PatternType::RemovedAiPhrases => strips_phrase(orig_lower, edit_lower),
        PatternType::AddedContent => {
            let r = addition_ratio(e.original@, e.edited@, e.was_edited);
            r.num >= 30 * r.den
        },
        PatternType::SimplifiedLanguage => false,
        PatternType::ChangedToneSofter => shift_of(orig_lower, edit_lower) == ToneShift::Softer,
        PatternType::ChangedToneStronger => shift_of(orig_lower, edit_lower) == ToneShift::Stronger,
    }
}

/// Whether an edit shows `p`.
pub open spec fn has_pattern(e: EditRecord, p: PatternType) -> bool {
    shows_pattern(e, p, lowercase(e.original@), lowercase(e.edited@))
}

/// Whether an edit shows `p`, given the lowercase forms of its texts.
pub fn edit_shows(e: &EditRecord, p: PatternType, orig_lower: &[char], edit_lower: &[char]) -> (b: bool)
    ensures
        b == shows_pattern(*e, p, orig_lower@, edit_lower@),
{
    match p {
        PatternType::Shortened => {
            let r = e.removal_pct();
            r.num >= 20 * r.den
        },
        PatternType::RemovedQuestion => {
            let o = chars_of_string(&e.original);
            let d = chars_of_string(&e.edited);
            let to = trim_chars(o.as_slice());
            let td = trim_chars(d.as_slice());
            (to.len() > 0 && to[to.len() - 1] == '?') && !(td.len() > 0 && td[td.len() - 1] == '?')
        },
        PatternType::RemovedOpener => {
            let o = chars_of_string(&e.original);
            let d = chars_of_string(&e.edited);
            let fo = first_sentence_of(o.as_slice());
            let fd = first_sentence_of(d.as_slice());
            let r = text_overlap(fo.as_slice(), fd.as_slice());
            10 * r.num < 3 * r.den
        },
        PatternType::RemovedAiPhrases => strips_ai_phrase(orig_lower, edit_lower),
        PatternType::AddedContent => {
            let r = e.addition_pct();
            r.num >= 30 * r.den
        },
        PatternType::SimplifiedLanguage => false,
        PatternType::ChangedToneSofter => {
            tone_shift_between(orig_lower, edit_lower) == ToneShift::Softer
        },
        PatternType::ChangedToneStronger => {
            tone_shift_between(orig_lower, edit_lower) == ToneShift::Stronger
        },
    }
}

// ---------------------------------------------------------------------------------------
// Collecting patterns
// ---------------------------------------------------------------------------------------

/// The edits of `edits` that show `p`, in order.
pub open spec fn matching_edits(edits: Seq<EditRecord>, p: PatternType) -> Seq<EditRecord>
    decreases edits.len(),
{
    if edits.len() == 0 {
        seq![]
    } else {
        let r = matching_edits(edits.drop_last(), p);
        if has_pattern(edits.last(), p) {
            r.push(edits.last())
        } else {
            r
        }
    }
}

/// The edits counted for a pattern are exactly those that show it, in their order.
pub proof fn lemma_matching_edits_filter(edits: Seq<EditRecord>, p: PatternType)
    ensures
        matching_edits(edits, p) == edits.filter(|e: EditRecord| has_pattern(e, p)),
    decreases edits.len(),
{
    reveal(Seq::filter);
    if edits.len() > 0 {
        lemma_matching_edits_filter(edits.drop_last(), p);
    }
}

/// A pattern report as plain values: type, frequency, count and examples.
pub type PatternView = (PatternType, Ratio, nat, Seq<(Seq<char>, Seq<char>)>);

/// The plain values of a pattern report.
pub open spec fn pattern_view(e: EditPattern) -> PatternView {
    (
        e.pattern_type,
        e.frequency_pct,
        e.count as nat,
        e.examples@.map_values(|x: (String, String)| (x.0@, x.1@)),
    )
}

/// The plain values of pattern reports.
pub open spec fn pattern_views(v: Seq<EditPattern>) -> Seq<PatternView> {
    v.map_values(|e: EditPattern| pattern_view(e))
}

/// An example pair: both texts cut to 80 bytes.
pub open spec fn example_of(e: EditRecord) -> (Seq<char>, Seq<char>) {
    (truncated(e.original@, 80), truncated(e.edited@, 80))
}

/// The report for `p` among `edits` (of which there are `total`), if at least one edit
/// shows it and its frequency reaches `min_bp` basis points.
pub open spec fn collected(edits: Seq<EditRecord>, total: nat, min_bp: nat, p: PatternType) -> Option<PatternView> {
    let m = matching_edits(edits, p);
    if m.len() == 0 || m.len() * 10000 < min_bp * total {
        None
    } else {
        Some(
            (
                p,
                Ratio { num: (m.len() * 100) as u128, den: total as u128 },
                m.len(),
                m.subrange(0, if m.len() < 3 { m.len() as int } else { 3 }).map_values(
                    |e: EditRecord| example_of(e),
                ),
            ),
        )
    }
}

/// The patterns checked, in the order they are reported.
pub open spec fn pattern_sequence() -> Seq<PatternType> {
    seq![
        PatternType::Shortened,
        PatternType::RemovedQuestion,
        PatternType::RemovedOpener,
        PatternType::RemovedAiPhrases,
        PatternType::AddedContent,
        PatternType::ChangedToneSofter,
        PatternType::ChangedToneStronger,
    ]
}

/// Reports for the first `k` patterns of `pattern_sequence`.
pub open spec fn detected_upto(edits: Seq<EditRecord>, min_bp: nat, k: nat) -> Seq<PatternView>
    decreases k,
{
    if k == 0 {
        seq![]
    } else {
        let prev = detected_upto(edits, min_bp, (k - 1) as nat);
        match collected(edits, edits.len(), min_bp, pattern_sequence()[k - 1]) {
            Some(v) => prev.push(v),
            None => prev,
        }
    }
}

/// The patterns that `edits` show with at least `min_bp` basis points of frequency.
pub open spec fn detected(edits: Seq<EditRecord>, min_bp: nat) -> Seq<PatternView> {
    detected_upto(edits, min_bp, 7)
}

/// The records behind references.
pub open spec fn records(edits: Seq<&EditRecord>) -> Seq<EditRecord> {
    edits.map_values(|e: &EditRecord| *e)
}

/// `s` can be cut at 80 bytes without splitting a character.
pub open spec fn cuttable(s: Seq<char>) -> bool {
    byte_len(s) <= 80 || is_boundary(s, 80)
}

/// If `p` is reported for `edits` at `min_bp` basis points, its example edits (the first
/// three that show it) can be cut at 80 bytes.
pub open spec fn reported_examples_cuttable(edits: Seq<EditRecord>, min_bp: nat, p: PatternType) -> bool {
    let m = matching_edits(edits, p);
    m.len() > 0 && m.len() * 10000 >= min_bp * edits.len() ==> forall|i: int|
        0 <= i < m.len() && i < 3 ==> cuttable(#[trigger] m[i].original@) && cuttable(m[i].edited@)
}

/// The example edits of every pattern reported for `edits` at `min_bp` basis points can
/// be cut at 80 bytes.
pub open spec fn examples_cuttable(edits: Seq<EditRecord>, min_bp: nat) -> bool {
    forall|k: int| 0 <= k < 7 ==> reported_examples_cuttable(edits, min_bp, #[trigger] pattern_sequence()[k])
}

/// Whether `s` can be cut at 80 bytes without splitting a character.
fn cuttable_exec(s: &String) -> (b: bool)
    ensures
        b == cuttable(s@),
{
    let c = chars_of_string(s);
    byte_len_chars(c.as_slice()) <= 80 || boundary_at(c.as_slice(), 80)
}

/// The positions of the edits that show `p`, in order.
fn matching_indices(edits: &[&EditRecord], p: PatternType) -> (res: Vec<usize>)
    ensures
        res@.len() == matching_edits(records(edits@), p).len(),
        forall|j: int| 0 <= j < res@.len() ==> #[trigger] res@[j] < edits@.len() && records(edits@)[res@[j] as int]
            == matching_edits(records(edits@), p)[j],
{
    let ghost recs = records(edits@);
    let mut matched: Vec<usize> = Vec::new();
    let mut i: usize = 0;
    while i < edits.len()
        invariant
            i <= edits@.len(),
            recs == records(edits@),
            matched@.len() == matching_edits(recs.subrange(0, i as int), p).len(),
            forall|j: int| 0 <= j < matched@.len() ==> #[trigger] matched@[j] < i && recs[matched@[j] as int]
                == matching_edits(recs.subrange(0, i as int), p)[j],
        decreases edits@.len() - i,
    {
        assert(recs.subrange(0, i + 1).drop_last() =~= recs.subrange(0, i as int));
        assert(recs[i as int] == *edits@[i as int]);
        if has_pattern_exec(edits[i], p) {
            matched.push(i);
        }
        i += 1;
    }
    assert(recs.subrange(0, edits@.len() as int) =~= recs);
    matched
}

/// Whether the first `shown` edits that `idx` points at can be cut at 80 bytes.
fn leading_cuttable(
    edits: &[&EditRecord],
    idx: &Vec<usize>,
    shown: usize,
    Ghost(m): Ghost<Seq<EditRecord>>,
) -> (b: bool)
    requires
        shown <= idx@.len() == m.len(),
        forall|t: int| 0 <= t < idx@.len() ==> #[trigger] idx@[t] < edits@.len() && records(edits@)[idx@[t] as int]
            == m[t],
    ensures
        b == forall|t: int| 0 <= t < shown ==> cuttable(#[trigger] m[t].original@) && cuttable(m[t].edited@),
{
    let mut j: usize = 0;
    while j < shown
        invariant
            j <= shown <= idx@.len() == m.len(),
            forall|t: int| 0 <= t < idx@.len() ==> #[trigger] idx@[t] < edits@.len() && records(edits@)[idx@[t] as int]
                == m[t],
            forall|t: int| 0 <= t < j ==> cuttable(#[trigger] m[t].original@) && cuttable(m[t].edited@),
        decreases shown - j,
    {
        let e = edits[idx[j]];
        assert(m[j as int] == *e) by {
            assert(records(edits@)[idx@[j as int] as int] == *edits@[idx@[j as int] as int]);
        }
        if !cuttable_exec(&e.original) || !cuttable_exec(&e.edited) {
            return false;
        }
        assert forall|t: int| 0 <= t < j + 1 implies cuttable(#[trigger] m[t].original@) && cuttable(
            m[t].edited@,
        ) by {
            if t == j {
                assert(m[t] == *e);
            }
        }
        j += 1;
    }
    true
}

/// Whether `detect_patterns` can cut the examples of every pattern it reports for
/// `edits` at `min_bp` basis points.
pub fn examples_fit(edits: &[&EditRecord], min_bp: u64) -> (b: bool)
    ensures
        b == examples_cuttable(records(edits@), min_bp as nat),
{
    let ghost recs = records(edits@);
    let total = edits.len();
    let order = vec![
        PatternType::Shortened,
        PatternType::RemovedQuestion,
        PatternType::RemovedOpener,
        PatternType::RemovedAiPhrases,
        PatternType::AddedContent,
        PatternType::ChangedToneSofter,
        PatternType::ChangedToneStronger,
    ];
    assert(order@ =~= pattern_sequence());
    let a = min_bp as u128;
    let b = total as u128;
    assert(a * b <= 0xffff_ffff_ffff_ffffu128 * 0xffff_ffff_ffff_ffffu128) by (nonlinear_arith)
        requires
            a <= 0xffff_ffff_ffff_ffffu128,
            b <= 0xffff_ffff_ffff_ffffu128,
    ;
    let mut k: usize = 0;
    while k < order.len()
        invariant
            k <= order@.len(),
            order@ == pattern_sequence(),
            recs == records(edits@),
            total == edits@.len() == recs.len(),
            a == min_bp,
            b == total,
            a * b <= 0xffff_ffff_ffff_ffffu128 * 0xffff_ffff_ffff_ffffu128,
            forall|t: int| 0 <= t < k ==> reported_examples_cuttable(recs, min_bp as nat, #[trigger] pattern_sequence()[t]),
        decreases order@.len() - k,
    {
        let p = order[k];
        let idx = matching_indices(edits, p);
        let ghost m = matching_edits(recs, p);
        let count = idx.len();
        assert(p == pattern_sequence()[k as int]);
        assert(m.len() == count);
        let reported = count > 0 && (count as u128) * 10000 >= a * b;
        assert(reported == (m.len() > 0 && m.len() * 10000 >= min_bp * recs.len()));
        if reported {
            let shown = if count < 3 { count } else { 3 };
            if !leading_cuttable(edits, &idx, shown, Ghost(m)) {
                proof {
                    if reported_examples_cuttable(recs, min_bp as nat, p) {
                        assert forall|t: int| 0 <= t < shown implies cuttable(#[trigger] m[t].original@)
                            && cuttable(m[t].edited@) by {
                            assert(t < m.len() && t < 3);
                        }
                    }
                }
                assert(!reported_examples_cuttable(recs, min_bp as nat, pattern_sequence()[k as int]));
                return false;
            }
            assert forall|i: int| 0 <= i < m.len() && i < 3 implies cuttable(#[trigger] m[i].original@)
                && cuttable(m[i].edited@) by {
                assert(i < shown);
                assert(cuttable(m[i].original@));
                assert(cuttable(m[i].edited@));
            }
        }
        assert(reported_examples_cuttable(recs, min_bp as nat, p));
        k += 1;
    }
    true
}

/// An edit shows a softer tone exactly when more softer words occur in its lowercase form
/// than in the original's and no more stronger words do, and a stronger tone the other way
/// round.
pub proof fn lemma_tone_patterns(e: EditRecord)
    ensures
        has_pattern(e, PatternType::ChangedToneSofter) <==> (count_in(lowercase(e.edited@), softer_words())
            > count_in(lowercase(e.original@), softer_words()) && count_in(lowercase(e.edited@), stronger_words())
            <= count_in(lowercase(e.original@), stronger_words())),
        has_pattern(e, PatternType::ChangedToneStronger) <==> (count_in(lowercase(e.edited@), stronger_words())
            > count_in(lowercase(e.original@), stronger_words()) && count_in(lowercase(e.edited@), softer_words())
            <= count_in(lowercase(e.original@), softer_words())),
{
    lemma_tone_shift_counts(lowercase(e.original@), lowercase(e.edited@));
}

/// Whether an edit shows `p`.
fn has_pattern_exec(e: &EditRecord, p: PatternType) -> (b: bool)
    ensures
        b == has_pattern(*e, p),
{
    let o = chars_of_string(&e.original);
    let d = chars_of_string(&e.edited);
    let ol = lowercase_chars(o.as_slice());
    let dl = lowercase_chars(d.as_slice());
    edit_shows(e, p, ol.as_slice(), dl.as_slice())
}

/// Build the report for `pattern_type` and append it to `out` when its frequency meets
/// `min_bp` basis points.
fn collect_pattern(
    edits: &[&EditRecord],
    total: usize,
    min_bp: u64,
    pattern_type: PatternType,
    out: &mut Vec<EditPattern>,
)
    requires
        total == edits@.len(),
        reported_examples_cuttable(records(edits@), min_bp as nat, pattern_type),
    ensures
        pattern_views(final(out)@) == match collected(records(edits@), total as nat, min_bp as nat, pattern_type) {
            Some(v) => pattern_views(old(out)@).push(v),
            None => pattern_views(old(out)@),
        },
{
    let ghost recs = records(edits@);
    let matched = matching_indices(edits, pattern_type);
    let ghost m = matching_edits(recs, pattern_type);
    let count = matched.len();
    if count == 0 {
        return;
    }
    let a = min_bp as u128;
    let b = total as u128;
    assert(a * b <= 0xffff_ffff_ffff_ffffu128 * 0xffff_ffff_ffff_ffffu128) by (nonlinear_arith)
        requires
            a <= 0xffff_ffff_ffff_ffffu128,
            b <= 0xffff_ffff_ffff_ffffu128,
    ;
    if (count as u128) * 10000 < a * b {
        return;
    }
    let shown = if count < 3 { count } else { 3 };
    let mut examples: Vec<(String, String)> = Vec::new();
    let mut k: usize = 0;
    while k < shown
        invariant
            k <= shown <= count == matched@.len() == m.len(),
            shown <= 3,
            recs == records(edits@),
            m == matching_edits(recs, pattern_type),
            total == recs.len(),
            count > 0,
            count * 10000 >= min_bp * total,
            reported_examples_cuttable(recs, min_bp as nat, pattern_type),
            forall|j: int| 0 <= j < matched@.len() ==> #[trigger] matched@[j] < edits@.len() && recs[matched@[j] as int] == m[j],
            examples@.map_values(|x: (String, String)| (x.0@, x.1@)) == m.subrange(0, k as int).map_values(
                |e: EditRecord| example_of(e),
            ),
        decreases shown - k,
    {
        let e = edits[matched[k]];
        assert(*e == recs[matched@[k as int] as int]);
        assert(cuttable(m[k as int].original@) && cuttable(m[k as int].edited@));
        let pair = (truncate(e.original.as_str(), 80), truncate(e.edited.as_str(), 80));
        let ghost ex0 = examples@.map_values(|x: (String, String)| (x.0@, x.1@));
        let ghost pv = (pair.0@, pair.1@);
        examples.push(pair);
        assert(examples@.map_values(|x: (String, String)| (x.0@, x.1@)) =~= ex0.push(pv));
        assert(m.subrange(0, k + 1).map_values(|e: EditRecord| example_of(e)) =~= m.subrange(
            0,
            k as int,
        ).map_values(|e: EditRecord| example_of(e)).push(example_of(m[k as int])));
        k += 1;
    }
    let ghost o0 = pattern_views(out@);
    let pat = EditPattern {
        pattern_type,
        frequency_pct: Ratio { num: (count as u128) * 100, den: total as u128 },
        count,
        examples,
    };
    let ghost pv = pattern_view(pat);
    out.push(pat);
    assert(pattern_views(out@) =~= o0.push(pv));
}

/// Detect edit patterns from a collection of edit records.
///
/// Returns the patterns whose frequency meets `min_frequency_bp`, given in basis points
/// (hundredths of a percent: 1000 is 10%).
pub fn detect_patterns(edits: &[&EditRecord], min_frequency_bp: u64) -> (res: Vec<EditPattern>)
    requires
        examples_cuttable(records(edits@), min_frequency_bp as nat),
    ensures
        pattern_views(res@) == detected(records(edits@), min_frequency_bp as nat),
{
    let total = edits.len();
    let mut patterns: Vec<EditPattern> = Vec::new();
    if total == 0 {
        proof {
            lemma_nothing_detected(records(edits@), min_frequency_bp as nat, 7);
        }
        return patterns;
    }
    let order = vec![
        PatternType::Shortened,
        PatternType::RemovedQuestion,
        PatternType::RemovedOpener,
        PatternType::RemovedAiPhrases,
        PatternType::AddedContent,
        PatternType::ChangedToneSofter,
        PatternType::ChangedToneStronger,
    ];
    assert(order@ =~= pattern_sequence());
    let mut k: usize = 0;
    while k < order.len()
        invariant
            k <= order@.len(),
            order@ == pattern_sequence(),
            total == edits@.len(),
            examples_cuttable(records(edits@), min_frequency_bp as nat),
            pattern_views(patterns@) == detected_upto(records(edits@), min_frequency_bp as nat, k as nat),
        decreases order@.len() - k,
    {
        assert(reported_examples_cuttable(records(edits@), min_frequency_bp as nat, pattern_sequence()[k as int]));
        collect_pattern(edits, total, min_frequency_bp, order[k], &mut patterns);
        k += 1;
    }
    patterns
}

/// Detect edit patterns, or `None` when an example of a reported pattern could not be cut
/// at 80 bytes without splitting a character (see `examples_fit`).
pub fn detect_patterns_checked(edits: &[&EditRecord], min_frequency_bp: u64) -> (res: Option<Vec<EditPattern>>)
    ensures
        res is None <==> !examples_cuttable(records(edits@), min_frequency_bp as nat),
        res matches Some(v) ==> pattern_views(v@) == detected(records(edits@), min_frequency_bp as nat),
{
    if examples_fit(edits, min_frequency_bp) {
        Some(detect_patterns(edits, min_frequency_bp))
    } else {
        None
    }
}

/// Where `p` stands in `pattern_sequence` (the one pattern not checked comes last).
pub open spec fn pattern_index(p: PatternType) -> nat {
    match p {
        PatternType::Shortened => 0,
        PatternType::RemovedQuestion => 1,
        PatternType::RemovedOpener => 2,
        PatternType::RemovedAiPhrases => 3,
        PatternType::AddedContent => 4,
        PatternType::ChangedToneSofter => 5,
        PatternType::ChangedToneStronger => 6,
        PatternType::SimplifiedLanguage => 7,
    }
}

/// One report of `p` among `edits`: the edits that show it, their share of all edits in
/// percent, their number, and the first three of them as examples cut to 80 bytes.
pub open spec fn report_of(edits: Seq<EditRecord>, p: PatternType) -> PatternView {
    let m = matching_edits(edits, p);
    (
        p,
        Ratio { num: (m.len() * 100) as u128, den: edits.len() as u128 },
        m.len(),
        m.subrange(0, if m.len() < 3 { m.len() as int } else { 3 }).map_values(|e: EditRecord| example_of(e)),
    )
}

proof fn lemma_matching_len(edits: Seq<EditRecord>, p: PatternType)
    ensures
        matching_edits(edits, p).len() <= edits.len(),
    decreases edits.len(),
{
    if edits.len() > 0 {
        lemma_matching_len(edits.drop_last(), p);
    }
}

/// What `detect_patterns` reports: nothing for no edits; otherwise at most one report per
/// pattern, in a fixed order, each for a pattern shown by at least one edit and at most
/// all of them, with its frequency meeting the threshold, and each exactly the report of
/// its pattern (frequency `count * 100 / edits`, the first three matching edits as
/// examples).
pub proof fn lemma_reports_meet_threshold(edits: Seq<EditRecord>, min_bp: nat)
    ensures
        edits.len() == 0 ==> detected(edits, min_bp).len() == 0,
        detected(edits, min_bp).len() <= 7,
        forall|i: int, j: int| 0 <= i < j < detected(edits, min_bp).len() ==> pattern_index(
            (#[trigger] detected(edits, min_bp)[i]).0,
        ) < pattern_index((#[trigger] detected(edits, min_bp)[j]).0),
        forall|k: int| 0 <= k < detected(edits, min_bp).len() ==> {
            let v = #[trigger] detected(edits, min_bp)[k];
            &&& 1 <= v.2 <= edits.len()
            &&& v.2 * 10000 >= min_bp * edits.len()
            &&& v == report_of(edits, v.0)
            &&& v.3.len() <= 3
        },
{
    lemma_reports_upto(edits, min_bp, 7);
    if edits.len() == 0 {
        lemma_nothing_detected(edits, min_bp, 7);
    }
}

proof fn lemma_reports_upto(edits: Seq<EditRecord>, min_bp: nat, k: nat)
    requires
        k <= 7,
    ensures
        detected_upto(edits, min_bp, k).len() <= k,
        forall|i: int, j: int| 0 <= i < j < detected_upto(edits, min_bp, k).len() ==> pattern_index(
            (#[trigger] detected_upto(edits, min_bp, k)[i]).0,
        ) < pattern_index((#[trigger] detected_upto(edits, min_bp, k)[j]).0),
        forall|i: int| 0 <= i < detected_upto(edits, min_bp, k).len() ==> {
            let v = #[trigger] detected_upto(edits, min_bp, k)[i];
            &&& pattern_index(v.0) < k
            &&& 1 <= v.2 <= edits.len()
            &&& v.2 * 10000 >= min_bp * edits.len()
            &&& v == report_of(edits, v.0)
            &&& v.3.len() <= 3
        },
    decreases k,
{
    if k > 0 {
        lemma_reports_upto(edits, min_bp, (k - 1) as nat);
        let p = pattern_sequence()[k - 1];
        lemma_matching_len(edits, p);
        assert(pattern_index(p) == k - 1);
    }
}

/// No edits, no patterns.
proof fn lemma_nothing_detected(edits: Seq<EditRecord>, min_bp: nat, k: nat)
    requires
        edits.len() == 0,
    ensures
        detected_upto(edits, min_bp, k).len() == 0,
    decreases k,
{
    if k > 0 {
        lemma_nothing_detected(edits, min_bp, (k - 1) as nat);
    }
}

} // verus!
