//! Post-generation voice filter: catches text that sounds machine-written.
//!
//! The filter runs six layers in sequence. Each layer may record a violation together
//! with a retry hint and raise the severity; some layers also clean the text.

use vstd::prelude::*;
use crate::text::{
    char_offset, char_offset_of, char_to_uppercase, chars_of,
    contains, contains_chars, copy_range, count_sentences, decimal, decimal_chars,
    find_last_period_or_bang, has_char, join, join_chars, last_period_or_bang, leading_ws_end,
    lowercase, lowercase_chars, push_all, push_str, replace_all, replace_chars, sentence_count,
    stop_cut, stop_cut_index, string_of, strings, texts, trim, trim_chars, trim_start, chars_of_string,
    is_boundary, char_uppercase, to_lowercase_string, lemma_trim_split, lemma_trim_stops, lemma_sentences_within_stops, lemma_cut_scan, is_ws, lowercase_all, occurs_at, lemma_last_period_in_range, lemma_last_period_or_bang_is_last,
};

verus! {

// ---------------------------------------------------------------------------------------
// Types
// ---------------------------------------------------------------------------------------

/// Result of a voice filter check.
#[derive(Debug, Clone)]
pub struct VoiceCheckResult {
    /// Whether the text passed the filter.
    pub passed: bool,
    /// Mechanically cleaned version of the text.
    pub cleaned: String,
    /// Human-readable violation descriptions.
    pub violations: Vec<String>,
    /// Severity score (0 = clean, 1 = minor auto-fixed, 2 = should retry, 3 = hard fail).
    pub severity: u8,
    /// Targeted retry hints for each violation (for regeneration).
    pub retry_hints: Vec<String>,
}

/// Configuration for the voice filter.
#[derive(Debug, Clone)]
pub struct VoiceFilterConfig {
    /// Additional phrases to detect (appended to the built-in list).
    pub extra_ai_phrases: Vec<String>,
    /// Maximum sentences allowed (0 = no limit).
    pub max_sentences: usize,
    /// Maximum characters allowed (0 = no limit).
    pub max_chars: usize,
    /// Whether to reject trailing questions.
    pub reject_trailing_questions: bool,
    /// Whether to replace em-dashes with periods.
    pub fix_em_dashes: bool,
    /// Whether to reject multi-paragraph output.
    pub reject_multi_paragraph: bool,
}

impl Default for VoiceFilterConfig {
    fn default() -> (cfg: Self)
        ensures
            cfg.extra_ai_phrases@.len() == 0,
            cfg.max_sentences == 0,
            cfg.max_chars == 0,
            cfg.reject_trailing_questions,
            cfg.fix_em_dashes,
            !cfg.reject_multi_paragraph,
    {
        VoiceFilterConfig {
            extra_ai_phrases: Vec::new(),
            max_sentences: 0,
            max_chars: 0,
            reject_trailing_questions: true,
            fix_em_dashes: true,
            reject_multi_paragraph: false,
        }
    }
}

/// Post-generation voice filter.
pub struct VoiceFilter {
    config: VoiceFilterConfig,
}

// ---------------------------------------------------------------------------------------
// Outside searches (named results of the `regex` crate)
// ---------------------------------------------------------------------------------------

/// What `regex::Regex::new(pattern)` and then `Regex::find(haystack)` report: the byte
/// range of the first match, or none (also when the pattern does not compile).
pub uninterp spec fn regex_first_match(pattern: Seq<char>, haystack: Seq<char>) -> Option<(nat, nat)>;

/// What `regex::Regex::new(pattern)` and then `Regex::is_match(haystack)` report
/// (false when the pattern does not compile).
pub uninterp spec fn regex_is_match(pattern: Seq<char>, haystack: Seq<char>) -> bool;

/// Compiles `pattern` with `regex::Regex::new` and searches `haystack` with
/// `Regex::find`. Claims that the result is the named `regex_first_match`, and what the
/// `regex` documentation of `Match` states: start <= end, and both offsets fall on
/// character boundaries of the haystack.
#[verifier::external_body]
fn regex_find(pattern: &str, haystack: &str) -> (res: Option<(usize, usize)>)
    ensures
        match res {
            Some(m) => {
                &&& regex_first_match(pattern@, haystack@) == Some((m.0 as nat, m.1 as nat))
                &&& m.0 <= m.1
                &&& is_boundary(haystack@, m.0 as int)
                &&& is_boundary(haystack@, m.1 as int)
            },
            None => regex_first_match(pattern@, haystack@) is None,
        },
{
    match regex::Regex::new(pattern) {
        Ok(re) => match re.find(haystack) {
            Some(m) => Some((m.start(), m.end())),
            None => None,
        },
        Err(_) => None,
    }
}

/// Compiles `pattern` with `regex::Regex::new` and tests `haystack` with
/// `Regex::is_match`. Claims only that the result is the named `regex_is_match`.
#[verifier::external_body]
fn regex_matches(pattern: &str, haystack: &str) -> (res: bool)
    ensures
        res == regex_is_match(pattern@, haystack@),
{
    match regex::Regex::new(pattern) {
        Ok(re) => re.is_match(haystack),
        Err(_) => false,
    }
}

// ---------------------------------------------------------------------------------------
// Specification
// ---------------------------------------------------------------------------------------

/// Violations, retry hints and severity gathered by the layers.
pub type Findings = (Seq<Seq<char>>, Seq<Seq<char>>, u8);

/// `sev` raised to at least `level`.
pub open spec fn raised(sev: u8, level: u8) -> u8 {
    if sev < level {
        level
    } else {
        sev
    }
}

/// `f` with one more violation, its hint, and the severity raised to `level`.
pub open spec fn flagged(f: Findings, violation: Seq<char>, hint: Seq<char>, level: u8) -> Findings {
    (f.0.push(violation), f.1.push(hint), raised(f.2, level))
}

/// The pattern of a meta-commentary opener ("The post highlights ...").
pub open spec fn meta_pattern() -> Seq<char> {
    "(?i)^(the|this)\\s+(tweet|post|article|comment|message|text|statement|piece|thread|response)\\s+(highlights?|shows?|discusses?|suggests?|raises?|mentions?|points?\\s+out|illustrates?|demonstrates?|reveals?|underscores?|emphasizes?|captures?)"@
}

/// The pattern of a generic closing question.
pub open spec fn generic_question_pattern() -> Seq<char> {
    "(?i)(how will|what does|what do you|thoughts\\??|wouldn't you|don't you think|isn't it|right\\?)\\s*$"@
}

/// Built-in phrases that betray machine-generated text.
pub open spec fn ai_vocabulary() -> Seq<Seq<char>> {
    seq![
        "it's important to note"@,
        "it's worth noting"@,
        "it is worth mentioning"@,
        "it bears mentioning"@,
        "it should be noted"@,
        "one could argue"@,
        "it remains to be seen"@,
        "furthermore"@,
        "moreover"@,
        "in conclusion"@,
        "in summary"@,
        "to summarize"@,
        "overall"@,
        "that being said"@,
        "having said that"@,
        "with that in mind"@,
        "moving forward"@,
        "going forward"@,
        "at the end of the day"@,
        "underscores"@,
        "highlights the"@,
        "sends a clear message"@,
        "raises important questions"@,
        "sheds light on"@,
        "the significance of"@,
        "a testament to"@,
        "multifaceted"@,
        "resonates with"@,
        "navigating"@,
        "landscape"@,
        "tapestry"@,
        "delve"@,
        "delving"@,
        "leveraging"@,
        "fostering"@,
        "paradigm"@,
        "synergy"@,
        "holistic"@,
        "nuanced"@,
        "robust"@,
        "comprehensive"@,
        "encompasses"@,
        "facilitating"@,
        "pivotal"@,
        "imperative"@,
        "paramount"@,
        "intricate"@,
        "dynamic"@,
        "realm"@,
        "let's break this down"@,
        "here's the thing"@,
        "here's why"@,
        "here's what you need to know"@,
        "the truth is"@,
        "the reality is"@,
        "the bottom line"@,
        "make no mistake"@,
        "in essence"@,
        "in other words"@,
        "simply put"@,
        "to put it simply"@,
        "needless to say"@,
        "as a matter of fact"@,
        "by and large"@,
        "for all intents and purposes"@,
    ]
}

/// The phrases of `list` that occur in `lower`, in order.
pub open spec fn matching_phrases(lower: Seq<char>, list: Seq<Seq<char>>) -> Seq<Seq<char>>
    decreases list.len(),
{
    if list.len() == 0 {
        seq![]
    } else {
        let rest = matching_phrases(lower, list.drop_last());
        if contains(lower, list.last()) {
            rest.push(list.last())
        } else {
            rest
        }
    }
}

/// The phrases of `extras` whose lowercase form (`lowered`) occurs in `lower`, in order.
pub open spec fn matching_extras(
    lower: Seq<char>,
    extras: Seq<Seq<char>>,
    lowered: Seq<Seq<char>>,
) -> Seq<Seq<char>>
    decreases extras.len(),
{
    if extras.len() == 0 {
        seq![]
    } else {
        let rest = matching_extras(lower, extras.drop_last(), lowered.drop_last());
        if contains(lower, lowered[extras.len() - 1]) {
            rest.push(extras.last())
        } else {
            rest
        }
    }
}

/// The phrases the first layer reports for `text`.
pub open spec fn found_ai_phrases(cfg: VoiceFilterConfig, text: Seq<char>) -> Seq<Seq<char>> {
    let extras = strings(cfg.extra_ai_phrases@);
    matching_phrases(lowercase(text), ai_vocabulary()) + matching_extras(
        lowercase(text),
        extras,
        lowercase_all(extras),
    )
}

/// Layer 1: vocabulary.
pub open spec fn ai_vocabulary_layer(found: Seq<Seq<char>>, f: Findings) -> Findings {
    if found.len() > 0 {
        flagged(
            f,
            "AI vocabulary detected: "@ + join(found, ", "@),
            "DO NOT use formal/academic language. Write like a person texting, not an analyst."@,
            2,
        )
    } else {
        f
    }
}

/// `rest` with its first character mapped by `upper`.
pub open spec fn capitalized(rest: Seq<char>, upper: Seq<char>) -> Seq<char> {
    if rest.len() > 0 {
        upper + rest.drop_first()
    } else {
        rest
    }
}

/// What follows a meta-commentary opener ending at byte `end`, without leading whitespace.
pub open spec fn after_opener(text: Seq<char>, end: nat) -> Seq<char> {
    trim_start(text.subrange(char_offset(text, end as int) as int, text.len() as int))
}

/// Layer 2 given the opener search result `found`.
pub open spec fn meta_layer(text: Seq<char>, found: Option<(nat, nat)>, f: Findings) -> (Seq<char>, Findings) {
    match found {
        Some(m) => {
            let rest = after_opener(text, m.1);
            (
                capitalized(rest, if rest.len() > 0 { char_uppercase(rest[0]) } else { seq![] }),
                flagged(
                    f,
                    "Meta-commentary opener detected"@,
                    "Talk TO the person, not ABOUT their text. No 'The post shows...' \u{2014} state your take directly."@,
                    2,
                ),
            )
        },
        None => (text, f),
    }
}

/// Layer 3: paragraphs.
pub open spec fn paragraph_layer(text: Seq<char>, f: Findings) -> (Seq<char>, Findings) {
    if contains(text, "\n\n"@) {
        (
            replace_all(text, "\n\n"@, " "@),
            flagged(
                f,
                "Multi-paragraph structure detected"@,
                "ONE paragraph only. 1-2 sentences. That's it."@,
                2,
            ),
        )
    } else {
        (text, f)
    }
}

/// `text` ends, after trimming, with a question mark.
pub open spec fn ends_with_question(text: Seq<char>) -> bool {
    trim(text).len() > 0 && trim(text).last() == '?'
}

/// Layer 4 given whether the trimmed text matches the generic-question pattern.
pub open spec fn question_layer(text: Seq<char>, generic: bool, f: Findings) -> (Seq<char>, Findings) {
    let t = trim(text);
    if !ends_with_question(text) {
        (text, f)
    } else {
        let g = flagged(
            f,
            "Trailing question detected"@,
            "Do NOT end with ANY question. No 'How will...?'. Just state your take and STOP."@,
            if generic { 2u8 } else { 1u8 },
        );
        match last_period_or_bang(t) {
            Some(pos) => if sentence_count(t) > 1 {
                (trim(t.subrange(0, pos + 1 as int)), g)
            } else {
                (text, g)
            },
            None => (text, g),
        }
    }
}

/// When a text ends with a question and holds more than one sentence and some `.` or `!`,
/// the question layer cuts it right after the last `.` or `!` of the trimmed text: every
/// statement before the question is kept, and only what follows the last stop goes.
pub proof fn lemma_question_cut_at_last_stop(text: Seq<char>, generic: bool, f: Findings)
    requires
        ends_with_question(text),
        sentence_count(trim(text)) > 1,
        exists|j: int| 0 <= j < trim(text).len() && (#[trigger] trim(text)[j] == '.' || trim(text)[j] == '!'),
    ensures
        exists|k: int|
            {
                &&& 0 <= k < trim(text).len()
                &&& (#[trigger] trim(text)[k] == '.' || trim(text)[k] == '!')
                &&& forall|j: int| k < j < trim(text).len() ==> #[trigger] trim(text)[j] != '.' && trim(text)[j] != '!'
                &&& question_layer(text, generic, f).0 == trim(trim(text).subrange(0, k + 1))
            },
{
    let t = trim(text);
    lemma_last_period_or_bang_is_last(t);
    let k = last_period_or_bang(t)->0 as int;
    assert(t[k] == '.' || t[k] == '!');
}

/// The em-dash character.
pub open spec fn em_dash() -> char {
    '\u{2014}'
}

/// `text` with every em-dash form rewritten as a sentence break.
pub open spec fn dashes_replaced(text: Seq<char>) -> Seq<char> {
    replace_all(
        replace_all(
            replace_all(
                replace_all(replace_all(text, " \u{2014} "@, ". "@), "\u{2014} "@, ". "@),
                " \u{2014}"@,
                ". "@,
            ),
            "\u{2014}"@,
            ". "@,
        ),
        " -- "@,
        ". "@,
    )
}

/// Layer 5: em-dashes.
pub open spec fn dash_layer(text: Seq<char>, f: Findings) -> (Seq<char>, Findings) {
    if text.contains(em_dash()) || contains(text, " -- "@) {
        (
            dashes_replaced(text),
            flagged(f, "Em-dash usage detected"@, "No em-dashes. Use periods instead."@, 1),
        )
    } else {
        (text, f)
    }
}

/// Layer 6: length limits.
pub open spec fn length_layer(cfg: VoiceFilterConfig, text: Seq<char>, f: Findings) -> (Seq<char>, Findings) {
    let f1 = if cfg.max_chars > 0 && text.len() > cfg.max_chars {
        flagged(
            f,
            "Text exceeds "@ + decimal(cfg.max_chars as nat) + " char limit ("@ + decimal(
                text.len(),
            ) + " chars)"@,
            "SHORTER. Be more concise."@,
            1,
        )
    } else {
        f
    };
    if cfg.max_sentences > 0 && sentence_count(text) > cfg.max_sentences {
        let f2 = flagged(
            f1,
            "Text has "@ + decimal(sentence_count(text)) + " sentences (max "@ + decimal(
                cfg.max_sentences as nat,
            ) + ")"@,
            "Max "@ + decimal(cfg.max_sentences as nat) + " sentences. Cut the rest."@,
            1,
        );
        let end = stop_cut(text, cfg.max_sentences as nat);
        if end > 0 && end < text.len() {
            (trim(text.subrange(0, end as int)), f2)
        } else {
            (text, f2)
        }
    } else {
        (text, f1)
    }
}

/// Cleaned text and findings of the whole filter on `text`.
pub open spec fn voice_check(cfg: VoiceFilterConfig, text: Seq<char>) -> (Seq<char>, Findings) {
    let f1 = ai_vocabulary_layer(found_ai_phrases(cfg, text), (seq![], seq![], 0u8));
    let s2 = meta_layer(text, regex_first_match(meta_pattern(), text), f1);
    let s3 = if cfg.reject_multi_paragraph {
        paragraph_layer(s2.0, s2.1)
    } else {
        s2
    };
    let s4 = if cfg.reject_trailing_questions {
        question_layer(s3.0, regex_is_match(generic_question_pattern(), trim(s3.0)), s3.1)
    } else {
        s3
    };
    let s5 = if cfg.fix_em_dashes {
        dash_layer(s4.0, s4.1)
    } else {
        s4
    };
    length_layer(cfg, s5.0, s5.1)
}

// ---------------------------------------------------------------------------------------
// Laws
// ---------------------------------------------------------------------------------------

/// Findings that are consistent: one hint per violation, severity 0 exactly when nothing
/// was flagged, and severity at most 2.
pub open spec fn consistent(f: Findings) -> bool {
    &&& f.0.len() == f.1.len()
    &&& (f.2 == 0) == (f.0.len() == 0)
    &&& f.2 <= 2
}

/// A layer step from `(t0, f0)` to `(t1, f1)` only adds findings, and leaves the text
/// alone when it adds none.
pub open spec fn monotone_step(t0: Seq<char>, f0: Findings, t1: Seq<char>, f1: Findings) -> bool {
    &&& f1.0.len() >= f0.0.len()
    &&& f1.0.len() == f0.0.len() ==> t1 == t0 && f1 == f0
    &&& consistent(f0) ==> consistent(f1)
}

proof fn lemma_flagged_consistent(f: Findings, v: Seq<char>, h: Seq<char>, level: u8)
    requires
        consistent(f),
        1 <= level <= 2,
    ensures
        consistent(flagged(f, v, h, level)),
        flagged(f, v, h, level).0.len() == f.0.len() + 1,
{
}

/// Every layer of the filter only adds findings and keeps them consistent.
proof fn lemma_layers_monotone(cfg: VoiceFilterConfig, t: Seq<char>, f: Findings, found: Seq<Seq<char>>, m: Option<(nat, nat)>, g: bool)
    ensures
        monotone_step(t, f, t, ai_vocabulary_layer(found, f)),
        monotone_step(t, f, meta_layer(t, m, f).0, meta_layer(t, m, f).1),
        monotone_step(t, f, paragraph_layer(t, f).0, paragraph_layer(t, f).1),
        monotone_step(t, f, question_layer(t, g, f).0, question_layer(t, g, f).1),
        monotone_step(t, f, dash_layer(t, f).0, dash_layer(t, f).1),
        monotone_step(t, f, length_layer(cfg, t, f).0, length_layer(cfg, t, f).1),
{
    if consistent(f) {
        lemma_flagged_consistent(f, seq![], seq![], 1);
        lemma_flagged_consistent(f, seq![], seq![], 2);
    }
}

/// Each violation of a check comes with exactly one retry hint; the severity is zero
/// exactly when there is no violation and never exceeds 2; and a text with no violation
/// comes back unchanged.
pub proof fn lemma_check_findings(cfg: VoiceFilterConfig, text: Seq<char>)
    ensures
        voice_check(cfg, text).1.0.len() == voice_check(cfg, text).1.1.len(),
        (voice_check(cfg, text).1.2 == 0) == (voice_check(cfg, text).1.0.len() == 0),
        voice_check(cfg, text).1.2 <= 2,
        voice_check(cfg, text).1.0.len() == 0 ==> voice_check(cfg, text).0 == text,
{
    let f0: Findings = (seq![], seq![], 0u8);
    let f1 = ai_vocabulary_layer(found_ai_phrases(cfg, text), f0);
    let m = regex_first_match(meta_pattern(), text);
    let s2 = meta_layer(text, m, f1);
    let s3 = if cfg.reject_multi_paragraph { paragraph_layer(s2.0, s2.1) } else { s2 };
    let g = regex_is_match(generic_question_pattern(), trim(s3.0));
    let s4 = if cfg.reject_trailing_questions { question_layer(s3.0, g, s3.1) } else { s3 };
    let s5 = if cfg.fix_em_dashes { dash_layer(s4.0, s4.1) } else { s4 };
    lemma_layers_monotone(cfg, text, f0, found_ai_phrases(cfg, text), m, false);
    lemma_layers_monotone(cfg, text, f1, seq![], m, false);
    lemma_layers_monotone(cfg, s2.0, s2.1, seq![], None, false);
    lemma_layers_monotone(cfg, s3.0, s3.1, seq![], None, g);
    lemma_layers_monotone(cfg, s4.0, s4.1, seq![], None, false);
    lemma_layers_monotone(cfg, s5.0, s5.1, seq![], None, false);
    assert(consistent(f0));
}

/// Replacing a one-character pattern by a text without that character leaves none of it.
proof fn lemma_replace_removes(s: Seq<char>, c: char, r: Seq<char>)
    requires
        !r.contains(c),
    ensures
        !replace_all(s, seq![c], r).contains(c),
    decreases s.len(),
{
    if s.len() >= 1 {
        let rest_hit = replace_all(s.subrange(1, s.len() as int), seq![c], r);
        let rest_miss = replace_all(s.drop_first(), seq![c], r);
        assert(s.subrange(1, s.len() as int) =~= s.drop_first());
        lemma_replace_removes(s.drop_first(), c, r);
        if s.subrange(0, 1) == seq![c] {
            assert forall|i: int| 0 <= i < (r + rest_hit).len() implies (r + rest_hit)[i] != c by {
                if i < r.len() {
                    assert((r + rest_hit)[i] == r[i]);
                } else {
                    assert((r + rest_hit)[i] == rest_hit[i - r.len()]);
                }
            }
        } else {
            assert(s[0] != c) by {
                if s[0] == c {
                    assert(s.subrange(0, 1) =~= seq![c]);
                }
            }
            assert forall|i: int| 0 <= i < (seq![s[0]] + rest_miss).len() implies (seq![s[0]]
                + rest_miss)[i] != c by {
                if i > 0 {
                    assert((seq![s[0]] + rest_miss)[i] == rest_miss[i - 1]);
                }
            }
        }
    }
}

proof fn lemma_slice_lacks(s: Seq<char>, c: char, a: int, b: int)
    requires
        !s.contains(c),
        0 <= a <= b <= s.len(),
    ensures
        !s.subrange(a, b).contains(c),
{
    assert forall|i: int| 0 <= i < b - a implies s.subrange(a, b)[i] != c by {
        assert(s.subrange(a, b)[i] == s[a + i]);
    }
}

proof fn lemma_trim_lacks(s: Seq<char>, c: char)
    requires
        !s.contains(c),
    ensures
        !trim(s).contains(c),
{
    let r = lemma_trim_split(s);
    lemma_slice_lacks(s, c, r.0, r.1);
}

/// The length layer only ever keeps a trimmed prefix of its text.
proof fn lemma_length_layer_lacks(cfg: VoiceFilterConfig, t: Seq<char>, f: Findings, c: char)
    requires
        !t.contains(c),
    ensures
        !length_layer(cfg, t, f).0.contains(c),
{
    if cfg.max_sentences > 0 && sentence_count(t) > cfg.max_sentences {
        let end = stop_cut(t, cfg.max_sentences as nat);
        if end > 0 && end < t.len() {
            lemma_slice_lacks(t, c, 0, end as int);
            lemma_trim_lacks(t.subrange(0, end as int), c);
        }
    }
}

/// With `fix_em_dashes` set, the cleaned text holds no em-dash.
pub proof fn lemma_no_em_dash(cfg: VoiceFilterConfig, text: Seq<char>)
    requires
        cfg.fix_em_dashes,
    ensures
        !voice_check(cfg, text).0.contains(em_dash()),
{
    let f0: Findings = (seq![], seq![], 0u8);
    let f1 = ai_vocabulary_layer(found_ai_phrases(cfg, text), f0);
    let s2 = meta_layer(text, regex_first_match(meta_pattern(), text), f1);
    let s3 = if cfg.reject_multi_paragraph { paragraph_layer(s2.0, s2.1) } else { s2 };
    let s4 = if cfg.reject_trailing_questions {
        question_layer(s3.0, regex_is_match(generic_question_pattern(), trim(s3.0)), s3.1)
    } else {
        s3
    };
    let t = s4.0;
    reveal_strlit("\u{2014}");
    reveal_strlit(". ");
    assert("\u{2014}"@ =~= seq![em_dash()]);
    if t.contains(em_dash()) || contains(t, " -- "@) {
        let d = replace_all(
            replace_all(
                replace_all(replace_all(t, " \u{2014} "@, ". "@), "\u{2014} "@, ". "@),
                " \u{2014}"@,
                ". "@,
            ),
            "\u{2014}"@,
            ". "@,
        );
        assert(!". "@.contains(em_dash())) by {
            assert(". "@ =~= seq!['.', ' ']);
        }
        lemma_replace_removes(
            replace_all(
                replace_all(replace_all(t, " \u{2014} "@, ". "@), "\u{2014} "@, ". "@),
                " \u{2014}"@,
                ". "@,
            ),
            em_dash(),
            ". "@,
        );
        reveal_strlit(" -- ");
        lemma_replace_keeps_out(d, " -- "@, ". "@, em_dash());
    }
    lemma_length_layer_lacks(cfg, dash_layer(t, s4.1).0, dash_layer(t, s4.1).1, em_dash());
}

/// Replacing a pattern by a text without `c` keeps `c` out when it was out.
proof fn lemma_replace_keeps_out(s: Seq<char>, p: Seq<char>, r: Seq<char>, c: char)
    requires
        !s.contains(c),
        !r.contains(c),
    ensures
        !replace_all(s, p, r).contains(c),
    decreases s.len(),
{
    if p.len() == 0 || s.len() < p.len() {
    } else if s.subrange(0, p.len() as int) == p {
        let tail = s.subrange(p.len() as int, s.len() as int);
        lemma_slice_lacks(s, c, p.len() as int, s.len() as int);
        lemma_replace_keeps_out(tail, p, r, c);
        let out = replace_all(tail, p, r);
        assert forall|i: int| 0 <= i < (r + out).len() implies (r + out)[i] != c by {
            if i < r.len() {
                assert((r + out)[i] == r[i]);
            } else {
                assert((r + out)[i] == out[i - r.len()]);
            }
        }
    } else {
        lemma_slice_lacks(s, c, 1, s.len() as int);
        assert(s.subrange(1, s.len() as int) =~= s.drop_first());
        lemma_replace_keeps_out(s.drop_first(), p, r, c);
        let out = replace_all(s.drop_first(), p, r);
        assert(s[0] != c) by {
            assert(s[0] == s[0]);
        }
        assert forall|i: int| 0 <= i < (seq![s[0]] + out).len() implies (seq![s[0]] + out)[i]
            != c by {
            if i > 0 {
                assert((seq![s[0]] + out)[i] == out[i - 1]);
            }
        }
    }
}

/// With a sentence limit set, the cleaned text has at most that many sentences.
pub proof fn lemma_sentence_limit(cfg: VoiceFilterConfig, text: Seq<char>)
    requires
        cfg.max_sentences > 0,
    ensures
        sentence_count(voice_check(cfg, text).0) <= cfg.max_sentences,
{
    let f0: Findings = (seq![], seq![], 0u8);
    let f1 = ai_vocabulary_layer(found_ai_phrases(cfg, text), f0);
    let s2 = meta_layer(text, regex_first_match(meta_pattern(), text), f1);
    let s3 = if cfg.reject_multi_paragraph { paragraph_layer(s2.0, s2.1) } else { s2 };
    let s4 = if cfg.reject_trailing_questions {
        question_layer(s3.0, regex_is_match(generic_question_pattern(), trim(s3.0)), s3.1)
    } else {
        s3
    };
    let s5 = if cfg.fix_em_dashes { dash_layer(s4.0, s4.1) } else { s4 };
    let t = s5.0;
    let max = cfg.max_sentences as nat;
    if sentence_count(t) > max {
        lemma_cut_scan(t, max);
        lemma_sentences_within_stops(t);
        let end = stop_cut(t, max);
        if end > 0 && end < t.len() {
            let x = t.subrange(0, end as int);
            assert(x.last() == t[end - 1]);
            lemma_trim_stops(x);
            lemma_sentences_within_stops(trim(x));
        } else if end == t.len() {
            assert(t.subrange(0, end as int) =~= t);
        }
    }
}

/// Text that holds no blank-line break.
pub open spec fn no_break(s: Seq<char>) -> bool {
    !contains(s, seq!['\n', '\n'])
}

proof fn lemma_slice_no_break(s: Seq<char>, a: int, b: int)
    requires
        no_break(s),
        0 <= a <= b <= s.len(),
    ensures
        no_break(s.subrange(a, b)),
{
    let p = seq!['\n', '\n'];
    if contains(s.subrange(a, b), p) {
        let i = choose|i: int| occurs_at(s.subrange(a, b), p, i);
        assert(s.subrange(a + i, a + i + 2) =~= s.subrange(a, b).subrange(i, i + 2));
        assert(occurs_at(s, p, a + i));
    }
}

proof fn lemma_trim_no_break(s: Seq<char>)
    requires
        no_break(s),
    ensures
        no_break(trim(s)),
{
    let r = lemma_trim_split(s);
    lemma_slice_no_break(s, r.0, r.1);
}

/// A text without a break, joined to one more character.
proof fn lemma_cons_no_break(c: char, rest: Seq<char>)
    requires
        no_break(rest),
        c == '\n' ==> rest.len() == 0 || rest[0] != '\n',
    ensures
        no_break(seq![c] + rest),
{
    let s = seq![c] + rest;
    let p = seq!['\n', '\n'];
    if contains(s, p) {
        let i = choose|i: int| occurs_at(s, p, i);
        if i == 0 {
            assert(s.subrange(0, 2)[0] == c);
            assert(s.subrange(0, 2)[1] == rest[0]);
        } else {
            assert(s.subrange(i, i + 2) =~= rest.subrange(i - 1, i + 1));
            assert(occurs_at(rest, p, i - 1));
        }
    }
}

/// A replacement text without newlines put in front of a text without a break.
proof fn lemma_prefix_no_break(r: Seq<char>, rest: Seq<char>)
    requires
        no_break(rest),
        !r.contains('\n'),
    ensures
        no_break(r + rest),
    decreases r.len(),
{
    if r.len() > 0 {
        lemma_prefix_no_break(r.drop_first(), rest);
        assert(r[0] != '\n');
        lemma_cons_no_break(r[0], r.drop_first() + rest);
        assert(seq![r[0]] + (r.drop_first() + rest) =~= r + rest);
    }
}

/// Replacing by a text without newlines, of a pattern without newlines, creates no break
/// and never starts with a newline unless the text did.
proof fn lemma_replace_no_break(s: Seq<char>, p: Seq<char>, r: Seq<char>)
    requires
        no_break(s),
        p.len() > 0,
        r.len() > 0,
        !r.contains('\n'),
    ensures
        no_break(replace_all(s, p, r)),
        replace_all(s, p, r).len() > 0 && replace_all(s, p, r)[0] == '\n' ==> s.len() > 0 && s[0] == '\n',
    decreases s.len(),
{
    if s.len() < p.len() {
    } else if s.subrange(0, p.len() as int) == p {
        let tail = s.subrange(p.len() as int, s.len() as int);
        lemma_slice_no_break(s, p.len() as int, s.len() as int);
        lemma_replace_no_break(tail, p, r);
        lemma_prefix_no_break(r, replace_all(tail, p, r));
        assert((r + replace_all(tail, p, r))[0] == r[0]);
    } else {
        let tail = s.drop_first();
        assert(tail =~= s.subrange(1, s.len() as int));
        lemma_slice_no_break(s, 1, s.len() as int);
        lemma_replace_no_break(tail, p, r);
        let out = replace_all(tail, p, r);
        if s[0] == '\n' && out.len() > 0 && out[0] == '\n' {
            assert(s.subrange(0, 2) =~= seq!['\n', '\n']);
            assert(occurs_at(s, seq!['\n', '\n'], 0));
        }
        lemma_cons_no_break(s[0], out);
        assert((seq![s[0]] + out)[0] == s[0]);
    }
}

/// Replacing every blank-line break by a space leaves no break.
proof fn lemma_join_paragraphs(s: Seq<char>)
    ensures
        no_break(replace_all(s, seq!['\n', '\n'], seq![' '])),
        replace_all(s, seq!['\n', '\n'], seq![' ']).len() > 0 && replace_all(s, seq!['\n', '\n'], seq![' '])[0]
            == '\n' ==> s.len() > 0 && s[0] == '\n' && (s.len() == 1 || s[1] != '\n'),
    decreases s.len(),
{
    let p = seq!['\n', '\n'];
    let r = seq![' '];
    if s.len() < 2 {
        if contains(s, p) {
            let i = choose|i: int| occurs_at(s, p, i);
        }
    } else if s.subrange(0, 2) == p {
        let tail = s.subrange(2, s.len() as int);
        lemma_join_paragraphs(tail);
        assert(!r.contains('\n')) by {
            assert(r[0] == ' ');
        }
        lemma_prefix_no_break(r, replace_all(tail, p, r));
        assert((r + replace_all(tail, p, r))[0] == ' ');
    } else {
        let tail = s.drop_first();
        lemma_join_paragraphs(tail);
        let out = replace_all(tail, p, r);
        if s[0] == '\n' && out.len() > 0 && out[0] == '\n' {
            assert(tail[0] == '\n');
            assert(s.subrange(0, 2) =~= p);
        }
        lemma_cons_no_break(s[0], out);
        assert((seq![s[0]] + out)[0] == s[0]);
        if s[0] == '\n' && (seq![s[0]] + out)[0] == '\n' {
            assert(s[1] != '\n') by {
                if s[1] == '\n' {
                    assert(s.subrange(0, 2) =~= p);
                }
            }
        }
    }
}

/// With `reject_multi_paragraph` set, the cleaned text holds no blank-line break.
pub proof fn lemma_single_paragraph(cfg: VoiceFilterConfig, text: Seq<char>)
    requires
        cfg.reject_multi_paragraph,
    ensures
        no_break(voice_check(cfg, text).0),
{
    reveal_strlit("\n\n");
    reveal_strlit(" ");
    assert("\n\n"@ =~= seq!['\n', '\n']);
    assert(" "@ =~= seq![' ']);
    let f0: Findings = (seq![], seq![], 0u8);
    let f1 = ai_vocabulary_layer(found_ai_phrases(cfg, text), f0);
    let s2 = meta_layer(text, regex_first_match(meta_pattern(), text), f1);
    let s3 = paragraph_layer(s2.0, s2.1);
    lemma_join_paragraphs(s2.0);
    if !contains(s2.0, "\n\n"@) {
        assert(s3.0 == s2.0);
    }
    let t3 = s3.0;
    assert(no_break(t3));
    let s4 = if cfg.reject_trailing_questions {
        question_layer(t3, regex_is_match(generic_question_pattern(), trim(t3)), s3.1)
    } else {
        s3
    };
    if cfg.reject_trailing_questions && ends_with_question(t3) {
        let t = trim(t3);
        lemma_trim_no_break(t3);
        match last_period_or_bang(t) {
            Some(pos) => {
                if sentence_count(t) > 1 {
                    lemma_last_period_in_range(t);
                    lemma_slice_no_break(t, 0, pos + 1 as int);
                    lemma_trim_no_break(t.subrange(0, pos + 1 as int));
                }
            },
            None => {},
        }
    }
    assert(no_break(s4.0));
    let t4 = s4.0;
    if cfg.fix_em_dashes && (t4.contains(em_dash()) || contains(t4, " -- "@)) {
        reveal_strlit(" \u{2014} ");
        reveal_strlit("\u{2014} ");
        reveal_strlit(" \u{2014}");
        reveal_strlit("\u{2014}");
        reveal_strlit(" -- ");
        reveal_strlit(". ");
        assert(!". "@.contains('\n')) by {
            assert(". "@ =~= seq!['.', ' ']);
        }
        let a = replace_all(t4, " \u{2014} "@, ". "@);
        lemma_replace_no_break(t4, " \u{2014} "@, ". "@);
        let b = replace_all(a, "\u{2014} "@, ". "@);
        lemma_replace_no_break(a, "\u{2014} "@, ". "@);
        let c = replace_all(b, " \u{2014}"@, ". "@);
        lemma_replace_no_break(b, " \u{2014}"@, ". "@);
        let d = replace_all(c, "\u{2014}"@, ". "@);
        lemma_replace_no_break(c, "\u{2014}"@, ". "@);
        lemma_replace_no_break(d, " -- "@, ". "@);
    }
    let s5 = if cfg.fix_em_dashes { dash_layer(t4, s4.1) } else { s4 };
    assert(no_break(s5.0));
    let t5 = s5.0;
    if cfg.max_sentences > 0 && sentence_count(t5) > cfg.max_sentences {
        let end = stop_cut(t5, cfg.max_sentences as nat);
        if end > 0 && end < t5.len() {
            lemma_slice_no_break(t5, 0, end as int);
            lemma_trim_no_break(t5.subrange(0, end as int));
        }
    }
}

// ---------------------------------------------------------------------------------------
// Implementation
// ---------------------------------------------------------------------------------------

/// The findings held by the three accumulators of a check.
pub open spec fn findings_of(violations: Seq<String>, hints: Seq<String>, severity: u8) -> Findings {
    (strings(violations), strings(hints), severity)
}

/// Records one violation with its hint and raises the severity to at least `level`.
fn flag(
    violations: &mut Vec<String>,
    hints: &mut Vec<String>,
    severity: &mut u8,
    violation: String,
    hint: String,
    level: u8,
)
    ensures
        findings_of(final(violations)@, final(hints)@, *final(severity)) == flagged(
            findings_of(old(violations)@, old(hints)@, *old(severity)),
            violation@,
            hint@,
            level,
        ),
{
    let ghost v0 = old(violations)@;
    let ghost h0 = old(hints)@;
    let ghost vv = violation@;
    let ghost hv = hint@;
    violations.push(violation);
    hints.push(hint);
    if *severity < level {
        *severity = level;
    }
    assert(strings(violations@) =~= strings(v0).push(vv));
    assert(strings(hints@) =~= strings(h0).push(hv));
}

/// The built-in vocabulary, as string slices.
fn ai_vocabulary_list() -> (v: Vec<&'static str>)
    ensures
        v@.map_values(|p: &str| p@) == ai_vocabulary(),
{
    let v = vec![
        "it's important to note",
        "it's worth noting",
        "it is worth mentioning",
        "it bears mentioning",
        "it should be noted",
        "one could argue",
        "it remains to be seen",
        "furthermore",
        "moreover",
        "in conclusion",
        "in summary",
        "to summarize",
        "overall",
        "that being said",
        "having said that",
        "with that in mind",
        "moving forward",
        "going forward",
        "at the end of the day",
        "underscores",
        "highlights the",
        "sends a clear message",
        "raises important questions",
        "sheds light on",
        "the significance of",
        "a testament to",
        "multifaceted",
        "resonates with",
        "navigating",
        "landscape",
        "tapestry",
        "delve",
        "delving",
        "leveraging",
        "fostering",
        "paradigm",
        "synergy",
        "holistic",
        "nuanced",
        "robust",
        "comprehensive",
        "encompasses",
        "facilitating",
        "pivotal",
        "imperative",
        "paramount",
        "intricate",
        "dynamic",
        "realm",
        "let's break this down",
        "here's the thing",
        "here's why",
        "here's what you need to know",
        "the truth is",
        "the reality is",
        "the bottom line",
        "make no mistake",
        "in essence",
        "in other words",
        "simply put",
        "to put it simply",
        "needless to say",
        "as a matter of fact",
        "by and large",
        "for all intents and purposes",
    ];
    assert(v@.map_values(|p: &str| p@) =~= ai_vocabulary());
    v
}

/// Layer 1 on the lowercase text `lower`, where `extras_lower[i]` is the lowercase form
/// of `extras[i]`: records the built-in phrases and the extra phrases found.
pub fn report_ai_vocabulary(
    lower: &[char],
    extras: &Vec<String>,
    extras_lower: &Vec<Vec<char>>,
    violations: &mut Vec<String>,
    hints: &mut Vec<String>,
    severity: &mut u8,
)
    requires
        extras_lower@.len() == extras@.len(),
    ensures
        findings_of(final(violations)@, final(hints)@, *final(severity)) == ai_vocabulary_layer(
            matching_phrases(lower@, ai_vocabulary()) + matching_extras(
                lower@,
                strings(extras@),
                texts(extras_lower@),
            ),
            findings_of(old(violations)@, old(hints)@, *old(severity)),
        ),
{
    let list = ai_vocabulary_list();
    let ghost listv = ai_vocabulary();
    let mut found: Vec<Vec<char>> = Vec::new();
    let mut i: usize = 0;
    while i < list.len()
        invariant
            i <= list@.len(),
            list@.map_values(|p: &str| p@) == listv,
            texts(found@) == matching_phrases(lower@, listv.subrange(0, i as int)),
        decreases list@.len() - i,
    {
        let phrase = chars_of(list[i]);
        assert(listv.subrange(0, i + 1).drop_last() =~= listv.subrange(0, i as int));
        assert(listv[i as int] == list@[i as int]@);
        if contains_chars(lower, phrase.as_slice()) {
            let ghost f0 = texts(found@);
            let ghost pv = phrase@;
            found.push(phrase);
            assert(texts(found@) =~= f0.push(pv));
        }
        i += 1;
    }
    assert(listv.subrange(0, list@.len() as int) =~= listv);
    let ghost builtin = texts(found@);
    let ghost ex = strings(extras@);
    let ghost exl = texts(extras_lower@);
    let mut j: usize = 0;
    while j < extras.len()
        invariant
            j <= extras@.len(),
            extras_lower@.len() == extras@.len(),
            ex == strings(extras@),
            exl == texts(extras_lower@),
            texts(found@) == builtin + matching_extras(
                lower@,
                ex.subrange(0, j as int),
                exl.subrange(0, j as int),
            ),
        decreases extras@.len() - j,
    {
        assert(ex.subrange(0, j + 1).drop_last() =~= ex.subrange(0, j as int));
        assert(exl.subrange(0, j + 1).drop_last() =~= exl.subrange(0, j as int));
        if contains_chars(lower, extras_lower[j].as_slice()) {
            let phrase = chars_of_string(&extras[j]);
            let ghost f0 = texts(found@);
            let ghost pv = phrase@;
            found.push(phrase);
            assert(texts(found@) =~= f0.push(pv));
            assert(builtin + matching_extras(lower@, ex.subrange(0, j + 1), exl.subrange(0, j + 1))
                =~= (builtin + matching_extras(lower@, ex.subrange(0, j as int), exl.subrange(0, j as int))).push(pv));
        } else {
            assert(builtin + matching_extras(lower@, ex.subrange(0, j + 1), exl.subrange(0, j + 1))
                =~= builtin + matching_extras(lower@, ex.subrange(0, j as int), exl.subrange(0, j as int)));
        }
        j += 1;
    }
    assert(ex.subrange(0, extras@.len() as int) =~= ex);
    assert(exl.subrange(0, extras@.len() as int) =~= exl);
    if found.len() > 0 {
        let mut msg: Vec<char> = Vec::new();
        push_str(&mut msg, "AI vocabulary detected: ");
        let sep = chars_of(", ");
        let joined = join_chars(&found, sep.as_slice());
        push_all(&mut msg, joined.as_slice());
        flag(
            violations,
            hints,
            severity,
            string_of(msg.as_slice()),
            "DO NOT use formal/academic language. Write like a person texting, not an analyst.".to_owned(),
            2,
        );
    }
}

/// The text that follows a meta-commentary opener ending at byte offset `end`, without
/// leading whitespace.
pub fn opener_rest(text: &[char], end: usize) -> (res: Vec<char>)
    ensures
        res@ == after_opener(text@, end as nat),
{
    let k = char_offset_of(text, end);
    let tail = copy_range(text, k, text.len());
    let t = leading_ws_end(tail.as_slice());
    copy_range(tail.as_slice(), t, tail.len())
}

/// `rest` with its first character replaced by `upper` (its uppercase form).
pub fn capitalize_with(rest: &[char], upper: &[char]) -> (res: Vec<char>)
    ensures
        res@ == capitalized(rest@, upper@),
{
    if rest.len() == 0 {
        return copy_range(rest, 0, 0);
    }
    let mut out = copy_range(upper, 0, upper.len());
    let tail = copy_range(rest, 1, rest.len());
    push_all(&mut out, tail.as_slice());
    assert(upper@.subrange(0, upper@.len() as int) =~= upper@);
    assert(rest@.subrange(1, rest@.len() as int) =~= rest@.drop_first());
    out
}

/// Layer 4 on `text`, where `generic` tells whether the trimmed text matches the
/// generic-question pattern.
pub fn settle_trailing_question(
    text: &[char],
    generic: bool,
    violations: &mut Vec<String>,
    hints: &mut Vec<String>,
    severity: &mut u8,
) -> (res: Vec<char>)
    ensures
        (res@, findings_of(final(violations)@, final(hints)@, *final(severity))) == question_layer(
            text@,
            generic,
            findings_of(old(violations)@, old(hints)@, *old(severity)),
        ),
{
    let t = trim_chars(text);
    if !(t.len() > 0 && t[t.len() - 1] == '?') {
        return copy_range(text, 0, text.len());
    }
    flag(
        violations,
        hints,
        severity,
        "Trailing question detected".to_owned(),
        "Do NOT end with ANY question. No 'How will...?'. Just state your take and STOP.".to_owned(),
        if generic { 2 } else { 1 },
    );
    match find_last_period_or_bang(t.as_slice()) {
        Some(pos) => {
            if count_sentences(t.as_slice()) > 1 {
                let head = copy_range(t.as_slice(), 0, pos + 1);
                trim_chars(head.as_slice())
            } else {
                copy_range(text, 0, text.len())
            }
        },
        None => copy_range(text, 0, text.len()),
    }
}

impl VoiceFilter {
    /// The configuration the filter was made with.
    pub closed spec fn config(&self) -> VoiceFilterConfig {
        self.config
    }

    /// Create a new voice filter with the given configuration.
    pub fn new(config: VoiceFilterConfig) -> (f: Self)
        ensures
            f.config() == config,
    {
        VoiceFilter { config }
    }

    fn check_ai_vocabulary(
        &self,
        text: &[char],
        violations: &mut Vec<String>,
        hints: &mut Vec<String>,
        severity: &mut u8,
    )
        ensures
            findings_of(final(violations)@, final(hints)@, *final(severity)) == ai_vocabulary_layer(
                found_ai_phrases(self.config, text@),
                findings_of(old(violations)@, old(hints)@, *old(severity)),
            ),
    {
        let lower = lowercase_chars(text);
        let extras = &self.config.extra_ai_phrases;
        let mut extras_lower: Vec<Vec<char>> = Vec::new();
        let ghost ex = strings(extras@);
        let mut j: usize = 0;
        while j < extras.len()
            invariant
                j <= extras@.len(),
                ex == strings(extras@),
                texts(extras_lower@) == lowercase_all(ex.subrange(0, j as int)),
            decreases extras@.len() - j,
        {
            let s = to_lowercase_string(&extras[j]);
            let ghost e0 = texts(extras_lower@);
            let ghost sv = s@;
            extras_lower.push(s);
            assert(texts(extras_lower@) =~= e0.push(sv));
            assert(lowercase_all(ex.subrange(0, j + 1)) =~= lowercase_all(ex.subrange(0, j as int)).push(lowercase(ex[j as int])));
            j += 1;
        }
        assert(ex.subrange(0, extras@.len() as int) =~= ex);
        report_ai_vocabulary(lower.as_slice(), extras, &extras_lower, violations, hints, severity);
    }

    fn check_meta_commentary(
        &self,
        text: &[char],
        violations: &mut Vec<String>,
        hints: &mut Vec<String>,
        severity: &mut u8,
    ) -> (res: Vec<char>)
        ensures
            (res@, findings_of(final(violations)@, final(hints)@, *final(severity))) == meta_layer(
                text@,
                regex_first_match(meta_pattern(), text@),
                findings_of(old(violations)@, old(hints)@, *old(severity)),
            ),
    {
        let hay = string_of(text);
        let found = regex_find(
            "(?i)^(the|this)\\s+(tweet|post|article|comment|message|text|statement|piece|thread|response)\\s+(highlights?|shows?|discusses?|suggests?|raises?|mentions?|points?\\s+out|illustrates?|demonstrates?|reveals?|underscores?|emphasizes?|captures?)",
            hay.as_str(),
        );
        match found {
            Some(m) => {
                flag(
                    violations,
                    hints,
                    severity,
                    "Meta-commentary opener detected".to_owned(),
                    "Talk TO the person, not ABOUT their text. No 'The post shows...' \u{2014} state your take directly.".to_owned(),
                    2,
                );
                let rest = opener_rest(text, m.1);
                if rest.len() > 0 {
                    let upper = char_to_uppercase(rest[0]);
                    capitalize_with(rest.as_slice(), upper.as_slice())
                } else {
                    rest
                }
            },
            None => copy_range(text, 0, text.len()),
        }
    }

    fn check_multi_paragraph(
        &self,
        text: &[char],
        violations: &mut Vec<String>,
        hints: &mut Vec<String>,
        severity: &mut u8,
    ) -> (res: Vec<char>)
        ensures
            (res@, findings_of(final(violations)@, final(hints)@, *final(severity))) == paragraph_layer(
                text@,
                findings_of(old(violations)@, old(hints)@, *old(severity)),
            ),
    {
        let breaks = chars_of("\n\n");
        if contains_chars(text, breaks.as_slice()) {
            flag(
                violations,
                hints,
                severity,
                "Multi-paragraph structure detected".to_owned(),
                "ONE paragraph only. 1-2 sentences. That's it.".to_owned(),
                2,
            );
            let space = chars_of(" ");
            proof {
                reveal_strlit("\n\n");
            }
            replace_chars(text, breaks.as_slice(), space.as_slice())
        } else {
            copy_range(text, 0, text.len())
        }
    }

    fn check_trailing_questions(
        &self,
        text: &[char],
        violations: &mut Vec<String>,
        hints: &mut Vec<String>,
        severity: &mut u8,
    ) -> (res: Vec<char>)
        ensures
            (res@, findings_of(final(violations)@, final(hints)@, *final(severity))) == question_layer(
                text@,
                regex_is_match(generic_question_pattern(), trim(text@)),
                findings_of(old(violations)@, old(hints)@, *old(severity)),
            ),
    {
        let t = trim_chars(text);
        if !(t.len() > 0 && t[t.len() - 1] == '?') {
            return copy_range(text, 0, text.len());
        }
        let hay = string_of(t.as_slice());
        let generic = regex_matches(
            "(?i)(how will|what does|what do you|thoughts\\??|wouldn't you|don't you think|isn't it|right\\?)\\s*$",
            hay.as_str(),
        );
        settle_trailing_question(text, generic, violations, hints, severity)
    }

    fn check_em_dashes(
        &self,
        text: &[char],
        violations: &mut Vec<String>,
        hints: &mut Vec<String>,
        severity: &mut u8,
    ) -> (res: Vec<char>)
        ensures
            (res@, findings_of(final(violations)@, final(hints)@, *final(severity))) == dash_layer(
                text@,
                findings_of(old(violations)@, old(hints)@, *old(severity)),
            ),
    {
        let spaced = chars_of(" -- ");
        if has_char(text, '\u{2014}') || contains_chars(text, spaced.as_slice()) {
            flag(
                violations,
                hints,
                severity,
                "Em-dash usage detected".to_owned(),
                "No em-dashes. Use periods instead.".to_owned(),
                1,
            );
            let stop = chars_of(". ");
            let p1 = chars_of(" \u{2014} ");
            let p2 = chars_of("\u{2014} ");
            let p3 = chars_of(" \u{2014}");
            let p4 = chars_of("\u{2014}");
            proof {
                reveal_strlit(" \u{2014} ");
                reveal_strlit("\u{2014} ");
                reveal_strlit(" \u{2014}");
                reveal_strlit("\u{2014}");
                reveal_strlit(" -- ");
            }
            let a = replace_chars(text, p1.as_slice(), stop.as_slice());
            let b = replace_chars(a.as_slice(), p2.as_slice(), stop.as_slice());
            let c = replace_chars(b.as_slice(), p3.as_slice(), stop.as_slice());
            let d = replace_chars(c.as_slice(), p4.as_slice(), stop.as_slice());
            replace_chars(d.as_slice(), spaced.as_slice(), stop.as_slice())
        } else {
            copy_range(text, 0, text.len())
        }
    }

    fn check_length(
        &self,
        text: &[char],
        violations: &mut Vec<String>,
        hints: &mut Vec<String>,
        severity: &mut u8,
    ) -> (res: Vec<char>)
        ensures
            (res@, findings_of(final(violations)@, final(hints)@, *final(severity))) == length_layer(
                self.config,
                text@,
                findings_of(old(violations)@, old(hints)@, *old(severity)),
            ),
    {
        let max_chars = self.config.max_chars;
        let max_sentences = self.config.max_sentences;
        if max_chars > 0 {
            let len = text.len() as u128;
            if len > max_chars as u128 {
                let mut msg: Vec<char> = Vec::new();
                push_str(&mut msg, "Text exceeds ");
                let a = decimal_chars(max_chars as u128);
                push_all(&mut msg, a.as_slice());
                push_str(&mut msg, " char limit (");
                let b = decimal_chars(len);
                push_all(&mut msg, b.as_slice());
                push_str(&mut msg, " chars)");
                flag(
                    violations,
                    hints,
                    severity,
                    string_of(msg.as_slice()),
                    "SHORTER. Be more concise.".to_owned(),
                    1,
                );
            }
        }
        if max_sentences > 0 {
            let n = count_sentences(text);
            if n > max_sentences {
                let mut msg: Vec<char> = Vec::new();
                push_str(&mut msg, "Text has ");
                let a = decimal_chars(n as u128);
                push_all(&mut msg, a.as_slice());
                push_str(&mut msg, " sentences (max ");
                let b = decimal_chars(max_sentences as u128);
                push_all(&mut msg, b.as_slice());
                push_str(&mut msg, ")");
                let mut hint: Vec<char> = Vec::new();
                push_str(&mut hint, "Max ");
                push_all(&mut hint, b.as_slice());
                push_str(&mut hint, " sentences. Cut the rest.");
                flag(
                    violations,
                    hints,
                    severity,
                    string_of(msg.as_slice()),
                    string_of(hint.as_slice()),
                    1,
                );
                let end = stop_cut_index(text, max_sentences);
                if end > 0 && end < text.len() {
                    let head = copy_range(text, 0, end);
                    return trim_chars(head.as_slice());
                }
            }
        }
        copy_range(text, 0, text.len())
    }

    /// Check text for machine-sounding patterns.
    ///
    /// Returns a result with violations, cleaned text, and retry hints.
    pub fn check(&self, text: &str) -> (r: VoiceCheckResult)
        ensures
            r.cleaned@ == voice_check(self.config(), text@).0,
            strings(r.violations@) == voice_check(self.config(), text@).1.0,
            strings(r.retry_hints@) == voice_check(self.config(), text@).1.1,
            r.severity == voice_check(self.config(), text@).1.2,
            r.passed == (r.severity < 2),
    {
        let original = chars_of(text);
        let mut violations: Vec<String> = Vec::new();
        let mut hints: Vec<String> = Vec::new();
        let mut severity: u8 = 0;
        assert(findings_of(violations@, hints@, severity) =~= (seq![], seq![], 0u8));
        self.check_ai_vocabulary(original.as_slice(), &mut violations, &mut hints, &mut severity);
        let mut cleaned = self.check_meta_commentary(
            original.as_slice(),
            &mut violations,
            &mut hints,
            &mut severity,
        );
        if self.config.reject_multi_paragraph {
            cleaned = self.check_multi_paragraph(
                cleaned.as_slice(),
                &mut violations,
                &mut hints,
                &mut severity,
            );
        }
        if self.config.reject_trailing_questions {
            cleaned = self.check_trailing_questions(
                cleaned.as_slice(),
                &mut violations,
                &mut hints,
                &mut severity,
            );
        }
        if self.config.fix_em_dashes {
            cleaned = self.check_em_dashes(
                cleaned.as_slice(),
                &mut violations,
                &mut hints,
                &mut severity,
            );
        }
        cleaned = self.check_length(cleaned.as_slice(), &mut violations, &mut hints, &mut severity);
        VoiceCheckResult {
            passed: severity < 2,
            cleaned: string_of(cleaned.as_slice()),
            violations,
            severity,
            retry_hints: hints,
        }
    }
}

/// `f1` keeps every finding of `f0`, in order, and at least its severity.
pub open spec fn extends(f0: Findings, f1: Findings) -> bool {
    &&& f1.0.len() >= f0.0.len()
    &&& f1.0.subrange(0, f0.0.len() as int) == f0.0
    &&& f1.2 >= f0.2
}

proof fn lemma_flagged_extends(f: Findings, v: Seq<char>, h: Seq<char>, level: u8)
    ensures
        extends(f, flagged(f, v, h, level)),
        flagged(f, v, h, level).2 >= level,
{
    assert(f.0.push(v).subrange(0, f.0.len() as int) =~= f.0);
}

proof fn lemma_extends_trans(a: Findings, b: Findings, c: Findings)
    requires
        extends(a, b),
        extends(b, c),
    ensures
        extends(a, c),
{
    assert(c.0.subrange(0, a.0.len() as int) =~= c.0.subrange(0, b.0.len() as int).subrange(0, a.0.len() as int));
}

proof fn lemma_extends_refl(a: Findings)
    ensures
        extends(a, a),
{
    assert(a.0.subrange(0, a.0.len() as int) =~= a.0);
}

/// Every layer after the first keeps the findings it is given and never lowers severity.
proof fn lemma_later_layers_extend(cfg: VoiceFilterConfig, t: Seq<char>, f: Findings, m: Option<(nat, nat)>, g: bool)
    ensures
        extends(f, meta_layer(t, m, f).1),
        extends(f, paragraph_layer(t, f).1),
        extends(f, question_layer(t, g, f).1),
        extends(f, dash_layer(t, f).1),
        extends(f, length_layer(cfg, t, f).1),
{
    lemma_extends_refl(f);
    lemma_flagged_extends(f, "Meta-commentary opener detected"@, "Talk TO the person, not ABOUT their text. No 'The post shows...' \u{2014} state your take directly."@, 2);
    lemma_flagged_extends(f, "Multi-paragraph structure detected"@, "ONE paragraph only. 1-2 sentences. That's it."@, 2);
    lemma_flagged_extends(
        f,
        "Trailing question detected"@,
        "Do NOT end with ANY question. No 'How will...?'. Just state your take and STOP."@,
        if g { 2u8 } else { 1u8 },
    );
    lemma_flagged_extends(f, "Em-dash usage detected"@, "No em-dashes. Use periods instead."@, 1);
    let f1 = if cfg.max_chars > 0 && t.len() > cfg.max_chars {
        flagged(
            f,
            "Text exceeds "@ + decimal(cfg.max_chars as nat) + " char limit ("@ + decimal(t.len()) + " chars)"@,
            "SHORTER. Be more concise."@,
            1,
        )
    } else {
        f
    };
    lemma_flagged_extends(
        f,
        "Text exceeds "@ + decimal(cfg.max_chars as nat) + " char limit ("@ + decimal(t.len()) + " chars)"@,
        "SHORTER. Be more concise."@,
        1,
    );
    let v2 = "Text has "@ + decimal(sentence_count(t)) + " sentences (max "@ + decimal(cfg.max_sentences as nat)
        + ")"@;
    let h2 = "Max "@ + decimal(cfg.max_sentences as nat) + " sentences. Cut the rest."@;
    lemma_flagged_extends(f1, v2, h2, 1);
    lemma_extends_trans(f, f1, flagged(f1, v2, h2, 1));
}

/// The vocabulary phrases reported are, in order, the built-in phrases that occur in the
/// lowercase text followed by the configured extra phrases whose lowercase form occurs in
/// it.
pub proof fn lemma_found_phrases_are_occurring(cfg: VoiceFilterConfig, text: Seq<char>)
    ensures
        found_ai_phrases(cfg, text) == ai_vocabulary().filter(|w: Seq<char>| contains(lowercase(text), w))
            + strings(cfg.extra_ai_phrases@).filter(|x: Seq<char>| contains(lowercase(text), lowercase(x))),
{
    lemma_matching_phrases_filter(lowercase(text), ai_vocabulary());
    lemma_matching_extras_filter(lowercase(text), strings(cfg.extra_ai_phrases@));
}

proof fn lemma_matching_phrases_filter(lower: Seq<char>, list: Seq<Seq<char>>)
    ensures
        matching_phrases(lower, list) == list.filter(|w: Seq<char>| contains(lower, w)),
    decreases list.len(),
{
    reveal(Seq::filter);
    if list.len() > 0 {
        lemma_matching_phrases_filter(lower, list.drop_last());
    }
}

proof fn lemma_matching_extras_filter(lower: Seq<char>, extras: Seq<Seq<char>>)
    ensures
        matching_extras(lower, extras, lowercase_all(extras)) == extras.filter(
            |x: Seq<char>| contains(lower, lowercase(x)),
        ),
    decreases extras.len(),
{
    reveal(Seq::filter);
    if extras.len() > 0 {
        lemma_matching_extras_filter(lower, extras.drop_last());
        assert(lowercase_all(extras).drop_last() =~= lowercase_all(extras.drop_last()));
        assert(lowercase_all(extras)[extras.len() - 1] == lowercase(extras.last()));
    }
}

/// A text in which some built-in vocabulary phrase occurs (in lowercase) fails the filter:
/// its first violation reports the vocabulary found, and its severity is at least 2.
pub proof fn lemma_vocabulary_fails(cfg: VoiceFilterConfig, text: Seq<char>, w: Seq<char>)
    requires
        ai_vocabulary().contains(w),
        contains(lowercase(text), w),
    ensures
        voice_check(cfg, text).1.2 >= 2,
        voice_check(cfg, text).1.0.len() >= 1,
        voice_check(cfg, text).1.0[0] == "AI vocabulary detected: "@ + join(found_ai_phrases(cfg, text), ", "@),
{
    let found = found_ai_phrases(cfg, text);
    lemma_found_phrases_are_occurring(cfg, text);
    let pred = |x: Seq<char>| contains(lowercase(text), x);
    let k = choose|k: int| 0 <= k < ai_vocabulary().len() && ai_vocabulary()[k] == w;
    assert(pred(w));
    ai_vocabulary().lemma_filter_contains_rev(pred, w);
    assert(ai_vocabulary().filter(pred).contains(w));
    assert(ai_vocabulary().filter(pred).len() > 0);
    assert(found.len() > 0);
    let f0: Findings = (seq![], seq![], 0u8);
    let v = "AI vocabulary detected: "@ + join(found, ", "@);
    let h = "DO NOT use formal/academic language. Write like a person texting, not an analyst."@;
    let f1 = ai_vocabulary_layer(found, f0);
    assert(f1 == flagged(f0, v, h, 2));
    lemma_flagged_extends(f0, v, h, 2);
    let m = regex_first_match(meta_pattern(), text);
    let s2 = meta_layer(text, m, f1);
    let s3 = if cfg.reject_multi_paragraph { paragraph_layer(s2.0, s2.1) } else { s2 };
    let g = regex_is_match(generic_question_pattern(), trim(s3.0));
    let s4 = if cfg.reject_trailing_questions { question_layer(s3.0, g, s3.1) } else { s3 };
    let s5 = if cfg.fix_em_dashes { dash_layer(s4.0, s4.1) } else { s4 };
    lemma_later_layers_extend(cfg, text, f1, m, false);
    lemma_later_layers_extend(cfg, s2.0, s2.1, None, false);
    lemma_later_layers_extend(cfg, s3.0, s3.1, None, g);
    lemma_later_layers_extend(cfg, s4.0, s4.1, None, false);
    lemma_later_layers_extend(cfg, s5.0, s5.1, None, false);
    lemma_extends_refl(s2.1);
    lemma_extends_refl(s3.1);
    lemma_extends_refl(s4.1);
    lemma_extends_trans(f1, s2.1, s3.1);
    lemma_extends_trans(f1, s3.1, s4.1);
    lemma_extends_trans(f1, s4.1, s5.1);
    lemma_extends_trans(f1, s5.1, length_layer(cfg, s5.0, s5.1).1);
    let r = voice_check(cfg, text).1;
    assert(r == length_layer(cfg, s5.0, s5.1).1);
    assert(r.0.subrange(0, 1)[0] == r.0[0]);
    assert(f1.0 =~= seq![v]);
}

} // verus!
