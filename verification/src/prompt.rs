//! Compile a persona into a compact prompt block for any language model.

use vstd::prelude::*;
use crate::model::{DnaPhrase, Persona};
use crate::text::{
    contains, occurs_at, digit, chars_of, chars_of_string, decimal, decimal_chars, join, join_chars, push_all, push_str,
    same_chars, string_of, strings, texts,
};

verus! {

/// `sections` with `section` appended when `cond` holds.
pub open spec fn push_if(sections: Seq<Seq<char>>, cond: bool, section: Seq<char>) -> Seq<Seq<char>> {
    if cond {
        sections.push(section)
    } else {
        sections
    }
}

/// The phrases of confirmed voice DNA entries.
pub open spec fn dna_texts(dna: Seq<DnaPhrase>) -> Seq<Seq<char>> {
    dna.map_values(|d: DnaPhrase| d.phrase@)
}

/// Each example as a list item.
pub open spec fn example_items(examples: Seq<Seq<char>>) -> Seq<Seq<char>> {
    examples.map_values(|e: Seq<char>| "- "@ + e)
}

/// The opening section: the voice DNA header and the voice summary.
pub open spec fn voice_head(p: Persona) -> Seq<char> {
    "--- VOICE DNA (highest priority) ---\n"@ + p.voice.voice_summary@
}

/// The confirmed phrases, quoted.
pub open spec fn dna_line(p: Persona) -> Seq<char> {
    "VOICE DNA (phrases confirmed by repeated use): \""@ + join(dna_texts(p.voice.voice_dna@), "\", \""@)
        + "\""@
}

/// The bio line.
pub open spec fn who_line(p: Persona) -> Seq<char> {
    "WHO YOU ARE: "@ + p.identity.bio@
}

/// The perspective line.
pub open spec fn perspective_line(p: Persona) -> Seq<char> {
    "PERSPECTIVE: "@ + p.identity.perspective@
}

/// The tone words and writing style.
pub open spec fn voice_line(p: Persona) -> Seq<char> {
    "YOUR VOICE: "@ + join(strings(p.voice.tone_words@), ", "@) + ". "@ + p.voice.writing_style@
}

/// A humor style is given (other than "none detected").
pub open spec fn shows_humor(p: Persona) -> bool {
    p.voice.humor_style@ != "none detected"@ && p.voice.humor_style@.len() > 0
}

/// The humor line.
pub open spec fn humor_line(p: Persona) -> Seq<char> {
    "HUMOR: "@ + p.voice.humor_style@
}

/// The emotional range line.
pub open spec fn emotion_line(p: Persona) -> Seq<char> {
    "EMOTION: "@ + p.voice.emotional_range@
}

/// The punctuation line.
pub open spec fn punctuation_line(p: Persona) -> Seq<char> {
    "PUNCTUATION: "@ + p.voice.punctuation_style@
}

/// The expertise line.
pub open spec fn expertise_line(p: Persona) -> Seq<char> {
    "EXPERTISE: "@ + join(strings(p.identity.expertise@), ", "@)
}

/// The style reference: one list item per example.
pub open spec fn style_section(p: Persona) -> Seq<char> {
    "STYLE REFERENCE (never copy, match this energy):\n"@ + join(
        example_items(strings(p.voice.examples@)),
        "\n"@,
    )
}

/// The banned words line.
pub open spec fn banned_words_line(p: Persona) -> Seq<char> {
    "BANNED WORDS (never use): "@ + join(strings(p.rules.banned_words@), ", "@)
}

/// The banned patterns line.
pub open spec fn banned_patterns_line(p: Persona) -> Seq<char> {
    "BANNED PATTERNS (never write): "@ + join(strings(p.rules.banned_patterns@), ", "@)
}

/// A sentence limit from 1 to 99 is set.
pub open spec fn shows_max_length(p: Persona) -> bool {
    p.rules.max_sentences > 0 && p.rules.max_sentences < 100
}

/// The length limits line.
pub open spec fn max_length_line(p: Persona) -> Seq<char> {
    "MAX LENGTH: "@ + decimal(p.rules.max_sentences as nat) + " sentences, "@ + decimal(
        p.rules.max_chars as nat,
    ) + " characters"@
}

/// The sections of the prompt for `p`, in order.
pub open spec fn persona_sections(p: Persona) -> Seq<Seq<char>> {
    let s2 = push_if(seq![voice_head(p)], p.voice.voice_dna@.len() > 0, dna_line(p));
    let s3 = s2.push("---"@);
    let s4 = push_if(s3, p.identity.bio@.len() > 0, who_line(p));
    let s5 = push_if(s4, p.identity.perspective@.len() > 0, perspective_line(p));
    let s6 = s5.push(voice_line(p));
    let s7 = push_if(s6, shows_humor(p), humor_line(p));
    let s8 = push_if(s7, p.voice.emotional_range@.len() > 0, emotion_line(p));
    let s9 = push_if(s8, p.voice.punctuation_style@.len() > 0, punctuation_line(p));
    let s10 = push_if(s9, p.identity.expertise@.len() > 0, expertise_line(p));
    let s11 = push_if(s10, p.voice.examples@.len() > 0, style_section(p));
    let s12 = push_if(s11, p.rules.banned_words@.len() > 0, banned_words_line(p));
    let s13 = push_if(s12, p.rules.banned_patterns@.len() > 0, banned_patterns_line(p));
    push_if(s13, shows_max_length(p), max_length_line(p))
}

/// The prompt block for `p`: its sections separated by blank lines.
pub open spec fn compiled_persona(p: Persona) -> Seq<char> {
    join(persona_sections(p), "\n\n"@)
}

proof fn lemma_join_starts(parts: Seq<Seq<char>>, sep: Seq<char>)
    requires
        parts.len() > 0,
    ensures
        join(parts, sep).len() >= parts[0].len(),
        join(parts, sep).subrange(0, parts[0].len() as int) == parts[0],
    decreases parts.len(),
{
    if parts.len() > 1 {
        lemma_join_starts(parts.drop_last(), sep);
        let j = join(parts.drop_last(), sep);
        assert((j + sep + parts.last()).subrange(0, parts[0].len() as int) =~= j.subrange(
            0,
            parts[0].len() as int,
        ));
    } else {
        assert(join(parts, sep).subrange(0, parts[0].len() as int) =~= parts[0]);
    }
}

/// Every compiled prompt opens with the voice DNA header followed by the voice summary.
#[verifier::spinoff_prover]
#[verifier::rlimit(60)]
pub proof fn lemma_prompt_opens_with_voice(p: Persona)
    ensures
        ({
            let head = "--- VOICE DNA (highest priority) ---\n"@ + p.voice.voice_summary@;
            &&& compiled_persona(p).len() >= head.len()
            &&& compiled_persona(p).subrange(0, head.len() as int) == head
        }),
{
    let secs = persona_sections(p);
    assert(secs[0] == "--- VOICE DNA (highest priority) ---\n"@ + p.voice.voice_summary@);
    lemma_join_starts(secs, "\n\n"@);
}

/// `t` starts with `l`.
pub open spec fn has_prefix(t: Seq<char>, l: Seq<char>) -> bool {
    l.len() <= t.len() && t.subrange(0, l.len() as int) == l
}

/// Some text of `s` starts with `l`.
pub open spec fn any_prefixed(s: Seq<Seq<char>>, l: Seq<char>) -> bool {
    exists|i: int| 0 <= i < s.len() && has_prefix(#[trigger] s[i], l)
}

/// The prompt for `p` has a section that starts with `label`.
pub open spec fn has_section(p: Persona, label: Seq<char>) -> bool {
    any_prefixed(persona_sections(p), label)
}

proof fn lemma_push_prefixed(s: Seq<Seq<char>>, x: Seq<char>, l: Seq<char>)
    ensures
        any_prefixed(s.push(x), l) <==> any_prefixed(s, l) || has_prefix(x, l),
{
    if any_prefixed(s, l) {
        let i = choose|i: int| 0 <= i < s.len() && has_prefix(#[trigger] s[i], l);
        assert(s.push(x)[i] == s[i]);
    }
    if has_prefix(x, l) {
        assert(s.push(x)[s.len() as int] == x);
    }
    if any_prefixed(s.push(x), l) {
        let i = choose|i: int| 0 <= i < s.push(x).len() && has_prefix(#[trigger] s.push(x)[i], l);
        if i < s.len() {
            assert(s.push(x)[i] == s[i]);
        }
    }
}

proof fn lemma_push_if_prefixed(s: Seq<Seq<char>>, c: bool, x: Seq<char>, l: Seq<char>)
    ensures
        any_prefixed(push_if(s, c, x), l) <==> any_prefixed(s, l) || (c && has_prefix(x, l)),
{
    if c {
        lemma_push_prefixed(s, x, l);
    }
}

/// A text whose first character differs from that of `l` does not start with `l`.
proof fn lemma_first_char_differs(t: Seq<char>, l: Seq<char>)
    requires
        l.len() > 0,
        t.len() > 0,
        t[0] != l[0],
    ensures
        !has_prefix(t, l),
{
    if has_prefix(t, l) {
        assert(t.subrange(0, l.len() as int)[0] == t[0]);
    }
}

/// A section starts with `l` exactly when one of the sections present does.
proof fn lemma_sections_prefixed(p: Persona, l: Seq<char>)
    ensures
        has_section(p, l) <==> {
            ||| has_prefix(voice_head(p), l)
            ||| (p.voice.voice_dna@.len() > 0 && has_prefix(dna_line(p), l))
            ||| has_prefix("---"@, l)
            ||| (p.identity.bio@.len() > 0 && has_prefix(who_line(p), l))
            ||| (p.identity.perspective@.len() > 0 && has_prefix(perspective_line(p), l))
            ||| has_prefix(voice_line(p), l)
            ||| (shows_humor(p) && has_prefix(humor_line(p), l))
            ||| (p.voice.emotional_range@.len() > 0 && has_prefix(emotion_line(p), l))
            ||| (p.voice.punctuation_style@.len() > 0 && has_prefix(punctuation_line(p), l))
            ||| (p.identity.expertise@.len() > 0 && has_prefix(expertise_line(p), l))
            ||| (p.voice.examples@.len() > 0 && has_prefix(style_section(p), l))
            ||| (p.rules.banned_words@.len() > 0 && has_prefix(banned_words_line(p), l))
            ||| (p.rules.banned_patterns@.len() > 0 && has_prefix(banned_patterns_line(p), l))
            ||| (shows_max_length(p) && has_prefix(max_length_line(p), l))
        },
{
    let s1 = seq![voice_head(p)];
    assert(s1 == Seq::<Seq<char>>::empty().push(voice_head(p)));
    lemma_push_prefixed(Seq::<Seq<char>>::empty(), voice_head(p), l);
    let s2 = push_if(s1, p.voice.voice_dna@.len() > 0, dna_line(p));
    lemma_push_if_prefixed(s1, p.voice.voice_dna@.len() > 0, dna_line(p), l);
    let s3 = s2.push("---"@);
    lemma_push_prefixed(s2, "---"@, l);
    let s4 = push_if(s3, p.identity.bio@.len() > 0, who_line(p));
    lemma_push_if_prefixed(s3, p.identity.bio@.len() > 0, who_line(p), l);
    let s5 = push_if(s4, p.identity.perspective@.len() > 0, perspective_line(p));
    lemma_push_if_prefixed(s4, p.identity.perspective@.len() > 0, perspective_line(p), l);
    let s6 = s5.push(voice_line(p));
    lemma_push_prefixed(s5, voice_line(p), l);
    let s7 = push_if(s6, shows_humor(p), humor_line(p));
    lemma_push_if_prefixed(s6, shows_humor(p), humor_line(p), l);
    let s8 = push_if(s7, p.voice.emotional_range@.len() > 0, emotion_line(p));
    lemma_push_if_prefixed(s7, p.voice.emotional_range@.len() > 0, emotion_line(p), l);
    let s9 = push_if(s8, p.voice.punctuation_style@.len() > 0, punctuation_line(p));
    lemma_push_if_prefixed(s8, p.voice.punctuation_style@.len() > 0, punctuation_line(p), l);
    let s10 = push_if(s9, p.identity.expertise@.len() > 0, expertise_line(p));
    lemma_push_if_prefixed(s9, p.identity.expertise@.len() > 0, expertise_line(p), l);
    let s11 = push_if(s10, p.voice.examples@.len() > 0, style_section(p));
    lemma_push_if_prefixed(s10, p.voice.examples@.len() > 0, style_section(p), l);
    let s12 = push_if(s11, p.rules.banned_words@.len() > 0, banned_words_line(p));
    lemma_push_if_prefixed(s11, p.rules.banned_words@.len() > 0, banned_words_line(p), l);
    let s13 = push_if(s12, p.rules.banned_patterns@.len() > 0, banned_patterns_line(p));
    lemma_push_if_prefixed(s12, p.rules.banned_patterns@.len() > 0, banned_patterns_line(p), l);
    lemma_push_if_prefixed(s13, shows_max_length(p), max_length_line(p), l);
    assert(!any_prefixed(Seq::<Seq<char>>::empty(), l));
    assert(persona_sections(p) == push_if(s13, shows_max_length(p), max_length_line(p)));
}

/// A label followed by a text starts with the label.
proof fn lemma_label_prefix(label: Seq<char>, rest: Seq<char>)
    ensures
        has_prefix(label + rest, label),
{
    assert((label + rest).subrange(0, label.len() as int) =~= label);
}

/// The first character of a label followed by a text.
proof fn lemma_label_first(label: Seq<char>, rest: Seq<char>)
    requires
        label.len() > 0,
    ensures
        (label + rest).len() > 0,
        (label + rest)[0] == label[0],
{
}

/// Each part of a join occurs in it.
proof fn lemma_join_has_part(parts: Seq<Seq<char>>, sep: Seq<char>, i: int)
    requires
        0 <= i < parts.len(),
    ensures
        contains(join(parts, sep), parts[i]),
    decreases parts.len(),
{
    if parts.len() == 1 {
        assert(join(parts, sep).subrange(0, parts[0].len() as int) =~= parts[0]);
        assert(occurs_at(join(parts, sep), parts[i], 0));
    } else {
        let j = join(parts.drop_last(), sep);
        if i == parts.len() - 1 {
            let off: int = (j.len() + sep.len()) as int;
            assert((j + sep + parts.last()).subrange(off, off + parts.last().len()) =~= parts.last());
            assert(occurs_at(join(parts, sep), parts[i], off));
        } else {
            lemma_join_has_part(parts.drop_last(), sep, i);
            assert(parts.drop_last()[i] == parts[i]);
            let off = choose|off: int| occurs_at(j, parts[i], off);
            assert((j + sep + parts.last()).subrange(off, off + parts[i].len()) =~= j.subrange(
                off,
                off + parts[i].len(),
            ));
            assert(occurs_at(join(parts, sep), parts[i], off));
        }
    }
}

/// A section that starts with `label` puts `label` into the prompt.
proof fn lemma_section_in_prompt(p: Persona, label: Seq<char>)
    requires
        has_section(p, label),
    ensures
        contains(compiled_persona(p), label),
{
    let secs = persona_sections(p);
    let i = choose|i: int| 0 <= i < secs.len() && has_prefix(#[trigger] secs[i], label);
    lemma_join_has_part(secs, "\n\n"@, i);
    let j = join(secs, "\n\n"@);
    let off = choose|off: int| occurs_at(j, secs[i], off);
    assert(j.subrange(off, off + label.len()) =~= secs[i].subrange(0, label.len() as int));
    assert(occurs_at(j, label, off));
}

/// The prompt has a humor section exactly when a humor style other than "none detected"
/// is given; a length section exactly when a sentence limit from 1 to 99 is set; a style
/// reference exactly when there are examples; and a bio line exactly when there is a bio.
/// Each section present puts its label into the prompt.
pub proof fn lemma_prompt_sections_present(p: Persona)
    ensures
        has_section(p, "HUMOR: "@) <==> shows_humor(p),
        has_section(p, "MAX LENGTH: "@) <==> shows_max_length(p),
        has_section(p, "STYLE REFERENCE"@) <==> p.voice.examples@.len() > 0,
        has_section(p, "WHO YOU ARE: "@) <==> p.identity.bio@.len() > 0,
        shows_humor(p) ==> contains(compiled_persona(p), "HUMOR: "@),
        shows_max_length(p) ==> contains(compiled_persona(p), "MAX LENGTH: "@),
        p.voice.examples@.len() > 0 ==> contains(compiled_persona(p), "STYLE REFERENCE"@),
        p.identity.bio@.len() > 0 ==> contains(compiled_persona(p), "WHO YOU ARE: "@),
{
    reveal_strlit("--- VOICE DNA (highest priority) ---\n");
    reveal_strlit("VOICE DNA (phrases confirmed by repeated use): \"");
    reveal_strlit("---");
    reveal_strlit("WHO YOU ARE: ");
    reveal_strlit("PERSPECTIVE: ");
    reveal_strlit("YOUR VOICE: ");
    reveal_strlit("HUMOR: ");
    reveal_strlit("EMOTION: ");
    reveal_strlit("PUNCTUATION: ");
    reveal_strlit("EXPERTISE: ");
    reveal_strlit("STYLE REFERENCE (never copy, match this energy):\n");
    reveal_strlit("STYLE REFERENCE");
    reveal_strlit("BANNED WORDS (never use): ");
    reveal_strlit("BANNED PATTERNS (never write): ");
    reveal_strlit("MAX LENGTH: ");
    let labels = seq!["HUMOR: "@, "MAX LENGTH: "@, "STYLE REFERENCE"@, "WHO YOU ARE: "@];
    let texts = seq![
        voice_head(p),
        dna_line(p),
        "---"@,
        who_line(p),
        perspective_line(p),
        voice_line(p),
        humor_line(p),
        emotion_line(p),
        punctuation_line(p),
        expertise_line(p),
        style_section(p),
        banned_words_line(p),
        banned_patterns_line(p),
        max_length_line(p),
    ];
    lemma_label_first("--- VOICE DNA (highest priority) ---\n"@, p.voice.voice_summary@);
    lemma_label_first(
        "VOICE DNA (phrases confirmed by repeated use): \""@,
        join(dna_texts(p.voice.voice_dna@), "\", \""@) + "\""@,
    );
    assert(dna_line(p) == "VOICE DNA (phrases confirmed by repeated use): \""@ + (join(
        dna_texts(p.voice.voice_dna@),
        "\", \""@,
    ) + "\""@));
    lemma_label_first("WHO YOU ARE: "@, p.identity.bio@);
    lemma_label_first("PERSPECTIVE: "@, p.identity.perspective@);
    lemma_label_first("YOUR VOICE: "@, join(strings(p.voice.tone_words@), ", "@) + ". "@ + p.voice.writing_style@);
    assert(voice_line(p) == "YOUR VOICE: "@ + (join(strings(p.voice.tone_words@), ", "@) + ". "@
        + p.voice.writing_style@));
    lemma_label_first("HUMOR: "@, p.voice.humor_style@);
    lemma_label_first("EMOTION: "@, p.voice.emotional_range@);
    lemma_label_first("PUNCTUATION: "@, p.voice.punctuation_style@);
    lemma_label_first("EXPERTISE: "@, join(strings(p.identity.expertise@), ", "@));
    lemma_label_first(
        "STYLE REFERENCE (never copy, match this energy):\n"@,
        join(example_items(strings(p.voice.examples@)), "\n"@),
    );
    lemma_label_first("BANNED WORDS (never use): "@, join(strings(p.rules.banned_words@), ", "@));
    lemma_label_first("BANNED PATTERNS (never write): "@, join(strings(p.rules.banned_patterns@), ", "@));
    let ml_rest = decimal(p.rules.max_sentences as nat) + " sentences, "@ + decimal(p.rules.max_chars as nat)
        + " characters"@;
    assert(max_length_line(p) == "MAX LENGTH: "@ + ml_rest);
    lemma_label_first("MAX LENGTH: "@, ml_rest);
    assert forall|a: int, b: int| 0 <= a < 4 && 0 <= b < 14 && (texts[b])[0] != (labels[a])[0] implies !has_prefix(
        #[trigger] texts[b],
        #[trigger] labels[a],
    ) by {
        lemma_first_char_differs(texts[b], labels[a]);
    }
    lemma_label_prefix("HUMOR: "@, p.voice.humor_style@);
    lemma_label_prefix("MAX LENGTH: "@, ml_rest);
    lemma_label_prefix("WHO YOU ARE: "@, p.identity.bio@);
    assert(has_prefix(style_section(p), "STYLE REFERENCE"@)) by {
        assert(style_section(p).subrange(0, 15) =~= "STYLE REFERENCE"@);
    }
    assert(texts[0] == voice_head(p));
    assert(texts[1] == dna_line(p));
    assert(texts[2] == "---"@);
    assert(texts[3] == who_line(p));
    assert(texts[4] == perspective_line(p));
    assert(texts[5] == voice_line(p));
    assert(texts[6] == humor_line(p));
    assert(texts[7] == emotion_line(p));
    assert(texts[8] == punctuation_line(p));
    assert(texts[9] == expertise_line(p));
    assert(texts[10] == style_section(p));
    assert(texts[11] == banned_words_line(p));
    assert(texts[12] == banned_patterns_line(p));
    assert(texts[13] == max_length_line(p));
    assert(labels[0] == "HUMOR: "@);
    assert(labels[1] == "MAX LENGTH: "@);
    assert(labels[2] == "STYLE REFERENCE"@);
    assert(labels[3] == "WHO YOU ARE: "@);
    lemma_sections_prefixed(p, "HUMOR: "@);
    lemma_sections_prefixed(p, "MAX LENGTH: "@);
    lemma_sections_prefixed(p, "STYLE REFERENCE"@);
    lemma_sections_prefixed(p, "WHO YOU ARE: "@);
    if shows_humor(p) {
        lemma_section_in_prompt(p, "HUMOR: "@);
    }
    if shows_max_length(p) {
        lemma_section_in_prompt(p, "MAX LENGTH: "@);
    }
    if p.voice.examples@.len() > 0 {
        lemma_section_in_prompt(p, "STYLE REFERENCE"@);
    }
    if p.identity.bio@.len() > 0 {
        lemma_section_in_prompt(p, "WHO YOU ARE: "@);
    }
}

/// No occurrence of `l` can run on past the end of `a`: the last characters of `a` never
/// begin `l` (judged by its last one or two characters).
pub open spec fn tail_stop(a: Seq<char>, l: Seq<char>) -> bool {
    a.len() > 0 && forall|k: int|
        1 <= k < l.len() ==> (a[a.len() - 1] != #[trigger] l[k - 1] || (k >= 2 && a.len() >= 2 && a[a.len()
            - 2] != l[k - 2]))
}

/// No occurrence of `l` can start before `b`: the first character of `b` never continues `l`.
pub open spec fn head_stop(b: Seq<char>, l: Seq<char>) -> bool {
    b.len() > 0 && forall|k: int| 1 <= k < l.len() ==> b[0] != #[trigger] l[k]
}

/// The facts about the fixed text of the prompt that keep `l` from occurring in it, or
/// across its joins, apart from the four labels.
pub open spec fn fixed_text_stops(l: Seq<char>) -> bool {
    &&& l.len() >= 2
    &&& forall|i: int| 0 <= i < l.len() ==> !(48 <= (#[trigger] l[i]) as u32 <= 57)
    &&& !contains("--- VOICE DNA (highest priority) ---\n"@, l)
    &&& !contains("VOICE DNA (phrases confirmed by repeated use): \""@, l)
    &&& !contains("\", \""@, l)
    &&& !contains("\""@, l)
    &&& !contains("---"@, l)
    &&& !contains("PERSPECTIVE: "@, l)
    &&& !contains("YOUR VOICE: "@, l)
    &&& !contains(", "@, l)
    &&& !contains(". "@, l)
    &&& !contains("EMOTION: "@, l)
    &&& !contains("PUNCTUATION: "@, l)
    &&& !contains("EXPERTISE: "@, l)
    &&& !contains("\n"@, l)
    &&& !contains("- "@, l)
    &&& !contains("BANNED WORDS (never use): "@, l)
    &&& !contains("BANNED PATTERNS (never write): "@, l)
    &&& !contains(" sentences, "@, l)
    &&& !contains(" characters"@, l)
    &&& !contains("\n\n"@, l)
    &&& tail_stop("--- VOICE DNA (highest priority) ---\n"@, l)
    &&& tail_stop("VOICE DNA (phrases confirmed by repeated use): \""@, l)
    &&& tail_stop("\", \""@, l)
    &&& tail_stop("WHO YOU ARE: "@, l)
    &&& tail_stop("PERSPECTIVE: "@, l)
    &&& tail_stop("YOUR VOICE: "@, l)
    &&& tail_stop(", "@, l)
    &&& tail_stop(". "@, l)
    &&& tail_stop("HUMOR: "@, l)
    &&& tail_stop("EMOTION: "@, l)
    &&& tail_stop("PUNCTUATION: "@, l)
    &&& tail_stop("EXPERTISE: "@, l)
    &&& tail_stop("STYLE REFERENCE (never copy, match this energy):\n"@, l)
    &&& tail_stop("\n"@, l)
    &&& tail_stop("- "@, l)
    &&& tail_stop("BANNED WORDS (never use): "@, l)
    &&& tail_stop("BANNED PATTERNS (never write): "@, l)
    &&& tail_stop("MAX LENGTH: "@, l)
    &&& tail_stop(" sentences, "@, l)
    &&& tail_stop("\n\n"@, l)
    &&& head_stop("\", \""@, l)
    &&& head_stop("\""@, l)
    &&& head_stop(", "@, l)
    &&& head_stop(". "@, l)
    &&& head_stop("\n"@, l)
    &&& head_stop("\n\n"@, l)
}


/// No text field of `p` holds `l`.
pub open spec fn fields_free(p: Persona, l: Seq<char>) -> bool {
    &&& !contains(p.voice.voice_summary@, l)
    &&& forall|i: int| 0 <= i < p.voice.voice_dna@.len() ==> !contains(#[trigger] p.voice.voice_dna@[i].phrase@, l)
    &&& !contains(p.identity.bio@, l)
    &&& !contains(p.identity.perspective@, l)
    &&& forall|i: int| 0 <= i < p.voice.tone_words@.len() ==> !contains(#[trigger] p.voice.tone_words@[i]@, l)
    &&& !contains(p.voice.writing_style@, l)
    &&& !contains(p.voice.humor_style@, l)
    &&& !contains(p.voice.emotional_range@, l)
    &&& !contains(p.voice.punctuation_style@, l)
    &&& forall|i: int| 0 <= i < p.identity.expertise@.len() ==> !contains(#[trigger] p.identity.expertise@[i]@, l)
    &&& forall|i: int| 0 <= i < p.voice.examples@.len() ==> !contains(#[trigger] p.voice.examples@[i]@, l)
    &&& forall|i: int| 0 <= i < p.rules.banned_words@.len() ==> !contains(#[trigger] p.rules.banned_words@[i]@, l)
    &&& forall|i: int| 0 <= i < p.rules.banned_patterns@.len() ==> !contains(#[trigger] p.rules.banned_patterns@[i]@, l)
}

proof fn lemma_free_concat(a: Seq<char>, b: Seq<char>, l: Seq<char>)
    requires
        l.len() > 0,
        !contains(a, l),
        !contains(b, l),
        tail_stop(a, l) || head_stop(b, l),
    ensures
        !contains(a + b, l),
{
    let s = a + b;
    if contains(s, l) {
        let o = choose|o: int| occurs_at(s, l, o);
        let n = l.len() as int;
        if o + n <= a.len() {
            assert(s.subrange(o, o + n) =~= a.subrange(o, o + n));
            assert(occurs_at(a, l, o));
        } else if o >= a.len() {
            assert(s.subrange(o, o + n) =~= b.subrange(o - a.len(), o - a.len() + n));
            assert(occurs_at(b, l, o - a.len()));
        } else {
            let k = a.len() - o;
            assert(s.subrange(o, o + n)[k] == s[a.len() as int]);
            assert(s.subrange(o, o + n)[k - 1] == s[a.len() - 1]);
            if k >= 2 {
                assert(s.subrange(o, o + n)[k - 2] == s[a.len() - 2]);
            }
            assert(b[0] == l[k]);
            assert(a[a.len() - 1] == l[k - 1]);
            if k >= 2 {
                assert(a[a.len() - 2] == l[k - 2]);
            }
        }
    }
}

proof fn lemma_tail_stop_extend(x: Seq<char>, t: Seq<char>, l: Seq<char>)
    requires
        tail_stop(t, l),
    ensures
        tail_stop(x + t, l),
{
    let s = x + t;
    assert(s[s.len() - 1] == t[t.len() - 1]);
    if t.len() >= 2 {
        assert(s[s.len() - 2] == t[t.len() - 2]);
    }
}

proof fn lemma_head_stop_extend(h: Seq<char>, y: Seq<char>, l: Seq<char>)
    requires
        head_stop(h, l),
    ensures
        head_stop(h + y, l),
{
    assert((h + y)[0] == h[0]);
}

proof fn lemma_empty_free(l: Seq<char>)
    requires
        l.len() > 0,
    ensures
        !contains(Seq::<char>::empty(), l),
{
}

proof fn lemma_decimal_digits(n: nat)
    ensures
        decimal(n).len() > 0,
        forall|i: int| 0 <= i < decimal(n).len() ==> 48 <= (#[trigger] decimal(n)[i]) as u32 <= 57,
    decreases n,
{
    if n >= 10 {
        lemma_decimal_digits(n / 10);
        assert(48 <= digit(n % 10) as u32 <= 57);
    } else {
        assert(48 <= digit(n) as u32 <= 57);
    }
}

/// A number's digits hold no text without digits, nor begin one at their end.
proof fn lemma_decimal_stops(n: nat, l: Seq<char>)
    requires
        fixed_text_stops(l),
    ensures
        !contains(decimal(n), l),
        tail_stop(decimal(n), l),
{
    let d = decimal(n);
    lemma_decimal_digits(n);
    if contains(d, l) {
        let o = choose|o: int| occurs_at(d, l, o);
        assert(d.subrange(o, o + l.len())[0] == d[o]);
        assert(48 <= l[0] as u32 <= 57);
    }
    assert forall|k: int| 1 <= k < l.len() implies (d[d.len() - 1] != #[trigger] l[k - 1] || (k >= 2
        && d.len() >= 2 && d[d.len() - 2] != l[k - 2])) by {
        assert(48 <= d[d.len() - 1] as u32 <= 57);
        assert(!(48 <= l[k - 1] as u32 <= 57));
    }
}

proof fn lemma_join_free(parts: Seq<Seq<char>>, sep: Seq<char>, l: Seq<char>)
    requires
        l.len() > 0,
        forall|i: int| 0 <= i < parts.len() ==> !contains(#[trigger] parts[i], l),
        !contains(sep, l),
        head_stop(sep, l),
        tail_stop(sep, l),
    ensures
        !contains(join(parts, sep), l),
    decreases parts.len(),
{
    if parts.len() == 0 {
        lemma_empty_free(l);
    } else if parts.len() == 1 {
        assert(!contains(parts[0], l));
    } else {
        let j = join(parts.drop_last(), sep);
        assert forall|i: int| 0 <= i < parts.drop_last().len() implies !contains(#[trigger] parts.drop_last()[i], l) by {
            assert(parts.drop_last()[i] == parts[i]);
        }
        lemma_join_free(parts.drop_last(), sep, l);
        lemma_free_concat(j, sep, l);
        lemma_tail_stop_extend(j, sep, l);
        assert(!contains(parts[parts.len() - 1], l));
        lemma_free_concat(j + sep, parts.last(), l);
    }
}

/// Under the fixed-text facts and with no field holding `l`, every section of the prompt
/// is free of `l`, except that the four label sections need their label free of `l`.
proof fn lemma_section_texts_free(p: Persona, l: Seq<char>)
    requires
        fixed_text_stops(l),
        fields_free(p, l),
    ensures
        !contains(voice_head(p), l),
        !contains(dna_line(p), l),
        !contains("---"@, l),
        !contains("WHO YOU ARE: "@, l) ==> !contains(who_line(p), l),
        !contains(perspective_line(p), l),
        !contains(voice_line(p), l),
        !contains("HUMOR: "@, l) ==> !contains(humor_line(p), l),
        !contains(emotion_line(p), l),
        !contains(punctuation_line(p), l),
        !contains(expertise_line(p), l),
        !contains("STYLE REFERENCE (never copy, match this energy):\n"@, l) ==> !contains(style_section(p), l),
        !contains(banned_words_line(p), l),
        !contains(banned_patterns_line(p), l),
        !contains("MAX LENGTH: "@, l) ==> !contains(max_length_line(p), l),
{
    let cs = ", "@;
    // voice head
    lemma_free_concat("--- VOICE DNA (highest priority) ---\n"@, p.voice.voice_summary@, l);
    // voice DNA phrases
    let phrases = dna_texts(p.voice.voice_dna@);
    assert forall|i: int| 0 <= i < phrases.len() implies !contains(#[trigger] phrases[i], l) by {
        assert(phrases[i] == p.voice.voice_dna@[i].phrase@);
    }
    let jd = join(phrases, "\", \""@);
    lemma_join_free(phrases, "\", \""@, l);
    lemma_free_concat("VOICE DNA (phrases confirmed by repeated use): \""@, jd, l);
    lemma_free_concat("VOICE DNA (phrases confirmed by repeated use): \""@ + jd, "\""@, l);
    // labelled single fields
    if !contains("WHO YOU ARE: "@, l) {
        lemma_free_concat("WHO YOU ARE: "@, p.identity.bio@, l);
    }
    lemma_free_concat("PERSPECTIVE: "@, p.identity.perspective@, l);
    if !contains("HUMOR: "@, l) {
        lemma_free_concat("HUMOR: "@, p.voice.humor_style@, l);
    }
    lemma_free_concat("EMOTION: "@, p.voice.emotional_range@, l);
    lemma_free_concat("PUNCTUATION: "@, p.voice.punctuation_style@, l);
    // voice line
    let tones = strings(p.voice.tone_words@);
    assert forall|i: int| 0 <= i < tones.len() implies !contains(#[trigger] tones[i], l) by {
        assert(tones[i] == p.voice.tone_words@[i]@);
    }
    let jt = join(tones, cs);
    lemma_join_free(tones, cs, l);
    lemma_free_concat("YOUR VOICE: "@, jt, l);
    lemma_free_concat("YOUR VOICE: "@ + jt, ". "@, l);
    lemma_tail_stop_extend("YOUR VOICE: "@ + jt, ". "@, l);
    lemma_free_concat("YOUR VOICE: "@ + jt + ". "@, p.voice.writing_style@, l);
    // lists
    let ex = strings(p.identity.expertise@);
    assert forall|i: int| 0 <= i < ex.len() implies !contains(#[trigger] ex[i], l) by {
        assert(ex[i] == p.identity.expertise@[i]@);
    }
    lemma_join_free(ex, cs, l);
    lemma_free_concat("EXPERTISE: "@, join(ex, cs), l);
    let bw = strings(p.rules.banned_words@);
    assert forall|i: int| 0 <= i < bw.len() implies !contains(#[trigger] bw[i], l) by {
        assert(bw[i] == p.rules.banned_words@[i]@);
    }
    lemma_join_free(bw, cs, l);
    lemma_free_concat("BANNED WORDS (never use): "@, join(bw, cs), l);
    let bp = strings(p.rules.banned_patterns@);
    assert forall|i: int| 0 <= i < bp.len() implies !contains(#[trigger] bp[i], l) by {
        assert(bp[i] == p.rules.banned_patterns@[i]@);
    }
    lemma_join_free(bp, cs, l);
    lemma_free_concat("BANNED PATTERNS (never write): "@, join(bp, cs), l);
    // style reference
    let items = example_items(strings(p.voice.examples@));
    assert forall|i: int| 0 <= i < items.len() implies !contains(#[trigger] items[i], l) by {
        assert(items[i] == "- "@ + p.voice.examples@[i]@);
        lemma_free_concat("- "@, p.voice.examples@[i]@, l);
    }
    lemma_join_free(items, "\n"@, l);
    if !contains("STYLE REFERENCE (never copy, match this energy):\n"@, l) {
        lemma_free_concat("STYLE REFERENCE (never copy, match this energy):\n"@, join(items, "\n"@), l);
    }
    // length limits
    let d1 = decimal(p.rules.max_sentences as nat);
    let d2 = decimal(p.rules.max_chars as nat);
    lemma_decimal_stops(p.rules.max_sentences as nat, l);
    lemma_decimal_stops(p.rules.max_chars as nat, l);
    if !contains("MAX LENGTH: "@, l) {
        let m = "MAX LENGTH: "@;
        lemma_free_concat(m, d1, l);
        lemma_tail_stop_extend(m, d1, l);
        lemma_free_concat(m + d1, " sentences, "@, l);
        lemma_tail_stop_extend(m + d1, " sentences, "@, l);
        lemma_free_concat(m + d1 + " sentences, "@, d2, l);
        lemma_tail_stop_extend(m + d1 + " sentences, "@, d2, l);
        lemma_free_concat(m + d1 + " sentences, "@ + d2, " characters"@, l);
    }
}


/// Every text of `s` is free of `l`.
pub open spec fn all_free(s: Seq<Seq<char>>, l: Seq<char>) -> bool {
    forall|i: int| 0 <= i < s.len() ==> !contains(#[trigger] s[i], l)
}

proof fn lemma_push_if_free(s: Seq<Seq<char>>, c: bool, x: Seq<char>, l: Seq<char>)
    requires
        all_free(s, l),
        c ==> !contains(x, l),
    ensures
        all_free(push_if(s, c, x), l),
{
    if c {
        assert forall|i: int| 0 <= i < s.push(x).len() implies !contains(#[trigger] s.push(x)[i], l) by {
            if i < s.len() {
                assert(s.push(x)[i] == s[i]);
            }
        }
    }
}

#[verifier::spinoff_prover]
#[verifier::rlimit(80)]
proof fn lemma_compiled_free(p: Persona, l: Seq<char>)
    requires
        fixed_text_stops(l),
        fields_free(p, l),
        p.identity.bio@.len() > 0 ==> !contains("WHO YOU ARE: "@, l),
        shows_humor(p) ==> !contains("HUMOR: "@, l),
        p.voice.examples@.len() > 0 ==> !contains("STYLE REFERENCE (never copy, match this energy):\n"@, l),
        shows_max_length(p) ==> !contains("MAX LENGTH: "@, l),
    ensures
        !contains(compiled_persona(p), l),
{
    lemma_section_texts_free(p, l);
    let s1 = seq![voice_head(p)];
    assert(all_free(s1, l)) by {
        assert forall|i: int| 0 <= i < s1.len() implies !contains(#[trigger] s1[i], l) by {
            assert(s1[i] == voice_head(p));
        }
    }
    let s2 = push_if(s1, p.voice.voice_dna@.len() > 0, dna_line(p));
    lemma_push_if_free(s1, p.voice.voice_dna@.len() > 0, dna_line(p), l);
    let s3 = s2.push("---"@);
    lemma_push_if_free(s2, true, "---"@, l);
    let s4 = push_if(s3, p.identity.bio@.len() > 0, who_line(p));
    lemma_push_if_free(s3, p.identity.bio@.len() > 0, who_line(p), l);
    let s5 = push_if(s4, p.identity.perspective@.len() > 0, perspective_line(p));
    lemma_push_if_free(s4, p.identity.perspective@.len() > 0, perspective_line(p), l);
    let s6 = s5.push(voice_line(p));
    lemma_push_if_free(s5, true, voice_line(p), l);
    let s7 = push_if(s6, shows_humor(p), humor_line(p));
    lemma_push_if_free(s6, shows_humor(p), humor_line(p), l);
    let s8 = push_if(s7, p.voice.emotional_range@.len() > 0, emotion_line(p));
    lemma_push_if_free(s7, p.voice.emotional_range@.len() > 0, emotion_line(p), l);
    let s9 = push_if(s8, p.voice.punctuation_style@.len() > 0, punctuation_line(p));
    lemma_push_if_free(s8, p.voice.punctuation_style@.len() > 0, punctuation_line(p), l);
    let s10 = push_if(s9, p.identity.expertise@.len() > 0, expertise_line(p));
    lemma_push_if_free(s9, p.identity.expertise@.len() > 0, expertise_line(p), l);
    let s11 = push_if(s10, p.voice.examples@.len() > 0, style_section(p));
    lemma_push_if_free(s10, p.voice.examples@.len() > 0, style_section(p), l);
    let s12 = push_if(s11, p.rules.banned_words@.len() > 0, banned_words_line(p));
    lemma_push_if_free(s11, p.rules.banned_words@.len() > 0, banned_words_line(p), l);
    let s13 = push_if(s12, p.rules.banned_patterns@.len() > 0, banned_patterns_line(p));
    lemma_push_if_free(s12, p.rules.banned_patterns@.len() > 0, banned_patterns_line(p), l);
    lemma_push_if_free(s13, shows_max_length(p), max_length_line(p), l);
    let secs = persona_sections(p);
    assert(secs == push_if(s13, shows_max_length(p), max_length_line(p)));
    lemma_join_free(secs, "\n\n"@, l);
}

/// `s` holds no `l` when no two neighbouring characters of `s` match the first two of `l`
/// where `l` would fit.
proof fn lemma_pair_free(s: Seq<char>, l: Seq<char>)
    requires
        l.len() >= 2,
        forall|o: int| 0 <= o && o + l.len() <= s.len() ==> !(#[trigger] s[o] == l[0] && s[o + 1] == l[1]),
    ensures
        !contains(s, l),
{
    if contains(s, l) {
        let o = choose|o: int| occurs_at(s, l, o);
        assert(s.subrange(o, o + l.len())[0] == s[o]);
        assert(s.subrange(o, o + l.len())[1] == s[o + 1]);
    }
}

proof fn lemma_humor_label_needs_section(p: Persona)
    requires
        fields_free(p, "HUMOR: "@),
        contains(compiled_persona(p), "HUMOR: "@),
    ensures
        shows_humor(p),
{
    reveal_strlit("--- VOICE DNA (highest priority) ---\n");
    reveal_strlit("VOICE DNA (phrases confirmed by repeated use): \"");
    reveal_strlit("\", \"");
    reveal_strlit("\"");
    reveal_strlit("---");
    reveal_strlit("WHO YOU ARE: ");
    reveal_strlit("PERSPECTIVE: ");
    reveal_strlit("YOUR VOICE: ");
    reveal_strlit(", ");
    reveal_strlit(". ");
    reveal_strlit("HUMOR: ");
    reveal_strlit("EMOTION: ");
    reveal_strlit("PUNCTUATION: ");
    reveal_strlit("EXPERTISE: ");
    reveal_strlit("STYLE REFERENCE (never copy, match this energy):\n");
    reveal_strlit("\n");
    reveal_strlit("- ");
    reveal_strlit("BANNED WORDS (never use): ");
    reveal_strlit("BANNED PATTERNS (never write): ");
    reveal_strlit("MAX LENGTH: ");
    reveal_strlit(" sentences, ");
    reveal_strlit(" characters");
    reveal_strlit("\n\n");
    reveal_strlit("STYLE REFERENCE");
    let l = "HUMOR: "@;
    lemma_pair_free("--- VOICE DNA (highest priority) ---\n"@, l);
    lemma_pair_free("VOICE DNA (phrases confirmed by repeated use): \""@, l);
    lemma_pair_free("WHO YOU ARE: "@, l);
    lemma_pair_free("PERSPECTIVE: "@, l);
    lemma_pair_free("YOUR VOICE: "@, l);
    lemma_pair_free("EMOTION: "@, l);
    lemma_pair_free("PUNCTUATION: "@, l);
    lemma_pair_free("EXPERTISE: "@, l);
    lemma_pair_free("STYLE REFERENCE (never copy, match this energy):\n"@, l);
    lemma_pair_free("BANNED WORDS (never use): "@, l);
    lemma_pair_free("BANNED PATTERNS (never write): "@, l);
    lemma_pair_free("MAX LENGTH: "@, l);
    lemma_pair_free(" sentences, "@, l);
    lemma_pair_free(" characters"@, l);
    assert(fixed_text_stops(l));
    if !(shows_humor(p)) {
        lemma_compiled_free(p, l);
    }
}

proof fn lemma_max_length_label_needs_section(p: Persona)
    requires
        fields_free(p, "MAX LENGTH: "@),
        contains(compiled_persona(p), "MAX LENGTH: "@),
    ensures
        shows_max_length(p),
{
    reveal_strlit("--- VOICE DNA (highest priority) ---\n");
    reveal_strlit("VOICE DNA (phrases confirmed by repeated use): \"");
    reveal_strlit("\", \"");
    reveal_strlit("\"");
    reveal_strlit("---");
    reveal_strlit("WHO YOU ARE: ");
    reveal_strlit("PERSPECTIVE: ");
    reveal_strlit("YOUR VOICE: ");
    reveal_strlit(", ");
    reveal_strlit(". ");
    reveal_strlit("HUMOR: ");
    reveal_strlit("EMOTION: ");
    reveal_strlit("PUNCTUATION: ");
    reveal_strlit("EXPERTISE: ");
    reveal_strlit("STYLE REFERENCE (never copy, match this energy):\n");
    reveal_strlit("\n");
    reveal_strlit("- ");
    reveal_strlit("BANNED WORDS (never use): ");
    reveal_strlit("BANNED PATTERNS (never write): ");
    reveal_strlit("MAX LENGTH: ");
    reveal_strlit(" sentences, ");
    reveal_strlit(" characters");
    reveal_strlit("\n\n");
    reveal_strlit("STYLE REFERENCE");
    let l = "MAX LENGTH: "@;
    lemma_pair_free("--- VOICE DNA (highest priority) ---\n"@, l);
    lemma_pair_free("VOICE DNA (phrases confirmed by repeated use): \""@, l);
    lemma_pair_free("WHO YOU ARE: "@, l);
    lemma_pair_free("PERSPECTIVE: "@, l);
    lemma_pair_free("YOUR VOICE: "@, l);
    lemma_pair_free("PUNCTUATION: "@, l);
    lemma_pair_free("STYLE REFERENCE (never copy, match this energy):\n"@, l);
    lemma_pair_free("BANNED WORDS (never use): "@, l);
    lemma_pair_free("BANNED PATTERNS (never write): "@, l);
    lemma_pair_free(" sentences, "@, l);
    assert(fixed_text_stops(l));
    if !(shows_max_length(p)) {
        lemma_compiled_free(p, l);
    }
}

proof fn lemma_style_label_needs_section(p: Persona)
    requires
        fields_free(p, "STYLE REFERENCE"@),
        contains(compiled_persona(p), "STYLE REFERENCE"@),
    ensures
        p.voice.examples@.len() > 0,
{
    reveal_strlit("--- VOICE DNA (highest priority) ---\n");
    reveal_strlit("VOICE DNA (phrases confirmed by repeated use): \"");
    reveal_strlit("\", \"");
    reveal_strlit("\"");
    reveal_strlit("---");
    reveal_strlit("WHO YOU ARE: ");
    reveal_strlit("PERSPECTIVE: ");
    reveal_strlit("YOUR VOICE: ");
    reveal_strlit(", ");
    reveal_strlit(". ");
    reveal_strlit("HUMOR: ");
    reveal_strlit("EMOTION: ");
    reveal_strlit("PUNCTUATION: ");
    reveal_strlit("EXPERTISE: ");
    reveal_strlit("STYLE REFERENCE (never copy, match this energy):\n");
    reveal_strlit("\n");
    reveal_strlit("- ");
    reveal_strlit("BANNED WORDS (never use): ");
    reveal_strlit("BANNED PATTERNS (never write): ");
    reveal_strlit("MAX LENGTH: ");
    reveal_strlit(" sentences, ");
    reveal_strlit(" characters");
    reveal_strlit("\n\n");
    reveal_strlit("STYLE REFERENCE");
    let l = "STYLE REFERENCE"@;
    lemma_pair_free("--- VOICE DNA (highest priority) ---\n"@, l);
    lemma_pair_free("VOICE DNA (phrases confirmed by repeated use): \""@, l);
    lemma_pair_free("BANNED WORDS (never use): "@, l);
    lemma_pair_free("BANNED PATTERNS (never write): "@, l);
    assert(fixed_text_stops(l));
    if !(p.voice.examples@.len() > 0) {
        lemma_compiled_free(p, l);
    }
}

proof fn lemma_who_label_needs_section(p: Persona)
    requires
        fields_free(p, "WHO YOU ARE: "@),
        contains(compiled_persona(p), "WHO YOU ARE: "@),
    ensures
        p.identity.bio@.len() > 0,
{
    reveal_strlit("--- VOICE DNA (highest priority) ---\n");
    reveal_strlit("VOICE DNA (phrases confirmed by repeated use): \"");
    reveal_strlit("\", \"");
    reveal_strlit("\"");
    reveal_strlit("---");
    reveal_strlit("WHO YOU ARE: ");
    reveal_strlit("PERSPECTIVE: ");
    reveal_strlit("YOUR VOICE: ");
    reveal_strlit(", ");
    reveal_strlit(". ");
    reveal_strlit("HUMOR: ");
    reveal_strlit("EMOTION: ");
    reveal_strlit("PUNCTUATION: ");
    reveal_strlit("EXPERTISE: ");
    reveal_strlit("STYLE REFERENCE (never copy, match this energy):\n");
    reveal_strlit("\n");
    reveal_strlit("- ");
    reveal_strlit("BANNED WORDS (never use): ");
    reveal_strlit("BANNED PATTERNS (never write): ");
    reveal_strlit("MAX LENGTH: ");
    reveal_strlit(" sentences, ");
    reveal_strlit(" characters");
    reveal_strlit("\n\n");
    reveal_strlit("STYLE REFERENCE");
    let l = "WHO YOU ARE: "@;
    lemma_pair_free("--- VOICE DNA (highest priority) ---\n"@, l);
    lemma_pair_free("VOICE DNA (phrases confirmed by repeated use): \""@, l);
    lemma_pair_free("PERSPECTIVE: "@, l);
    lemma_pair_free("PUNCTUATION: "@, l);
    lemma_pair_free("STYLE REFERENCE (never copy, match this energy):\n"@, l);
    lemma_pair_free("BANNED WORDS (never use): "@, l);
    lemma_pair_free("BANNED PATTERNS (never write): "@, l);
    assert(fixed_text_stops(l));
    if !(p.identity.bio@.len() > 0) {
        lemma_compiled_free(p, l);
    }
}

/// A text starts with itself.
proof fn lemma_prefix_self(t: Seq<char>)
    ensures
        has_prefix(t, t),
{
    assert(t.subrange(0, t.len() as int) =~= t);
}

/// Each field section that is present appears in the prompt as its label followed by
/// exactly that field's text: the voice summary always, and the bio, perspective, humor
/// style, emotional range and punctuation style whenever they are given (the humor style
/// unless it is "none detected").
pub proof fn lemma_prompt_fields_verbatim(p: Persona)
    ensures
        contains(compiled_persona(p), "--- VOICE DNA (highest priority) ---\n"@ + p.voice.voice_summary@),
        p.identity.bio@.len() > 0 ==> contains(compiled_persona(p), "WHO YOU ARE: "@ + p.identity.bio@),
        p.identity.perspective@.len() > 0 ==> contains(
            compiled_persona(p),
            "PERSPECTIVE: "@ + p.identity.perspective@,
        ),
        shows_humor(p) ==> contains(compiled_persona(p), "HUMOR: "@ + p.voice.humor_style@),
        p.voice.emotional_range@.len() > 0 ==> contains(
            compiled_persona(p),
            "EMOTION: "@ + p.voice.emotional_range@,
        ),
        p.voice.punctuation_style@.len() > 0 ==> contains(
            compiled_persona(p),
            "PUNCTUATION: "@ + p.voice.punctuation_style@,
        ),
        contains(
            compiled_persona(p),
            "YOUR VOICE: "@ + join(strings(p.voice.tone_words@), ", "@) + ". "@ + p.voice.writing_style@,
        ),
        p.voice.voice_dna@.len() > 0 ==> contains(
            compiled_persona(p),
            "VOICE DNA (phrases confirmed by repeated use): \""@ + join(
                p.voice.voice_dna@.map_values(|d: DnaPhrase| d.phrase@),
                "\", \""@,
            ) + "\""@,
        ),
        p.identity.expertise@.len() > 0 ==> contains(
            compiled_persona(p),
            "EXPERTISE: "@ + join(strings(p.identity.expertise@), ", "@),
        ),
        p.voice.examples@.len() > 0 ==> contains(
            compiled_persona(p),
            "STYLE REFERENCE (never copy, match this energy):\n"@ + join(
                p.voice.examples@.map_values(|e: String| "- "@ + e@),
                "\n"@,
            ),
        ),
        p.rules.banned_words@.len() > 0 ==> contains(
            compiled_persona(p),
            "BANNED WORDS (never use): "@ + join(strings(p.rules.banned_words@), ", "@),
        ),
        p.rules.banned_patterns@.len() > 0 ==> contains(
            compiled_persona(p),
            "BANNED PATTERNS (never write): "@ + join(strings(p.rules.banned_patterns@), ", "@),
        ),
        shows_max_length(p) ==> contains(
            compiled_persona(p),
            "MAX LENGTH: "@ + decimal(p.rules.max_sentences as nat) + " sentences, "@ + decimal(
                p.rules.max_chars as nat,
            ) + " characters"@,
        ),
{
    let head = "--- VOICE DNA (highest priority) ---\n"@ + p.voice.voice_summary@;
    lemma_prefix_self(head);
    lemma_sections_prefixed(p, head);
    lemma_section_in_prompt(p, head);
    let vl = "YOUR VOICE: "@ + join(strings(p.voice.tone_words@), ", "@) + ". "@ + p.voice.writing_style@;
    lemma_prefix_self(vl);
    lemma_sections_prefixed(p, vl);
    lemma_section_in_prompt(p, vl);
    if p.identity.bio@.len() > 0 {
        let l = "WHO YOU ARE: "@ + p.identity.bio@;
        lemma_prefix_self(l);
        lemma_sections_prefixed(p, l);
        lemma_section_in_prompt(p, l);
    }
    if p.identity.perspective@.len() > 0 {
        let l = "PERSPECTIVE: "@ + p.identity.perspective@;
        lemma_prefix_self(l);
        lemma_sections_prefixed(p, l);
        lemma_section_in_prompt(p, l);
    }
    if shows_humor(p) {
        let l = "HUMOR: "@ + p.voice.humor_style@;
        lemma_prefix_self(l);
        lemma_sections_prefixed(p, l);
        lemma_section_in_prompt(p, l);
    }
    if p.voice.emotional_range@.len() > 0 {
        let l = "EMOTION: "@ + p.voice.emotional_range@;
        lemma_prefix_self(l);
        lemma_sections_prefixed(p, l);
        lemma_section_in_prompt(p, l);
    }
    if p.voice.punctuation_style@.len() > 0 {
        let l = "PUNCTUATION: "@ + p.voice.punctuation_style@;
        lemma_prefix_self(l);
        lemma_sections_prefixed(p, l);
        lemma_section_in_prompt(p, l);
    }
    if p.voice.voice_dna@.len() > 0 {
        let l = dna_line(p);
        assert(dna_texts(p.voice.voice_dna@) == p.voice.voice_dna@.map_values(|d: DnaPhrase| d.phrase@));
        lemma_prefix_self(l);
        lemma_sections_prefixed(p, l);
        lemma_section_in_prompt(p, l);
    }
    if p.identity.expertise@.len() > 0 {
        let l = expertise_line(p);
        lemma_prefix_self(l);
        lemma_sections_prefixed(p, l);
        lemma_section_in_prompt(p, l);
    }
    if p.voice.examples@.len() > 0 {
        let l = style_section(p);
        assert(example_items(strings(p.voice.examples@)) =~= p.voice.examples@.map_values(|e: String| "- "@ + e@));
        lemma_prefix_self(l);
        lemma_sections_prefixed(p, l);
        lemma_section_in_prompt(p, l);
    }
    if p.rules.banned_words@.len() > 0 {
        let l = banned_words_line(p);
        lemma_prefix_self(l);
        lemma_sections_prefixed(p, l);
        lemma_section_in_prompt(p, l);
    }
    if p.rules.banned_patterns@.len() > 0 {
        let l = banned_patterns_line(p);
        lemma_prefix_self(l);
        lemma_sections_prefixed(p, l);
        lemma_section_in_prompt(p, l);
    }
    if shows_max_length(p) {
        let l = max_length_line(p);
        lemma_prefix_self(l);
        lemma_sections_prefixed(p, l);
        lemma_section_in_prompt(p, l);
    }
}

/// When no text field of the persona holds a label, the label appears in the compiled
/// prompt exactly when its section is present: the humor line when a humor style other
/// than "none detected" is given, the length line when a sentence limit from 1 to 99 is
/// set, the style reference when there are examples, and the bio line when there is a bio.
pub proof fn lemma_prompt_labels_only_with_sections(p: Persona)
    ensures
        fields_free(p, "HUMOR: "@) ==> (contains(compiled_persona(p), "HUMOR: "@) <==> shows_humor(p)),
        fields_free(p, "MAX LENGTH: "@) ==> (contains(compiled_persona(p), "MAX LENGTH: "@)
            <==> shows_max_length(p)),
        fields_free(p, "STYLE REFERENCE"@) ==> (contains(compiled_persona(p), "STYLE REFERENCE"@)
            <==> p.voice.examples@.len() > 0),
        fields_free(p, "WHO YOU ARE: "@) ==> (contains(compiled_persona(p), "WHO YOU ARE: "@)
            <==> p.identity.bio@.len() > 0),
{
    lemma_prompt_sections_present(p);
    if fields_free(p, "HUMOR: "@) && contains(compiled_persona(p), "HUMOR: "@) {
        lemma_humor_label_needs_section(p);
    }
    if fields_free(p, "MAX LENGTH: "@) && contains(compiled_persona(p), "MAX LENGTH: "@) {
        lemma_max_length_label_needs_section(p);
    }
    if fields_free(p, "STYLE REFERENCE"@) && contains(compiled_persona(p), "STYLE REFERENCE"@) {
        lemma_style_label_needs_section(p);
    }
    if fields_free(p, "WHO YOU ARE: "@) && contains(compiled_persona(p), "WHO YOU ARE: "@) {
        lemma_who_label_needs_section(p);
    }
}

/// The texts of `v` as character vectors.
fn strings_as_chars(v: &Vec<String>) -> (res: Vec<Vec<char>>)
    ensures
        texts(res@) == strings(v@),
{
    let mut res: Vec<Vec<char>> = Vec::new();
    let mut i: usize = 0;
    while i < v.len()
        invariant
            i <= v@.len(),
            texts(res@) == strings(v@.subrange(0, i as int)),
        decreases v@.len() - i,
    {
        let c = chars_of_string(&v[i]);
        let ghost r0 = texts(res@);
        let ghost cv = c@;
        res.push(c);
        assert(texts(res@) =~= r0.push(cv));
        assert(strings(v@.subrange(0, i + 1)) =~= strings(v@.subrange(0, i as int)).push(v@[i as int]@));
        i += 1;
    }
    assert(v@.subrange(0, v@.len() as int) =~= v@);
    res
}

/// `label` followed by the texts of `v` joined by `sep`.
fn labeled_list(label: &str, v: &Vec<String>, sep: &str) -> (res: Vec<char>)
    ensures
        res@ == label@ + join(strings(v@), sep@),
{
    let mut out = chars_of(label);
    let items = strings_as_chars(v);
    let sep_c = chars_of(sep);
    let joined = join_chars(&items, sep_c.as_slice());
    push_all(&mut out, joined.as_slice());
    out
}

/// `label` followed by the text of `s`.
fn labeled(label: &str, s: &String) -> (res: Vec<char>)
    ensures
        res@ == label@ + s@,
{
    let mut out = chars_of(label);
    let c = chars_of_string(s);
    push_all(&mut out, c.as_slice());
    out
}

/// Compile a persona into a compact prompt string for injection into a system prompt.
///
/// The output is designed for high fidelity in limited token budgets.
pub fn compile_persona(persona: &Persona) -> (res: String)
    ensures
        res@ == compiled_persona(*persona),
{
    let v = &persona.voice;
    let id = &persona.identity;
    let r = &persona.rules;
    let mut sections: Vec<Vec<char>> = Vec::new();
    let ghost p = *persona;

    sections.push(labeled("--- VOICE DNA (highest priority) ---\n", &v.voice_summary));
    assert(texts(sections@) =~= seq!["--- VOICE DNA (highest priority) ---\n"@ + v.voice_summary@]);

    if v.voice_dna.len() > 0 {
        let mut phrases: Vec<Vec<char>> = Vec::new();
        let mut i: usize = 0;
        while i < v.voice_dna.len()
            invariant
                i <= v.voice_dna@.len(),
                texts(phrases@) == dna_texts(v.voice_dna@.subrange(0, i as int)),
            decreases v.voice_dna@.len() - i,
        {
            let c = chars_of_string(&v.voice_dna[i].phrase);
            let ghost r0 = texts(phrases@);
            let ghost cv = c@;
            phrases.push(c);
            assert(texts(phrases@) =~= r0.push(cv));
            assert(dna_texts(v.voice_dna@.subrange(0, i + 1)) =~= dna_texts(
                v.voice_dna@.subrange(0, i as int),
            ).push(v.voice_dna@[i as int].phrase@));
            i += 1;
        }
        assert(v.voice_dna@.subrange(0, v.voice_dna@.len() as int) =~= v.voice_dna@);
        let mut s = chars_of("VOICE DNA (phrases confirmed by repeated use): \"");
        let sep = chars_of("\", \"");
        let joined = join_chars(&phrases, sep.as_slice());
        push_all(&mut s, joined.as_slice());
        push_str(&mut s, "\"");
        push_section(&mut sections, s);
    }
    push_section(&mut sections, chars_of("---"));
    if !id.bio.as_str().is_empty() {
        push_section(&mut sections, labeled("WHO YOU ARE: ", &id.bio));
    }
    if !id.perspective.as_str().is_empty() {
        push_section(&mut sections, labeled("PERSPECTIVE: ", &id.perspective));
    }
    let mut voice = labeled_list("YOUR VOICE: ", &v.tone_words, ", ");
    push_str(&mut voice, ". ");
    let style = chars_of_string(&v.writing_style);
    push_all(&mut voice, style.as_slice());
    push_section(&mut sections, voice);

    let humor = chars_of_string(&v.humor_style);
    let none = chars_of("none detected");
    if !same_chars(humor.as_slice(), none.as_slice()) && humor.len() > 0 {
        push_section(&mut sections, labeled("HUMOR: ", &v.humor_style));
    }
    if !v.emotional_range.as_str().is_empty() {
        push_section(&mut sections, labeled("EMOTION: ", &v.emotional_range));
    }
    if !v.punctuation_style.as_str().is_empty() {
        push_section(&mut sections, labeled("PUNCTUATION: ", &v.punctuation_style));
    }
    if id.expertise.len() > 0 {
        push_section(&mut sections, labeled_list("EXPERTISE: ", &id.expertise, ", "));
    }
    if v.examples.len() > 0 {
        let mut items: Vec<Vec<char>> = Vec::new();
        let mut i: usize = 0;
        while i < v.examples.len()
            invariant
                i <= v.examples@.len(),
                texts(items@) == example_items(strings(v.examples@.subrange(0, i as int))),
            decreases v.examples@.len() - i,
        {
            let mut item = chars_of("- ");
            let e = chars_of_string(&v.examples[i]);
            push_all(&mut item, e.as_slice());
            let ghost r0 = texts(items@);
            let ghost iv = item@;
            items.push(item);
            assert(texts(items@) =~= r0.push(iv));
            assert(example_items(strings(v.examples@.subrange(0, i + 1))) =~= example_items(
                strings(v.examples@.subrange(0, i as int)),
            ).push("- "@ + v.examples@[i as int]@));
            i += 1;
        }
        assert(v.examples@.subrange(0, v.examples@.len() as int) =~= v.examples@);
        let mut s = chars_of("STYLE REFERENCE (never copy, match this energy):\n");
        let nl = chars_of("\n");
        let joined = join_chars(&items, nl.as_slice());
        push_all(&mut s, joined.as_slice());
        push_section(&mut sections, s);
    }
    if r.banned_words.len() > 0 {
        push_section(&mut sections, labeled_list("BANNED WORDS (never use): ", &r.banned_words, ", "));
    }
    if r.banned_patterns.len() > 0 {
        push_section(
            &mut sections,
            labeled_list("BANNED PATTERNS (never write): ", &r.banned_patterns, ", "),
        );
    }
    if r.max_sentences > 0 && r.max_sentences < 100 {
        let mut s = chars_of("MAX LENGTH: ");
        let a = decimal_chars(r.max_sentences as u128);
        push_all(&mut s, a.as_slice());
        push_str(&mut s, " sentences, ");
        let b = decimal_chars(r.max_chars as u128);
        push_all(&mut s, b.as_slice());
        push_str(&mut s, " characters");
        push_section(&mut sections, s);
    }
    assert(texts(sections@) =~= persona_sections(p));
    let sep = chars_of("\n\n");
    let out = join_chars(&sections, sep.as_slice());
    string_of(out.as_slice())
}

/// Appends a section.
fn push_section(sections: &mut Vec<Vec<char>>, s: Vec<char>)
    ensures
        texts(final(sections)@) == texts(old(sections)@).push(s@),
{
    let ghost s0 = texts(sections@);
    let ghost sv = s@;
    sections.push(s);
    assert(texts(sections@) =~= s0.push(sv));
}

} // verus!
