//! Voice DNA: tracks distinctive phrases confirmed by repeated use.
//!
//! When generated text gets positive outcomes, distinctive phrases from that text are
//! tracked and reinforced.

use vstd::prelude::*;
use crate::model::DnaPhrase;
use crate::text::{
    chars_of, copy_texts, has_char, join, join_chars, lowercase, lowercase_all, lowercase_chars,
    lowercase_each, member_of, split_words, string_of, strings, texts, words, same_chars,
    chars_of_string, to_lowercase_string,
};
use crate::time::{now, Timestamp};
use crate::sort::{insert_desc, insert_pos, is_desc, lemma_kept_outrank_dropped, lemma_sort_desc, sort_desc};

verus! {

/// Maximum number of DNA phrases to track.
pub const MAX_DNA_PHRASES: usize = 30;

/// Minimum word count for a phrase to qualify.
pub const MIN_PHRASE_WORDS: usize = 2;

/// Maximum word count for a phrase to qualify.
pub const MAX_PHRASE_WORDS: usize = 5;

/// Maximum number of phrases taken from one text.
pub const MAX_PHRASES_PER_TEXT: usize = 10;

/// Two-word phrases too common to be distinctive.
pub open spec fn generic_phrases() -> Seq<Seq<char>> {
    seq![
        "the fact"@,
        "that the"@,
        "in the"@,
        "of the"@,
        "to the"@,
        "for the"@,
        "on the"@,
        "is the"@,
        "it the"@,
        "and the"@,
        "a the"@,
        "this is"@,
        "that is"@,
        "there is"@,
        "there are"@,
        "i think"@,
        "you know"@,
        "as well"@,
    ]
}

fn generic_list() -> (v: Vec<&'static str>)
    ensures
        v@.map_values(|s: &str| s@) == generic_phrases(),
{
    let v = vec![
        "the fact",
        "that the",
        "in the",
        "of the",
        "to the",
        "for the",
        "on the",
        "is the",
        "it the",
        "and the",
        "a the",
        "this is",
        "that is",
        "there is",
        "there are",
        "i think",
        "you know",
        "as well",
    ];
    assert(v@.map_values(|s: &str| s@) =~= generic_phrases());
    v
}

/// Words that mark a phrase as distinctive.
pub open spec fn bold_words() -> Seq<Seq<char>> {
    seq![
        "never"@,
        "always"@,
        "real"@,
        "actual"@,
        "literally"@,
        "absolutely"@,
        "dead"@,
        "pure"@,
        "raw"@,
        "zero"@,
        "nobody"@,
        "everybody"@,
        "everything"@,
        "nothing"@,
        "exactly"@,
        "genuinely"@,
    ]
}

fn bold_list() -> (v: Vec<&'static str>)
    ensures
        v@.map_values(|s: &str| s@) == bold_words(),
{
    let v = vec![
        "never",
        "always",
        "real",
        "actual",
        "literally",
        "absolutely",
        "dead",
        "pure",
        "raw",
        "zero",
        "nobody",
        "everybody",
        "everything",
        "nothing",
        "exactly",
        "genuinely",
    ];
    assert(v@.map_values(|s: &str| s@) =~= bold_words());
    v
}

/// Every character of `s` is an ASCII lowercase letter or a space.
pub open spec fn lower_or_space(s: Seq<char>) -> bool {
    forall|i: int| 0 <= i < s.len() ==> (97 <= #[trigger] (s[i] as u32) <= 122 || s[i] == ' ')
}

/// A window of words is kept when its phrase is not generic and it has a contraction,
/// a bold word, or (from three words on) something besides lowercase letters and spaces.
/// `phrase_lower` and `words_lower` are the lowercase forms of the phrase and its words.
pub open spec fn distinctive(
    window: Seq<Seq<char>>,
    phrase_lower: Seq<char>,
    words_lower: Seq<Seq<char>>,
) -> bool {
    let phrase = join(window, " "@);
    &&& !generic_phrases().contains(phrase_lower)
    &&& {
        ||| phrase.contains('\'')
        ||| exists|j: int| 0 <= j < words_lower.len() && bold_words().contains(#[trigger] words_lower[j])
        ||| window.len() >= 3 && !lower_or_space(phrase)
    }
}

/// Whether the window `w` is kept.
pub open spec fn keeps(w: Seq<Seq<char>>) -> bool {
    distinctive(w, lowercase(join(w, " "@)), lowercase_all(w))
}

/// A window of words is kept exactly when its phrase (the words joined by single spaces),
/// in lowercase, is not generic, and the phrase holds an apostrophe, or some word of the
/// window (at any position), in lowercase, is a bold word, or the window has three words
/// or more and its phrase holds a character other than an ASCII lowercase letter or a
/// space.
pub proof fn lemma_kept_windows(w: Seq<Seq<char>>)
    ensures
        keeps(w) <==> {
            &&& !generic_phrases().contains(lowercase(join(w, " "@)))
            &&& {
                ||| join(w, " "@).contains('\'')
                ||| exists|j: int| 0 <= j < w.len() && bold_words().contains(lowercase(#[trigger] w[j]))
                ||| w.len() >= 3 && exists|i: int|
                    0 <= i < join(w, " "@).len() && !(97 <= (#[trigger] join(w, " "@)[i]) as u32 <= 122
                        || join(w, " "@)[i] == ' ')
            }
        },
{
    let lw = lowercase_all(w);
    if exists|j: int| 0 <= j < w.len() && bold_words().contains(lowercase(#[trigger] w[j])) {
        let j = choose|j: int| 0 <= j < w.len() && bold_words().contains(lowercase(#[trigger] w[j]));
        assert(lw[j] == lowercase(w[j]));
    }
    if exists|j: int| 0 <= j < lw.len() && bold_words().contains(#[trigger] lw[j]) {
        let j = choose|j: int| 0 <= j < lw.len() && bold_words().contains(#[trigger] lw[j]);
        assert(lw[j] == lowercase(w[j]));
    }
}

/// Kept phrases of `size` words among the windows starting before `starts`.
pub open spec fn size_candidates(ws: Seq<Seq<char>>, size: nat, starts: nat) -> Seq<Seq<char>>
    decreases starts,
{
    if starts == 0 {
        seq![]
    } else {
        let prev = size_candidates(ws, size, (starts - 1) as nat);
        let w = ws.subrange(starts - 1, starts - 1 + size);
        if keeps(w) {
            prev.push(join(w, " "@))
        } else {
            prev
        }
    }
}

/// Kept phrases of 2 up to `top` words, shorter ones first.
pub open spec fn all_candidates(ws: Seq<Seq<char>>, top: nat) -> Seq<Seq<char>>
    decreases top,
{
    if top < MIN_PHRASE_WORDS {
        seq![]
    } else {
        all_candidates(ws, (top - 1) as nat) + size_candidates(ws, top, (ws.len() - top + 1) as nat)
    }
}

/// `s` with each run of equal neighbours reduced to one element (what `Vec::dedup` does).
pub open spec fn dedup<A>(s: Seq<A>) -> Seq<A>
    decreases s.len(),
{
    if s.len() <= 1 {
        s
    } else if s.last() == s[s.len() - 2] {
        dedup(s.drop_last())
    } else {
        dedup(s.drop_last()).push(s.last())
    }
}

/// The smaller of two numbers.
pub open spec fn min_nat(a: nat, b: nat) -> nat {
    if a < b {
        a
    } else {
        b
    }
}

/// Distinctive 2-5 word phrases of `text`: at most ten, neighbours deduplicated.
pub open spec fn distinctive_phrases(text: Seq<char>) -> Seq<Seq<char>> {
    let ws = words(text);
    if ws.len() < MIN_PHRASE_WORDS {
        seq![]
    } else {
        let d = dedup(all_candidates(ws, min_nat(MAX_PHRASE_WORDS as nat, ws.len())));
        d.subrange(0, min_nat(MAX_PHRASES_PER_TEXT as nat, d.len()) as int)
    }
}

/// Whether a window of words is distinctive, given the lowercase form of its phrase and
/// of each of its words.
pub fn is_distinctive(
    window: &Vec<Vec<char>>,
    phrase_lower: &[char],
    words_lower: &Vec<Vec<char>>,
) -> (b: bool)
    ensures
        b == distinctive(texts(window@), phrase_lower@, texts(words_lower@)),
{
    let generic = generic_list();
    if member_of(&generic, phrase_lower) {
        return false;
    }
    let sp = chars_of(" ");
    let phrase = join_chars(window, sp.as_slice());
    if has_char(phrase.as_slice(), '\'') {
        return true;
    }
    let bold = bold_list();
    let mut j: usize = 0;
    while j < words_lower.len()
        invariant
            j <= words_lower@.len(),
            !generic_phrases().contains(phrase_lower@),
            bold@.map_values(|s: &str| s@) == bold_words(),
            forall|t: int| 0 <= t < j ==> !bold_words().contains(#[trigger] texts(words_lower@)[t]),
        decreases words_lower@.len() - j,
    {
        if member_of(&bold, words_lower[j].as_slice()) {
            assert(bold_words().contains(texts(words_lower@)[j as int]));
            assert(distinctive(texts(window@), phrase_lower@, texts(words_lower@)));
            return true;
        }
        j += 1;
    }
    if window.len() >= 3 {
        let mut i: usize = 0;
        while i < phrase.len()
            invariant
                i <= phrase@.len(),
                window@.len() >= 3,
                !generic_phrases().contains(phrase_lower@),
                phrase@ == join(texts(window@), " "@),
                forall|t: int| 0 <= t < i ==> (97 <= #[trigger] (phrase@[t] as u32) <= 122 || phrase@[t] == ' '),
            decreases phrase@.len() - i,
        {
            let c = phrase[i];
            let u = c as u32;
            if !((97 <= u && u <= 122) || c == ' ') {
                assert(!(97 <= (phrase@[i as int] as u32) <= 122 || phrase@[i as int] == ' '));
                assert(!lower_or_space(phrase@));
                return true;
            }
            i += 1;
        }
    }
    false
}

/// Removes runs of equal neighbours, keeping the first of each run.
fn dedup_texts(v: Vec<Vec<char>>) -> (res: Vec<Vec<char>>)
    ensures
        texts(res@) == dedup(texts(v@)),
{
    let mut res: Vec<Vec<char>> = Vec::new();
    let mut i: usize = 0;
    let ghost tv = texts(v@);
    while i < v.len()
        invariant
            i <= v@.len(),
            tv == texts(v@),
            texts(res@) == dedup(tv.subrange(0, i as int)),
            i > 0 ==> res@.len() > 0 && texts(res@).last() == tv[i - 1],
        decreases v@.len() - i,
    {
        let ghost pre = tv.subrange(0, i as int);
        assert(tv.subrange(0, i + 1).drop_last() =~= pre);
        let keep = if i == 0 {
            true
        } else {
            !same_chars(v[i].as_slice(), v[i - 1].as_slice())
        };
        if keep {
            let w = copy_texts_one(&v, i);
            let ghost r0 = texts(res@);
            let ghost wv = w@;
            res.push(w);
            assert(texts(res@) =~= r0.push(wv));
            proof {
                if i == 0 {
                    assert(tv.subrange(0, 1) =~= seq![tv[0]]);
                }
            }
        }
        i += 1;
    }
    assert(tv.subrange(0, v@.len() as int) =~= tv);
    res
}

/// A copy of `v[i]`.
fn copy_texts_one(v: &Vec<Vec<char>>, i: usize) -> (res: Vec<char>)
    requires
        i < v@.len(),
    ensures
        res@ == v@[i as int]@,
{
    let out = crate::text::copy_range(v[i].as_slice(), 0, v[i].len());
    assert(v@[i as int]@.subrange(0, v@[i as int]@.len() as int) =~= v@[i as int]@);
    out
}

/// Extract distinctive 2-5 word phrases from text.
///
/// Keeps only phrases with markers of a distinctive voice (contractions, bold words,
/// unusual combinations) and drops generic ones.
pub fn extract_distinctive_phrases(text: &str) -> (res: Vec<String>)
    ensures
        strings(res@) == distinctive_phrases(text@),
{
    let chars = chars_of(text);
    let ws = split_words(chars.as_slice());
    let ghost wv = texts(ws@);
    let n = ws.len();
    if n < MIN_PHRASE_WORDS {
        return Vec::new();
    }
    let top = if MAX_PHRASE_WORDS < n { MAX_PHRASE_WORDS } else { n };
    let sp = chars_of(" ");
    let mut phrases: Vec<Vec<char>> = Vec::new();
    let mut size: usize = MIN_PHRASE_WORDS;
    assert(all_candidates(wv, 1) =~= Seq::<Seq<char>>::empty());
    while size <= top
        invariant
            MIN_PHRASE_WORDS <= size <= top + 1,
            top <= n,
            top <= MAX_PHRASE_WORDS,
            n == ws@.len(),
            wv == texts(ws@),
            sp@ == " "@,
            texts(phrases@) == all_candidates(wv, (size - 1) as nat),
        decreases top + 1 - size,
    {
        let ghost before = texts(phrases@);
        let starts = n - size + 1;
        let mut i: usize = 0;
        while i < starts
            invariant
                size <= n,
                starts == n - size + 1,
                i <= starts,
                n == ws@.len(),
                wv == texts(ws@),
                sp@ == " "@,
                texts(phrases@) == before + size_candidates(wv, size as nat, i as nat),
            decreases starts - i,
        {
            let window = copy_texts(&ws, i, i + size);
            let phrase = join_chars(&window, sp.as_slice());
            let lower = lowercase_chars(phrase.as_slice());
            let words_lower = lowercase_each(&window);
            if is_distinctive(&window, lower.as_slice(), &words_lower) {
                let ghost r0 = texts(phrases@);
                let ghost pv = phrase@;
                phrases.push(phrase);
                assert(texts(phrases@) =~= r0.push(pv));
                assert(before + size_candidates(wv, size as nat, (i + 1) as nat) =~= (before
                    + size_candidates(wv, size as nat, i as nat)).push(pv));
            }
            i += 1;
        }
        assert(all_candidates(wv, size as nat) == before + size_candidates(
            wv,
            size as nat,
            (wv.len() - size + 1) as nat,
        ));
        size += 1;
    }
    let d = dedup_texts(phrases);
    let keep = if d.len() < MAX_PHRASES_PER_TEXT { d.len() } else { MAX_PHRASES_PER_TEXT };
    let mut res: Vec<String> = Vec::new();
    let mut k: usize = 0;
    while k < keep
        invariant
            k <= keep <= d@.len(),
            strings(res@) == texts(d@).subrange(0, k as int),
        decreases keep - k,
    {
        let s = string_of(d[k].as_slice());
        let ghost r0 = strings(res@);
        let ghost sv = s@;
        res.push(s);
        assert(strings(res@) =~= r0.push(sv));
        assert(texts(d@).subrange(0, k + 1) =~= texts(d@).subrange(0, k as int).push(d@[k as int]@));
        k += 1;
    }
    res
}

// ---------------------------------------------------------------------------------------
// Tracking confirmed phrases
// ---------------------------------------------------------------------------------------

/// A tracked phrase as plain values: its text, confirmation count and first sighting.
pub type DnaEntry = (Seq<char>, nat, Timestamp);

/// The plain values of a tracked phrase.
pub open spec fn dna_view(p: DnaPhrase) -> DnaEntry {
    (p.phrase@, p.confirmed_by as nat, p.first_seen)
}

/// The plain values of tracked phrases.
pub open spec fn dna_entries(ps: Seq<DnaPhrase>) -> Seq<DnaEntry> {
    ps.map_values(|p: DnaPhrase| dna_view(p))
}

/// Phrases rank by confirmation count.
pub open spec fn dna_key() -> spec_fn(DnaEntry) -> int {
    |e: DnaEntry| e.1 as int
}

/// Index of the first element of `list` equal to `x`.
pub open spec fn first_match(list: Seq<Seq<char>>, x: Seq<char>) -> Option<nat>
    decreases list.len(),
{
    if list.len() == 0 {
        None
    } else if list[0] == x {
        Some(0)
    } else {
        match first_match(list.drop_first(), x) {
            Some(i) => Some(i + 1),
            None => None,
        }
    }
}

proof fn lemma_first_match(list: Seq<Seq<char>>, x: Seq<char>, i: int)
    requires
        0 <= i <= list.len(),
        forall|t: int| 0 <= t < i ==> list[t] != x,
    ensures
        i < list.len() && list[i] == x ==> first_match(list, x) == Some(i as nat),
        i == list.len() ==> first_match(list, x) is None,
    decreases i,
{
    if i > 0 {
        assert forall|t: int| 0 <= t < i - 1 implies list.drop_first()[t] != x by {
            assert(list.drop_first()[t] == list[t + 1]);
        }
        lemma_first_match(list.drop_first(), x, i - 1);
        if i < list.len() {
            assert(list.drop_first()[i - 1] == list[i]);
        }
    } else if list.len() == 0 {
    }
}

/// One successful phrase: confirms the first tracked phrase that is the same up to
/// case, or starts tracking it, first seen at `t`.
pub open spec fn record_one(es: Seq<DnaEntry>, cand: Seq<char>, t: Timestamp) -> Seq<DnaEntry> {
    match first_match(lowercase_all(es.map_values(|e: DnaEntry| e.0)), lowercase(cand)) {
        Some(i) => es.update(i as int, (es[i as int].0, es[i as int].1 + 1, es[i as int].2)),
        None => es.push((cand, 1nat, t)),
    }
}

/// All candidate phrases recorded in order, the `k`-th new one first seen at `times[k]`.
pub open spec fn record_all(es: Seq<DnaEntry>, cands: Seq<Seq<char>>, times: Seq<Timestamp>) -> Seq<DnaEntry>
    decreases cands.len(),
{
    if cands.len() == 0 {
        es
    } else {
        record_one(
            record_all(es, cands.drop_last(), times),
            cands.last(),
            times[cands.len() - 1],
        )
    }
}

/// The entries ranked by confirmation count (highest first, ties in their order), at
/// most `MAX_DNA_PHRASES` of them: when there are more, the most confirmed are kept.
pub open spec fn capped_dna(es: Seq<DnaEntry>) -> Seq<DnaEntry> {
    let ranked = sort_desc(es, dna_key());
    if ranked.len() > MAX_DNA_PHRASES {
        ranked.subrange(0, MAX_DNA_PHRASES as int)
    } else {
        ranked
    }
}

/// Index of the first element of `list` equal to `x`.
pub fn find_phrase(list: &Vec<Vec<char>>, x: &[char]) -> (res: Option<usize>)
    ensures
        match res {
            Some(i) => first_match(texts(list@), x@) == Some(i as nat) && i < list@.len(),
            None => first_match(texts(list@), x@) is None,
        },
{
    let ghost tl = texts(list@);
    let mut i: usize = 0;
    while i < list.len()
        invariant
            i <= list@.len(),
            tl == texts(list@),
            forall|t: int| 0 <= t < i ==> tl[t] != x@,
        decreases list@.len() - i,
    {
        if same_chars(list[i].as_slice(), x) {
            proof {
                lemma_first_match(tl, x@, i as int);
            }
            return Some(i);
        }
        i += 1;
    }
    proof {
        lemma_first_match(tl, x@, i as int);
    }
    None
}

/// Sorts phrases by descending confirmation count, keeping the order of equal counts.
fn sort_phrases(v: Vec<DnaPhrase>) -> (res: Vec<DnaPhrase>)
    ensures
        dna_entries(res@) == sort_desc(dna_entries(v@), dna_key()),
{
    let ghost ev = dna_entries(v@);
    let n = v.len();
    let mut rest = v;
    let mut out: Vec<DnaPhrase> = Vec::new();
    let mut i: usize = 0;
    assert(ev.subrange(0, 0) =~= Seq::<DnaEntry>::empty());
    assert(dna_entries(rest@) =~= ev.subrange(0, n as int));
    while i < n
        invariant
            i <= n,
            n == ev.len(),
            dna_entries(out@) == sort_desc(ev.subrange(0, i as int), dna_key()),
            dna_entries(rest@) == ev.subrange(i as int, n as int),
        decreases n - i,
    {
        assert(dna_entries(rest@).len() == rest@.len());
        assert(dna_entries(rest@)[0] == ev[i as int]);
        let ghost old_rest = rest@;
        let x = rest.remove(0);
        assert forall|j: int| 0 <= j < rest@.len() implies dna_entries(rest@)[j] == ev.subrange(
            i + 1,
            n as int,
        )[j] by {
            assert(rest@[j] == old_rest[j + 1]);
            assert(dna_entries(old_rest)[j + 1] == ev.subrange(i as int, n as int)[j + 1]);
        }
        assert(dna_entries(rest@) =~= ev.subrange(i + 1, n as int));
        let ghost s = dna_entries(out@);
        let mut p: usize = 0;
        assert(s.subrange(0, s.len() as int) =~= s);
        while p < out.len() && out[p].confirmed_by >= x.confirmed_by
            invariant
                p <= out@.len(),
                s == dna_entries(out@),
                insert_pos(s, dna_view(x), dna_key()) == p + insert_pos(
                    s.subrange(p as int, s.len() as int),
                    dna_view(x),
                    dna_key(),
                ),
            decreases out@.len() - p,
        {
            assert(s.subrange(p as int, s.len() as int).drop_first() =~= s.subrange(
                p + 1,
                s.len() as int,
            ));
            p += 1;
        }
        assert(insert_pos(s, dna_view(x), dna_key()) == p) by {
            if p < out@.len() {
                assert(s.subrange(p as int, s.len() as int)[0] == s[p as int]);
            }
        }
        let ghost xv = dna_view(x);
        out.insert(p, x);
        assert(ev.subrange(0, i + 1).drop_last() =~= ev.subrange(0, i as int));
        assert(dna_entries(out@) =~= insert_desc(s, xv, dna_key()));
        i += 1;
    }
    assert(ev.subrange(0, n as int) =~= ev);
    out
}

/// Manages voice DNA: distinctive phrases that define a person's writing.
pub struct VoiceDna {
    phrases: Vec<DnaPhrase>,
}

impl View for VoiceDna {
    type V = Seq<DnaPhrase>;

    closed spec fn view(&self) -> Seq<DnaPhrase> {
        self.phrases@
    }
}

impl VoiceDna {
    /// The phrases are kept ranked by confirmation count, highest first.
    #[verifier::type_invariant]
    spec fn ranked(self) -> bool {
        is_desc(dna_entries(self.phrases@), dna_key())
    }
}

/// The candidate phrases of one text number at most `MAX_PHRASES_PER_TEXT`.
pub proof fn lemma_few_phrases(text: Seq<char>)
    ensures
        distinctive_phrases(text).len() <= MAX_PHRASES_PER_TEXT,
{
}

impl VoiceDna {
    /// Create from existing DNA phrases (e.g., loaded from a persona), ranked by
    /// confirmation count (highest first, ties in their given order).
    pub fn new(phrases: Vec<DnaPhrase>) -> (dna: Self)
        ensures
            dna_entries(dna@) == sort_desc(dna_entries(phrases@), dna_key()),
    {
        let sorted = sort_phrases(phrases);
        proof {
            lemma_sort_desc(dna_entries(phrases@), dna_key());
        }
        VoiceDna { phrases: sorted }
    }

    /// Create empty.
    pub fn empty() -> (dna: Self)
        ensures
            dna@.len() == 0,
    {
        VoiceDna { phrases: Vec::new() }
    }

    /// The current DNA phrases, sorted by confirmation count (highest first).
    pub fn phrases(&self) -> (res: &[DnaPhrase])
        ensures
            res@ == self@,
            is_desc(dna_entries(res@), dna_key()),
    {
        proof {
            use_type_invariant(self);
        }
        self.phrases.as_slice()
    }

    /// Update DNA with phrases from a successful text.
    ///
    /// Call this when a generated text receives positive feedback. Distinctive phrases are
    /// extracted and tracked; a phrase already tracked (up to case) is confirmed once more.
    /// The phrases are then ranked by confirmation count, and when more than
    /// `MAX_DNA_PHRASES` are tracked, the most confirmed are kept.
    pub fn record_success(&mut self, text: &str)
        requires
            forall|j: int| 0 <= j < old(self)@.len() ==> #[trigger] old(self)@[j].confirmed_by + hits(
                dna_entries(old(self)@),
                distinctive_phrases(text@),
                j,
            ) <= u32::MAX,
        ensures
            exists|times: Seq<Timestamp>| #![trigger record_all(dna_entries(old(self)@), distinctive_phrases(text@), times)]
                dna_entries(final(self)@) == capped_dna(
                    record_all(dna_entries(old(self)@), distinctive_phrases(text@), times),
                ),
            final(self)@.len() <= MAX_DNA_PHRASES,
    {
        let candidates = extract_distinctive_phrases(text);
        let ghost cands = distinctive_phrases(text@);
        let mut phrases: Vec<DnaPhrase> = Vec::new();
        std::mem::swap(&mut phrases, &mut self.phrases);
        let ghost e0 = dna_entries(phrases@);
        let ghost mut times: Seq<Timestamp> = seq![];
        let mut k: usize = 0;
        proof {
            lemma_few_phrases(text@);
            assert(strings(candidates@).len() == candidates@.len());
            assert(phrases@ == old(self)@);
            assert(cands.subrange(0, 0) =~= Seq::<Seq<char>>::empty());
        }
        while k < candidates.len()
            invariant
                k <= candidates@.len() <= MAX_PHRASES_PER_TEXT,
                strings(candidates@) == cands,
                times.len() == k,
                dna_entries(phrases@) == record_all(e0, cands.subrange(0, k as int), times),
                forall|j: int| 0 <= j < e0.len() ==> #[trigger] e0[j].1 + hits(e0, cands, j) <= u32::MAX,
            decreases candidates@.len() - k,
        {
            let ghost times_before = times;
            let cand = candidates[k].clone();
            let lower = to_lowercase_string(&cand);
            let ghost es = dna_entries(phrases@);
            let names_lower = folded_names_of(&phrases);
            assert(cands.subrange(0, k + 1).drop_last() =~= cands.subrange(0, k as int));
            match find_phrase(&names_lower, lower.as_slice()) {
                Some(i) => {
                    proof {
                        assert(lowercase_all(es.map_values(|e: DnaEntry| e.0)) == texts(names_lower@));
                        assert(cand@ == cands[k as int]);
                        lemma_count_room(e0, cands, times, k as int, i as int);
                    }
                    let mut e = phrases.remove(i);
                    e.confirmed_by = e.confirmed_by + 1;
                    phrases.insert(i, e);
                    proof {
                        times = times.push(e.first_seen);
                    }
                    assert(dna_entries(phrases@) =~= es.update(
                        i as int,
                        (es[i as int].0, es[i as int].1 + 1, es[i as int].2),
                    ));
                },
                None => {
                    let t = now();
                    let ghost cv = cand@;
                    phrases.push(DnaPhrase { phrase: cand, confirmed_by: 1, first_seen: t });
                    proof {
                        times = times.push(t);
                    }
                    assert(dna_entries(phrases@) =~= es.push((cv, 1nat, t)));
                },
            }
            proof {
                assert(times_before =~= times.subrange(0, k as int));
                lemma_record_all_times(e0, cands.subrange(0, k as int), times);
                assert(record_all(e0, cands.subrange(0, k as int), times) == es);
                assert(cands.subrange(0, k + 1).last() == cands[k as int]);
                assert(lowercase_all(es.map_values(|e: DnaEntry| e.0)) == texts(names_lower@));
                assert(cand@ == cands[k as int]);
                assert(record_all(e0, cands.subrange(0, k + 1), times) == record_one(
                    es,
                    cands[k as int],
                    times[k as int],
                ));
            }
            k += 1;
        }
        assert(cands.subrange(0, candidates@.len() as int) =~= cands);
        let mut sorted = sort_phrases(phrases);
        proof {
            lemma_sort_desc(record_all(e0, cands, times), dna_key());
        }
        if sorted.len() > MAX_DNA_PHRASES {
            sorted.truncate(MAX_DNA_PHRASES);
        }
        assert(dna_entries(sorted@) =~= capped_dna(record_all(e0, cands, times)));
        proof {
            let r = sort_desc(record_all(e0, cands, times), dna_key());
            assert forall|a: int, b: int| 0 <= a < b < dna_entries(sorted@).len() implies dna_key()(
                dna_entries(sorted@)[a],
            ) >= dna_key()(dna_entries(sorted@)[b]) by {
                assert(dna_entries(sorted@)[a] == r[a]);
                assert(dna_entries(sorted@)[b] == r[b]);
            }
        }
        self.phrases = sorted;
    }

    /// Export phrases back to the model format.
    pub fn into_phrases(self) -> (res: Vec<DnaPhrase>)
        ensures
            res@ == self@,
            is_desc(dna_entries(res@), dna_key()),
    {
        proof {
            use_type_invariant(&self);
        }
        self.phrases
    }
}

/// The case-folded texts of `phrases`.
fn folded_names_of(phrases: &Vec<DnaPhrase>) -> (res: Vec<Vec<char>>)
    ensures
        texts(res@) == folded_names(dna_entries(phrases@)),
{
    let ghost es = dna_entries(phrases@);
    let mut names: Vec<Vec<char>> = Vec::new();
    let mut i: usize = 0;
    while i < phrases.len()
        invariant
            i <= phrases@.len(),
            es == dna_entries(phrases@),
            texts(names@) == es.map_values(|e: DnaEntry| e.0).subrange(0, i as int),
        decreases phrases@.len() - i,
    {
        let c = chars_of_string(&phrases[i].phrase);
        let ghost n0 = texts(names@);
        let ghost cv = c@;
        names.push(c);
        assert(texts(names@) =~= n0.push(cv));
        assert(es.map_values(|e: DnaEntry| e.0).subrange(0, i + 1) =~= es.map_values(|e: DnaEntry| e.0).subrange(
            0,
            i as int,
        ).push(es[i as int].0));
        i += 1;
    }
    assert(es.map_values(|e: DnaEntry| e.0).subrange(0, phrases@.len() as int) =~= es.map_values(
        |e: DnaEntry| e.0,
    ));
    lowercase_each(&names)
}

/// Whether every tracked phrase has room for the confirmations that the phrases of
/// `text` would give it.
fn counts_have_room(phrases: &Vec<DnaPhrase>, text: &str) -> (ok: bool)
    ensures
        ok == forall|j: int| 0 <= j < phrases@.len() ==> #[trigger] phrases@[j].confirmed_by + hits(
            dna_entries(phrases@),
            distinctive_phrases(text@),
            j,
        ) <= u32::MAX,
{
    let ghost e0 = dna_entries(phrases@);
    let ghost cands = distinctive_phrases(text@);
    let candidates = extract_distinctive_phrases(text);
    let names = folded_names_of(phrases);
    let n = phrases.len();
    let mut counts: Vec<u64> = Vec::new();
    let mut j: usize = 0;
    while j < n
        invariant
            j <= n == phrases@.len(),
            counts@.len() == j,
            forall|t: int| 0 <= t < j ==> #[trigger] counts@[t] == 0,
        decreases n - j,
    {
        counts.push(0);
        j += 1;
    }
    proof {
        lemma_few_phrases(text@);
        assert(cands.subrange(0, 0) =~= Seq::<Seq<char>>::empty());
    }
    let mut k: usize = 0;
    while k < candidates.len()
        invariant
            k <= candidates@.len() <= MAX_PHRASES_PER_TEXT,
            strings(candidates@) == cands,
            e0 == dna_entries(phrases@),
            n == phrases@.len(),
            counts@.len() == n,
            texts(names@) == folded_names(e0),
            forall|t: int| 0 <= t < n ==> #[trigger] counts@[t] == hits(e0, cands.subrange(0, k as int), t),
            forall|t: int| 0 <= t < n ==> #[trigger] counts@[t] <= k,
        decreases candidates@.len() - k,
    {
        let lower = to_lowercase_string(&candidates[k]);
        let found = find_phrase(&names, lower.as_slice());
        let ghost before = counts@;
        proof {
            lemma_first_match_found(folded_names(e0), lowercase(cands[k as int]));
            assert(cands.subrange(0, k + 1).drop_last() =~= cands.subrange(0, k as int));
            assert(cands.subrange(0, k + 1).last() == cands[k as int]);
        }
        if let Some(i) = found {
            let c = counts[i];
            counts.set(i, c + 1);
        }
        assert forall|t: int| 0 <= t < n implies #[trigger] counts@[t] == hits(e0, cands.subrange(0, k + 1), t) by {
            assert(hits(e0, cands.subrange(0, k + 1), t) == hits(e0, cands.subrange(0, k as int), t) + if first_match(
                folded_names(e0),
                lowercase(cands[k as int]),
            ) == Some(t as nat) {
                1nat
            } else {
                0nat
            });
        }
        k += 1;
    }
    assert(cands.subrange(0, candidates@.len() as int) =~= cands);
    let mut i: usize = 0;
    while i < n
        invariant
            i <= n == phrases@.len(),
            counts@.len() == n,
            e0 == dna_entries(phrases@),
            cands == distinctive_phrases(text@),
            forall|t: int| 0 <= t < n ==> #[trigger] counts@[t] == hits(e0, cands, t),
            forall|t: int| 0 <= t < n ==> #[trigger] counts@[t] <= MAX_PHRASES_PER_TEXT,
            forall|t: int| 0 <= t < i ==> #[trigger] phrases@[t].confirmed_by + hits(e0, cands, t) <= u32::MAX,
        decreases n - i,
    {
        if phrases[i].confirmed_by as u64 + counts[i] > 0xffff_ffff {
            return false;
        }
        i += 1;
    }
    true
}

impl VoiceDna {
    /// Record a successful text when every tracked phrase has room for the confirmations
    /// it would bring (see `record_success`); otherwise leave the phrases unchanged.
    /// Returns whether the text was recorded.
    pub fn record_success_checked(&mut self, text: &str) -> (recorded: bool)
        ensures
            recorded == forall|j: int| 0 <= j < old(self)@.len() ==> #[trigger] old(self)@[j].confirmed_by + hits(
                dna_entries(old(self)@),
                distinctive_phrases(text@),
                j,
            ) <= u32::MAX,
            recorded ==> exists|times: Seq<Timestamp>| #![trigger record_all(dna_entries(old(self)@), distinctive_phrases(text@), times)]
                dna_entries(final(self)@) == capped_dna(
                    record_all(dna_entries(old(self)@), distinctive_phrases(text@), times),
                ),
            recorded ==> final(self)@.len() <= MAX_DNA_PHRASES,
            !recorded ==> final(self)@ == old(self)@,
    {
        let ok = counts_have_room(&self.phrases, text);
        assert(ok == forall|j: int| 0 <= j < old(self)@.len() ==> #[trigger] old(self)@[j].confirmed_by + hits(
            dna_entries(old(self)@),
            distinctive_phrases(text@),
            j,
        ) <= u32::MAX) by {
            assert(old(self)@ == self.phrases@);
        }
        if ok {
            self.record_success(text);
        }
        ok
    }
}

/// Recording only looks at the times of the candidates recorded.
proof fn lemma_record_all_times(es: Seq<DnaEntry>, cands: Seq<Seq<char>>, times: Seq<Timestamp>)
    requires
        times.len() > cands.len(),
    ensures
        record_all(es, cands, times) == record_all(es, cands, times.subrange(0, cands.len() as int)),
    decreases cands.len(),
{
    if cands.len() > 0 {
        lemma_record_all_times(es, cands.drop_last(), times);
        lemma_record_all_times(es, cands.drop_last(), times.subrange(0, cands.len() as int));
        assert(times.subrange(0, cands.len() as int).subrange(0, cands.len() - 1) =~= times.subrange(
            0,
            cands.len() - 1,
        ));
    }
}

/// Capping an over-full list keeps `MAX_DNA_PHRASES` phrases, most confirmed first, and
/// drops none that is confirmed more often than one it keeps: kept and dropped together
/// are the list before capping.
pub proof fn lemma_cap_keeps_most_confirmed(es: Seq<DnaEntry>)
    requires
        es.len() > MAX_DNA_PHRASES,
    ensures
        capped_dna(es).len() == MAX_DNA_PHRASES,
        is_desc(capped_dna(es), dna_key()),
        exists|dropped: Seq<DnaEntry>|
            {
                &&& #[trigger] capped_dna(es).to_multiset().add(dropped.to_multiset()) == es.to_multiset()
                &&& forall|i: int, j: int|
                    0 <= i < MAX_DNA_PHRASES && 0 <= j < dropped.len() ==> capped_dna(es)[i].1
                        >= dropped[j].1
            },
{
    lemma_sort_desc(es, dna_key());
    lemma_kept_outrank_dropped(es, dna_key(), MAX_DNA_PHRASES as int);
    let dropped = sort_desc(es, dna_key()).subrange(MAX_DNA_PHRASES as int, es.len() as int);
    let kept = capped_dna(es);
    assert forall|i: int, j: int| 0 <= i < MAX_DNA_PHRASES && 0 <= j < dropped.len() implies kept[i].1
        >= dropped[j].1 by {
        assert(dna_key()(kept[i]) >= dna_key()(dropped[j]));
    }
    assert(kept.to_multiset().add(dropped.to_multiset()) == es.to_multiset());
}

/// A first match is a match.
proof fn lemma_first_match_found(list: Seq<Seq<char>>, x: Seq<char>)
    ensures
        first_match(list, x) matches Some(i) ==> i < list.len() && list[i as int] == x,
    decreases list.len(),
{
    if list.len() > 0 && list[0] != x {
        lemma_first_match_found(list.drop_first(), x);
    }
}

/// Recording one phrase keeps every tracked phrase where it was, with its text and first
/// sighting, and never lowers a count; afterwards the phrase is tracked (up to case).
proof fn lemma_record_one_tracks(es: Seq<DnaEntry>, cand: Seq<char>, t: Timestamp)
    ensures
        record_one(es, cand, t).len() >= es.len(),
        forall|i: int| 0 <= i < es.len() ==> {
            &&& (#[trigger] record_one(es, cand, t)[i]).0 == es[i].0
            &&& record_one(es, cand, t)[i].1 >= es[i].1
            &&& record_one(es, cand, t)[i].2 == es[i].2
        },
        exists|i: int| 0 <= i < record_one(es, cand, t).len() && lowercase(
            #[trigger] record_one(es, cand, t)[i].0,
        ) == lowercase(cand),
{
    let names = lowercase_all(es.map_values(|e: DnaEntry| e.0));
    lemma_first_match_found(names, lowercase(cand));
    let r = record_one(es, cand, t);
    match first_match(names, lowercase(cand)) {
        Some(i) => {
            assert(names[i as int] == lowercase(es[i as int].0));
            assert(lowercase(r[i as int].0) == lowercase(cand));
        },
        None => {
            assert(r[es.len() as int].0 == cand);
        },
    }
}

/// Recording the phrases of a successful text, before any capping: every phrase tracked
/// before stays where it was, with its text and first sighting, and is confirmed at
/// least as often as before; and every recorded phrase is then tracked (up to case).
pub proof fn lemma_record_tracks(es: Seq<DnaEntry>, cands: Seq<Seq<char>>, times: Seq<Timestamp>)
    ensures
        record_all(es, cands, times).len() >= es.len(),
        forall|i: int| 0 <= i < es.len() ==> {
            &&& (#[trigger] record_all(es, cands, times)[i]).0 == es[i].0
            &&& record_all(es, cands, times)[i].1 >= es[i].1
            &&& record_all(es, cands, times)[i].2 == es[i].2
        },
        forall|k: int| 0 <= k < cands.len() ==> exists|i: int|
            0 <= i < record_all(es, cands, times).len() && lowercase(
                #[trigger] record_all(es, cands, times)[i].0,
            ) == lowercase(#[trigger] cands[k]),
    decreases cands.len(),
{
    if cands.len() > 0 {
        let prev = record_all(es, cands.drop_last(), times);
        let t = times[cands.len() - 1];
        lemma_record_tracks(es, cands.drop_last(), times);
        lemma_record_one_tracks(prev, cands.last(), t);
        let r = record_all(es, cands, times);
        assert(r == record_one(prev, cands.last(), t));
        assert forall|k: int| 0 <= k < cands.len() implies exists|i: int|
            0 <= i < r.len() && lowercase(#[trigger] r[i].0) == lowercase(#[trigger] cands[k]) by {
            if k < cands.len() - 1 {
                assert(cands[k] == cands.drop_last()[k]);
                let i = choose|i: int|
                    0 <= i < prev.len() && lowercase(#[trigger] prev[i].0) == lowercase(
                        cands.drop_last()[k],
                    );
                assert(r[i].0 == prev[i].0);
            }
        }
    }
}

/// The `n` words of `ws` from the `i`-th on.
pub open spec fn window_at(ws: Seq<Seq<char>>, i: int, n: int) -> Seq<Seq<char>> {
    ws.subrange(i, i + n)
}

/// `p` is the phrase of a kept window of 2 to 5 consecutive words of `ws`.
pub open spec fn kept_window_phrase(ws: Seq<Seq<char>>, p: Seq<char>) -> bool {
    exists|i: int, n: int|
        MIN_PHRASE_WORDS <= n <= MAX_PHRASE_WORDS && 0 <= i && i + n <= ws.len() && p == join(
            #[trigger] window_at(ws, i, n),
            " "@,
        ) && keeps(window_at(ws, i, n))
}

proof fn lemma_size_candidates_kept(ws: Seq<Seq<char>>, size: nat, starts: nat)
    requires
        MIN_PHRASE_WORDS <= size <= MAX_PHRASE_WORDS,
        starts > 0 ==> starts - 1 + size <= ws.len(),
    ensures
        forall|k: int| 0 <= k < size_candidates(ws, size, starts).len() ==> kept_window_phrase(
            ws,
            #[trigger] size_candidates(ws, size, starts)[k],
        ),
    decreases starts,
{
    if starts > 0 {
        lemma_size_candidates_kept(ws, size, (starts - 1) as nat);
        let prev = size_candidates(ws, size, (starts - 1) as nat);
        let w = window_at(ws, starts - 1, size as int);
        assert(w == ws.subrange(starts - 1, starts - 1 + size));
        assert forall|k: int| 0 <= k < size_candidates(ws, size, starts).len() implies kept_window_phrase(
            ws,
            #[trigger] size_candidates(ws, size, starts)[k],
        ) by {
            if k < prev.len() {
                assert(size_candidates(ws, size, starts)[k] == prev[k]);
            }
        }
    }
}

proof fn lemma_all_candidates_kept(ws: Seq<Seq<char>>, top: nat)
    requires
        top <= MAX_PHRASE_WORDS,
        top <= ws.len(),
    ensures
        forall|k: int| 0 <= k < all_candidates(ws, top).len() ==> kept_window_phrase(
            ws,
            #[trigger] all_candidates(ws, top)[k],
        ),
    decreases top,
{
    if top >= MIN_PHRASE_WORDS {
        lemma_all_candidates_kept(ws, (top - 1) as nat);
        let a = all_candidates(ws, (top - 1) as nat);
        let b = size_candidates(ws, top, (ws.len() - top + 1) as nat);
        lemma_size_candidates_kept(ws, top, (ws.len() - top + 1) as nat);
        assert forall|k: int| 0 <= k < all_candidates(ws, top).len() implies kept_window_phrase(
            ws,
            #[trigger] all_candidates(ws, top)[k],
        ) by {
            if k < a.len() {
                assert(all_candidates(ws, top)[k] == a[k]);
            } else {
                assert(all_candidates(ws, top)[k] == b[k - a.len()]);
            }
        }
    }
}

proof fn lemma_dedup_from<A>(s: Seq<A>)
    ensures
        forall|k: int| 0 <= k < dedup(s).len() ==> s.contains(#[trigger] dedup(s)[k]),
    decreases s.len(),
{
    if s.len() > 1 {
        lemma_dedup_from(s.drop_last());
        let d = dedup(s.drop_last());
        assert forall|k: int| 0 <= k < dedup(s).len() implies s.contains(#[trigger] dedup(s)[k]) by {
            if k < d.len() {
                assert(dedup(s)[k] == d[k]);
                assert(s.drop_last().contains(d[k]));
                let j = choose|j: int| 0 <= j < s.drop_last().len() && s.drop_last()[j] == d[k];
                assert(s[j] == s.drop_last()[j]);
            } else {
                assert(dedup(s)[k] == s[s.len() - 1]);
            }
        }
    } else {
        assert forall|k: int| 0 <= k < dedup(s).len() implies s.contains(#[trigger] dedup(s)[k]) by {
            assert(dedup(s)[k] == s[k]);
        }
    }
}

/// Each extracted phrase is 2 to 5 consecutive words of the text, joined by single
/// spaces, from a kept window, so it is never one of the generic phrases (up to case).
pub proof fn lemma_phrases_are_distinctive(text: Seq<char>)
    ensures
        forall|k: int| 0 <= k < distinctive_phrases(text).len() ==> {
            &&& kept_window_phrase(words(text), #[trigger] distinctive_phrases(text)[k])
            &&& !generic_phrases().contains(lowercase(distinctive_phrases(text)[k]))
        },
{
    let ws = words(text);
    if ws.len() >= MIN_PHRASE_WORDS {
        let top = min_nat(MAX_PHRASE_WORDS as nat, ws.len());
        let all = all_candidates(ws, top);
        lemma_all_candidates_kept(ws, top);
        lemma_dedup_from(all);
        let d = dedup(all);
        let out = distinctive_phrases(text);
        assert forall|k: int| 0 <= k < out.len() implies {
            &&& kept_window_phrase(ws, #[trigger] out[k])
            &&& !generic_phrases().contains(lowercase(out[k]))
        } by {
            assert(out[k] == d[k]);
            assert(all.contains(d[k]));
            let j = choose|j: int| 0 <= j < all.len() && all[j] == d[k];
            assert(kept_window_phrase(ws, all[j]));
            let (i, n) = choose|i: int, n: int|
                MIN_PHRASE_WORDS <= n <= MAX_PHRASE_WORDS && 0 <= i && i + n <= ws.len() && all[j] == join(
                    #[trigger] window_at(ws, i, n),
                    " "@,
                ) && keeps(window_at(ws, i, n));
            assert(keeps(window_at(ws, i, n)));
        }
    }
}

/// The case-folded texts of tracked phrases, the list a new phrase is matched against.
pub open spec fn folded_names(es: Seq<DnaEntry>) -> Seq<Seq<char>> {
    lowercase_all(es.map_values(|e: DnaEntry| e.0))
}

/// How many of `cands` confirm the `i`-th of the phrases `es` tracked before them.
pub open spec fn hits(es: Seq<DnaEntry>, cands: Seq<Seq<char>>, i: int) -> nat
    decreases cands.len(),
{
    if cands.len() == 0 {
        0
    } else {
        hits(es, cands.drop_last(), i) + if first_match(folded_names(es), lowercase(cands.last())) == Some(
            i as nat,
        ) {
            1nat
        } else {
            0nat
        }
    }
}

proof fn lemma_first_match_append(a: Seq<Seq<char>>, b: Seq<Seq<char>>, x: Seq<char>)
    ensures
        first_match(a + b, x) == match first_match(a, x) {
            Some(i) => Some(i),
            None => match first_match(b, x) {
                Some(j) => Some(j + a.len()),
                None => None,
            },
        },
    decreases a.len(),
{
    if a.len() == 0 {
        assert(a + b =~= b);
    } else {
        assert((a + b).drop_first() =~= a.drop_first() + b);
        assert((a + b)[0] == a[0]);
        lemma_first_match_append(a.drop_first(), b, x);
    }
}

proof fn lemma_hits_prefix(es: Seq<DnaEntry>, cands: Seq<Seq<char>>, i: int, k: int)
    requires
        0 <= k <= cands.len(),
    ensures
        hits(es, cands.subrange(0, k), i) <= hits(es, cands, i),
    decreases cands.len(),
{
    if k < cands.len() {
        lemma_hits_prefix(es, cands.drop_last(), i, k);
        assert(cands.drop_last().subrange(0, k) =~= cands.subrange(0, k));
    } else {
        assert(cands.subrange(0, k) =~= cands);
    }
}

/// The names tracked after recording start with the names tracked before.
proof fn lemma_names_extend(es: Seq<DnaEntry>, r: Seq<DnaEntry>)
    requires
        r.len() >= es.len(),
        forall|i: int| 0 <= i < es.len() ==> (#[trigger] r[i]).0 == es[i].0,
    ensures
        folded_names(r) == folded_names(es) + folded_names(r.subrange(es.len() as int, r.len() as int)),
{
    assert(folded_names(r) =~= folded_names(es) + folded_names(r.subrange(es.len() as int, r.len() as int)));
}

/// While recording, each phrase tracked before is confirmed once per candidate whose first
/// match it is, and each newly tracked phrase is confirmed at most once per candidate.
proof fn lemma_record_counts(es: Seq<DnaEntry>, cands: Seq<Seq<char>>, times: Seq<Timestamp>)
    ensures
        forall|i: int| 0 <= i < es.len() ==> (#[trigger] record_all(es, cands, times)[i]).1 == es[i].1 + hits(
            es,
            cands,
            i,
        ),
        forall|i: int| es.len() <= i < record_all(es, cands, times).len() ==> (#[trigger] record_all(
            es,
            cands,
            times,
        )[i]).1 <= cands.len(),
    decreases cands.len(),
{
    if cands.len() > 0 {
        let prev = record_all(es, cands.drop_last(), times);
        let c = cands.last();
        let t = times[cands.len() - 1];
        lemma_record_counts(es, cands.drop_last(), times);
        lemma_record_tracks(es, cands.drop_last(), times);
        lemma_names_extend(es, prev);
        let rest = prev.subrange(es.len() as int, prev.len() as int);
        lemma_first_match_append(folded_names(es), folded_names(rest), lowercase(c));
        lemma_first_match_found(folded_names(prev), lowercase(c));
        let r = record_all(es, cands, times);
        assert(r == record_one(prev, c, t));
        assert(folded_names(prev) == lowercase_all(prev.map_values(|e: DnaEntry| e.0)));
        assert forall|i: int| 0 <= i < es.len() implies (#[trigger] r[i]).1 == es[i].1 + hits(es, cands, i) by {
            assert(hits(es, cands, i) == hits(es, cands.drop_last(), i) + if first_match(
                folded_names(es),
                lowercase(c),
            ) == Some(i as nat) {
                1nat
            } else {
                0nat
            });
        }
    }
}

/// A phrase confirmed while recording has room for one more confirmation when the counts
/// before recording leave room for all of a text's candidates.
proof fn lemma_count_room(
    e0: Seq<DnaEntry>,
    cands: Seq<Seq<char>>,
    times: Seq<Timestamp>,
    k: int,
    i: int,
)
    requires
        0 <= k < cands.len() <= MAX_PHRASES_PER_TEXT,
        forall|j: int| 0 <= j < e0.len() ==> #[trigger] e0[j].1 + hits(e0, cands, j) <= u32::MAX,
        first_match(folded_names(record_all(e0, cands.subrange(0, k), times)), lowercase(cands[k])) == Some(
            i as nat,
        ),
        0 <= i < record_all(e0, cands.subrange(0, k), times).len(),
    ensures
        record_all(e0, cands.subrange(0, k), times)[i].1 + 1 <= u32::MAX,
{
    let pre = cands.subrange(0, k);
    let es = record_all(e0, pre, times);
    lemma_record_counts(e0, pre, times);
    if i < e0.len() {
        lemma_record_tracks(e0, pre, times);
        lemma_names_extend(e0, es);
        let rest = es.subrange(e0.len() as int, es.len() as int);
        lemma_first_match_append(folded_names(e0), folded_names(rest), lowercase(cands[k]));
        lemma_first_match_found(folded_names(e0), lowercase(cands[k]));
        let next = cands.subrange(0, k + 1);
        assert(next.drop_last() =~= pre);
        assert(next.last() == cands[k]);
        assert(hits(e0, next, i) == hits(e0, pre, i) + 1);
        lemma_hits_prefix(e0, cands, i, k + 1);
        assert(e0[i].1 + hits(e0, cands, i) <= u32::MAX);
    }
}

proof fn lemma_size_candidates_has(ws: Seq<Seq<char>>, size: nat, starts: nat, i: int)
    requires
        0 <= i < starts,
        starts - 1 + size <= ws.len(),
        keeps(window_at(ws, i, size as int)),
    ensures
        size_candidates(ws, size, starts).contains(join(window_at(ws, i, size as int), " "@)),
    decreases starts,
{
    let prev = size_candidates(ws, size, (starts - 1) as nat);
    let w = ws.subrange(starts - 1, starts - 1 + size);
    if i == starts - 1 {
        assert(w == window_at(ws, i, size as int));
        assert(size_candidates(ws, size, starts) == prev.push(join(w, " "@)));
        assert(size_candidates(ws, size, starts)[prev.len() as int] == join(w, " "@));
    } else {
        lemma_size_candidates_has(ws, size, (starts - 1) as nat, i);
        let k = choose|k: int| 0 <= k < prev.len() && prev[k] == join(window_at(ws, i, size as int), " "@);
        if keeps(w) {
            assert(size_candidates(ws, size, starts)[k] == prev[k]);
        }
    }
}

proof fn lemma_all_candidates_has(ws: Seq<Seq<char>>, top: nat, i: int, n: int)
    requires
        MIN_PHRASE_WORDS <= n <= top <= ws.len(),
        0 <= i,
        i + n <= ws.len(),
        keeps(window_at(ws, i, n)),
    ensures
        all_candidates(ws, top).contains(join(window_at(ws, i, n), " "@)),
    decreases top,
{
    let a = all_candidates(ws, (top - 1) as nat);
    let b = size_candidates(ws, top, (ws.len() - top + 1) as nat);
    assert(all_candidates(ws, top) == a + b);
    if n == top {
        lemma_size_candidates_has(ws, top, (ws.len() - top + 1) as nat, i);
        let k = choose|k: int| 0 <= k < b.len() && b[k] == join(window_at(ws, i, n), " "@);
        assert((a + b)[a.len() + k] == b[k]);
    } else {
        lemma_all_candidates_has(ws, (top - 1) as nat, i, n);
        let k = choose|k: int| 0 <= k < a.len() && a[k] == join(window_at(ws, i, n), " "@);
        assert((a + b)[k] == a[k]);
    }
}

proof fn lemma_dedup_keeps<A>(s: Seq<A>, x: A)
    requires
        s.contains(x),
    ensures
        dedup(s).contains(x),
    decreases s.len(),
{
    if s.len() > 1 {
        let d = dedup(s.drop_last());
        if x == s.last() {
            if s.last() == s[s.len() - 2] {
                assert(s.drop_last()[s.len() - 2] == x);
                lemma_dedup_keeps(s.drop_last(), x);
            } else {
                assert(dedup(s) == d.push(x));
                assert(dedup(s)[d.len() as int] == x);
            }
        } else {
            let k = choose|k: int| 0 <= k < s.len() && s[k] == x;
            assert(k < s.len() - 1);
            assert(s.drop_last()[k] == x);
            lemma_dedup_keeps(s.drop_last(), x);
            let j = choose|j: int| 0 <= j < d.len() && d[j] == x;
            if s.last() != s[s.len() - 2] {
                assert(dedup(s)[j] == d[j]);
            }
        }
    }
}

/// Every kept window of 2 to 5 consecutive words is among the phrases extracted from the
/// text, as long as the candidate phrases (neighbouring repeats merged) number at most
/// ten, the most that are extracted.
pub proof fn lemma_kept_window_extracted(text: Seq<char>, i: int, n: int)
    requires
        MIN_PHRASE_WORDS <= n <= MAX_PHRASE_WORDS,
        0 <= i,
        i + n <= words(text).len(),
        keeps(window_at(words(text), i, n)),
        dedup(all_candidates(words(text), min_nat(MAX_PHRASE_WORDS as nat, words(text).len()))).len()
            <= MAX_PHRASES_PER_TEXT,
    ensures
        distinctive_phrases(text).contains(join(window_at(words(text), i, n), " "@)),
{
    let ws = words(text);
    let top = min_nat(MAX_PHRASE_WORDS as nat, ws.len());
    lemma_all_candidates_has(ws, top, i, n);
    lemma_dedup_keeps(all_candidates(ws, top), join(window_at(ws, i, n), " "@));
    let d = dedup(all_candidates(ws, top));
    assert(d.subrange(0, min_nat(MAX_PHRASES_PER_TEXT as nat, d.len()) as int) =~= d);
}

/// Merging neighbouring repeats leaves no two equal neighbours and loses no value.
pub proof fn lemma_dedup_merges_neighbours<A>(s: Seq<A>)
    ensures
        forall|i: int| 0 <= i < dedup(s).len() - 1 ==> #[trigger] dedup(s)[i] != dedup(s)[i + 1],
        forall|x: A| s.contains(x) <==> #[trigger] dedup(s).contains(x),
    decreases s.len(),
{
    lemma_dedup_from(s);
    assert forall|x: A| s.contains(x) implies #[trigger] dedup(s).contains(x) by {
        lemma_dedup_keeps(s, x);
    }
    assert forall|x: A| #[trigger] dedup(s).contains(x) implies s.contains(x) by {
        let k = choose|k: int| 0 <= k < dedup(s).len() && dedup(s)[k] == x;
        assert(s.contains(dedup(s)[k]));
    }
    if s.len() > 1 {
        lemma_dedup_merges_neighbours(s.drop_last());
        let d = dedup(s.drop_last());
        if s.last() != s[s.len() - 2] {
            lemma_dedup_last(s.drop_last());
            assert forall|i: int| 0 <= i < dedup(s).len() - 1 implies #[trigger] dedup(s)[i] != dedup(s)[i + 1] by {
                if i + 1 < d.len() {
                    assert(dedup(s)[i] == d[i]);
                    assert(dedup(s)[i + 1] == d[i + 1]);
                } else {
                    assert(dedup(s)[i] == d[d.len() - 1]);
                }
            }
        }
    }
}

/// The last value kept is the last value of a nonempty sequence.
proof fn lemma_dedup_last<A>(s: Seq<A>)
    requires
        s.len() > 0,
    ensures
        dedup(s).len() > 0,
        dedup(s)[dedup(s).len() - 1] == s[s.len() - 1],
    decreases s.len(),
{
    if s.len() > 1 && s.last() == s[s.len() - 2] {
        lemma_dedup_last(s.drop_last());
    }
}

/// The match reported for `x` is the first entry of `list` equal to it, and none is
/// reported exactly when no entry is.
pub proof fn lemma_first_match_is_first(list: Seq<Seq<char>>, x: Seq<char>)
    ensures
        first_match(list, x) matches Some(i) ==> i < list.len() && list[i as int] == x && forall|j: int|
            0 <= j < i ==> #[trigger] list[j] != x,
        first_match(list, x) is None <==> !list.contains(x),
    decreases list.len(),
{
    if list.len() > 0 {
        lemma_first_match_is_first(list.drop_first(), x);
        if list[0] != x {
            if let Some(i) = first_match(list, x) {
                assert forall|j: int| 0 <= j < i implies #[trigger] list[j] != x by {
                    if j > 0 {
                        assert(list[j] == list.drop_first()[j - 1]);
                    }
                }
                assert(list[i as int] == list.drop_first()[i - 1]);
            }
            if list.contains(x) {
                let k = choose|k: int| 0 <= k < list.len() && list[k] == x;
                assert(list.drop_first()[k - 1] == x);
            }
            if list.drop_first().contains(x) {
                let k = choose|k: int| 0 <= k < list.drop_first().len() && list.drop_first()[k] == x;
                assert(list[k + 1] == x);
            }
        } else {
            assert(list.contains(x));
        }
    }
}

} // verus!
