//! Core data model for a writing persona.

use vstd::prelude::*;
use crate::time::Timestamp;

verus! {

/// A complete writing persona extracted from text samples: voice characteristics,
/// identity context, style rules, and example text.
#[derive(Debug, Clone)]
pub struct Persona {
    /// Metadata about this persona.
    pub meta: PersonaMeta,
    /// Who this person is (context, not style).
    pub identity: PersonaIdentity,
    /// How this person writes (the core of the persona).
    pub voice: PersonaVoice,
    /// Hard rules for generation.
    pub rules: PersonaRules,
}

/// Persona metadata: versioning, source, timestamps.
#[derive(Debug, Clone)]
pub struct PersonaMeta {
    /// Unique identifier.
    pub id: String,
    /// Display name for this persona.
    pub name: String,
    /// Schema version (for migration).
    pub version: u32,
    /// When this persona was first created.
    pub created_at: Timestamp,
    /// When this persona was last updated.
    pub updated_at: Timestamp,
    /// How the persona was created.
    pub source: PersonaSource,
    /// Number of text samples analyzed.
    pub samples_analyzed: usize,
}

/// How a persona was created.
#[derive(Debug, Clone, Copy, PartialEq, Eq, Structural)]
pub enum PersonaSource {
    /// Automatically extracted from text samples.
    Extracted,
    /// Manually defined by a user.
    Manual,
    /// Incrementally updated from new samples.
    Refreshed,
}

/// Identity context: who the person is, not how they write.
#[derive(Debug, Clone)]
pub struct PersonaIdentity {
    /// One-sentence description.
    pub bio: String,
    /// Topics they demonstrate expertise in (2-4).
    pub expertise: Vec<String>,
    /// Their unique lens on the world.
    pub perspective: String,
}

impl Default for PersonaIdentity {
    fn default() -> (id: Self)
        ensures
            id.bio@.len() == 0,
            id.expertise@.len() == 0,
            id.perspective@.len() == 0,
    {
        PersonaIdentity { bio: String::new(), expertise: Vec::new(), perspective: String::new() }
    }
}

/// The dimensions of writing voice.
#[derive(Debug, Clone)]
pub struct PersonaVoice {
    /// 3-5 adjectives describing their tone (e.g., "sharp", "witty", "blunt").
    pub tone_words: Vec<String>,
    /// Free-text description of their writing style.
    pub writing_style: String,
    /// How they use humor (or "none detected").
    pub humor_style: String,
    /// How they express emotions in writing.
    pub emotional_range: String,
    /// Typical sentence length.
    pub sentence_length: SentenceLength,
    /// Punctuation habits.
    pub punctuation_style: String,
    /// 4-5 sentence coaching profile in 2nd person; it drives style matching.
    pub voice_summary: String,
    /// Representative example texts (exact copies from samples).
    pub examples: Vec<String>,
    /// Distinctive phrases confirmed by reuse.
    pub voice_dna: Vec<DnaPhrase>,
}

/// Typical sentence length bucket.
#[derive(Debug, Clone, Copy, PartialEq, Eq, Structural)]
pub enum SentenceLength {
    VeryShort,
    Short,
    Medium,
    Long,
}

impl Default for SentenceLength {
    fn default() -> (s: Self)
        ensures
            s == SentenceLength::Medium,
    {
        SentenceLength::Medium
    }
}

/// A distinctive phrase confirmed by repeated appearance.
#[derive(Debug, Clone)]
pub struct DnaPhrase {
    /// The phrase itself (2-5 words).
    pub phrase: String,
    /// How many times this phrase has been confirmed.
    pub confirmed_by: u32,
    /// When first detected.
    pub first_seen: Timestamp,
}

/// Hard rules that constrain generation output.
#[derive(Debug, Clone)]
pub struct PersonaRules {
    /// Words to never use in generated output.
    pub banned_words: Vec<String>,
    /// Sentence patterns to avoid (regex-compatible).
    pub banned_patterns: Vec<String>,
    /// Maximum sentences per output.
    pub max_sentences: usize,
    /// Maximum characters per output.
    pub max_chars: usize,
    /// Whether emoji are allowed.
    pub emoji_allowed: bool,
    /// Whether profanity is allowed.
    pub profanity_allowed: bool,
}

/// The sentence limit of rules that do not set one.
pub fn default_max_sentences() -> (n: usize)
    ensures
        n == 4,
{
    4
}

/// The character limit of rules that do not set one.
pub fn default_max_chars() -> (n: usize)
    ensures
        n == 500,
{
    500
}

impl Default for PersonaRules {
    fn default() -> (r: Self)
        ensures
            r.banned_words@.len() == 0,
            r.banned_patterns@.len() == 0,
            r.max_sentences == 4,
            r.max_chars == 500,
            !r.emoji_allowed,
            !r.profanity_allowed,
    {
        PersonaRules {
            banned_words: Vec::new(),
            banned_patterns: Vec::new(),
            max_sentences: default_max_sentences(),
            max_chars: default_max_chars(),
            emoji_allowed: false,
            profanity_allowed: false,
        }
    }
}

} // verus!
