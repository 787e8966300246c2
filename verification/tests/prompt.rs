use laminae::model::{
    DnaPhrase, Persona, PersonaIdentity, PersonaMeta, PersonaRules, PersonaSource, PersonaVoice,
    SentenceLength,
};
use laminae::prompt::compile_persona;
use laminae::time::Timestamp;

fn test_persona() -> Persona {
    Persona {
        meta: PersonaMeta {
            id: "test-1".into(),
            name: "Test Persona".into(),
            version: 1,
            created_at: Timestamp { secs: 1_700_000_000, nanos: 0 },
            updated_at: Timestamp { secs: 1_700_000_000, nanos: 0 },
            source: PersonaSource::Extracted,
            samples_analyzed: 50,
        },
        identity: PersonaIdentity {
            bio: "A systems engineer who ships fast".into(),
            expertise: vec!["Rust".into(), "distributed systems".into()],
            perspective: "Pragmatic minimalist".into(),
        },
        voice: PersonaVoice {
            tone_words: vec!["sharp".into(), "direct".into(), "witty".into()],
            writing_style: "Short punchy sentences with no padding".into(),
            humor_style: "Dry sarcasm, never forced".into(),
            emotional_range: "Controlled intensity \u{2014} calm until provoked".into(),
            sentence_length: SentenceLength::Short,
            punctuation_style: "Heavy periods, rare commas, occasional dashes".into(),
            voice_summary: "You write like a telegram operator with opinions. Every word earns its place. You never hedge.".into(),
            examples: vec!["Ship it. Fix it later.".into(), "Nobody reads your README.".into()],
            voice_dna: vec![DnaPhrase { phrase: "ship it".into(), confirmed_by: 5, first_seen: Timestamp { secs: 1_700_000_000, nanos: 0 } }],
        },
        rules: PersonaRules {
            banned_words: vec!["furthermore".into(), "moreover".into()],
            ..Default::default()
        },
    }
}

#[test]
fn test_compile_contains_voice_dna() {
    let prompt = compile_persona(&test_persona());
    assert!(prompt.contains("VOICE DNA"));
    assert!(prompt.contains("telegram operator"));
}

#[test]
fn test_compile_contains_tone() {
    let prompt = compile_persona(&test_persona());
    assert!(prompt.contains("sharp, direct, witty"));
}

#[test]
fn test_compile_contains_examples() {
    let prompt = compile_persona(&test_persona());
    assert!(prompt.contains("Ship it. Fix it later."));
    assert!(prompt.contains("STYLE REFERENCE"));
}

#[test]
fn test_compile_contains_banned() {
    let prompt = compile_persona(&test_persona());
    assert!(prompt.contains("BANNED WORDS"));
    assert!(prompt.contains("furthermore"));
}

#[test]
fn test_compile_contains_dna_phrases() {
    let prompt = compile_persona(&test_persona());
    assert!(prompt.contains("\"ship it\""));
}

#[test]
fn test_compile_no_humor_when_none() {
    let mut persona = test_persona();
    persona.voice.humor_style = "none detected".into();
    let prompt = compile_persona(&persona);
    assert!(!prompt.contains("HUMOR:"));
}

#[test]
fn test_compile_minimal_persona() {
    let persona = Persona {
        meta: PersonaMeta {
            id: "min".into(),
            name: "Minimal".into(),
            version: 1,
            created_at: Timestamp { secs: 1_700_000_000, nanos: 0 },
            updated_at: Timestamp { secs: 1_700_000_000, nanos: 0 },
            source: PersonaSource::Manual,
            samples_analyzed: 0,
        },
        identity: PersonaIdentity::default(),
        voice: PersonaVoice {
            tone_words: vec!["neutral".into()],
            writing_style: "Standard".into(),
            humor_style: String::new(),
            emotional_range: String::new(),
            sentence_length: SentenceLength::Medium,
            punctuation_style: String::new(),
            voice_summary: "You write plainly.".into(),
            examples: vec![],
            voice_dna: vec![],
        },
        rules: PersonaRules::default(),
    };
    let prompt = compile_persona(&persona);
    assert!(prompt.contains("You write plainly."));
    assert!(!prompt.contains("STYLE REFERENCE"));
}

#[test]
fn test_prompt_opens_with_voice_summary() {
    let p = test_persona();
    let prompt = compile_persona(&p);
    let head = format!("--- VOICE DNA (highest priority) ---\n{}", p.voice.voice_summary);
    assert!(prompt.starts_with(&head));
}

#[test]
fn test_prompt_exact_minimal() {
    let mut p = test_persona();
    p.identity = PersonaIdentity::default();
    p.voice.tone_words = vec!["calm".into()];
    p.voice.writing_style = "Plain.".into();
    p.voice.humor_style = "none detected".into();
    p.voice.emotional_range = String::new();
    p.voice.punctuation_style = String::new();
    p.voice.voice_summary = "Be brief.".into();
    p.voice.examples = vec![];
    p.voice.voice_dna = vec![];
    p.rules = PersonaRules { max_sentences: 2, max_chars: 140, ..Default::default() };
    let prompt = compile_persona(&p);
    assert_eq!(
        prompt,
        "--- VOICE DNA (highest priority) ---\nBe brief.\n\n---\n\nYOUR VOICE: calm. Plain.\n\nMAX LENGTH: 2 sentences, 140 characters"
    );
}

#[test]
fn test_rules_defaults() {
    let r = PersonaRules::default();
    assert_eq!(r.max_sentences, 4);
    assert_eq!(r.max_chars, 500);
    assert!(r.banned_words.is_empty() && !r.emoji_allowed && !r.profanity_allowed);
    assert!(SentenceLength::default() == SentenceLength::Medium);
}

#[test]
fn test_compile_documented_example() {
    let mut p = test_persona();
    p.identity = PersonaIdentity {
        bio: "A Rust developer".into(),
        expertise: vec!["systems programming".into()],
        perspective: "Pragmatic minimalist".into(),
    };
    p.voice.tone_words = vec!["direct".into(), "blunt".into()];
    p.voice.voice_dna = vec![];
    p.rules = PersonaRules::default();
    let prompt = compile_persona(&p);
    assert!(prompt.contains("VOICE DNA"));
    assert!(prompt.contains("direct, blunt"));
    assert!(prompt.contains("MAX LENGTH: 4 sentences, 500 characters"));
}

use laminae::sandbox::WindowsSandboxProvider;

#[test]
fn test_windows_provider() {
    let p = WindowsSandboxProvider;
    assert_eq!(p.name(), "windows-job");
    assert!(p.is_available());
}

#[test]
fn test_labels_only_with_sections() {
    let mut p = test_persona();
    p.identity.bio = String::new();
    p.voice.examples = vec![];
    p.voice.humor_style = "none detected".into();
    p.rules.max_sentences = 0;
    let prompt = compile_persona(&p);
    assert!(!prompt.contains("WHO YOU ARE: "));
    assert!(!prompt.contains("STYLE REFERENCE"));
    assert!(!prompt.contains("HUMOR: "));
    assert!(!prompt.contains("MAX LENGTH: "));
    let full = compile_persona(&test_persona());
    assert!(full.contains("WHO YOU ARE: ") && full.contains("STYLE REFERENCE"));
    assert!(full.contains("HUMOR: ") && full.contains("MAX LENGTH: "));
}
