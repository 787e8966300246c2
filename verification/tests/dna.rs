use laminae::dna::{extract_distinctive_phrases, VoiceDna, MAX_DNA_PHRASES};

#[test]
fn test_extract_distinctive_bold_words() {
    let phrases = extract_distinctive_phrases("Nobody reads your README. Ship it or delete it.");
    assert!(!phrases.is_empty());
    let joined = phrases.join(" ").to_lowercase();
    assert!(joined.contains("nobody"));
}

#[test]
fn test_extract_distinctive_contractions() {
    let phrases = extract_distinctive_phrases("That's the whole point. You can't fake this.");
    assert!(!phrases.is_empty());
}

#[test]
fn test_extract_distinctive_skips_generic() {
    let phrases = extract_distinctive_phrases("the fact that the thing is there");
    let has_generic = phrases
        .iter()
        .any(|p| p.to_lowercase() == "the fact" || p.to_lowercase() == "that the");
    assert!(!has_generic);
}

#[test]
fn test_record_success_increments() {
    let mut dna = VoiceDna::empty();
    dna.record_success("Nobody reads your README.");
    let initial = dna.phrases().iter().find(|p| p.phrase.to_lowercase().contains("nobody"));
    assert!(initial.is_some());
    dna.record_success("Nobody reads docs either.");
    let updated = dna.phrases().iter().find(|p| p.phrase.to_lowercase().contains("nobody"));
    assert!(updated.is_some());
}

#[test]
fn test_dna_caps_at_max() {
    let mut dna = VoiceDna::empty();
    for i in 0..50 {
        dna.record_success(&format!("Never forget rule number {}. It's absolutely critical.", i));
    }
    assert!(dna.phrases().len() <= MAX_DNA_PHRASES);
}

#[test]
fn test_empty_text() {
    let phrases = extract_distinctive_phrases("");
    assert!(phrases.is_empty());
}

#[test]
fn test_short_text() {
    let phrases = extract_distinctive_phrases("Hi");
    assert!(phrases.is_empty());
}

use laminae::model::DnaPhrase;
use laminae::time::Timestamp;

#[test]
fn test_cap_keeps_most_confirmed() {
    let mut phrases = Vec::new();
    for i in 0..30 {
        phrases.push(DnaPhrase {
            phrase: format!("p{} q{}", i, i),
            confirmed_by: 5,
            first_seen: Timestamp { secs: 1, nanos: 0 },
        });
    }
    let mut dna = VoiceDna::new(phrases);
    dna.record_success("Nobody reads docs");
    let kept = dna.into_phrases();
    assert_eq!(kept.len(), MAX_DNA_PHRASES);
    assert!(kept.iter().all(|p| p.confirmed_by == 5));
}

#[test]
fn test_record_confirms_regardless_of_case() {
    let mut dna = VoiceDna::empty();
    dna.record_success("NOBODY READS");
    assert_eq!(dna.phrases().len(), 1);
    dna.record_success("nobody reads");
    assert_eq!(dna.phrases().len(), 1);
    assert_eq!(dna.phrases()[0].phrase, "NOBODY READS");
    assert_eq!(dna.phrases()[0].confirmed_by, 2);
}

#[test]
fn test_extracted_phrases_are_short_windows() {
    let text = "Nobody reads your README. Ship it or delete it. That's the whole point.";
    let phrases = extract_distinctive_phrases(text);
    assert!(!phrases.is_empty() && phrases.len() <= 10);
    let generic = ["the fact", "that the", "in the", "of the", "this is", "i think"];
    for p in &phrases {
        let n = p.split_whitespace().count();
        assert!((2..=5).contains(&n));
        assert!(text.contains(p.as_str()));
        assert!(!generic.contains(&p.to_lowercase().as_str()));
    }
}

#[test]
fn test_extract_exact_phrases() {
    let phrases = extract_distinctive_phrases("never give up");
    assert_eq!(phrases, vec!["never give".to_string(), "never give up".to_string()]);
}

#[test]
fn test_record_checked_refuses_overflow() {
    let full = DnaPhrase { phrase: "nobody reads".into(), confirmed_by: u32::MAX, first_seen: Timestamp { secs: 1, nanos: 0 } };
    let mut dna = VoiceDna::new(vec![full]);
    assert!(!dna.record_success_checked("Nobody reads"));
    assert_eq!(dna.phrases().len(), 1);
    assert_eq!(dna.phrases()[0].confirmed_by, u32::MAX);
    let mut room = VoiceDna::new(vec![DnaPhrase {
        phrase: "nobody reads".into(),
        confirmed_by: u32::MAX - 1,
        first_seen: Timestamp { secs: 1, nanos: 0 },
    }]);
    assert!(room.record_success_checked("Nobody reads"));
    assert_eq!(room.phrases()[0].confirmed_by, u32::MAX);
}

#[test]
fn test_phrases_ranked_by_confirmation() {
    let t = Timestamp { secs: 1, nanos: 0 };
    let dna = VoiceDna::new(vec![
        DnaPhrase { phrase: "low one".into(), confirmed_by: 1, first_seen: t },
        DnaPhrase { phrase: "high one".into(), confirmed_by: 5, first_seen: t },
        DnaPhrase { phrase: "nobody reads".into(), confirmed_by: 1, first_seen: t },
    ]);
    let names: Vec<&str> = dna.phrases().iter().map(|p| p.phrase.as_str()).collect();
    assert_eq!(names, vec!["high one", "low one", "nobody reads"]);
    let mut dna = dna;
    dna.record_success("NOBODY READS");
    let names: Vec<&str> = dna.phrases().iter().map(|p| p.phrase.as_str()).collect();
    assert_eq!(names, vec!["high one", "nobody reads", "low one"]);
    assert_eq!(dna.phrases()[1].confirmed_by, 2);
}
