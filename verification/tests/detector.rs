use laminae::detector::{detect_patterns, PatternType};
use laminae::tracker::EditRecord;

fn make_edits(pairs: &[(&str, &str)]) -> Vec<EditRecord> {
    pairs.iter().map(|(o, e)| EditRecord::new(o, e)).collect()
}

#[test]
fn test_detect_shortened() {
    let edits = make_edits(&[
        ("This is a very long sentence with many unnecessary words that nobody needs to read.", "Short and direct."),
        ("Another extremely verbose output that goes on and on without saying much at all.", "Concise version."),
        ("Yet another unnecessarily long AI generated response with padding everywhere.", "Third short one."),
    ]);
    let refs: Vec<&EditRecord> = edits.iter().collect();
    let patterns = detect_patterns(&refs, 1000);
    assert!(patterns.iter().any(|p| p.pattern_type == PatternType::Shortened));
}

#[test]
fn test_detect_removed_question() {
    let edits = make_edits(&[
        ("Good point. What do you think?", "Good point."),
        ("Interesting take. How will this play out?", "Interesting take."),
        ("Normal text without questions.", "Normal text."),
    ]);
    let refs: Vec<&EditRecord> = edits.iter().collect();
    let patterns = detect_patterns(&refs, 1000);
    assert!(patterns.iter().any(|p| p.pattern_type == PatternType::RemovedQuestion));
}

#[test]
fn test_detect_removed_ai_phrases() {
    let edits = make_edits(&[
        ("It's worth noting that Rust is fast.", "Rust is fast."),
        ("Moving forward, we should use Rust.", "We should use Rust."),
        ("At the end of the day, types matter.", "Types matter."),
    ]);
    let refs: Vec<&EditRecord> = edits.iter().collect();
    let patterns = detect_patterns(&refs, 1000);
    assert!(patterns.iter().any(|p| p.pattern_type == PatternType::RemovedAiPhrases));
}

#[test]
fn test_detect_tone_stronger() {
    let edits = make_edits(&[
        ("This could perhaps work.", "This definitely works."),
        ("It might be useful.", "It's absolutely essential."),
        ("Maybe consider this approach.", "Always use this approach."),
    ]);
    let refs: Vec<&EditRecord> = edits.iter().collect();
    let patterns = detect_patterns(&refs, 1000);
    assert!(patterns.iter().any(|p| p.pattern_type == PatternType::ChangedToneStronger));
}

#[test]
fn test_detect_added_content() {
    let edits = make_edits(&[
        ("Short.", "Short. But actually there's way more to say about this topic and here's my full take on why it matters for everyone."),
        ("Brief.", "Brief. However I want to expand significantly on this point because it deserves a thorough explanation."),
    ]);
    let refs: Vec<&EditRecord> = edits.iter().collect();
    let patterns = detect_patterns(&refs, 1000);
    assert!(patterns.iter().any(|p| p.pattern_type == PatternType::AddedContent));
}

#[test]
fn test_empty_edits() {
    let patterns = detect_patterns(&[], 1000);
    assert!(patterns.is_empty());
}

#[test]
fn test_below_frequency_threshold() {
    let edits = make_edits(&[
        ("Original one.", "Edited one."),
        ("Original two.", "Original two."),
        ("Original three.", "Original three."),
        ("Original four.", "Original four."),
        ("Original five.", "Original five."),
    ]);
    let refs: Vec<&EditRecord> = edits.iter().collect();
    let patterns = detect_patterns(&refs, 5000);
    assert!(
        patterns.is_empty()
            || patterns
                .iter()
                .all(|p| p.frequency_pct.num as f64 / p.frequency_pct.den as f64 >= 50.0)
    );
}

use laminae::detector::examples_fit;
use laminae::ratio::Ratio;

#[test]
fn test_reports_meet_threshold() {
    let edits = make_edits(&[
        ("This is a very long sentence with many unnecessary words that nobody needs.", "Short."),
        ("Keep this.", "Keep this."),
        ("Also keep.", "Also keep."),
        ("And this.", "And this."),
    ]);
    let refs: Vec<&EditRecord> = edits.iter().collect();
    let high = detect_patterns(&refs, 3000);
    assert!(!high.iter().any(|p| p.pattern_type == PatternType::Shortened));
    let low = detect_patterns(&refs, 2000);
    let shortened = low.iter().find(|p| p.pattern_type == PatternType::Shortened).unwrap();
    assert_eq!(shortened.count, 1);
    assert!(shortened.frequency_pct == Ratio { num: 100, den: 4 });
    assert_eq!(shortened.examples.len(), 1);
    assert_eq!(shortened.examples[0].1, "Short.");
}

#[test]
fn test_examples_truncated_to_80_bytes() {
    let long = "x".repeat(100);
    let edits = make_edits(&[(long.as_str(), "y")]);
    let refs: Vec<&EditRecord> = edits.iter().collect();
    let patterns = detect_patterns(&refs, 1000);
    let p = patterns.iter().find(|p| p.pattern_type == PatternType::Shortened).unwrap();
    assert_eq!(p.examples[0].0, format!("{}...", "x".repeat(80)));
}

#[test]
fn test_examples_fit() {
    let split = format!("a{}", "\u{e9}".repeat(50));
    let edits = make_edits(&[(split.as_str(), "Short.")]);
    let refs: Vec<&EditRecord> = edits.iter().collect();
    assert!(!examples_fit(&refs, 1000));
    let ok = make_edits(&[("A long enough sentence to be shortened by the user.", "Short.")]);
    let ok_refs: Vec<&EditRecord> = ok.iter().collect();
    assert!(examples_fit(&ok_refs, 1000));
}

use laminae::detector::detect_patterns_checked;

#[test]
fn test_detect_checked() {
    let split = format!("a{}", "\u{e9}".repeat(50));
    let edits = make_edits(&[(split.as_str(), "Short.")]);
    let refs: Vec<&EditRecord> = edits.iter().collect();
    assert!(detect_patterns_checked(&refs, 1000).is_none());
    let ok = make_edits(&[("A long enough sentence to be shortened by the user.", "Short.")]);
    let ok_refs: Vec<&EditRecord> = ok.iter().collect();
    let found = detect_patterns_checked(&ok_refs, 1000).unwrap();
    assert!(found.iter().any(|p| p.pattern_type == PatternType::Shortened));
}
