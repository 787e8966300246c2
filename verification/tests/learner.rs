use laminae::learner::{analysis_prompt, truncate};

#[test]
fn test_truncate() {
    assert_eq!(truncate("hello", 10), "hello");
    assert_eq!(truncate("hello world", 5), "hello");
}

#[test]
fn test_identical_returns_none() {
    let result = analysis_prompt("same text", "same text");
    assert!(result.is_none());
}

use laminae::learner::instruction_from_response;

#[test]
fn test_prompt_for_real_edit() {
    let p = analysis_prompt("Long text.", "Short.").unwrap();
    assert!(p.starts_with("AI OUTPUT:\nLong text.\n\nUSER'S EDITED VERSION:\nShort.\n\nCompare these two texts."));
    assert!(p.ends_with("Respond with ONLY the instruction or SKIP. No explanation."));
}

#[test]
fn test_instruction_from_reply() {
    let i = instruction_from_response("  Keep under 2 sentences \n").unwrap();
    assert_eq!(i.text, "Keep under 2 sentences");
    assert_eq!(i.source_count, 1);
    assert!(instruction_from_response("SKIP").is_none());
    assert!(instruction_from_response("   ").is_none());
    assert!(instruction_from_response("abc").is_none());
    assert!(instruction_from_response(&"w".repeat(201)).is_none());
    assert!(instruction_from_response(&"w".repeat(200)).is_some());
}

#[test]
fn test_skip_in_any_case_is_dropped() {
    assert!(instruction_from_response("\u{17f}kip").is_none());
    assert!(instruction_from_response("skipped").is_some());
}
