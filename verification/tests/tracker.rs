use laminae::ratio::Ratio;
use laminae::tracker::EditRecord;

fn value(r: Ratio) -> f64 {
    r.num as f64 / r.den as f64
}

#[test]
fn test_edit_detected() {
    let record = EditRecord::new("Hello world", "Hello");
    assert!(record.was_edited);
    assert!(record.length_delta < 0);
}

#[test]
fn test_no_edit_detected() {
    let record = EditRecord::new("Hello world", "Hello world");
    assert!(!record.was_edited);
}

#[test]
fn test_removal_pct() {
    let record = EditRecord::new("This is a long sentence with many words", "Short");
    assert!(value(record.removal_pct()) > 50.0);
}

#[test]
fn test_addition_pct() {
    let record = EditRecord::new("Short", "Short text with many more words added here");
    assert!(value(record.addition_pct()) > 100.0);
}

#[test]
fn test_word_overlap() {
    let record = EditRecord::new("hello world foo bar", "hello world baz qux");
    let overlap = value(record.word_overlap());
    assert!(overlap > 0.3 && overlap < 0.7);
}

#[test]
fn test_identical_overlap() {
    let record = EditRecord::new("same text", "same text");
    assert!((value(record.word_overlap()) - 1.0).abs() < 0.01);
}

#[test]
fn test_removal_never_exceeds_all() {
    let record = EditRecord::new("abcd", "");
    assert!(record.removal_pct() == Ratio { num: 400, den: 4 });
    assert!(record.addition_pct() == Ratio { num: 0, den: 1 });
    assert_eq!(record.length_delta, -4);
    assert_eq!(record.word_delta, -1);
}

#[test]
fn test_overlap_is_symmetric() {
    let a = EditRecord::new("hello world foo", "hello there");
    let b = EditRecord::new("hello there", "hello world foo");
    assert!(a.word_overlap() == b.word_overlap());
    assert!(a.word_overlap() == Ratio { num: 1, den: 3 });
}

#[test]
fn test_addition_exact() {
    let record = EditRecord::new("ab", "abcdef");
    assert!(record.addition_pct() == Ratio { num: 400, den: 2 });
    assert!(record.removal_pct() == Ratio { num: 0, den: 1 });
}

#[test]
fn test_whitespace_only_change_is_not_an_edit() {
    let record = EditRecord::new("  same  ", "same");
    assert!(!record.was_edited);
    assert!(record.removal_pct() == Ratio { num: 0, den: 1 });
}
