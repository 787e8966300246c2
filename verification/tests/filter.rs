use laminae::filter::{VoiceFilter, VoiceFilterConfig};

#[test]
fn test_clean_text_passes() {
    let filter = VoiceFilter::new(VoiceFilterConfig::default());
    let result = filter.check("Ship fast, break things. That's the only way.");
    assert!(result.passed);
    assert!(result.violations.is_empty());
    assert_eq!(result.severity, 0);
}

#[test]
fn test_ai_vocabulary_detected() {
    let filter = VoiceFilter::new(VoiceFilterConfig::default());
    let result = filter.check("It's important to note that shipping fast is crucial. Furthermore, the landscape of development is multifaceted.");
    assert!(!result.passed);
    assert_eq!(result.severity, 2);
    assert!(!result.violations.is_empty());
}

#[test]
fn test_meta_commentary_stripped() {
    let filter = VoiceFilter::new(VoiceFilterConfig::default());
    let result = filter.check("The post highlights an important trend in tech.");
    assert_eq!(result.severity, 2);
    assert!(
        result.cleaned.starts_with("An important") || result.cleaned.starts_with("an important")
    );
}

#[test]
fn test_trailing_question_detected() {
    let filter = VoiceFilter::new(VoiceFilterConfig::default());
    let result = filter.check("Strong point. What do you think?");
    assert!(result.violations.iter().any(|v| v.contains("question")));
}

#[test]
fn test_em_dash_replaced() {
    let filter = VoiceFilter::new(VoiceFilterConfig::default());
    let result = filter.check("China is winning \u{2014} and nobody sees it.");
    assert!(result.cleaned.contains(". "));
    assert!(!result.cleaned.contains('\u{2014}'));
}

#[test]
fn test_multi_paragraph_joined() {
    let config = VoiceFilterConfig { reject_multi_paragraph: true, ..Default::default() };
    let filter = VoiceFilter::new(config);
    let result = filter.check("Point one.\n\nPoint two.");
    assert!(!result.cleaned.contains("\n\n"));
}

#[test]
fn test_sentence_limit() {
    let config = VoiceFilterConfig { max_sentences: 2, ..Default::default() };
    let filter = VoiceFilter::new(config);
    let result = filter.check("First sentence. Second sentence. Third sentence. Fourth sentence.");
    let sentence_count = result
        .cleaned
        .split(['.', '!', '?'])
        .filter(|s| !s.trim().is_empty())
        .count();
    assert!(sentence_count <= 2);
}

#[test]
fn test_char_limit() {
    let config = VoiceFilterConfig { max_chars: 50, ..Default::default() };
    let filter = VoiceFilter::new(config);
    let long_text = "This is a very long piece of text that definitely exceeds the fifty character limit we set.";
    let result = filter.check(long_text);
    assert!(result.violations.iter().any(|v| v.contains("char limit")));
}

#[test]
fn test_custom_ai_phrases() {
    let config = VoiceFilterConfig {
        extra_ai_phrases: vec!["synergize the workflow".into()],
        ..Default::default()
    };
    let filter = VoiceFilter::new(config);
    let result = filter.check("We need to synergize the workflow to achieve results.");
    assert!(!result.passed);
}

#[test]
fn test_retry_hints_provided() {
    let filter = VoiceFilter::new(VoiceFilterConfig::default());
    let result = filter.check("The article highlights why it's important to note the significance of this paradigm shift. What do you think?");
    assert!(!result.retry_hints.is_empty());
    assert!(result.retry_hints.len() >= 2);
}

#[test]
fn test_meta_opener_stripped_and_capitalized() {
    let filter = VoiceFilter::new(VoiceFilterConfig::default());
    let r = filter.check("The post shows real courage here.");
    assert_eq!(r.cleaned, "Real courage here.");
    assert_eq!(r.severity, 2);
    assert!(!r.passed);
    assert_eq!(r.violations, vec!["Meta-commentary opener detected".to_string()]);
}

#[test]
fn test_generic_trailing_question_is_severe() {
    let filter = VoiceFilter::new(VoiceFilterConfig::default());
    let r = filter.check("Great launch. Thoughts?");
    assert_eq!(r.cleaned, "Great launch.");
    assert_eq!(r.severity, 2);
    let r2 = filter.check("Great launch. Is it live?");
    assert_eq!(r2.cleaned, "Great launch.");
    assert_eq!(r2.severity, 1);
    assert!(r2.passed);
}

#[test]
fn test_clean_text_untouched() {
    let filter = VoiceFilter::new(VoiceFilterConfig::default());
    let r = filter.check("Ship it today.");
    assert_eq!(r.cleaned, "Ship it today.");
    assert_eq!(r.severity, 0);
    assert!(r.violations.is_empty() && r.retry_hints.is_empty());
}

#[test]
fn test_documented_slop_example() {
    let f = VoiceFilter::new(VoiceFilterConfig::default());
    let r = f.check("It's important to note that...");
    assert!(!r.passed);
    assert_eq!(r.severity, 2);
    assert_eq!(r.violations[0], "AI vocabulary detected: it's important to note");
    assert_eq!(
        r.retry_hints[0],
        "DO NOT use formal/academic language. Write like a person texting, not an analyst."
    );
}

#[test]
fn test_char_limit_counts_characters() {
    let config = VoiceFilterConfig { max_chars: 3, ..VoiceFilterConfig::default() };
    let filter = VoiceFilter::new(config);
    let r = filter.check("\u{e9}\u{e9}");
    assert!(r.violations.is_empty());
    assert_eq!(r.severity, 0);
    let r2 = filter.check("\u{e9}\u{e9}\u{e9}\u{e9}");
    assert_eq!(r2.violations, vec!["Text exceeds 3 char limit (4 chars)".to_string()]);
    assert_eq!(r2.retry_hints, vec!["SHORTER. Be more concise.".to_string()]);
    assert_eq!(r2.severity, 1);
}
