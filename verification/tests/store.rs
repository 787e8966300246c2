use laminae::store::{InstructionStore, LearnedInstruction};
use laminae::time::Timestamp;

fn make_instruction(text: &str, count: u32) -> LearnedInstruction {
    LearnedInstruction { text: text.to_string(), source_count: count, added: Timestamp { secs: 1_700_000_000, nanos: 0 } }
}

#[test]
fn test_add_unique() {
    let mut store = InstructionStore::new(50, 8000);
    store.add(make_instruction("Never start with I think", 1));
    store.add(make_instruction("Keep under 2 sentences", 1));
    assert_eq!(store.len(), 2);
}

#[test]
fn test_dedup_similar() {
    let mut store = InstructionStore::new(50, 8000);
    store.add(make_instruction("Never start with I think", 1));
    store.add(make_instruction("Never start with I think please", 1));
    assert_eq!(store.len(), 1);
    assert_eq!(store.all()[0].source_count, 2);
}

#[test]
fn test_dedup_different() {
    let mut store = InstructionStore::new(50, 8000);
    store.add(make_instruction("Never start with I think", 1));
    store.add(make_instruction("Be more direct and concise", 1));
    assert_eq!(store.len(), 2);
}

#[test]
fn test_max_size_cap() {
    let mut store = InstructionStore::new(3, 10000);
    store.add(make_instruction("First instruction", 1));
    store.add(make_instruction("Second instruction", 5));
    store.add(make_instruction("Third instruction", 2));
    store.add(make_instruction("Fourth instruction", 10));
    assert!(store.len() <= 3);
    let top = store.top(3);
    assert!(top.iter().any(|i| i.text == "Fourth instruction"));
    assert!(top.iter().any(|i| i.text == "Second instruction"));
}

#[test]
fn test_top_ranking() {
    let mut store = InstructionStore::new(50, 10000);
    store.add(make_instruction("Low priority", 1));
    store.add(make_instruction("High priority", 10));
    store.add(make_instruction("Medium priority", 5));
    let top = store.top(2);
    assert_eq!(top[0].text, "High priority");
    assert_eq!(top[1].text, "Medium priority");
}

#[test]
fn test_empty_store() {
    let store = InstructionStore::new(50, 8000);
    assert!(store.is_empty());
    assert_eq!(store.len(), 0);
    assert!(store.top(5).is_empty());
}

#[test]
fn test_export() {
    let mut store = InstructionStore::new(50, 8000);
    store.add(make_instruction("Test instruction", 3));
    let exported = store.all();
    assert_eq!(exported.len(), 1);
    assert_eq!(exported[0].source_count, 3);
}

#[test]
fn test_store_never_holds_duplicates() {
    let mut store = InstructionStore::new(50, 7000);
    store.add(make_instruction("a b c d", 1));
    store.add(make_instruction("a b c d e", 1));
    store.add(make_instruction("x y z", 1));
    store.add(make_instruction("x y z w", 1));
    let all = store.all();
    assert_eq!(all.len(), 2);
    assert_eq!(all[0].text, "a b c d");
    assert_eq!(all[0].source_count, 2);
    assert_eq!(all[1].text, "x y z");
    assert_eq!(all[1].source_count, 2);
}

#[test]
fn test_top_lists_most_reinforced_first() {
    let mut store = InstructionStore::new(50, 10000);
    store.add(make_instruction("one", 3));
    store.add(make_instruction("two", 9));
    store.add(make_instruction("three", 1));
    store.add(make_instruction("four", 7));
    let counts: Vec<u32> = store.top(3).iter().map(|i| i.source_count).collect();
    assert_eq!(counts, vec![9, 7, 3]);
    assert_eq!(store.top(10).len(), 4);
    assert!(store.top(0).is_empty());
}

#[test]
fn test_cap_drops_oldest() {
    let mut store = InstructionStore::new(2, 10000);
    store.add(LearnedInstruction { text: "Alpha".into(), source_count: 5, added: Timestamp { secs: 1, nanos: 0 } });
    store.add(LearnedInstruction { text: "Beta".into(), source_count: 1, added: Timestamp { secs: 2, nanos: 0 } });
    store.add(LearnedInstruction { text: "Gamma".into(), source_count: 1, added: Timestamp { secs: 3, nanos: 0 } });
    let texts: Vec<String> = store.all().into_iter().map(|i| i.text).collect();
    assert_eq!(texts, vec!["Beta".to_string(), "Gamma".to_string()]);
}

#[test]
fn test_top_keeps_storage_order_on_ties() {
    let mut store = InstructionStore::new(50, 10000);
    store.add(make_instruction("first", 2));
    store.add(make_instruction("second", 7));
    store.add(make_instruction("third", 2));
    store.add(make_instruction("fourth", 2));
    let texts: Vec<&str> = store.top(3).iter().map(|i| i.text.as_str()).collect();
    assert_eq!(texts, vec!["second", "first", "third"]);
}

#[test]
fn test_cap_keeps_newest() {
    let mut store = InstructionStore::new(1, 10000);
    store.add(LearnedInstruction { text: "old".into(), source_count: 2, added: Timestamp { secs: 100, nanos: 0 } });
    store.add(LearnedInstruction { text: "new".into(), source_count: 2, added: Timestamp { secs: 200, nanos: 0 } });
    let all = store.all();
    assert_eq!(all.len(), 1);
    assert_eq!(all[0].text, "new");
}
