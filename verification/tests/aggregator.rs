use wordcount::{AddWord, GetCounts, WordCountAggregator, WordCountTable};

fn record_all(aggregator: &mut WordCountAggregator, words: &[&str]) {
    for word in words {
        aggregator.add_word(AddWord(word.to_string()));
    }
}

fn sorted(table: &WordCountTable) -> Vec<(String, u64)> {
    let mut entries = table.entries();
    entries.sort();
    entries
}

fn occurrences(words: &[&str], word: &str) -> u64 {
    let mut n = 0;
    for w in words {
        if *w == word {
            n += 1;
        }
    }
    n
}

#[test]
fn new_aggregator_has_no_counts() {
    let aggregator = WordCountAggregator::new();
    let table = aggregator.get_counts(GetCounts);
    assert!(table.is_empty());
    assert_eq!(aggregator.count("apple"), 0);
    assert_eq!(aggregator.count(""), 0);
}

#[test]
fn add_word_returns_the_updated_count() {
    let mut aggregator = WordCountAggregator::new();
    assert_eq!(aggregator.add_word(AddWord("apple".to_string())), 1);
    assert_eq!(aggregator.add_word(AddWord("apple".to_string())), 2);
    assert_eq!(aggregator.add_word(AddWord("banana".to_string())), 1);
    assert_eq!(aggregator.add_word(AddWord("apple".to_string())), 3);
    assert_eq!(aggregator.count("apple"), 3);
    assert_eq!(aggregator.count("banana"), 1);
    assert_eq!(aggregator.count("cherry"), 0);
}

#[test]
fn counts_equal_occurrences() {
    let words = [
        "to", "be", "or", "not", "to", "be", "that", "is", "the", "question", "to", "",
    ];
    let mut aggregator = WordCountAggregator::new();
    record_all(&mut aggregator, &words);
    let table = aggregator.get_counts(GetCounts);
    for word in ["to", "be", "or", "not", "that", "is", "the", "question", "", "absent"] {
        assert_eq!(table.count(word), occurrences(&words, word));
        assert_eq!(aggregator.count(word), occurrences(&words, word));
    }
    assert_eq!(table.count("to"), 3);
    assert_eq!(table.count("be"), 2);
    assert_eq!(table.count("absent"), 0);
    assert_eq!(table.get("absent"), None);
    assert_eq!(table.len(), 9);
}

#[test]
fn every_count_in_a_snapshot_is_at_least_one() {
    let mut aggregator = WordCountAggregator::new();
    record_all(&mut aggregator, &["a", "b", "a", "", "c", "b", "a"]);
    let entries = aggregator.get_counts(GetCounts).entries();
    assert_eq!(entries.len(), 4);
    for (_, count) in entries {
        assert!(count >= 1);
    }
}

#[test]
fn record_is_not_idempotent() {
    let mut aggregator = WordCountAggregator::new();
    aggregator.add_word(AddWord("apple".to_string()));
    let once = aggregator.get_counts(GetCounts);
    aggregator.add_word(AddWord("apple".to_string()));
    let twice = aggregator.get_counts(GetCounts);
    assert_eq!(once.count("apple"), 1);
    assert_eq!(twice.count("apple"), 2);
    assert_ne!(sorted(&once), sorted(&twice));
}

#[test]
fn snapshot_is_idempotent() {
    let mut aggregator = WordCountAggregator::new();
    record_all(&mut aggregator, &["apple", "banana", "apple"]);
    let first = aggregator.get_counts(GetCounts);
    let second = aggregator.get_counts(GetCounts);
    assert_eq!(sorted(&first), sorted(&second));
    assert_eq!(first.len(), second.len());
    assert_eq!(
        sorted(&first),
        vec![("apple".to_string(), 2), ("banana".to_string(), 1)]
    );
    // Taking the snapshots changed nothing.
    assert_eq!(aggregator.count("apple"), 2);
    assert_eq!(aggregator.count("banana"), 1);
    assert_eq!(aggregator.add_word(AddWord("apple".to_string())), 3);
}

#[test]
fn snapshot_is_a_copy() {
    let mut aggregator = WordCountAggregator::new();
    record_all(&mut aggregator, &["apple"]);
    let earlier = aggregator.get_counts(GetCounts);
    record_all(&mut aggregator, &["apple", "banana"]);
    assert_eq!(sorted(&earlier), vec![("apple".to_string(), 1)]);
    assert_eq!(earlier.get("banana"), None);
    let later = aggregator.get_counts(GetCounts);
    assert_eq!(
        sorted(&later),
        vec![("apple".to_string(), 2), ("banana".to_string(), 1)]
    );
}

#[test]
fn order_of_recording_does_not_matter() {
    let orders: [[&str; 6]; 4] = [
        ["a", "b", "a", "c", "b", "a"],
        ["a", "a", "a", "b", "b", "c"],
        ["c", "b", "b", "a", "a", "a"],
        ["b", "a", "c", "a", "b", "a"],
    ];
    let expected = vec![
        ("a".to_string(), 3),
        ("b".to_string(), 2),
        ("c".to_string(), 1),
    ];
    for order in orders.iter() {
        let mut aggregator = WordCountAggregator::new();
        record_all(&mut aggregator, order);
        assert_eq!(sorted(&aggregator.get_counts(GetCounts)), expected);
    }
}

#[test]
fn record_then_snapshot_shows_one_more() {
    let mut aggregator = WordCountAggregator::new();
    record_all(&mut aggregator, &["apple", "banana", "apple"]);
    let before = aggregator.get_counts(GetCounts);
    aggregator.add_word(AddWord("apple".to_string()));
    let after = aggregator.get_counts(GetCounts);
    assert_eq!(before.count("apple"), 2);
    assert_eq!(after.count("apple"), 3);
    assert_eq!(after.count("banana"), before.count("banana"));
    assert_eq!(after.len(), before.len());

    aggregator.add_word(AddWord("cherry".to_string()));
    let last = aggregator.get_counts(GetCounts);
    assert_eq!(after.count("cherry"), 0);
    assert_eq!(last.count("cherry"), 1);
    assert_eq!(last.count("apple"), 3);
    assert_eq!(last.len(), after.len() + 1);
}

#[test]
fn empty_word_is_a_word() {
    let mut aggregator = WordCountAggregator::new();
    assert_eq!(aggregator.add_word(AddWord(String::new())), 1);
    assert_eq!(aggregator.add_word(AddWord("".to_string())), 2);
    let table = aggregator.get_counts(GetCounts);
    assert_eq!(table.get(""), Some(2));
    assert_eq!(table.entries(), vec![(String::new(), 2)]);
    assert!(!table.is_empty());
}

#[test]
fn words_are_case_sensitive_and_not_normalized() {
    let mut aggregator = WordCountAggregator::new();
    record_all(
        &mut aggregator,
        &["Apple", "apple", "APPLE", " apple", "apple ", "apple"],
    );
    let table = aggregator.get_counts(GetCounts);
    assert_eq!(table.count("apple"), 2);
    assert_eq!(table.count("Apple"), 1);
    assert_eq!(table.count("APPLE"), 1);
    assert_eq!(table.count(" apple"), 1);
    assert_eq!(table.count("apple "), 1);
    assert_eq!(table.len(), 5);
}

#[test]
fn the_aggregator_itself_records_any_word() {
    // Only the reading of input lines keeps "quit" away from the table.
    let mut aggregator = WordCountAggregator::new();
    assert_eq!(aggregator.add_word(AddWord("quit".to_string())), 1);
    assert_eq!(aggregator.count("quit"), 1);
}

#[test]
fn words_beyond_ascii_are_counted() {
    let mut aggregator = WordCountAggregator::new();
    record_all(&mut aggregator, &["naïve", "naive", "naïve", "日本語"]);
    assert_eq!(aggregator.count("naïve"), 2);
    assert_eq!(aggregator.count("naive"), 1);
    assert_eq!(aggregator.count("日本語"), 1);
}
