use solutions::fundamentals::{find_longest_word, Inventory};

#[test]
fn test_longest_word() {
    // "world" is 5 chars, "Hello" is 5 chars, "rust" is 4 chars
    // of several longest words the last one is returned
    assert_eq!(find_longest_word("Hello world rust").as_deref(), Some("world"));
    assert_eq!(find_longest_word("").as_deref(), None);
    assert_eq!(find_longest_word("a bb ccc").as_deref(), Some("ccc"));
    assert_eq!(find_longest_word("equal same size").as_deref(), Some("equal"));
}

#[test]
fn test_inventory() {
    let mut inventory = Inventory::new();

    // Test adding items
    inventory.add_item("Test".to_string(), 10);
    assert_eq!(inventory.check_stock("Test"), Some(10));

    // Test adding more to existing
    inventory.add_item("Test".to_string(), 5);
    assert_eq!(inventory.check_stock("Test"), Some(15));

    // Test successful removal
    assert!(inventory.remove_item("Test", 5).is_ok());
    assert_eq!(inventory.check_stock("Test"), Some(10));

    // Test removing too many
    assert!(inventory.remove_item("Test", 20).is_err());
    assert_eq!(inventory.check_stock("Test"), Some(10));

    // Test removing all
    assert!(inventory.remove_item("Test", 10).is_ok());
    assert_eq!(inventory.check_stock("Test"), None);

    // Test removing non-existent
    assert!(inventory.remove_item("NonExistent", 1).is_err());
}

#[test]
fn test_longest_word_counts_bytes_and_splits_at_any_white_space() {
    // "né" takes three bytes, "abc" takes three: the later one wins.
    assert_eq!(find_longest_word("né abc").as_deref(), Some("abc"));
    assert_eq!(find_longest_word("abc né").as_deref(), Some("né"));
    assert_eq!(find_longest_word("  \t\n ").as_deref(), None);
    assert_eq!(find_longest_word("\tone\u{a0}three\r\ntwo  ").as_deref(), Some("three"));
    for sentence in ["Hello world rust", "a  b", " x", "The quick brown fox", "ß ss"] {
        let expected = sentence.split_whitespace().max_by_key(|word| word.len());
        assert_eq!(find_longest_word(sentence).as_deref(), expected);
    }
}

#[test]
fn test_inventory_messages() {
    let mut inventory = Inventory::new();
    inventory.add_item("Bananas".to_string(), 5);
    assert_eq!(
        inventory.remove_item("Bananas", 10).unwrap_err(),
        "Not enough items. Only 5 available, but 10 requested"
    );
    assert_eq!(
        inventory.remove_item("Grapes", 1).unwrap_err(),
        "Item 'Grapes' not found in inventory"
    );
    inventory.add_item("Nothing".to_string(), 0);
    assert_eq!(inventory.check_stock("Nothing"), Some(0));
    assert!(inventory.remove_item("Nothing", 0).is_ok());
    assert_eq!(inventory.check_stock("Nothing"), None);
}
