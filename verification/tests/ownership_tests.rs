use solutions::ownership::{
    add_greeting, add_punctuation, analyze_text, analyze_text_detailed, calculate_product,
    calculate_sum, create_message, get_greeting, longest_common_prefix, BookExcerpt, StringOrRef,
};

#[test]
fn test_ownership_chain() {
    let msg = create_message();
    let msg = add_greeting(msg);
    let msg = add_punctuation(msg);
    assert_eq!(msg, "Hello, World!");
}

#[test]
fn test_analyze_text() {
    let text = "Hello world rust";
    let (count, upper) = analyze_text(text);
    assert_eq!(count, 3);
    assert_eq!(upper, "HELLO WORLD RUST");

    // Test that text is still usable
    assert_eq!(text.len(), 16);
}

#[test]
fn test_common_prefix() {
    assert_eq!(longest_common_prefix("hello", "help"), "hel");
    assert_eq!(longest_common_prefix("rust", "ruby"), "ru");
    assert_eq!(longest_common_prefix("abc", "xyz"), "");
    assert_eq!(longest_common_prefix("test", "test"), "test");
}

#[test]
fn test_book_excerpt() {
    let text = String::from("This is a test. Another sentence.");
    let excerpt = BookExcerpt::new(&text, 5);

    assert_eq!(excerpt.first_sentence(), "This is a test");
    assert_eq!(excerpt.word_count(), 6);
    assert_eq!(excerpt.page, 5);
}

#[test]
fn test_common_prefix_of_other_alphabets() {
    assert_eq!(longest_common_prefix("", "anything"), "");
    assert_eq!(longest_common_prefix("prefix", "pre"), "pre");
    assert_eq!(longest_common_prefix("pre", "prefix"), "pre");
    assert_eq!(longest_common_prefix("héllo", "hélas"), "hél");
    assert_eq!(longest_common_prefix("日本語", "日本人"), "日本");
}

#[test]
fn test_analyze_text_detailed() {
    let analysis = analyze_text_detailed("Rust is  fün");
    assert_eq!(analysis.original, "Rust is  fün");
    assert_eq!(analysis.word_count, 3);
    assert_eq!(analysis.char_count, 12);
    assert_eq!(analysis.uppercase, "RUST IS  FÜN");
    assert_eq!(analysis.lowercase, "rust is  fün");
    assert_eq!(analysis.reversed, "nüf  si tsuR");
    let empty = analyze_text_detailed("");
    assert_eq!(empty.word_count, 0);
    assert_eq!(empty.char_count, 0);
    assert_eq!(empty.reversed, "");
}

#[test]
fn test_sum_and_product() {
    let data = vec![1, 2, 3, 4, 5];
    assert_eq!(calculate_sum(&data), 15);
    assert_eq!(calculate_product(data), 120);
    assert_eq!(calculate_sum(&vec![]), 0);
    assert_eq!(calculate_product(vec![]), 1);
    assert_eq!(calculate_sum(&vec![i32::MAX, -1, i32::MIN + 1]), -1);
    assert_eq!(calculate_product(vec![-3, 7, 0, 9]), 0);
    assert_eq!(calculate_product(vec![-46341, 46340]), -2147441940);
}

#[test]
fn test_first_sentence_without_a_full_stop() {
    let excerpt = BookExcerpt::new("No full stop here", 1);
    assert_eq!(excerpt.first_sentence(), "No full stop here");
    let excerpt = BookExcerpt::new(".starts with one", 2);
    assert_eq!(excerpt.first_sentence(), "");
    assert_eq!(excerpt.word_count(), 3);
}

#[test]
fn test_get_greeting() {
    match get_greeting(None) {
        StringOrRef::Owned(s) => assert_eq!(s, "Hello, World!"),
        StringOrRef::Borrowed(_) => panic!("expected an owned greeting"),
    }
    match get_greeting(Some("Custom greeting")) {
        StringOrRef::Owned(_) => panic!("expected a borrowed greeting"),
        StringOrRef::Borrowed(s) => assert_eq!(s, "Custom greeting"),
    }
}
