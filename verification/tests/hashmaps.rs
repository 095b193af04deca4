use learn_rust_with_tests::hashmaps::{v1, v2, v3, v4};

fn entries(word: &str, definition: &str) -> Vec<(String, String)> {
    vec![(word.to_string(), definition.to_string())]
}

#[test]
fn lib_search_finds_a_known_word() {
    let dictionary = v1::Dictionary(entries("test", "this is just a test"));
    let got = dictionary.search("test");
    assert_eq!(got, Some("this is just a test"));

    let dictionary = v2::Dictionary(entries("test", "this is just a test"));
    assert_eq!(dictionary.search("test"), Some("this is just a test"), "should find added word");
    let dictionary = v3::Dictionary(entries("test", "this is just a test"));
    assert_eq!(dictionary.search("test"), Some("this is just a test"), "should find added word");
    let dictionary = v4::Dictionary(entries("test", "this is just a test"));
    assert_eq!(dictionary.search("test"), Some("this is just a test"), "should find added word");
}

#[test]
fn lib_search_returns_nothing_for_an_unknown_word() {
    assert_eq!(v1::Dictionary(entries("test", "this is just a test")).search("unknown"), None);
    assert_eq!(v2::Dictionary(entries("test", "this is just a test")).search("unknown"), None);
    assert_eq!(v3::Dictionary(entries("test", "this is just a test")).search("unknown"), None);
    assert_eq!(v4::Dictionary(entries("test", "this is just a test")).search("unknown"), None);
}

#[test]
fn lib_adds_a_new_word() {
    let mut dictionary = v2::Dictionary::default();
    assert_eq!(dictionary.add("test", "this is just a test"), Ok(()));
    assert_eq!(dictionary.search("test"), Some("this is just a test"));

    let mut dictionary = v3::Dictionary::default();
    assert_eq!(dictionary.add("test", "this is just a test"), Ok(()));
    assert_eq!(dictionary.search("test"), Some("this is just a test"));

    let mut dictionary = v4::Dictionary::default();
    assert_eq!(dictionary.add("test", "this is just a test"), Ok(()));
    assert_eq!(dictionary.search("test"), Some("this is just a test"));
}

#[test]
fn lib_refuses_to_overwrite_an_existing_word() {
    let mut dictionary = v2::Dictionary(entries("test", "this is just a test"));
    assert_eq!(dictionary.add("test", "new test"), Err(v2::DictionaryError::WordExists));
    assert_eq!(dictionary.search("test"), Some("this is just a test"));

    let mut dictionary = v3::Dictionary(entries("test", "this is just a test"));
    assert_eq!(dictionary.add("test", "new test"), Err(v3::DictionaryError::WordExists));
    assert_eq!(dictionary.search("test"), Some("this is just a test"));

    let mut dictionary = v4::Dictionary(entries("test", "this is just a test"));
    assert_eq!(dictionary.add("test", "new test"), Err(v4::DictionaryError::WordExists));
    assert_eq!(dictionary.search("test"), Some("this is just a test"));
}

#[test]
fn lib_updates_the_definition_of_an_existing_word() {
    let mut dictionary = v3::Dictionary(entries("test", "this is just a test"));
    assert_eq!(dictionary.update("test", "new definition"), Ok(()));
    assert_eq!(dictionary.search("test"), Some("new definition"));

    let mut dictionary = v4::Dictionary(entries("test", "this is just a test"));
    assert_eq!(dictionary.update("test", "new definition"), Ok(()));
    assert_eq!(dictionary.search("test"), Some("new definition"));
}

#[test]
fn lib_refuses_to_update_an_unknown_word() {
    let mut dictionary = v3::Dictionary::default();
    assert_eq!(
        dictionary.update("test", "this is just a test"),
        Err(v3::DictionaryError::WordDoesNotExist)
    );

    let mut dictionary = v4::Dictionary::default();
    assert_eq!(
        dictionary.update("test", "this is just a test"),
        Err(v4::DictionaryError::WordDoesNotExist)
    );
}

#[test]
fn deletes_a_word() {
    let mut dictionary = v4::Dictionary(entries("test", "test definition"));

    let result = dictionary.delete("test");

    assert_eq!(result, Ok(()));
    assert_eq!(dictionary.search("test"), None);
}

#[test]
fn refuses_to_delete_an_unknown_word() {
    let mut dictionary = v4::Dictionary::default();

    let result = dictionary.delete("test");

    assert_eq!(result, Err(v4::DictionaryError::WordDoesNotExist));
}

#[test]
fn dictionary_errors_describe_themselves() {
    assert_eq!(
        v4::DictionaryError::WordExists.to_string(),
        "cannot add word because it already exists"
    );
    assert_eq!(
        v4::DictionaryError::WordDoesNotExist.to_string(),
        "cannot perform operation on word because it does not exist"
    );
}

#[test]
fn the_last_pair_for_a_word_is_the_one_that_counts() {
    let mut dictionary = v4::Dictionary(vec![
        ("a".to_string(), "first".to_string()),
        ("b".to_string(), "bee".to_string()),
        ("a".to_string(), "second".to_string()),
    ]);
    assert_eq!(dictionary.search("a"), Some("second"));
    assert_eq!(dictionary.add("a", "third"), Err(v4::DictionaryError::WordExists));
    assert_eq!(dictionary.update("a", "changed"), Ok(()));
    assert_eq!(dictionary.search("a"), Some("changed"));
    assert_eq!(dictionary.delete("a"), Ok(()));
    assert_eq!(dictionary.search("a"), None);
    assert_eq!(dictionary.search("b"), Some("bee"));
}
