use categories::slug::{derive_slug, try_derive_slug};

#[test]
fn ascii_single_word_lowercased() {
    assert_eq!(try_derive_slug("Music"), Some(String::from("music")));
    assert_eq!(derive_slug("Music"), "music");
}

#[test]
fn slug_is_deterministic() {
    let a = try_derive_slug("Rock Music");
    let b = try_derive_slug("Rock Music");
    assert_eq!(a, b);
    assert_eq!(a, Some(String::from("rock-music")));
}

#[test]
fn words_joined_with_hyphen() {
    assert_eq!(try_derive_slug("Hello World"), Some(String::from("hello-world")));
}

#[test]
fn punctuation_discarded_as_separator() {
    assert_eq!(try_derive_slug("Rock, Paper & Scissors"), Some(String::from("rock-paper-scissors")));
}

#[test]
fn empty_name_empty_slug() {
    assert_eq!(try_derive_slug(""), Some(String::from("")));
}

#[test]
fn accented_latin_token_has_no_transliteration() {
    // "café" is not pure ASCII, so its replacement is driven by its
    // leading character 'c', which has no pinyin reading: no slug.
    assert_eq!(try_derive_slug("Café Life"), None);
}

#[test]
fn han_character_becomes_plain_syllable() {
    assert_eq!(try_derive_slug("中"), Some(String::from("zhong")));
}

#[test]
fn han_characters_tokenize_separately() {
    assert_eq!(try_derive_slug("中文"), Some(String::from("zhong-wen")));
}

#[test]
fn mixed_script_name() {
    assert_eq!(try_derive_slug("Rust 书"), Some(String::from("rust-shu")));
}
