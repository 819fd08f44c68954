use tavern::moderation::{
    banned_word_notice, banned_word_report, normalize_banned_word, normalize_message, offending_words,
};

#[test]
fn messages_are_lowered_and_squeezed() {
    assert_eq!(normalize_message("Hello World"), "helloworld");
    assert_eq!(normalize_message("B E E R"), "beer");
    assert_eq!(normalize_message("ÄÖ Ü"), "äöü");
}

#[test]
fn banned_words_are_lowered() {
    assert_eq!(normalize_banned_word("BeEr"), "beer");
}

#[test]
fn offending_words_in_order() {
    let words = vec!["beer".to_string(), "rum".to_string(), "wine".to_string(), "beer".to_string()];
    let content = normalize_message("I like Wine and B e e r");
    assert_eq!(
        offending_words(&content, &words),
        vec!["beer".to_string(), "wine".to_string(), "beer".to_string()]
    );
    assert!(offending_words("water", &words).is_empty());
}

#[test]
fn notices() {
    assert_eq!(banned_word_notice(8, "beer"), "<@8> you cannot say _beer_");
    assert_eq!(banned_word_report(8, "ilikebeer"), "<@8> said bad things:\n**ilikebeer**");
}
