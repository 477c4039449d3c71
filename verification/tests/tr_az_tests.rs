use unicode_titlecase::tr_az::{
    to_lowercase_tr_or_az, to_uppercase_tr_or_az, StrTrAzCasing, TrAzCasing,
};

#[test]
fn uppercase_tr_az_chars() {
    assert_eq!(to_uppercase_tr_or_az('i').to_string(), "\u{0130}");
    assert_eq!(to_uppercase_tr_or_az('a').to_string(), "A");
    assert_eq!(to_uppercase_tr_or_az('\u{FB00}').to_string(), "FF");
    assert_eq!(to_uppercase_tr_or_az('\u{0131}').to_string(), "I");
    assert_eq!(to_uppercase_tr_or_az('B').to_string(), "B");
}

#[test]
fn lowercase_tr_az_chars() {
    assert_eq!(to_lowercase_tr_or_az('\u{0130}'), 'i');
    assert_eq!(to_lowercase_tr_or_az('\u{0049}'), '\u{0131}');
    assert_eq!(to_lowercase_tr_or_az('A'), 'a');
    assert_eq!(to_lowercase_tr_or_az('b'), 'b');
}

#[test]
fn char_trait_tr_az_casing() {
    assert_eq!('\u{0130}'.to_lowercase_tr_az(), 'i');
    assert_eq!('I'.to_lowercase_tr_az(), '\u{0131}');
    assert_eq!('A'.to_lowercase_tr_az(), 'a');
    assert_eq!('i'.to_uppercase_tr_az().to_string(), "\u{0130}");
    assert_eq!('\u{0131}'.to_uppercase_tr_az().to_string(), "I");
    assert_eq!('a'.to_uppercase_tr_az().to_string(), "A");

    assert!('a'.is_lowercase_tr_az());
    assert!(!'A'.is_lowercase_tr_az());
    assert!('A'.is_uppercase_tr_az());
    assert!(!'a'.is_uppercase_tr_az());
}

#[test]
fn str_trait_tr_az_casing() {
    assert_eq!("\u{0130}IAb".to_lowercase_tr_az(), "i\u{0131}ab");
    assert_eq!("i\u{0131}ab".to_uppercase_tr_az(), "\u{0130}IAB");

    assert!("abc".is_lowercase_tr_az());
    assert!("i\u{0131}".is_lowercase_tr_az());
    assert!(!"Abc".is_lowercase_tr_az());
    assert!("ABC".is_uppercase_tr_az());
    assert!("\u{0130}I".is_uppercase_tr_az());
    assert!(!"aBC".is_uppercase_tr_az());
}

#[test]
fn tr_az_lowercase_round_trips_the_dotted_i() {
    // lowercasing the dotted capital I with the locale mapping yields a
    // plain lowercase string, where the locale-agnostic mapping would not
    assert!("\u{0130}".to_lowercase_tr_az().is_lowercase_tr_az());
    assert_eq!("\u{0130}".to_lowercase_tr_az(), "i");
}

#[test]
fn tr_az_lowercase_is_single_output() {
    // the locale lowercase map is one codepoint per character; a regression
    // here would mean the Unicode data gained a multi-codepoint tr/az
    // lowercase mapping and the single-char interface is no longer sound
    assert_eq!('I'.to_lowercase().count(), 1);
    assert_eq!('\u{0130}'.to_lowercase_tr_az(), 'i');
    assert_eq!("\u{0130}".to_lowercase_tr_az().chars().count(), 1);
}

#[test]
fn tr_az_mapper_front_and_back() {
    let mut it = to_uppercase_tr_or_az('\u{FB00}');
    assert_eq!(it.size_hint(), (2, Some(2)));
    assert_eq!(it.next_back(), Some('F'));
    assert_eq!(it.next(), Some('F'));
    assert_eq!(it.next(), None);
    assert_eq!(it.next_back(), None);
}
