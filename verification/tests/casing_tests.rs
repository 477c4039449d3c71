use unicode_titlecase::builder::build_table;
use unicode_titlecase::{StrTitleCase, TitleCase, TitlecaseTable};

fn sc_text() -> &'static str {
    "00DF; 00DF; 0053 0073; 0053 0053; # LATIN SMALL LETTER SHARP S
FB00; FB00; 0046 0066; 0046 0046; # LATIN SMALL LIGATURE FF
FB04; FB04; 0046 0066 006C; 0046 0046 004C; # LATIN SMALL LIGATURE FFL
0130; 0069 0307; 0130; 0130; # LATIN CAPITAL LETTER I WITH DOT ABOVE
0049; 0131; 0049; 0049; tr; # LATIN CAPITAL LETTER I
0069; 0069; 0130; 0130; tr; # LATIN SMALL LETTER I
"
}

fn ud_text() -> &'static str {
    "0061;LATIN SMALL LETTER A;Ll;0;L;;;;;N;;;0041;;0041
0069;LATIN SMALL LETTER I;Ll;0;L;;;;;N;;;0049;;0049
01C4;LATIN CAPITAL LETTER DZ WITH CARON;Lu;0;L;<compat> 0044 017D;;;;N;LATIN CAPITAL LETTER D Z HACEK;;;01C6;01C5
01C6;LATIN SMALL LETTER DZ WITH CARON;Ll;0;L;<compat> 0064 017E;;;;N;LATIN SMALL LETTER D Z HACEK;;01C4;;01C5
0131;LATIN SMALL LETTER DOTLESS I;Ll;0;L;;;;;N;;;0049;;0049
"
}

fn sample_table() -> TitlecaseTable {
    build_table(sc_text(), ud_text()).expect("the sample sources are well-formed")
}

#[test]
fn char_to_titlecase_iterates_the_mapping() {
    let table = sample_table();
    assert_eq!('A'.to_titlecase(&table).to_string(), "A");
    assert_eq!('\u{01C4}'.to_titlecase(&table).to_string(), "\u{01C5}");
    assert_eq!('\u{FB04}'.to_titlecase(&table).to_string(), "Ffl");
    assert_eq!('i'.to_titlecase(&table).to_string(), "I");
}

#[test]
fn char_to_titlecase_tr_or_az_maps_the_dotted_i() {
    let table = sample_table();
    assert_eq!('A'.to_titlecase_tr_or_az(&table).to_string(), "A");
    assert_eq!('\u{01C4}'.to_titlecase_tr_or_az(&table).to_string(), "\u{01C5}");
    assert_eq!('\u{FB04}'.to_titlecase_tr_or_az(&table).to_string(), "Ffl");
    assert_eq!('i'.to_titlecase_tr_or_az(&table).to_string(), "\u{0130}");
}

#[test]
fn char_is_titlecase() {
    let table = sample_table();
    assert!('A'.is_titlecase(&table));
    assert!('\u{01C5}'.is_titlecase(&table));
    assert!('\u{0130}'.is_titlecase(&table));

    assert!(!'a'.is_titlecase(&table));
    assert!(!'\u{01C4}'.is_titlecase(&table));
    assert!(!'\u{FB04}'.is_titlecase(&table));
}

#[test]
fn cursor_length_counts_the_mapping() {
    let table = sample_table();
    let it = '\u{FB04}'.to_titlecase(&table);
    assert_eq!(it.size_hint(), (3, Some(3)));
    let it = '\u{00DF}'.to_titlecase(&table);
    assert_eq!(it.size_hint(), (2, Some(2)));
    let it = 'A'.to_titlecase(&table);
    assert_eq!(it.size_hint(), (1, Some(1)));
}

#[test]
fn cursor_front_extraction_is_in_order() {
    let table = sample_table();
    let mut it = '\u{FB04}'.to_titlecase(&table);
    assert_eq!(it.next(), Some('F'));
    assert_eq!(it.next(), Some('f'));
    assert_eq!(it.next(), Some('l'));
    assert_eq!(it.next(), None);
    assert_eq!(it.size_hint(), (0, Some(0)));
}

#[test]
fn cursor_back_extraction_reverses_front_extraction() {
    let table = sample_table();
    let mut front = '\u{FB04}'.to_titlecase(&table);
    let mut forward = Vec::new();
    while let Some(c) = front.next() {
        forward.push(c);
    }
    let mut back = '\u{FB04}'.to_titlecase(&table);
    let mut backward = Vec::new();
    while let Some(c) = back.next_back() {
        backward.push(c);
    }
    backward.reverse();
    assert_eq!(forward, backward);
    assert_eq!(forward, vec!['F', 'f', 'l']);
}

#[test]
fn cursor_mixes_front_and_back_extraction() {
    let table = sample_table();
    let mut it = '\u{FB04}'.to_titlecase(&table);
    assert_eq!(it.next_back(), Some('l'));
    assert_eq!(it.next(), Some('F'));
    assert_eq!(it.next_back(), Some('f'));
    assert_eq!(it.next(), None);
    assert_eq!(it.next_back(), None);
}

#[test]
fn str_to_titlecase_keeps_the_rest() {
    let table = sample_table();
    assert_eq!("ABC".to_titlecase(&table), "ABC");
    assert_eq!("\u{01C4}\u{01C4}".to_titlecase(&table), "\u{01C5}\u{01C4}");
    assert_eq!("\u{FB04}abc".to_titlecase(&table), "Fflabc");
    assert_eq!("iii".to_titlecase(&table), "Iii");
    assert_eq!("".to_titlecase(&table), "");
}

#[test]
fn str_to_titlecase_lower_rest_lowercases_the_rest() {
    let table = sample_table();
    assert_eq!("ABC".to_titlecase_lower_rest(&table), "Abc");
    assert_eq!("\u{01C4}\u{01C4}".to_titlecase_lower_rest(&table), "\u{01C5}\u{01C6}");
    assert_eq!("\u{FB04}abc".to_titlecase_lower_rest(&table), "Fflabc");
    assert_eq!("iIi".to_titlecase_lower_rest(&table), "Iii");
    assert_eq!("".to_titlecase_lower_rest(&table), "");
}

#[test]
fn str_to_titlecase_tr_or_az_maps_only_the_first_char() {
    let table = sample_table();
    assert_eq!("iIi".to_titlecase_tr_or_az(&table), "\u{0130}Ii");
    assert_eq!("ABC".to_titlecase_tr_or_az(&table), "ABC");
    assert_eq!("".to_titlecase_tr_or_az(&table), "");
}

#[test]
fn str_to_titlecase_tr_or_az_lower_rest_uses_locale_lowercase() {
    let table = sample_table();
    // locale lowercasing: 'I' to dotless i, dotted 'I' to plain i
    assert_eq!(
        "iIi\u{0130}".to_titlecase_tr_or_az_lower_rest(&table),
        "\u{0130}\u{0131}ii"
    );
    assert_eq!("".to_titlecase_tr_or_az_lower_rest(&table), "");
}

#[test]
fn str_starts_titlecase() {
    let table = sample_table();
    assert!("Abc".starts_titlecase(&table));
    assert!("ABC".starts_titlecase(&table));

    assert!(!"abc".starts_titlecase(&table));
    assert!(!"\u{01C4}x".starts_titlecase(&table));
    assert!(!"".starts_titlecase(&table));
}

#[test]
fn str_starts_titlecase_rest_lower() {
    let table = sample_table();
    assert!("Abc".starts_titlecase_rest_lower(&table));
    assert!("\u{0130}bc".starts_titlecase_rest_lower(&table));

    assert!(!"abc".starts_titlecase_rest_lower(&table));
    assert!(!"ABC".starts_titlecase_rest_lower(&table));
    assert!(!"\u{0130}\u{0130}".starts_titlecase_rest_lower(&table));
    assert!(!"".starts_titlecase_rest_lower(&table));
}

#[test]
fn single_char_strings() {
    let table = sample_table();
    assert_eq!("\u{FB04}".to_titlecase(&table), "Ffl");
    assert_eq!("i".to_titlecase_tr_or_az_lower_rest(&table), "\u{0130}");
    assert!("A".starts_titlecase_rest_lower(&table));
}
