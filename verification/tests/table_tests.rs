use unicode_titlecase::builder::{build_table, BuildError};
use unicode_titlecase::{to_titlecase, to_titlecase_tr_or_az, TitlecaseTable};

fn sc_text() -> &'static str {
    "# sample records in the SpecialCasing.txt format
# <code>; <lower>; <title>; <upper>; (<condition_list>;)? # <comment>

00DF; 00DF; 0053 0073; 0053 0053; # LATIN SMALL LETTER SHARP S
FB00; FB00; 0046 0066; 0046 0046; # LATIN SMALL LIGATURE FF
FB04; FB04; 0046 0066 006C; 0046 0046 004C; # LATIN SMALL LIGATURE FFL
0130; 0069 0307; 0130; 0130; # LATIN CAPITAL LETTER I WITH DOT ABOVE
0049; 0131; 0049; 0049; tr; # LATIN CAPITAL LETTER I
0069; 0069; 0130; 0130; tr; # LATIN SMALL LETTER I
"
}

fn ud_text() -> &'static str {
    "0041;LATIN CAPITAL LETTER A;Lu;0;L;;;;;N;;;;0061;
0061;LATIN SMALL LETTER A;Ll;0;L;;;;;N;;;0041;;0041
0069;LATIN SMALL LETTER I;Ll;0;L;;;;;N;;;0049;;0049
00DF;LATIN SMALL LETTER SHARP S;Ll;0;L;;;;;N;;;;;
0130;LATIN CAPITAL LETTER I WITH DOT ABOVE;Lu;0;L;0049 0307;;;;N;LATIN CAPITAL LETTER I DOT;;;0069;0130
01C4;LATIN CAPITAL LETTER DZ WITH CARON;Lu;0;L;<compat> 0044 017D;;;;N;LATIN CAPITAL LETTER D Z HACEK;;;01C6;01C5
01C5;LATIN CAPITAL LETTER D WITH SMALL LETTER Z WITH CARON;Lt;0;L;<compat> 0044 017E;;;;N;LATIN LETTER D MIXED CASE Z HACEK;;01C4;01C6;01C5
01C6;LATIN SMALL LETTER DZ WITH CARON;Ll;0;L;<compat> 0064 017E;;;;N;LATIN SMALL LETTER D Z HACEK;;01C4;;01C5
0131;LATIN SMALL LETTER DOTLESS I;Ll;0;L;;;;;N;;;0049;;0049
FB00;LATIN SMALL LIGATURE FF;Ll;0;L;<compat> 0066 0066;;;;N;;;;;
FB04;LATIN SMALL LIGATURE FFL;Ll;0;L;<compat> 0066 0066 006C;;;;N;;;;;
"
}

fn sample_table() -> TitlecaseTable {
    build_table(sc_text(), ud_text()).expect("the sample sources are well-formed")
}

#[test]
fn self_mapping() {
    let table = sample_table();
    let mut i = 0;
    while i < table.len() {
        let entry = table.entry_at(i);
        assert_ne!(entry.key, entry.mapping[0]);
        i += 1;
    }
}

#[test]
fn is_sorted() {
    let table = sample_table();
    let mut last = '\0';
    let mut i = 0;
    while i < table.len() {
        let cp = table.entry_at(i).key;
        assert!(cp > last, "cp: {cp}, last: {last}");
        last = cp;
        i += 1;
    }
}

#[test]
fn sample_table_contents() {
    let table = sample_table();
    // a, i, sharp s, DZ-caron, dz-caron, dotless i, ff, ffl
    assert_eq!(table.len(), 8);
    assert!(table.is_well_formed());
    assert_eq!(table.entry_at(0).key, 'a');
    assert_eq!(table.entry_at(0).mapping, ['A', '\0', '\0']);
    assert_eq!(table.entry_at(7).key, '\u{FB04}');
    assert_eq!(table.entry_at(7).mapping, ['F', 'f', 'l']);
}

#[test]
fn conditional_records_are_excluded() {
    let table = sample_table();
    // The tr-conditional record for 'I' must not populate the default table.
    assert_eq!(to_titlecase('\u{0049}', &table), ['\u{0049}', '\0', '\0']);
}

#[test]
fn lookup_miss_returns_self() {
    let table = sample_table();
    assert_eq!(to_titlecase('A', &table), ['A', '\0', '\0']);
    assert_eq!(to_titlecase('z', &table), ['z', '\0', '\0']);
    assert_eq!(to_titlecase('\u{0130}', &table), ['\u{0130}', '\0', '\0']);
}

#[test]
fn lookup_hits() {
    let table = sample_table();
    assert_eq!(to_titlecase('\u{01C4}', &table), ['\u{01C5}', '\0', '\0']);
    assert_eq!(to_titlecase('\u{01C6}', &table), ['\u{01C5}', '\0', '\0']);
    assert_eq!(to_titlecase('\u{FB04}', &table), ['F', 'f', 'l']);
    assert_eq!(to_titlecase('\u{00DF}', &table), ['S', 's', '\0']);
    assert_eq!(to_titlecase('i', &table), ['I', '\0', '\0']);
}

#[test]
fn tr_az_divergence_is_only_the_dotted_i() {
    let table = sample_table();
    assert_eq!(to_titlecase_tr_or_az('i', &table), ['\u{0130}', '\0', '\0']);
    assert_eq!(to_titlecase('i', &table), ['I', '\0', '\0']);
    for c in ['A', 'a', 'I', '\u{01C4}', '\u{FB04}', '\u{0131}'] {
        assert_eq!(to_titlecase_tr_or_az(c, &table), to_titlecase(c, &table));
    }
}

#[test]
fn empty_sources_build_an_empty_table() {
    let table = build_table("", "").expect("empty sources are fine");
    assert_eq!(table.len(), 0);
    assert!(table.is_well_formed());
    assert_eq!(to_titlecase('x', &table), ['x', '\0', '\0']);
}

#[test]
fn crlf_line_endings_are_accepted() {
    let sc = "00DF; 00DF; 0053 0073; 0053 0053; # SHARP S\r\n";
    let ud = "0061;LATIN SMALL LETTER A;Ll;0;L;;;;;N;;;0041;;0041\r\n";
    let table = build_table(sc, ud).expect("carriage returns are stripped");
    assert_eq!(table.len(), 2);
    assert_eq!(to_titlecase('\u{00DF}', &table), ['S', 's', '\0']);
    assert_eq!(to_titlecase('a', &table), ['A', '\0', '\0']);
}

#[test]
fn malformed_special_casing_line_fails() {
    // an unparseable title-case codepoint on the (zero-based) second line
    let sc = "# header\n0069; 0069; XYZ; 0130; # bad title field\n";
    assert_eq!(
        build_table(sc, ""),
        Err(BuildError::SpecialCasing(1))
    );
}

#[test]
fn missing_fields_fail() {
    let sc = "0069; 0069\n";
    assert_eq!(build_table(sc, ""), Err(BuildError::SpecialCasing(0)));
}

#[test]
fn malformed_unicode_data_line_fails() {
    // a surrogate is no Unicode scalar value
    let ud = "D800;SURROGATE;Cs;0;L;;;;;N;;;;;DBFF\n";
    assert_eq!(build_table("", ud), Err(BuildError::UnicodeData(0)));
}

#[test]
fn unparseable_unicode_data_codepoint_fails() {
    let ud = "GGGG;BROKEN;Ll;0;L;;;;;N;;;;;0041\n";
    assert_eq!(build_table("", ud), Err(BuildError::UnicodeData(0)));
}

#[test]
fn cross_source_conflict_fails() {
    // SpecialCasing maps 'a' to 'B', UnicodeData maps 'a' to 'A'
    let sc = "0061; 0061; 0042; 0041; # a to B\n";
    let ud = "0061;LATIN SMALL LETTER A;Ll;0;L;;;;;N;;;0041;;0041\n";
    assert_eq!(build_table(sc, ud), Err(BuildError::Conflict('a')));
}

#[test]
fn identical_duplicate_is_a_silent_no_op() {
    // both sources give 'a' the identical mapping; one entry results
    let sc = "0061; 0061; 0041; 0041; # a to A\n";
    let ud = "0061;LATIN SMALL LETTER A;Ll;0;L;;;;;N;;;0041;;0041\n";
    let table = build_table(sc, ud).expect("identical mappings never clash");
    assert_eq!(table.len(), 1);
    assert_eq!(to_titlecase('a', &table), ['A', '\0', '\0']);
}

#[test]
fn empty_title_field_contributes_nothing() {
    let sc = "0061; 0061; ; 0041; # no title codepoints\n";
    let table = build_table(sc, "").expect("an empty mapping is skipped");
    assert_eq!(table.len(), 0);
}
