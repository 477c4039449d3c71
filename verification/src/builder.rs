//! The table builder: from the two Unicode Character Database source texts
//! to a validated, sorted exception table.
//!
//! `SpecialCasing.txt` supplies the multi-codepoint and conditional
//! overrides; only its unconditional records populate the table.
//! `UnicodeData.txt` supplies the one-to-one default mappings through its
//! last field, per the Unicode convention that title case defaults to
//! uppercase unless overridden. The two passes merge under an explicit
//! conflict policy: a codepoint produced by both sources must carry the
//! identical mapping, else the build fails. Any malformed record is a fatal
//! error — no partial table is ever produced.

use vstd::prelude::*;
use vstd::string::StrSliceExecFns;

use crate::table::{
    entries_map, entries_self_map_free, entries_sorted, entries_unique, lemma_entries_map_at,
    lemma_entries_map_dom, lemma_entries_map_insert, TitlecaseEntry, TitlecaseTable,
};
use crate::unicode::{char_from_u32, is_unicode_scalar};

verus! {

/// ASCII whitespace, as the UCD field syntax uses it.
pub open spec fn is_ascii_ws(c: char) -> bool {
    c == ' ' || c == '\t' || c == '\n' || c == '\r' || c == '\u{000C}'
}

/// The pieces of a character sequence split at every occurrence of a
/// separator; always at least one (possibly empty) piece.
pub open spec fn split_on(s: Seq<char>, sep: char) -> Seq<Seq<char>>
    decreases s.len(),
{
    if s.len() == 0 {
        seq![Seq::<char>::empty()]
    } else if s[0] == sep {
        seq![Seq::<char>::empty()] + split_on(s.drop_first(), sep)
    } else {
        let r = split_on(s.drop_first(), sep);
        seq![seq![s[0]] + r[0]] + r.skip(1)
    }
}

/// Splitting never yields an empty piece list.
pub proof fn lemma_split_on_nonempty(s: Seq<char>, sep: char)
    ensures
        split_on(s, sep).len() >= 1,
    decreases s.len(),
{
    if s.len() > 0 {
        lemma_split_on_nonempty(s.drop_first(), sep);
    }
}

/// A line with its trailing carriage return removed, if it carries one.
pub open spec fn strip_cr(s: Seq<char>) -> Seq<char> {
    if s.len() > 0 && s.last() == '\r' {
        s.drop_last()
    } else {
        s
    }
}

/// The lines of a source text: split at every line feed, each line with a
/// trailing carriage return removed.
pub open spec fn lines_of(text: Seq<char>) -> Seq<Seq<char>> {
    split_on(text, '\n').map_values(|l: Seq<char>| strip_cr(l))
}

/// The whitespace-separated tokens of a character sequence, in order; never
/// an empty token.
pub open spec fn ws_split(s: Seq<char>) -> Seq<Seq<char>>
    decreases s.len(),
{
    if s.len() == 0 {
        Seq::empty()
    } else if is_ascii_ws(s[0]) {
        ws_split(s.drop_first())
    } else if s.len() >= 2 && !is_ascii_ws(s[1]) {
        let r = ws_split(s.drop_first());
        seq![seq![s[0]] + r[0]] + r.skip(1)
    } else {
        seq![seq![s[0]]] + ws_split(s.drop_first())
    }
}

/// A sequence starting with a non-whitespace character has a first token.
pub proof fn lemma_ws_split_head(s: Seq<char>)
    requires
        s.len() > 0,
        !is_ascii_ws(s[0]),
    ensures
        ws_split(s).len() >= 1,
    decreases s.len(),
{
}

/// The first character of a sequence that is not whitespace, if any.
pub open spec fn first_non_ws(s: Seq<char>) -> Option<char>
    decreases s.len(),
{
    if s.len() == 0 {
        None
    } else if is_ascii_ws(s[0]) {
        first_non_ws(s.drop_first())
    } else {
        Some(s[0])
    }
}

/// An ASCII hexadecimal digit.
pub open spec fn is_hex_digit(c: char) -> bool {
    (0x30 <= c as u32 && c as u32 <= 0x39) || (0x41 <= c as u32 && c as u32 <= 0x46) || (0x61
        <= c as u32 && c as u32 <= 0x66)
}

/// The value of a hexadecimal digit; zero on any other character.
pub open spec fn hex_digit_val(c: char) -> int {
    if 0x30 <= c as u32 && c as u32 <= 0x39 {
        c as u32 as int - 0x30
    } else if 0x41 <= c as u32 && c as u32 <= 0x46 {
        c as u32 as int - 0x41 + 10
    } else if 0x61 <= c as u32 && c as u32 <= 0x66 {
        c as u32 as int - 0x61 + 10
    } else {
        0
    }
}

/// The number a sequence of hexadecimal digits denotes, most significant
/// digit first.
pub open spec fn hex_value(s: Seq<char>) -> int
    decreases s.len(),
{
    if s.len() == 0 {
        0
    } else {
        hex_value(s.drop_last()) * 16 + hex_digit_val(s.last())
    }
}

/// Every character of the sequence is a hexadecimal digit.
pub open spec fn all_hex(s: Seq<char>) -> bool {
    forall|i: int| 0 <= i < s.len() ==> is_hex_digit(s[i])
}

/// A hexadecimal numeral's value never goes negative.
pub proof fn lemma_hex_value_nonneg(s: Seq<char>)
    ensures
        hex_value(s) >= 0,
    decreases s.len(),
{
    if s.len() > 0 {
        lemma_hex_value_nonneg(s.drop_last());
        assert(hex_digit_val(s.last()) >= 0);
    }
}

/// A prefix of a hexadecimal numeral denotes at most the whole numeral's
/// value.
pub proof fn lemma_hex_value_prefix(s: Seq<char>, i: int)
    requires
        0 <= i <= s.len(),
    ensures
        hex_value(s.take(i)) <= hex_value(s),
    decreases s.len() - i,
{
    if i < s.len() {
        lemma_hex_value_prefix(s, i + 1);
        let t = s.take(i + 1);
        assert(t.drop_last() =~= s.take(i));
        lemma_hex_value_nonneg(s.take(i));
        assert(hex_digit_val(t.last()) >= 0);
        assert(hex_value(t) == hex_value(s.take(i)) * 16 + hex_digit_val(t.last()));
        assert(hex_value(s.take(i)) <= hex_value(t));
    } else {
        assert(s.take(i) =~= s);
    }
}

/// A hexadecimal numeral parsed into a 32-bit value: defined exactly on a
/// non-empty, all-hexadecimal sequence whose value fits.
pub open spec fn parse_hex(s: Seq<char>) -> Option<u32> {
    if s.len() >= 1 && all_hex(s) && hex_value(s) <= u32::MAX {
        Some(hex_value(s) as u32)
    } else {
        None
    }
}

/// A hexadecimal numeral parsed into a character: defined exactly when the
/// numeral parses and names a Unicode scalar value.
pub open spec fn parse_codepoint(s: Seq<char>) -> Option<char> {
    match parse_hex(s) {
        Option::None => None,
        Option::Some(v) => if is_unicode_scalar(v) {
            Some(v as char)
        } else {
            None
        },
    }
}

/// The characters of a string slice, in order.
fn str_chars(s: &str) -> (r: Vec<char>)
    ensures
        r@ == s@,
{
    let n = s.unicode_len();
    let mut r: Vec<char> = Vec::new();
    let mut i: usize = 0;
    while i < n
        invariant
            i <= n,
            n == s@.len(),
            r@ == s@.subrange(0, i as int),
        decreases n - i,
    {
        let c = s.get_char(i);
        r.push(c);
        proof {
            assert(s@.subrange(0, i as int + 1) =~= s@.subrange(0, i as int).push(s@[i as int]));
        }
        i = i + 1;
    }
    assert(s@.subrange(0, n as int) =~= s@);
    r
}

/// Splits at every occurrence of a separator, working from the back so each
/// step mirrors one unfolding of [`split_on`].
fn split_on_exec(s: &Vec<char>, sep: char) -> (r: Vec<Vec<char>>)
    ensures
        r@.len() == split_on(s@, sep).len(),
        forall|k: int| 0 <= k < r@.len() ==> r@[k]@ == split_on(s@, sep)[k],
{
    let mut r: Vec<Vec<char>> = Vec::new();
    r.push(Vec::new());
    let mut i: usize = s.len();
    proof {
        assert(s@.skip(i as int) =~= Seq::<char>::empty());
        assert(r@[0]@ =~= Seq::<char>::empty());
    }
    while i > 0
        invariant
            i <= s.len(),
            r@.len() == split_on(s@.skip(i as int), sep).len(),
            forall|k: int| 0 <= k < r@.len() ==> r@[k]@ == split_on(s@.skip(i as int), sep)[k],
        decreases i,
    {
        i = i - 1;
        let ghost pre = r@;
        let ghost old_split = split_on(s@.skip(i as int + 1), sep);
        let c = s[i];
        proof {
            assert(s@.skip(i as int).drop_first() =~= s@.skip(i as int + 1));
            assert(s@.skip(i as int)[0] == s@[i as int]);
            lemma_split_on_nonempty(s@.skip(i as int + 1), sep);
        }
        if c == sep {
            r.insert(0, Vec::new());
            proof {
                let new_split = split_on(s@.skip(i as int), sep);
                assert(new_split =~= seq![Seq::<char>::empty()] + old_split);
                assert(r@[0]@ =~= Seq::<char>::empty());
                assert forall|k: int| 0 <= k < r@.len() implies r@[k]@ == new_split[k] by {
                    if k > 0 {
                        assert(r@[k] == pre[k - 1]);
                        assert(new_split[k] == old_split[k - 1]);
                    }
                }
            }
        } else {
            let mut first = r.remove(0);
            first.insert(0, c);
            r.insert(0, first);
            proof {
                let new_split = split_on(s@.skip(i as int), sep);
                assert(new_split =~= seq![seq![s@[i as int]] + old_split[0]] + old_split.skip(1));
                assert(r@[0]@ =~= seq![s@[i as int]] + pre[0]@);
                assert forall|k: int| 0 <= k < r@.len() implies r@[k]@ == new_split[k] by {
                    if k > 0 {
                        assert(r@[k] == pre[k]);
                        assert(new_split[k] == old_split.skip(1)[k - 1]);
                        assert(old_split.skip(1)[k - 1] == old_split[k]);
                    }
                }
            }
        }
    }
    proof {
        assert(s@.skip(0) =~= s@);
    }
    r
}

/// The lines of a source text: split at line feeds, trailing carriage
/// returns removed.
fn split_lines(s: &Vec<char>) -> (r: Vec<Vec<char>>)
    ensures
        r@.len() == lines_of(s@).len(),
        forall|k: int| 0 <= k < r@.len() ==> r@[k]@ == lines_of(s@)[k],
{
    let raw = split_on_exec(s, '\n');
    let mut r: Vec<Vec<char>> = Vec::new();
    let mut k: usize = 0;
    while k < raw.len()
        invariant
            k <= raw.len(),
            raw@.len() == split_on(s@, '\n').len(),
            forall|j: int| 0 <= j < raw@.len() ==> raw@[j]@ == split_on(s@, '\n')[j],
            r@.len() == k,
            forall|j: int| 0 <= j < k ==> r@[j]@ == lines_of(s@)[j],
        decreases raw.len() - k,
    {
        let line = &raw[k];
        let n = line.len();
        let mut stripped: Vec<char> = Vec::new();
        let keep: usize = if n > 0 && line[n - 1] == '\r' {
            n - 1
        } else {
            n
        };
        let mut j: usize = 0;
        while j < keep
            invariant
                j <= keep,
                keep <= line@.len(),
                stripped@ == line@.subrange(0, j as int),
            decreases keep - j,
        {
            let c = line[j];
            stripped.push(c);
            proof {
                assert(line@.subrange(0, j as int + 1) =~= line@.subrange(0, j as int).push(
                    line@[j as int],
                ));
            }
            j = j + 1;
        }
        proof {
            assert(stripped@ =~= strip_cr(raw@[k as int]@)) by {
                if n > 0 && line@[n - 1] == '\r' {
                    assert(line@.subrange(0, n as int - 1) =~= line@.drop_last());
                } else {
                    assert(line@.subrange(0, n as int) =~= line@);
                }
            }
        }
        r.push(stripped);
        k = k + 1;
    }
    r
}

/// The whitespace-separated tokens, working from the back so each step
/// mirrors one unfolding of [`ws_split`].
fn ws_split_exec(s: &Vec<char>) -> (r: Vec<Vec<char>>)
    ensures
        r@.len() == ws_split(s@).len(),
        forall|k: int| 0 <= k < r@.len() ==> r@[k]@ == ws_split(s@)[k],
{
    let mut r: Vec<Vec<char>> = Vec::new();
    let mut i: usize = s.len();
    proof {
        assert(s@.skip(i as int) =~= Seq::<char>::empty());
    }
    while i > 0
        invariant
            i <= s.len(),
            r@.len() == ws_split(s@.skip(i as int)).len(),
            forall|k: int| 0 <= k < r@.len() ==> r@[k]@ == ws_split(s@.skip(i as int))[k],
        decreases i,
    {
        i = i - 1;
        let ghost pre = r@;
        let ghost old_split = ws_split(s@.skip(i as int + 1));
        let c = s[i];
        let ws = c == ' ' || c == '\t' || c == '\n' || c == '\r' || c == '\u{000C}';
        proof {
            assert(s@.skip(i as int).drop_first() =~= s@.skip(i as int + 1));
            assert(s@.skip(i as int)[0] == s@[i as int]);
            assert(ws == is_ascii_ws(s@[i as int]));
        }
        if ws {
            // a whitespace character extends no token
        } else if i + 1 < s.len() && {
            let d = s[i + 1];
            !(d == ' ' || d == '\t' || d == '\n' || d == '\r' || d == '\u{000C}')
        } {
            proof {
                assert(s@.skip(i as int).len() >= 2);
                assert(s@.skip(i as int)[1] == s@[i as int + 1]);
                assert(s@.skip(i as int + 1)[0] == s@[i as int + 1]);
                lemma_ws_split_head(s@.skip(i as int + 1));
            }
            let mut first = r.remove(0);
            first.insert(0, c);
            r.insert(0, first);
            proof {
                let new_split = ws_split(s@.skip(i as int));
                assert(new_split =~= seq![seq![s@[i as int]] + old_split[0]] + old_split.skip(1));
                assert(r@[0]@ =~= seq![s@[i as int]] + pre[0]@);
                assert forall|k: int| 0 <= k < r@.len() implies r@[k]@ == new_split[k] by {
                    if k > 0 {
                        assert(r@[k] == pre[k]);
                        assert(new_split[k] == old_split.skip(1)[k - 1]);
                        assert(old_split.skip(1)[k - 1] == old_split[k]);
                    }
                }
            }
        } else {
            let mut single: Vec<char> = Vec::new();
            single.push(c);
            r.insert(0, single);
            proof {
                let new_split = ws_split(s@.skip(i as int));
                assert(new_split =~= seq![seq![s@[i as int]]] + old_split);
                assert(r@[0]@ =~= seq![s@[i as int]]);
                assert forall|k: int| 0 <= k < r@.len() implies r@[k]@ == new_split[k] by {
                    if k > 0 {
                        assert(r@[k] == pre[k - 1]);
                        assert(new_split[k] == old_split[k - 1]);
                    }
                }
            }
        }
    }
    proof {
        assert(s@.skip(0) =~= s@);
    }
    r
}

/// The first non-whitespace character, if any.
fn first_non_ws_exec(s: &Vec<char>) -> (r: Option<char>)
    ensures
        r == first_non_ws(s@),
{
    let n = s.len();
    let mut i: usize = 0;
    proof {
        assert(s@.skip(0) =~= s@);
    }
    while i < n
        invariant
            i <= n,
            n == s@.len(),
            first_non_ws(s@) == first_non_ws(s@.skip(i as int)),
        decreases n - i,
    {
        let c = s[i];
        proof {
            assert(s@.skip(i as int)[0] == s@[i as int]);
            assert(s@.skip(i as int).drop_first() =~= s@.skip(i as int + 1));
        }
        if !(c == ' ' || c == '\t' || c == '\n' || c == '\r' || c == '\u{000C}') {
            return Some(c);
        }
        i = i + 1;
    }
    proof {
        assert(s@.skip(n as int) =~= Seq::<char>::empty());
    }
    None
}

/// Parses a hexadecimal numeral into the character it names.
fn parse_codepoint_exec(s: &Vec<char>) -> (r: Option<char>)
    ensures
        r == parse_codepoint(s@),
{
    let n = s.len();
    if n == 0 {
        return None;
    }
    let mut acc: u32 = 0;
    let mut i: usize = 0;
    while i < n
        invariant
            i <= n,
            n == s@.len(),
            all_hex(s@.take(i as int)),
            acc == hex_value(s@.take(i as int)),
        decreases n - i,
    {
        let c = s[i];
        let u = c as u32;
        let d: u32 = if 0x30 <= u && u <= 0x39 {
            u - 0x30
        } else if 0x41 <= u && u <= 0x46 {
            u - 0x41 + 10
        } else if 0x61 <= u && u <= 0x66 {
            u - 0x61 + 10
        } else {
            assert(!is_hex_digit(s@[i as int]));
            return None;
        };
        assert(is_hex_digit(s@[i as int]) && d == hex_digit_val(s@[i as int]));
        proof {
            assert(s@.take(i as int + 1).drop_last() =~= s@.take(i as int));
            assert(s@.take(i as int + 1).last() == s@[i as int]);
        }
        if acc > (u32::MAX - d) / 16 {
            proof {
                lemma_hex_value_nonneg(s@.take(i as int));
                assert(hex_value(s@.take(i as int + 1)) > u32::MAX);
                lemma_hex_value_prefix(s@, i as int + 1);
                assert(s@.take(n as int) =~= s@);
                assert(hex_value(s@) > u32::MAX);
            }
            return None;
        }
        assert(acc * 16 + d <= u32::MAX) by {
            assert(acc <= (u32::MAX - d) / 16);
        };
        acc = acc * 16 + d;
        i = i + 1;
    }
    proof {
        assert(s@.take(n as int) =~= s@);
        lemma_hex_value_nonneg(s@);
    }
    char_from_u32(acc)
}

/// What one source line contributes: nothing, one three-slot mapping for
/// one character, or a fatal fault.
pub enum LineSpec {
    /// The line is malformed: a missing required field or an unparseable
    /// codepoint.
    Bad,
    /// The line contributes no entry: blank, a comment, a conditional
    /// record, an empty mapping, or a self-mapping.
    Skip,
    /// The line maps one character to a three-slot title-case mapping.
    Entry(char, Seq<char>),
}

/// The contribution of one `SpecialCasing.txt` line. Blank lines and
/// comment lines are skipped; so are conditional records (a non-empty,
/// non-comment fifth field) and records whose title-case field is empty or
/// maps the character to itself. The codepoint is the first field, the
/// title-case mapping the third, split on whitespace into at most three
/// codepoints; absent trailing slots hold the NUL sentinel.
pub open spec fn sc_line(l: Seq<char>) -> LineSpec {
    if l.len() == 0 || l[0] == '#' {
        LineSpec::Skip
    } else {
        let fields = split_on(l, ';');
        if fields.len() < 3 {
            LineSpec::Bad
        } else if fields.len() >= 5 && match first_non_ws(fields[4]) {
            Option::Some(c) => c != '#',
            Option::None => false,
        } {
            LineSpec::Skip
        } else {
            match parse_codepoint(fields[0]) {
                Option::None => LineSpec::Bad,
                Option::Some(src) => {
                    let toks = ws_split(fields[2]);
                    if toks.len() == 0 {
                        LineSpec::Skip
                    } else {
                        match parse_codepoint(toks[0]) {
                            Option::None => LineSpec::Bad,
                            Option::Some(t0) => {
                                if t0 == src {
                                    LineSpec::Skip
                                } else {
                                    let t1o = if toks.len() >= 2 {
                                        parse_codepoint(toks[1])
                                    } else {
                                        Some('\0')
                                    };
                                    let t2o = if toks.len() >= 3 {
                                        parse_codepoint(toks[2])
                                    } else {
                                        Some('\0')
                                    };
                                    match (t1o, t2o) {
                                        (Option::Some(t1), Option::Some(t2)) => LineSpec::Entry(
                                            src,
                                            seq![t0, t1, t2],
                                        ),
                                        _ => LineSpec::Bad,
                                    }
                                }
                            },
                        }
                    }
                },
            }
        }
    }
}

/// The contribution of one `UnicodeData.txt` line. The codepoint is the
/// first field; the simple mapping used as the default title case is the
/// last field. A line of fewer than two fields, an empty last field, or a
/// self-mapping contributes nothing.
pub open spec fn ud_line(l: Seq<char>) -> LineSpec {
    let fields = split_on(l, ';');
    if fields.len() < 2 {
        LineSpec::Skip
    } else {
        let last = fields[fields.len() - 1];
        if last.len() == 0 {
            LineSpec::Skip
        } else {
            match parse_codepoint(fields[0]) {
                Option::None => LineSpec::Bad,
                Option::Some(src) => match parse_codepoint(last) {
                    Option::None => LineSpec::Bad,
                    Option::Some(uc) => if uc == src {
                        LineSpec::Skip
                    } else {
                        LineSpec::Entry(src, seq![uc, '\0', '\0'])
                    },
                },
            }
        }
    }
}

/// The parsed form of one source line.
enum ParsedLine {
    Bad,
    Skip,
    Entry(TitlecaseEntry),
}

/// Parses one `SpecialCasing.txt` line.
fn sc_line_exec(l: &Vec<char>) -> (r: ParsedLine)
    ensures
        match r {
            ParsedLine::Bad => sc_line(l@) == LineSpec::Bad,
            ParsedLine::Skip => sc_line(l@) == LineSpec::Skip,
            ParsedLine::Entry(e) => sc_line(l@) == LineSpec::Entry(e.key, e.mapping@),
        },
{
    if l.len() == 0 || l[0] == '#' {
        return ParsedLine::Skip;
    }
    let fields = split_on_exec(l, ';');
    if fields.len() < 3 {
        return ParsedLine::Bad;
    }
    if fields.len() >= 5 {
        match first_non_ws_exec(&fields[4]) {
            Some(c) => if c != '#' {
                return ParsedLine::Skip;
            },
            None => {},
        }
    }
    let src = match parse_codepoint_exec(&fields[0]) {
        None => {
            return ParsedLine::Bad;
        },
        Some(c) => c,
    };
    let toks = ws_split_exec(&fields[2]);
    if toks.len() == 0 {
        return ParsedLine::Skip;
    }
    let t0 = match parse_codepoint_exec(&toks[0]) {
        None => {
            return ParsedLine::Bad;
        },
        Some(c) => c,
    };
    if t0 == src {
        return ParsedLine::Skip;
    }
    let t1 = if toks.len() >= 2 {
        match parse_codepoint_exec(&toks[1]) {
            None => {
                return ParsedLine::Bad;
            },
            Some(c) => c,
        }
    } else {
        '\0'
    };
    let t2 = if toks.len() >= 3 {
        match parse_codepoint_exec(&toks[2]) {
            None => {
                return ParsedLine::Bad;
            },
            Some(c) => c,
        }
    } else {
        '\0'
    };
    let e = TitlecaseEntry { key: src, mapping: [t0, t1, t2] };
    assert(e.mapping@ =~= seq![t0, t1, t2]);
    ParsedLine::Entry(e)
}

/// Parses one `UnicodeData.txt` line.
fn ud_line_exec(l: &Vec<char>) -> (r: ParsedLine)
    ensures
        match r {
            ParsedLine::Bad => ud_line(l@) == LineSpec::Bad,
            ParsedLine::Skip => ud_line(l@) == LineSpec::Skip,
            ParsedLine::Entry(e) => ud_line(l@) == LineSpec::Entry(e.key, e.mapping@),
        },
{
    let fields = split_on_exec(l, ';');
    if fields.len() < 2 {
        return ParsedLine::Skip;
    }
    let last = &fields[fields.len() - 1];
    if last.len() == 0 {
        return ParsedLine::Skip;
    }
    let src = match parse_codepoint_exec(&fields[0]) {
        None => {
            return ParsedLine::Bad;
        },
        Some(c) => c,
    };
    let uc = match parse_codepoint_exec(last) {
        None => {
            return ParsedLine::Bad;
        },
        Some(c) => c,
    };
    if uc == src {
        return ParsedLine::Skip;
    }
    let e = TitlecaseEntry { key: src, mapping: [uc, '\0', '\0'] };
    assert(e.mapping@ =~= seq![uc, '\0', '\0']);
    ParsedLine::Entry(e)
}

/// A fault found while folding one source's lines into the mapping.
pub enum PassFault {
    /// The line at this index is malformed.
    BadLine(int),
    /// This character was given two different mappings.
    Clash(char),
}

/// Folds the lines of one source file into the key-to-mapping association,
/// line by line from index `i`: a `SpecialCasing.txt` pass when `special`
/// holds, a `UnicodeData.txt` pass otherwise. Re-inserting an identical
/// mapping is a silent no-op; a differing mapping for a present key is a
/// clash.
pub open spec fn merge_pass(
    lines: Seq<Seq<char>>,
    special: bool,
    m: Map<char, Seq<char>>,
    i: int,
) -> Result<Map<char, Seq<char>>, PassFault>
    decreases lines.len() - i,
{
    if i < 0 || i >= lines.len() {
        Ok(m)
    } else {
        let p = if special {
            sc_line(lines[i])
        } else {
            ud_line(lines[i])
        };
        match p {
            LineSpec::Bad => Err(PassFault::BadLine(i)),
            LineSpec::Skip => merge_pass(lines, special, m, i + 1),
            LineSpec::Entry(k, v) => if m.dom().contains(k) && m[k] != v {
                Err(PassFault::Clash(k))
            } else {
                merge_pass(lines, special, m.insert(k, v), i + 1)
            },
        }
    }
}

/// Why a table build failed; the build is fail-fast, so the first fault is
/// reported.
#[derive(Debug, Clone, Copy, PartialEq, Eq, Structural)]
pub enum BuildError {
    /// A malformed record in `SpecialCasing.txt`, by zero-based line index.
    SpecialCasing(usize),
    /// A malformed record in `UnicodeData.txt`, by zero-based line index.
    UnicodeData(usize),
    /// The sources give this character two different mappings.
    Conflict(char),
}

/// The error a pass fault names, by source file.
pub open spec fn fault_error(f: PassFault, special: bool) -> BuildError {
    match f {
        PassFault::BadLine(i) => if special {
            BuildError::SpecialCasing(i as usize)
        } else {
            BuildError::UnicodeData(i as usize)
        },
        PassFault::Clash(c) => BuildError::Conflict(c),
    }
}

/// The key-to-mapping association the two source texts denote, or the first
/// fault: the `SpecialCasing.txt` pass runs first, the `UnicodeData.txt`
/// pass second over its result.
pub open spec fn build_spec(sc: Seq<char>, ud: Seq<char>) -> Result<
    Map<char, Seq<char>>,
    BuildError,
> {
    match merge_pass(lines_of(sc), true, Map::empty(), 0) {
        Err(f) => Err(fault_error(f, true)),
        Ok(m1) => match merge_pass(lines_of(ud), false, m1, 0) {
            Err(f) => Err(fault_error(f, false)),
            Ok(m) => Ok(m),
        },
    }
}

/// What inserting an entry into the sorted vector did.
enum InsertOutcome {
    /// The key was new; the entry is now in place.
    Added,
    /// The key was present with the identical mapping; nothing changed.
    Same,
    /// The key was present with a different mapping.
    Clash,
}

/// Inserts an entry into the sorted entry vector, keeping it sorted and
/// checking the conflict policy.
fn insert_entry(entries: &mut Vec<TitlecaseEntry>, e: TitlecaseEntry) -> (r: InsertOutcome)
    requires
        entries_sorted(old(entries)@),
    ensures
        entries_sorted(final(entries)@),
        match r {
            InsertOutcome::Added => !entries_map(old(entries)@).dom().contains(e.key)
                && entries_map(final(entries)@) =~= entries_map(old(entries)@).insert(
                e.key,
                e.mapping@,
            ) && (entries_self_map_free(old(entries)@) && e.mapping[0] != e.key
                ==> entries_self_map_free(final(entries)@)),
            InsertOutcome::Same => final(entries)@ == old(entries)@ && entries_map(
                old(entries)@,
            ).dom().contains(e.key) && entries_map(old(entries)@)[e.key] == e.mapping@,
            InsertOutcome::Clash => final(entries)@ == old(entries)@ && entries_map(
                old(entries)@,
            ).dom().contains(e.key) && entries_map(old(entries)@)[e.key] != e.mapping@,
        },
{
    let n = entries.len();
    let mut p: usize = 0;
    while p < n && (entries[p].key as u32) < (e.key as u32)
        invariant
            p <= n,
            n == entries@.len(),
            entries_sorted(entries@),
            forall|i: int| 0 <= i < p ==> (entries@[i].key as u32) < (e.key as u32),
        decreases n - p,
    {
        p = p + 1;
    }
    proof {
        assert(entries_unique(entries@));
    }
    if p < n && entries[p].key == e.key {
        proof {
            lemma_entries_map_at(entries@, p as int);
        }
        let m = &entries[p].mapping;
        if m[0] == e.mapping[0] && m[1] == e.mapping[1] && m[2] == e.mapping[2] {
            assert(entries@[p as int].mapping@ =~= e.mapping@);
            InsertOutcome::Same
        } else {
            assert(entries@[p as int].mapping@ != e.mapping@) by {
                if entries@[p as int].mapping@ == e.mapping@ {
                    assert(entries@[p as int].mapping[0] == e.mapping[0]);
                    assert(entries@[p as int].mapping[1] == e.mapping[1]);
                    assert(entries@[p as int].mapping[2] == e.mapping[2]);
                }
            }
            InsertOutcome::Clash
        }
    } else {
        proof {
            if p < n {
                assert((e.key as u32) < (entries@[p as int].key as u32));
            }
            assert forall|i: int| 0 <= i < n implies entries@[i].key != e.key by {
                if i < p {
                    assert((entries@[i].key as u32) < (e.key as u32));
                } else {
                    assert((e.key as u32) <= (entries@[p as int].key as u32));
                    if i > p {
                        assert((entries@[p as int].key as u32) < (entries@[i].key as u32));
                    }
                }
            }
            lemma_entries_map_dom(entries@);
            lemma_entries_map_insert(entries@, p as int, e);
        }
        let ghost pre = entries@;
        entries.insert(p, e);
        proof {
            assert(entries@ == pre.insert(p as int, e));
            assert(entries@[p as int] == e);
            assert(forall|i: int| 0 <= i < p ==> entries@[i] == pre[i]);
            assert(forall|i: int| p < i < entries@.len() ==> entries@[i] == pre[i - 1]);
            assert forall|i: int, j: int| 0 <= i < j < entries@.len() implies (
            entries@[i].key as u32) < (entries@[j].key as u32) by {
                if i == p {
                    assert((e.key as u32) < (pre[j - 1].key as u32));
                } else if j == p {
                    assert((pre[i].key as u32) < (e.key as u32));
                } else if i < p && j > p {
                    assert((pre[i].key as u32) < (e.key as u32));
                    assert((e.key as u32) < (pre[j - 1].key as u32));
                }
            }
        }
        InsertOutcome::Added
    }
}

/// Builds the title-case exception table from the texts of
/// `SpecialCasing.txt` and `UnicodeData.txt`.
///
/// On success the table is well-formed — keys strictly ascending, no
/// self-mapping — and denotes exactly the association the two sources
/// merge to. On the first malformed record or cross-source conflict the
/// build fails with the fault, and no table is produced.
#[verifier::loop_isolation(false)]
pub fn build_table(special_casing: &str, unicode_data: &str) -> (r: Result<
    TitlecaseTable,
    BuildError,
>)
    ensures
        match r {
            Ok(t) => t.wf() && build_spec(special_casing@, unicode_data@) == Ok::<Map<char, Seq<char>>, BuildError>(t.as_map()),
            Err(e) => build_spec(special_casing@, unicode_data@) == Err::<Map<char, Seq<char>>, BuildError>(e),
        },
{
    let sc_chars = str_chars(special_casing);
    let sc_lines = split_lines(&sc_chars);
    let ghost scl = lines_of(special_casing@);
    let mut entries: Vec<TitlecaseEntry> = Vec::new();
    let n1 = sc_lines.len();
    let mut i: usize = 0;
    while i < n1
        invariant
            i <= n1,
            n1 == scl.len(),
            sc_lines@.len() == scl.len(),
            forall|k: int| 0 <= k < sc_lines@.len() ==> sc_lines@[k]@ == scl[k],
            entries_sorted(entries@),
            entries_self_map_free(entries@),
            merge_pass(scl, true, Map::empty(), 0) == merge_pass(
                scl,
                true,
                entries_map(entries@),
                i as int,
            ),
        decreases n1 - i,
    {
        let ghost m_pre = entries_map(entries@);
        match sc_line_exec(&sc_lines[i]) {
            ParsedLine::Bad => {
                assert(merge_pass(scl, true, m_pre, i as int) == Err::<
                    Map<char, Seq<char>>,
                    PassFault,
                >(PassFault::BadLine(i as int)));
                return Err(BuildError::SpecialCasing(i));
            },
            ParsedLine::Skip => {
                assert(merge_pass(scl, true, m_pre, i as int) == merge_pass(
                    scl,
                    true,
                    m_pre,
                    i as int + 1,
                ));
            },
            ParsedLine::Entry(e) => {
                match insert_entry(&mut entries, e) {
                    InsertOutcome::Added => {
                        assert(merge_pass(scl, true, m_pre, i as int) == merge_pass(
                            scl,
                            true,
                            m_pre.insert(e.key, e.mapping@),
                            i as int + 1,
                        ));
                    },
                    InsertOutcome::Same => {
                        assert(m_pre.insert(e.key, e.mapping@) =~= m_pre);
                        assert(merge_pass(scl, true, m_pre, i as int) == merge_pass(
                            scl,
                            true,
                            m_pre,
                            i as int + 1,
                        ));
                    },
                    InsertOutcome::Clash => {
                        assert(merge_pass(scl, true, m_pre, i as int) == Err::<
                            Map<char, Seq<char>>,
                            PassFault,
                        >(PassFault::Clash(e.key)));
                        return Err(BuildError::Conflict(e.key));
                    },
                }
            },
        }
        i = i + 1;
    }
    let ghost m1 = entries_map(entries@);
    assert(merge_pass(scl, true, Map::empty(), 0) == Ok::<Map<char, Seq<char>>, PassFault>(m1));

    let ud_chars = str_chars(unicode_data);
    let ud_lines = split_lines(&ud_chars);
    let ghost udl = lines_of(unicode_data@);
    let n2 = ud_lines.len();
    let mut j: usize = 0;
    while j < n2
        invariant
            j <= n2,
            n2 == udl.len(),
            ud_lines@.len() == udl.len(),
            forall|k: int| 0 <= k < ud_lines@.len() ==> ud_lines@[k]@ == udl[k],
            entries_sorted(entries@),
            entries_self_map_free(entries@),
            merge_pass(udl, false, m1, 0) == merge_pass(
                udl,
                false,
                entries_map(entries@),
                j as int,
            ),
        decreases n2 - j,
    {
        let ghost m_pre = entries_map(entries@);
        match ud_line_exec(&ud_lines[j]) {
            ParsedLine::Bad => {
                assert(merge_pass(udl, false, m_pre, j as int) == Err::<
                    Map<char, Seq<char>>,
                    PassFault,
                >(PassFault::BadLine(j as int)));
                return Err(BuildError::UnicodeData(j));
            },
            ParsedLine::Skip => {
                assert(merge_pass(udl, false, m_pre, j as int) == merge_pass(
                    udl,
                    false,
                    m_pre,
                    j as int + 1,
                ));
            },
            ParsedLine::Entry(e) => {
                match insert_entry(&mut entries, e) {
                    InsertOutcome::Added => {
                        assert(merge_pass(udl, false, m_pre, j as int) == merge_pass(
                            udl,
                            false,
                            m_pre.insert(e.key, e.mapping@),
                            j as int + 1,
                        ));
                    },
                    InsertOutcome::Same => {
                        assert(m_pre.insert(e.key, e.mapping@) =~= m_pre);
                        assert(merge_pass(udl, false, m_pre, j as int) == merge_pass(
                            udl,
                            false,
                            m_pre,
                            j as int + 1,
                        ));
                    },
                    InsertOutcome::Clash => {
                        assert(merge_pass(udl, false, m_pre, j as int) == Err::<
                            Map<char, Seq<char>>,
                            PassFault,
                        >(PassFault::Clash(e.key)));
                        return Err(BuildError::Conflict(e.key));
                    },
                }
            },
        }
        j = j + 1;
    }
    assert(merge_pass(udl, false, m1, 0) == Ok::<Map<char, Seq<char>>, PassFault>(
        entries_map(entries@),
    ));
    let t = TitlecaseTable::from_entries(entries);
    Ok(t)
}


} // verus!
