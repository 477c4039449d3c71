//! Upper- and lowercase utilities specific to the Turkish and Azerbaijani
//! locales.
//!
//! The sole divergences from the locale-agnostic Unicode mappings concern
//! the dotted and dotless I: uppercasing rewrites 'i' (U+0069) to 'İ'
//! (U+0130) before the standard expansion, and lowercasing sends 'I'
//! (U+0049) to 'ı' (U+0131) and 'İ' (U+0130) to 'i' (U+0069). The case
//! membership predicates are the locale-agnostic ones: the locale changes
//! case mappings, never case membership.

use vstd::prelude::*;
use vstd::string::StrSliceExecFns;

use crate::mapping::{mapping_chars, CaseMappingIter};
use crate::unicode::{
    is_lowercase_char, is_uppercase_char, to_lowercase_chars, to_uppercase_chars, unicode_is_lowercase,
    unicode_is_uppercase, unicode_lower, unicode_upper,
};

verus! {

/// The tr/az lowercase of one character: 'I' maps to 'ı', 'İ' maps to 'i',
/// and any other character to the first codepoint of its standard lowercase
/// mapping.
pub open spec fn tr_az_lower_char(c: char) -> char {
    if c == '\u{0049}' {
        '\u{0131}'
    } else if c == '\u{0130}' {
        '\u{0069}'
    } else {
        unicode_lower(c)[0]
    }
}

/// The slot at an index of a sequence, with the NUL sentinel past its end.
pub open spec fn slot_or_nul(s: Seq<char>, i: int) -> char {
    if 0 <= i < s.len() {
        s[i]
    } else {
        '\0'
    }
}

/// A mapping sequence held to the cursor's three slots: its first three
/// codepoints, cut at the first NUL sentinel.
pub open spec fn clamped3(s: Seq<char>) -> Seq<char> {
    mapping_chars(seq![slot_or_nul(s, 0), slot_or_nul(s, 1), slot_or_nul(s, 2)])
}

/// The tr/az uppercase mapping of one character: 'i' is rewritten to 'İ'
/// first, then the standard (possibly multi-codepoint) uppercase expansion
/// applies, held to the cursor's three slots.
pub open spec fn tr_az_upper_chars(c: char) -> Seq<char> {
    clamped3(
        unicode_upper(
            if c == '\u{0069}' {
                '\u{0130}'
            } else {
                c
            },
        ),
    )
}

/// The tr/az uppercase mappings of every character of a sequence,
/// concatenated in order.
pub open spec fn tr_az_upper_concat(s: Seq<char>) -> Seq<char>
    decreases s.len(),
{
    if s.len() == 0 {
        Seq::empty()
    } else {
        tr_az_upper_concat(s.drop_last()) + tr_az_upper_chars(s.last())
    }
}

/// The tr/az lowercase of every character of a sequence, in order.
pub open spec fn tr_az_lower_map(s: Seq<char>) -> Seq<char> {
    Seq::new(s.len(), |i: int| tr_az_lower_char(s[i]))
}

/// The Unicode upper case of a character in the tr/az locales, as a cursor
/// of at most three codepoints: 'i' maps to 'İ', every other character to
/// its standard uppercase expansion.
pub fn to_uppercase_tr_or_az(c: char) -> (r: TrAzCaseMapper)
    ensures
        r.remaining() == tr_az_upper_chars(c),
{
    let base = if c == '\u{0069}' {
        '\u{0130}'
    } else {
        c
    };
    let v = to_uppercase_chars(base);
    let s0 = v[0];
    let s1 = if v.len() >= 2 {
        v[1]
    } else {
        '\0'
    };
    let s2 = if v.len() >= 3 {
        v[2]
    } else {
        '\0'
    };
    let slots = [s0, s1, s2];
    assert(slots@ =~= seq![
        slot_or_nul(unicode_upper(base), 0),
        slot_or_nul(unicode_upper(base), 1),
        slot_or_nul(unicode_upper(base), 2),
    ]);
    TrAzCaseMapper::new(slots)
}

/// The Unicode lower case of a character in the tr/az locales: 'I' maps to
/// 'ı' and 'İ' to 'i'; every other character falls back to the first
/// codepoint of its standard lowercase mapping.
///
/// Returning a single `char` rather than a cursor is sound only while no
/// tr/az lowercase mapping expands to more than one codepoint, which holds
/// of current Unicode data. Should the Unicode Character Database ever
/// introduce such a mapping, this function must change to return a cursor;
/// the assumption is isolated here so that would be a one-place fix.
pub fn to_lowercase_tr_or_az(c: char) -> (r: char)
    ensures
        r == tr_az_lower_char(c),
{
    if c == '\u{0049}' {
        '\u{0131}'
    } else if c == '\u{0130}' {
        '\u{0069}'
    } else {
        let v = to_lowercase_chars(c);
        v[0]
    }
}

/// Lower- and uppercase transformations of a single character in the tr/az
/// locales.
pub trait TrAzCasing: Sized {
    /// The character this value stands for.
    spec fn spec_char(&self) -> char;

    /// The tr/az lower case of this character; see [`to_lowercase_tr_or_az`]
    /// for why this is a single `char`.
    fn to_lowercase_tr_az(self) -> (r: char)
        ensures
            r == tr_az_lower_char(self.spec_char()),
    ;

    /// Whether this character is lowercase, per the Unicode standard; the
    /// tr/az locales change no case membership.
    fn is_lowercase_tr_az(&self) -> (r: bool)
        ensures
            r == unicode_is_lowercase(self.spec_char()),
    ;

    /// The tr/az upper case of this character, as a cursor of at most three
    /// codepoints.
    fn to_uppercase_tr_az(self) -> (r: TrAzCaseMapper)
        ensures
            r.remaining() == tr_az_upper_chars(self.spec_char()),
    ;

    /// Whether this character is uppercase, per the Unicode standard; the
    /// tr/az locales change no case membership.
    fn is_uppercase_tr_az(&self) -> (r: bool)
        ensures
            r == unicode_is_uppercase(self.spec_char()),
    ;
}

impl TrAzCasing for char {
    open spec fn spec_char(&self) -> char {
        *self
    }

    fn to_lowercase_tr_az(self) -> (r: char) {
        to_lowercase_tr_or_az(self)
    }

    fn is_lowercase_tr_az(&self) -> (r: bool) {
        is_lowercase_char(*self)
    }

    fn to_uppercase_tr_az(self) -> (r: TrAzCaseMapper) {
        to_uppercase_tr_or_az(self)
    }

    fn is_uppercase_tr_az(&self) -> (r: bool) {
        is_uppercase_char(*self)
    }
}

/// Lower- and uppercase transformations of a string in the tr/az locales.
pub trait StrTrAzCasing {
    /// The characters this value stands for.
    spec fn spec_chars(&self) -> Seq<char>;

    /// The tr/az lower case of every character, in order; each character
    /// lowercases to exactly one codepoint in these locales.
    fn to_lowercase_tr_az(&self) -> (r: String)
        ensures
            r@ == tr_az_lower_map(self.spec_chars()),
    ;

    /// Whether every character of the string is lowercase, per the Unicode
    /// standard.
    fn is_lowercase_tr_az(&self) -> (r: bool)
        ensures
            r == forall|i: int|
                0 <= i < self.spec_chars().len() ==> unicode_is_lowercase(self.spec_chars()[i]),
    ;

    /// The tr/az upper case of every character, concatenated in order.
    fn to_uppercase_tr_az(&self) -> (r: String)
        ensures
            r@ == tr_az_upper_concat(self.spec_chars()),
    ;

    /// Whether every character of the string is uppercase, per the Unicode
    /// standard.
    fn is_uppercase_tr_az(&self) -> (r: bool)
        ensures
            r == forall|i: int|
                0 <= i < self.spec_chars().len() ==> unicode_is_uppercase(self.spec_chars()[i]),
    ;
}

impl StrTrAzCasing for str {
    open spec fn spec_chars(&self) -> Seq<char> {
        self@
    }

    fn to_lowercase_tr_az(&self) -> (r: String) {
        let n = self.unicode_len();
        let mut out = String::new();
        let mut i: usize = 0;
        while i < n
            invariant
                i <= n,
                n == self@.len(),
                out@.len() == i,
                forall|j: int| 0 <= j < i ==> out@[j] == tr_az_lower_char(self@[j]),
            decreases n - i,
        {
            let c = self.get_char(i);
            let l = to_lowercase_tr_or_az(c);
            crate::unicode::push_char(&mut out, l);
            i = i + 1;
        }
        assert(out@ =~= tr_az_lower_map(self@));
        out
    }

    fn is_lowercase_tr_az(&self) -> (r: bool) {
        let n = self.unicode_len();
        let mut i: usize = 0;
        while i < n
            invariant
                i <= n,
                n == self@.len(),
                forall|j: int| 0 <= j < i ==> unicode_is_lowercase(self@[j]),
            decreases n - i,
        {
            let c = self.get_char(i);
            if !is_lowercase_char(c) {
                assert(!unicode_is_lowercase(self.spec_chars()[i as int]));
                return false;
            }
            i = i + 1;
        }
        true
    }

    fn to_uppercase_tr_az(&self) -> (r: String) {
        let n = self.unicode_len();
        let mut out = String::new();
        let mut i: usize = 0;
        while i < n
            invariant
                i <= n,
                n == self@.len(),
                out@ == tr_az_upper_concat(self@.subrange(0, i as int)),
            decreases n - i,
        {
            let c = self.get_char(i);
            let m = to_uppercase_tr_or_az(c);
            m.0.append_to(&mut out);
            proof {
                assert(self@.subrange(0, i as int + 1).drop_last() =~= self@.subrange(0, i as int));
                assert(self@.subrange(0, i as int + 1).last() == self@[i as int]);
            }
            i = i + 1;
        }
        assert(self@.subrange(0, n as int) =~= self@);
        out
    }

    fn is_uppercase_tr_az(&self) -> (r: bool) {
        let n = self.unicode_len();
        let mut i: usize = 0;
        while i < n
            invariant
                i <= n,
                n == self@.len(),
                forall|j: int| 0 <= j < i ==> unicode_is_uppercase(self@[j]),
            decreases n - i,
        {
            let c = self.get_char(i);
            if !is_uppercase_char(c) {
                assert(!unicode_is_uppercase(self.spec_chars()[i as int]));
                return false;
            }
            i = i + 1;
        }
        true
    }
}

/// An iterator-like cursor over the tr/az upper-case mapping of one
/// character, yielding at most three codepoints from the front or the back.
#[derive(Debug, Clone, PartialEq, Eq, Structural, PartialOrd, Ord, Hash)]
pub struct TrAzCaseMapper(pub(crate) CaseMappingIter);

impl TrAzCaseMapper {
    /// The codepoints remaining to be emitted, front first.
    pub closed spec fn remaining(self) -> Seq<char> {
        self.0.remaining()
    }

    /// Builds the cursor from a three-slot array, stripping the NUL
    /// sentinels of the storage convention.
    fn new(slots: [char; 3]) -> (r: TrAzCaseMapper)
        ensures
            r.remaining() == mapping_chars(slots@),
    {
        TrAzCaseMapper(CaseMappingIter::new(slots))
    }

    /// Extracts the front codepoint, or `None` once none remain.
    pub fn next(&mut self) -> (r: Option<char>)
        ensures
            old(self).remaining().len() == 0 ==> r is None && final(self).remaining() == old(self).remaining(),
            old(self).remaining().len() > 0 ==> r == Some(old(self).remaining()[0])
                && final(self).remaining() == old(self).remaining().drop_first(),
    {
        self.0.next()
    }

    /// Extracts the back codepoint, or `None` once none remain.
    pub fn next_back(&mut self) -> (r: Option<char>)
        ensures
            old(self).remaining().len() == 0 ==> r is None && final(self).remaining() == old(self).remaining(),
            old(self).remaining().len() > 0 ==> r == Some(old(self).remaining().last())
                && final(self).remaining() == old(self).remaining().drop_last(),
    {
        self.0.next_back()
    }

    /// The exact remaining count, as both a lower and an upper bound.
    pub fn size_hint(&self) -> (r: (usize, Option<usize>))
        ensures
            r.0 == self.remaining().len(),
            r.1 == Some(r.0),
    {
        self.0.size_hint()
    }

    /// The remaining codepoints collected into a `String`.
    pub fn to_string(&self) -> (r: String)
        ensures
            r@ == self.remaining(),
    {
        self.0.collect_string()
    }
}

} // verus!
