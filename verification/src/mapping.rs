//! The fixed-capacity cursor over a case mapping of at most three codepoints.
//!
//! A title-case mapping is stored as a three-slot array whose unused trailing
//! slots carry the NUL sentinel. [`CaseMappingIter`] turns such an array into
//! a value holding the zero to three codepoints still to be emitted; the
//! sentinel is a storage convention only and is stripped on construction, so
//! no state ever holds it. The cursor supports front and back extraction and
//! reports an exact remaining count.

use vstd::prelude::*;

verus! {

/// The slots of a stored mapping use the NUL sentinel only in trailing
/// positions: once a slot is NUL, every later slot is NUL too.
pub open spec fn mapping_slots_wf(slots: Seq<char>) -> bool {
    &&& slots.len() == 3
    &&& (slots[0] == '\0' ==> slots[1] == '\0')
    &&& (slots[1] == '\0' ==> slots[2] == '\0')
}

/// The codepoints of a three-slot mapping array, up to its first NUL
/// sentinel.
pub open spec fn mapping_chars(slots: Seq<char>) -> Seq<char>
    recommends
        slots.len() == 3,
{
    if slots[0] == '\0' {
        Seq::empty()
    } else if slots[1] == '\0' {
        seq![slots[0]]
    } else if slots[2] == '\0' {
        seq![slots[0], slots[1]]
    } else {
        seq![slots[0], slots[1], slots[2]]
    }
}

/// How many of the three slots hold a codepoint rather than the sentinel.
pub open spec fn non_sentinel_count(slots: Seq<char>) -> int
    recommends
        slots.len() == 3,
{
    (if slots[0] == '\0' {
        0int
    } else {
        1int
    }) + (if slots[1] == '\0' {
        0int
    } else {
        1int
    }) + (if slots[2] == '\0' {
        0int
    } else {
        1int
    })
}

/// Law: on an array whose sentinels are all trailing, the cursor sequence is
/// exactly as long as the count of non-sentinel slots.
pub proof fn lemma_cursor_len_counts_slots(slots: Seq<char>)
    requires
        mapping_slots_wf(slots),
    ensures
        mapping_chars(slots).len() == non_sentinel_count(slots),
{
}

/// Law: extracting every codepoint from the back (each time the last of the
/// remaining sequence, as `next_back` does) visits the remaining sequence in
/// reverse order, and so yields the same multiset as front extraction.
pub proof fn lemma_back_extraction_reverses(s: Seq<char>)
    ensures
        s.reverse().len() == s.len(),
        forall|i: int| 0 <= i < s.len() ==> s.reverse()[i] == s[s.len() - 1 - i],
        s.reverse().to_multiset() == s.to_multiset(),
{
    s.lemma_reverse_to_multiset();
}

/// A value representing zero to three codepoints remaining to be emitted.
/// No stored codepoint is ever the NUL sentinel.
#[derive(Debug, Clone, PartialEq, Eq, Structural, PartialOrd, Ord, Hash)]
pub(crate) enum CaseMappingIter {
    Three(char, char, char),
    Two(char, char),
    One(char),
    Zero,
}

impl CaseMappingIter {
    /// The codepoints remaining to be emitted, front first.
    pub closed spec fn remaining(self) -> Seq<char> {
        match self {
            CaseMappingIter::Three(a, b, c) => seq![a, b, c],
            CaseMappingIter::Two(b, c) => seq![b, c],
            CaseMappingIter::One(c) => seq![c],
            CaseMappingIter::Zero => Seq::empty(),
        }
    }

    /// Builds the cursor from a three-slot array, stripping the NUL
    /// sentinels of the storage convention.
    pub(crate) fn new(chars: [char; 3]) -> (r: CaseMappingIter)
        ensures
            r.remaining() == mapping_chars(chars@),
    {
        if chars[0] == '\0' {
            CaseMappingIter::Zero
        } else if chars[1] == '\0' {
            CaseMappingIter::One(chars[0])
        } else if chars[2] == '\0' {
            CaseMappingIter::Two(chars[0], chars[1])
        } else {
            CaseMappingIter::Three(chars[0], chars[1], chars[2])
        }
    }

    /// Extracts the front codepoint, or `None` once none remain.
    pub(crate) fn next(&mut self) -> (r: Option<char>)
        ensures
            old(self).remaining().len() == 0 ==> r is None && final(self).remaining() == old(self).remaining(),
            old(self).remaining().len() > 0 ==> r == Some(old(self).remaining()[0])
                && final(self).remaining() == old(self).remaining().drop_first(),
    {
        match *self {
            CaseMappingIter::Three(a, b, c) => {
                *self = CaseMappingIter::Two(b, c);
                assert(old(self).remaining().drop_first() =~= self.remaining());
                Some(a)
            },
            CaseMappingIter::Two(b, c) => {
                *self = CaseMappingIter::One(c);
                assert(old(self).remaining().drop_first() =~= self.remaining());
                Some(b)
            },
            CaseMappingIter::One(c) => {
                *self = CaseMappingIter::Zero;
                assert(old(self).remaining().drop_first() =~= self.remaining());
                Some(c)
            },
            CaseMappingIter::Zero => None,
        }
    }

    /// Extracts the back codepoint, or `None` once none remain.
    pub(crate) fn next_back(&mut self) -> (r: Option<char>)
        ensures
            old(self).remaining().len() == 0 ==> r is None && final(self).remaining() == old(self).remaining(),
            old(self).remaining().len() > 0 ==> r == Some(old(self).remaining().last())
                && final(self).remaining() == old(self).remaining().drop_last(),
    {
        match *self {
            CaseMappingIter::Three(a, b, c) => {
                *self = CaseMappingIter::Two(a, b);
                assert(old(self).remaining().drop_last() =~= self.remaining());
                Some(c)
            },
            CaseMappingIter::Two(b, c) => {
                *self = CaseMappingIter::One(b);
                assert(old(self).remaining().drop_last() =~= self.remaining());
                Some(c)
            },
            CaseMappingIter::One(c) => {
                *self = CaseMappingIter::Zero;
                assert(old(self).remaining().drop_last() =~= self.remaining());
                Some(c)
            },
            CaseMappingIter::Zero => None,
        }
    }

    /// The exact remaining count, as both a lower and an upper bound.
    pub(crate) fn size_hint(&self) -> (r: (usize, Option<usize>))
        ensures
            r.0 == self.remaining().len(),
            r.1 == Some(r.0),
    {
        let size: usize = match self {
            CaseMappingIter::Three(..) => 3,
            CaseMappingIter::Two(..) => 2,
            CaseMappingIter::One(_) => 1,
            CaseMappingIter::Zero => 0,
        };
        (size, Some(size))
    }

    /// Appends the remaining codepoints to a `String`.
    pub(crate) fn append_to(&self, out: &mut String)
        ensures
            final(out)@ == old(out)@ + self.remaining(),
    {
        match *self {
            CaseMappingIter::Three(a, b, c) => {
                crate::unicode::push_char(out, a);
                crate::unicode::push_char(out, b);
                crate::unicode::push_char(out, c);
            },
            CaseMappingIter::Two(b, c) => {
                crate::unicode::push_char(out, b);
                crate::unicode::push_char(out, c);
            },
            CaseMappingIter::One(c) => {
                crate::unicode::push_char(out, c);
            },
            CaseMappingIter::Zero => {},
        }
        assert(out@ =~= old(out)@ + self.remaining());
    }

    /// The remaining codepoints collected into a `String`.
    pub(crate) fn collect_string(&self) -> (r: String)
        ensures
            r@ == self.remaining(),
    {
        let mut out = String::new();
        match *self {
            CaseMappingIter::Three(a, b, c) => {
                crate::unicode::push_char(&mut out, a);
                crate::unicode::push_char(&mut out, b);
                crate::unicode::push_char(&mut out, c);
            },
            CaseMappingIter::Two(b, c) => {
                crate::unicode::push_char(&mut out, b);
                crate::unicode::push_char(&mut out, c);
            },
            CaseMappingIter::One(c) => {
                crate::unicode::push_char(&mut out, c);
            },
            CaseMappingIter::Zero => {},
        }
        assert(out@ =~= self.remaining());
        out
    }
}

/// An iterator-like cursor over the title-case mapping of one character,
/// yielding at most three codepoints from the front or the back.
#[derive(Debug, Clone, PartialEq, Eq, Structural, PartialOrd, Ord, Hash)]
pub struct ToTitleCase(pub(crate) CaseMappingIter);

impl ToTitleCase {
    /// The codepoints remaining to be emitted, front first.
    pub closed spec fn remaining(self) -> Seq<char> {
        self.0.remaining()
    }

    /// Builds the cursor from a three-slot array, stripping the NUL
    /// sentinels of the storage convention.
    pub(crate) fn from_slots(slots: [char; 3]) -> (r: ToTitleCase)
        ensures
            r.remaining() == mapping_chars(slots@),
    {
        ToTitleCase(CaseMappingIter::new(slots))
    }

    /// Extracts the front codepoint, or `None` once none remain.
    pub fn next(&mut self) -> (r: Option<char>)
        ensures
            old(self).remaining().len() == 0 ==> r is None && final(self).remaining() == old(self).remaining(),
            old(self).remaining().len() > 0 ==> r == Some(old(self).remaining()[0])
                && final(self).remaining() == old(self).remaining().drop_first(),
    {
        self.0.next()
    }

    /// Extracts the back codepoint, or `None` once none remain.
    pub fn next_back(&mut self) -> (r: Option<char>)
        ensures
            old(self).remaining().len() == 0 ==> r is None && final(self).remaining() == old(self).remaining(),
            old(self).remaining().len() > 0 ==> r == Some(old(self).remaining().last())
                && final(self).remaining() == old(self).remaining().drop_last(),
    {
        self.0.next_back()
    }

    /// The exact remaining count, as both a lower and an upper bound.
    pub fn size_hint(&self) -> (r: (usize, Option<usize>))
        ensures
            r.0 == self.remaining().len(),
            r.1 == Some(r.0),
    {
        self.0.size_hint()
    }

    /// The remaining codepoints collected into a `String`.
    pub fn to_string(&self) -> (r: String)
        ensures
            r@ == self.remaining(),
    {
        self.0.collect_string()
    }
}

} // verus!
