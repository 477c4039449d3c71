//! The title-case exception table and the character-level lookups over it.
//!
//! The table holds exactly the characters whose Unicode title case differs
//! from themselves, sorted strictly ascending by codepoint so lookups can
//! binary-search. A character absent from the table is its own title case.

use vstd::prelude::*;

use crate::mapping::mapping_chars;
use crate::ToTitleCase;

verus! {

/// One exception entry: a source character and its title-case mapping of up
/// to three codepoints, with unused trailing slots holding the NUL sentinel.
#[derive(Debug, Clone, Copy, PartialEq, Eq)]
pub struct TitlecaseEntry {
    /// The character being mapped.
    pub key: char,
    /// Its title case; `mapping[0]` always differs from `key`.
    pub mapping: [char; 3],
}

/// Keys are strictly ascending by codepoint: sorted, and no duplicates.
pub open spec fn entries_sorted(s: Seq<TitlecaseEntry>) -> bool {
    forall|i: int, j: int|
        0 <= i < j < s.len() ==> (s[i].key as u32) < (s[j].key as u32)
}

/// No entry maps a character to itself in its primary slot.
pub open spec fn entries_self_map_free(s: Seq<TitlecaseEntry>) -> bool {
    forall|i: int| 0 <= i < s.len() ==> s[i].mapping[0] != s[i].key
}

/// The key-to-mapping association that a sequence of entries denotes.
pub open spec fn entries_map(s: Seq<TitlecaseEntry>) -> Map<char, Seq<char>>
    decreases s.len(),
{
    if s.len() == 0 {
        Map::empty()
    } else {
        entries_map(s.drop_last()).insert(s.last().key, s.last().mapping@)
    }
}

/// A key is in the association exactly when some entry holds it.
pub proof fn lemma_entries_map_dom(s: Seq<TitlecaseEntry>)
    ensures
        forall|c: char|
            entries_map(s).dom().contains(c) <==> exists|i: int| 0 <= i < s.len() && s[i].key == c,
    decreases s.len(),
{
    if s.len() > 0 {
        lemma_entries_map_dom(s.drop_last());
        assert forall|c: char| entries_map(s).dom().contains(c) implies exists|i: int|
            0 <= i < s.len() && s[i].key == c by {
            if c == s.last().key {
                assert(s[s.len() - 1].key == c);
            } else {
                assert(entries_map(s.drop_last()).dom().contains(c));
                let i = choose|i: int| 0 <= i < s.drop_last().len() && s.drop_last()[i].key == c;
                assert(s.drop_last()[i] == s[i]);
                assert(s[i].key == c);
            }
        }
        assert forall|c: char| (exists|i: int| 0 <= i < s.len() && s[i].key == c) implies
            entries_map(s).dom().contains(c) by {
            let i = choose|i: int| 0 <= i < s.len() && s[i].key == c;
            if i < s.len() - 1 {
                assert(s.drop_last()[i].key == c);
                assert(entries_map(s.drop_last()).dom().contains(c));
            }
        }
    }
}

/// Distinct entries hold distinct keys.
pub open spec fn entries_unique(s: Seq<TitlecaseEntry>) -> bool {
    forall|i: int, j: int| 0 <= i < j < s.len() ==> s[i].key != s[j].key
}

/// With unique keys, the association sends each entry's key to that entry's
/// mapping.
pub proof fn lemma_entries_map_at(s: Seq<TitlecaseEntry>, i: int)
    requires
        entries_unique(s),
        0 <= i < s.len(),
    ensures
        entries_map(s).dom().contains(s[i].key),
        entries_map(s)[s[i].key] == s[i].mapping@,
    decreases s.len(),
{
    if i == s.len() - 1 {
        lemma_entries_map_dom(s);
    } else {
        assert(s.drop_last()[i] == s[i]);
        lemma_entries_map_at(s.drop_last(), i);
        assert(s[i].key != s.last().key);
    }
}

/// Inserting an entry with a fresh key anywhere in the sequence inserts its
/// association into the map.
pub proof fn lemma_entries_map_insert(s: Seq<TitlecaseEntry>, p: int, e: TitlecaseEntry)
    requires
        entries_unique(s),
        0 <= p <= s.len(),
        forall|i: int| 0 <= i < s.len() ==> s[i].key != e.key,
    ensures
        entries_map(s.insert(p, e)) =~= entries_map(s).insert(e.key, e.mapping@),
{
    let s2 = s.insert(p, e);
    assert(s2.len() == s.len() + 1);
    assert(s2[p] == e);
    assert(forall|i: int| 0 <= i < p ==> s2[i] == s[i]);
    assert(forall|i: int| p < i < s2.len() ==> s2[i] == s[i - 1]);
    assert(entries_unique(s2));
    lemma_entries_map_dom(s);
    lemma_entries_map_dom(s2);
    let m1 = entries_map(s2);
    let m2 = entries_map(s).insert(e.key, e.mapping@);
    assert forall|c: char| m1.dom().contains(c) implies m2.dom().contains(c) by {
        let i = choose|i: int| 0 <= i < s2.len() && s2[i].key == c;
        if i < p {
            assert(s[i].key == c);
        } else if i > p {
            assert(s[i - 1].key == c);
        }
    }
    assert forall|c: char| m2.dom().contains(c) implies m1.dom().contains(c) by {
        if c == e.key {
            assert(s2[p].key == c);
        } else {
            let i = choose|i: int| 0 <= i < s.len() && s[i].key == c;
            if i < p {
                assert(s2[i].key == c);
            } else {
                assert(s2[i + 1].key == c);
            }
        }
    }
    assert forall|c: char| m1.dom().contains(c) implies m1[c] == m2[c] by {
        if c == e.key {
            lemma_entries_map_at(s2, p);
        } else {
            let i = choose|i: int| 0 <= i < s.len() && s[i].key == c;
            lemma_entries_map_at(s, i);
            if i < p {
                lemma_entries_map_at(s2, i);
            } else {
                lemma_entries_map_at(s2, i + 1);
            }
        }
    }
}

/// The sorted, conflict-checked table of title-case exceptions. Built once
/// by the table builder, then only read.
#[derive(Debug, Clone, PartialEq, Eq)]
pub struct TitlecaseTable {
    entries: Vec<TitlecaseEntry>,
}

impl TitlecaseTable {
    /// The entries, in table order.
    pub closed spec fn entries_seq(self) -> Seq<TitlecaseEntry> {
        self.entries@
    }

    /// The key-to-mapping association the table denotes.
    pub closed spec fn as_map(self) -> Map<char, Seq<char>> {
        entries_map(self.entries@)
    }

    /// Table well-formedness: keys strictly ascending, and no entry mapping
    /// a character to itself.
    pub open spec fn wf(self) -> bool {
        &&& entries_sorted(self.entries_seq())
        &&& entries_self_map_free(self.entries_seq())
    }

    pub(crate) fn from_entries(entries: Vec<TitlecaseEntry>) -> (r: TitlecaseTable)
        ensures
            r.entries_seq() == entries@,
            r.as_map() == entries_map(entries@),
    {
        TitlecaseTable { entries }
    }

    /// How many exception entries the table holds.
    pub fn len(&self) -> (r: usize)
        ensures
            r == self.entries_seq().len(),
    {
        self.entries.len()
    }

    /// The entry at a position in table order.
    pub fn entry_at(&self, i: usize) -> (r: TitlecaseEntry)
        requires
            i < self.entries_seq().len(),
        ensures
            r == self.entries_seq()[i as int],
    {
        self.entries[i]
    }

    /// Checks the table invariants at run time: strictly ascending keys and
    /// no self-mapping in the primary slot.
    pub fn is_well_formed(&self) -> (r: bool)
        ensures
            r == self.wf(),
    {
        let n = self.entries.len();
        let mut i: usize = 0;
        while i < n
            invariant
                i <= n,
                n == self.entries_seq().len(),
                forall|a: int, b: int|
                    0 <= a < b < i ==> (self.entries_seq()[a].key as u32)
                        < (self.entries_seq()[b].key as u32),
                forall|a: int|
                    0 <= a < i ==> self.entries_seq()[a].mapping[0] != self.entries_seq()[a].key,
            decreases n - i,
        {
            let e = self.entries[i];
            if e.mapping[0] == e.key {
                return false;
            }
            if i > 0 {
                let prev = self.entries[i - 1];
                if (prev.key as u32) >= (e.key as u32) {
                    return false;
                }
            }
            i = i + 1;
        }
        true
    }

    /// Binary search for a character among the sorted keys.
    pub fn lookup(&self, c: char) -> (r: Option<[char; 3]>)
        requires
            self.wf(),
        ensures
            match r {
                Some(m) => self.as_map().dom().contains(c) && m@ == self.as_map()[c],
                None => !self.as_map().dom().contains(c),
            },
    {
        proof {
            lemma_entries_map_dom(self.entries@);
        }
        let mut lo: usize = 0;
        let mut hi: usize = self.entries.len();
        while lo < hi
            invariant
                lo <= hi <= self.entries_seq().len(),
                entries_sorted(self.entries_seq()),
                entries_self_map_free(self.entries_seq()),
                forall|i: int| 0 <= i < lo ==> (self.entries_seq()[i].key as u32) < (c as u32),
                forall|i: int|
                    hi <= i < self.entries_seq().len() ==> (c as u32)
                        < (self.entries_seq()[i].key as u32),
            decreases hi - lo,
        {
            let mid = lo + (hi - lo) / 2;
            let e = self.entries[mid];
            if (e.key as u32) < (c as u32) {
                lo = mid + 1;
            } else if (c as u32) < (e.key as u32) {
                hi = mid;
            } else {
                assert(e.key == c) by {
                    assert((e.key as u32) == (c as u32));
                }
                proof {
                    lemma_entries_map_at(self.entries@, mid as int);
                }
                return Some(e.mapping);
            }
        }
        assert(forall|i: int|
            0 <= i < self.entries_seq().len() ==> self.entries_seq()[i].key != c);
        None
    }
}

/// The default title case of a character under a table: the stored mapping
/// on a hit, the character itself (padded with sentinels) on a miss.
pub open spec fn titlecase_of(t: TitlecaseTable, c: char) -> Seq<char> {
    if t.as_map().dom().contains(c) {
        t.as_map()[c]
    } else {
        seq![c, '\0', '\0']
    }
}

/// The tr/az title case of a character under a table: as the default,
/// except that 'i' (U+0069) maps to 'İ' (U+0130).
pub open spec fn tr_az_titlecase_of(t: TitlecaseTable, c: char) -> Seq<char> {
    if c == 'i' {
        seq!['\u{0130}', '\0', '\0']
    } else {
        titlecase_of(t, c)
    }
}

/// The Unicode title case of a character as a three-slot array, ignoring
/// locale. A character absent from the exception table is its own title
/// case.
pub fn to_titlecase(c: char, table: &TitlecaseTable) -> (r: [char; 3])
    requires
        table.wf(),
    ensures
        r@ == titlecase_of(*table, c),
{
    match table.lookup(c) {
        Some(m) => m,
        None => {
            let r = [c, '\0', '\0'];
            assert(r@ =~= seq![c, '\0', '\0']);
            r
        },
    }
}

/// The Unicode title case of a character as a three-slot array in the tr/az
/// locales: as [`to_titlecase`], except that 'i' maps to 'İ'.
pub fn to_titlecase_tr_or_az(c: char, table: &TitlecaseTable) -> (r: [char; 3])
    requires
        table.wf(),
    ensures
        r@ == tr_az_titlecase_of(*table, c),
{
    if c == '\u{0069}' {
        let r = ['\u{0130}', '\0', '\0'];
        assert(r@ =~= seq!['\u{0130}', '\0', '\0']);
        r
    } else {
        to_titlecase(c, table)
    }
}

/// Law: the tr/az title case diverges from the default at exactly one
/// character: 'i' (U+0069), which maps to 'İ' (U+0130) alone.
pub proof fn lemma_locale_divergence(t: TitlecaseTable, c: char)
    ensures
        c != 'i' ==> tr_az_titlecase_of(t, c) == titlecase_of(t, c),
        tr_az_titlecase_of(t, 'i') == seq!['\u{0130}', '\0', '\0'],
{
}

/// Law: under a well-formed table, a character is title case (absent from
/// the table) exactly when the first codepoint of its default title-case
/// mapping is the character itself.
pub proof fn lemma_is_titlecase_consistent(t: TitlecaseTable, c: char)
    requires
        t.wf(),
    ensures
        !t.as_map().dom().contains(c) <==> titlecase_of(t, c)[0] == c,
{
    lemma_entries_map_dom(t.entries_seq());
    if t.as_map().dom().contains(c) {
        let i = choose|i: int| 0 <= i < t.entries_seq().len() && t.entries_seq()[i].key == c;
        lemma_entries_map_at(t.entries_seq(), i);
        assert(t.as_map()[c][0] != c);
    }
}

/// Title-case operations on a single character, looked up in an explicit
/// exception table.
pub trait TitleCase: Sized {
    /// The character this value stands for.
    spec fn spec_char(&self) -> char;

    /// Wraps [`to_titlecase`] in a cursor yielding at most three codepoints.
    fn to_titlecase(self, table: &TitlecaseTable) -> (r: ToTitleCase)
        requires
            table.wf(),
        ensures
            r.remaining() == mapping_chars(titlecase_of(*table, self.spec_char())),
    ;

    /// Wraps [`to_titlecase_tr_or_az`] in a cursor yielding at most three
    /// codepoints.
    fn to_titlecase_tr_or_az(self, table: &TitlecaseTable) -> (r: ToTitleCase)
        requires
            table.wf(),
        ensures
            r.remaining() == mapping_chars(tr_az_titlecase_of(*table, self.spec_char())),
    ;

    /// Whether the character is already title case, in every locale: true
    /// exactly when it is not a key of the exception table.
    fn is_titlecase(&self, table: &TitlecaseTable) -> (r: bool)
        requires
            table.wf(),
        ensures
            r == !table.as_map().dom().contains(self.spec_char()),
    ;
}

impl TitleCase for char {
    open spec fn spec_char(&self) -> char {
        *self
    }

    fn to_titlecase(self, table: &TitlecaseTable) -> (r: ToTitleCase) {
        ToTitleCase::from_slots(to_titlecase(self, table))
    }

    fn to_titlecase_tr_or_az(self, table: &TitlecaseTable) -> (r: ToTitleCase) {
        ToTitleCase::from_slots(to_titlecase_tr_or_az(self, table))
    }

    fn is_titlecase(&self, table: &TitlecaseTable) -> (r: bool) {
        table.lookup(*self).is_none()
    }
}

} // verus!
