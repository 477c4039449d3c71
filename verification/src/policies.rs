//! String-level title-casing policies.
//!
//! Each policy acts on the first character of a string and leaves iteration
//! over the remainder untouched: it replaces the first character with its
//! (default or tr/az) title-case expansion, and either keeps the rest
//! unchanged or lowercases it. The predicates test the first character, and
//! optionally the rest, without building a new string. An empty string is a
//! valid input everywhere: the mapping policies return an empty string and
//! the predicates return false.

use vstd::prelude::*;
use vstd::string::StrSliceExecFns;

use crate::mapping::{mapping_chars, CaseMappingIter};
use crate::table::{titlecase_of, tr_az_titlecase_of, TitlecaseTable};
use crate::tr_az::{to_lowercase_tr_or_az, tr_az_lower_map};
use crate::unicode::{is_lowercase_char, push_char, to_lowercase_chars, unicode_is_lowercase, unicode_lower};

verus! {

/// The standard lowercase mappings of every character of a sequence,
/// concatenated in order.
pub open spec fn lower_concat(s: Seq<char>) -> Seq<char>
    decreases s.len(),
{
    if s.len() == 0 {
        Seq::empty()
    } else {
        lower_concat(s.drop_last()) + unicode_lower(s.last())
    }
}

/// The first character replaced by its default title-case expansion, the
/// rest unchanged; empty in, empty out.
pub open spec fn title_first(t: TitlecaseTable, s: Seq<char>) -> Seq<char> {
    if s.len() == 0 {
        Seq::empty()
    } else {
        mapping_chars(titlecase_of(t, s[0])) + s.drop_first()
    }
}

/// The first character replaced by its default title-case expansion, the
/// rest lowercased with the standard mapping; empty in, empty out.
pub open spec fn title_first_lower_rest(t: TitlecaseTable, s: Seq<char>) -> Seq<char> {
    if s.len() == 0 {
        Seq::empty()
    } else {
        mapping_chars(titlecase_of(t, s[0])) + lower_concat(s.drop_first())
    }
}

/// The first character replaced by its tr/az title-case expansion, the rest
/// unchanged; empty in, empty out.
pub open spec fn title_first_tr_az(t: TitlecaseTable, s: Seq<char>) -> Seq<char> {
    if s.len() == 0 {
        Seq::empty()
    } else {
        mapping_chars(tr_az_titlecase_of(t, s[0])) + s.drop_first()
    }
}

/// The first character replaced by its tr/az title-case expansion, the rest
/// lowercased with the tr/az mapping; empty in, empty out.
pub open spec fn title_first_tr_az_lower_rest(t: TitlecaseTable, s: Seq<char>) -> Seq<char> {
    if s.len() == 0 {
        Seq::empty()
    } else {
        mapping_chars(tr_az_titlecase_of(t, s[0])) + tr_az_lower_map(s.drop_first())
    }
}

/// Appends every character of a vector to a string, in order.
fn push_chars(out: &mut String, v: &Vec<char>)
    ensures
        final(out)@ == old(out)@ + v@,
{
    let mut j: usize = 0;
    while j < v.len()
        invariant
            j <= v.len(),
            out@ == old(out)@ + v@.subrange(0, j as int),
        decreases v.len() - j,
    {
        push_char(out, v[j]);
        proof {
            assert(v@.subrange(0, j as int + 1) =~= v@.subrange(0, j as int).push(v@[j as int]));
        }
        j = j + 1;
    }
    assert(old(out)@ + v@.subrange(0, v@.len() as int) =~= old(out)@ + v@);
}

/// Title-case policies over a string, looked up in an explicit exception
/// table.
pub trait StrTitleCase {
    /// The characters this value stands for.
    spec fn spec_chars(&self) -> Seq<char>;

    /// Title-cases the first character, leaves the rest unchanged, and
    /// returns a copy.
    fn to_titlecase(&self, table: &TitlecaseTable) -> (r: String)
        requires
            table.wf(),
        ensures
            r@ == title_first(*table, self.spec_chars()),
    ;

    /// Title-cases the first character, lowercases the rest with the
    /// standard mapping, and returns a copy.
    fn to_titlecase_lower_rest(&self, table: &TitlecaseTable) -> (r: String)
        requires
            table.wf(),
        ensures
            r@ == title_first_lower_rest(*table, self.spec_chars()),
    ;

    /// As `to_titlecase`, but with the tr/az title case for the first
    /// character: 'i' maps to 'İ'.
    fn to_titlecase_tr_or_az(&self, table: &TitlecaseTable) -> (r: String)
        requires
            table.wf(),
        ensures
            r@ == title_first_tr_az(*table, self.spec_chars()),
    ;

    /// As `to_titlecase_lower_rest`, but with the tr/az title case for the
    /// first character and the tr/az lowercase ('I' to 'ı', 'İ' to 'i') for
    /// the rest.
    fn to_titlecase_tr_or_az_lower_rest(&self, table: &TitlecaseTable) -> (r: String)
        requires
            table.wf(),
        ensures
            r@ == title_first_tr_az_lower_rest(*table, self.spec_chars()),
    ;

    /// Whether the first character is title case: true exactly when the
    /// string is non-empty and its first character is not a key of the
    /// exception table. Locale-agnostic by design.
    fn starts_titlecase(&self, table: &TitlecaseTable) -> (r: bool)
        requires
            table.wf(),
        ensures
            r == (self.spec_chars().len() > 0 && !table.as_map().dom().contains(
                self.spec_chars()[0],
            )),
    ;

    /// Whether the first character is title case and every remaining
    /// character is lowercase per the standard predicate; false on an empty
    /// string.
    fn starts_titlecase_rest_lower(&self, table: &TitlecaseTable) -> (r: bool)
        requires
            table.wf(),
        ensures
            r == (self.spec_chars().len() > 0 && !table.as_map().dom().contains(
                self.spec_chars()[0],
            ) && forall|i: int|
                1 <= i < self.spec_chars().len() ==> unicode_is_lowercase(self.spec_chars()[i])),
    ;
}

impl StrTitleCase for str {
    open spec fn spec_chars(&self) -> Seq<char> {
        self@
    }

    fn to_titlecase(&self, table: &TitlecaseTable) -> (r: String) {
        let n = self.unicode_len();
        let mut out = String::new();
        if n == 0 {
            return out;
        }
        let c0 = self.get_char(0);
        let slots = crate::table::to_titlecase(c0, table);
        let cursor = CaseMappingIter::new(slots);
        cursor.append_to(&mut out);
        assert(out@ =~= mapping_chars(titlecase_of(*table, self@[0])) + self@.subrange(1, 1));
        let mut i: usize = 1;
        while i < n
            invariant
                1 <= i <= n,
                n == self@.len(),
                out@ == mapping_chars(titlecase_of(*table, self@[0])) + self@.subrange(1, i as int),
            decreases n - i,
        {
            let c = self.get_char(i);
            push_char(&mut out, c);
            proof {
                assert(self@.subrange(1, i as int + 1) =~= self@.subrange(1, i as int).push(
                    self@[i as int],
                ));
                assert(out@ =~= mapping_chars(titlecase_of(*table, self@[0])) + self@.subrange(
                    1,
                    i as int + 1,
                ));
            }
            i = i + 1;
        }
        assert(self@.subrange(1, n as int) =~= self@.drop_first());
        out
    }

    fn to_titlecase_lower_rest(&self, table: &TitlecaseTable) -> (r: String) {
        let n = self.unicode_len();
        let mut out = String::new();
        if n == 0 {
            return out;
        }
        let c0 = self.get_char(0);
        let slots = crate::table::to_titlecase(c0, table);
        let cursor = CaseMappingIter::new(slots);
        cursor.append_to(&mut out);
        assert(out@ =~= mapping_chars(titlecase_of(*table, self@[0])) + lower_concat(
            self@.subrange(1, 1),
        ));
        let mut i: usize = 1;
        while i < n
            invariant
                1 <= i <= n,
                n == self@.len(),
                out@ == mapping_chars(titlecase_of(*table, self@[0])) + lower_concat(
                    self@.subrange(1, i as int),
                ),
            decreases n - i,
        {
            let c = self.get_char(i);
            let v = to_lowercase_chars(c);
            push_chars(&mut out, &v);
            proof {
                assert(self@.subrange(1, i as int + 1).drop_last() =~= self@.subrange(1, i as int));
                assert(self@.subrange(1, i as int + 1).last() == self@[i as int]);
                assert(out@ =~= mapping_chars(titlecase_of(*table, self@[0])) + lower_concat(
                    self@.subrange(1, i as int + 1),
                ));
            }
            i = i + 1;
        }
        assert(self@.subrange(1, n as int) =~= self@.drop_first());
        out
    }

    fn to_titlecase_tr_or_az(&self, table: &TitlecaseTable) -> (r: String) {
        let n = self.unicode_len();
        let mut out = String::new();
        if n == 0 {
            return out;
        }
        let c0 = self.get_char(0);
        let slots = crate::table::to_titlecase_tr_or_az(c0, table);
        let cursor = CaseMappingIter::new(slots);
        cursor.append_to(&mut out);
        assert(out@ =~= mapping_chars(tr_az_titlecase_of(*table, self@[0])) + self@.subrange(1, 1));
        let mut i: usize = 1;
        while i < n
            invariant
                1 <= i <= n,
                n == self@.len(),
                out@ == mapping_chars(tr_az_titlecase_of(*table, self@[0])) + self@.subrange(
                    1,
                    i as int,
                ),
            decreases n - i,
        {
            let c = self.get_char(i);
            push_char(&mut out, c);
            proof {
                assert(self@.subrange(1, i as int + 1) =~= self@.subrange(1, i as int).push(
                    self@[i as int],
                ));
                assert(out@ =~= mapping_chars(tr_az_titlecase_of(*table, self@[0]))
                    + self@.subrange(1, i as int + 1));
            }
            i = i + 1;
        }
        assert(self@.subrange(1, n as int) =~= self@.drop_first());
        out
    }

    fn to_titlecase_tr_or_az_lower_rest(&self, table: &TitlecaseTable) -> (r: String) {
        let n = self.unicode_len();
        let mut out = String::new();
        if n == 0 {
            return out;
        }
        let c0 = self.get_char(0);
        let slots = crate::table::to_titlecase_tr_or_az(c0, table);
        let cursor = CaseMappingIter::new(slots);
        cursor.append_to(&mut out);
        assert(out@ =~= mapping_chars(tr_az_titlecase_of(*table, self@[0])) + tr_az_lower_map(
            self@.subrange(1, 1),
        ));
        let mut i: usize = 1;
        while i < n
            invariant
                1 <= i <= n,
                n == self@.len(),
                out@ == mapping_chars(tr_az_titlecase_of(*table, self@[0])) + tr_az_lower_map(
                    self@.subrange(1, i as int),
                ),
            decreases n - i,
        {
            let c = self.get_char(i);
            let l = to_lowercase_tr_or_az(c);
            push_char(&mut out, l);
            proof {
                assert(tr_az_lower_map(self@.subrange(1, i as int + 1)) =~= tr_az_lower_map(
                    self@.subrange(1, i as int),
                ).push(crate::tr_az::tr_az_lower_char(self@[i as int])));
                assert(out@ =~= mapping_chars(tr_az_titlecase_of(*table, self@[0]))
                    + tr_az_lower_map(self@.subrange(1, i as int + 1)));
            }
            i = i + 1;
        }
        assert(self@.subrange(1, n as int) =~= self@.drop_first());
        out
    }

    fn starts_titlecase(&self, table: &TitlecaseTable) -> (r: bool) {
        let n = self.unicode_len();
        if n == 0 {
            return false;
        }
        let c0 = self.get_char(0);
        table.lookup(c0).is_none()
    }

    fn starts_titlecase_rest_lower(&self, table: &TitlecaseTable) -> (r: bool) {
        let n = self.unicode_len();
        if n == 0 {
            return false;
        }
        let c0 = self.get_char(0);
        if table.lookup(c0).is_some() {
            return false;
        }
        let mut i: usize = 1;
        while i < n
            invariant
                1 <= i <= n,
                n == self@.len(),
                forall|j: int| 1 <= j < i ==> unicode_is_lowercase(self@[j]),
            decreases n - i,
        {
            let c = self.get_char(i);
            if !is_lowercase_char(c) {
                assert(!unicode_is_lowercase(self.spec_chars()[i as int]));
                return false;
            }
            i = i + 1;
        }
        true
    }
}

} // verus!
