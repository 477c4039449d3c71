//! Unicode-correct title casing for single characters and strings.
//!
//! The crate has two halves. The table builder (`builder`) parses the two
//! Unicode Character Database source files (`SpecialCasing.txt` and
//! `UnicodeData.txt`) into a sorted, conflict-checked `TitlecaseTable` of
//! the characters whose title case differs from themselves. The case mapper
//! (`table`, `mapping`, `tr_az`, `policies`) looks characters up in that
//! table and exposes character-level and string-level title-casing
//! operations, including the Turkish/Azerbaijani dotted-I exceptions.
//!
//! Every public operation carries a contract that pins its result down, and
//! the table invariants (strictly sorted keys, no self-mappings) are proved
//! of every table the builder returns.

pub mod builder;
pub mod mapping;
pub mod policies;
pub mod table;
pub mod tr_az;
pub mod unicode;

pub use builder::{build_table, BuildError};
pub use mapping::ToTitleCase;
pub use policies::StrTitleCase;
pub use table::{to_titlecase, to_titlecase_tr_or_az, TitleCase, TitlecaseEntry, TitlecaseTable};
