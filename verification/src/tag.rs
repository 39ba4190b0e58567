//! Tags name the relational record that an index entry stands for.

use vstd::prelude::*;

verus! {

/// The two families of records that share the index.
#[derive(Clone, Copy, Debug, PartialEq, Eq, Structural)]
pub enum RecordKind {
    Activity,
    Document,
}

/// Composite key of an index entry: the family of the record and its identifier
/// inside that family.
#[derive(Clone, Copy, Debug, PartialEq, Eq, Structural)]
pub struct Tag {
    pub kind: RecordKind,
    pub id: i64,
}

impl Tag {
    /// Tag of the activity entry `id`.
    pub fn activity(id: i64) -> (tag: Tag)
        ensures
            tag == (Tag { kind: RecordKind::Activity, id }),
    {
        Tag { kind: RecordKind::Activity, id }
    }

    /// Tag of the project document `id`.
    pub fn document(id: i64) -> (tag: Tag)
        ensures
            tag == (Tag { kind: RecordKind::Document, id }),
    {
        Tag { kind: RecordKind::Document, id }
    }

    /// Whether two tags name the same record: same family and same identifier.
    pub fn same_record(&self, other: &Tag) -> (same: bool)
        ensures
            same == (*self == *other),
    {
        *self == *other
    }
}

} // verus!
