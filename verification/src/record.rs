//! The records that the store keeps and that the index speaks of through
//! their tags.

use vstd::prelude::*;
use vstd::string::StrSliceExecFns;
use crate::orchestrator::{
    Decision,
    SkipReason,
    VectorizationSettings,
    decision_of,
    exceeds,
    trigger_holds,
};
use crate::tag::{RecordKind, Tag};

verus! {

/// Where a record stands with respect to the index. The state is not stored:
/// it follows from the record's flag and the length of its text.
#[derive(Clone, Copy, Debug, PartialEq, Eq, Structural)]
pub enum VectorizationState {
    /// The text is too short to be indexed.
    Ineligible,
    /// The text is long enough and the record has not been indexed.
    Eligible,
    /// The record's flag is set: it was indexed at some point. The index may
    /// hold the embedding of an earlier text, since an edit does not clear the
    /// flag.
    Indexed,
}

/// The state of a record with the given text and flag, for a minimum length.
pub open spec fn state_of(text: Seq<char>, vectorized: bool, min_text_length: nat) -> VectorizationState {
    if vectorized {
        VectorizationState::Indexed
    } else if exceeds(text.len(), min_text_length) {
        VectorizationState::Eligible
    } else {
        VectorizationState::Ineligible
    }
}

/// A captured activity. It is not changed after it was captured.
#[derive(Debug, PartialEq, Eq)]
pub struct ActivityRecord {
    pub id: i64,
    pub user_id: String,
    pub full_text: String,
    /// Seconds that the captured interval lasted.
    pub interval_length: u64,
    pub created_at: String,
    /// Whether the activity has been indexed.
    pub vectorized: bool,
}

/// A document of a project.
#[derive(Debug, PartialEq, Eq)]
pub struct DocumentRecord {
    pub id: i64,
    /// The project that the document belongs to, if it has been assigned to
    /// one.
    pub project_id: Option<i64>,
    pub name: String,
    pub full_text: String,
    /// Whether the document has been indexed. An edit of the text does not
    /// clear it.
    pub vectorized: bool,
}

/// The state of a text with a flag.
fn classify(text: &str, vectorized: bool, min_text_length: usize) -> (state: VectorizationState)
    ensures
        state == state_of(text@, vectorized, min_text_length as nat),
{
    if vectorized {
        VectorizationState::Indexed
    } else if text.unicode_len() > min_text_length {
        VectorizationState::Eligible
    } else {
        VectorizationState::Ineligible
    }
}

impl ActivityRecord {
    /// The tag under which the activity stands in the index.
    pub fn tag(&self) -> (tag: Tag)
        ensures
            tag == (Tag { kind: RecordKind::Activity, id: self.id }),
    {
        Tag::activity(self.id)
    }

    /// Where the activity stands with respect to the index.
    pub fn state(&self, min_text_length: usize) -> (state: VectorizationState)
        ensures
            state == state_of(self.full_text@, self.vectorized, min_text_length as nat),
    {
        classify(self.full_text.as_str(), self.vectorized, min_text_length)
    }
}

impl DocumentRecord {
    /// The tag under which the document stands in the index.
    pub fn tag(&self) -> (tag: Tag)
        ensures
            tag == (Tag { kind: RecordKind::Document, id: self.id }),
    {
        Tag::document(self.id)
    }

    /// Where the document stands with respect to the index.
    pub fn state(&self, min_text_length: usize) -> (state: VectorizationState)
        ensures
            state == state_of(self.full_text@, self.vectorized, min_text_length as nat),
    {
        classify(self.full_text.as_str(), self.vectorized, min_text_length)
    }

    /// Replaces the document's text. Nothing else changes; in particular the
    /// flag stays as it is.
    pub fn update_activity_text(&mut self, text: String)
        ensures
            final(self).full_text@ == text@,
            final(self).id == old(self).id,
            final(self).project_id == old(self).project_id,
            final(self).name@ == old(self).name@,
            final(self).vectorized == old(self).vectorized,
    {
        self.full_text = text;
    }

    /// Sets the document's flag. Nothing else changes.
    pub fn mark_document_as_vectorized(&mut self)
        ensures
            final(self).vectorized,
            final(self).full_text@ == old(self).full_text@,
            final(self).id == old(self).id,
            final(self).project_id == old(self).project_id,
            final(self).name@ == old(self).name@,
    {
        self.vectorized = true;
    }
}

/// A record is embedded exactly when it is eligible, vectorization is switched
/// on and a credential is configured. An ineligible record is skipped for its
/// length and an indexed one, if its text is long enough, for its flag.
pub proof fn lemma_state_decides(text: Seq<char>, vectorized: bool, settings: VectorizationSettings)
    ensures
        trigger_holds(text, vectorized, settings) <==> state_of(
            text,
            vectorized,
            settings.min_text_length as nat,
        ) == VectorizationState::Eligible && settings.enabled && settings.credential@.len() > 0,
        state_of(text, vectorized, settings.min_text_length as nat) == VectorizationState::Ineligible
            ==> decision_of(text, vectorized, settings) == Decision::Skip(SkipReason::TextTooShort),
        state_of(text, vectorized, settings.min_text_length as nat) == VectorizationState::Indexed
            ==> decision_of(text, vectorized, settings) is Skip,
{
}

/// An edit never clears the flag: a record that is indexed stays indexed
/// whatever its text becomes, and a record that is not indexed is eligible or
/// not by the length of its new text alone.
pub proof fn lemma_edit_keeps_indexed(old_text: Seq<char>, new_text: Seq<char>, min_text_length: nat)
    ensures
        state_of(old_text, true, min_text_length) == VectorizationState::Indexed,
        state_of(new_text, true, min_text_length) == VectorizationState::Indexed,
        state_of(new_text, false, min_text_length) != VectorizationState::Indexed,
{
}

} // verus!
