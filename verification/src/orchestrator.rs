//! The vectorization orchestrator: whether a record whose text was just written
//! is embedded and indexed, and what is reported when that does not go through.
//!
//! The orchestrator does not talk to the store or to the embedding service. It
//! is a state machine that names the next step; the caller carries the step out
//! and reports what came of it. Only the step that inserts into the index needs
//! the index handle, so a caller that shares the handle holds its lock for that
//! one call and never while it waits for the embedding service.
//!
//! A failed embedding is not retried here. The record stays unflagged, so the
//! next edit that meets the trigger condition tries again. A record that is
//! edited once, fails to embed and is never edited again stays out of the
//! index. A record whose flag is set is not embedded again when its text
//! changes: the flag is never reset by an edit.

use vstd::prelude::*;
use vstd::string::StrSliceExecFns;
use crate::embedding::EmbedError;
use crate::handle::{IndexHandle, insert_outcome, state_after_insert};
use crate::index::{IndexError, IndexModel, lemma_insert_well_formed};
use crate::tag::Tag;

verus! {

/// Number of characters that a text has to exceed to be worth indexing, unless
/// the settings say otherwise.
pub const MIN_TEXT_LENGTH: usize = 200;

/// What the user has configured about vectorization.
#[derive(Debug, PartialEq, Eq)]
pub struct VectorizationSettings {
    /// The global switch.
    pub enabled: bool,
    /// Number of characters that a text has to exceed.
    pub min_text_length: usize,
    /// Credential for the embedding service; empty when none is configured.
    pub credential: String,
}

/// Why a record was not embedded.
#[derive(Clone, Copy, Debug, PartialEq, Eq, Structural)]
pub enum SkipReason {
    /// The text does not exceed the minimum length.
    TextTooShort,
    /// The record's flag says that it has been indexed before.
    AlreadyVectorized,
    /// Vectorization is switched off.
    Disabled,
    /// No credential for the embedding service is configured.
    NoCredential,
}

/// What the trigger condition says about one write.
#[derive(Clone, Copy, Debug, PartialEq, Eq, Structural)]
pub enum Decision {
    Skip(SkipReason),
    Embed,
}

/// Whether a text of `length` characters exceeds `threshold`.
pub open spec fn exceeds(length: nat, threshold: nat) -> bool {
    length > threshold
}

/// The trigger condition: the text exceeds the minimum length, the record is
/// not flagged as vectorized, vectorization is switched on, and a credential is
/// configured.
pub open spec fn trigger_holds(
    text: Seq<char>,
    vectorized: bool,
    settings: VectorizationSettings,
) -> bool {
    &&& exceeds(text.len(), settings.min_text_length as nat)
    &&& !vectorized
    &&& settings.enabled
    &&& settings.credential@.len() > 0
}

/// The decision for one write, with the first reason that speaks against
/// embedding: length, then the flag, then the switch, then the credential.
pub open spec fn decision_of(
    text: Seq<char>,
    vectorized: bool,
    settings: VectorizationSettings,
) -> Decision {
    if !exceeds(text.len(), settings.min_text_length as nat) {
        Decision::Skip(SkipReason::TextTooShort)
    } else if vectorized {
        Decision::Skip(SkipReason::AlreadyVectorized)
    } else if !settings.enabled {
        Decision::Skip(SkipReason::Disabled)
    } else if settings.credential@.len() == 0 {
        Decision::Skip(SkipReason::NoCredential)
    } else {
        Decision::Embed
    }
}

impl VectorizationSettings {
    /// Settings with the default minimum length.
    pub fn new(enabled: bool, credential: String) -> (settings: VectorizationSettings)
        ensures
            settings.enabled == enabled,
            settings.min_text_length == MIN_TEXT_LENGTH,
            settings.credential@ == credential@,
    {
        VectorizationSettings { enabled, min_text_length: MIN_TEXT_LENGTH, credential }
    }
}

/// Whether a document whose text was just replaced by `text` is due for
/// indexing as far as the store can tell: the text has more than
/// `MIN_TEXT_LENGTH` characters and the document is not flagged as vectorized.
pub fn needs_vectorization(text: &str, is_vectorized: bool) -> (needed: bool)
    ensures
        needed == (exceeds(text@.len(), MIN_TEXT_LENGTH as nat) && !is_vectorized),
{
    text.unicode_len() > MIN_TEXT_LENGTH && !is_vectorized
}

/// Evaluates the trigger condition for a record whose text is now `text` and
/// whose flag is `vectorized`.
pub fn decide(text: &str, vectorized: bool, settings: &VectorizationSettings) -> (decision:
    Decision)
    ensures
        decision == decision_of(text@, vectorized, *settings),
        decision == Decision::Embed <==> trigger_holds(text@, vectorized, *settings),
{
    if text.unicode_len() <= settings.min_text_length {
        Decision::Skip(SkipReason::TextTooShort)
    } else if vectorized {
        Decision::Skip(SkipReason::AlreadyVectorized)
    } else if !settings.enabled {
        Decision::Skip(SkipReason::Disabled)
    } else if settings.credential.as_str().unicode_len() == 0 {
        Decision::Skip(SkipReason::NoCredential)
    } else {
        Decision::Embed
    }
}

/// How one vectorization ended.
#[derive(Clone, Copy, Debug, PartialEq, Eq, Structural)]
pub enum Outcome {
    /// The store did not take the text; nothing else was tried.
    WriteFailed,
    /// The text is stored and the record was not embedded.
    Skipped(SkipReason),
    /// The embedding service gave no vector. The record stays unflagged and is
    /// tried again on its next qualifying edit.
    EmbeddingFailed(EmbedError),
    /// The index refused the vector; to be reported.
    IndexFailed(IndexError),
    /// The entry is in the index and the record is flagged.
    Indexed,
    /// The entry is in the index but the store did not take the flag. The next
    /// qualifying edit embeds and inserts again, which overwrites the entry.
    IndexedFlagStale,
}

/// Where a vectorization stands.
#[derive(Clone, Copy, Debug, PartialEq, Eq, Structural)]
pub enum Phase {
    /// Waiting for the store to take the text.
    Persisting,
    /// Waiting for the embedding of the text.
    Embedding,
    /// The entry is in the index; waiting for the store to set the flag.
    Flagging,
    /// Over.
    Finished(Outcome),
}

/// What the caller does next.
#[derive(Clone, Copy, Debug, PartialEq, Eq, Structural)]
pub enum Step {
    /// Write the text to the store and read the record's flag.
    PersistText,
    /// Ask the embedding client for the vector of the text.
    RequestEmbedding,
    /// Set the record's flag in the store.
    MarkVectorized,
    /// Nothing: report the outcome.
    Done(Outcome),
}

/// The step that a phase waits for.
pub open spec fn pending_step(phase: Phase) -> Step {
    match phase {
        Phase::Persisting => Step::PersistText,
        Phase::Embedding => Step::RequestEmbedding,
        Phase::Flagging => Step::MarkVectorized,
        Phase::Finished(outcome) => Step::Done(outcome),
    }
}

/// The phase after the store took the text and reported the record's flag.
/// Outside `Persisting` the report is out of turn and changes nothing.
pub open spec fn phase_after_write(
    phase: Phase,
    text: Seq<char>,
    vectorized: bool,
    settings: VectorizationSettings,
) -> Phase {
    if phase == Phase::Persisting {
        match decision_of(text, vectorized, settings) {
            Decision::Skip(reason) => Phase::Finished(Outcome::Skipped(reason)),
            Decision::Embed => Phase::Embedding,
        }
    } else {
        phase
    }
}

/// The phase after the store failed to take the text.
pub open spec fn phase_after_write_failure(phase: Phase) -> Phase {
    if phase == Phase::Persisting {
        Phase::Finished(Outcome::WriteFailed)
    } else {
        phase
    }
}

/// The phase after the embedding client answered, given the index as it was.
pub open spec fn phase_after_embedding(
    phase: Phase,
    index: Option<IndexModel>,
    embedding: Result<Seq<i32>, EmbedError>,
) -> Phase {
    if phase == Phase::Embedding {
        match embedding {
            Err(error) => Phase::Finished(Outcome::EmbeddingFailed(error)),
            Ok(vector) => match insert_outcome(index, vector) {
                Ok(_) => Phase::Flagging,
                Err(error) => Phase::Finished(Outcome::IndexFailed(error)),
            },
        }
    } else {
        phase
    }
}

/// The index after the embedding client answered: the vector is inserted under
/// the record's tag if the vectorization was waiting for it, and nothing
/// changes otherwise.
pub open spec fn index_after_embedding(
    phase: Phase,
    index: Option<IndexModel>,
    tag: Tag,
    embedding: Result<Seq<i32>, EmbedError>,
) -> Option<IndexModel> {
    match embedding {
        Ok(vector) => if phase == Phase::Embedding {
            state_after_insert(index, tag, vector)
        } else {
            index
        },
        Err(_) => index,
    }
}

/// The phase after the store was asked to set the flag; `stored` says whether
/// it did.
pub open spec fn phase_after_flag(phase: Phase, stored: bool) -> Phase {
    if phase == Phase::Flagging {
        if stored {
            Phase::Finished(Outcome::Indexed)
        } else {
            Phase::Finished(Outcome::IndexedFlagStale)
        }
    } else {
        phase
    }
}

/// The record's flag in the store once a vectorization has ended with
/// `outcome`, given the flag before: the flag is set by a vectorization that
/// ended `Indexed` and is never cleared.
pub open spec fn flag_after(vectorized: bool, outcome: Outcome) -> bool {
    vectorized || outcome == Outcome::Indexed
}

/// Mathematical value of the embedding client's answer.
pub open spec fn embedding_model(embedding: Result<Vec<i32>, EmbedError>) -> Result<
    Seq<i32>,
    EmbedError,
> {
    match embedding {
        Ok(vector) => Ok(vector@),
        Err(error) => Err(error),
    }
}

/// One pass of the orchestrator over one record.
#[derive(Clone, Copy, Debug, PartialEq, Eq, Structural)]
pub struct Vectorization {
    pub tag: Tag,
    pub phase: Phase,
}

impl Vectorization {
    /// Starts the pass for the record `tag`. The first step is always to write
    /// the text: the write does not wait for any decision about indexing.
    pub fn begin(tag: Tag) -> (pass: Vectorization)
        ensures
            pass.tag == tag,
            pass.phase == Phase::Persisting,
    {
        Vectorization { tag, phase: Phase::Persisting }
    }

    /// The step that the pass waits for.
    pub fn pending(&self) -> (step: Step)
        ensures
            step == pending_step(self.phase),
    {
        match self.phase {
            Phase::Persisting => Step::PersistText,
            Phase::Embedding => Step::RequestEmbedding,
            Phase::Flagging => Step::MarkVectorized,
            Phase::Finished(outcome) => Step::Done(outcome),
        }
    }

    /// The outcome, once the pass is over.
    pub fn outcome(&self) -> (outcome: Option<Outcome>)
        ensures
            outcome == match self.phase {
                Phase::Finished(o) => Some(o),
                _ => None::<Outcome>,
            },
    {
        match self.phase {
            Phase::Finished(o) => Some(o),
            _ => None,
        }
    }

    /// The store has taken `text` and reports the record's flag as
    /// `vectorized`. The trigger condition is evaluated on what the store holds
    /// now: the pass goes on to the embedding if it holds and ends as skipped,
    /// with the reason, if it does not.
    pub fn text_persisted(
        &mut self,
        text: &str,
        vectorized: bool,
        settings: &VectorizationSettings,
    ) -> (step: Step)
        ensures
            final(self).tag == old(self).tag,
            final(self).phase == phase_after_write(old(self).phase, text@, vectorized, *settings),
            step == pending_step(final(self).phase),
    {
        if self.phase == Phase::Persisting {
            match decide(text, vectorized, settings) {
                Decision::Skip(reason) => {
                    self.phase = Phase::Finished(Outcome::Skipped(reason));
                },
                Decision::Embed => {
                    self.phase = Phase::Embedding;
                },
            }
        }
        self.pending()
    }

    /// The store did not take the text. The pass ends; the failure of the write
    /// is the caller's to report.
    pub fn persist_failed(&mut self) -> (step: Step)
        ensures
            final(self).tag == old(self).tag,
            final(self).phase == phase_after_write_failure(old(self).phase),
            step == pending_step(final(self).phase),
    {
        if self.phase == Phase::Persisting {
            self.phase = Phase::Finished(Outcome::WriteFailed);
        }
        self.pending()
    }

    /// The embedding client has answered. An error ends the pass and leaves the
    /// index alone. A vector is inserted under the record's tag; if the index
    /// refuses it the pass ends with the index's error, and otherwise the flag
    /// is next.
    pub fn embedding_arrived(
        &mut self,
        handle: &mut IndexHandle,
        embedding: Result<Vec<i32>, EmbedError>,
    ) -> (step: Step)
        ensures
            final(self).tag == old(self).tag,
            final(self).phase == phase_after_embedding(
                old(self).phase,
                old(handle)@,
                embedding_model(embedding),
            ),
            final(handle)@ == index_after_embedding(
                old(self).phase,
                old(handle)@,
                old(self).tag,
                embedding_model(embedding),
            ),
            step == pending_step(final(self).phase),
    {
        if self.phase == Phase::Embedding {
            match embedding {
                Err(error) => {
                    self.phase = Phase::Finished(Outcome::EmbeddingFailed(error));
                },
                Ok(vector) => {
                    match handle.insert(self.tag, vector) {
                        Ok(_) => {
                            self.phase = Phase::Flagging;
                        },
                        Err(error) => {
                            self.phase = Phase::Finished(Outcome::IndexFailed(error));
                        },
                    }
                },
            }
        }
        self.pending()
    }

    /// The store was asked to set the flag; `stored` says whether it did. If it
    /// did not, the index is ahead of the flag: the pass ends as
    /// `IndexedFlagStale`, which is reported and not treated as a failure.
    pub fn flag_updated(&mut self, stored: bool) -> (step: Step)
        ensures
            final(self).tag == old(self).tag,
            final(self).phase == phase_after_flag(old(self).phase, stored),
            step == pending_step(final(self).phase),
    {
        if self.phase == Phase::Flagging {
            if stored {
                self.phase = Phase::Finished(Outcome::Indexed);
            } else {
                self.phase = Phase::Finished(Outcome::IndexedFlagStale);
            }
        }
        self.pending()
    }
}

/// Only a text that is strictly longer than the minimum length can be
/// embedded: a text of exactly the minimum length is skipped as too short,
/// whatever the flag and the settings, and with the flag clear, the switch on
/// and a credential configured, one more character is enough.
pub proof fn lemma_trigger_boundary(
    text: Seq<char>,
    vectorized: bool,
    settings: VectorizationSettings,
)
    ensures
        text.len() <= settings.min_text_length ==> decision_of(text, vectorized, settings)
            == Decision::Skip(SkipReason::TextTooShort),
        text.len() == settings.min_text_length + 1 && !vectorized && settings.enabled
            && settings.credential@.len() > 0 ==> decision_of(text, vectorized, settings)
            == Decision::Embed,
        decision_of(text, vectorized, settings) == Decision::Embed <==> trigger_holds(
            text,
            vectorized,
            settings,
        ),
{
}

/// The flag gate: a record that is flagged as vectorized is never sent to the
/// embedding client, whatever its text and the settings. Its pass ends right
/// after the write.
pub proof fn lemma_flag_gate(text: Seq<char>, settings: VectorizationSettings)
    ensures
        decision_of(text, true, settings) is Skip,
        phase_after_write(Phase::Persisting, text, true, settings) is Finished,
        pending_step(phase_after_write(Phase::Persisting, text, true, settings))
            != Step::RequestEmbedding,
{
}

/// Retrying by recurrence. Take a record that meets the trigger condition. If
/// the embedding fails, the pass ends, the index is as it was and the flag
/// stays clear, so the same text meets the trigger condition again on the next
/// edit. If the embedding then succeeds with a vector of the index's dimension
/// and the store takes the flag, the pass ends as `Indexed`, the flag is set,
/// and the index holds the vector under the record's tag.
pub proof fn lemma_retry_by_recurrence(
    tag: Tag,
    text: Seq<char>,
    settings: VectorizationSettings,
    index: IndexModel,
    error: EmbedError,
    vector: Seq<i32>,
)
    requires
        trigger_holds(text, false, settings),
        index.well_formed(),
        vector.len() == index.dimension,
    ensures
        phase_after_write(Phase::Persisting, text, false, settings) == Phase::Embedding,
        phase_after_embedding(Phase::Embedding, Some(index), Err(error)) == Phase::Finished(
            Outcome::EmbeddingFailed(error),
        ),
        index_after_embedding(Phase::Embedding, Some(index), tag, Err(error)) == Some(index),
        !flag_after(false, Outcome::EmbeddingFailed(error)),
        trigger_holds(text, flag_after(false, Outcome::EmbeddingFailed(error)), settings),
        phase_after_embedding(Phase::Embedding, Some(index), Ok(vector)) == Phase::Flagging,
        phase_after_flag(Phase::Flagging, true) == Phase::Finished(Outcome::Indexed),
        flag_after(false, Outcome::Indexed),
        index_after_embedding(Phase::Embedding, Some(index), tag, Ok(vector)) == Some(
            index.insert(tag, vector),
        ),
        index.insert(tag, vector).contains(tag),
        index.insert(tag, vector).vector_of(tag) == vector,
{
    lemma_insert_well_formed(index, tag, vector);
}

/// A pass changes the index in one situation only: it was waiting for the
/// embedding and got a vector. An error from the embedding client, and any
/// report that arrives out of turn, leave the index as it was.
pub proof fn lemma_index_changes_only_on_embedding(
    phase: Phase,
    index: Option<IndexModel>,
    tag: Tag,
    embedding: Result<Seq<i32>, EmbedError>,
)
    ensures
        phase != Phase::Embedding || embedding is Err ==> index_after_embedding(
            phase,
            index,
            tag,
            embedding,
        ) == index,
{
}

} // verus!
