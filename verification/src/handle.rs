//! The index handle: the one place through which the index is set up, written
//! and searched.
//!
//! A handle starts without an index. It is set up once, empty or from the
//! entries that an earlier run wrote out, and stays set up from then on. Every
//! write goes through `&mut IndexHandle`, so two writes never overlap; whoever
//! shares a handle between tasks wraps it in a lock and holds the lock for the
//! length of one call.

use vstd::prelude::*;
use crate::index::{
    EntryModel,
    Hit,
    IndexEntry,
    IndexError,
    IndexModel,
    VectorIndex,
    entry_models,
    has_tag,
    insert_entry,
    is_search_result,
    lemma_insert_well_formed,
    position_of,
    tags_distinct,
    uniform_dimension,
};
use crate::storage::{decode, decoded_index, encoded_index, lemma_decode_restores};
use crate::tag::Tag;

verus! {

/// An index of the given dimension without entries.
pub open spec fn empty_index(dimension: nat) -> IndexModel {
    IndexModel { dimension, entries: Seq::empty() }
}

/// The index that results from inserting `batch` into `model`, entry by entry,
/// first entry first.
pub open spec fn replay(model: IndexModel, batch: Seq<EntryModel>) -> IndexModel
    decreases batch.len(),
{
    if batch.len() == 0 {
        model
    } else {
        replay(model, batch.drop_last()).insert(batch.last().tag, batch.last().vector)
    }
}

/// What an insertion through a handle does to the handle's state.
pub open spec fn state_after_insert(state: Option<IndexModel>, tag: Tag, vector: Seq<i32>) -> Option<
    IndexModel,
> {
    match state {
        Some(model) => if vector.len() == model.dimension {
            Some(model.insert(tag, vector))
        } else {
            state
        },
        None => state,
    }
}

/// What an insertion through a handle answers.
pub open spec fn insert_outcome(state: Option<IndexModel>, vector: Seq<i32>) -> Result<
    (),
    IndexError,
> {
    match state {
        Some(model) => if vector.len() == model.dimension {
            Ok(())
        } else {
            Err(IndexError::Corrupt)
        },
        None => Err(IndexError::Unavailable),
    }
}

/// Replaying a batch of vectors of the right dimension keeps an index well
/// formed and leaves its dimension alone.
pub proof fn lemma_replay_well_formed(model: IndexModel, batch: Seq<EntryModel>)
    requires
        model.well_formed(),
        uniform_dimension(batch, model.dimension),
    ensures
        replay(model, batch).well_formed(),
        replay(model, batch).dimension == model.dimension,
    decreases batch.len(),
{
    if batch.len() > 0 {
        let front = batch.drop_last();
        assert forall|i: int| 0 <= i < front.len() implies (#[trigger] front[i]).vector.len()
            == model.dimension by {
            assert(front[i] == batch[i]);
        }
        lemma_replay_well_formed(model, front);
        lemma_insert_well_formed(
            replay(model, front),
            batch.last().tag,
            batch.last().vector,
        );
    }
}

/// However many writers insert entries for different records, and in whatever
/// order the handle admits them, afterwards every one of their entries is in the
/// index with exactly the vector that was inserted for it; entries that the
/// batch does not name stay as they were, and the index has grown by one entry
/// for each tag that is new to it.
pub proof fn lemma_replay_holds_every_entry(model: IndexModel, batch: Seq<EntryModel>)
    requires
        model.well_formed(),
        uniform_dimension(batch, model.dimension),
        tags_distinct(batch),
    ensures
        forall|i: int|
            0 <= i < batch.len() ==> replay(model, batch).contains((#[trigger] batch[i]).tag)
                && replay(model, batch).vector_of(batch[i].tag) == batch[i].vector,
        forall|tag: Tag|
            !has_tag(batch, tag) ==> (#[trigger] replay(model, batch).contains(tag)
                <==> model.contains(tag)),
        forall|tag: Tag|
            !has_tag(batch, tag) && model.contains(tag) ==> #[trigger] replay(
                model,
                batch,
            ).vector_of(tag) == model.vector_of(tag),
        (forall|i: int| 0 <= i < batch.len() ==> !model.contains((#[trigger] batch[i]).tag))
            ==> replay(model, batch).entries.len() == model.entries.len() + batch.len(),
    decreases batch.len(),
{
    if batch.len() > 0 {
        let front = batch.drop_last();
        let last = batch.last();
        assert forall|i: int| 0 <= i < front.len() implies (#[trigger] front[i]).vector.len()
            == model.dimension by {
            assert(front[i] == batch[i]);
        }
        assert forall|i: int, j: int|
            0 <= i < front.len() && 0 <= j < front.len() && (#[trigger] front[i]).tag == (
            #[trigger] front[j]).tag implies i == j by {
            assert(front[i] == batch[i]);
            assert(front[j] == batch[j]);
        }
        lemma_replay_holds_every_entry(model, front);
        lemma_replay_well_formed(model, front);
        let middle = replay(model, front);
        lemma_insert_well_formed(middle, last.tag, last.vector);
        assert(!has_tag(front, last.tag)) by {
            if has_tag(front, last.tag) {
                let i = position_of(front, last.tag);
                assert(front[i] == batch[i]);
                assert(batch[batch.len() - 1].tag == batch[i].tag);
            }
        }
        assert forall|i: int| 0 <= i < batch.len() implies replay(model, batch).contains(
            (#[trigger] batch[i]).tag,
        ) && replay(model, batch).vector_of(batch[i].tag) == batch[i].vector by {
            if i < front.len() {
                assert(front[i] == batch[i]);
                assert(batch[i].tag != last.tag) by {
                    assert(batch[batch.len() - 1].tag == last.tag);
                }
            }
        }
        assert forall|tag: Tag| !has_tag(batch, tag) implies (#[trigger] replay(
            model,
            batch,
        ).contains(tag) <==> model.contains(tag)) by {
            assert(tag != last.tag) by {
                assert(batch[batch.len() - 1].tag == last.tag);
            }
            assert(!has_tag(front, tag)) by {
                if has_tag(front, tag) {
                    let i = position_of(front, tag);
                    assert(batch[i].tag == tag);
                }
            }
            assert(replay(model, batch) == middle.insert(last.tag, last.vector));
            assert(middle.contains(tag) <==> model.contains(tag));
            assert(middle.insert(last.tag, last.vector).contains(tag) <==> middle.contains(tag));
        }
        assert forall|tag: Tag| !has_tag(batch, tag) && model.contains(tag) implies #[trigger] replay(
            model,
            batch,
        ).vector_of(tag) == model.vector_of(tag) by {
            assert(tag != last.tag) by {
                assert(batch[batch.len() - 1].tag == last.tag);
            }
            assert(!has_tag(front, tag)) by {
                if has_tag(front, tag) {
                    let i = position_of(front, tag);
                    assert(batch[i].tag == tag);
                }
            }
            assert(replay(model, batch) == middle.insert(last.tag, last.vector));
            assert(middle.contains(tag) <==> model.contains(tag));
            assert(middle.vector_of(tag) == model.vector_of(tag));
            assert(middle.insert(last.tag, last.vector).vector_of(tag) == middle.vector_of(tag));
        }
        if forall|i: int| 0 <= i < batch.len() ==> !model.contains((#[trigger] batch[i]).tag) {
            assert forall|i: int| 0 <= i < front.len() implies !model.contains(
                (#[trigger] front[i]).tag,
            ) by {
                assert(front[i] == batch[i]);
            }
            assert(!model.contains(batch[batch.len() - 1].tag));
            assert(!middle.contains(last.tag));
        }
    }
}

/// Replaying onto an empty index the entries of a well-formed index gives
/// those entries back, in the same order: what `snapshot` writes out,
/// `initialize_from` restores.
pub proof fn lemma_replay_restores(model: IndexModel)
    requires
        model.well_formed(),
    ensures
        replay(empty_index(model.dimension), model.entries) == model,
    decreases model.entries.len(),
{
    if model.entries.len() == 0 {
        assert(model.entries =~= Seq::<EntryModel>::empty());
    } else {
        let front = IndexModel { dimension: model.dimension, entries: model.entries.drop_last() };
        let last = model.entries.last();
        assert(front.well_formed()) by {
            assert forall|i: int| 0 <= i < front.entries.len() implies (
            #[trigger] front.entries[i]).vector.len() == front.dimension by {
                assert(front.entries[i] == model.entries[i]);
            }
            assert forall|i: int, j: int|
                0 <= i < front.entries.len() && 0 <= j < front.entries.len() && (
                #[trigger] front.entries[i]).tag == (#[trigger] front.entries[j]).tag implies i
                == j by {
                assert(front.entries[i] == model.entries[i]);
                assert(front.entries[j] == model.entries[j]);
            }
        }
        lemma_replay_restores(front);
        assert(!has_tag(front.entries, last.tag)) by {
            if has_tag(front.entries, last.tag) {
                let i = position_of(front.entries, last.tag);
                assert(front.entries[i] == model.entries[i]);
                assert(model.entries[model.entries.len() - 1].tag == model.entries[i].tag);
            }
        }
        assert(insert_entry(front.entries, last) =~= model.entries);
        assert(EntryModel { tag: last.tag, vector: last.vector } == last);
    }
}

/// The index that a handle holds after it was set up from `bytes`: the stored
/// entries inserted in order into an empty index of the stored dimension.
/// Bytes that hold no index give nothing.
pub open spec fn restored_from(bytes: Seq<u8>) -> Option<IndexModel> {
    match decoded_index(bytes) {
        Some(stored) => Some(replay(empty_index(stored.dimension), stored.entries)),
        None => None,
    }
}

/// Writing an index out and setting a handle up from the bytes gives the same
/// index back: the same entries, with the same vectors, in the same order.
pub proof fn lemma_restore_round_trip(model: IndexModel)
    requires
        model.well_formed(),
        model.dimension <= usize::MAX,
        model.entries.len() <= u64::MAX,
    ensures
        restored_from(encoded_index(model)) == Some(model),
{
    lemma_decode_restores(model);
    lemma_replay_restores(model);
}

/// Shared access point to the similarity index.
pub struct IndexHandle {
    index: Option<VectorIndex>,
}

impl View for IndexHandle {
    type V = Option<IndexModel>;

    closed spec fn view(&self) -> Option<IndexModel> {
        match self.index {
            Some(index) => Some(index@),
            None => None,
        }
    }
}

impl IndexHandle {
    /// A handle whose index has not been set up.
    pub fn new() -> (handle: IndexHandle)
        ensures
            handle@ is None,
    {
        IndexHandle { index: None }
    }

    /// Whether the index has been set up.
    pub fn is_initialized(&self) -> (ready: bool)
        ensures
            ready == (self@ is Some),
            self@ matches Some(model) ==> model.well_formed(),
    {
        match &self.index {
            Some(index) => {
                let _ = index.len();
                true
            },
            None => false,
        }
    }

    /// Sets the index up, empty, for embeddings of `dimension` components. A
    /// handle that is already set up is left as it is. Answers whether this call
    /// did the setting up.
    pub fn initialize(&mut self, dimension: usize) -> (created: bool)
        ensures
            created == (old(self)@ is None),
            old(self)@ is Some ==> final(self)@ == old(self)@,
            old(self)@ is None ==> final(self)@ == Some(
                empty_index(dimension as nat),
            ),
    {
        if self.index.is_some() {
            return false;
        }
        self.index = Some(VectorIndex::new(dimension));
        true
    }

    /// Sets the index up from the entries that an earlier run wrote out, by
    /// inserting them in order. A handle that is already set up is left as it
    /// is and the answer is `Ok(false)`. If some entry does not have `dimension`
    /// components the stored state is corrupt: nothing is set up.
    pub fn initialize_from(&mut self, dimension: usize, persisted: Vec<IndexEntry>) -> (outcome:
        Result<bool, IndexError>)
        ensures
            old(self)@ is Some ==> outcome == Ok::<bool, IndexError>(false) && final(self)@ == old(
                self,
            )@,
            old(self)@ is None && uniform_dimension(entry_models(persisted@), dimension as nat)
                ==> outcome == Ok::<bool, IndexError>(true) && final(self)@ == Some(
                replay(
                    empty_index(dimension as nat),
                    entry_models(persisted@),
                ),
            ),
            old(self)@ is None && !uniform_dimension(entry_models(persisted@), dimension as nat)
                ==> outcome == Err::<bool, IndexError>(IndexError::Corrupt) && final(self)@ is None,
    {
        if self.index.is_some() {
            return Ok(false);
        }
        let ghost batch = entry_models(persisted@);
        let ghost empty = empty_index(dimension as nat);
        let mut index = VectorIndex::new(dimension);
        let mut rest = persisted;
        let n: usize = rest.len();
        // Entries are taken from the back, so the batch is first put in reverse.
        let mut reversed: Vec<IndexEntry> = Vec::new();
        let mut i: usize = 0;
        while i < n
            invariant
                i <= n,
                rest@.len() == n - i,
                reversed@.len() == i,
                self.index is None,
                batch.len() == n,
                forall|j: int| 0 <= j < n - i ==> (#[trigger] rest@[j])@ == batch[j],
                forall|j: int| 0 <= j < i ==> (#[trigger] reversed@[j])@ == batch[n - 1 - j],
            decreases n - i,
        {
            let entry = rest.pop().unwrap();
            reversed.push(entry);
            i = i + 1;
        }
        let mut done: usize = 0;
        while done < n
            invariant
                done <= n,
                batch == entry_models(persisted@),
                batch.len() == n,
                reversed@.len() == n - done,
                forall|j: int| 0 <= j < n - done ==> (#[trigger] reversed@[j])@ == batch[n - 1 - j],
                uniform_dimension(batch.subrange(0, done as int), dimension as nat),
                index@ == replay(empty, batch.subrange(0, done as int)),
                index@.dimension == dimension,
                self.index is None,
            decreases n - done,
        {
            let entry = reversed.pop().unwrap();
            assert(entry@ == batch[done as int]);
            let ghost so_far = batch.subrange(0, done as int);
            let ghost next = batch.subrange(0, done + 1);
            proof {
                assert(next.drop_last() =~= so_far);
                assert(next.last() == batch[done as int]);
            }
            let IndexEntry { tag, vector } = entry;
            match index.insert(tag, vector) {
                Ok(()) => {
                    proof {
                        assert forall|j: int| 0 <= j < next.len() implies (
                        #[trigger] next[j]).vector.len() == dimension as nat by {
                            if j < done {
                                assert(so_far[j] == next[j]);
                            }
                        }
                    }
                },
                Err(_) => {
                    proof {
                        assert(batch[done as int].vector.len() != dimension as nat);
                        assert(!uniform_dimension(batch, dimension as nat));
                    }
                    return Err(IndexError::Corrupt);
                },
            }
            done = done + 1;
        }
        proof {
            assert(batch.subrange(0, n as int) =~= batch);
        }
        self.index = Some(index);
        Ok(true)
    }

    /// Sets the index up from the bytes that an earlier run wrote with
    /// `to_bytes`. A handle that is already set up is left as it is and the
    /// answer is `Ok(false)`. Bytes that hold no index are corrupt stored state:
    /// nothing is set up.
    pub fn initialize_from_bytes(&mut self, bytes: &Vec<u8>) -> (outcome: Result<bool, IndexError>)
        ensures
            old(self)@ is Some ==> outcome == Ok::<bool, IndexError>(false) && final(self)@ == old(
                self,
            )@,
            old(self)@ is None && restored_from(bytes@) is Some ==> outcome == Ok::<
                bool,
                IndexError,
            >(true) && final(self)@ == restored_from(bytes@),
            old(self)@ is None && restored_from(bytes@) is None ==> outcome == Err::<
                bool,
                IndexError,
            >(IndexError::Corrupt) && final(self)@ is None,
    {
        if self.index.is_some() {
            return Ok(false);
        }
        match decode(bytes) {
            Some((dimension, entries)) => {
                proof {
                    let stored = decoded_index(bytes@)->0;
                    assert forall|i: int| 0 <= i < stored.entries.len() implies (
                    #[trigger] stored.entries[i]).vector.len() == stored.dimension by {
                    }
                }
                self.initialize_from(dimension, entries)
            },
            None => Err(IndexError::Corrupt),
        }
    }

    /// The index as bytes, for keeping it between runs; nothing without an
    /// index.
    pub fn to_bytes(&self) -> (bytes: Option<Vec<u8>>)
        ensures
            match (self@, bytes) {
                (Some(model), Some(written)) => written@ == encoded_index(model)
                    && model.well_formed(),
                (None, None) => true,
                _ => false,
            },
    {
        match &self.index {
            Some(index) => Some(index.to_bytes()),
            None => None,
        }
    }

    /// Adds or replaces the entry for `tag`. Without an index the answer is
    /// `Unavailable`; a vector of another dimension than the index's is
    /// answered with `Corrupt`. In both cases nothing changes.
    pub fn insert(&mut self, tag: Tag, vector: Vec<i32>) -> (outcome: Result<(), IndexError>)
        ensures
            outcome == insert_outcome(old(self)@, vector@),
            final(self)@ == state_after_insert(old(self)@, tag, vector@),
            final(self)@ matches Some(model) ==> model.well_formed(),
    {
        match &mut self.index {
            Some(index) => index.insert(tag, vector),
            None => Err(IndexError::Unavailable),
        }
    }

    /// Takes the entry for `tag` out of the index and answers whether there was
    /// one. Without an index there is nothing to take out.
    pub fn remove(&mut self, tag: Tag) -> (removed: bool)
        ensures
            final(self)@ == match old(self)@ {
                Some(model) => Some(model.remove(tag)),
                None => None,
            },
            removed == match old(self)@ {
                Some(model) => model.contains(tag),
                None => false,
            },
            final(self)@ matches Some(model) ==> model.well_formed(),
    {
        match &mut self.index {
            Some(index) => index.remove(tag),
            None => false,
        }
    }

    /// The `k` entries most similar to `query`, best first. Without an index
    /// the answer is `Unavailable`; an empty index answers with no hits; a
    /// query of another dimension than that of a non-empty index is answered
    /// with `Corrupt`.
    pub fn search(&self, query: &Vec<i32>, k: usize) -> (outcome: Result<Vec<Hit>, IndexError>)
        ensures
            self@ is None ==> outcome == Err::<Vec<Hit>, IndexError>(IndexError::Unavailable),
            self@ matches Some(model) ==> {
                &&& model.well_formed()
                &&& model.entries.len() == 0 ==> (outcome matches Ok(hits) && hits@.len() == 0)
                &&& model.entries.len() > 0 && query@.len() != model.dimension ==> outcome == Err::<
                    Vec<Hit>,
                    IndexError,
                >(IndexError::Corrupt)
                &&& model.entries.len() > 0 && query@.len() == model.dimension ==> (
                outcome matches Ok(hits) && is_search_result(
                    model.entries,
                    query@,
                    k as nat,
                    hits@,
                ))
            },
    {
        match &self.index {
            Some(index) => index.search(query, k),
            None => Err(IndexError::Unavailable),
        }
    }

    /// The dimension that the index was set up with, if it has been set up.
    pub fn dimension(&self) -> (dimension: Option<usize>)
        ensures
            dimension is Some <==> self@ is Some,
            dimension matches Some(d) ==> d == self@->0.dimension,
    {
        match &self.index {
            Some(index) => Some(index.dimension()),
            None => None,
        }
    }

    /// Number of entries; zero without an index.
    pub fn len(&self) -> (len: usize)
        ensures
            len == match self@ {
                Some(model) => model.entries.len(),
                None => 0,
            },
    {
        match &self.index {
            Some(index) => index.len(),
            None => 0,
        }
    }

    /// Whether the index holds an entry for `tag`; `false` without an index.
    pub fn contains(&self, tag: Tag) -> (present: bool)
        ensures
            present == match self@ {
                Some(model) => model.contains(tag),
                None => false,
            },
    {
        match &self.index {
            Some(index) => index.contains(tag),
            None => false,
        }
    }

    /// A copy of every entry, in insertion order, for writing out; nothing
    /// without an index.
    pub fn snapshot(&self) -> (entries: Vec<IndexEntry>)
        ensures
            entry_models(entries@) == match self@ {
                Some(model) => model.entries,
                None => Seq::<EntryModel>::empty(),
            },
    {
        match &self.index {
            Some(index) => {
                let entries = index.snapshot();
                assert(entry_models(entries@) =~= index@.entries);
                entries
            },
            None => {
                let entries: Vec<IndexEntry> = Vec::new();
                assert(entry_models(entries@) =~= Seq::<EntryModel>::empty());
                entries
            },
        }
    }
}

} // verus!
