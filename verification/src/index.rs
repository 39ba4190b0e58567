//! The similarity index: tagged embeddings of one dimension, searched exactly.
//!
//! The index keeps one entry per tag, in the order in which tags were first
//! inserted. A search ranks every entry by its similarity to the query, best
//! first, and breaks ties in favour of the entry that was inserted earlier.

use vstd::prelude::*;
use crate::similarity::{lemma_similarity_fits, similarity, similarity_of};
use crate::storage::{encode, encoded_index};
use crate::tag::{RecordKind, Tag};

verus! {

/// Why the index refused an operation.
#[derive(Clone, Copy, Debug, PartialEq, Eq, Structural)]
pub enum IndexError {
    /// The vector does not have the dimension the index was set up with.
    Corrupt,
    /// The index has not been set up yet.
    Unavailable,
}

/// One search result: the tag of an entry and its similarity to the query.
#[derive(Clone, Copy, Debug, PartialEq, Eq, Structural)]
pub struct Hit {
    pub tag: Tag,
    pub score: i128,
}

/// A tagged embedding held by the index.
#[derive(Debug, PartialEq, Eq)]
pub struct IndexEntry {
    pub tag: Tag,
    pub vector: Vec<i32>,
}

/// Mathematical value of an index entry.
pub ghost struct EntryModel {
    pub tag: Tag,
    pub vector: Seq<i32>,
}

impl View for IndexEntry {
    type V = EntryModel;

    open spec fn view(&self) -> EntryModel {
        EntryModel { tag: self.tag, vector: self.vector@ }
    }
}

/// Mathematical values of a list of entries, in the same order.
pub open spec fn entry_models(entries: Seq<IndexEntry>) -> Seq<EntryModel> {
    Seq::new(entries.len(), |i: int| entries[i]@)
}

/// Mathematical value of an index: its dimension and its entries in insertion
/// order.
pub ghost struct IndexModel {
    pub dimension: nat,
    pub entries: Seq<EntryModel>,
}

/// Whether some entry of `entries` carries `tag`.
pub open spec fn has_tag(entries: Seq<EntryModel>, tag: Tag) -> bool {
    exists|i: int| 0 <= i < entries.len() && (#[trigger] entries[i]).tag == tag
}

/// Position of the entry that carries `tag`; meaningful when `has_tag` holds.
pub open spec fn position_of(entries: Seq<EntryModel>, tag: Tag) -> int {
    choose|i: int| 0 <= i < entries.len() && (#[trigger] entries[i]).tag == tag
}

/// No two entries carry the same tag.
pub open spec fn tags_distinct(entries: Seq<EntryModel>) -> bool {
    forall|i: int, j: int|
        0 <= i < entries.len() && 0 <= j < entries.len() && (#[trigger] entries[i]).tag == (
        #[trigger] entries[j]).tag ==> i == j
}

/// Every entry has `dimension` components.
pub open spec fn uniform_dimension(entries: Seq<EntryModel>, dimension: nat) -> bool {
    forall|i: int| 0 <= i < entries.len() ==> (#[trigger] entries[i]).vector.len() == dimension
}

/// The entries after `entry` was inserted: it takes the place of the entry with
/// its tag, or goes to the end when its tag is new.
pub open spec fn insert_entry(entries: Seq<EntryModel>, entry: EntryModel) -> Seq<EntryModel> {
    if has_tag(entries, entry.tag) {
        entries.update(position_of(entries, entry.tag), entry)
    } else {
        entries.push(entry)
    }
}

/// The entries after the entry for `tag` was taken out; the others keep their
/// order. Without such an entry nothing changes.
pub open spec fn remove_entry(entries: Seq<EntryModel>, tag: Tag) -> Seq<EntryModel> {
    if has_tag(entries, tag) {
        entries.remove(position_of(entries, tag))
    } else {
        entries
    }
}

/// Similarity of the entry at position `p` to `query`.
pub open spec fn score_at(entries: Seq<EntryModel>, query: Seq<i32>, p: int) -> int {
    similarity_of(entries[p].vector, query)
}

/// Whether the entry at `p` is ranked before the entry at `q`: it is more
/// similar to the query, or equally similar and inserted earlier.
pub open spec fn outranks(entries: Seq<EntryModel>, query: Seq<i32>, p: int, q: int) -> bool {
    score_at(entries, query, p) > score_at(entries, query, q) || (score_at(entries, query, p)
        == score_at(entries, query, q) && p < q)
}

/// Whether `positions` lists the best entries of `entries` for `query`, best
/// first: each is a position of the index, each outranks those listed after it,
/// and each outranks every entry that is not listed.
pub open spec fn is_top_ranking(
    entries: Seq<EntryModel>,
    query: Seq<i32>,
    positions: Seq<int>,
) -> bool {
    &&& forall|i: int| 0 <= i < positions.len() ==> 0 <= #[trigger] positions[i] < entries.len()
    &&& forall|i: int, j: int|
        0 <= i < j < positions.len() ==> outranks(
            entries,
            query,
            #[trigger] positions[i],
            #[trigger] positions[j],
        )
    &&& forall|i: int, q: int|
        0 <= i < positions.len() && 0 <= q < entries.len() && !positions.contains(q)
            ==> #[trigger] outranks(entries, query, positions[i], q)
}

/// The hits that stand for the entries at `positions`, in that order.
pub open spec fn hits_at(entries: Seq<EntryModel>, query: Seq<i32>, positions: Seq<int>) -> Seq<
    Hit,
> {
    Seq::new(
        positions.len(),
        |i: int|
            Hit {
                tag: entries[positions[i]].tag,
                score: score_at(entries, query, positions[i]) as i128,
            },
    )
}

/// Number of hits a search for at most `k` entries returns.
pub open spec fn result_len(entries: Seq<EntryModel>, k: nat) -> nat {
    if k <= entries.len() {
        k
    } else {
        entries.len()
    }
}

/// Whether `hits` is the answer to a search of `entries` for the `k` entries
/// most similar to `query`: the hits of the `k` best entries (all of them when
/// there are fewer), best first.
pub open spec fn is_search_result(
    entries: Seq<EntryModel>,
    query: Seq<i32>,
    k: nat,
    hits: Seq<Hit>,
) -> bool {
    exists|positions: Seq<int>|
        {
            &&& #[trigger] is_top_ranking(entries, query, positions)
            &&& positions.len() == result_len(entries, k)
            &&& hits == hits_at(entries, query, positions)
        }
}

impl IndexModel {
    /// Entries have the index's dimension and pairwise different tags.
    pub open spec fn well_formed(self) -> bool {
        &&& uniform_dimension(self.entries, self.dimension)
        &&& tags_distinct(self.entries)
    }

    /// The model after a vector of the right dimension was inserted under
    /// `tag`.
    pub open spec fn insert(self, tag: Tag, vector: Seq<i32>) -> IndexModel {
        IndexModel {
            dimension: self.dimension,
            entries: insert_entry(self.entries, EntryModel { tag, vector }),
        }
    }

    /// The model after the entry for `tag`, if any, was removed.
    pub open spec fn remove(self, tag: Tag) -> IndexModel {
        IndexModel { dimension: self.dimension, entries: remove_entry(self.entries, tag) }
    }

    /// Whether the index holds an entry for `tag`.
    pub open spec fn contains(self, tag: Tag) -> bool {
        has_tag(self.entries, tag)
    }

    /// The vector stored under `tag`; meaningful when `contains(tag)`.
    pub open spec fn vector_of(self, tag: Tag) -> Seq<i32> {
        self.entries[position_of(self.entries, tag)].vector
    }
}

/// In a sequence with distinct tags, the entry at `p` is the one that
/// `position_of` finds for its tag.
pub proof fn lemma_position_of_unique(entries: Seq<EntryModel>, p: int)
    requires
        tags_distinct(entries),
        0 <= p < entries.len(),
    ensures
        has_tag(entries, entries[p].tag),
        position_of(entries, entries[p].tag) == p,
{
    let tag = entries[p].tag;
    assert(entries[p].tag == tag);
    let found = position_of(entries, tag);
    assert(0 <= found < entries.len() && entries[found].tag == tag);
}

/// Inserting keeps an index well formed, provided the vector has the index's
/// dimension. The entry is then present with exactly that vector, entries under
/// other tags are untouched, and the number of entries grows by one only when
/// the tag is new.
pub proof fn lemma_insert_well_formed(model: IndexModel, tag: Tag, vector: Seq<i32>)
    requires
        model.well_formed(),
        vector.len() == model.dimension,
    ensures
        model.insert(tag, vector).well_formed(),
        model.insert(tag, vector).contains(tag),
        model.insert(tag, vector).vector_of(tag) == vector,
        forall|other: Tag|
            other != tag ==> (model.insert(tag, vector).contains(other) <==> model.contains(other)),
        forall|other: Tag|
            other != tag && model.contains(other) ==> model.insert(tag, vector).vector_of(other)
                == model.vector_of(other),
        model.insert(tag, vector).entries.len() == if model.contains(tag) {
            model.entries.len()
        } else {
            model.entries.len() + 1
        },
{
    let before = model.entries;
    let entry = EntryModel { tag, vector };
    let after = insert_entry(before, entry);
    let slot = if has_tag(before, tag) {
        position_of(before, tag)
    } else {
        before.len() as int
    };
    assert(0 <= slot < after.len() && after[slot] == entry);
    assert(forall|i: int| 0 <= i < after.len() && i != slot ==> i < before.len() && after[i]
        == before[i]);
    assert(forall|i: int| 0 <= i < before.len() && i != slot ==> after[i] == before[i]);
    assert(forall|i: int| 0 <= i < before.len() && i != slot ==> (#[trigger] before[i]).tag != tag);
    assert(tags_distinct(after)) by {
        assert forall|i: int, j: int|
            0 <= i < after.len() && 0 <= j < after.len() && (#[trigger] after[i]).tag == (
            #[trigger] after[j]).tag implies i == j by {
            if i != slot && j != slot {
                assert(before[i].tag == before[j].tag);
            }
        }
    }
    lemma_position_of_unique(after, slot);
    assert forall|other: Tag| other != tag implies (has_tag(after, other) <==> has_tag(
        before,
        other,
    )) by {
        if has_tag(after, other) {
            let i = position_of(after, other);
            assert(i != slot);
            assert(before[i].tag == other);
        }
        if has_tag(before, other) {
            let i = position_of(before, other);
            assert(i != slot);
            assert(after[i].tag == other);
        }
    }
    assert forall|other: Tag| other != tag && has_tag(before, other) implies after[position_of(
        after,
        other,
    )].vector == before[position_of(before, other)].vector by {
        let i = position_of(before, other);
        assert(i != slot);
        assert(after[i].tag == other);
        lemma_position_of_unique(after, i);
    }
}

/// Removing keeps an index well formed. Afterwards the tag is absent, and
/// entries under other tags are present as before, with the vectors they had.
pub proof fn lemma_remove_well_formed(model: IndexModel, tag: Tag)
    requires
        model.well_formed(),
    ensures
        model.remove(tag).well_formed(),
        !model.remove(tag).contains(tag),
        forall|other: Tag|
            other != tag ==> (model.remove(tag).contains(other) <==> model.contains(other)),
        forall|other: Tag|
            other != tag && model.contains(other) ==> model.remove(tag).vector_of(other)
                == model.vector_of(other),
        model.remove(tag).entries.len() == if model.contains(tag) {
            model.entries.len() - 1
        } else {
            model.entries.len() as int
        },
{
    let before = model.entries;
    let after = remove_entry(before, tag);
    if has_tag(before, tag) {
        let p = position_of(before, tag);
        assert(forall|i: int| 0 <= i < p ==> after[i] == before[i]);
        assert(forall|i: int| p <= i < after.len() ==> after[i] == before[i + 1]);
        assert(tags_distinct(after)) by {
            assert forall|i: int, j: int|
                0 <= i < after.len() && 0 <= j < after.len() && (#[trigger] after[i]).tag == (
                #[trigger] after[j]).tag implies i == j by {
                let bi = if i < p {
                    i
                } else {
                    i + 1
                };
                let bj = if j < p {
                    j
                } else {
                    j + 1
                };
                assert(before[bi].tag == before[bj].tag);
            }
        }
        assert(!has_tag(after, tag)) by {
            if has_tag(after, tag) {
                let i = position_of(after, tag);
                let bi = if i < p {
                    i
                } else {
                    i + 1
                };
                assert(before[bi].tag == before[p].tag);
            }
        }
        assert forall|other: Tag| other != tag implies (has_tag(after, other) <==> has_tag(
            before,
            other,
        )) by {
            if has_tag(after, other) {
                let i = position_of(after, other);
                let bi = if i < p {
                    i
                } else {
                    i + 1
                };
                assert(before[bi].tag == other);
            }
            if has_tag(before, other) {
                let i = position_of(before, other);
                let ai = if i < p {
                    i
                } else {
                    i - 1
                };
                assert(after[ai].tag == other);
            }
        }
        assert forall|other: Tag| other != tag && has_tag(before, other) implies after[position_of(
            after,
            other,
        )].vector == before[position_of(before, other)].vector by {
            let i = position_of(before, other);
            let ai = if i < p {
                i
            } else {
                i - 1
            };
            assert(after[ai] == before[i]);
            lemma_position_of_unique(after, ai);
        }
    }
}

/// Inserting the same vector under the same tag a second time changes nothing:
/// the index is the one that the first insertion left, with as many entries,
/// so every search answers as it did after the first insertion.
pub proof fn lemma_insert_idempotent(model: IndexModel, tag: Tag, vector: Seq<i32>)
    requires
        model.well_formed(),
        vector.len() == model.dimension,
    ensures
        model.insert(tag, vector).insert(tag, vector) == model.insert(tag, vector),
        forall|query: Seq<i32>, k: nat, hits: Seq<Hit>|
            #[trigger] is_search_result(
                model.insert(tag, vector).insert(tag, vector).entries,
                query,
                k,
                hits,
            ) <==> is_search_result(model.insert(tag, vector).entries, query, k, hits),
{
    lemma_insert_well_formed(model, tag, vector);
    let once = model.insert(tag, vector);
    let entry = EntryModel { tag, vector };
    let p = position_of(once.entries, tag);
    assert(0 <= p < once.entries.len() && once.entries[p].tag == tag);
    assert(once.entries[p] == entry);
    assert(once.entries.update(p, entry) =~= once.entries);
}

/// An activity entry and a project document with the same identifier are two
/// entries: after both were inserted each is found under its own tag with its
/// own vector, whichever came first.
pub proof fn lemma_kinds_do_not_collide(
    model: IndexModel,
    id: i64,
    activity_vector: Seq<i32>,
    document_vector: Seq<i32>,
)
    requires
        model.well_formed(),
        activity_vector.len() == model.dimension,
        document_vector.len() == model.dimension,
    ensures
        ({
            let both = model.insert(Tag { kind: RecordKind::Activity, id }, activity_vector).insert(
                Tag { kind: RecordKind::Document, id },
                document_vector,
            );
            &&& both.contains(Tag { kind: RecordKind::Activity, id })
            &&& both.contains(Tag { kind: RecordKind::Document, id })
            &&& both.vector_of(Tag { kind: RecordKind::Activity, id }) == activity_vector
            &&& both.vector_of(Tag { kind: RecordKind::Document, id }) == document_vector
        }),
        ({
            let both = model.insert(Tag { kind: RecordKind::Document, id }, document_vector).insert(
                Tag { kind: RecordKind::Activity, id },
                activity_vector,
            );
            &&& both.contains(Tag { kind: RecordKind::Activity, id })
            &&& both.contains(Tag { kind: RecordKind::Document, id })
            &&& both.vector_of(Tag { kind: RecordKind::Activity, id }) == activity_vector
            &&& both.vector_of(Tag { kind: RecordKind::Document, id }) == document_vector
        }),
{
    let activity = Tag { kind: RecordKind::Activity, id };
    let document = Tag { kind: RecordKind::Document, id };
    assert(activity != document);
    lemma_insert_well_formed(model, activity, activity_vector);
    lemma_insert_well_formed(model.insert(activity, activity_vector), document, document_vector);
    lemma_insert_well_formed(model, document, document_vector);
    lemma_insert_well_formed(model.insert(document, document_vector), activity, activity_vector);
}

/// The order in which entries are ranked is total: of two different positions
/// one outranks the other, never both, and the order is transitive.
pub proof fn lemma_outranks_total_order(
    entries: Seq<EntryModel>,
    query: Seq<i32>,
    p: int,
    q: int,
    r: int,
)
    ensures
        p != q ==> (outranks(entries, query, p, q) <==> !outranks(entries, query, q, p)),
        !outranks(entries, query, p, p),
        outranks(entries, query, p, q) && outranks(entries, query, q, r) ==> outranks(
            entries,
            query,
            p,
            r,
        ),
{
}

/// Two rankings of one length over the same entries and query list the same
/// positions: the ranking that a search reports is determined by its inputs.
pub proof fn lemma_top_ranking_unique(
    entries: Seq<EntryModel>,
    query: Seq<i32>,
    first: Seq<int>,
    second: Seq<int>,
)
    requires
        is_top_ranking(entries, query, first),
        is_top_ranking(entries, query, second),
        first.len() == second.len(),
    ensures
        first == second,
{
    assert forall|i: int| 0 <= i < first.len() implies first[i] == second[i] by {
        lemma_rankings_agree_upto(entries, query, first, second, i);
    }
    assert(first =~= second);
}

proof fn lemma_rankings_agree_upto(
    entries: Seq<EntryModel>,
    query: Seq<i32>,
    first: Seq<int>,
    second: Seq<int>,
    i: int,
)
    requires
        is_top_ranking(entries, query, first),
        is_top_ranking(entries, query, second),
        first.len() == second.len(),
        0 <= i < first.len(),
    ensures
        first[i] == second[i],
    decreases i,
{
    assert forall|j: int| 0 <= j < i implies first[j] == second[j] by {
        lemma_rankings_agree_upto(entries, query, first, second, j);
    }
    let p = first[i];
    let q = second[i];
    if p != q {
        lemma_outranks_total_order(entries, query, p, q, p);
        if outranks(entries, query, p, q) {
            lemma_listed_later_or_missing(entries, query, first, second, i);
        } else {
            lemma_listed_later_or_missing(entries, query, second, first, i);
        }
    }
}

/// If two rankings agree before `i`, the position that `a` lists at `i` cannot
/// outrank the one that `b` lists there.
proof fn lemma_listed_later_or_missing(
    entries: Seq<EntryModel>,
    query: Seq<i32>,
    a: Seq<int>,
    b: Seq<int>,
    i: int,
)
    requires
        is_top_ranking(entries, query, a),
        is_top_ranking(entries, query, b),
        a.len() == b.len(),
        0 <= i < a.len(),
        forall|j: int| 0 <= j < i ==> a[j] == b[j],
        a[i] != b[i],
    ensures
        !outranks(entries, query, a[i], b[i]),
{
    let p = a[i];
    if b.contains(p) {
        let j = choose|j: int| 0 <= j < b.len() && b[j] == p;
        if j < i {
            assert(a[j] == p);
            assert(outranks(entries, query, a[j], a[i]));
        } else {
            assert(j > i);
            assert(outranks(entries, query, b[i], b[j]));
        }
    } else {
        assert(outranks(entries, query, b[i], p));
    }
}

/// What an answer to a search looks like. It has `k` hits, or as many as the
/// index has entries when those are fewer. Each hit names an entry of the index
/// and carries that entry's similarity to the query. No entry is named twice.
/// Scores never increase from one hit to the next, and hits of one score are
/// in the order in which their entries were first inserted.
pub proof fn lemma_search_result_properties(
    model: IndexModel,
    query: Seq<i32>,
    k: nat,
    hits: Seq<Hit>,
)
    requires
        model.well_formed(),
        model.dimension <= usize::MAX,
        is_search_result(model.entries, query, k, hits),
    ensures
        hits.len() == result_len(model.entries, k),
        forall|i: int|
            0 <= i < hits.len() ==> model.contains((#[trigger] hits[i]).tag) && hits[i].score
                == similarity_of(model.vector_of(hits[i].tag), query),
        forall|i: int, j: int|
            0 <= i < hits.len() && 0 <= j < hits.len() && (#[trigger] hits[i]).tag == (
            #[trigger] hits[j]).tag ==> i == j,
        forall|i: int, j: int|
            0 <= i < j < hits.len() ==> (#[trigger] hits[i]).score >= (#[trigger] hits[j]).score,
        forall|i: int, j: int|
            0 <= i < j < hits.len() && (#[trigger] hits[i]).score == (#[trigger] hits[j]).score
                ==> position_of(model.entries, hits[i].tag) < position_of(
                model.entries,
                hits[j].tag,
            ),
{
    let entries = model.entries;
    let positions = choose|positions: Seq<int>|
        {
            &&& #[trigger] is_top_ranking(entries, query, positions)
            &&& positions.len() == result_len(entries, k)
            &&& hits == hits_at(entries, query, positions)
        };
    assert forall|i: int| 0 <= i < hits.len() implies {
        &&& has_tag(entries, (#[trigger] hits[i]).tag)
        &&& position_of(entries, hits[i].tag) == positions[i]
        &&& hits[i].score == score_at(entries, query, positions[i])
    } by {
        let p = positions[i];
        assert(entries[p].tag == hits[i].tag);
        lemma_position_of_unique(entries, p);
        assert(entries[p].vector.len() == model.dimension);
        lemma_similarity_fits(entries[p].vector, query);
    }
    assert forall|i: int, j: int|
        0 <= i < hits.len() && 0 <= j < hits.len() && (#[trigger] hits[i]).tag == (
        #[trigger] hits[j]).tag implies i == j by {
        if i < j {
            assert(outranks(entries, query, positions[i], positions[j]));
        } else if j < i {
            assert(outranks(entries, query, positions[j], positions[i]));
        }
    }
    assert forall|i: int, j: int| 0 <= i < j < hits.len() implies (#[trigger] hits[i]).score >= (
    #[trigger] hits[j]).score by {
        assert(outranks(entries, query, positions[i], positions[j]));
    }
    assert forall|i: int, j: int|
        0 <= i < j < hits.len() && (#[trigger] hits[i]).score == (
        #[trigger] hits[j]).score implies position_of(entries, hits[i].tag) < position_of(
        entries,
        hits[j].tag,
    ) by {
        assert(outranks(entries, query, positions[i], positions[j]));
    }
}

/// A search has one answer: two hit lists that both answer the same search are
/// equal.
pub proof fn lemma_search_result_unique(
    entries: Seq<EntryModel>,
    query: Seq<i32>,
    k: nat,
    first: Seq<Hit>,
    second: Seq<Hit>,
)
    requires
        is_search_result(entries, query, k, first),
        is_search_result(entries, query, k, second),
    ensures
        first == second,
{
    let ps = choose|ps: Seq<int>|
        {
            &&& #[trigger] is_top_ranking(entries, query, ps)
            &&& ps.len() == result_len(entries, k)
            &&& first == hits_at(entries, query, ps)
        };
    let qs = choose|qs: Seq<int>|
        {
            &&& #[trigger] is_top_ranking(entries, query, qs)
            &&& qs.len() == result_len(entries, k)
            &&& second == hits_at(entries, query, qs)
        };
    lemma_top_ranking_unique(entries, query, ps, qs);
}

/// The similarity index proper: entries of one dimension, one per tag.
pub struct VectorIndex {
    dimension: usize,
    entries: Vec<IndexEntry>,
}

impl View for VectorIndex {
    type V = IndexModel;

    closed spec fn view(&self) -> IndexModel {
        IndexModel {
            dimension: self.dimension as nat,
            entries: entry_models(self.entries@),
        }
    }
}

impl VectorIndex {
    #[verifier::type_invariant]
    spec fn inv(self) -> bool {
        self@.well_formed()
    }

    /// An empty index for embeddings of `dimension` components.
    pub fn new(dimension: usize) -> (index: VectorIndex)
        ensures
            index@.dimension == dimension,
            index@.entries == Seq::<EntryModel>::empty(),
            index@.well_formed(),
    {
        VectorIndex { dimension, entries: Vec::new() }
    }

    /// Number of components of every embedding in the index.
    pub fn dimension(&self) -> (dimension: usize)
        ensures
            dimension == self@.dimension,
    {
        self.dimension
    }

    /// Number of entries.
    pub fn len(&self) -> (len: usize)
        ensures
            len == self@.entries.len(),
            self@.well_formed(),
    {
        proof {
            use_type_invariant(self);
        }
        self.entries.len()
    }

    /// Whether the index holds no entry.
    pub fn is_empty(&self) -> (empty: bool)
        ensures
            empty == (self@.entries.len() == 0),
    {
        self.entries.len() == 0
    }

    /// Position of the entry for `tag`, if there is one.
    fn find(&self, tag: Tag) -> (found: Option<usize>)
        ensures
            self@.well_formed(),
            found is Some <==> self@.contains(tag),
            found matches Some(p) ==> p < self@.entries.len() && self@.entries[p as int].tag == tag
                && position_of(self@.entries, tag) == p,
    {
        proof {
            use_type_invariant(self);
        }
        let n: usize = self.entries.len();
        let mut i: usize = 0;
        while i < n
            invariant
                n == self.entries@.len(),
                i <= n,
                self@.well_formed(),
                forall|j: int| 0 <= j < i ==> (#[trigger] self@.entries[j]).tag != tag,
            decreases n - i,
        {
            if self.entries[i].tag == tag {
                proof {
                    assert(self@.entries[i as int].tag == tag);
                    lemma_position_of_unique(self@.entries, i as int);
                }
                return Some(i);
            }
            i = i + 1;
        }
        None
    }

    /// Whether the index holds an entry for `tag`.
    pub fn contains(&self, tag: Tag) -> (present: bool)
        ensures
            present == self@.contains(tag),
    {
        self.find(tag).is_some()
    }

    /// The vector stored under `tag`, if there is one.
    pub fn get(&self, tag: Tag) -> (vector: Option<&Vec<i32>>)
        ensures
            vector is Some <==> self@.contains(tag),
            vector matches Some(v) ==> v@ == self@.vector_of(tag),
    {
        match self.find(tag) {
            Some(p) => {
                assert(self@.entries[p as int].vector == self.entries@[p as int].vector@);
                Some(&self.entries[p].vector)
            },
            None => None,
        }
    }

    /// Adds the entry for `tag`, or replaces its vector when the tag is already
    /// present; a replaced entry keeps its place in the insertion order. A
    /// vector of another dimension is refused and leaves the index as it was.
    pub fn insert(&mut self, tag: Tag, vector: Vec<i32>) -> (outcome: Result<(), IndexError>)
        ensures
            final(self)@.well_formed(),
            vector@.len() == old(self)@.dimension ==> outcome == Ok::<(), IndexError>(())
                && final(self)@ == old(self)@.insert(tag, vector@),
            vector@.len() != old(self)@.dimension ==> outcome == Err::<(), IndexError>(
                IndexError::Corrupt,
            ) && final(self)@ == old(self)@,
    {
        proof {
            use_type_invariant(&*self);
        }
        if vector.len() != self.dimension {
            return Err(IndexError::Corrupt);
        }
        let ghost before = self@;
        let ghost entry = EntryModel { tag, vector: vector@ };
        proof {
            lemma_insert_well_formed(before, tag, vector@);
        }
        let slot = self.find(tag);
        let mut taken = VectorIndex { dimension: self.dimension, entries: Vec::new() };
        core::mem::swap(self, &mut taken);
        let VectorIndex { dimension, entries } = taken;
        let mut entries = entries;
        match slot {
            Some(p) => {
                entries.set(p, IndexEntry { tag, vector });
            },
            None => {
                entries.push(IndexEntry { tag, vector });
            },
        }
        proof {
            let after = IndexModel {
                dimension: dimension as nat,
                entries: entry_models(entries@),
            };
            assert(after.entries =~= insert_entry(before.entries, entry));
            assert(after == before.insert(tag, vector@));
        }
        *self = VectorIndex { dimension, entries };
        Ok(())
    }

    /// Takes the entry for `tag` out of the index, if there is one, and answers
    /// whether there was. The other entries keep their order.
    pub fn remove(&mut self, tag: Tag) -> (removed: bool)
        ensures
            final(self)@.well_formed(),
            final(self)@ == old(self)@.remove(tag),
            removed == old(self)@.contains(tag),
    {
        proof {
            use_type_invariant(&*self);
        }
        let ghost before = self@;
        proof {
            lemma_remove_well_formed(before, tag);
        }
        match self.find(tag) {
            Some(p) => {
                let mut taken = VectorIndex { dimension: self.dimension, entries: Vec::new() };
                core::mem::swap(self, &mut taken);
                let VectorIndex { dimension, entries } = taken;
                let mut entries = entries;
                let _ = entries.remove(p);
                proof {
                    let after = IndexModel {
                        dimension: dimension as nat,
                        entries: entry_models(entries@),
                    };
                    assert(after.entries =~= remove_entry(before.entries, tag));
                    assert(after == before.remove(tag));
                }
                *self = VectorIndex { dimension, entries };
                true
            },
            None => false,
        }
    }

    /// The `k` entries most similar to `query`, best first, entries of equal
    /// similarity in insertion order. An empty index answers with no hits,
    /// whatever the query; otherwise a query of another dimension is refused.
    pub fn search(&self, query: &Vec<i32>, k: usize) -> (outcome: Result<Vec<Hit>, IndexError>)
        ensures
            self@.well_formed(),
            self@.entries.len() == 0 ==> (outcome matches Ok(hits) && hits@.len() == 0),
            self@.entries.len() > 0 && query@.len() != self@.dimension ==> outcome == Err::<
                Vec<Hit>,
                IndexError,
            >(IndexError::Corrupt),
            self@.entries.len() > 0 && query@.len() == self@.dimension ==> (outcome matches Ok(hits)
                && is_search_result(self@.entries, query@, k as nat, hits@)),
    {
        proof {
            use_type_invariant(self);
        }
        let n: usize = self.entries.len();
        let mut hits: Vec<Hit> = Vec::new();
        if n == 0 {
            return Ok(hits);
        }
        if query.len() != self.dimension {
            return Err(IndexError::Corrupt);
        }
        let ghost entries = self@.entries;
        let ghost mut positions: Seq<int> = Seq::empty();
        let mut j: usize = 0;
        while j < n
            invariant
                n == self.entries@.len(),
                entries == self@.entries,
                uniform_dimension(entries, self.dimension as nat),
                query@.len() == self.dimension,
                j <= n,
                hits@.len() == positions.len(),
                positions.len() <= k,
                positions.len() <= j,
                positions.len() < k ==> positions.len() == j,
                positions.len() < k ==> forall|q: int| 0 <= q < j ==> positions.contains(q),
                forall|i: int| 0 <= i < positions.len() ==> 0 <= #[trigger] positions[i] < j,
                forall|a: int, b: int|
                    0 <= a < b < positions.len() ==> outranks(
                        entries,
                        query@,
                        #[trigger] positions[a],
                        #[trigger] positions[b],
                    ),
                forall|i: int, q: int|
                    0 <= i < positions.len() && 0 <= q < j && !positions.contains(q)
                        ==> #[trigger] outranks(entries, query@, positions[i], q),
                forall|i: int|
                    0 <= i < positions.len() ==> (#[trigger] hits@[i]).tag
                        == entries[positions[i]].tag && hits@[i].score == score_at(
                        entries,
                        query@,
                        positions[i],
                    ),
            decreases n - j,
        {
            assert(entries[j as int].vector == self.entries@[j as int].vector@);
            let score: i128 = similarity(&self.entries[j].vector, query);
            assert(score == score_at(entries, query@, j as int));
            let mut slot: usize = hits.len();
            while slot > 0 && hits[slot - 1].score < score
                invariant
                    slot <= hits@.len(),
                    forall|b: int| slot <= b < hits@.len() ==> (#[trigger] hits@[b]).score < score,
                decreases slot,
            {
                slot = slot - 1;
            }
            let ghost old_positions = positions;
            let ghost old_hits = hits@;
            proof {
                // Everything listed before the slot is at least as similar and
                // was inserted earlier, so it outranks the new entry.
                assert forall|a: int| 0 <= a < slot implies outranks(
                    entries,
                    query@,
                    old_positions[a],
                    j as int,
                ) by {
                    if a < slot - 1 {
                        assert(outranks(
                            entries,
                            query@,
                            old_positions[a],
                            old_positions[slot - 1],
                        ));
                    }
                    assert(old_hits[a].score == score_at(entries, query@, old_positions[a]));
                    assert(old_hits[slot - 1].score == score_at(
                        entries,
                        query@,
                        old_positions[slot - 1],
                    ));
                }
                assert forall|b: int| slot <= b < old_positions.len() implies outranks(
                    entries,
                    query@,
                    j as int,
                    old_positions[b],
                ) by {
                    assert(old_hits[b].score == score_at(entries, query@, old_positions[b]));
                }
            }
            if slot < k {
                if hits.len() == k {
                    hits.pop();
                    proof {
                        positions = positions.drop_last();
                    }
                }
                let ghost kept = positions;
                hits.insert(slot, Hit { tag: self.entries[j].tag, score });
                proof {
                    positions = positions.insert(slot as int, j as int);
                    assert(forall|i: int| 0 <= i < slot ==> positions[i] == old_positions[i]);
                    assert(positions[slot as int] == j);
                    assert(forall|i: int|
                        slot < i < positions.len() ==> positions[i] == old_positions[i - 1]);
                    assert forall|a: int, b: int| 0 <= a < b < positions.len() implies outranks(
                        entries,
                        query@,
                        #[trigger] positions[a],
                        #[trigger] positions[b],
                    ) by {
                        if b < slot {
                            assert(outranks(entries, query@, old_positions[a], old_positions[b]));
                        } else if b == slot {
                        } else if a < slot {
                            assert(outranks(
                                entries,
                                query@,
                                old_positions[a],
                                old_positions[b - 1],
                            ));
                        } else if a == slot {
                        } else {
                            assert(outranks(
                                entries,
                                query@,
                                old_positions[a - 1],
                                old_positions[b - 1],
                            ));
                        }
                    }
                    assert forall|q: int| 0 <= q < j + 1 && old_positions.len() < k implies positions.contains(
                        q,
                    ) by {
                        if q == j {
                            assert(positions[slot as int] == q);
                        } else {
                            assert(old_positions.contains(q));
                            let w = choose|w: int|
                                0 <= w < old_positions.len() && old_positions[w] == q;
                            if w < slot {
                                assert(positions[w] == q);
                            } else {
                                assert(positions[w + 1] == q);
                            }
                        }
                    }
                    assert forall|i: int, q: int|
                        0 <= i < positions.len() && 0 <= q < j + 1 && !positions.contains(
                            q,
                        ) implies #[trigger] outranks(entries, query@, positions[i], q) by {
                        assert(q != j);
                        // The only entry that may have left the list is its
                        // former last one.
                        let dropped = old_positions.len() == k;
                        let last = old_positions.len() - 1;
                        if dropped && q == old_positions[last] {
                            if i < slot {
                                assert(outranks(
                                    entries,
                                    query@,
                                    old_positions[i],
                                    old_positions[last],
                                ));
                            } else if i == slot {
                            } else {
                                assert(outranks(
                                    entries,
                                    query@,
                                    old_positions[i - 1],
                                    old_positions[last],
                                ));
                            }
                        } else {
                            if old_positions.contains(q) {
                                let w = choose|w: int|
                                    0 <= w < old_positions.len() && old_positions[w] == q;
                                if w < slot {
                                    assert(positions[w] == q);
                                } else {
                                    assert(positions[w + 1] == q);
                                }
                                assert(false);
                            }
                            assert(old_positions.len() == k);
                            assert(outranks(entries, query@, old_positions[last], q));
                            if i < slot {
                                assert(outranks(entries, query@, old_positions[i], q));
                            } else if i == slot {
                                assert(outranks(entries, query@, j as int, old_positions[last]));
                            } else {
                                assert(outranks(entries, query@, old_positions[i - 1], q));
                            }
                        }
                    }
                }
            } else {
                proof {
                    assert forall|i: int, q: int|
                        0 <= i < positions.len() && 0 <= q < j + 1 && !positions.contains(
                            q,
                        ) implies #[trigger] outranks(entries, query@, positions[i], q) by {
                        if q == j {
                            assert(outranks(entries, query@, old_positions[i], j as int));
                        }
                    }
                }
            }
            j = j + 1;
        }
        proof {
            assert(positions.len() == result_len(entries, k as nat));
            assert(is_top_ranking(entries, query@, positions));
            assert(hits@ =~= hits_at(entries, query@, positions)) by {
                assert forall|i: int| 0 <= i < hits@.len() implies hits@[i] == hits_at(
                    entries,
                    query@,
                    positions,
                )[i] by {
                    assert(hits@[i].tag == entries[positions[i]].tag);
                }
            }
        }
        Ok(hits)
    }

    /// The index as bytes, for keeping it between runs.
    pub fn to_bytes(&self) -> (bytes: Vec<u8>)
        ensures
            bytes@ == encoded_index(self@),
            self@.well_formed(),
    {
        proof {
            use_type_invariant(self);
        }
        encode(self.dimension, &self.entries)
    }

    /// A copy of every entry, in insertion order: what has to be written out for
    /// the index to be restored later.
    pub fn snapshot(&self) -> (entries: Vec<IndexEntry>)
        ensures
            entry_models(entries@) == self@.entries,
    {
        let n: usize = self.entries.len();
        let mut out: Vec<IndexEntry> = Vec::new();
        let mut i: usize = 0;
        while i < n
            invariant
                n == self.entries@.len(),
                i <= n,
                out@.len() == i,
                forall|j: int| 0 <= j < i ==> (#[trigger] out@[j])@ == self@.entries[j],
            decreases n - i,
        {
            let vector = copy_vector(&self.entries[i].vector);
            out.push(IndexEntry { tag: self.entries[i].tag, vector });
            i = i + 1;
        }
        assert(entry_models(out@) =~= self@.entries);
        out
    }
}

/// A copy of `vector`.
pub fn copy_vector(vector: &Vec<i32>) -> (copy: Vec<i32>)
    ensures
        copy@ == vector@,
{
    let n: usize = vector.len();
    let mut copy: Vec<i32> = Vec::new();
    let mut i: usize = 0;
    while i < n
        invariant
            n == vector@.len(),
            i <= n,
            copy@ == vector@.subrange(0, i as int),
        decreases n - i,
    {
        copy.push(vector[i]);
        assert(copy@ =~= vector@.subrange(0, i + 1));
        i = i + 1;
    }
    assert(copy@ =~= vector@);
    copy
}

} // verus!
