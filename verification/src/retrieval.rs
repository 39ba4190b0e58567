//! Retrieval: from a query's embedding to the stored texts that are most
//! similar to it.
//!
//! Retrieval runs in two halves around the caller's store lookups. The first
//! half searches the index with the query's embedding and yields the hits. The
//! caller then fetches the current text of each hit from the store. The second
//! half pairs hits with texts and drops the hits whose record is gone.

use vstd::prelude::*;
use crate::embedding::EmbedError;
use crate::handle::IndexHandle;
use crate::index::{Hit, IndexModel, is_search_result, lemma_remove_well_formed};
use crate::tag::{RecordKind, Tag};

verus! {

/// Why a retrieval gave no answer.
#[derive(Clone, Copy, Debug, PartialEq, Eq, Structural)]
pub enum RetrievalError {
    /// The query could not be embedded. The caller decides whether to go on
    /// without retrieved context.
    EmbeddingUnavailable,
    /// The query's embedding does not have the dimension of the index.
    IndexCorrupt,
}

/// A hit together with what the store holds for its record: the current text,
/// or nothing when the record has been deleted since it was indexed.
#[derive(Debug, PartialEq, Eq)]
pub struct Lookup {
    pub hit: Hit,
    pub text: Option<String>,
}

/// One retrieved record.
#[derive(Debug, PartialEq, Eq)]
pub struct RetrievedItem {
    pub kind: RecordKind,
    pub id: i64,
    pub text: String,
    pub score: i128,
}

/// Mathematical value of a lookup.
pub ghost struct LookupModel {
    pub hit: Hit,
    pub text: Option<Seq<char>>,
}

/// Mathematical value of a retrieved record.
pub ghost struct ItemModel {
    pub kind: RecordKind,
    pub id: i64,
    pub text: Seq<char>,
    pub score: i128,
}

impl View for Lookup {
    type V = LookupModel;

    open spec fn view(&self) -> LookupModel {
        LookupModel {
            hit: self.hit,
            text: match self.text {
                Some(text) => Some(text@),
                None => None,
            },
        }
    }
}

impl View for RetrievedItem {
    type V = ItemModel;

    open spec fn view(&self) -> ItemModel {
        ItemModel { kind: self.kind, id: self.id, text: self.text@, score: self.score }
    }
}

/// Mathematical values of a list of lookups, in the same order.
pub open spec fn lookup_models(lookups: Seq<Lookup>) -> Seq<LookupModel> {
    Seq::new(lookups.len(), |i: int| lookups[i]@)
}

/// Mathematical values of a list of retrieved records, in the same order.
pub open spec fn item_models(items: Seq<RetrievedItem>) -> Seq<ItemModel> {
    Seq::new(items.len(), |i: int| items[i]@)
}

/// The record that a hit and its text make.
pub open spec fn item_of(hit: Hit, text: Seq<char>) -> ItemModel {
    ItemModel { kind: hit.tag.kind, id: hit.tag.id, text, score: hit.score }
}

/// The retrieved records that a list of lookups makes: one for each lookup that
/// found a text, in the order of the lookups.
pub open spec fn items_of(lookups: Seq<LookupModel>) -> Seq<ItemModel>
    decreases lookups.len(),
{
    if lookups.len() == 0 {
        Seq::empty()
    } else {
        let front = items_of(lookups.drop_last());
        match lookups.last().text {
            Some(text) => front.push(item_of(lookups.last().hit, text)),
            None => front,
        }
    }
}

/// Whether `outcome` is what the first half of a retrieval answers for a
/// query's embedding, an index and a limit `k`.
pub open spec fn is_candidate_answer(
    index: Option<IndexModel>,
    embedding: Result<Seq<i32>, EmbedError>,
    k: nat,
    outcome: Result<Seq<Hit>, RetrievalError>,
) -> bool {
    match embedding {
        Err(_) => outcome == Err::<Seq<Hit>, RetrievalError>(RetrievalError::EmbeddingUnavailable),
        Ok(query) => match index {
            None => outcome == Ok::<Seq<Hit>, RetrievalError>(Seq::empty()),
            Some(model) => if model.entries.len() == 0 {
                outcome == Ok::<Seq<Hit>, RetrievalError>(Seq::empty())
            } else if query.len() != model.dimension {
                outcome == Err::<Seq<Hit>, RetrievalError>(RetrievalError::IndexCorrupt)
            } else {
                outcome matches Ok(hits) && is_search_result(model.entries, query, k, hits)
            },
        },
    }
}

/// Mathematical value of the first half's answer.
pub open spec fn candidates_model(outcome: Result<Vec<Hit>, RetrievalError>) -> Result<
    Seq<Hit>,
    RetrievalError,
> {
    match outcome {
        Ok(hits) => Ok(hits@),
        Err(error) => Err(error),
    }
}

/// Mathematical value of a query's embedding as the client reported it.
pub open spec fn query_model(embedding: Result<Vec<i32>, EmbedError>) -> Result<
    Seq<i32>,
    EmbedError,
> {
    match embedding {
        Ok(vector) => Ok(vector@),
        Err(error) => Err(error),
    }
}

/// First half of a retrieval. A query that could not be embedded is answered
/// with `EmbeddingUnavailable`. An index that is not set up or is empty is
/// answered with no hits, so that the caller can go on without context. A
/// query of another dimension than the index's is answered with
/// `IndexCorrupt`. Otherwise the answer is the `k` entries most similar to the
/// query, best first, in the order the index reports them.
pub fn find_candidates(
    handle: &IndexHandle,
    embedding: Result<Vec<i32>, EmbedError>,
    k: usize,
) -> (outcome: Result<Vec<Hit>, RetrievalError>)
    ensures
        is_candidate_answer(handle@, query_model(embedding), k as nat, candidates_model(outcome)),
{
    match embedding {
        Err(_) => Err(RetrievalError::EmbeddingUnavailable),
        Ok(query) => {
            if !handle.is_initialized() {
                let hits: Vec<Hit> = Vec::new();
                assert(hits@ =~= Seq::<Hit>::empty());
                return Ok(hits);
            }
            match handle.search(&query, k) {
                Ok(hits) => {
                    assert(handle@->0.entries.len() == 0 ==> hits@ =~= Seq::<Hit>::empty());
                    Ok(hits)
                },
                Err(_) => Err(RetrievalError::IndexCorrupt),
            }
        },
    }
}

/// Second half of a retrieval: turns the hits and what the store holds for
/// them into retrieved records. A hit whose record is gone is left out; the
/// others keep their order and their scores.
pub fn assemble(lookups: Vec<Lookup>) -> (items: Vec<RetrievedItem>)
    ensures
        item_models(items@) == items_of(lookup_models(lookups@)),
{
    let ghost all = lookup_models(lookups@);
    let mut reversed: Vec<Lookup> = Vec::new();
    let mut rest = lookups;
    let n: usize = rest.len();
    let mut i: usize = 0;
    while i < n
        invariant
            i <= n,
            all.len() == n,
            rest@.len() == n - i,
            reversed@.len() == i,
            forall|j: int| 0 <= j < n - i ==> (#[trigger] rest@[j])@ == all[j],
            forall|j: int| 0 <= j < i ==> (#[trigger] reversed@[j])@ == all[n - 1 - j],
        decreases n - i,
    {
        let lookup = rest.pop().unwrap();
        reversed.push(lookup);
        i = i + 1;
    }
    let mut items: Vec<RetrievedItem> = Vec::new();
    let mut done: usize = 0;
    proof {
        assert(all.subrange(0, 0) =~= Seq::<LookupModel>::empty());
        assert(item_models(items@) =~= Seq::<ItemModel>::empty());
    }
    while done < n
        invariant
            done <= n,
            all.len() == n,
            all == lookup_models(lookups@),
            reversed@.len() == n - done,
            forall|j: int| 0 <= j < n - done ==> (#[trigger] reversed@[j])@ == all[n - 1 - j],
            item_models(items@) == items_of(all.subrange(0, done as int)),
        decreases n - done,
    {
        let lookup = reversed.pop().unwrap();
        let ghost so_far = all.subrange(0, done as int);
        let ghost next = all.subrange(0, done + 1);
        let ghost before = item_models(items@);
        proof {
            assert(lookup@ == all[done as int]);
            assert(next.drop_last() =~= so_far);
            assert(next.last() == all[done as int]);
        }
        let Lookup { hit, text } = lookup;
        match text {
            Some(text) => {
                items.push(RetrievedItem { kind: hit.tag.kind, id: hit.tag.id, text, score: hit.score });
                proof {
                    assert(item_models(items@) =~= before.push(item_of(hit, text@)));
                }
            },
            None => {},
        }
        done = done + 1;
    }
    proof {
        assert(all.subrange(0, n as int) =~= all);
    }
    items
}

/// The retrieved records of two lists of lookups, one after the other, are the
/// records of the first followed by the records of the second.
pub proof fn lemma_items_of_concat(first: Seq<LookupModel>, second: Seq<LookupModel>)
    ensures
        items_of(first + second) == items_of(first) + items_of(second),
    decreases second.len(),
{
    if second.len() == 0 {
        assert(first + second =~= first);
        assert(items_of(first) + items_of(second) =~= items_of(first));
    } else {
        let whole = first + second;
        assert(whole.drop_last() =~= first + second.drop_last());
        assert(whole.last() == second.last());
        lemma_items_of_concat(first, second.drop_last());
        let front = items_of(first) + items_of(second.drop_last());
        match second.last().text {
            Some(text) => {
                assert(front.push(item_of(second.last().hit, text)) =~= items_of(first)
                    + items_of(second.drop_last()).push(item_of(second.last().hit, text)));
            },
            None => {},
        }
    }
}

/// A record that was deleted after it was indexed does not fail a retrieval
/// and does not disturb it: the lookup that found nothing adds no record, and
/// the records found before and after it are what they would be without it.
pub proof fn lemma_missing_record_is_dropped(
    before: Seq<LookupModel>,
    missing: Hit,
    after: Seq<LookupModel>,
)
    ensures
        items_of(before + seq![LookupModel { hit: missing, text: None }] + after) == items_of(
            before + after,
        ),
{
    let gone = seq![LookupModel { hit: missing, text: None }];
    assert(items_of(gone) =~= Seq::<ItemModel>::empty()) by {
        reveal_with_fuel(items_of, 2);
        assert(gone.drop_last() =~= Seq::<LookupModel>::empty());
        assert(gone.last().text is None);
    }
    lemma_items_of_concat(before, gone);
    lemma_items_of_concat(before + gone, after);
    lemma_items_of_concat(before, after);
    assert(items_of(before) + items_of(gone) =~= items_of(before));
}

/// Whether `item` is the record of some lookup of `lookups` that found a text.
pub open spec fn comes_from(lookups: Seq<LookupModel>, item: ItemModel) -> bool {
    exists|i: int|
        0 <= i < lookups.len() && (#[trigger] lookups[i]).text is Some && item == item_of(
            lookups[i].hit,
            lookups[i].text->0,
        )
}

/// Every retrieved record comes from a lookup that found a text, and there are
/// as many records as there are such lookups at most: never more records than
/// hits.
pub proof fn lemma_items_come_from_found_lookups(lookups: Seq<LookupModel>)
    ensures
        items_of(lookups).len() <= lookups.len(),
        (forall|i: int| 0 <= i < lookups.len() ==> (#[trigger] lookups[i]).text is Some)
            ==> items_of(lookups).len() == lookups.len(),
        forall|j: int|
            0 <= j < items_of(lookups).len() ==> comes_from(lookups, #[trigger] items_of(lookups)[j]),
    decreases lookups.len(),
{
    if lookups.len() > 0 {
        let front = lookups.drop_last();
        lemma_items_come_from_found_lookups(front);
        if forall|i: int| 0 <= i < lookups.len() ==> (#[trigger] lookups[i]).text is Some {
            assert forall|i: int| 0 <= i < front.len() implies (#[trigger] front[i]).text is Some by {
                assert(front[i] == lookups[i]);
            }
            assert(lookups[lookups.len() - 1].text is Some);
        }
        assert forall|j: int| 0 <= j < items_of(lookups).len() implies comes_from(
            lookups,
            #[trigger] items_of(lookups)[j],
        ) by {
            if j < items_of(front).len() {
                assert(comes_from(front, items_of(front)[j]));
                let i = choose|i: int|
                    0 <= i < front.len() && (#[trigger] front[i]).text is Some && items_of(
                        front,
                    )[j] == item_of(front[i].hit, front[i].text->0);
                assert(front[i] == lookups[i]);
            } else {
                let i = lookups.len() - 1;
                assert(lookups[i].text is Some);
            }
        }
    }
}

/// The index after the entries of the lookups that found nothing were taken
/// out, one after the other.
pub open spec fn pruned(model: IndexModel, lookups: Seq<LookupModel>) -> IndexModel
    decreases lookups.len(),
{
    if lookups.len() == 0 {
        model
    } else {
        let front = pruned(model, lookups.drop_last());
        if lookups.last().text is None {
            front.remove(lookups.last().hit.tag)
        } else {
            front
        }
    }
}

/// Whether some lookup of `lookups` looked for `tag` and found nothing.
pub open spec fn missed(lookups: Seq<LookupModel>, tag: Tag) -> bool {
    exists|i: int|
        0 <= i < lookups.len() && (#[trigger] lookups[i]).text is None && lookups[i].hit.tag == tag
}

/// Takes out of the index the entries whose record the store no longer has:
/// the tag of every lookup that found nothing. Entries under other tags stay
/// as they are. Without an index nothing happens.
pub fn prune_missing(handle: &mut IndexHandle, lookups: &Vec<Lookup>)
    ensures
        final(handle)@ == match old(handle)@ {
            Some(model) => Some(pruned(model, lookup_models(lookups@))),
            None => None,
        },
{
    if !handle.is_initialized() {
        return ;
    }
    let ghost all = lookup_models(lookups@);
    let ghost start = handle@->0;
    let n: usize = lookups.len();
    let mut i: usize = 0;
    proof {
        assert(all.subrange(0, 0) =~= Seq::<LookupModel>::empty());
    }
    while i < n
        invariant
            i <= n,
            n == lookups@.len(),
            all == lookup_models(lookups@),
            handle@ == Some(pruned(start, all.subrange(0, i as int))),
        decreases n - i,
    {
        let ghost next = all.subrange(0, i + 1);
        proof {
            assert(next.drop_last() =~= all.subrange(0, i as int));
            assert(next.last() == lookups@[i as int]@);
        }
        if lookups[i].text.is_none() {
            let _ = handle.remove(lookups[i].hit.tag);
        }
        i = i + 1;
    }
    proof {
        assert(all.subrange(0, n as int) =~= all);
    }
}

/// Pruning keeps the index well formed, removes every tag whose lookup found
/// nothing, and leaves every other tag as it was, present or absent, with the
/// vector it had.
pub proof fn lemma_pruned_drops_only_missing(model: IndexModel, lookups: Seq<LookupModel>)
    requires
        model.well_formed(),
    ensures
        pruned(model, lookups).well_formed(),
        forall|tag: Tag| missed(lookups, tag) ==> !(#[trigger] pruned(model, lookups).contains(tag)),
        forall|tag: Tag|
            !missed(lookups, tag) ==> (#[trigger] pruned(model, lookups).contains(tag)
                <==> model.contains(tag)),
        forall|tag: Tag|
            !missed(lookups, tag) && model.contains(tag) ==> #[trigger] pruned(
                model,
                lookups,
            ).vector_of(tag) == model.vector_of(tag),
    decreases lookups.len(),
{
    if lookups.len() > 0 {
        let front_lookups = lookups.drop_last();
        let last = lookups.last();
        let front = pruned(model, front_lookups);
        lemma_pruned_drops_only_missing(model, front_lookups);
        lemma_remove_well_formed(front, last.hit.tag);
        assert forall|tag: Tag| missed(front_lookups, tag) implies missed(lookups, tag) by {
            let i = choose|i: int|
                0 <= i < front_lookups.len() && (#[trigger] front_lookups[i]).text is None
                    && front_lookups[i].hit.tag == tag;
            assert(lookups[i] == front_lookups[i]);
        }
        assert forall|tag: Tag| missed(lookups, tag) && !(last.text is None && last.hit.tag
            == tag) implies missed(front_lookups, tag) by {
            let i = choose|i: int|
                0 <= i < lookups.len() && (#[trigger] lookups[i]).text is None
                    && lookups[i].hit.tag == tag;
            assert(i < front_lookups.len());
            assert(front_lookups[i] == lookups[i]);
        }
        if last.text is None {
            assert(lookups[lookups.len() - 1] == last);
            assert(missed(lookups, last.hit.tag));
        }
        assert forall|tag: Tag| missed(lookups, tag) implies !(#[trigger] pruned(
            model,
            lookups,
        ).contains(tag)) by {
            if last.text is None && last.hit.tag == tag {
            } else {
                assert(missed(front_lookups, tag));
                assert(!front.contains(tag));
                if last.text is None {
                    assert(front.remove(last.hit.tag).contains(tag) <==> front.contains(tag));
                }
            }
        }
        assert forall|tag: Tag| !missed(lookups, tag) implies (#[trigger] pruned(
            model,
            lookups,
        ).contains(tag) <==> model.contains(tag)) by {
            assert(!missed(front_lookups, tag));
            assert(front.contains(tag) <==> model.contains(tag));
            if last.text is None {
                assert(last.hit.tag != tag);
                assert(front.remove(last.hit.tag).contains(tag) <==> front.contains(tag));
            }
        }
        assert forall|tag: Tag| !missed(lookups, tag) && model.contains(tag) implies #[trigger] pruned(
            model,
            lookups,
        ).vector_of(tag) == model.vector_of(tag) by {
            assert(!missed(front_lookups, tag));
            assert(front.contains(tag) <==> model.contains(tag));
            assert(front.vector_of(tag) == model.vector_of(tag));
            if last.text is None {
                assert(last.hit.tag != tag);
                assert(front.remove(last.hit.tag).vector_of(tag) == front.vector_of(tag));
            }
        }
    }
}

} // verus!
