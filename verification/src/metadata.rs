//! Metadata of a document: rows of key and value that the store hands over,
//! collected into the JSON object that the editor receives.

use vstd::prelude::*;

verus! {

/// `serde_json::Map`, the map behind a JSON object. Nothing of its inside is
/// known here; what it holds is spoken of through `text_members`.
#[verifier::external_type_specification]
#[verifier::external_body]
#[verifier::reject_recursive_types(K)]
#[verifier::reject_recursive_types(V)]
pub struct ExJsonMap<K, V>(serde_json::Map<K, V>);

/// `serde_json::Value`, any JSON value. It is only carried through.
#[verifier::external_type_specification]
#[verifier::external_body]
pub struct ExJsonValue(serde_json::Value);

/// A JSON object.
pub type JsonObject = serde_json::Map<String, serde_json::Value>;

/// The members of a JSON object that hold a string, each key mapped to the
/// string it holds.
pub uninterp spec fn text_members(object: JsonObject) -> Map<Seq<char>, Seq<char>>;

/// The keys of all members of a JSON object, whatever they hold.
pub uninterp spec fn member_keys(object: JsonObject) -> Set<Seq<char>>;

/// No members at all.
pub open spec fn no_members() -> Map<Seq<char>, Seq<char>> {
    Map::empty()
}

/// No keys at all.
pub open spec fn no_keys() -> Set<Seq<char>> {
    Set::empty()
}

/// `serde_json::Map::new` makes an object without members.
#[verifier::external_body]
fn empty_object() -> (made: JsonObject)
    ensures
        text_members(made) == no_members(),
        member_keys(made) == no_keys(),
{
    serde_json::Map::new()
}

/// `serde_json::Map::insert` with a string for the value: the object then
/// holds `value` under `key`, whether or not it held something under that key
/// before, and its other members are untouched.
#[verifier::external_body]
fn set_text_member(object: &mut JsonObject, key: String, value: String)
    ensures
        text_members(*final(object)) == text_members(*old(object)).insert(key@, value@),
        member_keys(*final(object)) == member_keys(*old(object)).insert(key@),
{
    object.insert(key, serde_json::Value::String(value));
}

/// One row of metadata.
#[derive(Debug, PartialEq, Eq)]
pub struct MetadataRow {
    pub meta_key: String,
    pub meta_value: String,
}

/// Mathematical value of a row that may have failed to be read: its key and
/// value, or nothing.
pub open spec fn row_model(row: Option<MetadataRow>) -> Option<(Seq<char>, Seq<char>)> {
    match row {
        Some(read) => Some((read.meta_key@, read.meta_value@)),
        None => None,
    }
}

/// Mathematical values of a list of rows, in the same order.
pub open spec fn row_models(rows: Seq<Option<MetadataRow>>) -> Seq<Option<(Seq<char>, Seq<char>)>> {
    Seq::new(rows.len(), |i: int| row_model(rows[i]))
}

/// The metadata that a list of rows amounts to: each row that was read sets
/// its key to its value, a later row overriding an earlier one with the same
/// key; rows that could not be read do not count.
pub open spec fn collected(rows: Seq<Option<(Seq<char>, Seq<char>)>>) -> Map<Seq<char>, Seq<char>>
    decreases rows.len(),
{
    if rows.len() == 0 {
        Map::empty()
    } else {
        let front = collected(rows.drop_last());
        match rows.last() {
            Some((key, value)) => front.insert(key, value),
            None => front,
        }
    }
}

/// The metadata of a document as the editor receives it. A document that does
/// not exist, or a store that has no metadata yet, gives an object without
/// members. Otherwise the object holds one member for each key among the
/// rows that were read, with the value of the last such row. Every member
/// holds a string.
pub fn get_activity_metadata(
    activity_exists: bool,
    table_exists: bool,
    rows: Vec<Option<MetadataRow>>,
) -> (object: JsonObject)
    ensures
        text_members(object) == if activity_exists && table_exists {
            collected(row_models(rows@))
        } else {
            no_members()
        },
        member_keys(object) == text_members(object).dom(),
{
    let mut object = empty_object();
    assert(member_keys(object) =~= text_members(object).dom());
    if !activity_exists || !table_exists {
        return object;
    }
    let ghost all = row_models(rows@);
    let n: usize = rows.len();
    let mut rest = rows;
    let mut reversed: Vec<Option<MetadataRow>> = Vec::new();
    let mut i: usize = 0;
    while i < n
        invariant
            i <= n,
            all.len() == n,
            rest@.len() == n - i,
            reversed@.len() == i,
            forall|j: int| 0 <= j < n - i ==> row_model(#[trigger] rest@[j]) == all[j],
            forall|j: int| 0 <= j < i ==> row_model(#[trigger] reversed@[j]) == all[n - 1 - j],
        decreases n - i,
    {
        let row = rest.pop().unwrap();
        reversed.push(row);
        i = i + 1;
    }
    let mut done: usize = 0;
    proof {
        assert(all.subrange(0, 0) =~= Seq::<Option<(Seq<char>, Seq<char>)>>::empty());
    }
    while done < n
        invariant
            done <= n,
            all.len() == n,
            all == row_models(rows@),
            reversed@.len() == n - done,
            forall|j: int|
                0 <= j < n - done ==> row_model(#[trigger] reversed@[j]) == all[n - 1 - j],
            text_members(object) == collected(all.subrange(0, done as int)),
            member_keys(object) == text_members(object).dom(),
        decreases n - done,
    {
        let row = reversed.pop().unwrap();
        let ghost next = all.subrange(0, done + 1);
        proof {
            assert(row_model(row) == all[done as int]);
            assert(next.drop_last() =~= all.subrange(0, done as int));
            assert(next.last() == all[done as int]);
        }
        match row {
            Some(read) => {
                let MetadataRow { meta_key, meta_value } = read;
                set_text_member(&mut object, meta_key, meta_value);
                assert(member_keys(object) =~= text_members(object).dom());
            },
            None => {},
        }
        done = done + 1;
    }
    proof {
        assert(all.subrange(0, n as int) =~= all);
    }
    object
}

/// Whether row `i` was read and carries `key`.
pub open spec fn carries(rows: Seq<Option<(Seq<char>, Seq<char>)>>, i: int, key: Seq<char>) -> bool {
    0 <= i < rows.len() && (rows[i] matches Some(pair) && pair.0 == key)
}

/// A key is in the collected metadata exactly when some row that was read
/// carries it.
pub proof fn lemma_collected_keys(rows: Seq<Option<(Seq<char>, Seq<char>)>>, key: Seq<char>)
    ensures
        collected(rows).dom().contains(key) <==> exists|i: int| #[trigger] carries(rows, i, key),
    decreases rows.len(),
{
    if rows.len() > 0 {
        let front = rows.drop_last();
        let last = rows.len() - 1;
        lemma_collected_keys(front, key);
        if collected(rows).dom().contains(key) {
            if !carries(rows, last, key) {
                assert(collected(front).dom().contains(key));
                let i = choose|i: int| #[trigger] carries(front, i, key);
                assert(front[i] == rows[i]);
                assert(carries(rows, i, key));
            }
        }
        if exists|i: int| #[trigger] carries(rows, i, key) {
            let i = choose|i: int| #[trigger] carries(rows, i, key);
            if i < last {
                assert(front[i] == rows[i]);
                assert(carries(front, i, key));
            }
        }
    }
}

/// The value under a key in the collected metadata is that of the last row
/// that carries the key.
pub proof fn lemma_collected_holds_last_value(
    rows: Seq<Option<(Seq<char>, Seq<char>)>>,
    key: Seq<char>,
    i: int,
)
    requires
        carries(rows, i, key),
        forall|j: int| i < j < rows.len() ==> !carries(rows, j, key),
    ensures
        collected(rows).dom().contains(key),
        collected(rows)[key] == (rows[i]->0).1,
    decreases rows.len(),
{
    let front = rows.drop_last();
    let last = rows.len() - 1;
    if i < last {
        assert(!carries(rows, last, key));
        assert(front[i] == rows[i]);
        assert forall|j: int| i < j < front.len() implies !carries(front, j, key) by {
            assert(front[j] == rows[j]);
            assert(!carries(rows, j, key));
        }
        lemma_collected_holds_last_value(front, key, i);
    }
}

} // verus!
