use heelix::handle::IndexHandle;
use heelix::index::{copy_vector, Hit, IndexEntry, IndexError, VectorIndex};
use heelix::similarity::similarity;
use heelix::tag::{RecordKind, Tag};

fn hit(tag: Tag, score: i128) -> Hit {
    Hit { tag, score }
}

#[test]
fn tags_name_kind_and_identifier() {
    assert_eq!(Tag::activity(7), Tag { kind: RecordKind::Activity, id: 7 });
    assert_eq!(Tag::document(7), Tag { kind: RecordKind::Document, id: 7 });
    assert!(Tag::activity(7).same_record(&Tag::activity(7)));
    assert!(!Tag::activity(7).same_record(&Tag::document(7)));
    assert!(!Tag::activity(7).same_record(&Tag::activity(8)));
}

#[test]
fn similarity_is_the_inner_product() {
    assert_eq!(similarity(&vec![1, 2, 3], &vec![4, -5, 6]), 4 - 10 + 18);
    assert_eq!(similarity(&vec![], &vec![]), 0);
    assert_eq!(similarity(&vec![-3], &vec![-3]), 9);
}

#[test]
fn similarity_of_extreme_components_does_not_overflow() {
    let low = i32::MIN;
    let high = i32::MAX;
    assert_eq!(similarity(&vec![low, low], &vec![low, low]), 2 * (1i128 << 62));
    assert_eq!(
        similarity(&vec![low, high], &vec![high, high]),
        (low as i128) * (high as i128) + (high as i128) * (high as i128)
    );
}

#[test]
fn search_ranks_by_similarity_and_breaks_ties_by_insertion_order() {
    let mut index = VectorIndex::new(2);
    assert_eq!(index.insert(Tag::activity(1), vec![1, 0]), Ok(()));
    assert_eq!(index.insert(Tag::document(1), vec![0, 1]), Ok(()));
    assert_eq!(index.insert(Tag::activity(2), vec![3, 0]), Ok(()));
    assert_eq!(index.insert(Tag::document(2), vec![1, 5]), Ok(()));
    let hits = index.search(&vec![1, 0], 3).unwrap();
    assert_eq!(
        hits,
        vec![
            hit(Tag::activity(2), 3),
            hit(Tag::activity(1), 1),
            hit(Tag::document(2), 1),
        ]
    );
}

#[test]
fn search_returns_at_most_k_and_all_when_k_is_larger() {
    let mut index = VectorIndex::new(1);
    for id in 0..5 {
        assert_eq!(index.insert(Tag::document(id), vec![id as i32]), Ok(()));
    }
    assert_eq!(index.search(&vec![1], 0).unwrap(), vec![]);
    assert_eq!(
        index.search(&vec![1], 2).unwrap(),
        vec![hit(Tag::document(4), 4), hit(Tag::document(3), 3)]
    );
    let all = index.search(&vec![1], 50).unwrap();
    assert_eq!(
        all,
        vec![
            hit(Tag::document(4), 4),
            hit(Tag::document(3), 3),
            hit(Tag::document(2), 2),
            hit(Tag::document(1), 1),
            hit(Tag::document(0), 0),
        ]
    );
}

#[test]
fn search_keeps_insertion_order_among_equal_scores() {
    let mut index = VectorIndex::new(2);
    for id in 0..6 {
        assert_eq!(index.insert(Tag::activity(id), vec![2, (id % 2) as i32]), Ok(()));
    }
    let hits = index.search(&vec![1, 0], 4).unwrap();
    assert_eq!(
        hits,
        vec![
            hit(Tag::activity(0), 2),
            hit(Tag::activity(1), 2),
            hit(Tag::activity(2), 2),
            hit(Tag::activity(3), 2),
        ]
    );
    let hits = index.search(&vec![0, 1], 4).unwrap();
    assert_eq!(
        hits,
        vec![
            hit(Tag::activity(1), 1),
            hit(Tag::activity(3), 1),
            hit(Tag::activity(5), 1),
            hit(Tag::activity(0), 0),
        ]
    );
}

#[test]
fn search_with_negative_scores() {
    let mut index = VectorIndex::new(2);
    assert_eq!(index.insert(Tag::document(1), vec![-4, 0]), Ok(()));
    assert_eq!(index.insert(Tag::document(2), vec![-1, 0]), Ok(()));
    assert_eq!(index.insert(Tag::document(3), vec![-9, 0]), Ok(()));
    assert_eq!(
        index.search(&vec![2, 7], 2).unwrap(),
        vec![hit(Tag::document(2), -2), hit(Tag::document(1), -8)]
    );
}

#[test]
fn empty_index_answers_with_no_hits_whatever_the_query() {
    let index = VectorIndex::new(3);
    assert_eq!(index.search(&vec![1, 2, 3], 5), Ok(vec![]));
    assert_eq!(index.search(&vec![1], 5), Ok(vec![]));
    assert!(index.is_empty());
    assert_eq!(index.len(), 0);
    assert_eq!(index.dimension(), 3);
}

#[test]
fn query_of_another_dimension_is_corrupt() {
    let mut index = VectorIndex::new(2);
    assert_eq!(index.insert(Tag::activity(1), vec![1, 0]), Ok(()));
    assert_eq!(index.search(&vec![1, 0, 0], 3), Err(IndexError::Corrupt));
    assert_eq!(index.search(&vec![], 3), Err(IndexError::Corrupt));
}

#[test]
fn insert_of_another_dimension_is_corrupt_and_changes_nothing() {
    let mut index = VectorIndex::new(2);
    assert_eq!(index.insert(Tag::activity(1), vec![1, 0]), Ok(()));
    assert_eq!(index.insert(Tag::activity(2), vec![1, 0, 0]), Err(IndexError::Corrupt));
    assert_eq!(index.insert(Tag::activity(1), vec![9]), Err(IndexError::Corrupt));
    assert_eq!(index.len(), 1);
    assert_eq!(index.get(Tag::activity(1)), Some(&vec![1, 0]));
    assert!(!index.contains(Tag::activity(2)));
}

#[test]
fn insert_replaces_in_place() {
    let mut index = VectorIndex::new(1);
    assert_eq!(index.insert(Tag::document(1), vec![5]), Ok(()));
    assert_eq!(index.insert(Tag::document(2), vec![5]), Ok(()));
    assert_eq!(index.insert(Tag::document(1), vec![5]), Ok(()));
    assert_eq!(index.len(), 2);
    // The replaced entry keeps its place, so it still wins the tie.
    assert_eq!(
        index.search(&vec![1], 2).unwrap(),
        vec![hit(Tag::document(1), 5), hit(Tag::document(2), 5)]
    );
    assert_eq!(index.insert(Tag::document(1), vec![3]), Ok(()));
    assert_eq!(index.get(Tag::document(1)), Some(&vec![3]));
    assert_eq!(
        index.search(&vec![1], 2).unwrap(),
        vec![hit(Tag::document(2), 5), hit(Tag::document(1), 3)]
    );
}

#[test]
fn inserting_twice_is_the_same_as_inserting_once() {
    let mut once = VectorIndex::new(2);
    let mut twice = VectorIndex::new(2);
    for index in [&mut once, &mut twice] {
        assert_eq!(index.insert(Tag::activity(1), vec![1, 1]), Ok(()));
        assert_eq!(index.insert(Tag::document(9), vec![2, -1]), Ok(()));
    }
    assert_eq!(twice.insert(Tag::document(9), vec![2, -1]), Ok(()));
    assert_eq!(once.len(), twice.len());
    for query in [vec![1, 0], vec![0, 1], vec![-3, 4]] {
        assert_eq!(once.search(&query, 5), twice.search(&query, 5));
    }
    assert_eq!(once.snapshot(), twice.snapshot());
}

#[test]
fn activity_and_document_with_one_identifier_are_two_entries() {
    let mut index = VectorIndex::new(2);
    assert_eq!(index.insert(Tag::activity(42), vec![1, 0]), Ok(()));
    assert_eq!(index.insert(Tag::document(42), vec![0, 1]), Ok(()));
    assert_eq!(index.len(), 2);
    assert_eq!(index.get(Tag::activity(42)), Some(&vec![1, 0]));
    assert_eq!(index.get(Tag::document(42)), Some(&vec![0, 1]));
    assert_eq!(
        index.search(&vec![0, 1], 1).unwrap(),
        vec![hit(Tag::document(42), 1)]
    );
    assert_eq!(
        index.search(&vec![1, 0], 1).unwrap(),
        vec![hit(Tag::activity(42), 1)]
    );
}

#[test]
fn remove_takes_one_entry_out_and_keeps_the_order_of_the_rest() {
    let mut index = VectorIndex::new(1);
    for id in 1..=4 {
        assert_eq!(index.insert(Tag::activity(id), vec![1]), Ok(()));
    }
    assert!(index.remove(Tag::activity(2)));
    assert!(!index.remove(Tag::activity(2)));
    assert!(!index.remove(Tag::document(1)));
    assert_eq!(index.len(), 3);
    assert_eq!(index.get(Tag::activity(2)), None);
    assert_eq!(
        index.search(&vec![1], 5).unwrap(),
        vec![
            hit(Tag::activity(1), 1),
            hit(Tag::activity(3), 1),
            hit(Tag::activity(4), 1),
        ]
    );
}

#[test]
fn snapshot_lists_entries_in_insertion_order() {
    let mut index = VectorIndex::new(2);
    assert_eq!(index.insert(Tag::document(2), vec![1, 2]), Ok(()));
    assert_eq!(index.insert(Tag::activity(1), vec![3, 4]), Ok(()));
    assert_eq!(
        index.snapshot(),
        vec![
            IndexEntry { tag: Tag::document(2), vector: vec![1, 2] },
            IndexEntry { tag: Tag::activity(1), vector: vec![3, 4] },
        ]
    );
    assert_eq!(copy_vector(&vec![7, 8, 9]), vec![7, 8, 9]);
}

#[test]
fn handle_without_index_is_unavailable() {
    let mut handle = IndexHandle::new();
    assert!(!handle.is_initialized());
    assert_eq!(handle.insert(Tag::activity(1), vec![1]), Err(IndexError::Unavailable));
    assert_eq!(handle.search(&vec![1], 3), Err(IndexError::Unavailable));
    assert_eq!(handle.len(), 0);
    assert!(!handle.contains(Tag::activity(1)));
    assert!(!handle.remove(Tag::activity(1)));
    assert_eq!(handle.snapshot(), vec![]);
}

#[test]
fn handle_is_set_up_once() {
    let mut handle = IndexHandle::new();
    assert!(handle.initialize(2));
    assert!(handle.is_initialized());
    assert_eq!(handle.insert(Tag::activity(1), vec![1, 2]), Ok(()));
    // A second set-up changes nothing, not even the dimension.
    assert!(!handle.initialize(5));
    assert_eq!(handle.initialize_from(5, vec![]), Ok(false));
    assert_eq!(handle.len(), 1);
    assert_eq!(handle.insert(Tag::activity(2), vec![1, 2, 3, 4, 5]), Err(IndexError::Corrupt));
    assert_eq!(handle.insert(Tag::activity(2), vec![3, 4]), Ok(()));
}

#[test]
fn handle_restores_what_a_snapshot_wrote() {
    let mut first = IndexHandle::new();
    assert!(first.initialize(2));
    assert_eq!(first.insert(Tag::activity(1), vec![1, 0]), Ok(()));
    assert_eq!(first.insert(Tag::document(1), vec![0, 1]), Ok(()));
    assert_eq!(first.insert(Tag::activity(1), vec![2, 0]), Ok(()));
    let written = first.snapshot();

    let mut second = IndexHandle::new();
    assert_eq!(second.initialize_from(2, written), Ok(true));
    assert_eq!(second.snapshot(), first.snapshot());
    assert_eq!(second.search(&vec![1, 1], 5), first.search(&vec![1, 1], 5));
}

#[test]
fn handle_refuses_corrupt_stored_state() {
    let mut handle = IndexHandle::new();
    let stored = vec![
        IndexEntry { tag: Tag::activity(1), vector: vec![1, 0] },
        IndexEntry { tag: Tag::activity(2), vector: vec![1] },
    ];
    assert_eq!(handle.initialize_from(2, stored), Err(IndexError::Corrupt));
    assert!(!handle.is_initialized());
}

#[test]
fn restoring_replays_insertions_so_a_later_entry_overrides() {
    let mut handle = IndexHandle::new();
    let stored = vec![
        IndexEntry { tag: Tag::activity(1), vector: vec![1] },
        IndexEntry { tag: Tag::activity(2), vector: vec![2] },
        IndexEntry { tag: Tag::activity(1), vector: vec![3] },
    ];
    assert_eq!(handle.initialize_from(1, stored), Ok(true));
    assert_eq!(
        handle.snapshot(),
        vec![
            IndexEntry { tag: Tag::activity(1), vector: vec![3] },
            IndexEntry { tag: Tag::activity(2), vector: vec![2] },
        ]
    );
}

#[test]
fn entries_inserted_in_any_order_are_all_there() {
    // Every order in which three writers may be admitted.
    let orders: [[i64; 3]; 6] = [[1, 2, 3], [1, 3, 2], [2, 1, 3], [2, 3, 1], [3, 1, 2], [3, 2, 1]];
    for order in orders {
        let mut handle = IndexHandle::new();
        assert!(handle.initialize(3));
        for id in order {
            let vector = vec![id as i32, 10 * id as i32, 100 * id as i32];
            assert_eq!(handle.insert(Tag::document(id), vector), Ok(()));
        }
        assert_eq!(handle.len(), 3);
        let mut written = handle.snapshot();
        written.sort_by_key(|entry| entry.tag.id);
        assert_eq!(
            written,
            vec![
                IndexEntry { tag: Tag::document(1), vector: vec![1, 10, 100] },
                IndexEntry { tag: Tag::document(2), vector: vec![2, 20, 200] },
                IndexEntry { tag: Tag::document(3), vector: vec![3, 30, 300] },
            ]
        );
    }
}
