use heelix::embedding::EmbedError;
use heelix::handle::IndexHandle;
use heelix::index::Hit;
use heelix::orchestrator::{Outcome, SkipReason, Step, Vectorization, VectorizationSettings};
use heelix::retrieval::{assemble, find_candidates, prune_missing, Lookup, RetrievalError, RetrievedItem};
use heelix::tag::{RecordKind, Tag};

/// A store held in memory: text and flag of each record.
struct Store {
    records: Vec<(Tag, String, bool)>,
    refuse_flag_updates: bool,
}

impl Store {
    fn new() -> Store {
        Store { records: Vec::new(), refuse_flag_updates: false }
    }

    fn write_text(&mut self, tag: Tag, text: &str) -> bool {
        for record in self.records.iter_mut() {
            if record.0 == tag {
                record.1 = text.to_string();
                return record.2;
            }
        }
        self.records.push((tag, text.to_string(), false));
        false
    }

    fn set_flag(&mut self, tag: Tag) -> bool {
        if self.refuse_flag_updates {
            return false;
        }
        for record in self.records.iter_mut() {
            if record.0 == tag {
                record.2 = true;
                return true;
            }
        }
        false
    }

    fn get_flag(&self, tag: Tag) -> bool {
        self.records.iter().any(|record| record.0 == tag && record.2)
    }

    fn get_text(&self, tag: Tag) -> Option<String> {
        self.records.iter().find(|record| record.0 == tag).map(|record| record.1.clone())
    }

    fn delete(&mut self, tag: Tag) {
        self.records.retain(|record| record.0 != tag);
    }
}

/// An embedding client with fixed answers: counts of two letters.
struct Embedder {
    calls: usize,
    fail_with: Option<EmbedError>,
}

impl Embedder {
    fn embed(&mut self, text: &str) -> Result<Vec<i32>, EmbedError> {
        self.calls += 1;
        if let Some(error) = self.fail_with {
            return Err(error);
        }
        let a = text.chars().filter(|c| *c == 'a').count() as i32;
        let b = text.chars().filter(|c| *c == 'b').count() as i32;
        Ok(vec![a, b])
    }
}

fn on() -> VectorizationSettings {
    VectorizationSettings::new(true, "sk-test".to_string())
}

/// Runs one pass the way a caller does: carries out each step and reports back.
fn edit(
    store: &mut Store,
    embedder: &mut Embedder,
    handle: &mut IndexHandle,
    settings: &VectorizationSettings,
    tag: Tag,
    text: &str,
) -> Outcome {
    let mut pass = Vectorization::begin(tag);
    let mut step = pass.pending();
    loop {
        step = match step {
            Step::PersistText => {
                let flag = store.write_text(tag, text);
                pass.text_persisted(text, flag, settings)
            }
            Step::RequestEmbedding => {
                let embedding = embedder.embed(text);
                pass.embedding_arrived(handle, embedding)
            }
            Step::MarkVectorized => {
                let stored = store.set_flag(tag);
                pass.flag_updated(stored)
            }
            Step::Done(outcome) => return outcome,
        };
    }
}

fn retrieve(
    store: &Store,
    embedder: &mut Embedder,
    handle: &IndexHandle,
    query: &str,
    k: usize,
) -> Result<Vec<RetrievedItem>, RetrievalError> {
    let hits = find_candidates(handle, embedder.embed(query), k)?;
    let lookups = hits
        .into_iter()
        .map(|hit| Lookup { hit, text: store.get_text(hit.tag) })
        .collect();
    Ok(assemble(lookups))
}

fn long_text(letter: char) -> String {
    letter.to_string().repeat(250)
}

#[test]
fn capture_is_indexed_and_found_again() {
    let mut store = Store::new();
    let mut embedder = Embedder { calls: 0, fail_with: None };
    let mut handle = IndexHandle::new();
    assert!(handle.initialize(2));

    let tag = Tag::activity(1);
    let text = long_text('a');
    assert_eq!(edit(&mut store, &mut embedder, &mut handle, &on(), tag, &text), Outcome::Indexed);
    assert!(store.get_flag(tag));
    assert_eq!(handle.len(), 1);
    assert!(handle.contains(tag));

    let items = retrieve(&store, &mut embedder, &handle, "related topic", 5).unwrap();
    assert_eq!(
        items,
        vec![RetrievedItem { kind: RecordKind::Activity, id: 1, text: text.clone(), score: 250 }]
    );
}

#[test]
fn text_is_written_even_when_nothing_is_indexed() {
    let mut store = Store::new();
    let mut embedder = Embedder { calls: 0, fail_with: None };
    let mut handle = IndexHandle::new();
    assert!(handle.initialize(2));
    let off = VectorizationSettings::new(false, "sk-test".to_string());
    let keyless = VectorizationSettings::new(true, String::new());

    let tag = Tag::document(4);
    assert_eq!(
        edit(&mut store, &mut embedder, &mut handle, &on(), tag, "short"),
        Outcome::Skipped(SkipReason::TextTooShort)
    );
    assert_eq!(store.get_text(tag), Some("short".to_string()));
    assert_eq!(
        edit(&mut store, &mut embedder, &mut handle, &off, tag, &long_text('a')),
        Outcome::Skipped(SkipReason::Disabled)
    );
    assert_eq!(store.get_text(tag), Some(long_text('a')));
    assert_eq!(
        edit(&mut store, &mut embedder, &mut handle, &keyless, tag, &long_text('b')),
        Outcome::Skipped(SkipReason::NoCredential)
    );
    assert_eq!(store.get_text(tag), Some(long_text('b')));
    assert_eq!(embedder.calls, 0);
    assert_eq!(handle.len(), 0);
    assert!(!store.get_flag(tag));
}

#[test]
fn flagged_record_is_not_embedded_a_second_time() {
    let mut store = Store::new();
    let mut embedder = Embedder { calls: 0, fail_with: None };
    let mut handle = IndexHandle::new();
    assert!(handle.initialize(2));
    let tag = Tag::document(4);

    assert_eq!(edit(&mut store, &mut embedder, &mut handle, &on(), tag, &long_text('a')), Outcome::Indexed);
    assert_eq!(embedder.calls, 1);
    assert_eq!(
        edit(&mut store, &mut embedder, &mut handle, &on(), tag, &long_text('b')),
        Outcome::Skipped(SkipReason::AlreadyVectorized)
    );
    assert_eq!(embedder.calls, 1);
    // The text is current, the entry is the one from the first edit.
    assert_eq!(store.get_text(tag), Some(long_text('b')));
    assert_eq!(handle.snapshot()[0].vector, vec![250, 0]);
}

#[test]
fn failed_embedding_is_tried_again_on_the_next_edit() {
    let mut store = Store::new();
    let mut embedder = Embedder { calls: 0, fail_with: Some(EmbedError::Network) };
    let mut handle = IndexHandle::new();
    assert!(handle.initialize(2));
    let tag = Tag::document(4);

    assert_eq!(
        edit(&mut store, &mut embedder, &mut handle, &on(), tag, &long_text('a')),
        Outcome::EmbeddingFailed(EmbedError::Network)
    );
    assert!(!store.get_flag(tag));
    assert!(!handle.contains(tag));
    assert_eq!(store.get_text(tag), Some(long_text('a')));

    embedder.fail_with = None;
    assert_eq!(edit(&mut store, &mut embedder, &mut handle, &on(), tag, &long_text('a')), Outcome::Indexed);
    assert!(store.get_flag(tag));
    assert!(handle.contains(tag));
    assert_eq!(embedder.calls, 2);
}

#[test]
fn stale_flag_heals_on_the_next_edit() {
    let mut store = Store::new();
    let mut embedder = Embedder { calls: 0, fail_with: None };
    let mut handle = IndexHandle::new();
    assert!(handle.initialize(2));
    let tag = Tag::document(4);

    store.refuse_flag_updates = true;
    assert_eq!(
        edit(&mut store, &mut embedder, &mut handle, &on(), tag, &long_text('a')),
        Outcome::IndexedFlagStale
    );
    assert!(!store.get_flag(tag));
    assert!(handle.contains(tag));

    store.refuse_flag_updates = false;
    assert_eq!(edit(&mut store, &mut embedder, &mut handle, &on(), tag, &long_text('b')), Outcome::Indexed);
    assert!(store.get_flag(tag));
    assert_eq!(handle.len(), 1);
    assert_eq!(handle.snapshot()[0].vector, vec![0, 250]);
}

#[test]
fn activity_and_document_with_one_identifier_are_told_apart() {
    let mut store = Store::new();
    let mut embedder = Embedder { calls: 0, fail_with: None };
    let mut handle = IndexHandle::new();
    assert!(handle.initialize(2));

    assert_eq!(
        edit(&mut store, &mut embedder, &mut handle, &on(), Tag::activity(7), &long_text('a')),
        Outcome::Indexed
    );
    assert_eq!(
        edit(&mut store, &mut embedder, &mut handle, &on(), Tag::document(7), &long_text('b')),
        Outcome::Indexed
    );
    assert_eq!(handle.len(), 2);

    let items = retrieve(&store, &mut embedder, &handle, "bbb", 2).unwrap();
    assert_eq!(
        items,
        vec![
            RetrievedItem { kind: RecordKind::Document, id: 7, text: long_text('b'), score: 750 },
            RetrievedItem { kind: RecordKind::Activity, id: 7, text: long_text('a'), score: 0 },
        ]
    );
    let items = retrieve(&store, &mut embedder, &handle, "a", 1).unwrap();
    assert_eq!(
        items,
        vec![RetrievedItem { kind: RecordKind::Activity, id: 7, text: long_text('a'), score: 250 }]
    );
}

#[test]
fn deleted_record_is_left_out_of_retrieval() {
    let mut store = Store::new();
    let mut embedder = Embedder { calls: 0, fail_with: None };
    let mut handle = IndexHandle::new();
    assert!(handle.initialize(2));
    for id in 1..=3 {
        assert_eq!(
            edit(&mut store, &mut embedder, &mut handle, &on(), Tag::document(id), &long_text('a')),
            Outcome::Indexed
        );
    }
    store.delete(Tag::document(2));

    let items = retrieve(&store, &mut embedder, &handle, "a", 3).unwrap();
    assert_eq!(
        items,
        vec![
            RetrievedItem { kind: RecordKind::Document, id: 1, text: long_text('a'), score: 250 },
            RetrievedItem { kind: RecordKind::Document, id: 3, text: long_text('a'), score: 250 },
        ]
    );
    // The entry is still in the index until it is pruned.
    assert_eq!(handle.len(), 3);
}

#[test]
fn pruning_removes_the_entries_of_deleted_records() {
    let mut handle = IndexHandle::new();
    assert!(handle.initialize(1));
    for id in 1..=3 {
        assert_eq!(handle.insert(Tag::document(id), vec![1]), Ok(()));
    }
    let lookups = vec![
        Lookup { hit: Hit { tag: Tag::document(1), score: 1 }, text: Some("one".to_string()) },
        Lookup { hit: Hit { tag: Tag::document(2), score: 1 }, text: None },
        Lookup { hit: Hit { tag: Tag::document(3), score: 1 }, text: None },
    ];
    prune_missing(&mut handle, &lookups);
    assert_eq!(handle.len(), 1);
    assert!(handle.contains(Tag::document(1)));
    assert!(!handle.contains(Tag::document(2)));
    assert!(!handle.contains(Tag::document(3)));

    let mut missing = IndexHandle::new();
    prune_missing(&mut missing, &lookups);
    assert!(!missing.is_initialized());
}

#[test]
fn retrieval_without_embedding_is_unavailable() {
    let mut handle = IndexHandle::new();
    assert!(handle.initialize(2));
    assert_eq!(handle.insert(Tag::document(1), vec![1, 1]), Ok(()));
    for error in [EmbedError::Network, EmbedError::AuthRejected, EmbedError::MalformedResponse] {
        assert_eq!(find_candidates(&handle, Err(error), 3), Err(RetrievalError::EmbeddingUnavailable));
    }
}

#[test]
fn retrieval_from_missing_or_empty_index_is_empty() {
    let missing = IndexHandle::new();
    assert_eq!(find_candidates(&missing, Ok(vec![1, 2]), 3), Ok(vec![]));
    let mut empty = IndexHandle::new();
    assert!(empty.initialize(2));
    assert_eq!(find_candidates(&empty, Ok(vec![1, 2]), 3), Ok(vec![]));
    assert_eq!(find_candidates(&empty, Ok(vec![1, 2, 3]), 3), Ok(vec![]));
}

#[test]
fn retrieval_with_wrong_dimension_is_corrupt() {
    let mut handle = IndexHandle::new();
    assert!(handle.initialize(2));
    assert_eq!(handle.insert(Tag::document(1), vec![1, 1]), Ok(()));
    assert_eq!(find_candidates(&handle, Ok(vec![1, 2, 3]), 3), Err(RetrievalError::IndexCorrupt));
}

#[test]
fn retrieval_returns_hits_in_the_order_of_the_index() {
    let mut handle = IndexHandle::new();
    assert!(handle.initialize(2));
    assert_eq!(handle.insert(Tag::document(1), vec![1, 0]), Ok(()));
    assert_eq!(handle.insert(Tag::activity(1), vec![5, 0]), Ok(()));
    assert_eq!(handle.insert(Tag::document(2), vec![3, 0]), Ok(()));
    assert_eq!(
        find_candidates(&handle, Ok(vec![1, 0]), 2),
        Ok(vec![
            Hit { tag: Tag::activity(1), score: 5 },
            Hit { tag: Tag::document(2), score: 3 },
        ])
    );
}

#[test]
fn assemble_keeps_order_and_scores() {
    let lookups = vec![
        Lookup { hit: Hit { tag: Tag::activity(9), score: 30 }, text: Some("first".to_string()) },
        Lookup { hit: Hit { tag: Tag::document(9), score: 20 }, text: None },
        Lookup { hit: Hit { tag: Tag::document(3), score: -5 }, text: Some(String::new()) },
    ];
    assert_eq!(
        assemble(lookups),
        vec![
            RetrievedItem { kind: RecordKind::Activity, id: 9, text: "first".to_string(), score: 30 },
            RetrievedItem { kind: RecordKind::Document, id: 3, text: String::new(), score: -5 },
        ]
    );
    assert_eq!(assemble(vec![]), vec![]);
    assert_eq!(
        assemble(vec![Lookup { hit: Hit { tag: Tag::document(9), score: 20 }, text: None }]),
        vec![]
    );
}

#[test]
fn many_edits_of_different_records_all_arrive() {
    let mut store = Store::new();
    let mut embedder = Embedder { calls: 0, fail_with: None };
    let mut handle = IndexHandle::new();
    assert!(handle.initialize(2));
    let n: i64 = 40;
    // Writers are admitted one at a time; here in an order that is not that of
    // the identifiers.
    for step in 0..n {
        let id = (step * 7) % n;
        let text = format!("{}{}", "a".repeat(201 + id as usize), "b".repeat(id as usize));
        assert_eq!(
            edit(&mut store, &mut embedder, &mut handle, &on(), Tag::activity(id), &text),
            Outcome::Indexed
        );
    }
    assert_eq!(handle.len(), n as usize);
    let written = handle.snapshot();
    for id in 0..n {
        let entry = written.iter().find(|entry| entry.tag == Tag::activity(id)).unwrap();
        assert_eq!(entry.vector, vec![201 + id as i32, id as i32]);
        assert!(store.get_flag(Tag::activity(id)));
    }
}
