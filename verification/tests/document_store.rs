use rlox::compiler::number_lexemes;
use rlox::document_store::{DocumentStore, TextChange};
use rlox::documents::{
    DocumentContent, OpenDocument, Published, MAX_OPEN_DOCUMENTS, MAX_URI_BYTES,
};
use rlox::{RevisionId, SourceDocument, SourceId, MAX_ANALYSIS_SOURCE_BYTES};

fn uri(index: usize) -> String {
    format!("file:///state/{index}.lox")
}

fn numbers(text: &str) -> Vec<u64> {
    let document = SourceDocument::new(SourceId(0), RevisionId(0), "", text);
    number_lexemes(&document)
        .iter()
        .map(|lexeme| lexeme.parse::<f64>().unwrap().to_bits())
        .collect()
}

fn open_uri(store: &mut DocumentStore, uri: &str, version: i32, text: &str) -> Option<Published> {
    store.open(uri, version, text, &numbers(text))
}

fn open(store: &mut DocumentStore, index: usize, version: i32, text: &str) -> Option<Published> {
    open_uri(store, &uri(index), version, text)
}

fn change(
    store: &mut DocumentStore,
    index: usize,
    version: i32,
    changes: Vec<TextChange>,
) -> Option<Published> {
    let numbers = match changes.first() {
        Some(change) => numbers(&change.text),
        None => Vec::new(),
    };
    store.change(&uri(index), version, &changes, &numbers)
}

fn full(text: &str) -> TextChange {
    TextChange {
        ranged: false,
        text: text.to_string(),
    }
}

fn document(store: &DocumentStore, index: usize) -> &OpenDocument {
    &store.documents[store.find(&uri(index)).unwrap()]
}

#[test]
fn ids_advance_only_for_accepted_revisions_and_reopen_gets_a_fresh_source() {
    let mut store = DocumentStore::new(false);
    assert!(open(&mut store, 0, 1, "var value = 1;").is_some());
    let first = document(&store, 0);
    assert_eq!(first.source_id.0, 1);
    assert_eq!(first.revision.0, 1);
    assert_eq!((store.next_source_id, store.next_revision), (2, 2));

    assert!(open(&mut store, 0, 9, "").is_none());
    assert!(change(&mut store, 0, 1, vec![full("stale")]).is_none());
    assert!(change(&mut store, 0, 2, Vec::new()).is_none());
    assert!(change(&mut store, 0, 2, vec![full("one"), full("two")]).is_none());
    assert!(change(&mut store, 1, 2, vec![full("missing")]).is_none());
    assert_eq!((store.next_source_id, store.next_revision), (2, 2));

    assert!(change(&mut store, 0, 2, vec![full("var updated = 2;")]).is_some());
    let changed = document(&store, 0);
    assert_eq!(changed.source_id.0, 1);
    assert_eq!(changed.revision.0, 2);

    assert!(store.close(&uri(0)).is_some());
    assert!(open(&mut store, 0, 1, "").is_some());
    let reopened = document(&store, 0);
    assert_eq!(reopened.source_id.0, 2);
    assert_eq!(reopened.revision.0, 3);
}

#[test]
fn oversized_sentinel_drops_content_and_a_newer_bounded_change_recovers() {
    let mut store = DocumentStore::new(false);
    assert!(open(&mut store, 0, 1, &"x".repeat(MAX_ANALYSIS_SOURCE_BYTES + 1)).is_some());
    let oversized = document(&store, 0);
    assert!(matches!(oversized.content, DocumentContent::Oversized(_)));
    assert_eq!(oversized.version, 1);
    assert_eq!(oversized.source_id.0, 1);
    assert_eq!(oversized.revision.0, 1);

    assert!(change(&mut store, 0, 2, vec![full("var recovered = 1;")]).is_some());
    let recovered = document(&store, 0);
    assert!(matches!(recovered.content, DocumentContent::Ready(_)));
    assert_eq!(recovered.source_id.0, 1);
    assert_eq!(recovered.revision.0, 2);
}

#[test]
fn rejected_capacity_open_consumes_no_identity() {
    let mut store = DocumentStore::new(false);
    for index in 0..MAX_OPEN_DOCUMENTS {
        assert!(open(&mut store, index, 1, "").is_some());
    }
    let counters = (store.next_source_id, store.next_revision);
    assert!(open(&mut store, MAX_OPEN_DOCUMENTS, 1, "").is_none());
    assert_eq!((store.next_source_id, store.next_revision), counters);
}

#[test]
fn open_identity_allocation_is_atomic_at_counter_exhaustion() {
    let mut store = DocumentStore::new(false);
    store.next_source_id = 7;
    store.next_revision = u64::MAX;

    assert!(open(&mut store, 0, 1, "").is_none());
    assert_eq!((store.next_source_id, store.next_revision), (7, u64::MAX));
    assert!(store.documents.is_empty());
}

#[test]
fn over_cap_uri_is_rejected_before_identity_allocation() {
    let oversized_uri = format!("untitled:{}", "x".repeat(MAX_URI_BYTES));
    assert!(oversized_uri.len() > MAX_URI_BYTES);
    let mut store = DocumentStore::new(false);

    assert!(open_uri(&mut store, &oversized_uri, 1, "").is_none());
    assert_eq!((store.next_source_id, store.next_revision), (1, 1));
    assert!(store.documents.is_empty());

    assert!(open_uri(&mut store, "untitled:oxide-buffer", 1, "").is_some());
    assert!(open(&mut store, 0, 1, "").is_some());
    let accepted_state = (
        store.documents.len(),
        store.next_source_id,
        store.next_revision,
    );

    assert!(
        store
            .change(&oversized_uri, 2, &vec![full("ignored")], &Vec::new())
            .is_none()
    );
    assert!(store.close(&oversized_uri).is_none());
    assert_eq!(
        (
            store.documents.len(),
            store.next_source_id,
            store.next_revision,
        ),
        accepted_state
    );
}
