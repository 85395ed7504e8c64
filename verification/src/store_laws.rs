//! What opening, changing and closing documents does to what is known of them.
use vstd::prelude::*;
use crate::document_store::{
    changed, closed, is_open, opened, place_of, DocumentStore, TextChange,
};
use crate::documents::{uri_fits, OpenDocument, Published};

verus! {

proof fn lemma_place_of(documents: Seq<OpenDocument>, uri: Seq<char>, i: int)
    requires
        0 <= i <= documents.len(),
    ensures
        i <= place_of(documents, uri, i) <= documents.len(),
        place_of(documents, uri, i) < documents.len() ==> documents[place_of(
            documents,
            uri,
            i,
        )].uri@ == uri,
        forall|j: int|
            i <= j < place_of(documents, uri, i) ==> (#[trigger] documents[j]).uri@ != uri,
    decreases documents.len() - i,
{
    if i < documents.len() && documents[i].uri@ != uri {
        lemma_place_of(documents, uri, i + 1);
    }
}

/// The document `i` is the open one of a name.
pub open spec fn is_the_document(store: DocumentStore, uri: Seq<char>, i: int) -> bool {
    0 <= i < store.documents@.len() && store.documents@[i].uri@ == uri
}

proof fn lemma_found(store: DocumentStore, uri: Seq<char>, i: int)
    requires
        is_the_document(store, uri, i),
        forall|j: int|
            0 <= j < i ==> (#[trigger] store.documents@[j]).uri@ != uri,
    ensures
        place_of(store.documents@, uri, 0) == i,
        is_open(store.documents@, uri),
{
    lemma_place_of(store.documents@, uri, 0);
    let place = place_of(store.documents@, uri, 0);
    if place < i {
        assert(store.documents@[place].uri@ != uri);
    }
    if i < place {
        assert(store.documents@[i].uri@ != uri);
    }
}

proof fn lemma_missing(store: DocumentStore, uri: Seq<char>)
    requires
        forall|j: int|
            0 <= j < store.documents@.len() ==> (#[trigger] store.documents@[j]).uri@ != uri,
    ensures
        !is_open(store.documents@, uri),
{
    lemma_place_of(store.documents@, uri, 0);
}

/// The tokens of a document are those of the open document of that name.
proof fn lemma_tokens(store: DocumentStore, uri: Seq<char>, i: int)
    requires
        is_the_document(store, uri, i),
        store.wf(),
    ensures
        uri_fits(uri) ==> store.tokens(uri) == store.documents@[i].tokens(),
        place_of(store.documents@, uri, 0) == i,
        is_open(store.documents@, uri),
{
    assert forall|j: int| 0 <= j < i implies (#[trigger] store.documents@[j]).uri@ != uri by {
        assert(store.documents@[j].uri@ != store.documents@[i].uri@);
    }
    lemma_found(store, uri, i);
}

/// A document that was opened is known by its text and version, and published
/// as that; nothing is changed of the others. A document cannot be opened twice.
pub proof fn law_opened_documents_are_known(
    before: DocumentStore,
    after: DocumentStore,
    uri: Seq<char>,
    version: i32,
    text: Seq<char>,
    numbers: Seq<u64>,
    published: Published,
    other: Seq<char>,
)
    requires
        before.wf(),
        after.wf(),
        opened(before, after, uri, version, text, numbers, Some(published)),
        other != uri,
    ensures
        !is_open(before.documents@, uri),
        is_open(after.documents@, uri),
        published.uri@ == uri,
        published.version == version,
        after.tokens(uri) == after.documents@.last().tokens(),
        after.tokens(other) == before.tokens(other),
        is_open(after.documents@, other) <==> is_open(before.documents@, other),
{
    let n = before.documents@.len() as int;
    assert(is_the_document(after, uri, n));
    lemma_tokens(after, uri, n);
    lemma_place_of(before.documents@, other, 0);
    let place = place_of(before.documents@, other, 0);
    if place < n {
        assert(after.documents@.drop_last()[place] == after.documents@[place]);
        lemma_tokens(after, other, place);
    } else {
        assert forall|j: int| 0 <= j < after.documents@.len() implies (
        #[trigger] after.documents@[j]).uri@ != other by {
            if j < n {
                assert(after.documents@.drop_last()[j] == after.documents@[j]);
                assert(before.documents@[j].uri@ != other);
            }
        }
        lemma_missing(after, other);
    }
}

/// A change makes a document newer, and nothing else: the version grows, and the
/// others stay.
pub proof fn law_changes_make_documents_newer(
    before: DocumentStore,
    after: DocumentStore,
    uri: Seq<char>,
    version: i32,
    changes: Seq<TextChange>,
    numbers: Seq<u64>,
    published: Published,
    i: int,
)
    requires
        before.wf(),
        after.wf(),
        changed(before, after, uri, version, changes, numbers, Some(published)),
        0 <= i < before.documents@.len(),
    ensures
        after.documents@.len() == before.documents@.len(),
        before.documents@[i].uri@ != uri ==> after.documents@[i] == before.documents@[i],
        before.documents@[i].uri@ == uri ==> {
            &&& after.documents@[i].uri@ == uri
            &&& after.documents@[i].version > before.documents@[i].version
            &&& after.documents@[i].version == version
            &&& published.version == version
            &&& published.uri@ == uri
        },
{
    lemma_place_of(before.documents@, uri, 0);
    let place = place_of(before.documents@, uri, 0);
    if before.documents@[i].uri@ == uri {
        lemma_tokens(before, uri, i);
    }
}

/// A change that is not newer than the document, that is only of a part of it,
/// or of a document that is not open, changes nothing.
pub proof fn law_other_changes_are_left_out(
    before: DocumentStore,
    after: DocumentStore,
    uri: Seq<char>,
    version: i32,
    changes: Seq<TextChange>,
    numbers: Seq<u64>,
    published: Option<Published>,
    i: int,
)
    requires
        before.wf(),
        changed(before, after, uri, version, changes, numbers, published),
        is_the_document(before, uri, i) && version <= before.documents@[i].version || changes.len()
            != 1 || changes[0].ranged || forall|j: int|
            0 <= j < before.documents@.len() ==> (#[trigger] before.documents@[j]).uri@ != uri,
    ensures
        after == before,
        published is None,
{
    if is_the_document(before, uri, i) {
        lemma_tokens(before, uri, i);
    } else if forall|j: int|
        0 <= j < before.documents@.len() ==> (#[trigger] before.documents@[j]).uri@ != uri {
        lemma_missing(before, uri);
    }
}

/// A document that was closed is not known any more, and its diagnostics are
/// taken back; the others stay.
pub proof fn law_closed_documents_are_forgotten(
    before: DocumentStore,
    after: DocumentStore,
    uri: Seq<char>,
    published: Published,
    other: Seq<char>,
)
    requires
        before.wf(),
        after.wf(),
        closed(before, after, uri, Some(published)),
        other != uri,
    ensures
        is_open(before.documents@, uri),
        !is_open(after.documents@, uri),
        after.tokens(uri).len() == 0,
        published.diagnostics@.len() == 0,
        published.uri@ == uri,
        after.tokens(other) == before.tokens(other),
{
    lemma_place_of(before.documents@, uri, 0);
    let place = place_of(before.documents@, uri, 0);
    assert forall|j: int| 0 <= j < after.documents@.len() implies (
    #[trigger] after.documents@[j]).uri@ != uri by {
        if j < place {
            assert(after.documents@[j] == before.documents@[j]);
            assert(before.documents@[j].uri@ != before.documents@[place].uri@);
        } else {
            assert(after.documents@[j] == before.documents@[j + 1]);
            assert(before.documents@[place].uri@ != before.documents@[j + 1].uri@);
        }
    }
    lemma_missing(after, uri);
    lemma_place_of(before.documents@, other, 0);
    let at = place_of(before.documents@, other, 0);
    if at < before.documents@.len() {
        let moved = if at < place {
            at
        } else {
            at - 1
        };
        assert(after.documents@[moved] == before.documents@[at]);
        lemma_tokens(after, other, moved);
    } else {
        assert forall|j: int| 0 <= j < after.documents@.len() implies (
        #[trigger] after.documents@[j]).uri@ != other by {
            if j < place {
                assert(after.documents@[j] == before.documents@[j]);
                assert(before.documents@[j].uri@ != other);
            } else {
                assert(after.documents@[j] == before.documents@[j + 1]);
                assert(before.documents@[j + 1].uri@ != other);
            }
        }
        lemma_missing(after, other);
    }
}

} // verus!
