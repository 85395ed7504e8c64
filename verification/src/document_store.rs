//! The set of open documents, and the rules by which it changes.
use vstd::prelude::*;
use crate::analysis::SemanticStatus;
use crate::documents::{
    build_content, uri_fits, uri_is_bounded, DocumentContent, Location, OpenDocument, Published,
    ReadyDocument, SemanticToken, MAX_OPEN_DOCUMENTS,
};
use crate::source::{RevisionId, SourceId, SourceSpan};
use crate::symbols::SymbolOccurrence;
use crate::text::same_text;
use crate::text_index::{Position, PositionMapping, Range, TextIndex};
use vstd::string::*;

verus! {

/// One span comes before another, or at the same place.
pub open spec fn span_before(a: SourceSpan, b: SourceSpan) -> bool {
    a.start.byte_offset < b.start.byte_offset || (a.start.byte_offset == b.start.byte_offset
        && a.end.byte_offset <= b.end.byte_offset)
}

/// The same spans, in order and each once.
pub open spec fn is_ordered_from(ordered: Seq<SourceSpan>, spans: Seq<SourceSpan>) -> bool {
    &&& forall|i: int, j: int|
        0 <= i < j < ordered.len() ==> span_before(#[trigger] ordered[i], #[trigger] ordered[j])
            && ordered[i] != ordered[j]
    &&& forall|span: SourceSpan| #[trigger] ordered.contains(span) <==> spans.contains(span)
}

/// The ranges of the first `n` spans, without those that are not in the text.
pub open spec fn ranges_of(index: TextIndex, spans: Seq<SourceSpan>, n: int) -> Seq<Range>
    decreases n,
{
    if n <= 0 {
        Seq::empty()
    } else {
        match index.range_of(spans[n - 1]) {
            Some(range) => ranges_of(index, spans, n - 1).push(range),
            None => ranges_of(index, spans, n - 1),
        }
    }
}

/// A name in the text covers a byte.
pub open spec fn covers(index: TextIndex, occurrence: SymbolOccurrence, offset: usize) -> bool {
    &&& occurrence.span.start.byte_offset <= offset < occurrence.span.end.byte_offset
    &&& index.range_of(occurrence.span) is Some
}

/// The first of some names, from `i` on, that covers a byte.
pub open spec fn covering(
    index: TextIndex,
    occurrences: Seq<SymbolOccurrence>,
    offset: usize,
    i: int,
) -> Option<SymbolOccurrence>
    decreases occurrences.len() - i,
{
    if i < 0 || i >= occurrences.len() {
        None
    } else if covers(index, occurrences[i], offset) {
        Some(occurrences[i])
    } else {
        covering(index, occurrences, offset, i + 1)
    }
}

impl ReadyDocument {
    /// Where the name at a byte is declared.
    pub open spec fn defines(self, offset: usize, ranges: Seq<Range>) -> bool {
        match self.analysis {
            Ok(analysis) => match covering(
                self.index,
                analysis.symbol_occurrences@,
                offset,
                0,
            ) {
                Some(occurrence) if analysis.semantic_status is Available => exists|
                    ordered: Seq<SourceSpan>,
                | #[trigger]
                    is_ordered_from(ordered, occurrence.declaration_targets@) && ranges == ranges_of(
                        self.index,
                        ordered,
                        ordered.len() as int,
                    ),
                _ => ranges.len() == 0,
            },
            Err(_) => ranges.len() == 0,
        }
    }
}

fn before(a: SourceSpan, b: SourceSpan) -> (yes: bool)
    ensures
        yes == span_before(a, b),
{
    a.start.byte_offset < b.start.byte_offset || (a.start.byte_offset == b.start.byte_offset
        && a.end.byte_offset <= b.end.byte_offset)
}

fn contains_span(spans: &Vec<SourceSpan>, span: SourceSpan) -> (found: bool)
    ensures
        found == spans@.contains(span),
{
    let mut i: usize = 0;
    while i < spans.len()
        invariant
            i <= spans@.len(),
            forall|j: int| 0 <= j < i ==> spans@[j] != span,
        decreases spans@.len() - i,
    {
        if spans[i] == span {
            return true;
        }
        i += 1;
    }
    false
}

fn order_spans(spans: &Vec<SourceSpan>) -> (ordered: Vec<SourceSpan>)
    ensures
        is_ordered_from(ordered@, spans@),
{
    let mut ordered: Vec<SourceSpan> = Vec::new();
    let mut n: usize = 0;
    assert(spans@.take(0) =~= Seq::empty());
    while n < spans.len()
        invariant
            n <= spans@.len(),
            is_ordered_from(ordered@, spans@.take(n as int)),
        decreases spans@.len() - n,
    {
        let span = spans[n];
        let ghost taken = spans@.take(n as int);
        let ghost old_ordered = ordered@;
        assert(spans@.take(n + 1) =~= taken.push(span));
        proof {
            lemma_push_contains(taken, span);
        }
        if !contains_span(&ordered, span) {
            let mut place: usize = 0;
            while place < ordered.len() && before(ordered[place], span)
                invariant
                    place <= ordered@.len(),
                    ordered@ == old_ordered,
                    forall|i: int| 0 <= i < place ==> span_before(#[trigger] ordered@[i], span),
                decreases ordered@.len() - place,
            {
                place += 1;
            }
            ordered.insert(place, span);
            proof {
                assert forall|i: int, j: int| 0 <= i < j < ordered@.len() implies span_before(
                    #[trigger] ordered@[i],
                    #[trigger] ordered@[j],
                ) && ordered@[i] != ordered@[j] by {
                    let a = if i < place {
                        i
                    } else {
                        i - 1
                    };
                    let b = if j < place {
                        j
                    } else {
                        j - 1
                    };
                    if i == place {
                        assert(old_ordered[b] == ordered@[j]);
                        if b > place {
                            assert(span_before(old_ordered[place as int], old_ordered[b]));
                        }
                    } else if j == place {
                        assert(old_ordered[a] == ordered@[i]);
                    } else {
                        assert(old_ordered[a] == ordered@[i] && old_ordered[b] == ordered@[j]);
                    }
                }
                assert forall|x: SourceSpan| #[trigger] ordered@.contains(x) <==> taken.push(
                    span,
                ).contains(x) by {
                    if ordered@.contains(x) {
                        let i = choose|i: int| 0 <= i < ordered@.len() && ordered@[i] == x;
                        if i < place {
                            assert(old_ordered[i] == x);
                        } else if i > place {
                            assert(old_ordered[i - 1] == x);
                        }
                    }
                    if old_ordered.contains(x) {
                        let i = choose|i: int| 0 <= i < old_ordered.len() && old_ordered[i] == x;
                        if i < place {
                            assert(ordered@[i] == x);
                        } else {
                            assert(ordered@[i + 1] == x);
                        }
                    }
                    assert(ordered@[place as int] == span);
                }
            }
        }
        n += 1;
    }
    assert(spans@.take(n as int) =~= spans@);
    ordered
}

proof fn lemma_push_contains(spans: Seq<SourceSpan>, span: SourceSpan)
    ensures
        forall|x: SourceSpan| #[trigger]
            spans.push(span).contains(x) <==> spans.contains(x) || x == span,
{
    assert forall|x: SourceSpan| #[trigger] spans.push(span).contains(x) <==> spans.contains(x) || x
        == span by {
        if spans.contains(x) {
            let i = choose|i: int| 0 <= i < spans.len() && spans[i] == x;
            assert(spans.push(span)[i] == x);
        }
        assert(spans.push(span)[spans.len() as int] == span);
        if spans.push(span).contains(x) {
            let i = choose|i: int| 0 <= i < spans.push(span).len() && spans.push(span)[i] == x;
            if i < spans.len() {
                assert(spans[i] == x);
            }
        }
    }
}

impl ReadyDocument {
    fn find_occurrence(&self, occurrences: &Vec<SymbolOccurrence>, offset: usize) -> (found: Option<
        usize,
    >)
        requires
            self.index.wf(),
        ensures
            match found {
                Some(i) => i < occurrences@.len() && covering(self.index, occurrences@, offset, 0)
                    == Some(occurrences@[i as int]),
                None => covering(self.index, occurrences@, offset, 0) is None,
            },
    {
        let mut i: usize = 0;
        while i < occurrences.len()
            invariant
                self.index.wf(),
                i <= occurrences@.len(),
                covering(self.index, occurrences@, offset, i as int) == covering(
                    self.index,
                    occurrences@,
                    offset,
                    0,
                ),
            decreases occurrences@.len() - i,
        {
            let span = occurrences[i].span;
            if span.start.byte_offset <= offset && offset < span.end.byte_offset
                && self.index.span_to_range(span).is_some() {
                return Some(i);
            }
            i += 1;
        }
        None
    }

    /// The declarations of the name at a byte, in the order of the text.
    pub fn definition_at(&self, offset: usize) -> (ranges: Vec<Range>)
        requires
            self.index.wf(),
        ensures
            self.defines(offset, ranges@),
    {
        let mut ranges: Vec<Range> = Vec::new();
        if let Ok(analysis) = &self.analysis {
            if analysis.semantic_status != SemanticStatus::Available {
                return ranges;
            }
            if let Some(found) = self.find_occurrence(&analysis.symbol_occurrences, offset) {
                let ordered = order_spans(&analysis.symbol_occurrences[found].declaration_targets);
                let mut i: usize = 0;
                assert(ranges@ =~= Seq::empty());
                while i < ordered.len()
                    invariant
                        self.index.wf(),
                        i <= ordered@.len(),
                        ranges@ == ranges_of(self.index, ordered@, i as int),
                    decreases ordered@.len() - i,
                {
                    if let Some(range) = self.index.span_to_range(ordered[i]) {
                        ranges.push(range);
                    }
                    i += 1;
                }
                assert(is_ordered_from(
                    ordered@,
                    analysis.symbol_occurrences@[found as int].declaration_targets@,
                ));
            }
        }
        ranges
    }
}

impl OpenDocument {
    /// Where the name at a position of the editor is declared.
    pub open spec fn defines(self, position: Position, ranges: Seq<Range>) -> bool {
        match self.content {
            DocumentContent::Ready(ready) => exists|mapping: Option<PositionMapping>| #[trigger]
                ready.index.maps_to(position, mapping) && match mapping {
                    Some(PositionMapping::Offset(offset)) => ready.defines(offset, ranges),
                    _ => ranges.len() == 0,
                },
            DocumentContent::Oversized(_) => ranges.len() == 0,
        }
    }

    pub fn definition(&self, position: Position) -> (ranges: Vec<Range>)
        requires
            self.wf(),
        ensures
            self.defines(position, ranges@),
    {
        match &self.content {
            DocumentContent::Ready(ready) => {
                let mapping = ready.index.raw_to_canonical(position);
                assert(ready.index.maps_to(position, mapping));
                match mapping {
                    Some(PositionMapping::Offset(offset)) => ready.definition_at(offset),
                    _ => Vec::new(),
                }
            },
            DocumentContent::Oversized(_) => Vec::new(),
        }
    }
}

/// A change to a document's text; one without a range replaces all of it.
#[derive(Debug, Clone, PartialEq, Eq)]
pub struct TextChange {
    pub ranged: bool,
    pub text: String,
}

pub struct DocumentStore {
    pub documents: Vec<OpenDocument>,
    pub next_source_id: u64,
    pub next_revision: u64,
    pub diagnostic_data_support: bool,
}

/// The place of a document among the open ones, or their number.
pub open spec fn place_of(documents: Seq<OpenDocument>, uri: Seq<char>, i: int) -> int
    decreases documents.len() - i,
{
    if i < 0 || i >= documents.len() || documents[i].uri@ == uri {
        i
    } else {
        place_of(documents, uri, i + 1)
    }
}

pub open spec fn is_open(documents: Seq<OpenDocument>, uri: Seq<char>) -> bool {
    place_of(documents, uri, 0) < documents.len()
}

/// What is published of a document that was opened or changed.
pub open spec fn announces(p: Published, document: OpenDocument, data: bool) -> bool {
    p.uri@ == document.uri@ && p.version == document.version && document.publishes(
        p.diagnostics@,
        data,
    )
}

/// What opening a document does: nothing where it is refused.
pub open spec fn opened(
    before: DocumentStore,
    after: DocumentStore,
    uri: Seq<char>,
    version: i32,
    text: Seq<char>,
    numbers: Seq<u64>,
    published: Option<Published>,
) -> bool {
    match published {
        None => !before.accepts_open(uri) && after == before,
        Some(p) => {
            let document = after.documents@.last();
            &&& before.accepts_open(uri)
            &&& after.documents@.len() == before.documents@.len() + 1
            &&& after.documents@.drop_last() == before.documents@
            &&& document.uri@ == uri
            &&& document.version == version
            &&& document.source_id == SourceId(before.next_source_id)
            &&& document.revision == RevisionId(before.next_revision)
            &&& document.content.is_from(
                uri,
                document.source_id,
                document.revision,
                text,
                numbers,
            )
            &&& announces(p, document, before.diagnostic_data_support)
            &&& after.next_source_id == before.next_source_id + 1
            &&& after.next_revision == before.next_revision + 1
            &&& after.diagnostic_data_support == before.diagnostic_data_support
        },
    }
}

/// What changing a document does: nothing where it is refused.
pub open spec fn changed(
    before: DocumentStore,
    after: DocumentStore,
    uri: Seq<char>,
    version: i32,
    changes: Seq<TextChange>,
    numbers: Seq<u64>,
    published: Option<Published>,
) -> bool {
    match published {
        None => !before.accepts_change(uri, version, changes) && after == before,
        Some(p) => {
            let place = place_of(before.documents@, uri, 0);
            let document = after.documents@[place];
            &&& before.accepts_change(uri, version, changes)
            &&& after.documents@ == before.documents@.update(place, document)
            &&& document.uri@ == uri
            &&& document.version == version
            &&& document.source_id == before.documents@[place].source_id
            &&& document.revision == RevisionId(before.next_revision)
            &&& document.content.is_from(
                uri,
                document.source_id,
                document.revision,
                changes[0].text@,
                numbers,
            )
            &&& announces(p, document, before.diagnostic_data_support)
            &&& after.next_source_id == before.next_source_id
            &&& after.next_revision == before.next_revision + 1
            &&& after.diagnostic_data_support == before.diagnostic_data_support
        },
    }
}

/// What closing a document does: nothing where it is not open.
pub open spec fn closed(
    before: DocumentStore,
    after: DocumentStore,
    uri: Seq<char>,
    published: Option<Published>,
) -> bool {
    let found = uri_fits(uri) && is_open(before.documents@, uri);
    match published {
        None => !found && after == before,
        Some(p) => {
            let place = place_of(before.documents@, uri, 0);
            &&& found
            &&& after.documents@ == before.documents@.remove(place)
            &&& p.uri@ == uri
            &&& p.diagnostics@.len() == 0
            &&& p.version == before.documents@[place].version
            &&& after.next_source_id == before.next_source_id
            &&& after.next_revision == before.next_revision
            &&& after.diagnostic_data_support == before.diagnostic_data_support
        },
    }
}

/// Where the name at a position is declared: nowhere in a document that is
/// not open.
pub open spec fn defined(
    store: DocumentStore,
    uri: Seq<char>,
    position: Position,
    locations: Seq<Location>,
) -> bool {
    if uri_fits(uri) && is_open(store.documents@, uri) {
        exists|ranges: Seq<Range>| #[trigger]
            store.documents@[place_of(store.documents@, uri, 0)].defines(position, ranges)
                && locates(locations, uri, ranges)
    } else {
        locations.len() == 0
    }
}

/// Identities are never given out again, whatever is done to the documents:
/// a document that is opened or changed has a newer revision than all that
/// are open, and one that is opened a newer source.
pub proof fn law_identities_are_fresh(
    before: DocumentStore,
    after: DocumentStore,
    uri: Seq<char>,
    version: i32,
    text: Seq<char>,
    changes: Seq<TextChange>,
    numbers: Seq<u64>,
    published: Option<Published>,
)
    requires
        before.wf(),
        opened(before, after, uri, version, text, numbers, published) || changed(
            before,
            after,
            uri,
            version,
            changes,
            numbers,
            published,
        ) || closed(before, after, uri, published),
    ensures
        before.next_source_id <= after.next_source_id,
        before.next_revision <= after.next_revision,
        published is None ==> after == before,
        published is Some && opened(before, after, uri, version, text, numbers, published) ==> forall|
            i: int,
        |
            0 <= i < before.documents@.len() ==> (#[trigger] before.documents@[i]).source_id.0
                < after.documents@.last().source_id.0 && before.documents@[i].revision.0
                < after.documents@.last().revision.0,
        published is Some && changed(before, after, uri, version, changes, numbers, published)
            ==> forall|i: int|
            0 <= i < before.documents@.len() ==> (#[trigger] before.documents@[i]).revision.0
                < after.documents@[place_of(before.documents@, uri, 0)].revision.0,
{
}

impl DocumentStore {
    /// The tokens of a document; none where it is not open.
    pub open spec fn tokens(self, uri: Seq<char>) -> Seq<SemanticToken> {
        if uri_fits(uri) && is_open(self.documents@, uri) {
            self.documents@[place_of(self.documents@, uri, 0)].tokens()
        } else {
            Seq::empty()
        }
    }

    /// Every document is open once, and its identities have been given out.
    pub open spec fn wf(self) -> bool {
        &&& self.documents@.len() <= MAX_OPEN_DOCUMENTS
        &&& forall|i: int|
            0 <= i < self.documents@.len() ==> (#[trigger] self.documents@[i]).wf()
                && self.documents@[i].source_id.0 < self.next_source_id
                && self.documents@[i].revision.0 < self.next_revision
        &&& forall|i: int, j: int|
            0 <= i < j < self.documents@.len() ==> (#[trigger] self.documents@[i]).uri@ != (
            #[trigger] self.documents@[j]).uri@ && self.documents@[i].source_id
                != self.documents@[j].source_id && self.documents@[i].revision
                != self.documents@[j].revision
    }

    pub fn new(diagnostic_data_support: bool) -> (store: Self)
        ensures
            store.wf(),
            store.documents@.len() == 0,
            store.next_source_id == 1,
            store.next_revision == 1,
            store.diagnostic_data_support == diagnostic_data_support,
    {
        DocumentStore {
            documents: Vec::new(),
            next_source_id: 1,
            next_revision: 1,
            diagnostic_data_support,
        }
    }

    pub fn find(&self, uri: &str) -> (place: Option<usize>)
        ensures
            match place {
                Some(i) => i < self.documents@.len() && i == place_of(self.documents@, uri@, 0)
                    && self.documents@[i as int].uri@ == uri@,
                None => !is_open(self.documents@, uri@) && forall|i: int|
                    0 <= i < self.documents@.len() ==> (#[trigger] self.documents@[i]).uri@ != uri@,
            },
    {
        let mut i: usize = 0;
        while i < self.documents.len()
            invariant
                i <= self.documents@.len(),
                place_of(self.documents@, uri@, i as int) == place_of(self.documents@, uri@, 0),
                forall|j: int| 0 <= j < i ==> (#[trigger] self.documents@[j]).uri@ != uri@,
            decreases self.documents@.len() - i,
        {
            if same_text(self.documents[i].uri.as_str(), uri) {
                return Some(i);
            }
            i += 1;
        }
        None
    }

    /// A document can be opened: its name fits, it is not open, and there is
    /// room for it and identities to give it.
    pub open spec fn accepts_open(self, uri: Seq<char>) -> bool {
        &&& uri_fits(uri)
        &&& !is_open(self.documents@, uri)
        &&& self.documents@.len() < MAX_OPEN_DOCUMENTS
        &&& self.next_source_id < u64::MAX
        &&& self.next_revision < u64::MAX
    }

    /// Opens a document. `numbers` are the numbers that the number tokens of
    /// its text spell.
    pub fn open(&mut self, uri: &str, version: i32, text: &str, numbers: &Vec<u64>) -> (published:
        Option<Published>)
        requires
            old(self).wf(),
        ensures
            final(self).wf(),
            opened(*old(self), *final(self), uri@, version, text@, numbers@, published),
    {
        if !uri_is_bounded(uri) || self.find(uri).is_some() || self.documents.len()
            >= MAX_OPEN_DOCUMENTS {
            return None;
        }
        if self.next_source_id == u64::MAX || self.next_revision == u64::MAX {
            return None;
        }
        let source_id = SourceId(self.next_source_id);
        let revision = RevisionId(self.next_revision);
        self.next_source_id = self.next_source_id + 1;
        self.next_revision = self.next_revision + 1;
        let document = OpenDocument {
            uri: uri.to_owned(),
            version,
            source_id,
            revision,
            content: build_content(uri, source_id, revision, text, numbers),
        };
        let diagnostics = document.diagnostics(self.diagnostic_data_support);
        self.documents.push(document);
        assert(self.documents@.drop_last() =~= old(self).documents@);
        Some(Published { uri: uri.to_owned(), diagnostics, version })
    }

    /// A document can be changed: it is open, the version is newer, and the
    /// one change replaces the whole text.
    pub open spec fn accepts_change(
        self,
        uri: Seq<char>,
        version: i32,
        changes: Seq<TextChange>,
    ) -> bool {
        &&& uri_fits(uri)
        &&& changes.len() == 1 && !changes[0].ranged
        &&& is_open(self.documents@, uri)
        &&& version > self.documents@[place_of(self.documents@, uri, 0)].version
        &&& self.next_revision < u64::MAX
    }

    /// Changes a document. `numbers` are the numbers that the number tokens
    /// of the new text spell.
    pub fn change(
        &mut self,
        uri: &str,
        version: i32,
        changes: &Vec<TextChange>,
        numbers: &Vec<u64>,
    ) -> (published: Option<Published>)
        requires
            old(self).wf(),
        ensures
            final(self).wf(),
            changed(*old(self), *final(self), uri@, version, changes@, numbers@, published),
    {
        if !uri_is_bounded(uri) || changes.len() != 1 || changes[0].ranged {
            return None;
        }
        let place: usize = match self.find(uri) {
            Some(place) => place,
            None => return None,
        };
        if version <= self.documents[place].version || self.next_revision == u64::MAX {
            return None;
        }
        let source_id = self.documents[place].source_id;
        let revision = RevisionId(self.next_revision);
        self.next_revision = self.next_revision + 1;
        let updated = OpenDocument {
            uri: uri.to_owned(),
            version,
            source_id,
            revision,
            content: build_content(uri, source_id, revision, changes[0].text.as_str(), numbers),
        };
        let diagnostics = updated.diagnostics(self.diagnostic_data_support);
        self.documents.set(place, updated);
        Some(Published { uri: uri.to_owned(), diagnostics, version })
    }

    /// Closes a document; nothing is published of it any more.
    pub fn close(&mut self, uri: &str) -> (published: Option<Published>)
        requires
            old(self).wf(),
        ensures
            final(self).wf(),
            closed(*old(self), *final(self), uri@, published),
    {
        if !uri_is_bounded(uri) {
            return None;
        }
        let place: usize = match self.find(uri) {
            Some(place) => place,
            None => return None,
        };
        let version: i32 = self.documents[place].version;
        self.documents.remove(place);
        Some(Published { uri: uri.to_owned(), diagnostics: Vec::new(), version })
    }

    /// The tokens of a document; none where it is not open.
    pub fn semantic_tokens(&self, uri: &str) -> (tokens: Vec<SemanticToken>)
        requires
            self.wf(),
        ensures
            tokens@ == self.tokens(uri@),
    {
        if uri_is_bounded(uri) {
            if let Some(place) = self.find(uri) {
                assert(self.documents@[place as int].wf());
                return self.documents[place].semantic_tokens();
            }
        }
        let none: Vec<SemanticToken> = Vec::new();
        assert(none@ =~= Seq::empty());
        none
    }

    /// Where the name at a position of a document is declared.
    pub fn definition(&self, uri: &str, position: Position) -> (locations: Vec<Location>)
        requires
            self.wf(),
        ensures
            defined(*self, uri@, position, locations@),
    {
        let mut locations: Vec<Location> = Vec::new();
        if uri_is_bounded(uri) {
            if let Some(place) = self.find(uri) {
                assert(self.documents@[place as int].wf());
                let ranges = self.documents[place].definition(position);
                let mut i: usize = 0;
                while i < ranges.len()
                    invariant
                        i <= ranges@.len(),
                        locates(locations@, uri@, ranges@.take(i as int)),
                    decreases ranges@.len() - i,
                {
                    locations.push(Location { uri: uri.to_owned(), range: ranges[i] });
                    i += 1;
                }
                assert(ranges@.take(i as int) =~= ranges@);
            }
        }
        locations
    }
}

pub open spec fn locates(locations: Seq<Location>, uri: Seq<char>, ranges: Seq<Range>) -> bool {
    &&& locations.len() == ranges.len()
    &&& forall|i: int|
        0 <= i < ranges.len() ==> (#[trigger] locations[i]).uri@ == uri && locations[i].range
            == ranges[i]
}

} // verus!
