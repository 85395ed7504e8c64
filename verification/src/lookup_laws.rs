//! Which name stands at a place of a document.
use vstd::prelude::*;
use crate::document_store::{covering, ranges_of};
use crate::source::SourceSpan;
use crate::symbols::SymbolOccurrence;
use crate::text_index::TextIndex;

verus! {

/// A name stands at a byte of the text: it begins there or before, and ends
/// behind it.
pub open spec fn stands_at(index: TextIndex, occurrence: SymbolOccurrence, offset: usize) -> bool {
    &&& occurrence.span.start.byte_offset <= offset
    &&& offset < occurrence.span.end.byte_offset
    &&& index.range_of(occurrence.span) is Some
}

/// The name that is found at a byte is the first that stands there; none is
/// found only where none stands.
pub proof fn law_the_first_name_at_a_place_is_found(
    index: TextIndex,
    occurrences: Seq<SymbolOccurrence>,
    offset: usize,
    i: int,
)
    requires
        0 <= i <= occurrences.len(),
    ensures
        match covering(index, occurrences, offset, i) {
            Some(found) => exists|j: int|
                i <= j < occurrences.len() && #[trigger] occurrences[j] == found && stands_at(
                    index,
                    found,
                    offset,
                ) && forall|k: int|
                    i <= k < j ==> !stands_at(index, #[trigger] occurrences[k], offset),
            None => forall|j: int|
                i <= j < occurrences.len() ==> !stands_at(index, #[trigger] occurrences[j], offset),
        },
    decreases occurrences.len() - i,
{
    if i < occurrences.len() {
        if stands_at(index, occurrences[i], offset) {
            assert(occurrences[i] == covering(index, occurrences, offset, i)->0);
        } else {
            law_the_first_name_at_a_place_is_found(index, occurrences, offset, i + 1);
        }
    }
}

/// The ranges of places in the text are all there, in the same order.
pub proof fn law_ranges_are_those_of_the_places(index: TextIndex, spans: Seq<SourceSpan>, n: int)
    requires
        0 <= n <= spans.len(),
        forall|i: int| 0 <= i < n ==> index.range_of(#[trigger] spans[i]) is Some,
    ensures
        ranges_of(index, spans, n).len() == n,
        forall|i: int|
            0 <= i < n ==> Some(#[trigger] ranges_of(index, spans, n)[i]) == index.range_of(
                spans[i],
            ),
    decreases n,
{
    if n > 0 {
        law_ranges_are_those_of_the_places(index, spans, n - 1);
        assert(index.range_of(spans[n - 1]) is Some);
        let all = ranges_of(index, spans, n);
        assert forall|i: int| 0 <= i < n implies Some(#[trigger] all[i]) == index.range_of(
            spans[i],
        ) by {
            if i < n - 1 {
                assert(all[i] == ranges_of(index, spans, n - 1)[i]);
            }
        }
    }
}

} // verus!
