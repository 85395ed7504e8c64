//! What the occurrences of names in a document say.
use vstd::prelude::*;
use crate::parser::{Sight, Sighting, SymbolKind};
use crate::source::SourceSpan;
use crate::symbols::{declares_global, global_spans, shows_sightings, symbol_at, SymbolOccurrence};

verus! {

/// The sighting `j` declares a global name at a place.
pub open spec fn is_global_declaration(
    sightings: Seq<Sighting>,
    j: int,
    name: usize,
    span: SourceSpan,
) -> bool {
    &&& 0 <= j < sightings.len()
    &&& sightings[j].name == name
    &&& sightings[j].span == span
    &&& sightings[j].sight matches Sight::Declares { symbol: _, local } && !local
}

proof fn lemma_global_spans(sightings: Seq<Sighting>, name: usize, n: int, span: SourceSpan)
    requires
        0 <= n <= sightings.len(),
    ensures
        global_spans(sightings, name, n).contains(span) <==> exists|j: int|
            j < n && #[trigger] is_global_declaration(sightings, j, name, span),
    decreases n,
{
    if n > 0 {
        lemma_global_spans(sightings, name, n - 1, span);
        let before = global_spans(sightings, name, n - 1);
        let all = global_spans(sightings, name, n);
        if declares_global(sightings[n - 1], name) {
            assert(all == before.push(sightings[n - 1].span));
            assert(all.last() == sightings[n - 1].span);
            if all.contains(span) {
                let i = all.index_of(span);
                if i < before.len() {
                    assert(before[i] == span);
                } else {
                    assert(is_global_declaration(sightings, n - 1, name, span));
                }
            }
            if before.contains(span) {
                let i = before.index_of(span);
                assert(all[i] == span);
            }
            if sightings[n - 1].span == span {
                assert(all[before.len() as int] == span);
            }
        }
        if exists|j: int| j < n && #[trigger] is_global_declaration(sightings, j, name, span) {
            let j = choose|j: int|
                j < n && #[trigger] is_global_declaration(sightings, j, name, span);
            if j == n - 1 {
                assert(declares_global(sightings[n - 1], name));
            }
        }
    }
}

/// A declaration is shown as one: of its kind of symbol, at its own place, which
/// is what it means.
pub proof fn law_declarations_mean_themselves(
    occurrences: Seq<SymbolOccurrence>,
    texts: Seq<Seq<char>>,
    sightings: Seq<Sighting>,
    i: int,
)
    requires
        shows_sightings(occurrences, texts, sightings),
        0 <= i < sightings.len(),
    ensures
        occurrences[i].span == sightings[i].span,
        sightings[i].name < texts.len() ==> occurrences[i].name@ == texts[sightings[i].name as int],
        occurrences[i].kind is Declaration <==> sightings[i].sight is Declares,
        sightings[i].sight matches Sight::Declares { symbol, local } ==> {
            &&& occurrences[i].symbol_kind == symbol
            &&& occurrences[i].resolution is Local <==> local
            &&& occurrences[i].resolution is Global <==> !local
            &&& occurrences[i].declaration_targets@.len() == 1
            &&& occurrences[i].declaration_targets@[0] == sightings[i].span
        },
{
}

/// A use of a local variable means the declaration of that variable, and tells
/// whether it is a variable of a function around.
pub proof fn law_uses_of_locals_mean_their_declaration(
    occurrences: Seq<SymbolOccurrence>,
    texts: Seq<Seq<char>>,
    sightings: Seq<Sighting>,
    i: int,
)
    requires
        shows_sightings(occurrences, texts, sightings),
        0 <= i < sightings.len(),
    ensures
        sightings[i].sight matches Sight::Uses { write, captured, target: Some(span) } ==> {
            &&& occurrences[i].kind is Write <==> write
            &&& occurrences[i].kind is Read <==> !write
            &&& occurrences[i].resolution is CapturedUpvalue <==> captured
            &&& occurrences[i].resolution is Local <==> !captured
            &&& occurrences[i].declaration_targets@.len() == 1
            &&& occurrences[i].declaration_targets@[0] == span
            &&& forall|j: int|
                0 <= j < sightings.len() && (#[trigger] sightings[j]).span == span && (
                forall|k: int|
                    0 <= k < j ==> (#[trigger] sightings[k]).span != span) ==> (
                sightings[j].sight matches Sight::Declares { symbol, local: _ }
                    ==> occurrences[i].symbol_kind == symbol)
        },
{
    if let Sight::Uses { write, captured, target: Some(span) } = sightings[i].sight {
        assert forall|j: int|
            0 <= j < sightings.len() && (#[trigger] sightings[j]).span == span && (forall|k: int|
                0 <= k < j ==> (#[trigger] sightings[k]).span != span) implies (
        sightings[j].sight matches Sight::Declares { symbol, local: _ }
            ==> occurrences[i].symbol_kind == symbol) by {
            if sightings[j].sight is Declares {
                lemma_symbol_at(sightings, span, 0, j);
            }
        }
    }
}

proof fn lemma_symbol_at(sightings: Seq<Sighting>, span: SourceSpan, i: int, j: int)
    requires
        0 <= i <= j < sightings.len(),
        sightings[j].span == span,
        forall|k: int| 0 <= k < j ==> (#[trigger] sightings[k]).span != span,
        sightings[j].sight is Declares,
    ensures
        symbol_at(sightings, span, i) == sightings[j].sight->symbol,
    decreases j - i,
{
    if i < j {
        lemma_symbol_at(sightings, span, i + 1, j);
    }
}

/// A use of any other name means all global declarations of that name, wherever
/// they stand, and nothing else. Where there is none, the name is that of the
/// clock or is not known.
pub proof fn law_uses_of_globals_mean_all_declarations(
    occurrences: Seq<SymbolOccurrence>,
    texts: Seq<Seq<char>>,
    sightings: Seq<Sighting>,
    i: int,
    span: SourceSpan,
)
    requires
        shows_sightings(occurrences, texts, sightings),
        0 <= i < sightings.len(),
        sightings[i].sight matches Sight::Uses { target, .. } && target is None,
    ensures
        occurrences[i].declaration_targets@.contains(span) <==> exists|j: int| #[trigger]
            is_global_declaration(sightings, j, sightings[i].name, span),
        occurrences[i].resolution is Global <==> exists|j: int, place: SourceSpan| #[trigger]
            is_global_declaration(sightings, j, sightings[i].name, place),
        occurrences[i].resolution is BuiltIn <==> !(occurrences[i].resolution is Global)
            && occurrences[i].name@ == "clock"@,
        occurrences[i].resolution is Unresolved <==> !(occurrences[i].resolution is Global)
            && occurrences[i].name@ != "clock"@,
        occurrences[i].kind is Write <==> sightings[i].sight->write,
        occurrences[i].kind is Read <==> !sightings[i].sight->write,
{
    let name = sightings[i].name;
    let n = sightings.len() as int;
    let spans = global_spans(sightings, name, n);
    lemma_global_spans(sightings, name, n, span);
    if spans.len() > 0 {
        lemma_global_spans(sightings, name, n, spans[0]);
        assert(spans.contains(spans[0]));
        let j = choose|j: int|
            j < n && #[trigger] is_global_declaration(sightings, j, name, spans[0]);
        assert(is_global_declaration(sightings, j, name, spans[0]));
    }
    if exists|j: int, place: SourceSpan| #[trigger]
        is_global_declaration(sightings, j, name, place) {
        let (j, place) = choose|j: int, place: SourceSpan| #[trigger]
            is_global_declaration(sightings, j, name, place);
        lemma_global_spans(sightings, name, n, place);
        assert(j < n && is_global_declaration(sightings, j, name, place));
        assert(spans.contains(place));
        let at = spans.index_of(place);
        assert(spans.len() > 0);
    }
    if exists|j: int| #[trigger] is_global_declaration(sightings, j, name, span) {
        let j = choose|j: int| #[trigger] is_global_declaration(sightings, j, name, span);
        assert(j < n && is_global_declaration(sightings, j, name, span));
        assert(spans.contains(span));
    }
}

/// A global name is a variable or a function where all its declarations say so.
pub proof fn law_global_names_are_what_they_are_declared_as(
    occurrences: Seq<SymbolOccurrence>,
    texts: Seq<Seq<char>>,
    sightings: Seq<Sighting>,
    i: int,
    symbol: SymbolKind,
)
    requires
        shows_sightings(occurrences, texts, sightings),
        0 <= i < sightings.len(),
        sightings[i].sight matches Sight::Uses { target, .. } && target is None,
        occurrences[i].resolution is Global,
        symbol is Variable || symbol is Function,
    ensures
        occurrences[i].symbol_kind == symbol <==> forall|j: int, span: SourceSpan| #[trigger]
            is_global_declaration(sightings, j, sightings[i].name, span)
                ==> sightings[j].sight->symbol == symbol,
{
    let name = sightings[i].name;
    law_uses_of_globals_mean_all_declarations(
        occurrences,
        texts,
        sightings,
        i,
        sightings[i].span,
    );
    let (j, place) = choose|j: int, place: SourceSpan| #[trigger]
        is_global_declaration(sightings, j, name, place);
    assert(declares_global(sightings[j], name));
    if forall|j: int, span: SourceSpan| #[trigger]
        is_global_declaration(sightings, j, name, span) ==> sightings[j].sight->symbol == symbol {
        assert forall|k: int|
            0 <= k < sightings.len() && declares_global(#[trigger] sightings[k], name) implies
            crate::symbols::symbol_of(sightings[k]) == symbol by {
            assert(is_global_declaration(sightings, k, name, sightings[k].span));
        }
        assert(crate::symbols::all_declare(sightings, name, symbol));
        assert(is_global_declaration(sightings, j, name, place));
    }
    if occurrences[i].symbol_kind == symbol {
        assert(crate::symbols::all_declare(sightings, name, symbol));
        assert forall|k: int, span: SourceSpan| #[trigger]
            is_global_declaration(sightings, k, name, span) implies sightings[k].sight->symbol
            == symbol by {
            assert(declares_global(sightings[k], name));
        }
    }
}

} // verus!
