//! What the names of a document mean.
use vstd::prelude::*;
use crate::compiler::contents;
use crate::loader::name_of;
use crate::parser::{Sight, Sighting, SymbolKind};
use crate::source::SourceSpan;
use crate::text::same_text;
use std::sync::Arc;

verus! {

#[derive(Debug, Clone, Copy, PartialEq, Eq, Structural)]
pub enum SymbolOccurrenceKind {
    Declaration,
    Read,
    Write,
}

/// How a name was found.
#[derive(Debug, Clone, Copy, PartialEq, Eq, Structural)]
pub enum SymbolResolution {
    Local,
    CapturedUpvalue,
    Global,
    BuiltIn,
    Unresolved,
}

/// One place where a name stands, and the declarations that it may mean.
#[derive(Debug, Clone, PartialEq, Eq)]
pub struct SymbolOccurrence {
    pub name: String,
    pub kind: SymbolOccurrenceKind,
    pub span: SourceSpan,
    pub symbol_kind: SymbolKind,
    pub resolution: SymbolResolution,
    pub declaration_targets: Arc<Vec<SourceSpan>>,
}

/// What an occurrence says.
pub ghost struct Meaning {
    pub kind: SymbolOccurrenceKind,
    pub symbol_kind: SymbolKind,
    pub resolution: SymbolResolution,
    pub targets: Seq<SourceSpan>,
}

pub open spec fn declares_global(sighting: Sighting, name: usize) -> bool {
    sighting.name == name && (sighting.sight matches Sight::Declares { symbol, local } && !local)
}

/// The global declarations of a name among the first `n` sightings.
pub open spec fn global_spans(sightings: Seq<Sighting>, name: usize, n: int) -> Seq<SourceSpan>
    decreases n,
{
    if n <= 0 {
        Seq::empty()
    } else if declares_global(sightings[n - 1], name) {
        global_spans(sightings, name, n - 1).push(sightings[n - 1].span)
    } else {
        global_spans(sightings, name, n - 1)
    }
}

pub open spec fn symbol_of(sighting: Sighting) -> SymbolKind {
    match sighting.sight {
        Sight::Declares { symbol, local } => symbol,
        _ => SymbolKind::Unknown,
    }
}

/// Every global declaration of a name makes it this kind of symbol.
pub open spec fn all_declare(sightings: Seq<Sighting>, name: usize, symbol: SymbolKind) -> bool {
    forall|i: int|
        0 <= i < sightings.len() && declares_global(#[trigger] sightings[i], name) ==> symbol_of(
            sightings[i],
        ) == symbol
}

/// The kind of symbol that a global name is: unknown where its declarations
/// do not agree.
pub open spec fn global_symbol(sightings: Seq<Sighting>, name: usize) -> SymbolKind {
    if all_declare(sightings, name, SymbolKind::Variable) {
        SymbolKind::Variable
    } else if all_declare(sightings, name, SymbolKind::Function) {
        SymbolKind::Function
    } else {
        SymbolKind::Unknown
    }
}

/// The first declaration from `i` on that stands at a place.
pub open spec fn symbol_at(sightings: Seq<Sighting>, span: SourceSpan, i: int) -> SymbolKind
    decreases sightings.len() - i,
{
    if i < 0 || i >= sightings.len() {
        SymbolKind::Unknown
    } else if sightings[i].span == span && sightings[i].sight is Declares {
        symbol_of(sightings[i])
    } else {
        symbol_at(sightings, span, i + 1)
    }
}

/// What a sighting means among all sightings of a document.
pub open spec fn meaning(
    texts: Seq<Seq<char>>,
    sightings: Seq<Sighting>,
    sighting: Sighting,
) -> Meaning {
    match sighting.sight {
        Sight::Declares { symbol, local } => Meaning {
            kind: SymbolOccurrenceKind::Declaration,
            symbol_kind: symbol,
            resolution: if local {
                SymbolResolution::Local
            } else {
                SymbolResolution::Global
            },
            targets: seq![sighting.span],
        },
        Sight::Uses { write, captured, target } => {
            let kind = if write {
                SymbolOccurrenceKind::Write
            } else {
                SymbolOccurrenceKind::Read
            };
            let spans = global_spans(sightings, sighting.name, sightings.len() as int);
            match target {
                Some(span) => Meaning {
                    kind,
                    symbol_kind: symbol_at(sightings, span, 0),
                    resolution: if captured {
                        SymbolResolution::CapturedUpvalue
                    } else {
                        SymbolResolution::Local
                    },
                    targets: seq![span],
                },
                None => if spans.len() > 0 {
                    Meaning {
                        kind,
                        symbol_kind: global_symbol(sightings, sighting.name),
                        resolution: SymbolResolution::Global,
                        targets: spans,
                    }
                } else if name_of(texts, sighting.name) == "clock"@ {
                    Meaning {
                        kind,
                        symbol_kind: SymbolKind::BuiltIn,
                        resolution: SymbolResolution::BuiltIn,
                        targets: Seq::empty(),
                    }
                } else {
                    Meaning {
                        kind,
                        symbol_kind: SymbolKind::Unknown,
                        resolution: SymbolResolution::Unresolved,
                        targets: Seq::empty(),
                    }
                },
            }
        },
    }
}

/// An occurrence is a sighting with its meaning.
pub open spec fn shows_sighting(
    occurrence: SymbolOccurrence,
    texts: Seq<Seq<char>>,
    sightings: Seq<Sighting>,
    sighting: Sighting,
) -> bool {
    let m = meaning(texts, sightings, sighting);
    &&& occurrence.name@ == name_of(texts, sighting.name)
    &&& occurrence.span == sighting.span
    &&& occurrence.kind == m.kind
    &&& occurrence.symbol_kind == m.symbol_kind
    &&& occurrence.resolution == m.resolution
    &&& occurrence.declaration_targets@ == m.targets
}

pub open spec fn shows_sightings(
    occurrences: Seq<SymbolOccurrence>,
    texts: Seq<Seq<char>>,
    sightings: Seq<Sighting>,
) -> bool {
    &&& occurrences.len() == sightings.len()
    &&& forall|i: int|
        0 <= i < sightings.len() ==> shows_sighting(
            #[trigger] occurrences[i],
            texts,
            sightings,
            sightings[i],
        )
}

fn is_global_declaration(sighting: &Sighting, name: usize) -> (yes: bool)
    ensures
        yes == declares_global(*sighting, name),
{
    sighting.name == name && match sighting.sight {
        Sight::Declares { symbol: _, local } => !local,
        _ => false,
    }
}

fn global_declarations(sightings: &Vec<Sighting>, name: usize) -> (spans: Vec<SourceSpan>)
    ensures
        spans@ == global_spans(sightings@, name, sightings@.len() as int),
{
    let mut spans: Vec<SourceSpan> = Vec::new();
    let mut i: usize = 0;
    assert(spans@ =~= Seq::empty());
    while i < sightings.len()
        invariant
            i <= sightings@.len(),
            spans@ == global_spans(sightings@, name, i as int),
        decreases sightings@.len() - i,
    {
        if is_global_declaration(&sightings[i], name) {
            spans.push(sightings[i].span);
        }
        i += 1;
    }
    spans
}

fn declared_as(sightings: &Vec<Sighting>, name: usize, symbol: SymbolKind) -> (yes: bool)
    ensures
        yes == all_declare(sightings@, name, symbol),
{
    let mut i: usize = 0;
    while i < sightings.len()
        invariant
            i <= sightings@.len(),
            forall|j: int|
                0 <= j < i && declares_global(#[trigger] sightings@[j], name) ==> symbol_of(
                    sightings@[j],
                ) == symbol,
        decreases sightings@.len() - i,
    {
        if is_global_declaration(&sightings[i], name) {
            if let Sight::Declares { symbol: other, local: _ } = sightings[i].sight {
                if other != symbol {
                    assert(declares_global(sightings@[i as int], name));
                    return false;
                }
            }
        }
        i += 1;
    }
    true
}

fn find_symbol(sightings: &Vec<Sighting>, span: SourceSpan) -> (symbol: SymbolKind)
    ensures
        symbol == symbol_at(sightings@, span, 0),
{
    let mut i: usize = 0;
    while i < sightings.len()
        invariant
            i <= sightings@.len(),
            symbol_at(sightings@, span, i as int) == symbol_at(sightings@, span, 0),
        decreases sightings@.len() - i,
    {
        if sightings[i].span == span {
            if let Sight::Declares { symbol, local: _ } = sightings[i].sight {
                return symbol;
            }
        }
        i += 1;
    }
    SymbolKind::Unknown
}

fn only(span: SourceSpan) -> (spans: Arc<Vec<SourceSpan>>)
    ensures
        spans@ == seq![span],
{
    let mut spans: Vec<SourceSpan> = Vec::new();
    spans.push(span);
    assert(spans@ =~= seq![span]);
    Arc::new(spans)
}

/// The global declarations of every text, in the order of the texts.
fn all_global_declarations(count: usize, sightings: &Vec<Sighting>) -> (all: Vec<
    Arc<Vec<SourceSpan>>,
>)
    ensures
        all@.len() == count,
        forall|name: int|
            0 <= name < count ==> (#[trigger] all@[name])@ == global_spans(
                sightings@,
                name as usize,
                sightings@.len() as int,
            ),
{
    let mut all: Vec<Arc<Vec<SourceSpan>>> = Vec::new();
    while all.len() < count
        invariant
            all@.len() <= count,
            forall|name: int|
                0 <= name < all@.len() ==> (#[trigger] all@[name])@ == global_spans(
                    sightings@,
                    name as usize,
                    sightings@.len() as int,
                ),
        decreases count - all@.len(),
    {
        let spans = global_declarations(sightings, all.len());
        all.push(Arc::new(spans));
    }
    all
}

/// What the names that were met mean. The uses of one global share the list
/// of its declarations.
pub fn symbol_occurrences(texts: &Vec<String>, sightings: &Vec<Sighting>) -> (occurrences: Vec<
    SymbolOccurrence,
>)
    ensures
        shows_sightings(occurrences@, contents(texts@), sightings@),
{
    let globals = all_global_declarations(texts.len(), sightings);
    let mut occurrences: Vec<SymbolOccurrence> = Vec::new();
    let mut i: usize = 0;
    while i < sightings.len()
        invariant
            i <= sightings@.len(),
            occurrences@.len() == i,
            globals@.len() == texts@.len(),
            forall|name: int|
                0 <= name < globals@.len() ==> (#[trigger] globals@[name])@ == global_spans(
                    sightings@,
                    name as usize,
                    sightings@.len() as int,
                ),
            forall|j: int|
                0 <= j < i ==> shows_sighting(
                    #[trigger] occurrences@[j],
                    contents(texts@),
                    sightings@,
                    sightings@[j],
                ),
        decreases sightings@.len() - i,
    {
        let sighting = sightings[i];
        let name = if sighting.name < texts.len() {
            texts[sighting.name].clone()
        } else {
            String::new()
        };
        let (kind, symbol_kind, resolution, targets) = match sighting.sight {
            Sight::Declares { symbol, local } => (
                SymbolOccurrenceKind::Declaration,
                symbol,
                if local {
                    SymbolResolution::Local
                } else {
                    SymbolResolution::Global
                },
                only(sighting.span),
            ),
            Sight::Uses { write, captured, target } => {
                let kind = if write {
                    SymbolOccurrenceKind::Write
                } else {
                    SymbolOccurrenceKind::Read
                };
                match target {
                    Some(span) => (
                        kind,
                        find_symbol(sightings, span),
                        if captured {
                            SymbolResolution::CapturedUpvalue
                        } else {
                            SymbolResolution::Local
                        },
                        only(span),
                    ),
                    None => {
                        let targets = if sighting.name < globals.len() {
                            globals[sighting.name].clone()
                        } else {
                            Arc::new(global_declarations(sightings, sighting.name))
                        };
                        if targets.len() > 0 {
                            let symbol = if declared_as(
                                sightings,
                                sighting.name,
                                SymbolKind::Variable,
                            ) {
                                SymbolKind::Variable
                            } else if declared_as(
                                sightings,
                                sighting.name,
                                SymbolKind::Function,
                            ) {
                                SymbolKind::Function
                            } else {
                                SymbolKind::Unknown
                            };
                            (kind, symbol, SymbolResolution::Global, targets)
                        } else if same_text(name.as_str(), "clock") {
                            assert(targets@ =~= Seq::empty());
                            (kind, SymbolKind::BuiltIn, SymbolResolution::BuiltIn, targets)
                        } else {
                            assert(targets@ =~= Seq::empty());
                            (kind, SymbolKind::Unknown, SymbolResolution::Unresolved, targets)
                        }
                    },
                }
            },
        };
        occurrences.push(
            SymbolOccurrence {
                name,
                kind,
                span: sighting.span,
                symbol_kind,
                resolution,
                declaration_targets: targets,
            },
        );
        i += 1;
    }
    occurrences
}

/// A use of a name that is resolved has a declaration, and one that is not has none.
pub proof fn law_resolved_names_have_declarations(
    texts: Seq<Seq<char>>,
    sightings: Seq<Sighting>,
    sighting: Sighting,
)
    ensures
        ({
            let m = meaning(texts, sightings, sighting);
            (m.targets.len() == 0) == (m.resolution is BuiltIn || m.resolution is Unresolved)
        }),
{
}

} // verus!
