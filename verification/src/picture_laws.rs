//! What a pictured value says of the machine's value, whatever may be spent.
use vstd::prelude::*;
use crate::format::NumberTexts;
use crate::object::{Content, Function, HeapState};
use crate::picture::{pictured, pictured_items, pictured_list, shows, Build, Picture, Scene, Shown};
use crate::snapshot::{DebugValue, SnapshotLimits, ValueKind};
use crate::text::utf8_len;
use crate::value::Value;

verus! {

/// What pictures are made from, the numbers that lists were given, and whether
/// a budget has run out.
pub ghost struct Look {
    pub heap: HeapState,
    pub texts: NumberTexts,
    pub limits: SnapshotLimits,
    /// By object; zero where none was given.
    pub ids: Seq<u64>,
    pub spent: bool,
}

/// The text of a number; those that have no digits of their own are spelled
/// out.
pub open spec fn spells(texts: NumberTexts, bits: u64, text: Seq<char>) -> bool {
    let low = bits % 0x8000_0000_0000_0000;
    &&& low > 0x7ff0_0000_0000_0000 ==> text == "nan"@
    &&& bits == 0x7ff0_0000_0000_0000 ==> text == "infinity"@
    &&& bits == 0xfff0_0000_0000_0000 ==> text == "-infinity"@
    &&& bits == 0x8000_0000_0000_0000 ==> text == "-0"@
    &&& low < 0x7ff0_0000_0000_0000 && bits != 0x8000_0000_0000_0000 ==> text == texts.text(bits)
}

/// The name of a function is that of the program, or tells that it has none.
pub open spec fn is_name_of(heap: HeapState, f: Function, text: Seq<char>) -> bool {
    match f.name {
        None => text == "<script>"@,
        Some(name) => heap.get(name) matches Content::Text { text: t, hash: _ } && t == text,
    }
}

/// The text by which a value is shown that is shown by one text.
pub open spec fn is_text_of(look: Look, value: Value, text: Seq<char>) -> bool {
    match value {
        Value::Nil | Value::Bool(_) => false,
        Value::Number(bits) => spells(look.texts, bits, text),
        Value::Obj(object) => match look.heap.get(object) {
            Content::Text { text: t, hash: _ } => text == t,
            Content::Function(f) => is_name_of(look.heap, f, text),
            Content::Closure { function, upvalues: _ } => look.heap.get(function) matches
                Content::Function(f) && is_name_of(look.heap, f, text),
            Content::Native => text == "clock"@,
            _ => false,
        },
    }
}

/// A value of a machine, inside some lists, is shown for what it is: the very
/// value, or as cut off where its text is too long or a budget has run out. A
/// list shows its first items, and tells whether that is all of it.
pub open spec fn depicts(
    look: Look,
    inside: Seq<usize>,
    value: Value,
    shown: DebugValue,
) -> bool
    decreases shown,
{
    match shown {
        DebugValue::Nil => value is Nil,
        DebugValue::Bool(b) => value == Value::Bool(b),
        DebugValue::Number(text) => value is Number && is_text_of(look, value, text@),
        DebugValue::String(text) => value matches Value::Obj(object) && look.heap.get(object)
            is Text && is_text_of(look, value, text@),
        DebugValue::Function(text) => value matches Value::Obj(object) && look.heap.get(object)
            is Function && is_text_of(look, value, text@),
        DebugValue::Closure(text) => value matches Value::Obj(object) && look.heap.get(object)
            is Closure && is_text_of(look, value, text@),
        DebugValue::Native(text) => value matches Value::Obj(object) && look.heap.get(object)
            is Native && is_text_of(look, value, text@),
        DebugValue::List { object_id, items, truncated } => {
            &&& value matches Value::Obj(object) && look.heap.get(object) matches Content::List(all) && {
                &&& object < look.ids.len() && look.ids[object as int] == object_id
                &&& object_id != 0
                &&& !inside.contains(object)
                &&& items@.len() <= all.len()
                &&& items@.len() <= look.limits.max_collection_items
                &&& forall|n: int|
                    0 <= n < items@.len() ==> depicts(
                        look,
                        inside.push(object),
                        all[n],
                        #[trigger] items@[n],
                    )
                &&& !truncated ==> items@.len() == all.len() && forall|n: int|
                    0 <= n < items@.len() ==> !(#[trigger] items@[n] is Truncated)
                &&& truncated ==> look.spent || items@.len() < all.len() || exists|n: int|
                    0 <= n < items@.len() && #[trigger] items@[n] is Truncated
                &&& !look.spent && inside.len() < look.limits.max_depth ==> items@.len()
                    == all.len() || items@.len() == look.limits.max_collection_items
                &&& inside.len() >= look.limits.max_depth ==> items@.len() == 0
            }
        },
        DebugValue::Cycle { object_id } => {
            &&& value matches Value::Obj(object) && look.heap.get(object) is List && object
                < look.ids.len() && look.ids[object as int] == object_id && object_id != 0
                && inside.contains(object)
        },
        DebugValue::Truncated => exists|text: Seq<char>| #[trigger]
            is_text_of(look, value, text) && (look.spent || utf8_len(text)
                > look.limits.max_string_bytes),
    }
}

/// The kind that a value is shown under says how it is shown.
pub open spec fn is_kind_of(kind: ValueKind, shown: DebugValue) -> bool {
    match kind {
        ValueKind::Nil => shown is Nil,
        ValueKind::Bool => shown is Bool,
        ValueKind::Number => shown is Number,
        ValueKind::String => shown is String,
        ValueKind::Function => shown is Function,
        ValueKind::Closure => shown is Closure,
        ValueKind::Native => shown is Native,
        ValueKind::List => shown is List,
        ValueKind::Cycle => shown is Cycle,
        ValueKind::Truncated => shown is Truncated,
    }
}

/// The lists that have been given a number have one each.
pub open spec fn numbered(ids: Seq<u64>) -> bool {
    forall|i: int, j: int|
        0 <= i < j < ids.len() && #[trigger] ids[i] != 0 && #[trigger] ids[j] != 0 ==> ids[i]
            != ids[j]
}

pub open spec fn look_of(scene: Scene, b: Build) -> Look {
    Look {
        heap: scene.heap,
        texts: scene.texts,
        limits: scene.limits,
        ids: b.ids,
        spent: b.budget.exhausted is Some,
    }
}

/// A picture in the making that lists can be numbered in.
pub open spec fn in_hand(scene: Scene, b: Build) -> bool {
    &&& b.budget.limits == scene.limits
    &&& b.ids.len() == scene.heap.objects.len()
    &&& numbered(b.ids)
    &&& b.next_id > 0
    &&& forall|i: int| 0 <= i < b.ids.len() ==> #[trigger] b.ids[i] < b.next_id
    &&& forall|i: int|
        0 <= i < b.active.len() ==> #[trigger] b.active[i] < b.ids.len()
            && b.ids[b.active[i] as int] != 0
}

/// Numbers that were given stay, and a budget that has run out stays so.
pub open spec fn follows(a: Look, b: Look) -> bool {
    &&& a.heap == b.heap && a.texts == b.texts && a.limits == b.limits
    &&& a.ids.len() == b.ids.len()
    &&& forall|i: int| 0 <= i < a.ids.len() && #[trigger] a.ids[i] != 0 ==> b.ids[i] == a.ids[i]
    &&& a.spent ==> b.spent
}

pub proof fn lemma_follows(a: Look, b: Look, c: Look)
    requires
        follows(a, b),
        follows(b, c),
    ensures
        follows(a, c),
{
    assert forall|i: int| 0 <= i < a.ids.len() && #[trigger] a.ids[i] != 0 implies c.ids[i]
        == a.ids[i] by {
        assert(b.ids[i] == a.ids[i]);
    }
}

/// What was shown rightly stays so.
pub proof fn lemma_depicts_on(
    a: Look,
    b: Look,
    inside: Seq<usize>,
    value: Value,
    shown: DebugValue,
)
    requires
        follows(a, b),
        depicts(a, inside, value, shown),
    ensures
        depicts(b, inside, value, shown),
    decreases shown,
{
    match shown {
        DebugValue::List { object_id, items, truncated } => {
            let object = value->Obj_0;
            let all = a.heap.get(object)->List_0;
            let further = inside.push(object);
            assert forall|n: int| 0 <= n < items@.len() implies depicts(
                b,
                further,
                all[n],
                #[trigger] items@[n],
            ) by {
                assert(depicts(a, further, all[n], items@[n]));
                lemma_depicts_on(a, b, further, all[n], items@[n]);
            }
        },
        DebugValue::Truncated => {
            let text = choose|text: Seq<char>| #[trigger]
                is_text_of(a, value, text) && (a.spent || utf8_len(text)
                    > a.limits.max_string_bytes);
            assert(is_text_of(b, value, text));
        },
        DebugValue::Number(text) => {
            assert(is_text_of(b, value, text@) == is_text_of(a, value, text@));
        },
        DebugValue::String(text) => {
            assert(is_text_of(b, value, text@) == is_text_of(a, value, text@));
        },
        DebugValue::Function(text) => {
            assert(is_text_of(b, value, text@) == is_text_of(a, value, text@));
        },
        DebugValue::Closure(text) => {
            assert(is_text_of(b, value, text@) == is_text_of(a, value, text@));
        },
        DebugValue::Native(text) => {
            assert(is_text_of(b, value, text@) == is_text_of(a, value, text@));
        },
        _ => {},
    }
}

/// What shows a picture shows the value rightly, and under its kind.
pub open spec fn stands(
    look: Look,
    inside: Seq<usize>,
    value: Value,
    kind: ValueKind,
    shown: Shown,
) -> bool {
    forall|d: DebugValue| #[trigger]
        shows(d, shown) ==> depicts(look, inside, value, d) && is_kind_of(kind, d)
}

/// The same of the first items of a list.
spec fn all_stand(look: Look, inside: Seq<usize>, items: Seq<Value>, done: Seq<Shown>) -> bool {
    &&& done.len() <= items.len()
    &&& forall|n: int, d: DebugValue|
        0 <= n < done.len() && #[trigger] shows(d, done[n]) ==> depicts(look, inside, items[n], d)
}

proof fn lemma_all_stand_on(
    a: Look,
    b: Look,
    inside: Seq<usize>,
    items: Seq<Value>,
    done: Seq<Shown>,
)
    requires
        follows(a, b),
        all_stand(a, inside, items, done),
    ensures
        all_stand(b, inside, items, done),
{
    assert forall|n: int, d: DebugValue|
        0 <= n < done.len() && #[trigger] shows(d, done[n]) implies depicts(
        b,
        inside,
        items[n],
        d,
    ) by {
        lemma_depicts_on(a, b, inside, items[n], d);
    }
}

/// A picture in the making goes on from another.
pub open spec fn goes_on(scene: Scene, b: Build, after: Build) -> bool {
    &&& in_hand(scene, after)
    &&& after.active == b.active
    &&& follows(look_of(scene, b), look_of(scene, after))
}

/// A value was pictured rightly, if it was.
pub open spec fn well_pictured(scene: Scene, b: Build, value: Value, result: (Build, Picture)) -> bool {
    result.1 matches Ok((kind, shown)) ==> goes_on(scene, b, result.0) && stands(
        look_of(scene, result.0),
        b.active,
        value,
        kind,
        shown,
    )
}

proof fn lemma_text(
    scene: Scene,
    b: Build,
    inside: Seq<usize>,
    value: Value,
    text: Seq<char>,
    kind: ValueKind,
    shown: Shown,
)
    requires
        in_hand(scene, b),
        is_text_of(look_of(scene, b), value, text),
        forall|d: DebugValue| #[trigger]
            shows(d, shown) ==> depicts(look_of(scene, b), inside, value, d) && is_kind_of(kind, d),
    ensures
        ({
            let (after, picture) = b.text(text, kind, shown);
            &&& goes_on(scene, b, after)
            &&& picture matches Ok((k, p)) && stands(look_of(scene, after), inside, value, k, p)
        }),
{
    let (after, picture) = b.text(text, kind, shown);
    let (k, p) = picture->Ok_0;
    let look = look_of(scene, after);
    assert forall|d: DebugValue| #[trigger] shows(d, p) implies depicts(look, inside, value, d)
        && is_kind_of(k, d) by {
        if b.budget.on_dynamic_string(text).1 is Admitted {
            lemma_depicts_on(look_of(scene, b), look, inside, value, d);
        } else {
            assert(is_text_of(look, value, text));
        }
    }
}

/// A value is pictured as what it is.
pub proof fn lemma_pictured(scene: Scene, value: Value, depth: nat, b: Build)
    requires
        in_hand(scene, b),
        b.active.len() == depth,
        depth <= scene.limits.max_depth,
    ensures
        well_pictured(scene, b, value, pictured(scene, value, depth, b)),
    decreases scene.limits.max_depth + 1 - depth, 2int, 0int,
{
    let result = pictured(scene, value, depth, b);
    let look = look_of(scene, b);
    match value {
        Value::Nil => {
            assert(stands(look, b.active, value, ValueKind::Nil, Shown::Nil));
        },
        Value::Bool(yes) => {
            assert(stands(look, b.active, value, ValueKind::Bool, Shown::Bool(yes)));
        },
        Value::Number(bits) => {
            let text = crate::picture::canonical_text(scene.texts, bits);
            let met = Build { numbers: b.numbers.push(bits), ..b };
            assert(look_of(scene, met) == look);
            lemma_text(scene, met, b.active, value, text, ValueKind::Number, Shown::Number(text));
        },
        Value::Obj(object) => match scene.heap.get(object) {
            Content::Text { text, hash } => {
                lemma_text(scene, b, b.active, value, text, ValueKind::String, Shown::Text(text));
            },
            Content::Function(_) => {
                if let Ok(name) = crate::picture::checked_name(scene.heap, object) {
                    lemma_text(
                        scene,
                        b,
                        b.active,
                        value,
                        name,
                        ValueKind::Function,
                        Shown::Function(name),
                    );
                }
            },
            Content::Closure { function, upvalues } => {
                if let Ok(name) = crate::picture::checked_name(scene.heap, function) {
                    lemma_text(
                        scene,
                        b,
                        b.active,
                        value,
                        name,
                        ValueKind::Closure,
                        Shown::Closure(name),
                    );
                }
            },
            Content::Native => {
                let name = "clock"@;
                lemma_text(scene, b, b.active, value, name, ValueKind::Native, Shown::Native(name));
            },
            Content::List(items) => {
                if b.ids[object as int] == 0 {
                    if b.next_id < u64::MAX {
                        let id = b.next_id;
                        let c = Build {
                            ids: b.ids.update(object as int, id),
                            next_id: (id + 1) as u64,
                            ..b
                        };
                        assert(in_hand(scene, c));
                        assert(follows(look, look_of(scene, c)));
                        if b.active.contains(object) {
                            let i = b.active.index_of(object);
                            assert(b.active[i] == object);
                        }
                        lemma_pictured_list(scene, object, id, items, depth, c);
                        if result.1 is Ok {
                            lemma_follows(look, look_of(scene, c), look_of(scene, result.0));
                        }
                    }
                } else if !b.active.contains(object) {
                    lemma_pictured_list(scene, object, b.ids[object as int], items, depth, b);
                }
            },
            _ => {},
        },
    }
}

proof fn lemma_pictured_list(
    scene: Scene,
    object: usize,
    object_id: u64,
    items: Seq<Value>,
    depth: nat,
    b: Build,
)
    requires
        in_hand(scene, b),
        b.active.len() == depth,
        depth <= scene.limits.max_depth,
        object < b.ids.len(),
        b.ids[object as int] == object_id,
        object_id != 0,
        !b.active.contains(object),
        scene.heap.get(object) == Content::List(items),
    ensures
        well_pictured(scene, b, Value::Obj(object), pictured_list(scene, object, object_id, items, depth, b)),
    decreases scene.limits.max_depth + 1 - depth, 1int, 0int,
{
    if depth < scene.limits.max_depth {
        let opened = Build { active: b.active.push(object), ..b };
        assert forall|i: int| 0 <= i < opened.active.len() implies #[trigger] opened.active[i]
            < opened.ids.len() && opened.ids[opened.active[i] as int] != 0 by {
            if i < b.active.len() {
                assert(opened.active[i] == b.active[i]);
            }
        }
        let cut = items.len() > scene.limits.max_collection_items;
        lemma_pictured_items(scene, items, 0, depth, opened, Seq::empty(), cut);
        let (last, result) = pictured_items(scene, items, 0, depth, opened, Seq::empty(), cut);
        if let Ok((done, truncated)) = result {
            let after = pictured_list(scene, object, object_id, items, depth, b).0;
            assert(opened.active.drop_last() =~= b.active);
            assert(after.active == b.active);
            assert(look_of(scene, after) == look_of(scene, last));
            assert forall|i: int| 0 <= i < after.active.len() implies #[trigger] after.active[i]
                < after.ids.len() && after.ids[after.active[i] as int] != 0 by {
                assert(opened.active[i] == after.active[i]);
                assert(last.active[i] == after.active[i]);
            }
            assert(in_hand(scene, after));
            let shown = Shown::List { object_id, items: done, truncated };
            let look = look_of(scene, after);
            assert forall|d: DebugValue| #[trigger] shows(d, shown) implies depicts(
                look,
                b.active,
                Value::Obj(object),
                d,
            ) && is_kind_of(ValueKind::List, d) by {
                let parts = d->List_items@;
                assert forall|n: int| 0 <= n < parts.len() implies depicts(
                    look,
                    opened.active,
                    items[n],
                    #[trigger] parts[n],
                ) && (done[n] is Truncated <==> parts[n] is Truncated) by {
                    assert(shows(parts[n], done[n]));
                }
                if truncated && !look.spent && done.len() == items.len() {
                    let n = choose|n: int| 0 <= n < done.len() && #[trigger] done[n] is Truncated;
                    assert(parts[n] is Truncated);
                }
            }
        }
    }
}

proof fn lemma_pictured_items(
    scene: Scene,
    items: Seq<Value>,
    i: int,
    depth: nat,
    b: Build,
    done: Seq<Shown>,
    truncated: bool,
)
    requires
        in_hand(scene, b),
        b.active.len() == depth + 1,
        depth < scene.limits.max_depth,
        0 <= i == done.len(),
        i <= items.len(),
        i <= scene.limits.max_collection_items,
        all_stand(look_of(scene, b), b.active, items, done),
        truncated <==> items.len() > scene.limits.max_collection_items || exists|n: int|
            0 <= n < done.len() && #[trigger] done[n] is Truncated,
    ensures
        ({
            let (after, result) = pictured_items(scene, items, i, depth, b, done, truncated);
            result matches Ok((all, cut)) ==> {
                &&& goes_on(scene, b, after)
                &&& all_stand(look_of(scene, after), b.active, items, all)
                &&& all.len() <= scene.limits.max_collection_items
                &&& !cut ==> all.len() == items.len() && forall|n: int|
                    0 <= n < all.len() ==> !(#[trigger] all[n] is Truncated)
                &&& cut ==> after.budget.exhausted is Some || all.len() < items.len() || exists|
                    n: int,
                |
                    0 <= n < all.len() && #[trigger] all[n] is Truncated
                &&& after.budget.exhausted is None ==> all.len() == items.len() || all.len()
                    == scene.limits.max_collection_items
            }
        }),
    decreases scene.limits.max_depth - depth, 3int, items.len() - i,
{
    if i < items.len() && i < scene.limits.max_collection_items {
        let (budget, answer) = b.budget.on_value();
        let reserved = b.with_budget(budget);
        assert(goes_on(scene, b, reserved));
        lemma_all_stand_on(look_of(scene, b), look_of(scene, reserved), b.active, items, done);
        if answer is Ok {
            lemma_pictured(scene, items[i], depth + 1, reserved);
            let (after, picture) = pictured(scene, items[i], depth + 1, reserved);
            if let Ok((kind, shown)) = picture {
                let more = done.push(shown);
                lemma_all_stand_on(
                    look_of(scene, reserved),
                    look_of(scene, after),
                    b.active,
                    items,
                    done,
                );
                assert forall|n: int, d: DebugValue|
                    0 <= n < more.len() && #[trigger] shows(d, more[n]) implies depicts(
                    look_of(scene, after),
                    b.active,
                    items[n],
                    d,
                ) by {
                    if n < i {
                        assert(more[n] == done[n]);
                    }
                }
                let cut = truncated || shown is Truncated;
                assert(cut <==> items.len() > scene.limits.max_collection_items || exists|n: int|
                    0 <= n < more.len() && #[trigger] more[n] is Truncated) by {
                    if exists|n: int| 0 <= n < done.len() && #[trigger] done[n] is Truncated {
                        let n = choose|n: int| 0 <= n < done.len() && #[trigger] done[n] is Truncated;
                        assert(more[n] is Truncated);
                    }
                    if shown is Truncated {
                        assert(more[i] is Truncated);
                    }
                    if exists|n: int| 0 <= n < more.len() && #[trigger] more[n] is Truncated {
                        let n = choose|n: int| 0 <= n < more.len() && #[trigger] more[n] is Truncated;
                        if n < i {
                            assert(done[n] is Truncated);
                        }
                    }
                }
                if after.budget.exhausted is None {
                    lemma_pictured_items(scene, items, i + 1, depth, after, more, cut);
                }
            }
        }
    }
}

/// A pictured value shows the machine's value: the very truth value, number,
/// text or name, and the items of a list in their order. Lists have the same
/// number exactly where they are the same list.
pub proof fn law_values_are_shown_as_they_are(
    scene: Scene,
    value: Value,
    depth: nat,
    b: Build,
    shown: DebugValue,
)
    requires
        in_hand(scene, b),
        b.active.len() == depth,
        depth <= scene.limits.max_depth,
    ensures
        ({
            let (after, picture) = pictured(scene, value, depth, b);
            picture matches Ok((kind, p)) ==> {
                &&& numbered(after.ids)
                &&& shows(shown, p) ==> depicts(look_of(scene, after), b.active, value, shown)
                    && is_kind_of(kind, shown)
            }
        }),
{
    lemma_pictured(scene, value, depth, b);
}

/// `nil` and the truth values are always shown, as themselves, and whatever is
/// shown as `nil` or as a truth value is that.
pub proof fn law_plain_values_are_shown(look: Look, inside: Seq<usize>, value: Value, shown: DebugValue)
    requires
        depicts(look, inside, value, shown),
    ensures
        value is Nil <==> shown is Nil,
        value matches Value::Bool(b) ==> shown == DebugValue::Bool(b),
        shown matches DebugValue::Bool(b) ==> value == Value::Bool(b),
{
}

/// A value that is shown by a text is shown by that very text, unless the text
/// is too long or a budget has run out.
pub proof fn law_texts_are_shown_whole(
    look: Look,
    inside: Seq<usize>,
    value: Value,
    text: Seq<char>,
    shown: DebugValue,
)
    requires
        depicts(look, inside, value, shown),
        is_text_of(look, value, text),
        utf8_len(text) <= look.limits.max_string_bytes,
        !look.spent,
    ensures
        match shown {
            DebugValue::Number(t) => value is Number && t@ == text,
            DebugValue::String(t) => value is Obj && look.heap.get(value->Obj_0) is Text && t@
                == text,
            DebugValue::Function(t) => value is Obj && look.heap.get(value->Obj_0) is Function
                && t@ == text,
            DebugValue::Closure(t) => value is Obj && look.heap.get(value->Obj_0) is Closure && t@
                == text,
            DebugValue::Native(t) => value is Obj && look.heap.get(value->Obj_0) is Native && t@
                == text,
            _ => false,
        },
{
    if let Value::Number(bits) = value {
        assert(bits % 0x8000_0000_0000_0000 == 0x7ff0_0000_0000_0000 ==> bits
            == 0x7ff0_0000_0000_0000 || bits == 0xfff0_0000_0000_0000) by (bit_vector);
    }
}

} // verus!
