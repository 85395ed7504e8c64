//! What is reserved for a snapshot is enough for it: a snapshot that can be
//! pictured is never refused for its size.
use vstd::prelude::*;
use crate::debug_info::{BindingDebugInfo, BindingId, UpvalueDebugInfo};
use crate::machine::VmState;
use crate::object::{Content, Function};
use crate::picture::{
    pictured, pictured_items, pictured_list, shows, shows_binding, shows_bindings, BindingPicture,
    Build, Scene, Shown,
};
use crate::session::PauseReason;
use crate::snapshot::{
    escaped_len, grown, lemma_grown_twice, pause_reason_name, snapshot_estimate, value_kind_text,
    with_binding_items, with_binding_parts, with_bindings, with_frame_items, with_frame_parts,
    with_literal, with_reason, with_span, with_tagged, with_unsigned, with_value, with_values,
    BindingSnapshot, DebugValue, Estimate, FrameSnapshot, SnapshotBuildError, SnapshotLimits,
    SnapshotReason, ValueKind, VmSnapshot, MAX_DEPTH,
};
use crate::snapshot_budget::{
    binding_schema, frame_schema, is_greatest, schema, snapshot_schema, value_schemas,
};
use crate::snapshot_builder::{
    frame_picture, frame_upvalues, locals_from, shows_frame, upvalues_from, wanted, FramePicture,
    SnapshotRequest, ValidatedFrame,
};
use crate::snapshot_globals::{
    composition, fits, globals_from, shows_snapshot, snapshot_picture, SnapshotPicture,
};
use crate::snapshot_machine::{frames_from, shows_frames, validated};
use crate::table::Key;
use crate::text::utf8_len;
use crate::value::Value;
use crate::wire_diagnostic::lit;

verus! {

broadcast proof fn grown_twice(e: Estimate, a: nat, b: nat)
    ensures
        #[trigger] grown(grown(e, a), b) == grown(e, a + b),
{
    lemma_grown_twice(e, a, b);
}

/// A size that has grown can be counted.
proof fn lemma_grown_is_counted(e: Estimate, bytes: nat)
    ensures
        grown(e, bytes) matches Ok(size) ==> size <= usize::MAX,
{
    reveal(grown);
}

spec fn tag_cost(tag: &str) -> nat {
    lit("{\"kind\":\"") + lit(tag) + lit("\",\"payload\":") + 2 + lit("}")
}

spec fn list_cost() -> nat {
    lit("{\"kind\":\"list\",\"payload\":{\"object_id\":") + 20 + lit(", \"items\":") + lit("[")
        + lit("]") + lit(", \"truncated\":false}}")
}

spec fn cycle_cost() -> nat {
    lit("{\"kind\":\"cycle\",\"payload\":{\"object_id\":") + 20 + lit("}}")
}

/// The size of a shown value.
spec fn cost(shown: Shown) -> nat
    decreases shown, 0nat,
{
    match shown {
        Shown::Nil => lit("{\"kind\":\"nil\"}"),
        Shown::Bool(_) => lit("{\"kind\":\"bool\",\"payload\":false}"),
        Shown::Number(text) => tag_cost("number") + escaped_len(text),
        Shown::Text(text) => tag_cost("string") + escaped_len(text),
        Shown::Function(text) => tag_cost("function") + escaped_len(text),
        Shown::Closure(text) => tag_cost("closure") + escaped_len(text),
        Shown::Native(text) => tag_cost("native") + escaped_len(text),
        Shown::List { object_id, items, truncated } => list_cost() + items_cost(items, items.len()),
        Shown::Cycle { object_id } => cycle_cost(),
        Shown::Truncated => lit("{\"kind\":\"truncated\"}"),
    }
}

/// The size of the first `n` shown values, with commas between them.
spec fn items_cost(items: Seq<Shown>, n: nat) -> nat
    decreases items, n,
{
    if n == 0 || n > items.len() {
        0
    } else {
        items_cost(items, (n - 1) as nat) + (if n > 1 {
            lit(",")
        } else {
            0
        }) + cost(items[n - 1])
    }
}

/// A shown value is not nested deeper than values may be.
spec fn shallow(shown: Shown, depth: nat) -> bool
    decreases shown,
{
    depth <= MAX_DEPTH && (shown matches Shown::List { object_id, items, truncated } ==> forall|
        i: int,
    |
        0 <= i < items.len() ==> shallow(#[trigger] items[i], depth + 1))
}

proof fn lemma_comma()
    ensures
        lit(",") == 1,
        lit("null") <= 16,
{
    reveal_strlit(",");
    assert(","@.drop_last() =~= Seq::empty());
    reveal_with_fuel(utf8_len, 2);
    reveal_strlit("null");
    crate::text::lemma_utf8_len_bounds("null"@);
}

proof fn lemma_tagged(e: Estimate, tag: &str, s: Seq<char>)
    ensures
        with_tagged(e, tag, s) == grown(e, tag_cost(tag) + escaped_len(s)),
{
    broadcast use grown_twice;

}

/// The size of a value is that of what it shows.
proof fn lemma_value(e: Estimate, value: DebugValue, shown: Shown, depth: nat)
    requires
        shows(value, shown),
        shallow(shown, depth),
    ensures
        with_value(e, value, depth) == grown(e, cost(shown)),
    decreases shown, 0nat,
{
    if e is Err {
        reveal(grown);
    } else {
        match (value, shown) {
            (DebugValue::Number(a), _) => {
                lemma_tagged(e, "number", a@);
            },
            (DebugValue::String(a), _) => {
                lemma_tagged(e, "string", a@);
            },
            (DebugValue::Function(a), _) => {
                lemma_tagged(e, "function", a@);
            },
            (DebugValue::Closure(a), _) => {
                lemma_tagged(e, "closure", a@);
            },
            (DebugValue::Native(a), _) => {
                lemma_tagged(e, "native", a@);
            },
            (
                DebugValue::List { object_id, items, truncated },
                Shown::List { object_id: _, items: all, truncated: _ },
            ) => {
                broadcast use grown_twice;

                let opened = with_literal(
                    with_literal(
                        with_unsigned(
                            with_literal(e, "{\"kind\":\"list\",\"payload\":{\"object_id\":"),
                        ),
                        ", \"items\":",
                    ),
                    "[",
                );
                lemma_grown_is_counted(
                    with_literal(
                        with_unsigned(
                            with_literal(e, "{\"kind\":\"list\",\"payload\":{\"object_id\":"),
                        ),
                        ", \"items\":",
                    ),
                    lit("["),
                );
                lemma_values(opened, items@, all, items@.len(), depth + 1);
            },
            (DebugValue::Cycle { object_id }, _) => {
                broadcast use grown_twice;

            },
            _ => {},
        }
    }
}

proof fn lemma_values(e: Estimate, values: Seq<DebugValue>, all: Seq<Shown>, n: nat, depth: nat)
    requires
        e matches Ok(size) ==> size <= usize::MAX,
        n <= values.len() == all.len(),
        forall|i: int| 0 <= i < all.len() ==> shows(values[i], #[trigger] all[i]),
        forall|i: int| 0 <= i < all.len() ==> shallow(#[trigger] all[i], depth),
    ensures
        with_values(e, values, n, depth) == grown(e, items_cost(all, n)),
    decreases all, n,
{
    if n == 0 {
        reveal(grown);
    } else {
        broadcast use grown_twice;

        lemma_values(e, values, all, (n - 1) as nat, depth);
        let before = with_values(e, values, (n - 1) as nat, depth);
        let e1 = if n > 1 {
            with_literal(before, ",")
        } else {
            before
        };
        assert(shows(values[n - 1], all[n - 1]));
        assert(shallow(all[n - 1], depth));
        lemma_value(e1, values[n - 1], all[n - 1], depth);
    }
}

/// The greatest size of a value with nothing in it.
spec fn bare() -> int {
    schema().value - 1
}

/// A size is the greatest of some sizes up to a place.
proof fn lemma_has_greatest(sizes: Seq<Estimate>)
    requires
        sizes.len() > 0,
        forall|i: int| 0 <= i < sizes.len() ==> (#[trigger] sizes[i]) is Ok,
    ensures
        exists|size: nat| is_greatest(size, sizes),
    decreases sizes.len(),
{
    if sizes.len() == 1 {
        assert(is_greatest(sizes[0]->Ok_0, sizes));
    } else {
        let front = sizes.drop_last();
        assert forall|i: int| 0 <= i < front.len() implies (#[trigger] front[i]) is Ok by {
            assert(front[i] == sizes[i]);
        }
        lemma_has_greatest(front);
        let most = choose|size: nat| is_greatest(size, front);
        let last = sizes.last()->Ok_0;
        let i = choose|i: int| 0 <= i < front.len() && #[trigger] front[i] == Estimate::Ok(most);
        assert(sizes[i] == front[i]);
        assert(sizes[sizes.len() - 1] == Estimate::Ok(last));
        let size = if last > most {
            last
        } else {
            most
        };
        assert forall|j: int| 0 <= j < sizes.len() implies ((#[trigger] sizes[j]) matches Ok(other)
            && other <= size) by {
            if j < front.len() {
                assert(sizes[j] == front[j]);
            }
        }
        assert(is_greatest(size, sizes));
    }
}

/// The empty records have sizes.
proof fn lemma_schema_holds()
    ensures
        schema().wf(),
{
    crate::snapshot_budget::lemma_schemas_are_short();
    lemma_has_greatest(value_schemas());
    let most = choose|size: nat| is_greatest(size, value_schemas());
    let i = choose|i: int| 0 <= i < value_schemas().len() && #[trigger] value_schemas()[i]
        == Estimate::Ok(most);
    let sizes = crate::snapshot_budget::SchemaEstimates {
        snapshot: snapshot_schema()->Ok_0 as usize,
        frame: (frame_schema()->Ok_0 + 1) as usize,
        binding: (binding_schema()->Ok_0 + 1) as usize,
        value: (most + 1) as usize,
    };
    assert(sizes.wf());
}

/// No value with nothing in it is greater than the greatest.
proof fn lemma_bare()
    ensures
        bare() >= 0,
        lit("{\"kind\":\"nil\"}") <= bare(),
        lit("{\"kind\":\"bool\",\"payload\":false}") <= bare(),
        tag_cost("number") <= bare(),
        tag_cost("string") <= bare(),
        tag_cost("function") <= bare(),
        tag_cost("closure") <= bare(),
        tag_cost("native") <= bare(),
        list_cost() <= bare(),
        cycle_cost() <= bare(),
        lit("{\"kind\":\"truncated\"}") <= bare(),
{
    broadcast use grown_twice;

    lemma_schema_holds();
    reveal(value_schemas);
    let all = value_schemas();
    let none = Seq::<char>::empty();
    assert(escaped_len(none) == 0);
    lemma_tagged(Ok(0), "number", none);
    lemma_tagged(Ok(0), "string", none);
    lemma_tagged(Ok(0), "function", none);
    lemma_tagged(Ok(0), "closure", none);
    lemma_tagged(Ok(0), "native", none);
    assert(all[0] == grown(Ok(0), lit("{\"kind\":\"nil\"}")));
    assert(all[1] == grown(Ok(0), lit("{\"kind\":\"bool\",\"payload\":false}")));
    assert(all[2] == grown(Ok(0), tag_cost("number")));
    assert(all[3] == grown(Ok(0), tag_cost("string")));
    assert(all[4] == grown(Ok(0), tag_cost("function")));
    assert(all[5] == grown(Ok(0), tag_cost("closure")));
    assert(all[6] == grown(Ok(0), tag_cost("native")));
    assert(all[7] == grown(Ok(0), list_cost()));
    assert(all[8] == grown(Ok(0), cycle_cost()));
    assert(all[9] == grown(Ok(0), lit("{\"kind\":\"truncated\"}")));
    reveal(grown);
}

spec fn spent(b: Build) -> int {
    b.budget.estimated_json_bytes as int
}

/// More is spent, within the limits.
spec fn spends(b: Build, after: Build) -> bool {
    &&& after.budget.limits == b.budget.limits
    &&& spent(b) <= spent(after)
    &&& spent(b) <= b.budget.limits.max_estimated_json_bytes ==> spent(after)
        <= b.budget.limits.max_estimated_json_bytes
}

proof fn lemma_prefix_cost(items: Seq<Shown>, more: Shown, n: nat)
    requires
        n <= items.len(),
    ensures
        items_cost(items.push(more), n) == items_cost(items, n),
    decreases n,
{
    if n > 0 {
        lemma_prefix_cost(items, more, (n - 1) as nat);
        assert(items.push(more)[n - 1] == items[n - 1]);
    }
}

/// What is spent on a value is enough for it.
proof fn lemma_pictured(scene: Scene, value: Value, depth: nat, b: Build)
    requires
        depth <= scene.limits.max_depth <= MAX_DEPTH,
    ensures
        ({
            let (after, picture) = pictured(scene, value, depth, b);
            &&& spends(b, after)
            &&& picture matches Ok((_, shown)) ==> shallow(shown, depth) && cost(shown) <= bare()
                + spent(after) - spent(b)
        }),
    decreases scene.limits.max_depth + 1 - depth, 2int, 0int,
{
    lemma_bare();
    match value {
        Value::Obj(object) => match scene.heap.get(object) {
            Content::List(items) => {
                if b.ids[object as int] == 0 {
                    if b.next_id != u64::MAX {
                        let id = b.next_id;
                        let b1 = Build {
                            ids: b.ids.update(object as int, id),
                            next_id: (id + 1) as u64,
                            ..b
                        };
                        lemma_pictured_list(scene, object, id, items, depth, b1);
                    }
                } else if !b.active.contains(object) {
                    lemma_pictured_list(scene, object, b.ids[object as int], items, depth, b);
                }
            },
            _ => {},
        },
        _ => {},
    }
}

proof fn lemma_pictured_list(
    scene: Scene,
    object: usize,
    object_id: u64,
    items: Seq<Value>,
    depth: nat,
    b: Build,
)
    requires
        depth <= scene.limits.max_depth <= MAX_DEPTH,
    ensures
        ({
            let (after, picture) = pictured_list(scene, object, object_id, items, depth, b);
            &&& spends(b, after)
            &&& picture matches Ok((_, shown)) ==> shallow(shown, depth) && cost(shown) <= bare()
                + spent(after) - spent(b)
        }),
    decreases scene.limits.max_depth + 1 - depth, 1int, 0int,
{
    lemma_bare();
    if depth < scene.limits.max_depth {
        let opened = Build { active: b.active.push(object), ..b };
        let cut = items.len() > scene.limits.max_collection_items;
        lemma_pictured_items(scene, items, 0, depth, opened, Seq::empty(), cut);
    }
}

proof fn lemma_pictured_items(
    scene: Scene,
    items: Seq<Value>,
    i: int,
    depth: nat,
    b: Build,
    done: Seq<Shown>,
    truncated: bool,
)
    requires
        depth < scene.limits.max_depth <= MAX_DEPTH,
        forall|n: int| 0 <= n < done.len() ==> shallow(#[trigger] done[n], depth + 1),
    ensures
        ({
            let (after, result) = pictured_items(scene, items, i, depth, b, done, truncated);
            &&& spends(b, after)
            &&& result matches Ok((shown, _)) ==> {
                &&& forall|n: int| 0 <= n < shown.len() ==> shallow(#[trigger] shown[n], depth + 1)
                &&& items_cost(shown, shown.len()) <= items_cost(done, done.len()) + spent(after)
                    - spent(b)
            }
        }),
    decreases scene.limits.max_depth - depth, 3int, items.len() - i,
{
    if 0 <= i < items.len() && i < scene.limits.max_collection_items {
        lemma_schema_holds();
        lemma_comma();
        let (budget, answer) = b.budget.on_value();
        let b1 = b.with_budget(budget);
        if answer is Ok {
            lemma_pictured(scene, items[i], depth + 1, b1);
            let (b2, picture) = pictured(scene, items[i], depth + 1, b1);
            if let Ok((_, shown)) = picture {
                let more = done.push(shown);
                lemma_prefix_cost(done, shown, done.len());
                assert(more[done.len() as int] == shown);
                assert forall|n: int| 0 <= n < more.len() implies shallow(
                    #[trigger] more[n],
                    depth + 1,
                ) by {
                    if n < done.len() {
                        assert(more[n] == done[n]);
                    }
                }
                assert(items_cost(more, more.len()) <= items_cost(done, done.len()) + 1 + cost(
                    shown,
                ));
                if !b2.exhausted() {
                    lemma_pictured_items(
                        scene,
                        items,
                        i + 1,
                        depth,
                        b2,
                        more,
                        truncated || shown is Truncated,
                    );
                }
            }
        }
    }
}

spec fn binding_fixed(has_id: bool) -> nat {
    lit("{\"binding_id\":") + (if has_id {
        20
    } else {
        lit("null")
    }) + lit(", \"name\":") + lit(", \"name_truncated\":false,\"binding_kind\":") + lit(
        ", \"value_kind\":",
    ) + lit(", \"value\":") + lit("}")
}

/// The size of a shown binding.
spec fn binding_cost(p: BindingPicture) -> nat {
    binding_fixed(p.binding_id is Some) + (2 + escaped_len(p.name)) + (2 + escaped_len(
        p.binding_kind,
    )) + (2 + escaped_len(value_kind_text(p.value_kind))) + cost(p.value)
}

proof fn lemma_binding_parts(
    e: Estimate,
    has_id: bool,
    name: Seq<char>,
    binding_kind: Seq<char>,
    value_kind: ValueKind,
    value: DebugValue,
    shown: Shown,
)
    requires
        shows(value, shown),
        shallow(shown, 0),
    ensures
        with_binding_parts(e, has_id, name, binding_kind, value_kind, value) == grown(
            e,
            binding_fixed(has_id) + (2 + escaped_len(name)) + (2 + escaped_len(binding_kind)) + (2
                + escaped_len(value_kind_text(value_kind))) + cost(shown),
        ),
{
    let a1 = lit("{\"binding_id\":");
    let a2 = if has_id {
        20nat
    } else {
        lit("null")
    };
    let a3 = lit(", \"name\":");
    let a4 = 2 + escaped_len(name);
    let a5 = lit(", \"name_truncated\":false,\"binding_kind\":");
    let a6 = 2 + escaped_len(binding_kind);
    let a7 = lit(", \"value_kind\":");
    let a8 = 2 + escaped_len(value_kind_text(value_kind));
    let a9 = lit(", \"value\":");
    let c2 = a1 + a2;
    let c3 = c2 + a3;
    let c4 = c3 + a4;
    let c5 = c4 + a5;
    let c6 = c5 + a6;
    let c7 = c6 + a7;
    let c8 = c7 + a8;
    let c9 = c8 + a9;
    lemma_grown_twice(e, a1, a2);
    lemma_grown_twice(e, c2, a3);
    lemma_grown_twice(e, c3, a4);
    lemma_grown_twice(e, c4, a5);
    lemma_grown_twice(e, c5, a6);
    lemma_grown_twice(e, c6, a7);
    lemma_grown_twice(e, c7, a8);
    lemma_grown_twice(e, c8, a9);
    lemma_value(grown(e, c9), value, shown, 0);
    lemma_grown_twice(e, c9, cost(shown));
    lemma_grown_twice(e, c9 + cost(shown), lit("}"));
}

/// Letters take one byte each.
proof fn lemma_letters(s: Seq<char>)
    requires
        forall|i: int| 0 <= i < s.len() ==> ('a' <= #[trigger] s[i] && s[i] <= 'z') || s[i] == '_',
    ensures
        escaped_len(s) == s.len(),
    decreases s.len(),
{
    if s.len() > 0 {
        let front = s.drop_last();
        assert forall|i: int| 0 <= i < front.len() implies ('a' <= #[trigger] front[i] && front[i]
            <= 'z') || front[i] == '_' by {
            assert(front[i] == s[i]);
        }
        lemma_letters(front);
        assert(('a' <= s[s.len() - 1] && s[s.len() - 1] <= 'z') || s[s.len() - 1] == '_');
    }
}

/// No kind of value has a longer name than a truncated one.
proof fn lemma_kind_names(kind: ValueKind)
    ensures
        escaped_len(value_kind_text(kind)) <= escaped_len(value_kind_text(ValueKind::Truncated)),
{
    reveal_strlit("nil");
    reveal_strlit("bool");
    reveal_strlit("number");
    reveal_strlit("string");
    reveal_strlit("function");
    reveal_strlit("closure");
    reveal_strlit("native");
    reveal_strlit("list");
    reveal_strlit("cycle");
    reveal_strlit("truncated");
    lemma_letters(value_kind_text(kind));
    lemma_letters(value_kind_text(ValueKind::Truncated));
}

/// What an empty binding takes, and what its texts and its value take, is
/// enough for a binding.
proof fn lemma_binding_bound(p: BindingPicture)
    ensures
        binding_cost(p) + 1 <= schema().binding + escaped_len(p.name) + escaped_len(p.binding_kind)
            + cost(p.value),
{
    lemma_schema_holds();
    lemma_comma();
    lemma_kind_names(p.value_kind);
    reveal(binding_schema);
    let none = Seq::<char>::empty();
    assert(escaped_len(none) == 0);
    lemma_binding_parts(
        Ok(0),
        true,
        none,
        none,
        ValueKind::Truncated,
        DebugValue::Nil,
        Shown::Nil,
    );
    reveal(grown);
}

/// A name that is owned was paid for.
proof fn lemma_owned_name(b: Build, name: Seq<char>)
    ensures
        spends(b, b.owned_name(name).0),
        b.owned_name(name).1 matches Some((owned, _)) ==> 2 + escaped_len(owned) <= spent(
            b.owned_name(name).0,
        ) - spent(b),
{
}

/// What is spent on a binding is enough for it and a comma.
proof fn lemma_binding(
    scene: Scene,
    b: Build,
    binding_id: Option<BindingId>,
    name: Seq<char>,
    kind: Seq<char>,
    value: Result<Value, SnapshotBuildError>,
)
    requires
        scene.limits.max_depth <= MAX_DEPTH,
    ensures
        ({
            let (after, result) = b.binding(scene, binding_id, name, kind, value);
            &&& result is Ok ==> spends(b, after)
            &&& result matches Ok(Some(p)) ==> shallow(p.value, 0) && binding_cost(p) + 1 <= spent(
                after,
            ) - spent(b)
        }),
{
    lemma_schema_holds();
    let (budget, first) = b.budget.on_binding();
    let (budget, second) = if first is Ok {
        budget.on_owned_string(kind)
    } else {
        (budget, first)
    };
    let b1 = b.with_budget(budget);
    if second is Ok {
        lemma_owned_name(b1, name);
        if let (b2, Some((owned, cut))) = b1.owned_name(name) {
            let (budget, third) = b2.budget.on_value();
            let b3 = b2.with_budget(budget);
            if third is Ok && value is Ok {
                lemma_pictured(scene, value->Ok_0, 0, b3);
                if let (b4, Ok((value_kind, shown))) = pictured(scene, value->Ok_0, 0, b3) {
                    lemma_binding_bound(
                        BindingPicture {
                            binding_id,
                            name: owned,
                            name_truncated: cut,
                            binding_kind: kind,
                            value_kind,
                            value: shown,
                        },
                    );
                }
            }
        }
    }
}

/// The size of the first `n` shown bindings, with commas between them.
spec fn bindings_cost(ps: Seq<BindingPicture>, n: nat) -> nat
    decreases n,
{
    if n == 0 {
        0
    } else {
        bindings_cost(ps, (n - 1) as nat) + (if n > 1 {
            lit(",")
        } else {
            0
        }) + binding_cost(ps[n - 1])
    }
}

spec fn all_shallow(ps: Seq<BindingPicture>) -> bool {
    forall|i: int| 0 <= i < ps.len() ==> shallow((#[trigger] ps[i]).value, 0)
}

proof fn lemma_binding_items(
    e: Estimate,
    bindings: Seq<BindingSnapshot>,
    ps: Seq<BindingPicture>,
    n: nat,
)
    requires
        e matches Ok(size) ==> size <= usize::MAX,
        n <= ps.len(),
        shows_bindings(bindings, ps),
        all_shallow(ps),
    ensures
        with_binding_items(e, bindings, n) == grown(e, bindings_cost(ps, n)),
    decreases n,
{
    if n == 0 {
        reveal(grown);
    } else {
        broadcast use grown_twice;

        lemma_binding_items(e, bindings, ps, (n - 1) as nat);
        let before = with_binding_items(e, bindings, (n - 1) as nat);
        let e1 = if n > 1 {
            with_literal(before, ",")
        } else {
            before
        };
        let binding = bindings[n - 1];
        let p = ps[n - 1];
        assert(shows_binding(binding, p));
        lemma_binding_parts(
            e1,
            binding.binding_id is Some,
            binding.name@,
            binding.binding_kind@,
            binding.value_kind,
            binding.value,
            p.value,
        );
    }
}

proof fn lemma_bindings(e: Estimate, bindings: Seq<BindingSnapshot>, ps: Seq<BindingPicture>)
    requires
        shows_bindings(bindings, ps),
        all_shallow(ps),
    ensures
        with_bindings(e, bindings) == grown(
            e,
            lit("[") + bindings_cost(ps, ps.len()) + lit("]"),
        ),
{
    broadcast use grown_twice;

    lemma_grown_is_counted(e, lit("["));
    lemma_binding_items(with_literal(e, "["), bindings, ps, ps.len());
}

proof fn lemma_prefix_bindings_cost(ps: Seq<BindingPicture>, p: BindingPicture, n: nat)
    requires
        n <= ps.len(),
    ensures
        bindings_cost(ps.push(p), n) == bindings_cost(ps, n),
    decreases n,
{
    if n > 0 {
        lemma_prefix_bindings_cost(ps, p, (n - 1) as nat);
        assert(ps.push(p)[n - 1] == ps[n - 1]);
    }
}

/// One more binding costs itself and a comma at most.
proof fn lemma_more_bindings(ps: Seq<BindingPicture>, p: BindingPicture)
    requires
        all_shallow(ps),
        shallow(p.value, 0),
    ensures
        all_shallow(ps.push(p)),
        bindings_cost(ps.push(p), ps.len() + 1) <= bindings_cost(ps, ps.len()) + 1 + binding_cost(p),
{
    lemma_comma();
    let more = ps.push(p);
    lemma_prefix_bindings_cost(ps, p, ps.len());
    assert(more[ps.len() as int] == p);
    assert forall|i: int| 0 <= i < more.len() implies shallow((#[trigger] more[i]).value, 0) by {
        if i < ps.len() {
            assert(more[i] == ps[i]);
        }
    }
}

/// What is spent on bindings behind `done` is enough for them.
spec fn paid(b: Build, done: Seq<BindingPicture>, after: Build, ps: Seq<BindingPicture>) -> bool {
    &&& spends(b, after)
    &&& all_shallow(ps)
    &&& bindings_cost(ps, ps.len()) <= bindings_cost(done, done.len()) + spent(after) - spent(b)
}

proof fn lemma_locals(
    s: VmState,
    scene: Scene,
    frame: ValidatedFrame,
    bindings: Seq<BindingDebugInfo>,
    parameters: bool,
    i: int,
    b: Build,
    done: Seq<BindingPicture>,
    emitted: int,
)
    requires
        scene.limits.max_depth <= MAX_DEPTH,
        all_shallow(done),
    ensures
        ({
            let (after, result) = locals_from(
                s,
                scene,
                frame,
                bindings,
                parameters,
                i,
                b,
                done,
                emitted,
            );
            result matches Ok((ps, _, _)) ==> paid(b, done, after, ps)
        }),
    decreases bindings.len() - i,
{
    if 0 <= i < bindings.len() {
        if !wanted(bindings[i], parameters, frame.liveness_offset) {
            lemma_locals(s, scene, frame, bindings, parameters, i + 1, b, done, emitted);
        } else {
            let slot = frame.base + bindings[i].slot;
            let name = bindings[i].name@;
            let kind = crate::snapshot_builder::kind_name(bindings[i].kind);
            let value = Result::<Value, SnapshotBuildError>::Ok(s.stack[slot]);
            lemma_binding(scene, b, Some(bindings[i].id), name, kind, value);
            if let (b1, Ok(Some(p))) = b.binding(scene, Some(bindings[i].id), name, kind, value) {
                lemma_more_bindings(done, p);
                lemma_locals(
                    s,
                    scene,
                    frame,
                    bindings,
                    parameters,
                    i + 1,
                    b1,
                    done.push(p),
                    emitted + 1,
                );
            }
        }
    }
}

proof fn lemma_upvalues(
    s: VmState,
    scene: Scene,
    cells: Seq<usize>,
    infos: Seq<UpvalueDebugInfo>,
    i: int,
    b: Build,
    done: Seq<BindingPicture>,
    emitted: int,
)
    requires
        scene.limits.max_depth <= MAX_DEPTH,
        all_shallow(done),
    ensures
        ({
            let (after, result) = upvalues_from(s, scene, cells, infos, i, b, done, emitted);
            result matches Ok((ps, _, _)) ==> paid(b, done, after, ps)
        }),
    decreases infos.len() - i,
{
    if 0 <= i < infos.len() {
        let id = Some(infos[i].binding_id);
        let name = infos[i].name@;
        let value = crate::snapshot_builder::cell_value(s, cells[infos[i].index as int]);
        lemma_binding(scene, b, id, name, "upvalue"@, value);
        if let (b1, Ok(Some(p))) = b.binding(scene, id, name, "upvalue"@, value) {
            lemma_more_bindings(done, p);
            lemma_upvalues(s, scene, cells, infos, i + 1, b1, done.push(p), emitted + 1);
        }
    }
}

proof fn lemma_globals(
    s: VmState,
    scene: Scene,
    selected: Seq<Key>,
    i: int,
    b: Build,
    done: Seq<BindingPicture>,
)
    requires
        scene.limits.max_depth <= MAX_DEPTH,
        all_shallow(done),
    ensures
        ({
            let (after, result) = globals_from(s, scene, selected, i, b, done);
            result matches Ok((ps, _)) ==> paid(b, done, after, ps)
        }),
    decreases selected.len() - i,
{
    if 0 <= i < selected.len() {
        let name = s.heap.get(selected[i].object)->Text_text;
        let value = Result::<Value, SnapshotBuildError>::Ok(s.globals[selected[i]]);
        lemma_binding(scene, b, None, name, "global"@, value);
        if let (b1, Ok(Some(p))) = b.binding(scene, None, name, "global"@, value) {
            lemma_more_bindings(done, p);
            lemma_globals(s, scene, selected, i + 1, b1, done.push(p));
        }
    }
}

spec fn span_cost() -> nat {
    lit("{\"source_id\":") + lit(", \"revision\":") + lit(", \"start\":{\"byte_offset\":") + lit(
        ", \"line\":",
    ) + lit(", \"column\":") + lit("},\"end\":{\"byte_offset\":") + lit(", \"line\":") + lit(
        ", \"column\":",
    ) + lit("}}") + 160
}

/// A text and a number.
proof fn lemma_labelled(e: Estimate, text: &str)
    ensures
        with_unsigned(with_literal(e, text)) == grown(e, lit(text) + 20),
{
    lemma_grown_twice(e, lit(text), 20);
}

proof fn lemma_span(e: Estimate)
    ensures
        with_span(e) == grown(e, span_cost()),
{
    let c1 = lit("{\"source_id\":") + 20;
    let c2 = lit(", \"revision\":") + 20;
    let c3 = lit(", \"start\":{\"byte_offset\":") + 20;
    let c4 = lit(", \"line\":") + 20;
    let c5 = lit(", \"column\":") + 20;
    let c6 = lit("},\"end\":{\"byte_offset\":") + 20;
    let d2 = c1 + c2;
    let d3 = d2 + c3;
    let d4 = d3 + c4;
    let d5 = d4 + c5;
    let d6 = d5 + c6;
    let d7 = d6 + c4;
    let d8 = d7 + c5;
    lemma_labelled(e, "{\"source_id\":");
    lemma_labelled(grown(e, c1), ", \"revision\":");
    lemma_grown_twice(e, c1, c2);
    lemma_labelled(grown(e, d2), ", \"start\":{\"byte_offset\":");
    lemma_grown_twice(e, d2, c3);
    lemma_labelled(grown(e, d3), ", \"line\":");
    lemma_grown_twice(e, d3, c4);
    lemma_labelled(grown(e, d4), ", \"column\":");
    lemma_grown_twice(e, d4, c5);
    lemma_labelled(grown(e, d5), "},\"end\":{\"byte_offset\":");
    lemma_grown_twice(e, d5, c6);
    lemma_labelled(grown(e, d6), ", \"line\":");
    lemma_grown_twice(e, d6, c4);
    lemma_labelled(grown(e, d7), ", \"column\":");
    lemma_grown_twice(e, d7, c5);
    lemma_grown_twice(e, d8, lit("}}"));
}

/// What a frame takes besides its name and its bindings.
spec fn frame_fixed(has_call_site: bool) -> nat {
    lit("{\"activation_id\":") + 20 + lit(", \"function\":") + lit(
        ", \"function_truncated\":false,\"current_span\":",
    ) + span_cost() + lit(", \"call_site\":") + (if has_call_site {
        span_cost()
    } else {
        lit("null")
    }) + lit(", \"parameters\":") + lit(", \"parameters_truncated\":false,\"locals\":") + lit(
        ", \"locals_truncated\":false,\"upvalues\":",
    ) + lit(", \"upvalues_truncated\":false}") + 3 * (lit("[") + lit("]"))
}

spec fn frame_cost(p: FramePicture) -> nat {
    frame_fixed(p.frame.call_site is Some) + 2 + escaped_len(p.function) + bindings_cost(
        p.parameters,
        p.parameters.len(),
    ) + bindings_cost(p.locals, p.locals.len()) + bindings_cost(p.upvalues, p.upvalues.len())
}

proof fn lemma_frame_parts(
    e: Estimate,
    function: Seq<char>,
    has_call_site: bool,
    parameters: Seq<BindingSnapshot>,
    locals: Seq<BindingSnapshot>,
    upvalues: Seq<BindingSnapshot>,
    shown_parameters: Seq<BindingPicture>,
    shown_locals: Seq<BindingPicture>,
    shown_upvalues: Seq<BindingPicture>,
)
    requires
        shows_bindings(parameters, shown_parameters),
        shows_bindings(locals, shown_locals),
        shows_bindings(upvalues, shown_upvalues),
        all_shallow(shown_parameters),
        all_shallow(shown_locals),
        all_shallow(shown_upvalues),
    ensures
        with_frame_parts(e, function, has_call_site, parameters, locals, upvalues) == grown(
            e,
            frame_fixed(has_call_site) + 2 + escaped_len(function) + bindings_cost(
                shown_parameters,
                shown_parameters.len(),
            ) + bindings_cost(shown_locals, shown_locals.len()) + bindings_cost(
                shown_upvalues,
                shown_upvalues.len(),
            ),
        ),
{
    let a1 = lit("{\"activation_id\":") + 20;
    let a2 = lit(", \"function\":");
    let a3 = 2 + escaped_len(function);
    let a4 = lit(", \"function_truncated\":false,\"current_span\":");
    let a5 = span_cost();
    let a6 = lit(", \"call_site\":");
    let a7 = if has_call_site {
        span_cost()
    } else {
        lit("null")
    };
    let brackets = lit("[") + lit("]");
    let a8 = lit(", \"parameters\":");
    let a9 = lit("[") + bindings_cost(shown_parameters, shown_parameters.len()) + lit("]");
    let a10 = lit(", \"parameters_truncated\":false,\"locals\":");
    let a11 = lit("[") + bindings_cost(shown_locals, shown_locals.len()) + lit("]");
    let a12 = lit(", \"locals_truncated\":false,\"upvalues\":");
    let a13 = lit("[") + bindings_cost(shown_upvalues, shown_upvalues.len()) + lit("]");
    let a14 = lit(", \"upvalues_truncated\":false}");
    let c2 = a1 + a2;
    let c3 = c2 + a3;
    let c4 = c3 + a4;
    let c5 = c4 + a5;
    let c6 = c5 + a6;
    let c7 = c6 + a7;
    let c8 = c7 + a8;
    let c9 = c8 + a9;
    let c10 = c9 + a10;
    let c11 = c10 + a11;
    let c12 = c11 + a12;
    let c13 = c12 + a13;
    lemma_labelled(e, "{\"activation_id\":");
    lemma_grown_twice(e, a1, a2);
    lemma_grown_twice(e, c2, a3);
    lemma_grown_twice(e, c3, a4);
    lemma_span(grown(e, c4));
    lemma_grown_twice(e, c4, a5);
    lemma_grown_twice(e, c5, a6);
    lemma_span(grown(e, c6));
    lemma_grown_twice(e, c6, a7);
    lemma_grown_twice(e, c7, a8);
    lemma_bindings(grown(e, c8), parameters, shown_parameters);
    lemma_grown_twice(e, c8, a9);
    lemma_grown_twice(e, c9, a10);
    lemma_bindings(grown(e, c10), locals, shown_locals);
    lemma_grown_twice(e, c10, a11);
    lemma_grown_twice(e, c11, a12);
    lemma_bindings(grown(e, c12), upvalues, shown_upvalues);
    lemma_grown_twice(e, c12, a13);
    lemma_grown_twice(e, c13, a14);
}

/// What an empty frame takes, and what its name and bindings take, is enough.
proof fn lemma_frame_bound(p: FramePicture)
    ensures
        frame_cost(p) + 1 <= schema().frame + escaped_len(p.function) + bindings_cost(
            p.parameters,
            p.parameters.len(),
        ) + bindings_cost(p.locals, p.locals.len()) + bindings_cost(p.upvalues, p.upvalues.len()),
{
    lemma_schema_holds();
    lemma_comma();
    reveal(frame_schema);
    let none = Seq::<char>::empty();
    assert(escaped_len(none) == 0);
    let bindings = Seq::<BindingSnapshot>::empty();
    let shown = Seq::<BindingPicture>::empty();
    lemma_frame_parts(Ok(0), none, true, bindings, bindings, bindings, shown, shown, shown);
    reveal(grown);
}

spec fn frame_shallow(p: FramePicture) -> bool {
    all_shallow(p.parameters) && all_shallow(p.locals) && all_shallow(p.upvalues)
}

/// What is spent on a frame, with what is set aside for it, is enough.
proof fn lemma_frame_picture(
    s: VmState,
    scene: Scene,
    frame: ValidatedFrame,
    cells: Seq<usize>,
    f: Function,
    b: Build,
)
    requires
        scene.limits.max_depth <= MAX_DEPTH,
    ensures
        ({
            let (after, result) = frame_picture(s, scene, frame, cells, f, b);
            result matches Ok(Some(p)) ==> spends(b, after) && frame_shallow(p) && frame_cost(p) + 1
                <= schema().frame + spent(after) - spent(b)
        }),
{
    let none = Seq::<BindingPicture>::empty();
    assert(bindings_cost(none, 0) == 0);
    let all = f.debug_info.bindings@;
    if let Ok(name) = crate::picture::checked_name(s.heap, frame.function) {
        lemma_owned_name(b, name);
        if let (b1, Some((function, cut))) = b.owned_name(name) {
            lemma_locals(s, scene, frame, all, true, 0, b1, none, 0);
            if let (b2, Ok((parameters, p_cut, emitted))) = locals_from(
                s,
                scene,
                frame,
                all,
                true,
                0,
                b1,
                none,
                0,
            ) {
                lemma_locals(s, scene, frame, all, false, 0, b2, none, emitted);
                if let (b3, Ok((locals, l_cut, emitted))) = locals_from(
                    s,
                    scene,
                    frame,
                    all,
                    false,
                    0,
                    b2,
                    none,
                    emitted,
                ) {
                    lemma_upvalues(s, scene, cells, f.debug_info.upvalues@, 0, b3, none, emitted);
                    if let (b4, Ok((upvalues, u_cut, _))) = frame_upvalues(
                        s,
                        scene,
                        cells,
                        f,
                        b3,
                        emitted,
                    ) {
                        lemma_frame_bound(
                            FramePicture {
                                frame,
                                function,
                                function_truncated: cut,
                                parameters,
                                parameters_truncated: p_cut,
                                locals,
                                locals_truncated: l_cut,
                                upvalues,
                                upvalues_truncated: u_cut,
                            },
                        );
                    }
                }
            }
        }
    }
}

/// The size of the first `n` shown frames, with commas between them.
spec fn frames_cost(ps: Seq<FramePicture>, n: nat) -> nat
    decreases n,
{
    if n == 0 {
        0
    } else {
        frames_cost(ps, (n - 1) as nat) + (if n > 1 {
            lit(",")
        } else {
            0
        }) + frame_cost(ps[n - 1])
    }
}

spec fn frames_shallow(ps: Seq<FramePicture>) -> bool {
    forall|i: int| 0 <= i < ps.len() ==> frame_shallow(#[trigger] ps[i])
}

proof fn lemma_frame_items(e: Estimate, frames: Seq<FrameSnapshot>, ps: Seq<FramePicture>, n: nat)
    requires
        e matches Ok(size) ==> size <= usize::MAX,
        n <= ps.len(),
        shows_frames(frames, ps),
        frames_shallow(ps),
    ensures
        with_frame_items(e, frames, n) == grown(e, frames_cost(ps, n)),
    decreases n,
{
    if n == 0 {
        reveal(grown);
    } else {
        broadcast use grown_twice;

        lemma_frame_items(e, frames, ps, (n - 1) as nat);
        let before = with_frame_items(e, frames, (n - 1) as nat);
        let e1 = if n > 1 {
            with_literal(before, ",")
        } else {
            before
        };
        let f = frames[n - 1];
        let p = ps[n - 1];
        assert(shows_frame(f, p) && frame_shallow(p));
        lemma_frame_parts(
            e1,
            f.function@,
            f.call_site is Some,
            f.parameters@,
            f.locals@,
            f.upvalues@,
            p.parameters,
            p.locals,
            p.upvalues,
        );
    }
}

proof fn lemma_prefix_frames_cost(ps: Seq<FramePicture>, p: FramePicture, n: nat)
    requires
        n <= ps.len(),
    ensures
        frames_cost(ps.push(p), n) == frames_cost(ps, n),
    decreases n,
{
    if n > 0 {
        lemma_prefix_frames_cost(ps, p, (n - 1) as nat);
        assert(ps.push(p)[n - 1] == ps[n - 1]);
    }
}

/// What is spent on frames behind `done` is enough for them.
proof fn lemma_frames(
    s: VmState,
    scene: Scene,
    places: Seq<ValidatedFrame>,
    k: int,
    b: Build,
    done: Seq<FramePicture>,
)
    requires
        scene.limits.max_depth <= MAX_DEPTH,
        frames_shallow(done),
    ensures
        ({
            let (after, result) = frames_from(s, scene, places, k, b, done);
            result matches Ok((ps, _)) ==> spends(b, after) && frames_shallow(ps) && frames_cost(
                ps,
                ps.len(),
            ) <= frames_cost(done, done.len()) + spent(after) - spent(b)
        }),
    decreases places.len() - k,
{
    if 0 <= k < places.len() && k < scene.limits.max_frames {
        let (budget, answer) = b.budget.on_estimate(schema().frame as nat);
        let reserved = b.with_budget(budget);
        if answer is Ok {
            let place = places[places.len() - 1 - k];
            let cells = s.heap.get(place.closure)->Closure_upvalues;
            let f = s.function_of(place.closure)->0;
            lemma_frame_picture(s, scene, place, cells, f, reserved);
            let (after, result) = frame_picture(s, scene, place, cells, f, reserved);
            if let Ok(Some(p)) = result {
                let more = done.push(p);
                lemma_comma();
                lemma_prefix_frames_cost(done, p, done.len());
                assert(more[done.len() as int] == p);
                assert forall|i: int| 0 <= i < more.len() implies frame_shallow(
                    #[trigger] more[i],
                ) by {
                    if i < done.len() {
                        assert(more[i] == done[i]);
                    }
                }
                assert(frames_cost(more, more.len()) <= frames_cost(done, done.len()) + 1
                    + frame_cost(p));
                lemma_frames(s, scene, places, k + 1, after, more);
            }
        }
    }
}

spec fn reason_cost(reason: SnapshotReason) -> nat {
    match reason {
        SnapshotReason::Paused(reason) => lit("{\"kind\":\"paused\",\"payload\":") + 2
            + escaped_len(pause_reason_name(reason)) + lit("}"),
        SnapshotReason::Faulted => lit("{\"kind\":\"faulted\"}"),
        SnapshotReason::Cancelled => lit("{\"kind\":\"cancelled\"}"),
    }
}

proof fn lemma_reason(e: Estimate, reason: SnapshotReason)
    ensures
        with_reason(e, reason) == grown(e, reason_cost(reason)),
{
    broadcast use grown_twice;

}

/// Scalars below 128 take one byte each.
proof fn lemma_narrow(s: Seq<char>)
    requires
        forall|i: int| 0 <= i < s.len() ==> (#[trigger] s[i]) as u32 <= 0x7f,
    ensures
        utf8_len(s) == s.len(),
    decreases s.len(),
{
    if s.len() > 0 {
        let front = s.drop_last();
        assert forall|i: int| 0 <= i < front.len() implies (#[trigger] front[i]) as u32 <= 0x7f by {
            assert(front[i] == s[i]);
        }
        lemma_narrow(front);
        assert(s[s.len() - 1] as u32 <= 0x7f);
    }
}

/// No reason takes more than the first stop.
proof fn lemma_reasons(reason: SnapshotReason)
    ensures
        reason_cost(reason) <= reason_cost(SnapshotReason::Paused(PauseReason::DebugPoint)),
{
    reveal_strlit("debug_point");
    lemma_letters("debug_point"@);
    reveal_strlit("{\"kind\":\"paused\",\"payload\":");
    crate::text::lemma_utf8_len_bounds("{\"kind\":\"paused\",\"payload\":"@);
    match reason {
        SnapshotReason::Paused(pause) => {
            reveal_strlit("step");
            reveal_strlit("explicit");
            lemma_letters(pause_reason_name(pause));
        },
        SnapshotReason::Faulted => {
            reveal_strlit("{\"kind\":\"faulted\"}");
            lemma_narrow("{\"kind\":\"faulted\"}"@);
        },
        SnapshotReason::Cancelled => {
            reveal_strlit("{\"kind\":\"cancelled\"}");
            lemma_narrow("{\"kind\":\"cancelled\"}"@);
        },
    }
}

/// What a snapshot takes besides its reason, its frames and its globals.
spec fn snapshot_fixed() -> nat {
    lit("{\"reason\":") + lit(", \"current_span\":") + span_cost() + lit(", \"frames\":") + lit(
        ", \"frames_truncated\":false,",
    ) + lit("\"globals\":") + lit(", \"globals_truncated\":false}") + 2 * (lit("[") + lit("]"))
}

proof fn lemma_snapshot(
    reason: SnapshotReason,
    frames: Seq<FrameSnapshot>,
    globals: Seq<BindingSnapshot>,
    shown_frames: Seq<FramePicture>,
    shown_globals: Seq<BindingPicture>,
)
    requires
        shows_frames(frames, shown_frames),
        shows_bindings(globals, shown_globals),
        frames_shallow(shown_frames),
        all_shallow(shown_globals),
    ensures
        snapshot_estimate(reason, frames, globals) == grown(
            Ok(0),
            snapshot_fixed() + reason_cost(reason) + frames_cost(shown_frames, shown_frames.len())
                + bindings_cost(shown_globals, shown_globals.len()),
        ),
{
    let e = Estimate::Ok(0);
    let a1 = lit("{\"reason\":");
    let a2 = reason_cost(reason);
    let a3 = lit(", \"current_span\":");
    let a4 = span_cost();
    let a5 = lit(", \"frames\":");
    let a6 = lit("[");
    let a7 = frames_cost(shown_frames, shown_frames.len());
    let a8 = lit("]");
    let a9 = lit(", \"frames_truncated\":false,");
    let a10 = lit("\"globals\":");
    let a11 = lit("[") + bindings_cost(shown_globals, shown_globals.len()) + lit("]");
    let a12 = lit(", \"globals_truncated\":false}");
    let c2 = a1 + a2;
    let c3 = c2 + a3;
    let c4 = c3 + a4;
    let c5 = c4 + a5;
    let c6 = c5 + a6;
    let c7 = c6 + a7;
    let c8 = c7 + a8;
    let c9 = c8 + a9;
    let c10 = c9 + a10;
    let c11 = c10 + a11;
    lemma_reason(grown(e, a1), reason);
    lemma_grown_twice(e, a1, a2);
    lemma_grown_twice(e, c2, a3);
    lemma_span(grown(e, c3));
    lemma_grown_twice(e, c3, a4);
    lemma_grown_twice(e, c4, a5);
    lemma_grown_twice(e, c5, a6);
    lemma_grown_is_counted(e, c6);
    lemma_frame_items(grown(e, c6), frames, shown_frames, shown_frames.len());
    lemma_grown_twice(e, c6, a7);
    lemma_grown_twice(e, c7, a8);
    lemma_grown_twice(e, c8, a9);
    lemma_grown_twice(e, c9, a10);
    lemma_bindings(grown(e, c10), globals, shown_globals);
    lemma_grown_twice(e, c10, a11);
    lemma_grown_twice(e, c11, a12);
}

pub open spec fn narrow(text: &str) -> bool {
    forall|i: int| 0 <= i < text@.len() ==> (#[trigger] text@[i]) as u32 <= 0x7f
}

/// A narrow text has as many bytes as scalars.
pub proof fn lemma_text_size(text: &str)
    ensures
        narrow(text) ==> lit(text) == text@.len(),
{
    if narrow(text) {
        lemma_narrow(text@);
    }
}

proof fn lemma_span_is_short()
    ensures
        span_cost() <= 300,
{
    lemma_text_size("{\"source_id\":");
    reveal_strlit("{\"source_id\":");
    lemma_text_size(", \"revision\":");
    reveal_strlit(", \"revision\":");
    lemma_text_size(", \"start\":{\"byte_offset\":");
    reveal_strlit(", \"start\":{\"byte_offset\":");
    lemma_text_size(", \"line\":");
    reveal_strlit(", \"line\":");
    lemma_text_size(", \"column\":");
    reveal_strlit(", \"column\":");
    lemma_text_size("},\"end\":{\"byte_offset\":");
    reveal_strlit("},\"end\":{\"byte_offset\":");
    lemma_text_size("}}");
    reveal_strlit("}}");
}

proof fn lemma_fixed_is_short()
    ensures
        snapshot_fixed() <= span_cost() + 200,
{
    lemma_text_size("{\"reason\":");
    reveal_strlit("{\"reason\":");
    lemma_text_size(", \"current_span\":");
    reveal_strlit(", \"current_span\":");
    lemma_text_size(", \"frames\":");
    reveal_strlit(", \"frames\":");
    lemma_text_size(", \"frames_truncated\":false,");
    reveal_strlit(", \"frames_truncated\":false,");
    lemma_text_size("\"globals\":");
    reveal_strlit("\"globals\":");
    lemma_text_size(", \"globals_truncated\":false}");
    reveal_strlit(", \"globals_truncated\":false}");
    lemma_text_size("[");
    reveal_strlit("[");
    lemma_text_size("]");
    reveal_strlit("]");
}

proof fn lemma_reason_is_short()
    ensures
        reason_cost(SnapshotReason::Paused(PauseReason::DebugPoint)) <= 100,
{
    lemma_text_size("{\"kind\":\"paused\",\"payload\":");
    reveal_strlit("{\"kind\":\"paused\",\"payload\":");
    lemma_text_size("}");
    reveal_strlit("}");
    reveal_strlit("debug_point");
    lemma_letters("debug_point"@);
}

/// An empty snapshot fits the least limit that may be set.
pub proof fn law_valid_limits_suffice(limits: SnapshotLimits)
    requires
        limits.fault() is None,
    ensures
        schema().snapshot <= limits.max_estimated_json_bytes,
{
    limits.lemma_no_fault();
    lemma_schema_holds();
    lemma_span_is_short();
    lemma_fixed_is_short();
    lemma_reason_is_short();
    reveal(snapshot_schema);
    lemma_snapshot(
        SnapshotReason::Paused(PauseReason::DebugPoint),
        Seq::empty(),
        Seq::empty(),
        Seq::empty(),
        Seq::empty(),
    );
    reveal(grown);
}

/// A snapshot that can be pictured keeps to its limit: what was reserved for
/// it is enough.
pub proof fn law_pictures_fit(
    s: VmState,
    request: SnapshotRequest,
    scene: Scene,
    selected: Seq<Key>,
    p: SnapshotPicture,
    snapshot: VmSnapshot,
)
    requires
        snapshot_picture(s, request, scene, selected) == Result::<
            SnapshotPicture,
            SnapshotBuildError,
        >::Ok(p),
        shows_snapshot(snapshot, request, p),
    ensures
        fits(snapshot, scene.limits, p),
{
    scene.limits.lemma_no_fault();
    lemma_schema_holds();
    let start = Build::start(scene.limits, s.heap.objects.len());
    let places = validated(s, request)->Ok_0;
    reveal(composition);
    lemma_frames(s, scene, places, 0, start, Seq::empty());
    let (b, frames) = frames_from(s, scene, places, 0, start, Seq::empty());
    lemma_globals(s, scene, selected, 0, b, Seq::empty());
    lemma_snapshot(snapshot.reason, snapshot.frames@, snapshot.globals@, p.frames, p.globals);
    lemma_reasons(snapshot.reason);
    reveal(snapshot_schema);
    lemma_snapshot(
        SnapshotReason::Paused(PauseReason::DebugPoint),
        Seq::empty(),
        Seq::empty(),
        Seq::empty(),
        Seq::empty(),
    );
    reveal(grown);
}

} // verus!
