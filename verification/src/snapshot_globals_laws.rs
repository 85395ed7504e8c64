//! Which globals a snapshot shows, in what order, and that it does not matter
//! where the objects of a machine lie.
use vstd::prelude::*;
use crate::format::without_last;
use crate::object::{Content, HeapState};
use crate::picture::{
    checked_name, pictured, pictured_items, pictured_list, BindingPicture, Build, Scene, Shown,
};
use crate::machine::VmState;
use crate::snapshot::{SnapshotBuildError, ValueKind};
use crate::snapshot_builder::SnapshotRequest;
use crate::snapshot_globals::{
    composition, globals_from, globals_picture, is_selection, law_globals_have_names_of_their_own,
    law_selection_is_unique, leaves_out, name_bytes, names_differ, ordered, repeats_name,
    snapshot_picture,
};
use crate::snapshot_machine::validated;
use crate::table::Key;
use crate::value::Value;
use crate::vm::VM;
use vstd::string::*;

verus! {

/// All globals of a machine, in the order of the bytes of their names.
pub open spec fn is_listing(s: VmState, all: Seq<Key>) -> bool {
    &&& forall|i: int| 0 <= i < all.len() ==> s.globals.contains_key(#[trigger] all[i])
    &&& forall|i: int, j: int|
        0 <= i < j < all.len() ==> #[trigger] all[i] != #[trigger] all[j] && ordered(
            name_bytes(s.heap, all[i]),
            name_bytes(s.heap, all[j]),
        )
    &&& forall|key: Key| #[trigger] s.globals.contains_key(key) ==> all.contains(key)
}

pub open spec fn name_of(s: VmState, key: Key) -> Seq<char> {
    s.heap.get(key.object)->Text_text
}

/// A binding shows a global: its name, or an empty one where it is too long,
/// and its value.
pub open spec fn shows_global(s: VmState, scene: Scene, key: Key, p: BindingPicture) -> bool {
    &&& p.binding_id is None
    &&& p.binding_kind == "global"@
    &&& if p.name_truncated {
        p.name.len() == 0
    } else {
        p.name == name_of(s, key)
    }
    &&& exists|b: Build|
        (#[trigger] pictured(scene, s.globals[key], 0, b)).1 == Result::<
            (ValueKind, Shown),
            SnapshotBuildError,
        >::Ok((p.value_kind, p.value))
}

/// The globals that are shown are the first of those that were selected.
proof fn lemma_globals_from(
    s: VmState,
    scene: Scene,
    selected: Seq<Key>,
    i: int,
    b: Build,
    done: Seq<BindingPicture>,
)
    requires
        0 <= i <= selected.len(),
        done.len() == i,
        forall|k: int| 0 <= k < i ==> shows_global(s, scene, selected[k], #[trigger] done[k]),
    ensures
        globals_from(s, scene, selected, i, b, done).1 matches Ok((ps, truncated)) ==> {
            &&& ps.len() <= selected.len()
            &&& truncated <==> leaves_out(s, selected) || ps.len() < selected.len()
            &&& forall|k: int|
                0 <= k < ps.len() ==> shows_global(s, scene, selected[k], #[trigger] ps[k])
        },
    decreases selected.len() - i,
{
    if i < selected.len() && !b.exhausted() {
        let value = Result::<Value, SnapshotBuildError>::Ok(s.globals[selected[i]]);
        let name = name_of(s, selected[i]);
        let one = b.binding(scene, None, name, "global"@, value);
        if let (b1, Ok(Some(p))) = one {
            assert(shows_global(s, scene, selected[i], p));
            let more = done.push(p);
            assert forall|k: int| 0 <= k < i + 1 implies shows_global(
                s,
                scene,
                selected[k],
                #[trigger] more[k],
            ) by {
                if k < i {
                    assert(more[k] == done[k]);
                }
            }
            lemma_globals_from(s, scene, selected, i + 1, b1, more);
        }
    }
}

/// The first globals of a listing are those that are selected.
proof fn lemma_selected_are_first(vm: VM, limit: usize, selected: Seq<Key>, all: Seq<Key>)
    requires
        vm.wf(),
        is_selection(vm@, limit, selected),
        is_listing(vm@, all),
    ensures
        selected == all.take(
            if all.len() <= limit {
                all.len() as int
            } else {
                limit as int
            },
        ),
        leaves_out(vm@, selected) <==> selected.len() < all.len(),
{
    let s = vm@;
    let n = if all.len() <= limit {
        all.len() as int
    } else {
        limit as int
    };
    let first = all.take(n);
    assert forall|key: Key| #[trigger] s.globals.contains_key(key) && !first.contains(
        key,
    ) implies first.len() == limit && forall|i: int|
        0 <= i < first.len() ==> ordered(
            name_bytes(s.heap, #[trigger] first[i]),
            name_bytes(s.heap, key),
        ) by {
        let j = choose|j: int| 0 <= j < all.len() && all[j] == key;
        if j < n {
            assert(first[j] == key);
        }
        assert forall|i: int| 0 <= i < first.len() implies ordered(
            name_bytes(s.heap, #[trigger] first[i]),
            name_bytes(s.heap, key),
        ) by {
            assert(first[i] == all[i]);
            assert(all[i] != all[j]);
        }
    }
    assert forall|i: int| 0 <= i < first.len() implies s.globals.contains_key(
        #[trigger] first[i],
    ) by {
        assert(first[i] == all[i]);
    }
    assert forall|i: int, j: int| 0 <= i < j < first.len() implies #[trigger] first[i]
        != #[trigger] first[j] && ordered(
        name_bytes(s.heap, first[i]),
        name_bytes(s.heap, first[j]),
    ) by {
        assert(first[i] == all[i] && first[j] == all[j]);
    }
    assert(is_selection(s, limit, first));
    law_selection_is_unique(vm, limit, selected, first);
    if n < all.len() {
        assert(s.globals.contains_key(all[n]));
        if selected.contains(all[n]) {
            let j = choose|j: int| 0 <= j < selected.len() && selected[j] == all[n];
            assert(all[j] == all[n]);
            assert(all[j] != all[n]);
        }
    } else {
        assert(first =~= all);
    }
}

/// A snapshot shows the first globals by name, in their order and none twice,
/// no more than the limit, and it tells whether there are others.
pub proof fn law_globals_are_the_first_by_name(
    vm: VM,
    scene: Scene,
    selected: Seq<Key>,
    all: Seq<Key>,
    b: Build,
)
    requires
        vm.wf(),
        is_selection(vm@, scene.limits.max_globals, selected),
        is_listing(vm@, all),
    ensures
        globals_picture(vm@, scene, selected, b).1 matches Ok((globals, truncated)) ==> {
            &&& globals.len() <= scene.limits.max_globals
            &&& globals.len() <= all.len()
            &&& truncated <==> globals.len() < all.len()
            &&& forall|i: int|
                0 <= i < globals.len() ==> shows_global(vm@, scene, all[i], #[trigger] globals[i])
        },
{
    lemma_selected_are_first(vm, scene.limits.max_globals, selected, all);
    lemma_globals_from(vm@, scene, selected, 0, b, Seq::empty());
    if let Ok((globals, truncated)) = globals_picture(vm@, scene, selected, b).1 {
        assert forall|i: int| 0 <= i < globals.len() implies shows_global(
            vm@,
            scene,
            all[i],
            #[trigger] globals[i],
        ) by {
            assert(selected[i] == all[i]);
        }
    }
}

/// A value in one machine and the same value in another, whose objects lie
/// elsewhere. The map tells where.
pub open spec fn value_moved(places: Map<usize, usize>, x: Value, y: Value) -> bool {
    match (x, y) {
        (Value::Obj(o), Value::Obj(p)) => places.contains_key(o) && places[o] == p,
        (Value::Obj(_), _) => false,
        (_, Value::Obj(_)) => false,
        _ => x == y,
    }
}

/// A snapshot can show an object of this kind.
pub open spec fn can_be_shown(content: Content) -> bool {
    content is Text || content is Function || content is Closure || content is Native
        || content is List
}

/// An object is in the other machine what it is in this one.
pub open spec fn object_moved(a: HeapState, b: HeapState, places: Map<usize, usize>, o: usize) -> bool {
    match (a.get(o), b.get(places[o])) {
        (Content::Text { text: x, hash: _ }, Content::Text { text: y, hash: _ }) => x == y,
        (Content::Function(_), Content::Function(_)) => checked_name(a, o) == checked_name(
            b,
            places[o],
        ),
        (
            Content::Closure { function: x, upvalues: _ },
            Content::Closure { function: y, upvalues: _ },
        ) => checked_name(a, x) == checked_name(b, y),
        (Content::Native, Content::Native) => true,
        (Content::List(x), Content::List(y)) => x.len() == y.len() && forall|i: int|
            0 <= i < x.len() ==> value_moved(places, #[trigger] x[i], y[i]),
        (x, y) => !can_be_shown(x) && !can_be_shown(y),
    }
}

/// The objects of one machine that are in another, and where they lie there.
pub open spec fn heap_moved(a: HeapState, b: HeapState, places: Map<usize, usize>) -> bool {
    &&& forall|o: usize, p: usize| #[trigger]
        places.contains_key(o) && #[trigger] places.contains_key(p) && places[o] == places[p]
            ==> o == p
    &&& forall|o: usize| #[trigger]
        places.contains_key(o) ==> o < a.objects.len() && places[o] < b.objects.len()
            && object_moved(a, b, places, o)
}

/// Two pictures in the making have come equally far.
pub open spec fn build_moved(places: Map<usize, usize>, x: Build, y: Build) -> bool {
    &&& x.budget == y.budget
    &&& x.next_id == y.next_id
    &&& x.numbers == y.numbers
    &&& x.active.len() == y.active.len()
    &&& forall|i: int|
        0 <= i < x.active.len() ==> places.contains_key(#[trigger] x.active[i])
            && places[x.active[i]] == y.active[i]
    &&& forall|o: usize| #[trigger]
        places.contains_key(o) ==> o < x.ids.len() && places[o] < y.ids.len() && x.ids[o as int]
            == y.ids[places[o] as int]
}

pub open spec fn scene_moved(places: Map<usize, usize>, x: Scene, y: Scene) -> bool {
    &&& heap_moved(x.heap, y.heap, places)
    &&& x.texts == y.texts
    &&& x.limits == y.limits
}

proof fn lemma_active(places: Map<usize, usize>, x: Scene, y: Scene, a: Build, b: Build, o: usize)
    requires
        scene_moved(places, x, y),
        build_moved(places, a, b),
        places.contains_key(o),
    ensures
        a.active.contains(o) <==> b.active.contains(places[o]),
{
    if a.active.contains(o) {
        let i = choose|i: int| 0 <= i < a.active.len() && a.active[i] == o;
        assert(b.active[i] == places[o]);
    }
    if b.active.contains(places[o]) {
        let i = choose|i: int| 0 <= i < b.active.len() && b.active[i] == places[o];
        assert(places.contains_key(a.active[i]));
    }
}

proof fn lemma_pictured(
    places: Map<usize, usize>,
    x: Scene,
    y: Scene,
    v: Value,
    w: Value,
    depth: nat,
    a: Build,
    b: Build,
)
    requires
        scene_moved(places, x, y),
        build_moved(places, a, b),
        value_moved(places, v, w),
    ensures
        build_moved(places, pictured(x, v, depth, a).0, pictured(y, w, depth, b).0),
        pictured(x, v, depth, a).1 == pictured(y, w, depth, b).1,
    decreases x.limits.max_depth + 1 - depth, 2int, 0int,
{
    if let Value::Obj(o) = v {
        let p = places[o];
        assert(object_moved(x.heap, y.heap, places, o));
        if let Content::List(items) = x.heap.get(o) {
            let others = y.heap.get(p)->List_0;
            lemma_active(places, x, y, a, b, o);
            if a.ids[o as int] == 0 {
                if a.next_id != u64::MAX {
                    let id = a.next_id;
                    let a1 = Build {
                        ids: a.ids.update(o as int, id),
                        next_id: (id + 1) as u64,
                        ..a
                    };
                    let b1 = Build {
                        ids: b.ids.update(p as int, id),
                        next_id: (id + 1) as u64,
                        ..b
                    };
                    assert(build_moved(places, a1, b1));
                    lemma_pictured_list(places, x, y, o, id, items, others, depth, a1, b1);
                }
            } else if !a.active.contains(o) {
                lemma_pictured_list(
                    places,
                    x,
                    y,
                    o,
                    a.ids[o as int],
                    items,
                    others,
                    depth,
                    a,
                    b,
                );
            }
        }
    }
}

proof fn lemma_pictured_list(
    places: Map<usize, usize>,
    x: Scene,
    y: Scene,
    o: usize,
    id: u64,
    items: Seq<Value>,
    others: Seq<Value>,
    depth: nat,
    a: Build,
    b: Build,
)
    requires
        scene_moved(places, x, y),
        build_moved(places, a, b),
        places.contains_key(o),
        items.len() == others.len(),
        forall|i: int| 0 <= i < items.len() ==> value_moved(places, #[trigger] items[i], others[i]),
    ensures
        ({
            let l = pictured_list(x, o, id, items, depth, a);
            let r = pictured_list(y, places[o], id, others, depth, b);
            build_moved(places, l.0, r.0) && l.1 == r.1
        }),
    decreases x.limits.max_depth + 1 - depth, 1int, 0int,
{
    if depth < x.limits.max_depth {
        let a1 = Build { active: a.active.push(o), ..a };
        let b1 = Build { active: b.active.push(places[o]), ..b };
        assert(build_moved(places, a1, b1));
        let cut = items.len() > x.limits.max_collection_items;
        lemma_pictured_items(places, x, y, items, others, 0, depth, a1, b1, Seq::empty(), cut);
        let a2 = pictured_items(x, items, 0, depth, a1, Seq::empty(), cut).0;
        let b2 = pictured_items(y, others, 0, depth, b1, Seq::empty(), cut).0;
        let a3 = Build { active: without_last(a2.active), ..a2 };
        let b3 = Build { active: without_last(b2.active), ..b2 };
        assert forall|i: int| 0 <= i < a3.active.len() implies places.contains_key(
            #[trigger] a3.active[i],
        ) && places[a3.active[i]] == b3.active[i] by {
            assert(a3.active[i] == a2.active[i]);
        }
        assert(build_moved(places, a3, b3));
    }
}

proof fn lemma_pictured_items(
    places: Map<usize, usize>,
    x: Scene,
    y: Scene,
    items: Seq<Value>,
    others: Seq<Value>,
    i: int,
    depth: nat,
    a: Build,
    b: Build,
    done: Seq<Shown>,
    truncated: bool,
)
    requires
        scene_moved(places, x, y),
        build_moved(places, a, b),
        items.len() == others.len(),
        forall|i: int| 0 <= i < items.len() ==> value_moved(places, #[trigger] items[i], others[i]),
    ensures
        ({
            let l = pictured_items(x, items, i, depth, a, done, truncated);
            let r = pictured_items(y, others, i, depth, b, done, truncated);
            build_moved(places, l.0, r.0) && l.1 == r.1
        }),
    decreases x.limits.max_depth - depth, 3int, items.len() - i,
{
    if 0 <= i < items.len() && i < x.limits.max_collection_items && depth < x.limits.max_depth {
        let (budget, answer) = a.budget.on_value();
        let a1 = a.with_budget(budget);
        let b1 = b.with_budget(budget);
        assert(build_moved(places, a1, b1));
        if answer is Ok {
            assert(value_moved(places, items[i], others[i]));
            lemma_pictured(places, x, y, items[i], others[i], depth + 1, a1, b1);
            let (a2, picture) = pictured(x, items[i], depth + 1, a1);
            let b2 = pictured(y, others[i], depth + 1, b1).0;
            if let Ok((_, shown)) = picture {
                if !a2.exhausted() {
                    lemma_pictured_items(
                        places,
                        x,
                        y,
                        items,
                        others,
                        i + 1,
                        depth,
                        a2,
                        b2,
                        done.push(shown),
                        truncated || shown is Truncated,
                    );
                }
            }
        }
    }
}

proof fn lemma_binding(
    places: Map<usize, usize>,
    x: Scene,
    y: Scene,
    name: Seq<char>,
    v: Value,
    w: Value,
    a: Build,
    b: Build,
)
    requires
        scene_moved(places, x, y),
        build_moved(places, a, b),
        value_moved(places, v, w),
    ensures
        ({
            let l = a.binding(x, None, name, "global"@, Ok(v));
            let r = b.binding(y, None, name, "global"@, Ok(w));
            build_moved(places, l.0, r.0) && l.1 == r.1
        }),
{
    let (budget, first) = a.budget.on_binding();
    let (budget, second) = if first is Ok {
        budget.on_owned_string("global"@)
    } else {
        (budget, first)
    };
    let a1 = a.with_budget(budget);
    let b1 = b.with_budget(budget);
    assert(build_moved(places, a1, b1));
    if second is Ok {
        let (a2, owned) = a1.owned_name(name);
        let b2 = b1.owned_name(name).0;
        assert(build_moved(places, a2, b2));
        if owned is Some {
            let (budget, third) = a2.budget.on_value();
            let a3 = a2.with_budget(budget);
            let b3 = b2.with_budget(budget);
            assert(build_moved(places, a3, b3));
            if third is Ok {
                lemma_pictured(places, x, y, v, w, 0, a3, b3);
            }
        }
    }
}

/// Two machines have the same globals: the same names, with values that are
/// the same but for where their objects lie.
pub open spec fn globals_moved(s: VmState, t: VmState, places: Map<usize, usize>) -> bool {
    &&& forall|k: Key| #[trigger] s.globals.contains_key(k) ==> exists|l: Key| #[trigger]
        is_counterpart(s, t, places, k, l)
    &&& forall|l: Key| #[trigger] t.globals.contains_key(l) ==> exists|k: Key| #[trigger]
        is_counterpart(s, t, places, k, l)
}

/// A global of one machine and the one of that name in the other.
#[verifier::opaque]
pub open spec fn is_counterpart(
    s: VmState,
    t: VmState,
    places: Map<usize, usize>,
    k: Key,
    l: Key,
) -> bool {
    &&& s.globals.contains_key(k)
    &&& t.globals.contains_key(l)
    &&& name_of(s, k) == name_of(t, l)
    &&& value_moved(places, s.globals[k], t.globals[l])
}

/// What is known of counterparts.
proof fn lemma_is_counterpart(s: VmState, t: VmState, places: Map<usize, usize>, k: Key, l: Key)
    requires
        is_counterpart(s, t, places, k, l),
    ensures
        s.globals.contains_key(k),
        t.globals.contains_key(l),
        name_of(s, k) == name_of(t, l),
        name_bytes(s.heap, k) == name_bytes(t.heap, l),
        value_moved(places, s.globals[k], t.globals[l]),
{
    reveal(is_counterpart);
}

spec fn counterpart(s: VmState, t: VmState, places: Map<usize, usize>, k: Key) -> Key {
    choose|l: Key| #[trigger] is_counterpart(s, t, places, k, l)
}

/// Globals of one name are counterparts.
proof fn lemma_counterpart(s: VmState, t: VmState, places: Map<usize, usize>, k: Key, l: Key)
    requires
        names_differ(t),
        is_counterpart(s, t, places, k, l),
    ensures
        counterpart(s, t, places, k) == l,
{
    let other = counterpart(s, t, places, k);
    lemma_is_counterpart(s, t, places, k, l);
    lemma_is_counterpart(s, t, places, k, other);
    if other != l {
        assert(name_bytes(t.heap, other) == name_bytes(t.heap, l));
    }
}

/// The counterparts of some globals, in their order.
spec fn counterparts(
    s: VmState,
    t: VmState,
    places: Map<usize, usize>,
    selected: Seq<Key>,
) -> Seq<Key> {
    Seq::new(selected.len(), |i: int| counterpart(s, t, places, selected[i]))
}

proof fn lemma_counterpart_at(
    s: VmState,
    t: VmState,
    places: Map<usize, usize>,
    selected: Seq<Key>,
    i: int,
)
    requires
        names_differ(t),
        globals_moved(s, t, places),
        0 <= i < selected.len(),
        s.globals.contains_key(selected[i]),
    ensures
        is_counterpart(s, t, places, selected[i], counterparts(s, t, places, selected)[i]),
{
    let l = choose|l: Key| #[trigger] is_counterpart(s, t, places, selected[i], l);
    lemma_counterpart(s, t, places, selected[i], l);
}

/// A global is among some exactly if its counterpart is among theirs.
proof fn lemma_contained_alike(
    s: VmState,
    t: VmState,
    places: Map<usize, usize>,
    selected: Seq<Key>,
    k: Key,
    l: Key,
)
    requires
        names_differ(s),
        names_differ(t),
        globals_moved(s, t, places),
        forall|i: int| 0 <= i < selected.len() ==> s.globals.contains_key(#[trigger] selected[i]),
        is_counterpart(s, t, places, k, l),
    ensures
        selected.contains(k) <==> counterparts(s, t, places, selected).contains(l),
{
    let mapped = counterparts(s, t, places, selected);
    lemma_is_counterpart(s, t, places, k, l);
    if selected.contains(k) {
        let i = choose|i: int| 0 <= i < selected.len() && selected[i] == k;
        lemma_counterpart(s, t, places, k, l);
        assert(mapped[i] == l);
    }
    if mapped.contains(l) {
        let i = choose|i: int| 0 <= i < mapped.len() && mapped[i] == l;
        lemma_counterpart_at(s, t, places, selected, i);
        lemma_is_counterpart(s, t, places, selected[i], mapped[i]);
        if selected[i] != k {
            assert(name_bytes(s.heap, selected[i]) == name_bytes(s.heap, k));
        }
    }
}

/// The counterparts of what is selected are what is selected.
proof fn lemma_counterparts_selected(
    s: VmState,
    t: VmState,
    places: Map<usize, usize>,
    limit: usize,
    selected: Seq<Key>,
)
    requires
        names_differ(s),
        names_differ(t),
        globals_moved(s, t, places),
        is_selection(s, limit, selected),
    ensures
        is_selection(t, limit, counterparts(s, t, places, selected)),
{
    let mapped = counterparts(s, t, places, selected);
    assert forall|i: int| 0 <= i < mapped.len() implies t.globals.contains_key(
        #[trigger] mapped[i],
    ) by {
        lemma_counterpart_at(s, t, places, selected, i);
        lemma_is_counterpart(s, t, places, selected[i], mapped[i]);
    }
    assert forall|i: int, j: int| 0 <= i < j < mapped.len() implies #[trigger] mapped[i]
        != #[trigger] mapped[j] && ordered(
        name_bytes(t.heap, mapped[i]),
        name_bytes(t.heap, mapped[j]),
    ) by {
        lemma_counterpart_at(s, t, places, selected, i);
        lemma_counterpart_at(s, t, places, selected, j);
        lemma_is_counterpart(s, t, places, selected[i], mapped[i]);
        lemma_is_counterpart(s, t, places, selected[j], mapped[j]);
        assert(selected[i] != selected[j]);
        assert(name_bytes(s.heap, selected[i]) != name_bytes(s.heap, selected[j]));
    }
    assert forall|l: Key| #[trigger] t.globals.contains_key(l) && !mapped.contains(
        l,
    ) implies mapped.len() == limit && forall|i: int|
        0 <= i < mapped.len() ==> ordered(
            name_bytes(t.heap, #[trigger] mapped[i]),
            name_bytes(t.heap, l),
        ) by {
        let k = choose|k: Key| #[trigger] is_counterpart(s, t, places, k, l);
        lemma_contained_alike(s, t, places, selected, k, l);
        lemma_is_counterpart(s, t, places, k, l);
        assert forall|i: int| 0 <= i < mapped.len() implies ordered(
            name_bytes(t.heap, #[trigger] mapped[i]),
            name_bytes(t.heap, l),
        ) by {
            lemma_counterpart_at(s, t, places, selected, i);
            lemma_is_counterpart(s, t, places, selected[i], mapped[i]);
            assert(ordered(name_bytes(s.heap, selected[i]), name_bytes(s.heap, k)));
        }
    }
}

proof fn lemma_left_out_alike(
    s: VmState,
    t: VmState,
    places: Map<usize, usize>,
    selected: Seq<Key>,
)
    requires
        names_differ(s),
        names_differ(t),
        globals_moved(s, t, places),
        forall|i: int| 0 <= i < selected.len() ==> s.globals.contains_key(#[trigger] selected[i]),
    ensures
        leaves_out(s, selected) == leaves_out(t, counterparts(s, t, places, selected)),
{
    let mapped = counterparts(s, t, places, selected);
    if leaves_out(s, selected) {
        let k = choose|k: Key| #[trigger] s.globals.contains_key(k) && !selected.contains(k);
        let l = choose|l: Key| #[trigger] is_counterpart(s, t, places, k, l);
        lemma_contained_alike(s, t, places, selected, k, l);
        lemma_is_counterpart(s, t, places, k, l);
        assert(t.globals.contains_key(l));
    }
    if leaves_out(t, mapped) {
        let l = choose|l: Key| #[trigger] t.globals.contains_key(l) && !mapped.contains(l);
        let k = choose|k: Key| #[trigger] is_counterpart(s, t, places, k, l);
        lemma_contained_alike(s, t, places, selected, k, l);
        lemma_is_counterpart(s, t, places, k, l);
        assert(s.globals.contains_key(k));
    }
}

/// What is selected of two machines with the same globals has the same names.
proof fn lemma_selected_alike(
    vm: VM,
    other: VM,
    places: Map<usize, usize>,
    limit: usize,
    selected: Seq<Key>,
    others: Seq<Key>,
)
    requires
        vm.wf(),
        other.wf(),
        globals_moved(vm@, other@, places),
        is_selection(vm@, limit, selected),
        is_selection(other@, limit, others),
    ensures
        selected.len() == others.len(),
        forall|i: int|
            0 <= i < selected.len() ==> is_counterpart(
                vm@,
                other@,
                places,
                #[trigger] selected[i],
                others[i],
            ),
        leaves_out(vm@, selected) == leaves_out(other@, others),
{
    let s = vm@;
    let t = other@;
    law_globals_have_names_of_their_own(vm);
    law_globals_have_names_of_their_own(other);
    lemma_counterparts_selected(s, t, places, limit, selected);
    lemma_left_out_alike(s, t, places, selected);
    law_selection_is_unique(other, limit, counterparts(s, t, places, selected), others);
    assert forall|i: int| 0 <= i < selected.len() implies is_counterpart(
        s,
        t,
        places,
        #[trigger] selected[i],
        others[i],
    ) by {
        lemma_counterpart_at(s, t, places, selected, i);
    }
}

proof fn lemma_globals_alike(
    s: VmState,
    t: VmState,
    places: Map<usize, usize>,
    x: Scene,
    y: Scene,
    selected: Seq<Key>,
    others: Seq<Key>,
    i: int,
    a: Build,
    b: Build,
    done: Seq<BindingPicture>,
)
    requires
        scene_moved(places, x, y),
        build_moved(places, a, b),
        selected.len() == others.len(),
        forall|i: int|
            0 <= i < selected.len() ==> is_counterpart(
                s,
                t,
                places,
                #[trigger] selected[i],
                others[i],
            ),
        leaves_out(s, selected) == leaves_out(t, others),
    ensures
        ({
            let l = globals_from(s, x, selected, i, a, done);
            let r = globals_from(t, y, others, i, b, done);
            l.1 == r.1
        }),
    decreases selected.len() - i,
{
    if 0 <= i < selected.len() && !a.exhausted() {
        let k = selected[i];
        let l = others[i];
        lemma_is_counterpart(s, t, places, k, l);
        lemma_binding(places, x, y, name_of(s, k), s.globals[k], t.globals[l], a, b);
        let one = a.binding(x, None, name_of(s, k), "global"@, Ok(s.globals[k]));
        let two = b.binding(y, None, name_of(s, k), "global"@, Ok(t.globals[l]));
        if let (a1, Ok(Some(p))) = one {
            if !a1.exhausted() {
                lemma_globals_alike(
                    s,
                    t,
                    places,
                    x,
                    y,
                    selected,
                    others,
                    i + 1,
                    a1,
                    two.0,
                    done.push(p),
                );
            }
        }
    }
}

/// No two globals that are selected have one name.
proof fn lemma_no_repeats(s: VmState, limit: usize, selected: Seq<Key>)
    requires
        names_differ(s),
        is_selection(s, limit, selected),
    ensures
        !repeats_name(s, selected),
{
    if repeats_name(s, selected) {
        let i = choose|i: int|
            0 < i < selected.len() && name_bytes(s.heap, #[trigger] selected[i]) == name_bytes(
                s.heap,
                selected[i - 1],
            );
        assert(selected[i - 1] != selected[i]);
        assert(s.globals.contains_key(selected[i]) && s.globals.contains_key(selected[i - 1]));
    }
}

/// What is shown of the globals depends on their names and values and on what
/// may be spent: not on where the objects lie, on the order in which globals
/// were defined, nor on others that there were meanwhile.
pub proof fn law_globals_show_alike(
    vm: VM,
    other: VM,
    places: Map<usize, usize>,
    x: Scene,
    y: Scene,
    selected: Seq<Key>,
    others: Seq<Key>,
    a: Build,
    b: Build,
)
    requires
        vm.wf(),
        other.wf(),
        globals_moved(vm@, other@, places),
        scene_moved(places, x, y),
        build_moved(places, a, b),
        is_selection(vm@, x.limits.max_globals, selected),
        is_selection(other@, y.limits.max_globals, others),
    ensures
        globals_picture(vm@, x, selected, a).1 == globals_picture(other@, y, others, b).1,
{
    law_globals_have_names_of_their_own(vm);
    law_globals_have_names_of_their_own(other);
    lemma_no_repeats(vm@, x.limits.max_globals, selected);
    lemma_no_repeats(other@, y.limits.max_globals, others);
    lemma_selected_alike(vm, other, places, x.limits.max_globals, selected, others);
    lemma_globals_alike(vm@, other@, places, x, y, selected, others, 0, a, b, Seq::empty());
}

/// Nothing runs in a machine.
pub open spec fn is_idle(s: VmState) -> bool {
    s.frames.len() == 0 && s.open.len() == 0
}

/// Machines in which nothing runs and which have the same globals show the
/// same, the numbers of their lists among it.
pub proof fn law_idle_machines_show_alike(
    vm: VM,
    other: VM,
    places: Map<usize, usize>,
    request: SnapshotRequest,
    x: Scene,
    y: Scene,
    selected: Seq<Key>,
    others: Seq<Key>,
)
    requires
        vm.wf(),
        other.wf(),
        is_idle(vm@),
        is_idle(other@),
        globals_moved(vm@, other@, places),
        x.heap == vm@.heap,
        y.heap == other@.heap,
        scene_moved(places, x, y),
        is_selection(vm@, x.limits.max_globals, selected),
        is_selection(other@, y.limits.max_globals, others),
    ensures
        match (
            snapshot_picture(vm@, request, x, selected),
            snapshot_picture(other@, request, y, others),
        ) {
            (Ok(p), Ok(q)) => p.frames == q.frames && p.frames_truncated == q.frames_truncated
                && p.globals == q.globals && p.globals_truncated == q.globals_truncated,
            (Err(e), Err(f)) => e == f,
            _ => false,
        },
{
    reveal(composition);
    let a = Build::start(x.limits, vm@.heap.objects.len());
    let b = Build::start(y.limits, other@.heap.objects.len());
    assert(build_moved(places, a, b));
    law_globals_show_alike(vm, other, places, x, y, selected, others, a, b);
    if let Ok(places) = validated(vm@, request) {
        assert(places.len() == 0);
    }
    if let Ok(places) = validated(other@, request) {
        assert(places.len() == 0);
    }
}

} // verus!
