//! The globals of a snapshot, and the snapshot as a whole.
use vstd::prelude::*;
use crate::format::NumberTexts;
use crate::machine::VmState;
use crate::object::{keyed, HeapState, Object};
use crate::picture::{shows_bindings, BindingPicture, Build, Painter, Scene};
use crate::snapshot::{BindingSnapshot, SnapshotBuildError, SnapshotLimits, VmSnapshot};
use crate::snapshot_budget::{schema, BuildBudget};
use crate::snapshot_builder::{built, failed, FramePicture, SnapshotRequest, ValidatedFrame};
use crate::snapshot_laws::law_pictures_fit;
use crate::snapshot_machine::{
    first_frame_fault, frame_fault, frames_from, shows_frames, validated, well_placed,
};
use crate::table::{Key, Slot};
use crate::text::lemma_encode_injective;
use crate::vm::VM;
use vstd::string::*;
use vstd::utf8::encode_utf8;

verus! {

/// One row of bytes comes before another, or is the same.
pub open spec fn ordered(a: Seq<u8>, b: Seq<u8>) -> bool
    decreases a.len(),
{
    if a.len() == 0 {
        true
    } else if b.len() == 0 {
        false
    } else if a[0] != b[0] {
        a[0] < b[0]
    } else {
        ordered(a.drop_first(), b.drop_first())
    }
}

proof fn lemma_ordered_total(a: Seq<u8>, b: Seq<u8>)
    ensures
        ordered(a, b) || ordered(b, a),
    decreases a.len(),
{
    if a.len() > 0 && b.len() > 0 && a[0] == b[0] {
        lemma_ordered_total(a.drop_first(), b.drop_first());
    }
}

proof fn lemma_ordered_transitive(a: Seq<u8>, b: Seq<u8>, c: Seq<u8>)
    requires
        ordered(a, b),
        ordered(b, c),
    ensures
        ordered(a, c),
    decreases a.len(),
{
    if a.len() > 0 && b.len() > 0 && c.len() > 0 && a[0] == b[0] && b[0] == c[0] {
        lemma_ordered_transitive(a.drop_first(), b.drop_first(), c.drop_first());
    }
}

fn in_order(a: &[u8], b: &[u8]) -> (yes: bool)
    ensures
        yes == ordered(a@, b@),
{
    let mut i: usize = 0;
    assert(a@.skip(0) =~= a@);
    assert(b@.skip(0) =~= b@);
    loop
        invariant
            i <= a@.len(),
            i <= b@.len(),
            ordered(a@.skip(i as int), b@.skip(i as int)) == ordered(a@, b@),
        decreases a@.len() - i,
    {
        if i == a.len() {
            return true;
        }
        if i == b.len() {
            return false;
        }
        if a[i] != b[i] {
            return a[i] < b[i];
        }
        assert(a@.skip(i as int).drop_first() =~= a@.skip(i + 1));
        assert(b@.skip(i as int).drop_first() =~= b@.skip(i + 1));
        i += 1;
    }
}

/// The bytes of the name of a global.
pub open spec fn name_bytes(heap: HeapState, key: Key) -> Seq<u8> {
    encode_utf8(heap.get(key.object)->Text_text)
}

/// Every global has a name.
pub open spec fn named(s: VmState) -> bool {
    forall|key: Key| #[trigger] s.globals.contains_key(key) ==> s.heap.get(key.object) is Text
}

/// The first globals by the bytes of their names, in order, no more than
/// `limit` of them.
pub open spec fn is_selection(s: VmState, limit: usize, selected: Seq<Key>) -> bool {
    &&& selected.len() <= limit
    &&& forall|i: int| 0 <= i < selected.len() ==> s.globals.contains_key(#[trigger] selected[i])
    &&& forall|i: int, j: int|
        0 <= i < j < selected.len() ==> #[trigger] selected[i] != #[trigger] selected[j] && ordered(
            name_bytes(s.heap, selected[i]),
            name_bytes(s.heap, selected[j]),
        )
    &&& forall|key: Key| #[trigger]
        s.globals.contains_key(key) && !selected.contains(key) ==> selected.len() == limit
            && forall|i: int|
            0 <= i < selected.len() ==> ordered(
                name_bytes(s.heap, #[trigger] selected[i]),
                name_bytes(s.heap, key),
            )
}

/// No two globals have one name.
pub open spec fn names_differ(s: VmState) -> bool {
    forall|a: Key, b: Key| #[trigger]
        s.globals.contains_key(a) && #[trigger] s.globals.contains_key(b) && a != b ==> name_bytes(
            s.heap,
            a,
        ) != name_bytes(s.heap, b)
}

proof fn lemma_ordered_both(a: Seq<u8>, b: Seq<u8>)
    requires
        ordered(a, b),
        ordered(b, a),
    ensures
        a == b,
    decreases a.len(),
{
    if a.len() > 0 && b.len() > 0 {
        lemma_ordered_both(a.drop_first(), b.drop_first());
        assert(a =~= seq![a[0]] + a.drop_first());
        assert(b =~= seq![b[0]] + b.drop_first());
    } else {
        assert(a =~= b);
    }
}

/// A global that one selection has in a place comes no earlier than what
/// another has there, if they agree up to it.
proof fn lemma_no_earlier(s: VmState, limit: usize, a: Seq<Key>, b: Seq<Key>, i: int)
    requires
        is_selection(s, limit, a),
        is_selection(s, limit, b),
        0 <= i < a.len(),
        i < b.len(),
        a.take(i) == b.take(i),
        a[i] != b[i],
    ensures
        ordered(name_bytes(s.heap, b[i]), name_bytes(s.heap, a[i])),
{
    let x = a[i];
    assert(s.globals.contains_key(x));
    if b.contains(x) {
        let j = choose|j: int| 0 <= j < b.len() && b[j] == x;
        if j < i {
            assert(b[j] == x);
            assert(a.take(i)[j] == a[j]);
            assert(b.take(i)[j] == b[j]);
            assert(a[j] != a[i]);
        }
        assert(b[i] != b[j]);
    }
}

proof fn lemma_selections_agree(s: VmState, limit: usize, a: Seq<Key>, b: Seq<Key>, n: int)
    requires
        is_selection(s, limit, a),
        is_selection(s, limit, b),
        names_differ(s),
        0 <= n <= a.len(),
        n <= b.len(),
    ensures
        a.take(n) == b.take(n),
    decreases n,
{
    if n > 0 {
        let i = n - 1;
        lemma_selections_agree(s, limit, a, b, i);
        if a[i] != b[i] {
            lemma_no_earlier(s, limit, a, b, i);
            lemma_no_earlier(s, limit, b, a, i);
            lemma_ordered_both(name_bytes(s.heap, a[i]), name_bytes(s.heap, b[i]));
            assert(s.globals.contains_key(a[i]) && s.globals.contains_key(b[i]));
        }
        assert(a.take(n) =~= a.take(i).push(a[i]));
        assert(b.take(n) =~= b.take(i).push(b[i]));
    } else {
        assert(a.take(0) =~= b.take(0));
    }
}

proof fn lemma_selection_is_no_longer(s: VmState, limit: usize, a: Seq<Key>, b: Seq<Key>)
    requires
        is_selection(s, limit, a),
        is_selection(s, limit, b),
        names_differ(s),
    ensures
        b.len() <= a.len(),
{
    if a.len() < b.len() {
        let n = a.len() as int;
        lemma_selections_agree(s, limit, a, b, n);
        let y = b[n];
        assert(s.globals.contains_key(y));
        if a.contains(y) {
            let j = choose|j: int| 0 <= j < a.len() && a[j] == y;
            assert(a.take(n)[j] == b.take(n)[j]);
            assert(b[j] == b[n]);
        }
    }
}

/// The globals of a machine have names, and no two have one name.
pub proof fn law_globals_have_names_of_their_own(vm: VM)
    requires
        vm.wf(),
    ensures
        named(vm@),
        names_differ(vm@),
{
    let s = vm@;
    reveal(keyed);
    vm.heap.lemma_texts_are_known();
    assert forall|key: Key| #[trigger] s.globals.contains_key(key) implies s.heap.get(key.object) is
        Text by {
        assert(s.heap.key(key.object) == Some(key));
    }
    assert forall|a: Key, b: Key| #[trigger]
        s.globals.contains_key(a) && #[trigger] s.globals.contains_key(b) && a != b implies name_bytes(
        s.heap,
        a,
    ) != name_bytes(s.heap, b) by {
        assert(s.heap.key(a.object) == Some(a) && s.heap.key(b.object) == Some(b));
        if name_bytes(s.heap, a) == name_bytes(s.heap, b) {
            lemma_encode_injective(
                s.heap.get(a.object)->Text_text,
                s.heap.get(b.object)->Text_text,
            );
        }
    }
}

/// Which globals are shown of a machine, and in what order, depends on its
/// globals alone.
pub proof fn law_selection_is_unique(vm: VM, limit: usize, a: Seq<Key>, b: Seq<Key>)
    requires
        vm.wf(),
        is_selection(vm@, limit, a),
        is_selection(vm@, limit, b),
    ensures
        a == b,
{
    let s = vm@;
    law_globals_have_names_of_their_own(vm);
    lemma_selection_is_no_longer(s, limit, a, b);
    lemma_selection_is_no_longer(s, limit, b, a);
    lemma_selections_agree(s, limit, a, b, a.len() as int);
    assert(a.take(a.len() as int) =~= a);
    assert(b.take(b.len() as int) =~= b);
}

/// Some global is left out.
pub open spec fn leaves_out(s: VmState, selected: Seq<Key>) -> bool {
    exists|key: Key| #[trigger] s.globals.contains_key(key) && !selected.contains(key)
}

/// Two selected globals have one name.
pub open spec fn repeats_name(s: VmState, selected: Seq<Key>) -> bool {
    exists|i: int|
        0 < i < selected.len() && name_bytes(s.heap, #[trigger] selected[i]) == name_bytes(
            s.heap,
            selected[i - 1],
        )
}

/// The globals that are selected from `i` on, behind those that are done.
pub open spec fn globals_from(
    s: VmState,
    scene: Scene,
    selected: Seq<Key>,
    i: int,
    b: Build,
    done: Seq<BindingPicture>,
) -> (Build, Result<(Seq<BindingPicture>, bool), SnapshotBuildError>)
    decreases selected.len() - i,
{
    if i < 0 || i >= selected.len() {
        built(b, (done, leaves_out(s, selected)))
    } else if b.exhausted() {
        built(b, (done, true))
    } else {
        match b.binding(
            scene,
            None,
            s.heap.get(selected[i].object)->Text_text,
            "global"@,
            Ok(s.globals[selected[i]]),
        ) {
            (b, Err(error)) => failed(b, error),
            (b, Ok(None)) => built(b, (done, true)),
            (b, Ok(Some(p))) => if b.exhausted() {
                built(b, (done.push(p), leaves_out(s, selected) || i + 1 < selected.len()))
            } else {
                globals_from(s, scene, selected, i + 1, b, done.push(p))
            },
        }
    }
}

pub open spec fn globals_picture(s: VmState, scene: Scene, selected: Seq<Key>, b: Build) -> (
    Build,
    Result<(Seq<BindingPicture>, bool), SnapshotBuildError>,
) {
    if !named(s) {
        failed(b, SnapshotBuildError::ObjectState)
    } else if repeats_name(s, selected) {
        failed(b, SnapshotBuildError::TableState)
    } else {
        globals_from(s, scene, selected, 0, b, Seq::empty())
    }
}

/// A selection among the globals that a walk has met.
pub open spec fn selects_among(
    s: VmState,
    met: Set<Key>,
    limit: usize,
    selected: Seq<Key>,
    cut: bool,
) -> bool {
    &&& selected.len() <= limit
    &&& forall|i: int| 0 <= i < selected.len() ==> met.contains(#[trigger] selected[i])
    &&& forall|i: int, j: int|
        0 <= i < j < selected.len() ==> #[trigger] selected[i] != #[trigger] selected[j] && ordered(
            name_bytes(s.heap, selected[i]),
            name_bytes(s.heap, selected[j]),
        )
    &&& forall|key: Key| #[trigger]
        met.contains(key) && !selected.contains(key) ==> selected.len() == limit && forall|i: int|
            0 <= i < selected.len() ==> ordered(
                name_bytes(s.heap, #[trigger] selected[i]),
                name_bytes(s.heap, key),
            )
    &&& cut == exists|key: Key| #[trigger] met.contains(key) && !selected.contains(key)
}

impl VM {
    fn name_of(&self, key: Key) -> (name: Option<&str>)
        requires
            self.wf(),
        ensures
            match name {
                Some(name) => self@.heap.get(key.object) is Text && self@.heap.get(
                    key.object,
                )->Text_text == name@,
                None => !(self@.heap.get(key.object) is Text),
            },
    {
        if key.object >= self.heap.len() {
            return None;
        }
        match self.heap.get(key.object) {
            Object::Text { text, hash: _ } => Some(text.as_str()),
            _ => None,
        }
    }

    /// Where a name goes among names in order: behind those that come before it.
    fn place_for(&self, selected: &Vec<Key>, key: Key) -> (place: usize)
        requires
            self.wf(),
            self@.heap.get(key.object) is Text,
            forall|i: int|
                0 <= i < selected@.len() ==> self@.heap.get((#[trigger] selected@[i]).object) is Text,
        ensures
            place <= selected@.len(),
            forall|i: int|
                0 <= i < place ==> ordered(
                    name_bytes(self@.heap, #[trigger] selected@[i]),
                    name_bytes(self@.heap, key),
                ),
            place < selected@.len() ==> !ordered(
                name_bytes(self@.heap, selected@[place as int]),
                name_bytes(self@.heap, key),
            ),
    {
        let name = match self.name_of(key) {
            Some(name) => name,
            None => return 0,
        };
        let mut place: usize = 0;
        while place < selected.len()
            invariant
                self.wf(),
                name@ == self@.heap.get(key.object)->Text_text,
                place <= selected@.len(),
                forall|i: int|
                    0 <= i < selected@.len() ==> self@.heap.get(
                        (#[trigger] selected@[i]).object,
                    ) is Text,
                forall|i: int|
                    0 <= i < place ==> ordered(
                        name_bytes(self@.heap, #[trigger] selected@[i]),
                        name_bytes(self@.heap, key),
                    ),
            decreases selected@.len() - place,
        {
            assert(self@.heap.get(selected@[place as int].object) is Text);
            let other = match self.name_of(selected[place]) {
                Some(other) => other,
                None => return place,
            };
            if !in_order(other.as_bytes(), name.as_bytes()) {
                return place;
            }
            place += 1;
        }
        place
    }
}

/// A key that was not met before takes its place among those selected.
proof fn lemma_select(
    s: VmState,
    met: Set<Key>,
    limit: usize,
    selected: Seq<Key>,
    cut: bool,
    key: Key,
    place: int,
)
    requires
        selects_among(s, met, limit, selected, cut),
        !met.contains(key),
        0 <= place <= selected.len(),
        forall|i: int|
            0 <= i < place ==> ordered(
                name_bytes(s.heap, #[trigger] selected[i]),
                name_bytes(s.heap, key),
            ),
        place < selected.len() ==> !ordered(
            name_bytes(s.heap, selected[place]),
            name_bytes(s.heap, key),
        ),
    ensures
        ({
            let more = selected.insert(place, key);
            if more.len() <= limit {
                selects_among(s, met.insert(key), limit, more, cut)
            } else {
                selects_among(s, met.insert(key), limit, more.drop_last(), true)
            }
        }),
{
    let more = selected.insert(place, key);
    let all = met.insert(key);
    let kept = if more.len() <= limit {
        more
    } else {
        more.drop_last()
    };
    assert forall|i: int| place <= i < selected.len() implies ordered(
        name_bytes(s.heap, key),
        name_bytes(s.heap, #[trigger] selected[i]),
    ) by {
        lemma_ordered_total(name_bytes(s.heap, key), name_bytes(s.heap, selected[place]));
        if i > place {
            lemma_ordered_transitive(
                name_bytes(s.heap, key),
                name_bytes(s.heap, selected[place]),
                name_bytes(s.heap, selected[i]),
            );
        }
    }
    assert forall|i: int| 0 <= i < more.len() implies #[trigger] more[i] == (if i < place {
        selected[i]
    } else if i == place {
        key
    } else {
        selected[i - 1]
    }) by {}
    assert forall|i: int, j: int| 0 <= i < j < more.len() implies #[trigger] more[i]
        != #[trigger] more[j] && ordered(
        name_bytes(s.heap, more[i]),
        name_bytes(s.heap, more[j]),
    ) by {
        if i < place && j == place {
            assert(met.contains(selected[i]));
        } else if i == place {
            assert(met.contains(selected[j - 1]));
        } else if j < place {
            assert(selected[i] != selected[j]);
        } else if i < place {
            assert(selected[i] != selected[j - 1]);
        } else {
            assert(selected[i - 1] != selected[j - 1]);
        }
    }
    assert forall|i: int| 0 <= i < selected.len() implies #[trigger] more.contains(selected[i]) by {
        if i < place {
            assert(more[i] == selected[i]);
        } else {
            assert(more[i + 1] == selected[i]);
        }
    }
    assert(more[place] == key);
    assert forall|i: int| 0 <= i < kept.len() implies all.contains(#[trigger] kept[i]) by {
        assert(kept[i] == more[i]);
        if i < place {
            assert(met.contains(selected[i]));
        } else if i > place {
            assert(met.contains(selected[i - 1]));
        }
    }
    assert forall|k: Key| #[trigger] all.contains(k) && !kept.contains(k) implies kept.len()
        == limit && forall|i: int|
        0 <= i < kept.len() ==> ordered(
            name_bytes(s.heap, #[trigger] kept[i]),
            name_bytes(s.heap, k),
        ) by {
        if more.contains(k) {
            let n = choose|n: int| 0 <= n < more.len() && more[n] == k;
            assert(n == more.len() - 1) by {
                if n < kept.len() {
                    assert(kept[n] == k);
                }
            }
            assert(kept.len() == limit);
            assert forall|i: int| 0 <= i < kept.len() implies ordered(
                name_bytes(s.heap, #[trigger] kept[i]),
                name_bytes(s.heap, k),
            ) by {
                assert(kept[i] == more[i]);
                assert(more[i] != more[n]);
            }
        } else {
            assert(met.contains(k));
            assert(!selected.contains(k)) by {
                if selected.contains(k) {
                    let n = choose|n: int| 0 <= n < selected.len() && selected[n] == k;
                    assert(more.contains(selected[n]));
                }
            }
            assert(selected.len() == limit);
            assert(kept.len() == limit);
            assert forall|i: int| 0 <= i < kept.len() implies ordered(
                name_bytes(s.heap, #[trigger] kept[i]),
                name_bytes(s.heap, k),
            ) by {
                assert(kept[i] == more[i]);
                if i < place {
                    assert(kept[i] == selected[i]);
                } else if i == place {
                    assert(place < selected.len());
                    assert(ordered(name_bytes(s.heap, key), name_bytes(s.heap, selected[place])));
                    lemma_ordered_transitive(
                        name_bytes(s.heap, key),
                        name_bytes(s.heap, selected[place]),
                        name_bytes(s.heap, k),
                    );
                } else {
                    assert(kept[i] == selected[i - 1]);
                }
            }
        }
    }
    if more.len() > limit {
        let last = more.last();
        assert(all.contains(last)) by {
            if place < selected.len() {
                assert(last == selected[selected.len() - 1]);
                assert(met.contains(selected[selected.len() - 1]));
            }
        }
        assert(!kept.contains(last)) by {
            if kept.contains(last) {
                let n = choose|n: int| 0 <= n < kept.len() && kept[n] == last;
                assert(more[n] != more[more.len() - 1]);
            }
        }
        assert(all.contains(last) && !kept.contains(last));
    } else {
        if cut {
            let k = choose|k: Key| #[trigger] met.contains(k) && !selected.contains(k);
            assert(selected.len() == limit);
        }
        assert forall|k: Key| #[trigger] all.contains(k) implies kept.contains(k) by {
            if k != key {
                assert(met.contains(k));
                assert(selected.contains(k));
                let n = choose|n: int| 0 <= n < selected.len() && selected[n] == k;
                assert(more.contains(selected[n]));
            }
        }
    }
}

impl VM {
    /// Selects the globals that a snapshot shows, and tells whether some are
    /// left out. It fails where a global has no name.
    fn select_globals(&self, limit: usize) -> (selection: Option<(Vec<Key>, bool)>)
        requires
            self.wf(),
        ensures
            match selection {
                Some((selected, cut)) => named(self@) && is_selection(self@, limit, selected@)
                    && cut == leaves_out(self@, selected@),
                None => !named(self@),
            },
    {
        let mut selected: Vec<Key> = Vec::new();
        let mut cut = false;
        let ghost mut met: Set<Key> = Set::empty();
        let mut i: usize = 0;
        proof {
            self.globals.lemma_walk();
        }
        while i < self.globals.slot_count()
            invariant
                self.wf(),
                i <= self.globals.capacity(),
                selects_among(self@, met, limit, selected@, cut),
                forall|key: Key| #[trigger]
                    met.contains(key) ==> self@.globals.contains_key(key) && self@.heap.get(
                        key.object,
                    ) is Text && exists|j: int|
                        0 <= j < i && #[trigger] self.globals.slot_view(j) is Full
                            && self.globals.slot_view(j)->key == key,
                forall|j: int|
                    0 <= j < i && #[trigger] self.globals.slot_view(j) is Full ==> met.contains(
                        self.globals.slot_view(j)->key,
                    ),
                forall|i: int, j: int|
                    0 <= i < self.globals.capacity() && 0 <= j < self.globals.capacity()
                        && #[trigger] self.globals.slot_view(i) is Full
                        && #[trigger] self.globals.slot_view(j) is Full
                        && self.globals.slot_view(i)->key == self.globals.slot_view(j)->key ==> i
                        == j,
            decreases self.globals.capacity() - i,
        {
            if let Slot::Full { key, value: _ } = self.globals.slot(i) {
                if self.name_of(key).is_none() {
                    assert(self@.globals.contains_key(key));
                    return None;
                }
                proof {
                    if met.contains(key) {
                        let j = choose|j: int|
                            0 <= j < i && #[trigger] self.globals.slot_view(j) is Full
                                && self.globals.slot_view(j)->key == key;
                        assert(self.globals.slot_view(i as int) is Full);
                    }
                    assert forall|n: int| 0 <= n < selected@.len() implies self@.heap.get(
                        (#[trigger] selected@[n]).object,
                    ) is Text by {
                        assert(met.contains(selected@[n]));
                    }
                }
                let place: usize = self.place_for(&selected, key);
                proof {
                    lemma_select(
                        self@,
                        met,
                        limit,
                        selected@,
                        cut,
                        key,
                        place as int,
                    );
                    met = met.insert(key);
                }
                let ghost more = selected@.insert(place as int, key);
                selected.insert(place, key);
                if selected.len() > limit {
                    selected.pop();
                    cut = true;
                    assert(selected@ =~= more.drop_last());
                }
                assert(self.globals.slot_view(i as int) is Full);
            }
            i += 1;
        }
        proof {
            self.globals.lemma_walk();
            assert forall|key: Key| #[trigger] self@.globals.contains_key(key) implies met.contains(
                key,
            ) && self@.heap.get(key.object) is Text by {
                let j = choose|j: int|
                    0 <= j < self.globals.capacity() && #[trigger] self.globals.slot_view(j) == (
                    Slot::Full { key, value: self.globals@[key] });
                assert(self.globals.slot_view(j) is Full);
                assert(met.contains(self.globals.slot_view(j)->key));
            }
            assert forall|n: int| 0 <= n < selected@.len() implies self@.globals.contains_key(
                #[trigger] selected@[n],
            ) by {
                assert(met.contains(selected@[n]));
            }
            if cut {
                let key = choose|key: Key| #[trigger] met.contains(key) && !selected@.contains(key);
                assert(self@.globals.contains_key(key) && !selected@.contains(key));
            }
        }
        Some((selected, cut))
    }

    fn name_repeats(&self, selected: &Vec<Key>) -> (repeats: bool)
        requires
            self.wf(),
            named(self@),
            forall|i: int|
                0 <= i < selected@.len() ==> self@.globals.contains_key(#[trigger] selected@[i]),
        ensures
            repeats == repeats_name(self@, selected@),
    {
        let mut i: usize = 1;
        while i < selected.len()
            invariant
                self.wf(),
                named(self@),
                1 <= i,
                forall|i: int|
                    0 <= i < selected@.len() ==> self@.globals.contains_key(
                        #[trigger] selected@[i],
                    ),
                forall|j: int|
                    0 < j < i && j < selected@.len() ==> name_bytes(
                        self@.heap,
                        #[trigger] selected@[j],
                    ) != name_bytes(self@.heap, selected@[j - 1]),
            decreases selected@.len() - i,
        {
            assert(self@.globals.contains_key(selected@[i as int]));
            assert(self@.globals.contains_key(selected@[i - 1]));
            if let (Some(name), Some(before)) = (
                self.name_of(selected[i]),
                self.name_of(selected[i - 1]),
            ) {
                if crate::text::same_text(name, before) {
                    assert(name_bytes(self@.heap, selected@[i as int]) == name_bytes(
                        self@.heap,
                        selected@[i - 1],
                    ));
                    return true;
                }
                proof {
                    if name_bytes(self@.heap, selected@[i as int]) == name_bytes(
                        self@.heap,
                        selected@[i - 1],
                    ) {
                        crate::text::lemma_encode_injective(name@, before@);
                    }
                }
            }
            i += 1;
        }
        false
    }

    /// Whether the open captured variables lie on the stack, the highest first.
    fn open_cells_valid(&self) -> (valid: bool)
        requires
            self.wf(),
        ensures
            valid == open_valid(self@),
    {
        let mut i: usize = 0;
        while i < self.open.len()
            invariant
                self.wf(),
                i <= self.open@.len(),
                forall|j: int| 0 <= j < i ==> #[trigger] open_valid_at(self@, j),
            decreases self.open@.len() - i,
        {
            let slot: usize = match self.open_slot(self.open[i]) {
                Some(slot) => slot,
                None => {
                    assert(!open_valid_at(self@, i as int));
                    return false;
                },
            };
            if slot >= self.stack.len() {
                assert(!open_valid_at(self@, i as int));
                return false;
            }
            if i > 0 {
                assert(open_valid_at(self@, i - 1));
                match self.open_slot(self.open[i - 1]) {
                    Some(before) => {
                        if slot >= before {
                            assert(!open_valid_at(self@, i as int));
                            return false;
                        }
                    },
                    None => {
                        return false;
                    },
                }
            }
            i += 1;
        }
        true
    }
}

pub open spec fn open_valid_at(s: VmState, i: int) -> bool {
    0 <= s.open_slot(s.open[i]) < s.stack.len() && (i > 0 ==> s.open_slot(s.open[i]) < s.open_slot(
        s.open[i - 1],
    ))
}

/// The open captured variables lie on the stack, the highest first.
pub open spec fn open_valid(s: VmState) -> bool {
    forall|i: int| 0 <= i < s.open.len() ==> #[trigger] open_valid_at(s, i)
}

impl<'a> Painter<'a> {
    fn build_globals(&mut self, selected: &Vec<Key>, cut: bool) -> (result: Result<
        (Vec<BindingSnapshot>, bool),
        SnapshotBuildError,
    >)
        requires
            old(self).wf(),
            old(self).limits.max_depth < 100,
            named(old(self).vm@),
            forall|i: int|
                0 <= i < selected@.len() ==> old(self).vm@.globals.contains_key(
                    #[trigger] selected@[i],
                ),
            cut == leaves_out(old(self).vm@, selected@),
        ensures
            final(self).wf(),
            final(self).same(*old(self)),
            painted_globals(
                result,
                final(self)@,
                globals_picture(old(self).vm@, old(self).scene(), selected@, old(self)@),
            ),
    {
        let vm = self.vm;
        if vm.name_repeats(selected) {
            return Err(SnapshotBuildError::TableState);
        }
        let ghost s = vm@;
        let ghost scene = self.scene();
        let ghost goal = globals_from(s, scene, selected@, 0, self@, Seq::empty());
        let mut globals: Vec<BindingSnapshot> = Vec::new();
        let ghost mut done: Seq<BindingPicture> = Seq::empty();
        let mut i: usize = 0;
        while i < selected.len()
            invariant
                self.wf(),
                self.same(*old(self)),
                vm == self.vm,
                s == vm@,
                scene == self.scene(),
                self.limits.max_depth < 100,
                named(s),
                forall|i: int|
                    0 <= i < selected@.len() ==> s.globals.contains_key(#[trigger] selected@[i]),
                cut == leaves_out(s, selected@),
                i <= selected@.len(),
                shows_bindings(globals@, done),
                goal == globals_picture(
                    old(self).vm@,
                    old(self).scene(),
                    selected@,
                    old(self)@,
                ),
                goal == globals_from(s, scene, selected@, i as int, self@, done),
            decreases selected@.len() - i,
        {
            if self.budget.is_exhausted() {
                return Ok((globals, true));
            }
            assert(s.globals.contains_key(selected@[i as int]));
            let name = match vm.name_of(selected[i]) {
                Some(name) => name,
                None => return Err(SnapshotBuildError::ObjectState),
            };
            let value = match vm.globals.get(selected[i]) {
                Some(value) => value,
                None => return Err(SnapshotBuildError::TableState),
            };
            let ghost one = self@.binding(scene, None, name@, "global"@, Ok(value));
            match self.build_binding(None, name, "global", Ok(value)) {
                Err(error) => {
                    return Err(error);
                },
                Ok(None) => {
                    return Ok((globals, true));
                },
                Ok(Some(binding)) => {
                    globals.push(binding);
                    proof {
                        done = done.push(one.1->Ok_0->Some_0);
                    }
                    if self.budget.is_exhausted() {
                        return Ok((globals, cut || i + 1 < selected.len()));
                    }
                },
            }
            i += 1;
        }
        Ok((globals, cut))
    }
}

pub open spec fn painted_globals(
    result: Result<(Vec<BindingSnapshot>, bool), SnapshotBuildError>,
    after: Build,
    goal: (Build, Result<(Seq<BindingPicture>, bool), SnapshotBuildError>),
) -> bool {
    match (result, goal.1) {
        (Ok((globals, truncated)), Ok((ps, t))) => shows_bindings(globals@, ps) && truncated == t
            && after == goal.0,
        (Err(a), Err(b)) => a == b,
        _ => false,
    }
}

/// What a snapshot shows, and the picture's last state.
pub ghost struct SnapshotPicture {
    pub frames: Seq<FramePicture>,
    pub frames_truncated: bool,
    pub globals: Seq<BindingPicture>,
    pub globals_truncated: bool,
    pub build: Build,
}

/// What is shown of calls that were checked, and of the globals.
#[verifier::opaque]
pub open spec fn composition(
    s: VmState,
    scene: Scene,
    places: Seq<ValidatedFrame>,
    selected: Seq<Key>,
    start: Build,
) -> Result<SnapshotPicture, SnapshotBuildError> {
    match frames_from(s, scene, places, 0, start, Seq::empty()) {
        (_, Err(error)) => Err(error),
        (b, Ok((frames, frames_truncated))) => match globals_picture(s, scene, selected, b) {
            (_, Err(error)) => Err(error),
            (build, Ok((globals, globals_truncated))) => Ok(
                SnapshotPicture { frames, frames_truncated, globals, globals_truncated, build },
            ),
        },
    }
}

/// A snapshot of a machine, but for its own size.
pub open spec fn snapshot_picture(
    s: VmState,
    request: SnapshotRequest,
    scene: Scene,
    selected: Seq<Key>,
) -> Result<SnapshotPicture, SnapshotBuildError> {
    let start = Build::start(scene.limits, s.heap.objects.len());
    if scene.limits.fault() is Some {
        Err(SnapshotBuildError::SizeOverflow)
    } else if !open_valid(s) {
        Err(SnapshotBuildError::UpvalueState)
    } else if schema().snapshot > scene.limits.max_estimated_json_bytes {
        Err(SnapshotBuildError::SizeOverflow)
    } else {
        match validated(s, request) {
            Err(error) => Err(error),
            Ok(places) => composition(s, scene, places, selected, start),
        }
    }
}

pub open spec fn shows_snapshot(
    snapshot: VmSnapshot,
    request: SnapshotRequest,
    p: SnapshotPicture,
) -> bool {
    &&& snapshot.reason == request.reason
    &&& snapshot.current_span == request.current_span
    &&& shows_frames(snapshot.frames@, p.frames)
    &&& snapshot.frames_truncated == p.frames_truncated
    &&& shows_bindings(snapshot.globals@, p.globals)
    &&& snapshot.globals_truncated == p.globals_truncated
}

/// The estimated size of a snapshot is within its limit and what was reserved.
pub open spec fn fits(snapshot: VmSnapshot, limits: SnapshotLimits, p: SnapshotPicture) -> bool {
    snapshot.estimate() matches Ok(size) && size <= limits.max_estimated_json_bytes && size
        <= p.build.budget.estimated_json_bytes
}

/// The numbers whose texts a snapshot shows.
pub open spec fn numbers_met(
    s: VmState,
    request: SnapshotRequest,
    scene: Scene,
    selected: Seq<Key>,
) -> Seq<u64> {
    match snapshot_picture(s, request, scene, selected) {
        Ok(p) => p.build.numbers,
        Err(_) => Seq::empty(),
    }
}

/// What taking a snapshot gives.
pub open spec fn taken(
    result: Result<VmSnapshot, SnapshotBuildError>,
    s: VmState,
    request: SnapshotRequest,
    scene: Scene,
    selected: Seq<Key>,
) -> bool {
    match (result, snapshot_picture(s, request, scene, selected)) {
        (Ok(snapshot), Ok(p)) => shows_snapshot(snapshot, request, p) && fits(
            snapshot,
            scene.limits,
            p,
        ),
        (Err(a), Err(b)) => a == b,
        _ => false,
    }
}

impl VM {
    /// Takes a snapshot. The second result is the numbers whose texts it shows.
    pub fn build_snapshot(
        &self,
        request: SnapshotRequest,
        limits: &SnapshotLimits,
        texts: &NumberTexts,
    ) -> (result: (Result<VmSnapshot, SnapshotBuildError>, Vec<u64>))
        requires
            self.wf(),
        ensures
            exists|selected: Seq<Key>|
                (named(self@) ==> is_selection(self@, limits.max_globals, selected))
                    && #[trigger] taken(
                    result.0,
                    self@,
                    request,
                    Scene { heap: self@.heap, texts: *texts, limits: *limits },
                    selected,
                ) && result.1@ == numbers_met(
                    self@,
                    request,
                    Scene { heap: self@.heap, texts: *texts, limits: *limits },
                    selected,
                ),
    {
        let ghost scene = Scene { heap: self@.heap, texts: *texts, limits: *limits };
        let chosen = self.select_globals(limits.max_globals);
        let ghost selected = chosen_keys(chosen);
        let (result, numbers) = self.paint(request, limits, texts, &chosen);
        assert(taken(result, self@, request, scene, selected));
        (result, numbers)
    }

    fn paint(
        &self,
        request: SnapshotRequest,
        limits: &SnapshotLimits,
        texts: &NumberTexts,
        chosen: &Option<(Vec<Key>, bool)>,
    ) -> (result: (Result<VmSnapshot, SnapshotBuildError>, Vec<u64>))
        requires
            self.wf(),
            match *chosen {
                Some((selected, cut)) => named(self@) && is_selection(
                    self@,
                    limits.max_globals,
                    selected@,
                ) && cut == leaves_out(self@, selected@),
                None => !named(self@),
            },
        ensures
            taken(
                result.0,
                self@,
                request,
                Scene { heap: self@.heap, texts: *texts, limits: *limits },
                chosen_keys(*chosen),
            ),
            result.1@ == numbers_met(
                self@,
                request,
                Scene { heap: self@.heap, texts: *texts, limits: *limits },
                chosen_keys(*chosen),
            ),
    {
        if limits.validate().is_err() {
            return (Err(SnapshotBuildError::SizeOverflow), Vec::new());
        }
        if !self.open_cells_valid() {
            return (Err(SnapshotBuildError::UpvalueState), Vec::new());
        }
        let budget = match BuildBudget::new(limits) {
            Ok(budget) => budget,
            Err(error) => return (Err(error), Vec::new()),
        };
        let places = match self.validate_frames(request) {
            Ok(places) => places,
            Err(error) => return (Err(error), Vec::new()),
        };
        let painter = Painter {
            vm: self,
            texts,
            limits: *limits,
            budget,
            ids: zeros(self.heap.len()),
            active: Vec::new(),
            next_id: 1,
            numbers: Vec::new(),
        };
        let ghost scene = painter.scene();
        let ghost start = Build::start(scene.limits, self@.heap.objects.len());
        assert(painter@ =~= start);
        proof {
            lemma_places(self@, request, places@);
        }
        let (composed, numbers) = painter.compose(request, &places, chosen);
        match composed {
            Ok((snapshot, reserved)) => {
                proof {
                    law_pictures_fit(
                        self@,
                        request,
                        scene,
                        chosen_keys(*chosen),
                        composition(self@, scene, places@, chosen_keys(*chosen), start)->Ok_0,
                        snapshot,
                    );
                }
                match snapshot.conservative_json_size() {
                    Ok(size) => if size > limits.max_estimated_json_bytes || size > reserved {
                        (Err(SnapshotBuildError::SizeOverflow), numbers)
                    } else {
                        (Ok(snapshot), numbers)
                    },
                    Err(_) => (Err(SnapshotBuildError::SizeOverflow), numbers),
                }
            },
            Err(error) => (Err(error), numbers),
        }
    }
}

impl<'a> Painter<'a> {
    /// Pictures the calls and the globals. The size is what was reserved.
    fn compose(
        self,
        request: SnapshotRequest,
        places: &Vec<ValidatedFrame>,
        chosen: &Option<(Vec<Key>, bool)>,
    ) -> (result: (Result<(VmSnapshot, usize), SnapshotBuildError>, Vec<u64>))
        requires
            self.wf(),
            self.limits.max_depth < 100,
            well_placed(self.vm@, places@),
            match *chosen {
                Some((selected, cut)) => named(self.vm@) && (forall|i: int|
                    0 <= i < selected@.len() ==> self.vm@.globals.contains_key(
                        #[trigger] selected@[i],
                    )) && cut == leaves_out(self.vm@, selected@),
                None => !named(self.vm@),
            },
        ensures
            match (
                result.0,
                composition(self.vm@, self.scene(), places@, chosen_keys(*chosen), self@),
            ) {
                (Ok((snapshot, reserved)), Ok(p)) => shows_snapshot(snapshot, request, p)
                    && reserved == p.build.budget.estimated_json_bytes && result.1@
                    == p.build.numbers,
                (Err(a), Err(b)) => a == b && result.1@ == Seq::<u64>::empty(),
                _ => false,
            },
    {
        proof {
            reveal(composition);
        }
        let mut painter = self;
        let (frames, frames_truncated) = match painter.build_frames(places) {
            Ok(result) => result,
            Err(error) => return (Err(error), Vec::new()),
        };
        let (globals, globals_truncated) = match chosen {
            Some((selected, cut)) => match painter.build_globals(selected, *cut) {
                Ok(result) => result,
                Err(error) => return (Err(error), Vec::new()),
            },
            None => return (Err(SnapshotBuildError::ObjectState), Vec::new()),
        };
        let snapshot = VmSnapshot {
            reason: request.reason,
            current_span: request.current_span,
            frames,
            frames_truncated,
            globals,
            globals_truncated,
        };
        (Ok((snapshot, painter.budget.estimated_json_bytes)), painter.numbers)
    }
}

spec fn chosen_keys(chosen: Option<(Vec<Key>, bool)>) -> Seq<Key> {
    match chosen {
        Some((selected, _)) => selected@,
        None => Seq::empty(),
    }
}

fn zeros(count: usize) -> (ids: Vec<u64>)
    ensures
        ids@ == Seq::new(count as nat, |i: int| 0u64),
{
    let mut ids: Vec<u64> = Vec::new();
    while ids.len() < count
        invariant
            ids@.len() <= count,
            forall|i: int| 0 <= i < ids@.len() ==> ids@[i] == 0,
        decreases count - ids@.len(),
    {
        ids.push(0);
    }
    assert(ids@ =~= Seq::new(count as nat, |i: int| 0u64));
    ids
}

/// Calls that were checked have a closure and a function.
proof fn lemma_places(s: VmState, request: SnapshotRequest, places: Seq<ValidatedFrame>)
    requires
        validated(s, request) == Ok::<Seq<ValidatedFrame>, SnapshotBuildError>(places),
    ensures
        well_placed(s, places),
{
    assert forall|i: int| 0 <= i < places.len() implies s.function_of(
        (#[trigger] places[i]).closure,
    ) is Some by {
        lemma_no_fault(s, 0, i);
    }
}

pub proof fn lemma_no_fault(s: VmState, from: int, i: int)
    requires
        0 <= from <= i < s.frames.len(),
        first_frame_fault(s, from) is None,
    ensures
        frame_fault(s, i) is None,
    decreases i - from,
{
    if from < i {
        lemma_no_fault(s, from + 1, i);
    }
}

} // verus!
