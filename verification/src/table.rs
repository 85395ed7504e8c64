//! A hash table from interned strings to values, with open addressing and
//! linear probing.
use vstd::prelude::*;
use crate::object::Object;
use crate::text::same_text;
use crate::value::Value;

verus! {

/// An interned string: the object that holds it, and its hash.
#[derive(Debug, Clone, Copy, PartialEq, Eq, Structural)]
pub struct Key {
    pub object: usize,
    pub hash: u32,
}

/// A place of the table. A tombstone marks a place whose key was deleted, so
/// that keys behind it are still found.
#[derive(Debug, Clone, Copy, PartialEq, Eq, Structural)]
pub enum Slot {
    Empty,
    Tombstone,
    Full { key: Key, value: Value },
}

/// The slot that is probed at step `step` for a hash.
pub open spec fn probe(slots: Seq<Slot>, hash: u32, step: int) -> Slot {
    slots[place_at(slots.len() as int, hash, step)]
}

pub open spec fn place_at(capacity: int, hash: u32, step: int) -> int {
    (hash + step) % capacity
}

/// No slot before step `steps` is empty.
pub open spec fn chain(slots: Seq<Slot>, hash: u32, steps: int) -> bool {
    forall|e: int| 0 <= e < steps ==> !(#[trigger] probe(slots, hash, e) is Empty)
}

/// Probing for the hash of a full slot gets to the slot.
pub open spec fn reachable(slots: Seq<Slot>, i: int) -> bool {
    slots[i] matches Slot::Full { key, value } ==> exists|step: int| #[trigger]
        reached_in(slots, key.hash, step, i)
}

pub open spec fn reached_in(slots: Seq<Slot>, hash: u32, step: int, i: int) -> bool {
    &&& 0 <= step < slots.len()
    &&& place_at(slots.len() as int, hash, step) == i
    &&& chain(slots, hash, step)
}

/// The table holds a value for a key.
pub open spec fn holds(slots: Seq<Slot>, key: Key, value: Value) -> bool {
    exists|i: int| 0 <= i < slots.len() && #[trigger] slots[i] == (Slot::Full { key, value })
}

pub open spec fn has_key(slots: Seq<Slot>, key: Key) -> bool {
    exists|value: Value| holds(slots, key, value)
}

/// How many of the first `n` slots are not empty.
pub open spec fn used(slots: Seq<Slot>, n: int) -> nat
    decreases n,
{
    if n <= 0 {
        0
    } else {
        used(slots, n - 1) + (if slots[n - 1] is Empty {
            0nat
        } else {
            1
        })
    }
}

/// Every key stands in one slot, which probing gets to.
pub open spec fn sound(slots: Seq<Slot>) -> bool {
    &&& forall|i: int| 0 <= i < slots.len() ==> #[trigger] reachable(slots, i)
    &&& forall|i: int, j: int|
        0 <= i < slots.len() && 0 <= j < slots.len() && #[trigger] slots[i] is Full
            && #[trigger] slots[j] is Full && slots[i]->key == slots[j]->key ==> i == j
}

proof fn lemma_used_bounds(slots: Seq<Slot>, n: int)
    requires
        0 <= n <= slots.len(),
    ensures
        used(slots, n) <= n,
        used(slots, n) < n ==> exists|i: int| 0 <= i < n && #[trigger] slots[i] is Empty,
    decreases n,
{
    if n > 0 {
        lemma_used_bounds(slots, n - 1);
    }
}

proof fn lemma_used_update(slots: Seq<Slot>, i: int, slot: Slot, n: int)
    requires
        0 <= i < slots.len(),
        0 <= n <= slots.len(),
    ensures
        used(slots.update(i, slot), n) == used(slots, n) + (if i < n {
            (if slot is Empty {
                0int
            } else {
                1
            }) - (if slots[i] is Empty {
                0int
            } else {
                1
            })
        } else {
            0
        }),
    decreases n,
{
    if n > 0 {
        lemma_used_update(slots, i, slot, n - 1);
    }
}

/// Every place is probed at some step.
proof fn lemma_all_places_probed(capacity: int, hash: u32, i: int)
    requires
        0 <= i < capacity,
    ensures
        exists|step: int| 0 <= step < capacity && #[trigger] place_at(capacity, hash, step) == i,
{
    let home = hash as int % capacity;
    let step = if i >= home {
        i - home
    } else {
        i - home + capacity
    };
    assert(place_at(capacity, hash, step) == i) by {
        let q = hash as int / capacity;
        assert(hash == capacity * q + home) by {
            vstd::arithmetic::div_mod::lemma_fundamental_div_mod(hash as int, capacity);
        }
        if i >= home {
            assert((capacity * q + i) % capacity == i) by {
                vstd::arithmetic::div_mod::lemma_mod_multiples_vanish(q, i, capacity);
                vstd::arithmetic::div_mod::lemma_small_mod(i as nat, capacity as nat);
            }
            assert(hash + step == capacity * q + i);
        } else {
            assert((capacity * (q + 1) + i) % capacity == i) by {
                vstd::arithmetic::div_mod::lemma_mod_multiples_vanish(q + 1, i, capacity);
                vstd::arithmetic::div_mod::lemma_small_mod(i as nat, capacity as nat);
            }
            assert(capacity * (q + 1) == capacity * q + capacity) by (nonlinear_arith);
            assert(hash + step == capacity * (q + 1) + i);
        }
    }
}

/// What a search for a key ends with.
spec fn search_result(slots: Seq<Slot>, key: Key, found: int) -> bool {
    &&& 0 <= found < slots.len()
    &&& match slots[found] {
        Slot::Full { key: other, value } => other == key,
        _ => !has_key(slots, key) && exists|step: int| #[trigger]
            reached_in(slots, key.hash, step, found),
    }
}

/// Filling a slot that a search ended with keeps the table sound.
proof fn lemma_fill(slots: Seq<Slot>, key: Key, value: Value, found: int)
    requires
        sound(slots),
        search_result(slots, key, found),
    ensures
        sound(slots.update(found, Slot::Full { key, value })),
        forall|k: Key, v: Value| #[trigger]
            holds(slots.update(found, Slot::Full { key, value }), k, v) <==> (if k == key {
                v == value
            } else {
                holds(slots, k, v)
            }),
{
    let full = Slot::Full { key, value };
    let next = slots.update(found, full);
    assert forall|i: int| 0 <= i < next.len() implies #[trigger] reachable(next, i) by {
        if next[i] is Full {
            let k = next[i]->key;
            assert(reachable(slots, i));
            let step = if i == found {
                if slots[found] is Full {
                    choose|step: int| #[trigger] reached_in(slots, k.hash, step, i)
                } else {
                    choose|step: int| #[trigger] reached_in(slots, key.hash, step, found)
                }
            } else {
                choose|step: int| #[trigger] reached_in(slots, k.hash, step, i)
            };
            assert(reached_in(slots, k.hash, step, i));
            assert forall|e: int| 0 <= e < step implies !(#[trigger] probe(next, k.hash, e) is Empty) by {
                assert(!(probe(slots, k.hash, e) is Empty));
            }
            assert(reached_in(next, k.hash, step, i));
        }
    }
    assert forall|i: int, j: int|
        0 <= i < next.len() && 0 <= j < next.len() && #[trigger] next[i] is Full
            && #[trigger] next[j] is Full && next[i]->key == next[j]->key implies i == j by {
        if i != j && (i == found || j == found) {
            let other = if i == found {
                j
            } else {
                i
            };
            assert(slots[other] == (Slot::Full { key, value: slots[other]->value }));
            if slots[found] is Full {
                assert(slots[found]->key == key);
            } else {
                assert(holds(slots, key, slots[other]->value));
                assert(has_key(slots, key));
            }
        }
    }
    assert forall|k: Key, v: Value| #[trigger] holds(next, k, v) <==> (if k == key {
        v == value
    } else {
        holds(slots, k, v)
    }) by {
        assert(next[found] == full);
        if holds(next, k, v) {
            let i = choose|i: int|
                0 <= i < next.len() && #[trigger] next[i] == (Slot::Full { key: k, value: v });
            if k == key {
                assert(next[i] is Full && next[found] is Full);
                assert(i == found);
            } else {
                assert(slots[i] == (Slot::Full { key: k, value: v }));
            }
        }
        if k != key && holds(slots, k, v) {
            let i = choose|i: int|
                0 <= i < slots.len() && #[trigger] slots[i] == (Slot::Full { key: k, value: v });
            assert(i != found) by {
                if i == found {
                    assert(slots[found] is Full);
                }
            }
            assert(next[i] == (Slot::Full { key: k, value: v }));
        }
    }
}

/// The place of a key, or the place where it can be put: the first tombstone
/// on the way, or else the empty slot at the end of it.
fn find_entry(slots: &Vec<Slot>, key: Key) -> (found: usize)
    requires
        sound(slots@),
        used(slots@, slots@.len() as int) < slots@.len(),
    ensures
        search_result(slots@, key, found as int),
{
    let capacity: usize = slots.len();
    let ghost cap = capacity as int;
    let mut tombstone: Option<usize> = None;
    let ghost mut at_tombstone: int = 0;
    let mut index: usize = (key.hash as usize) % capacity;
    let ghost mut step: int = 0;
    proof {
        lemma_used_bounds(slots@, cap);
    }
    loop
        invariant
            sound(slots@),
            capacity == slots@.len() == cap,
            cap > 0,
            exists|i: int| 0 <= i < cap && #[trigger] slots@[i] is Empty,
            0 <= step <= cap,
            index == place_at(cap, key.hash, step),
            forall|e: int|
                0 <= e < step ==> !(#[trigger] probe(slots@, key.hash, e) is Empty) && !(probe(
                    slots@,
                    key.hash,
                    e,
                ) matches Slot::Full { key: other, value: _ } && other == key),
            match tombstone {
                Some(place) => 0 <= at_tombstone < step && place == place_at(
                    cap,
                    key.hash,
                    at_tombstone,
                ) && slots@[place as int] is Tombstone,
                None => true,
            },
        decreases cap - step,
    {
        proof {
            // The search ends at an empty slot at the latest.
            let i = choose|i: int| 0 <= i < cap && #[trigger] slots@[i] is Empty;
            lemma_all_places_probed(cap, key.hash, i);
            let e = choose|e: int| 0 <= e < cap && #[trigger] place_at(cap, key.hash, e) == i;
            assert(probe(slots@, key.hash, e) is Empty);
            assert(step <= e < cap);
            assert(probe(slots@, key.hash, step) == slots@[index as int]);
        }
        match slots[index] {
            Slot::Empty => {
                proof {
                    assert forall|value: Value| !#[trigger] holds(slots@, key, value) by {
                        if holds(slots@, key, value) {
                            let i = choose|i: int|
                                0 <= i < cap && #[trigger] slots@[i] == (Slot::Full { key, value });
                            assert(reachable(slots@, i));
                            let d = choose|d: int| #[trigger] reached_in(slots@, key.hash, d, i);
                            assert(probe(slots@, key.hash, d) == slots@[i]);
                            assert(step < d);
                            assert(probe(slots@, key.hash, step) is Empty);
                        }
                    }
                    assert(reached_in(slots@, key.hash, step, index as int));
                }
                return match tombstone {
                    Some(place) => {
                        assert(reached_in(slots@, key.hash, at_tombstone, place as int));
                        place
                    },
                    None => index,
                };
            },
            Slot::Tombstone => {
                if tombstone.is_none() {
                    tombstone = Some(index);
                    proof {
                        at_tombstone = step;
                    }
                }
            },
            Slot::Full { key: other, value: _ } => {
                if other == key {
                    return index;
                }
            },
        }
        proof {
            lemma_next_place(cap, key.hash, step);
        }
        index = if index + 1 == capacity {
            0
        } else {
            index + 1
        };
        proof {
            step = step + 1;
        }
    }
}

proof fn lemma_next_place(capacity: int, hash: u32, step: int)
    requires
        capacity > 0,
        0 <= step,
    ensures
        0 <= place_at(capacity, hash, step) < capacity,
        place_at(capacity, hash, step + 1) == (if place_at(capacity, hash, step) + 1 == capacity {
            0
        } else {
            place_at(capacity, hash, step) + 1
        }),
{
    let x = hash + step;
    vstd::arithmetic::div_mod::lemma_fundamental_div_mod(x, capacity);
    vstd::arithmetic::div_mod::lemma_mod_bound(x, capacity);
    let q = x / capacity;
    let r = x % capacity;
    if r + 1 == capacity {
        assert(x + 1 == capacity * (q + 1)) by (nonlinear_arith)
            requires
                x == capacity * q + r,
                r + 1 == capacity,
        ;
        assert((capacity * (q + 1) + 0) % capacity == 0) by {
            vstd::arithmetic::div_mod::lemma_mod_multiples_vanish(q + 1, 0, capacity);
            vstd::arithmetic::div_mod::lemma_small_mod(0, capacity as nat);
        }
    } else {
        assert((capacity * q + (r + 1)) % capacity == r + 1) by {
            vstd::arithmetic::div_mod::lemma_mod_multiples_vanish(q, r + 1, capacity);
            vstd::arithmetic::div_mod::lemma_small_mod((r + 1) as nat, capacity as nat);
        }
    }
}

/// The table. `count` counts the slots that are not empty.
#[derive(Debug)]
pub struct Table {
    count: usize,
    slots: Vec<Slot>,
}

/// The object of a key is this text.
pub open spec fn is_text(objects: Seq<Object>, key: Key, chars: Seq<char>) -> bool {
    key.object < objects.len() && (objects[key.object as int] matches Object::Text { text, hash: _ }
        && text@ == chars)
}

/// The keys of some slots with their values.
pub open spec fn contents_of(slots: Seq<Slot>) -> Map<Key, Value> {
    Map::new(|key: Key| has_key(slots, key), |key: Key| choose|value: Value| holds(slots, key, value))
}

proof fn lemma_contents(slots: Seq<Slot>, key: Key, value: Value)
    requires
        sound(slots),
        holds(slots, key, value),
    ensures
        contents_of(slots).contains_key(key),
        contents_of(slots)[key] == value,
{
    assert(has_key(slots, key));
    let other = choose|v: Value| holds(slots, key, v);
    let i = choose|i: int| 0 <= i < slots.len() && #[trigger] slots[i] == (Slot::Full { key, value });
    let j = choose|j: int|
        0 <= j < slots.len() && #[trigger] slots[j] == (Slot::Full { key, value: other });
    assert(slots[i] is Full && slots[j] is Full);
}

impl Table {
    pub closed spec fn view(self) -> Map<Key, Value> {
        contents_of(self.slots@)
    }

    pub closed spec fn capacity(self) -> nat {
        self.slots@.len()
    }

    /// How many slots are taken, by keys or by tombstones.
    pub closed spec fn load(self) -> nat {
        self.count as nat
    }

    /// The table is sound and never more than three quarters full.
    pub closed spec fn wf(self) -> bool {
        &&& sound(self.slots@)
        &&& self.count == used(self.slots@, self.slots@.len() as int)
        &&& self.slots@.len() % 4 == 0
        &&& self.count <= self.slots@.len() / 4 * 3
    }

    pub fn new() -> (table: Self)
        ensures
            table.wf(),
            table@ == Map::<Key, Value>::empty(),
            table.capacity() == 0,
    {
        let table = Table { count: 0, slots: Vec::new() };
        assert forall|key: Key| !#[trigger] has_key(table.slots@, key) by {
            assert forall|value: Value| !#[trigger] holds(table.slots@, key, value) by {}
        }
        assert(table@ =~= Map::<Key, Value>::empty());
        table
    }

    pub fn slot_count(&self) -> (capacity: usize)
        ensures
            capacity == self.capacity(),
    {
        self.slots.len()
    }

    /// The slot at a place, for walks over the table.
    pub fn slot(&self, index: usize) -> (slot: Slot)
        requires
            index < self.capacity(),
            self.wf(),
        ensures
            slot matches Slot::Full { key, value } ==> self@.contains_key(key) && self@[key] == value,
            slot == self.slot_view(index as int),
    {
        let slot = self.slots[index];
        proof {
            if let Slot::Full { key, value } = slot {
                assert(holds(self.slots@, key, value));
                lemma_contents(self.slots@, key, value);
            }
        }
        slot
    }

    pub closed spec fn slot_view(self, index: int) -> Slot {
        self.slots@[index]
    }

    /// A walk over the slots meets every key, and each only once.
    pub proof fn lemma_walk(self)
        requires
            self.wf(),
        ensures
            forall|key: Key| #[trigger]
                self@.contains_key(key) ==> exists|i: int|
                    0 <= i < self.capacity() && #[trigger] self.slot_view(i) == (Slot::Full {
                        key,
                        value: self@[key],
                    }),
            forall|i: int, j: int|
                0 <= i < self.capacity() && 0 <= j < self.capacity()
                    && #[trigger] self.slot_view(i) is Full && #[trigger] self.slot_view(j) is Full
                    && self.slot_view(i)->key == self.slot_view(j)->key ==> i == j,
    {
        assert forall|key: Key| #[trigger] self@.contains_key(key) implies exists|i: int|
            0 <= i < self.capacity() && #[trigger] self.slot_view(i) == (Slot::Full {
                key,
                value: self@[key],
            }) by {
            let value = choose|value: Value| holds(self.slots@, key, value);
            let i = choose|i: int|
                0 <= i < self.slots@.len() && #[trigger] self.slots@[i] == (Slot::Full {
                    key,
                    value,
                });
            assert(self.slot_view(i) == (Slot::Full { key, value: self@[key] }));
        }
    }

    /// The next greater capacity.
    fn grow_capacity(capacity: usize) -> (grown: usize)
        requires
            capacity <= usize::MAX / 2,
        ensures
            grown == (if capacity < 8 {
                8int
            } else {
                capacity * 2
            }),
    {
        if capacity < 8 {
            8
        } else {
            capacity * 2
        }
    }

    fn empty_slots(capacity: usize) -> (slots: Vec<Slot>)
        ensures
            slots@.len() == capacity,
            forall|i: int| 0 <= i < capacity ==> #[trigger] slots@[i] is Empty,
    {
        let mut slots: Vec<Slot> = Vec::new();
        while slots.len() < capacity
            invariant
                slots@.len() <= capacity,
                forall|i: int| 0 <= i < slots@.len() ==> #[trigger] slots@[i] is Empty,
            decreases capacity - slots@.len(),
        {
            slots.push(Slot::Empty);
        }
        slots
    }

    /// Moves all keys to a table of another capacity; tombstones are left behind.
    fn adjust_capacity(&mut self, capacity: usize)
        requires
            old(self).wf(),
            old(self).count < capacity,
            capacity % 4 == 0,
            old(self).count <= capacity / 4 * 3,
        ensures
            final(self).wf(),
            final(self)@ == old(self)@,
            final(self).capacity() == capacity,
            final(self).count <= old(self).count,
    {
        let ghost before = self.slots@;
        let mut slots = Self::empty_slots(capacity);
        let mut count: usize = 0;
        proof {
            lemma_used_empty(slots@, capacity as int);
            assert forall|i: int| 0 <= i < slots@.len() implies #[trigger] reachable(slots@, i) by {}
        }
        let mut i: usize = 0;
        while i < self.slots.len()
            invariant
                i <= self.slots@.len(),
                *self == *old(self),
                before == self.slots@,
                sound(before),
                old(self).count < capacity,
                old(self).count == used(before, before.len() as int),
                slots@.len() == capacity,
                sound(slots@),
                count == used(slots@, capacity as int),
                count <= used(before, i as int),
                forall|k: Key, v: Value| #[trigger]
                    holds(slots@, k, v) <==> holds(before.take(i as int), k, v),
            decreases self.slots@.len() - i,
        {
            proof {
                lemma_used_monotone(before, i as int, before.len() as int);
                lemma_used_monotone(before, i + 1, before.len() as int);
            }
            if let Slot::Full { key, value } = self.slots[i] {
                proof {
                    // The key has not been moved before.
                    if has_key(slots@, key) {
                        let v = choose|v: Value| holds(slots@, key, v);
                        assert(holds(before.take(i as int), key, v));
                        let j = choose|j: int|
                            0 <= j < before.take(i as int).len() && #[trigger] before.take(
                                i as int,
                            )[j] == (Slot::Full { key, value: v });
                        assert(before[j] is Full && before[i as int] is Full);
                    }
                }
                let found: usize = find_entry(&slots, key);
                let ghost old_slots = slots@;
                proof {
                    lemma_fill(slots@, key, value, found as int);
                    lemma_used_update(slots@, found as int, Slot::Full { key, value }, capacity as int);
                    if slots@[found as int] is Full {
                        assert(holds(slots@, key, slots@[found as int]->value));
                    }
                }
                if let Slot::Empty = slots[found] {
                    count += 1;
                }
                slots.set(found, Slot::Full { key, value });
                proof {
                    assert forall|k: Key, v: Value| #[trigger] holds(slots@, k, v) <==> holds(
                        before.take(i + 1),
                        k,
                        v,
                    ) by {
                        lemma_holds_prefix(before, i as int, k, v);
                        if k == key && holds(before.take(i as int), k, v) {
                            assert(holds(old_slots, k, v));
                            assert(has_key(old_slots, key));
                        }
                    }
                }
            } else {
                proof {
                    assert forall|k: Key, v: Value| #[trigger] holds(slots@, k, v) <==> holds(
                        before.take(i + 1),
                        k,
                        v,
                    ) by {
                        lemma_holds_prefix(before, i as int, k, v);
                    }
                }
            }
            i += 1;
        }
        proof {
            assert(before.take(i as int) =~= before);
            assert forall|k: Key| has_key(slots@, k) == #[trigger] has_key(before, k) by {
                if has_key(before, k) {
                    let v = choose|v: Value| holds(before, k, v);
                    assert(holds(slots@, k, v));
                }
                if has_key(slots@, k) {
                    let v = choose|v: Value| holds(slots@, k, v);
                    assert(holds(before, k, v));
                }
            }
            assert forall|k: Key| #[trigger] contents_of(slots@).contains_key(k) implies contents_of(
                slots@,
            )[k] == contents_of(before)[k] by {
                let v = choose|v: Value| holds(slots@, k, v);
                lemma_contents(slots@, k, v);
                lemma_contents(before, k, v);
            }
            assert(contents_of(slots@) =~= contents_of(before));
        }
        self.slots = slots;
        self.count = count;
    }

    /// Sets the value of a key, and tells whether the key is new.
    pub fn set(&mut self, key: Key, value: Value) -> (is_new: bool)
        requires
            old(self).wf(),
            old(self).capacity() <= usize::MAX / 2,
        ensures
            final(self).wf(),
            final(self)@ == old(self)@.insert(key, value),
            is_new == !old(self)@.contains_key(key),
            final(self).capacity() <= (if old(self).capacity() < 8 {
                8nat
            } else {
                old(self).capacity() * 2
            }),
            final(self).load() <= old(self).load() + 1,
            final(self).capacity() > old(self).capacity() ==> 4 * (old(self).load() + 1) > 3 * old(
                self,
            ).capacity(),
    {
        let capacity: usize = self.slots.len();
        if self.count + 1 > capacity / 4 * 3 {
            let grown: usize = Self::grow_capacity(capacity);
            self.adjust_capacity(grown);
        }
        let found: usize = find_entry(&self.slots, key);
        let ghost before = self.slots@;
        proof {
            lemma_fill(before, key, value, found as int);
            lemma_used_update(before, found as int, Slot::Full { key, value }, before.len() as int);
            if before[found as int] is Full {
                assert(holds(before, key, before[found as int]->value));
                lemma_contents(before, key, before[found as int]->value);
            }
        }
        let is_new = match self.slots[found] {
            Slot::Full { key: _, value: _ } => false,
            _ => true,
        };
        if let Slot::Empty = self.slots[found] {
            self.count = self.count + 1;
        }
        self.slots.set(found, Slot::Full { key, value });
        proof {
            let after = self.slots@;
            assert forall|k: Key| #[trigger] has_key(after, k) <==> (k == key || has_key(before, k)) by {
                if k == key {
                    assert(holds(after, key, value));
                } else if has_key(after, k) {
                    let v = choose|v: Value| holds(after, k, v);
                    assert(holds(before, k, v));
                } else if has_key(before, k) {
                    let v = choose|v: Value| holds(before, k, v);
                    assert(holds(after, k, v));
                }
            }
            assert forall|k: Key| #[trigger] contents_of(after).contains_key(k) implies contents_of(
                after,
            )[k] == contents_of(before).insert(key, value)[k] by {
                let v = choose|v: Value| holds(after, k, v);
                lemma_contents(after, k, v);
                if k != key {
                    lemma_contents(before, k, v);
                } else {
                    assert(holds(after, key, value));
                    lemma_contents(after, key, value);
                }
            }
            assert(contents_of(after) =~= contents_of(before).insert(key, value));
        }
        is_new
    }

    /// The value of a key.
    pub fn get(&self, key: Key) -> (value: Option<Value>)
        requires
            self.wf(),
        ensures
            match value {
                Some(v) => self@.contains_key(key) && self@[key] == v,
                None => !self@.contains_key(key),
            },
    {
        if self.count == 0 {
            proof {
                lemma_none_used(self.slots@, key);
            }
            return None;
        }
        let found: usize = find_entry(&self.slots, key);
        match self.slots[found] {
            Slot::Full { key: _, value } => {
                proof {
                    assert(holds(self.slots@, key, value));
                    lemma_contents(self.slots@, key, value);
                }
                Some(value)
            },
            _ => None,
        }
    }

    /// Looks for a key by hash and text; the keys name string objects.
    pub fn find_string(&self, objects: &Vec<Object>, chars: &str, hash: u32) -> (found: Option<
        Key,
    >)
        requires
            self.wf(),
            forall|key: Key| #[trigger]
                self@.contains_key(key) ==> key.object < objects@.len(),
        ensures
            match found {
                Some(key) => self@.contains_key(key) && key.hash == hash && is_text(
                    objects@,
                    key,
                    chars@,
                ),
                None => forall|key: Key| #[trigger]
                    self@.contains_key(key) && key.hash == hash ==> !is_text(objects@, key, chars@),
            },
    {
        let capacity: usize = self.slots.len();
        let ghost cap = capacity as int;
        let ghost slots = self.slots@;
        if self.count == 0 {
            proof {
                assert forall|key: Key| !#[trigger] self@.contains_key(key) by {
                    lemma_none_used(slots, key);
                }
            }
            return None;
        }
        let mut index: usize = (hash as usize) % capacity;
        let ghost mut step: int = 0;
        proof {
            lemma_used_bounds(slots, cap);
        }
        loop
            invariant
                self.wf(),
                slots == self.slots@,
                capacity == slots.len() == cap,
                cap > 0,
                forall|key: Key| #[trigger]
                    self@.contains_key(key) ==> key.object < objects@.len(),
                exists|i: int| 0 <= i < cap && #[trigger] slots[i] is Empty,
                0 <= step <= cap,
                index == place_at(cap, hash, step),
                forall|e: int|
                    0 <= e < step ==> !(#[trigger] probe(slots, hash, e) is Empty) && !(probe(
                        slots,
                        hash,
                        e,
                    ) matches Slot::Full { key, value: _ } && key.hash == hash && is_text(
                        objects@,
                        key,
                        chars@,
                    )),
            decreases cap - step,
        {
            proof {
                let i = choose|i: int| 0 <= i < cap && #[trigger] slots[i] is Empty;
                lemma_all_places_probed(cap, hash, i);
                let e = choose|e: int| 0 <= e < cap && #[trigger] place_at(cap, hash, e) == i;
                assert(probe(slots, hash, e) is Empty);
                assert(step <= e < cap);
                assert(probe(slots, hash, step) == slots[index as int]);
            }
            match self.slots[index] {
                Slot::Empty => {
                    proof {
                        assert forall|key: Key| #[trigger]
                            self@.contains_key(key) && key.hash == hash implies !is_text(
                            objects@,
                            key,
                            chars@,
                        ) by {
                            let value = choose|value: Value| holds(slots, key, value);
                            let i = choose|i: int|
                                0 <= i < cap && #[trigger] slots[i] == (Slot::Full { key, value });
                            assert(reachable(slots, i));
                            let d = choose|d: int| #[trigger] reached_in(slots, key.hash, d, i);
                            assert(probe(slots, hash, d) == slots[i]);
                            if step < d {
                                assert(probe(slots, hash, step) is Empty);
                            }
                        }
                    }
                    return None;
                },
                Slot::Tombstone => {},
                Slot::Full { key, value } => {
                    proof {
                        assert(holds(slots, key, value));
                        lemma_contents(slots, key, value);
                        assert(self@.contains_key(key));
                    }
                    if key.hash == hash {
                        if let Object::Text { text, hash: _ } = &objects[key.object] {
                            if same_text(text.as_str(), chars) {
                                return Some(key);
                            }
                        }
                    }
                },
            }
            proof {
                lemma_next_place(cap, hash, step);
            }
            index = if index + 1 == capacity {
                0
            } else {
                index + 1
            };
            proof {
                step = step + 1;
            }
        }
    }

    /// Deletes a key, and tells whether it was there.
    pub fn delete(&mut self, key: Key) -> (deleted: bool)
        requires
            old(self).wf(),
        ensures
            final(self).wf(),
            final(self)@ == old(self)@.remove(key),
            deleted == old(self)@.contains_key(key),
            final(self).capacity() == old(self).capacity(),
    {
        let ghost before = self.slots@;
        if self.count == 0 {
            proof {
                lemma_none_used(before, key);
                assert(self@ =~= self@.remove(key));
            }
            return false;
        }
        let found: usize = find_entry(&self.slots, key);
        let is_full = match self.slots[found] {
            Slot::Full { key: _, value: _ } => true,
            _ => false,
        };
        if !is_full {
            assert(self@ =~= self@.remove(key));
            return false;
        }
        proof {
            assert(holds(before, key, before[found as int]->value));
            lemma_contents(before, key, before[found as int]->value);
            lemma_used_update(before, found as int, Slot::Tombstone, before.len() as int);
            lemma_bury(before, found as int);
        }
        self.slots.set(found, Slot::Tombstone);
        proof {
            let after = self.slots@;
            assert forall|k: Key| #[trigger] has_key(after, k) <==> (k != key && has_key(before, k)) by {
                if has_key(after, k) {
                    let v = choose|v: Value| holds(after, k, v);
                    assert(holds(before, k, v));
                }
                if k != key && has_key(before, k) {
                    let v = choose|v: Value| holds(before, k, v);
                    assert(holds(after, k, v));
                }
            }
            assert forall|k: Key| #[trigger] contents_of(after).contains_key(k) implies contents_of(
                after,
            )[k] == contents_of(before)[k] by {
                let v = choose|v: Value| holds(after, k, v);
                lemma_contents(after, k, v);
                lemma_contents(before, k, v);
            }
            assert(contents_of(after) =~= contents_of(before).remove(key));
        }
        true
    }

    /// Sets all keys of another table to their values there. It stops where
    /// the table is too large to grow, which tables of a size that can be met
    /// never are.
    pub fn add_all(&mut self, from: &Table)
        requires
            old(self).wf(),
            from.wf(),
        ensures
            final(self).wf(),
            old(self).capacity() + from.capacity() <= usize::MAX / 8 ==> final(self)@
                == old(self)@.union_prefer_right(from@) && final(self).capacity() <= usize::MAX / 2,
            final(self).capacity() <= usize::MAX / 2 ==> final(self)@
                == old(self)@.union_prefer_right(from@),
    {
        let ghost before = self@;
        let ghost most = 3 * (self.slots@.len() + from.slots@.len()) + 8;
        let ghost mut seen: Set<Key> = Set::empty();
        let mut i: usize = 0;
        assert(self@ =~= before.union_prefer_right(from@.restrict(seen)));
        while i < from.slots.len()
            invariant
                i <= from.slots@.len(),
                self.wf(),
                from.wf(),
                forall|key: Key| #[trigger]
                    seen.contains(key) <==> exists|j: int|
                        0 <= j < i && #[trigger] from.slots@[j] is Full && from.slots@[j]->key
                            == key,
                self@ == before.union_prefer_right(from@.restrict(seen)),
                old(self).wf(),
                most == 3 * (old(self).slots@.len() + from.slots@.len()) + 8,
                self.slots@.len() <= most,
                self.count <= old(self).count + i,
            decreases from.slots@.len() - i,
        {
            if let Slot::Full { key, value } = from.slots[i] {
                proof {
                    assert(holds(from.slots@, key, value));
                    lemma_contents(from.slots@, key, value);
                }
                if self.slots.len() > usize::MAX / 2 {
                    return ;
                }
                self.set(key, value);
                proof {
                    seen = seen.insert(key);
                    assert(self@ =~= before.union_prefer_right(from@.restrict(seen)));
                }
            }
            i += 1;
        }
        proof {
            from.lemma_walk();
            assert(from@.restrict(seen) =~= from@);
        }
    }
}

proof fn lemma_used_empty(slots: Seq<Slot>, n: int)
    requires
        0 <= n <= slots.len(),
        forall|i: int| 0 <= i < slots.len() ==> #[trigger] slots[i] is Empty,
    ensures
        used(slots, n) == 0,
    decreases n,
{
    if n > 0 {
        lemma_used_empty(slots, n - 1);
    }
}

proof fn lemma_used_monotone(slots: Seq<Slot>, m: int, n: int)
    requires
        0 <= m <= n <= slots.len(),
    ensures
        used(slots, m) <= used(slots, n),
        forall|i: int| m <= i < n && !(#[trigger] slots[i] is Empty) ==> used(slots, m) < used(slots, n),
    decreases n,
{
    if m < n {
        lemma_used_monotone(slots, m, n - 1);
    }
}

proof fn lemma_none_used(slots: Seq<Slot>, key: Key)
    requires
        used(slots, slots.len() as int) == 0,
    ensures
        !has_key(slots, key),
{
    if has_key(slots, key) {
        let value = choose|value: Value| holds(slots, key, value);
        let i = choose|i: int|
            0 <= i < slots.len() && #[trigger] slots[i] == (Slot::Full { key, value });
        lemma_used_monotone(slots, 0, slots.len() as int);
    }
}

/// One more slot at the end of a prefix.
proof fn lemma_holds_prefix(slots: Seq<Slot>, n: int, key: Key, value: Value)
    requires
        0 <= n < slots.len(),
    ensures
        holds(slots.take(n + 1), key, value) <==> holds(slots.take(n), key, value) || slots[n] == (
        Slot::Full { key, value }),
{
    let full = Slot::Full { key, value };
    if holds(slots.take(n), key, value) {
        let i = choose|i: int| 0 <= i < slots.take(n).len() && #[trigger] slots.take(n)[i] == full;
        assert(slots.take(n + 1)[i] == full);
    }
    if slots[n] == full {
        assert(slots.take(n + 1)[n] == full);
    }
    if holds(slots.take(n + 1), key, value) {
        let i = choose|i: int|
            0 <= i < slots.take(n + 1).len() && #[trigger] slots.take(n + 1)[i] == full;
        if i < n {
            assert(slots.take(n)[i] == full);
        }
    }
}

/// A tombstone in place of a key keeps the table sound.
proof fn lemma_bury(slots: Seq<Slot>, found: int)
    requires
        sound(slots),
        0 <= found < slots.len(),
        slots[found] is Full,
    ensures
        sound(slots.update(found, Slot::Tombstone)),
        forall|k: Key, v: Value| #[trigger]
            holds(slots.update(found, Slot::Tombstone), k, v) <==> k != slots[found]->key && holds(
                slots,
                k,
                v,
            ),
{
    let next = slots.update(found, Slot::Tombstone);
    assert forall|i: int| 0 <= i < next.len() implies #[trigger] reachable(next, i) by {
        if next[i] is Full {
            let k = next[i]->key;
            assert(reachable(slots, i));
            let step = choose|step: int| #[trigger] reached_in(slots, k.hash, step, i);
            assert forall|e: int| 0 <= e < step implies !(#[trigger] probe(next, k.hash, e) is Empty) by {
                assert(!(probe(slots, k.hash, e) is Empty));
            }
            assert(reached_in(next, k.hash, step, i));
        }
    }
    assert forall|k: Key, v: Value| #[trigger] holds(next, k, v) <==> k != slots[found]->key
        && holds(slots, k, v) by {
        let full = Slot::Full { key: k, value: v };
        if holds(next, k, v) {
            let i = choose|i: int| 0 <= i < next.len() && #[trigger] next[i] == full;
            assert(slots[i] == full && slots[found] is Full);
        }
        if k != slots[found]->key && holds(slots, k, v) {
            let i = choose|i: int| 0 <= i < slots.len() && #[trigger] slots[i] == full;
            assert(next[i] == full);
        }
    }
}

} // verus!
