//! The heap: objects by number, and the table of interned strings.
use vstd::prelude::*;
use crate::chunk::Chunk;
use crate::debug_info::FunctionDebugInfo;
use crate::table::{Key, Slot, Table};
use crate::value::Value;
use vstd::string::*;
use vstd::utf8::encode_utf8;

verus! {

/// A compiled function.
#[derive(Debug)]
pub struct Function {
    pub arity: usize,
    pub upvalue_count: usize,
    pub chunk: Chunk,
    pub debug_info: FunctionDebugInfo,
    pub name: Option<usize>,
}

/// A captured variable: on the stack while it is open, then on its own.
#[derive(Debug, Clone, Copy, PartialEq, Eq, Structural)]
pub enum UpvalueCell {
    Open { slot: usize },
    Closed { value: Value },
}

#[derive(Debug, Clone, Copy, PartialEq, Eq, Structural)]
pub enum ObjType {
    Free,
    Closure,
    Function,
    Native,
    Text,
    Upvalue,
    List,
    Class,
    Instance,
    BoundMethod,
}

#[derive(Debug)]
pub enum Object {
    /// A place whose object was collected.
    Free,
    Text { text: String, hash: u32 },
    Function(Function),
    /// The built-in `clock`.
    Native,
    Closure { function: usize, upvalues: Vec<usize> },
    Upvalue(UpvalueCell),
    List(Vec<Value>),
    Class { name: usize, methods: Table },
    Instance { class: usize, fields: Table },
    BoundMethod { receiver: Value, method: usize },
}

/// What an object holds.
pub ghost enum Content {
    Free,
    Text { text: Seq<char>, hash: u32 },
    Function(Function),
    Native,
    Closure { function: usize, upvalues: Seq<usize> },
    Upvalue(UpvalueCell),
    List(Seq<Value>),
    Class { name: usize, methods: Map<Key, Value> },
    Instance { class: usize, fields: Map<Key, Value> },
    BoundMethod { receiver: Value, method: usize },
}

impl Object {
    pub open spec fn view(self) -> Content {
        match self {
            Object::Free => Content::Free,
            Object::Text { text, hash } => Content::Text { text: text@, hash },
            Object::Function(function) => Content::Function(function),
            Object::Native => Content::Native,
            Object::Closure { function, upvalues } => Content::Closure {
                function,
                upvalues: upvalues@,
            },
            Object::Upvalue(cell) => Content::Upvalue(cell),
            Object::List(items) => Content::List(items@),
            Object::Class { name, methods } => Content::Class { name, methods: methods@ },
            Object::Instance { class, fields } => Content::Instance { class, fields: fields@ },
            Object::BoundMethod { receiver, method } => Content::BoundMethod { receiver, method },
        }
    }

    /// The tables inside are sound.
    pub open spec fn wf(self) -> bool {
        match self {
            Object::Class { name: _, methods } => methods.wf(),
            Object::Instance { class: _, fields } => fields.wf(),
            _ => true,
        }
    }

    /// The tables inside can still grow, and be put together with another.
    pub open spec fn has_room(self) -> bool {
        match self {
            Object::Class { name: _, methods } => methods.capacity() <= usize::MAX / 16,
            Object::Instance { class: _, fields } => fields.capacity() <= usize::MAX / 16,
            _ => true,
        }
    }
}

/// One step of the hash: FNV-1a, 32 bits.
pub open spec fn hash_step(hash: u32, byte: u8) -> u32 {
    ((hash ^ (byte as u32)) * 16777619 % 0x1_0000_0000) as u32
}

pub open spec fn hash_bytes(bytes: Seq<u8>) -> u32
    decreases bytes.len(),
{
    if bytes.len() == 0 {
        2166136261
    } else {
        hash_step(hash_bytes(bytes.drop_last()), bytes.last())
    }
}

/// The hash of a text is that of its UTF-8 bytes.
pub open spec fn hash_of(text: Seq<char>) -> u32 {
    hash_bytes(encode_utf8(text))
}

pub fn hash_string(key: &str) -> (hash: u32)
    ensures
        hash == hash_of(key@),
{
    let bytes = key.as_bytes();
    let mut hash: u32 = 2166136261;
    let mut i: usize = 0;
    while i < bytes.len()
        invariant
            i <= bytes@.len(),
            bytes@ == encode_utf8(key@),
            hash == hash_bytes(bytes@.take(i as int)),
        decreases bytes@.len() - i,
    {
        let mixed: u32 = hash ^ (bytes[i] as u32);
        assert(bytes@.take(i + 1).drop_last() =~= bytes@.take(i as int));
        hash = ((mixed as u64) * 16777619 % 0x1_0000_0000) as u32;
        i += 1;
    }
    assert(bytes@.take(i as int) =~= bytes@);
    hash
}

/// What the heap holds: its objects, and for every interned text the object
/// that is it.
#[verifier::ext_equal]
pub ghost struct HeapState {
    pub objects: Seq<Content>,
    pub interned: Map<Seq<char>, usize>,
}

impl HeapState {
    pub open spec fn get(self, object: usize) -> Content {
        if object < self.objects.len() {
            self.objects[object as int]
        } else {
            Content::Free
        }
    }

    /// One more object, at the end.
    pub open spec fn allocated(self, content: Content) -> HeapState {
        HeapState { objects: self.objects.push(content), ..self }
    }

    pub open spec fn next(self) -> usize {
        self.objects.len() as usize
    }

    /// The heap with a text interned.
    pub open spec fn with_text(self, text: Seq<char>) -> HeapState {
        if self.interned.contains_key(text) {
            self
        } else {
            HeapState {
                objects: self.objects.push(Content::Text { text, hash: hash_of(text) }),
                interned: self.interned.insert(text, self.next()),
            }
        }
    }

    /// The object of an interned text.
    pub open spec fn text_object(self, text: Seq<char>) -> usize {
        if self.interned.contains_key(text) {
            self.interned[text]
        } else {
            self.next()
        }
    }

    pub open spec fn replaced(self, object: usize, content: Content) -> HeapState {
        HeapState { objects: self.objects.update(object as int, content), ..self }
    }

    /// What is left when the objects that are not marked are gone.
    pub open spec fn swept(self, marked: Seq<bool>) -> HeapState {
        HeapState {
            objects: Seq::new(
                self.objects.len(),
                |i: int|
                    if marked[i] {
                        self.objects[i]
                    } else {
                        Content::Free
                    },
            ),
            interned: Map::new(
                |text: Seq<char>|
                    self.interned.contains_key(text) && marked[self.interned[text] as int],
                |text: Seq<char>| self.interned[text],
            ),
        }
    }

    /// The key of a string object.
    pub open spec fn key(self, object: usize) -> Option<Key> {
        match self.get(object) {
            Content::Text { text, hash } => Some(Key { object, hash }),
            _ => None,
        }
    }

    /// Every string object is the object of its text.
    pub open spec fn texts_are_known(self) -> bool {
        forall|object: usize|
            (#[trigger] self.get(object)) matches Content::Text { text, hash }
                ==> self.interned.contains_key(text) && self.interned[text] == object && hash
                == hash_of(text)
    }

    pub open spec fn is_text(self, value: Value) -> bool {
        value matches Value::Obj(object) && self.get(object) is Text
    }
}

/// Every name of a table is a string object.
#[verifier::opaque]
pub open spec fn keyed(heap: HeapState, names: Map<Key, Value>) -> bool {
    forall|key: Key| #[trigger] names.contains_key(key) ==> heap.key(key.object) == Some(key)
}

pub broadcast proof fn keyed_with_text(heap: HeapState, names: Map<Key, Value>, text: Seq<char>)
    requires
        keyed(heap, names),
    ensures
        #[trigger] keyed(heap.with_text(text), names),
{
    reveal(keyed);
    assert forall|key: Key| #[trigger] names.contains_key(key) implies heap.with_text(text).key(
        key.object,
    ) == Some(key) by {
        assert(heap.key(key.object) == Some(key));
    }
}

pub broadcast proof fn keyed_allocated(heap: HeapState, names: Map<Key, Value>, content: Content)
    requires
        keyed(heap, names),
    ensures
        #[trigger] keyed(heap.allocated(content), names),
{
    reveal(keyed);
    assert forall|key: Key| #[trigger] names.contains_key(key) implies heap.allocated(content).key(
        key.object,
    ) == Some(key) by {
        assert(heap.key(key.object) == Some(key));
    }
}

pub broadcast proof fn keyed_replaced(
    heap: HeapState,
    names: Map<Key, Value>,
    object: usize,
    content: Content,
)
    requires
        keyed(heap, names),
        object < heap.objects.len(),
        !(heap.get(object) is Text),
    ensures
        #[trigger] keyed(heap.replaced(object, content), names),
{
    reveal(keyed);
    assert forall|key: Key| #[trigger] names.contains_key(key) implies heap.replaced(
        object,
        content,
    ).key(key.object) == Some(key) by {
        assert(heap.key(key.object) == Some(key));
    }
}

pub broadcast proof fn keyed_inserted(
    heap: HeapState,
    names: Map<Key, Value>,
    key: Key,
    value: Value,
)
    requires
        keyed(heap, names),
        heap.key(key.object) == Some(key),
    ensures
        #[trigger] keyed(heap, names.insert(key, value)),
{
    reveal(keyed);
}

pub broadcast group group_keyed {
    keyed_with_text,
    keyed_allocated,
    keyed_replaced,
    keyed_inserted,
}

pub struct Heap {
    objects: Vec<Object>,
    strings: Table,
    interned: Ghost<Map<Seq<char>, usize>>,
}

impl Heap {
    pub closed spec fn view(self) -> HeapState {
        HeapState {
            objects: self.objects@.map_values(|object: Object| object@),
            interned: self.interned@,
        }
    }

    /// Every interned text is a string object in the table, the table has no
    /// others, and there are no other string objects.
    pub closed spec fn wf(self) -> bool {
        &&& self.strings.wf()
        &&& forall|i: int| 0 <= i < self.objects@.len() ==> (#[trigger] self.objects@[i]).wf()
        &&& forall|text: Seq<char>| #[trigger]
            self.interned@.contains_key(text) ==> self.is_interned(text, self.interned@[text])
        &&& forall|key: Key| #[trigger]
            self.strings@.contains_key(key) ==> self.is_entry(key)
        &&& forall|i: int| 0 <= i < self.objects@.len() ==> #[trigger] self.is_known(i)
    }

    /// A string object is the object of its text.
    spec fn is_known(self, i: int) -> bool {
        self.objects@[i]@ matches Content::Text { text, hash } ==> self.interned@.contains_key(text)
            && self.interned@[text] == i && hash == hash_of(text)
    }

    pub proof fn lemma_texts_are_known(self)
        requires
            self.wf(),
        ensures
            self@.texts_are_known(),
    {
        assert forall|object: usize|
            (#[trigger] self@.get(object)) matches Content::Text { text, hash }
                ==> self@.interned.contains_key(text) && self@.interned[text] == object && hash
                == hash_of(text) by {
            if object < self.objects@.len() {
                assert(self.is_known(object as int));
            }
        }
    }

    spec fn is_interned(self, text: Seq<char>, object: usize) -> bool {
        &&& object < self.objects@.len()
        &&& self.objects@[object as int]@ == (Content::Text { text, hash: hash_of(text) })
        &&& self.strings@.contains_key(Key { object, hash: hash_of(text) })
    }

    spec fn is_entry(self, key: Key) -> bool {
        &&& key.object < self.objects@.len()
        &&& self.objects@[key.object as int]@ matches Content::Text { text, hash } && hash
            == key.hash && self.interned@.contains_key(text) && self.interned@[text] == key.object
            && hash == hash_of(text)
    }

    pub fn new() -> (heap: Self)
        ensures
            heap.wf(),
            heap@.objects.len() == 0,
            heap@.interned == Map::<Seq<char>, usize>::empty(),
            heap.string_slots() == 0,
            heap.tables_have_room(),
    {
        Heap { objects: Vec::new(), strings: Table::new(), interned: Ghost(Map::empty()) }
    }

    /// How many places the heap has, free ones among them.
    pub fn len(&self) -> (len: usize)
        ensures
            len == self@.objects.len(),
    {
        self.objects.len()
    }

    /// The object at a place; places that do not exist are free.
    pub fn get(&self, object: usize) -> (content: &Object)
        requires
            self.wf(),
            object < self@.objects.len(),
        ensures
            content@ == self@.get(object),
            content.wf(),
            self.tables_have_room() ==> content.has_room(),
            content matches Object::Class { name: _, methods } ==> methods.capacity()
                == self.class_slots(object),
    {
        assert(self.objects@[object as int].wf());
        assert(self.tables_have_room() ==> self.objects@[object as int].has_room());
        &self.objects[object]
    }

    pub fn obj_type(&self, object: usize) -> (kind: ObjType)
        requires
            self.wf(),
        ensures
            kind == type_of(self@.get(object)),
    {
        if object >= self.objects.len() {
            return ObjType::Free;
        }
        match &self.objects[object] {
            Object::Free => ObjType::Free,
            Object::Text { .. } => ObjType::Text,
            Object::Function(_) => ObjType::Function,
            Object::Native => ObjType::Native,
            Object::Closure { .. } => ObjType::Closure,
            Object::Upvalue(_) => ObjType::Upvalue,
            Object::List(_) => ObjType::List,
            Object::Class { .. } => ObjType::Class,
            Object::Instance { .. } => ObjType::Instance,
            Object::BoundMethod { .. } => ObjType::BoundMethod,
        }
    }

    /// Puts an object, which is no string, on the heap.
    pub fn allocate(&mut self, object: Object) -> (place: usize)
        requires
            old(self).wf(),
            !(object is Text),
            object.wf(),
        ensures
            final(self).wf(),
            place == old(self)@.next(),
            place == old(self)@.objects.len(),
            final(self)@ == old(self)@.allocated(object@),
            final(self).string_slots() == old(self).string_slots(),
            old(self).tables_have_room() && object.has_room() ==> final(self).tables_have_room(),
    {
        let ghost before = *self;
        let place: usize = self.objects.len();
        self.objects.push(object);
        proof {
            assert(self@.objects =~= before@.objects.push(object@));
            self.lemma_kept(before);
        }
        place
    }

    /// Strings stay where they are: nothing is forgotten.
    proof fn lemma_kept(self, before: Heap)
        requires
            before.wf(),
            self.strings == before.strings,
            self.interned == before.interned,
            self.objects@.len() >= before.objects@.len(),
            forall|i: int| 0 <= i < self.objects@.len() ==> (#[trigger] self.objects@[i]).wf(),
            forall|i: int|
                0 <= i < before.objects@.len() && (#[trigger] before.objects@[i])@ is Text
                    ==> self.objects@[i]@ == before.objects@[i]@,
            forall|i: int|
                0 <= i < self.objects@.len() && (#[trigger] self.objects@[i])@ is Text ==> i
                    < before.objects@.len() && self.objects@[i]@ == before.objects@[i]@,
        ensures
            self.wf(),
    {
        assert forall|i: int| 0 <= i < self.objects@.len() implies #[trigger] self.is_known(i) by {
            if self.objects@[i]@ is Text {
                assert(before.is_known(i));
            }
        }
        assert forall|text: Seq<char>| #[trigger] self.interned@.contains_key(text) implies self.is_interned(
            text,
            self.interned@[text],
        ) by {
            assert(before.is_interned(text, before.interned@[text]));
        }
        assert forall|key: Key| #[trigger] self.strings@.contains_key(key) implies self.is_entry(
            key,
        ) by {
            assert(before.is_entry(key));
        }
    }

    /// Puts another object in the place of one; neither is a string.
    pub fn replace(&mut self, place: usize, object: Object)
        requires
            old(self).wf(),
            place < old(self)@.objects.len(),
            !(old(self)@.get(place) is Text),
            !(object is Text),
            object.wf(),
        ensures
            final(self).wf(),
            final(self)@ == old(self)@.replaced(place, object@),
            !object.has_room() ==> !final(self).tables_have_room(),
            final(self).string_slots() == old(self).string_slots(),
            old(self)@.get(place) is Upvalue && object.has_room() ==> final(self).tables_have_room()
                == old(self).tables_have_room(),
    {
        let ghost before = *self;
        self.objects.set(place, object);
        assert(self.objects@[place as int] == object);
        proof {
            assert(self@.objects =~= before@.objects.update(place as int, object@));
            self.lemma_kept(before);
            if before@.get(place) is Upvalue && object.has_room() {
                assert(before.objects@[place as int].has_room());
                assert forall|i: int| 0 <= i < before.objects@.len() implies
                    self.objects@[i].has_room() == before.objects@[i].has_room() by {
                }
            }
        }
    }

    /// Takes an object, which is no string, out of its place.
    pub fn take(&mut self, place: usize) -> (object: Object)
        requires
            old(self).wf(),
            place < old(self)@.objects.len(),
            !(old(self)@.get(place) is Text),
        ensures
            final(self).wf(),
            object@ == old(self)@.get(place),
            object.wf(),
            final(self)@ == old(self)@.replaced(place, Content::Free),
            object matches Object::Class { name: _, methods } ==> methods.capacity()
                == old(self).class_slots(place),
            forall|other: usize|
                other != place && other < old(self)@.objects.len()
                    ==> #[trigger] final(self).class_slots(other) == old(self).class_slots(other),
    {
        let ghost before = *self;
        let mut object = Object::Free;
        assert(self.objects@[place as int].wf());
        core::mem::swap(&mut self.objects[place], &mut object);
        proof {
            assert(self@.objects =~= before@.objects.update(place as int, Content::Free));
            self.lemma_kept(before);
        }
        object
    }

    /// How many places the table of a class has.
    pub closed spec fn class_slots(self, class: usize) -> nat {
        match self.objects@[class as int] {
            Object::Class { name: _, methods } => methods.capacity(),
            _ => 0,
        }
    }

    /// Every table of the objects can still grow.
    pub closed spec fn tables_have_room(self) -> bool {
        forall|i: int| 0 <= i < self.objects@.len() ==> (#[trigger] self.objects@[i]).has_room()
    }

    /// The object of a text, which is put on the heap unless it is there.
    pub fn intern(&mut self, text: String) -> (object: usize)
        requires
            old(self).wf(),
            old(self).has_room(),
        ensures
            final(self).wf(),
            object == old(self)@.text_object(text@),
            final(self)@ == old(self)@.with_text(text@),
            final(self)@.get(object) == (Content::Text { text: text@, hash: hash_of(text@) }),
            object < final(self)@.objects.len(),
            final(self).string_slots() <= old(self).string_slots() * 2 + 8,
            old(self).tables_have_room() ==> final(self).tables_have_room(),
    {
        let ghost before = *self;
        let hash: u32 = hash_string(text.as_str());
        match self.find_string(text.as_str(), hash) {
            Some(object) => {
                proof {
                    assert(self.is_interned(text@, object));
                    assert(self@.objects[object as int] == self.objects@[object as int]@);
                }
                object
            },
            None => {
                let object: usize = self.objects.len();
                let ghost chars = text@;
                self.objects.push(Object::Text { text, hash });
                self.strings.set(Key { object, hash }, Value::Nil);
                self.interned = Ghost(before.interned@.insert(chars, object));
                proof {
                    assert(self@.objects =~= before@.objects.push(
                        Content::Text { text: chars, hash },
                    ));
                    assert forall|t: Seq<char>| #[trigger]
                        self.interned@.contains_key(t) implies self.is_interned(
                        t,
                        self.interned@[t],
                    ) by {
                        if t != chars {
                            assert(before.is_interned(t, before.interned@[t]));
                        }
                    }
                    assert forall|key: Key| #[trigger]
                        self.strings@.contains_key(key) implies self.is_entry(key) by {
                        if key != (Key { object, hash }) {
                            assert(before.is_entry(key));
                        }
                    }
                    assert forall|i: int| 0 <= i < self.objects@.len() implies (
                    #[trigger] self.objects@[i]).wf() by {
                        if i < before.objects@.len() {
                            assert(before.objects@[i].wf());
                        }
                    }
                    assert forall|i: int| 0 <= i < self.objects@.len() implies #[trigger] self.is_known(
                        i,
                    ) by {
                        if i < before.objects@.len() {
                            assert(before.is_known(i));
                            assert(self.objects@[i] == before.objects@[i]);
                        }
                    }
                }
                object
            },
        }
    }

    /// The heap without the objects that are not marked. Their texts are no
    /// longer interned.
    pub fn sweep(&mut self, marked: &Vec<bool>)
        requires
            old(self).wf(),
            marked@.len() == old(self)@.objects.len(),
        ensures
            final(self).wf(),
            final(self)@ == old(self)@.swept(marked@),
            final(self).string_slots() == old(self).string_slots(),
    {
        let ghost before = *self;
        self.forget_strings(marked);
        let ghost forgotten = *self;
        let mut i: usize = 0;
        while i < self.objects.len()
            invariant
                i <= self.objects@.len(),
                self.objects@.len() == forgotten.objects@.len(),
                marked@.len() == self.objects@.len(),
                self.strings == forgotten.strings,
                self.interned == forgotten.interned,
                forall|j: int|
                    0 <= j < i && !marked@[j] ==> (#[trigger] self.objects@[j]) is Free,
                forall|j: int|
                    0 <= j < self.objects@.len() && (j >= i || marked@[j]) ==> (
                    #[trigger] self.objects@[j]) == forgotten.objects@[j],
            decreases self.objects@.len() - i,
        {
            if !marked[i] {
                self.objects.set(i, Object::Free);
            }
            i += 1;
        }
        proof {
            let goal = before@.swept(marked@);
            assert(self@.objects =~= goal.objects);
            assert(self@.interned =~= goal.interned);
            assert forall|text: Seq<char>| #[trigger]
                self.interned@.contains_key(text) implies self.is_interned(
                text,
                self.interned@[text],
            ) by {
                assert(before.interned@.contains_key(text));
                assert(before.is_interned(text, before.interned@[text]));
                let object = before.interned@[text];
                assert(self.objects@[object as int] == forgotten.objects@[object as int]);
            }
            assert forall|key: Key| #[trigger] self.strings@.contains_key(key) implies self.is_entry(
                key,
            ) by {
                assert(before.strings@.contains_key(key));
                assert(before.is_entry(key));
                assert(self.objects@[key.object as int] == forgotten.objects@[key.object as int]);
            }
            assert forall|j: int| 0 <= j < self.objects@.len() implies (
            #[trigger] self.objects@[j]).wf() by {
                assert(before.objects@[j].wf());
            }
            assert forall|j: int| 0 <= j < self.objects@.len() implies #[trigger] self.is_known(
                j,
            ) by {
                assert(before.is_known(j));
                if marked@[j] {
                    assert(self.objects@[j] == before.objects@[j]);
                } else {
                    assert(self.objects@[j] is Free);
                }
            }
        }
    }

    /// Drops the strings that are not marked from the table of strings.
    fn forget_strings(&mut self, marked: &Vec<bool>)
        requires
            old(self).wf(),
            marked@.len() == old(self)@.objects.len(),
        ensures
            final(self).objects == old(self).objects,
            final(self).strings.wf(),
            final(self).string_slots() == old(self).string_slots(),
            forall|key: Key| #[trigger]
                final(self).strings@.contains_key(key) <==> old(self).strings@.contains_key(key)
                    && marked@[key.object as int],
            final(self).interned@ == old(self)@.swept(marked@).interned,
    {
        let ghost before = *self;
        let mut dead: Vec<Key> = Vec::new();
        let mut i: usize = 0;
        while i < self.strings.slot_count()
            invariant
                *self == before,
                before.wf(),
                marked@.len() == before@.objects.len(),
                i <= self.strings.capacity(),
                forall|j: int|
                    0 <= j < dead@.len() ==> self.strings@.contains_key(#[trigger] dead@[j])
                        && !marked@[dead@[j].object as int],
                forall|j: int|
                    0 <= j < i && #[trigger] self.strings.slot_view(j) is Full
                        && !marked@[self.strings.slot_view(j)->key.object as int]
                        ==> dead@.contains(self.strings.slot_view(j)->key),
            decreases self.strings.capacity() - i,
        {
            let ghost seen = dead@;
            if let Slot::Full { key, value: _ } = self.strings.slot(i) {
                assert(self.is_entry(key));
                if !marked[key.object] {
                    dead.push(key);
                    proof {
                        assert forall|k: Key| #[trigger] seen.contains(k) implies dead@.contains(
                            k,
                        ) by {
                            let n = choose|n: int| 0 <= n < seen.len() && seen[n] == k;
                            assert(dead@[n] == k);
                        }
                        assert(dead@[seen.len() as int] == key);
                    }
                }
            }
            i += 1;
        }
        proof {
            self.strings.lemma_walk();
            assert forall|key: Key| #[trigger]
                before.strings@.contains_key(key) && !marked@[key.object as int] implies dead@.contains(
                key,
            ) by {
                let j = choose|j: int|
                    0 <= j < self.strings.capacity() && #[trigger] self.strings.slot_view(j) == (
                    Slot::Full { key, value: self.strings@[key] });
                assert(self.strings.slot_view(j) is Full);
            }
        }
        let mut n: usize = 0;
        while n < dead.len()
            invariant
                n <= dead@.len(),
                self.objects == before.objects,
                self.interned == before.interned,
                self.strings.wf(),
                self.strings.capacity() == before.strings.capacity(),
                forall|key: Key| #[trigger]
                    self.strings@.contains_key(key) <==> before.strings@.contains_key(key)
                        && !dead@.take(n as int).contains(key),
            decreases dead@.len() - n,
        {
            let key = dead[n];
            let ghost taken = dead@.take(n as int);
            self.strings.delete(key);
            assert(dead@.take(n + 1) =~= taken.push(key));
            assert forall|k: Key| #[trigger] taken.push(key).contains(k) <==> taken.contains(k) || k
                == key by {
                if taken.contains(k) {
                    let m = choose|m: int| 0 <= m < taken.len() && taken[m] == k;
                    assert(taken.push(key)[m] == k);
                }
                assert(taken.push(key)[taken.len() as int] == key);
            }
            n += 1;
        }
        self.interned = Ghost(before@.swept(marked@).interned);
        proof {
            assert(dead@.take(n as int) =~= dead@);
            assert forall|key: Key| #[trigger]
                self.strings@.contains_key(key) <==> before.strings@.contains_key(key)
                    && marked@[key.object as int] by {
                if before.strings@.contains_key(key) && dead@.contains(key) {
                    let m = choose|m: int| 0 <= m < dead@.len() && dead@[m] == key;
                    assert(!marked@[dead@[m].object as int]);
                }
            }
        }
    }

    /// How many places the table of strings has.
    pub closed spec fn string_slots(self) -> nat {
        self.strings.capacity()
    }

    /// The table of strings can still grow.
    pub open spec fn has_room(self) -> bool {
        self.string_slots() <= usize::MAX / 2
    }

    pub fn check_room(&self) -> (room: bool)
        ensures
            room == self.has_room(),
    {
        self.strings.slot_count() <= usize::MAX / 2
    }

    /// Looks for an interned text with a hash.
    fn find_string(&self, chars: &str, hash: u32) -> (found: Option<usize>)
        requires
            self.wf(),
            hash == hash_of(chars@),
        ensures
            match found {
                Some(object) => self.interned@.contains_key(chars@) && self.interned@[chars@]
                    == object,
                None => !self.interned@.contains_key(chars@),
            },
    {
        assert forall|key: Key| #[trigger] self.strings@.contains_key(key) implies key.object
            < self.objects@.len() by {
            assert(self.is_entry(key));
        }
        match self.strings.find_string(&self.objects, chars, hash) {
            Some(key) => {
                assert(self.is_entry(key));
                Some(key.object)
            },
            None => {
                proof {
                    if self.interned@.contains_key(chars@) {
                        let object = self.interned@[chars@];
                        assert(self.is_interned(chars@, object));
                        assert(self.strings@.contains_key(Key { object, hash }));
                    }
                }
                None
            },
        }
    }
}

pub open spec fn type_of(content: Content) -> ObjType {
    match content {
        Content::Free => ObjType::Free,
        Content::Text { text, hash } => ObjType::Text,
        Content::Function(function) => ObjType::Function,
        Content::Native => ObjType::Native,
        Content::Closure { function, upvalues } => ObjType::Closure,
        Content::Upvalue(cell) => ObjType::Upvalue,
        Content::List(items) => ObjType::List,
        Content::Class { name, methods } => ObjType::Class,
        Content::Instance { class, fields } => ObjType::Instance,
        Content::BoundMethod { receiver, method } => ObjType::BoundMethod,
    }
}

/// Interning one text twice gives one object, and two texts give two.
pub proof fn law_interning_is_by_content(heap: Heap, a: Seq<char>, b: Seq<char>)
    requires
        heap.wf(),
    ensures
        heap@.with_text(a).text_object(a) == heap@.text_object(a),
        heap@.with_text(a).with_text(a) == heap@.with_text(a),
        a != b && heap@.objects.len() < usize::MAX ==> heap@.with_text(a).text_object(b)
            != heap@.with_text(a).text_object(a),
{
    if a != b && heap@.objects.len() < usize::MAX {
        if heap@.interned.contains_key(a) {
            assert(heap.is_interned(a, heap.interned@[a]));
        }
        if heap@.interned.contains_key(b) {
            assert(heap.is_interned(b, heap.interned@[b]));
        }
    }
}

} // verus!
