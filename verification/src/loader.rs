//! Setting up the machine, and putting a program into it.
use vstd::prelude::*;
use crate::compiler::{contents, Program};
use crate::chunk::Chunk;
use crate::debug_info::{BindingDebugInfo, FunctionDebugInfo, UpvalueDebugInfo};
use crate::machine::{CallFrame, VmState};
use crate::object::{group_keyed, hash_of, keyed, Content, Function, Heap, HeapState, Object};
use crate::parser::{next_id, views, Binding, FState, FunctionState, Upvalue};
use crate::session::ActivationId;
use crate::table::{Key, Table};
use crate::value::Value;
use crate::vm::{next_activation, VM};
use vstd::string::*;

verus! {

broadcast use group_keyed;

/// The heap with the first `n` texts interned, one after the other.
pub open spec fn with_texts(heap: HeapState, texts: Seq<Seq<char>>, n: int) -> HeapState
    decreases n,
{
    if n <= 0 {
        heap
    } else {
        with_texts(heap, texts, n - 1).with_text(texts[n - 1])
    }
}

/// A machine with the first `n` of some texts interned.
pub open spec fn with_some_texts(s: VmState, texts: Seq<Seq<char>>, n: int) -> VmState {
    VmState { heap: with_texts(s.heap, texts, n), ..s }
}

/// Nothing of a program is in the machine but some of its texts.
pub open spec fn partly_loaded(before: VmState, texts: Seq<Seq<char>>, after: VmState) -> bool {
    exists|n: int| 0 <= n <= texts.len() && after == #[trigger] with_some_texts(before, texts, n)
}

/// The objects of the texts, in their order.
pub open spec fn text_places(heap: HeapState, texts: Seq<Seq<char>>) -> Seq<usize> {
    Seq::new(texts.len(), |i: int| with_texts(heap, texts, i).text_object(texts[i]))
}

/// A constant in the machine: it names objects where the program names texts
/// and, from the other end, functions.
pub open spec fn placed(value: Value, places: Seq<usize>, base: int, count: int) -> Value {
    match value {
        Value::Obj(k) => if k < places.len() {
            Value::Obj(places[k as int])
        } else if usize::MAX - k < count {
            Value::Obj((base + (usize::MAX - k)) as usize)
        } else {
            value
        },
        _ => value,
    }
}

pub open spec fn name_of(texts: Seq<Seq<char>>, name: usize) -> Seq<char> {
    if name < texts.len() {
        texts[name as int]
    } else {
        Seq::empty()
    }
}

pub open spec fn shows_binding(info: BindingDebugInfo, b: Binding, texts: Seq<Seq<char>>) -> bool {
    &&& info.id == b.id
    &&& info.name@ == name_of(texts, b.name)
    &&& info.kind == b.kind
    &&& info.slot == b.slot
    &&& info.scope_depth == b.scope_depth
    &&& info.declaration == b.declaration
    &&& info.live_start == b.live_start
    &&& info.live_end == b.live_end
}

pub open spec fn shows_upvalue(
    info: UpvalueDebugInfo,
    index: int,
    u: Upvalue,
    texts: Seq<Seq<char>>,
) -> bool {
    &&& info.binding_id == u.binding_id
    &&& info.name@ == name_of(texts, u.name)
    &&& info.index == index % 256
    &&& info.declaration == u.declaration
}

/// What a debugger is told of a function.
pub open spec fn shows_function(
    info: FunctionDebugInfo,
    f: FState,
    texts: Seq<Seq<char>>,
) -> bool {
    &&& info.source_id == f.declaration.source_id
    &&& info.revision == f.declaration.revision
    &&& info.declaration == f.declaration
    &&& info.points@ == f.points
    &&& info.bindings@.len() == f.bindings.len()
    &&& forall|i: int|
        0 <= i < f.bindings.len() ==> shows_binding(
            #[trigger] info.bindings@[i],
            f.bindings[i],
            texts,
        )
    &&& info.upvalues@.len() == f.upvalues.len()
    &&& forall|i: int|
        0 <= i < f.upvalues.len() ==> shows_upvalue(
            #[trigger] info.upvalues@[i],
            i,
            f.upvalues[i],
            texts,
        )
}

/// A function in the machine is one of the program.
pub open spec fn is_loaded(
    loaded: Function,
    f: FState,
    texts: Seq<Seq<char>>,
    places: Seq<usize>,
    base: int,
    count: int,
) -> bool {
    &&& loaded.arity == f.arity
    &&& loaded.upvalue_count == f.upvalues.len()
    &&& loaded.chunk.code@ == f.code
    &&& loaded.chunk.spans@ == f.spans
    &&& loaded.chunk.constants@ == f.constants.map_values(
        |value: Value| placed(value, places, base, count),
    )
    &&& loaded.name == (match f.name {
        Some(name) => if name < places.len() {
            Some(places[name as int])
        } else {
            None
        },
        None => None,
    })
    &&& shows_function(loaded.debug_info, f, texts)
}

/// The machine is about to run a program that was put into it.
pub open spec fn started(
    before: VmState,
    texts: Seq<Seq<char>>,
    functions: Seq<FState>,
    after: VmState,
) -> bool {
    let heap = with_texts(before.heap, texts, texts.len() as int);
    let base = heap.objects.len() as int;
    let places = text_places(before.heap, texts);
    let closure = (base + functions.len()) as usize;
    &&& after.heap.interned == heap.interned
    &&& after.heap.objects.len() == base + functions.len() + 1
    &&& after.heap.objects.take(base) == heap.objects
    &&& forall|i: int|
        0 <= i < functions.len() ==> (#[trigger] after.heap.objects[base + i] matches
            Content::Function(f) && is_loaded(
            f,
            functions[i],
            texts,
            places,
            base,
            functions.len() as int,
        ))
    &&& after.heap.objects.last() == (Content::Closure {
        function: (base + functions.len() - 1) as usize,
        upvalues: Seq::empty(),
    })
    &&& after.stack == before.stack.push(Value::Obj(closure))
    &&& after.frames == before.frames.push(
        CallFrame {
            closure,
            ip: 0,
            base: before.stack.len() as usize,
            activation_id: ActivationId(before.next_activation),
            call_site: None,
            call_site_offset: None,
        },
    )
    &&& after.globals == before.globals
    &&& after.open == before.open
    &&& after.next_activation == next_id(before.next_activation)
    &&& after.init == before.init
}

impl VmState {
    /// A new machine: `clock` is its only global.
    pub open spec fn fresh() -> VmState {
        let nothing = HeapState { objects: Seq::empty(), interned: Map::empty() };
        let named = nothing.with_text("clock"@);
        let clock = named.allocated(Content::Native);
        VmState {
            heap: clock.with_text("init"@),
            stack: Seq::empty(),
            frames: Seq::empty(),
            globals: Map::<Key, Value>::empty().insert(
                Key { object: 0, hash: hash_of("clock"@) },
                Value::Obj(1),
            ),
            open: Seq::empty(),
            next_activation: 1,
            init: 2,
        }
    }

    /// What is left of an execution that is over: the heap and the globals.
    pub open spec fn cleaned(self) -> VmState {
        let closed = self.closed_from(0);
        VmState { stack: Seq::empty(), frames: Seq::empty(), open: Seq::empty(), ..closed }
    }
}

fn copy_name(texts: &Vec<String>, name: usize) -> (text: String)
    ensures
        text@ == name_of(contents(texts@), name),
{
    if name < texts.len() {
        texts[name].clone()
    } else {
        String::new()
    }
}

fn binding_infos(bindings: &Vec<Binding>, texts: &Vec<String>) -> (infos: Vec<BindingDebugInfo>)
    ensures
        infos@.len() == bindings@.len(),
        forall|i: int|
            0 <= i < bindings@.len() ==> shows_binding(
                #[trigger] infos@[i],
                bindings@[i],
                contents(texts@),
            ),
{
    let mut infos: Vec<BindingDebugInfo> = Vec::new();
    let mut i: usize = 0;
    while i < bindings.len()
        invariant
            i <= bindings@.len(),
            infos@.len() == i,
            forall|j: int|
                0 <= j < i ==> shows_binding(
                    #[trigger] infos@[j],
                    bindings@[j],
                    contents(texts@),
                ),
        decreases bindings@.len() - i,
    {
        let b = bindings[i];
        infos.push(
            BindingDebugInfo {
                id: b.id,
                name: copy_name(texts, b.name),
                kind: b.kind,
                slot: b.slot,
                scope_depth: b.scope_depth,
                declaration: b.declaration,
                live_start: b.live_start,
                live_end: b.live_end,
            },
        );
        i += 1;
    }
    infos
}

fn upvalue_infos(upvalues: &Vec<Upvalue>, texts: &Vec<String>) -> (infos: Vec<UpvalueDebugInfo>)
    ensures
        infos@.len() == upvalues@.len(),
        forall|i: int|
            0 <= i < upvalues@.len() ==> shows_upvalue(
                #[trigger] infos@[i],
                i,
                upvalues@[i],
                contents(texts@),
            ),
{
    let mut infos: Vec<UpvalueDebugInfo> = Vec::new();
    let mut i: usize = 0;
    while i < upvalues.len()
        invariant
            i <= upvalues@.len(),
            infos@.len() == i,
            forall|j: int|
                0 <= j < i ==> shows_upvalue(
                    #[trigger] infos@[j],
                    j,
                    upvalues@[j],
                    contents(texts@),
                ),
        decreases upvalues@.len() - i,
    {
        let u = upvalues[i];
        infos.push(
            UpvalueDebugInfo {
                binding_id: u.binding_id,
                name: copy_name(texts, u.name),
                index: (i % 256) as u8,
                declaration: u.declaration,
            },
        );
        i += 1;
    }
    infos
}

fn place_constants(constants: &Vec<Value>, places: &Vec<usize>, base: usize, count: usize) -> (result:
    Vec<Value>)
    requires
        base + count <= usize::MAX,
    ensures
        result@ == constants@.map_values(
            |value: Value| placed(value, places@, base as int, count as int),
        ),
{
    let mut result: Vec<Value> = Vec::new();
    let mut i: usize = 0;
    let ghost all = constants@.map_values(
        |value: Value| placed(value, places@, base as int, count as int),
    );
    assert(result@ =~= all.take(0));
    while i < constants.len()
        invariant
            i <= constants@.len(),
            base + count <= usize::MAX,
            all == constants@.map_values(
                |value: Value| placed(value, places@, base as int, count as int),
            ),
            result@ == all.take(i as int),
        decreases constants@.len() - i,
    {
        let value = match constants[i] {
            Value::Obj(k) => if k < places.len() {
                Value::Obj(places[k])
            } else if usize::MAX - k < count {
                Value::Obj(base + (usize::MAX - k))
            } else {
                Value::Obj(k)
            },
            other => other,
        };
        result.push(value);
        i += 1;
        assert(result@ =~= all.take(i as int));
    }
    assert(all.take(i as int) =~= all);
    result
}

fn load_function(
    f: FunctionState,
    texts: &Vec<String>,
    places: &Vec<usize>,
    base: usize,
    count: usize,
) -> (loaded: Function)
    requires
        base + count <= usize::MAX,
    ensures
        is_loaded(loaded, f@, contents(texts@), places@, base as int, count as int),
{
    let FunctionState { name, arity, chunk, declaration, points, bindings, upvalues, .. } = f;
    let Chunk { code, spans, constants } = chunk;
    let debug_info = FunctionDebugInfo {
        source_id: declaration.source_id,
        revision: declaration.revision,
        declaration,
        points,
        bindings: binding_infos(&bindings, texts),
        upvalues: upvalue_infos(&upvalues, texts),
    };
    let constants = place_constants(&constants, places, base, count);
    Function {
        arity,
        upvalue_count: upvalues.len(),
        chunk: Chunk { code, spans, constants },
        debug_info,
        name: match name {
            Some(name) => if name < places.len() {
                Some(places[name])
            } else {
                None
            },
            None => None,
        },
    }
}

impl VM {
    pub fn new() -> (vm: Self)
        ensures
            vm.wf(),
            vm.has_room(),
            vm@ == VmState::fresh(),
    {
        let mut heap = Heap::new();
        let ghost nothing = HeapState { objects: Seq::empty(), interned: Map::empty() };
        assert(heap@ =~= nothing);
        let name: usize = heap.intern("clock".to_owned());
        let native: usize = heap.allocate(Object::Native);
        let init: usize = heap.intern("init".to_owned());
        let mut globals = Table::new();
        proof {
            reveal_strlit("clock");
            reveal_strlit("init");
            assert("clock"@.len() != "init"@.len());
        }
        globals.set(Key { object: name, hash: crate::object::hash_string("clock") }, Value::Obj(native));
        let vm = VM {
            heap,
            stack: Vec::new(),
            frames: Vec::new(),
            globals,
            open: Vec::new(),
            next_activation: 1,
            init,
        };
        assert(vm@ =~= VmState::fresh());
        proof {
            assert(vm@.heap.get(name) == (Content::Text {
                text: "clock"@,
                hash: hash_of("clock"@),
            }));
            reveal(keyed);
        }
        vm
    }

    /// Interns texts. Nothing comes back where the table of strings cannot
    /// grow any more.
    fn intern_all(&mut self, texts: &Vec<String>) -> (places: Option<Vec<usize>>)
        requires
            old(self).wf(),
        ensures
            final(self).wf(),
            match places {
                Some(places) => places@ == text_places(old(self)@.heap, contents(texts@))
                    && final(self)@ == (VmState {
                    heap: with_texts(
                        old(self)@.heap,
                        contents(texts@),
                        texts@.len() as int,
                    ),
                    ..old(self)@
                }),
                None => !final(self).has_room() && partly_loaded(
                    old(self)@,
                    contents(texts@),
                    final(self)@,
                ),
            },
    {
        let mut places: Vec<usize> = Vec::new();
        let ghost heap = self@.heap;
        let ghost all = contents(texts@);
        let ghost goal = text_places(heap, all);
        let mut i: usize = 0;
        assert(places@ =~= goal.take(0));
        while i < texts.len()
            invariant
                i <= texts@.len(),
                self.wf(),
                all == contents(texts@),
                heap == old(self)@.heap,
                goal == text_places(heap, all),
                places@ == goal.take(i as int),
                self@ == (VmState { heap: with_texts(heap, all, i as int), ..old(self)@ }),
            decreases texts@.len() - i,
        {
            if !self.heap.check_room() {
                assert(self@ == with_some_texts(old(self)@, all, i as int));
                return None;
            }
            let place: usize = self.heap.intern(texts[i].clone());
            places.push(place);
            assert(places@ =~= goal.take(i + 1));
            i += 1;
        }
        assert(goal.take(i as int) =~= goal);
        Some(places)
    }

    /// Puts functions on the heap, and tells where the first one is.
    fn load_functions(
        &mut self,
        functions: Vec<FunctionState>,
        texts: &Vec<String>,
        places: &Vec<usize>,
    ) -> (base: Option<usize>)
        requires
            old(self).wf(),
        ensures
            final(self).wf(),
            match base {
                Some(base) => {
                    &&& base == old(self)@.heap.objects.len()
                    &&& final(self)@ == (VmState { heap: final(self)@.heap, ..old(self)@ })
                    &&& final(self)@.heap.interned == old(self)@.heap.interned
                    &&& final(self)@.heap.objects.len() == base + functions@.len()
                    &&& final(self)@.heap.objects.take(base as int) == old(self)@.heap.objects
                    &&& forall|i: int|
                        0 <= i < functions@.len() ==> (
                        #[trigger] final(self)@.heap.objects[base + i] matches Content::Function(f)
                            && is_loaded(
                            f,
                            views(functions@)[i],
                            contents(texts@),
                            places@,
                            base as int,
                            functions@.len() as int,
                        ))
                },
                None => *final(self) == *old(self) && old(self)@.heap.objects.len()
                    + functions@.len() > usize::MAX,
            },
    {
        let base: usize = self.heap.len();
        let count: usize = functions.len();
        if count > usize::MAX - base {
            return None;
        }
        let ghost all = functions@;
        let ghost before = self@;
        let mut functions = functions;
        let mut waiting: Vec<FunctionState> = Vec::new();
        while functions.len() > 0
            invariant
                functions@.len() + waiting@.len() == count,
                all.len() == count,
                forall|j: int| 0 <= j < functions@.len() ==> functions@[j] == #[trigger] all[j],
                forall|j: int|
                    0 <= j < waiting@.len() ==> waiting@[j] == #[trigger] all[count - 1 - j],
            decreases functions@.len(),
        {
            if let Some(f) = functions.pop() {
                waiting.push(f);
            }
        }
        assert forall|j: int| 0 <= j < waiting@.len() implies #[trigger] waiting@[j] == all[count
            - 1 - j] by {}
        let ghost mut done: int = 0;
        assert(self@.heap.objects.take(base as int) =~= before.heap.objects);
        while waiting.len() > 0
            invariant
                self.wf(),
                base + count <= usize::MAX,
                base == before.heap.objects.len(),
                all.len() == count,
                done + waiting@.len() == count,
                0 <= done,
                forall|j: int|
                    0 <= j < waiting@.len() ==> #[trigger] waiting@[j] == all[count - 1 - j],
                self@ == (VmState { heap: self@.heap, ..before }),
                self@.heap.interned == before.heap.interned,
                self@.heap.objects.len() == base + done,
                self@.heap.objects.take(base as int) == before.heap.objects,
                forall|i: int|
                    0 <= i < done ==> (#[trigger] self@.heap.objects[base + i] matches
                        Content::Function(f) && is_loaded(
                        f,
                        views(all)[i],
                        contents(texts@),
                        places@,
                        base as int,
                        count as int,
                    )),
            decreases waiting@.len(),
        {
            if let Some(f) = waiting.pop() {
                let ghost heap = self@.heap;
                let loaded = load_function(f, texts, places, base, count);
                assert(f@ == views(all)[done]);
                self.heap.allocate(Object::Function(loaded));
                proof {
                    assert(self@.heap.objects.take(base as int) =~= heap.objects.take(base as int));
                    assert(self@.heap.objects[base + done] == Content::Function(loaded));
                    assert forall|i: int| 0 <= i < done + 1 implies (
                    #[trigger] self@.heap.objects[base + i] matches Content::Function(f)
                        && is_loaded(
                        f,
                        views(all)[i],
                        contents(texts@),
                        places@,
                        base as int,
                        count as int,
                    )) by {
                        if i < done {
                            assert(self@.heap.objects[base + i] == heap.objects[base + i]);
                        }
                    }
                    done = done + 1;
                }
            }
        }
        Some(base)
    }

    /// Puts a program into the machine, ready to run. It tells whether there
    /// was room for it.
    pub fn load_program(&mut self, program: Program) -> (loaded: bool)
        requires
            old(self).wf(),
            program.functions@.len() > 0,
        ensures
            final(self).wf(),
            loaded ==> started(
                old(self)@,
                contents(program.texts@),
                views(program.functions@),
                final(self)@,
            ),
            !loaded ==> (!final(self).has_room() || final(self)@.heap.objects.len()
                + program.functions@.len() + 1 > usize::MAX) && partly_loaded(
                old(self)@,
                contents(program.texts@),
                final(self)@,
            ),
    {
        let Program { texts, functions } = program;
        let count: usize = functions.len();
        let places = match self.intern_all(&texts) {
            Some(places) => places,
            None => return false,
        };
        assert(self@ == with_some_texts(old(self)@, contents(texts@), texts@.len() as int));
        if count >= usize::MAX - self.heap.len() {
            return false;
        }
        let base: usize = match self.load_functions(functions, &texts, &places) {
            Some(base) => base,
            None => return false,
        };
        let ghost before = self@;
        let closure: usize = self.heap.allocate(
            Object::Closure { function: base + count - 1, upvalues: Vec::new() },
        );
        let frame = CallFrame {
            closure,
            ip: 0,
            base: self.stack.len(),
            activation_id: ActivationId(self.next_activation),
            call_site: None,
            call_site_offset: None,
        };
        self.stack.push(Value::Obj(closure));
        self.frames.push(frame);
        self.next_activation = next_activation(self.next_activation);
        proof {
            let fs = views(program.functions@);
            assert(fs.len() == count);
            assert(self@.heap.objects.take(base as int) =~= before.heap.objects.take(base as int));
            assert forall|i: int| 0 <= i < fs.len() implies (
            #[trigger] self@.heap.objects[base + i] matches Content::Function(f) && is_loaded(
                f,
                fs[i],
                contents(texts@),
                places@,
                base as int,
                count as int,
            )) by {
                assert(before.heap.objects[base + i] == self@.heap.objects[base + i]);
            }
            assert(self@.heap.objects.last()->upvalues =~= Seq::empty());
        }
        true
    }

    /// Puts an end to an execution.
    pub fn cleanup_execution(&mut self)
        requires
            old(self).wf(),
        ensures
            final(self).wf(),
            final(self)@ == old(self)@.cleaned(),
            final(self).has_room() == old(self).has_room(),
    {
        self.close_upvalues(0);
        self.stack = Vec::new();
        self.frames = Vec::new();
        self.open = Vec::new();
        assert(self@ =~= old(self)@.cleaned());
    }
}

} // verus!
