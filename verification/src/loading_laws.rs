//! What a program is in the machine: its functions, their constants and their
//! names, and the call of the script.
use vstd::prelude::*;
use crate::loader::{started, text_places, with_texts};
use crate::machine::VmState;
use crate::object::{Content, HeapState};
use crate::parser::FState;
use crate::value::Value;

verus! {

/// The object of an interned text has that text.
pub open spec fn knows_its_texts(heap: HeapState) -> bool {
    forall|text: Seq<char>| #[trigger]
        heap.interned.contains_key(text) ==> (heap.get(heap.interned[text]) matches Content::Text {
            text: own,
            hash: _,
        } && own == text)
}

proof fn lemma_with_text(heap: HeapState, text: Seq<char>)
    requires
        knows_its_texts(heap),
        heap.objects.len() < usize::MAX,
    ensures
        knows_its_texts(heap.with_text(text)),
        heap.with_text(text).get(heap.text_object(text)) matches Content::Text {
            text: own,
            hash: _,
        } && own == text,
        heap.objects.is_prefix_of(heap.with_text(text).objects),
        heap.with_text(text).objects.len() <= heap.objects.len() + 1,
{
    let next = heap.with_text(text);
    assert forall|t: Seq<char>| #[trigger] next.interned.contains_key(t) implies (next.get(
        next.interned[t],
    ) matches Content::Text { text: own, hash: _ } && own == t) by {
        if t != text || heap.interned.contains_key(text) {
            assert(heap.interned.contains_key(t));
        }
    }
    if heap.interned.contains_key(text) {
        assert(next.interned.contains_key(text));
    }
}

proof fn lemma_with_texts(heap: HeapState, texts: Seq<Seq<char>>, n: int)
    requires
        knows_its_texts(heap),
        0 <= n <= texts.len(),
        heap.objects.len() + texts.len() < usize::MAX,
    ensures
        knows_its_texts(with_texts(heap, texts, n)),
        heap.objects.is_prefix_of(with_texts(heap, texts, n).objects),
        with_texts(heap, texts, n).objects.len() <= heap.objects.len() + n,
        forall|i: int|
            0 <= i < n ==> (with_texts(heap, texts, n).get(
                #[trigger] text_places(heap, texts)[i],
            ) matches Content::Text { text, hash: _ } && text == texts[i]),
    decreases n,
{
    if n > 0 {
        lemma_with_texts(heap, texts, n - 1);
        let before = with_texts(heap, texts, n - 1);
        lemma_with_text(before, texts[n - 1]);
        let after = with_texts(heap, texts, n);
        assert forall|i: int| 0 <= i < n implies (after.get(
            #[trigger] text_places(heap, texts)[i],
        ) matches Content::Text { text, hash: _ } && text == texts[i]) by {
            let place = text_places(heap, texts)[i];
            if i < n - 1 {
                assert(before.get(place) is Text);
                assert(before.objects[place as int] == after.objects[place as int]);
            }
        }
    }
}

/// The constants of a function in the machine are those of the program: numbers
/// as they are, strings and names with their texts, and functions as the
/// functions that they stand for. The function has its name, its code and as
/// many parameters.
pub proof fn law_functions_are_loaded_as_they_are(
    before: VmState,
    texts: Seq<Seq<char>>,
    functions: Seq<FState>,
    after: VmState,
    i: int,
    k: int,
)
    requires
        started(before, texts, functions, after),
        knows_its_texts(before.heap),
        before.heap.objects.len() + texts.len() + functions.len() < usize::MAX,
        0 <= i < functions.len(),
        0 <= k < functions[i].constants.len(),
    ensures
        after.heap.objects.len() >= functions.len() + 1,
        ({
            let base = after.heap.objects.len() - functions.len() - 1;
            after.heap.objects[base + i] matches Content::Function(f) && {
                &&& f.chunk.code@ == functions[i].code
                &&& f.chunk.spans@ == functions[i].spans
                &&& f.arity == functions[i].arity
                &&& f.upvalue_count == functions[i].upvalues.len()
                &&& functions[i].name matches Some(name) ==> name < texts.len() ==> (
                f.name matches Some(object) && (after.heap.get(object) matches Content::Text {
                    text,
                    hash: _,
                } && text == texts[name as int]))
                &&& functions[i].name is None ==> f.name is None
                &&& f.chunk.constants@.len() == functions[i].constants.len()
                &&& match functions[i].constants[k] {
                    Value::Obj(c) => {
                        &&& c < texts.len() ==> (f.chunk.constants@[k] matches Value::Obj(object)
                            && (after.heap.get(object) matches Content::Text { text, hash: _ }
                            && text == texts[c as int]))
                        &&& c >= texts.len() && usize::MAX - c < functions.len() ==> (
                        f.chunk.constants@[k] matches Value::Obj(object) && object == base + (
                        usize::MAX - c))
                    },
                    value => f.chunk.constants@[k] == value,
                }
            }
        }),
{
    lemma_with_texts(before.heap, texts, texts.len() as int);
    let heap = with_texts(before.heap, texts, texts.len() as int);
    let base = heap.objects.len() as int;
    let places = text_places(before.heap, texts);
    assert(after.heap.objects[base + i] is Function);
    assert forall|c: int| 0 <= c < texts.len() implies (after.heap.get(
        #[trigger] places[c],
    ) matches Content::Text { text, hash: _ } && text == texts[c]) by {
        assert(heap.get(places[c]) is Text);
        assert(after.heap.objects.take(base)[places[c] as int] == heap.objects[places[c] as int]);
    }
}

/// A program begins with a call of its last function, the script, at its first
/// instruction, with the script itself in its first slot. Globals stay.
pub proof fn law_a_program_begins_with_its_script(
    before: VmState,
    texts: Seq<Seq<char>>,
    functions: Seq<FState>,
    after: VmState,
)
    requires
        started(before, texts, functions, after),
        functions.len() > 0,
        knows_its_texts(before.heap),
        before.heap.objects.len() + texts.len() + functions.len() < usize::MAX,
        before.stack.len() <= usize::MAX,
    ensures
        after.frames.len() == before.frames.len() + 1,
        after.frames.last().ip == 0,
        after.frames.last().call_site is None,
        after.globals == before.globals,
        after.stack.len() == before.stack.len() + 1,
        after.frames.last().base == before.stack.len(),
        after.stack.last() == Value::Obj(after.frames.last().closure),
        after.running() matches Some(f) && f.chunk.code@ == functions.last().code && f.arity
            == functions.last().arity,
{
    lemma_with_texts(before.heap, texts, texts.len() as int);
    let base = with_texts(before.heap, texts, texts.len() as int).objects.len() as int;
    let closure = (base + functions.len()) as usize;
    assert(after.heap.objects[base + (functions.len() - 1)] is Function);
    assert(after.heap.get(closure) == after.heap.objects.last());
}

/// A new machine has one global, the clock, and nothing on its stack.
pub proof fn law_a_new_machine_has_a_clock()
    ensures
        ({
            let s = VmState::fresh();
            &&& s.stack.len() == 0
            &&& s.frames.len() == 0
            &&& knows_its_texts(s.heap)
            &&& forall|key: crate::table::Key| #[trigger]
                s.globals.contains_key(key) ==> (s.heap.get(key.object) matches Content::Text {
                    text,
                    hash: _,
                } && text == "clock"@) && (s.globals[key] matches Value::Obj(object)
                    && s.heap.get(object) is Native)
            &&& exists|key: crate::table::Key| #[trigger] s.globals.contains_key(key)
        }),
{
    reveal_strlit("clock");
    reveal_strlit("init");
    assert("clock"@.len() != "init"@.len());
    let s = VmState::fresh();
    let nothing = HeapState { objects: Seq::empty(), interned: Map::empty() };
    let named = nothing.with_text("clock"@);
    let clock = named.allocated(Content::Native);
    lemma_with_text(nothing, "clock"@);
    assert(knows_its_texts(clock)) by {
        assert forall|t: Seq<char>| #[trigger] clock.interned.contains_key(t) implies (clock.get(
            clock.interned[t],
        ) matches Content::Text { text: own, hash: _ } && own == t) by {
            assert(named.interned.contains_key(t));
        }
    }
    lemma_with_text(clock, "init"@);
    let key = crate::table::Key { object: 0, hash: crate::object::hash_of("clock"@) };
    assert(s.globals.contains_key(key));
    assert(s.heap.objects[0] == named.objects[0]);
    assert(s.heap.objects[1] == Content::Native);
}

} // verus!
