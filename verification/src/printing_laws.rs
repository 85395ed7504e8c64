//! What is printed of values, and what is told of faults.
use vstd::prelude::*;
use crate::faults::{decimal, digit, fault_message};
use crate::format::{
    shown, write_items, write_object, write_value, Format, NumberTexts, FORMAT_DEPTH_LIMIT,
    FORMAT_ELEMENT_LIMIT,
};
use crate::machine::{Fault, VmState};
use crate::object::{Content, HeapState};
use crate::source::SourceSpan;
use crate::text::lemma_utf8_len_bounds;
use crate::value::Value;

verus! {

/// How a function is printed.
pub open spec fn function_words(heap: HeapState, function: usize) -> Seq<char> {
    match heap.get(function) {
        Content::Function(f) => match f.name {
            Some(name) => match heap.get(name) {
                Content::Text { text, hash: _ } => "<fn "@ + text + ">"@,
                _ => "<script>"@,
            },
            None => "<script>"@,
        },
        _ => "<script>"@,
    }
}

/// The text of an object that is a name, or nothing.
pub open spec fn name_words(heap: HeapState, object: usize) -> Seq<char> {
    match heap.get(object) {
        Content::Text { text, hash: _ } => text,
        _ => Seq::empty(),
    }
}

/// Parts with commas between them.
pub open spec fn joined(parts: Seq<Seq<char>>) -> Seq<char>
    decreases parts.len(),
{
    if parts.len() == 0 {
        Seq::empty()
    } else if parts.len() == 1 {
        parts[0]
    } else {
        joined(parts.drop_last()) + ", "@ + parts.last()
    }
}

/// All that is printed of a value inside some lists, however long it is: a list
/// as its items in brackets. A list inside itself is not printed again, nor is
/// one too deep inside others.
pub open spec fn words(
    heap: HeapState,
    texts: NumberTexts,
    value: Value,
    inside: Seq<usize>,
    depth: nat,
) -> Seq<char>
    decreases FORMAT_DEPTH_LIMIT + 1 - depth, 0int,
{
    match value {
        Value::Nil => "nil"@,
        Value::Bool(b) => if b {
            "true"@
        } else {
            "false"@
        },
        Value::Number(bits) => texts.text(bits),
        Value::Obj(object) => match heap.get(object) {
            Content::Text { text, hash: _ } => text,
            Content::Function(_) => function_words(heap, object),
            Content::Closure { function, upvalues: _ } => function_words(heap, function),
            Content::Native => "<native fn>"@,
            Content::List(items) => if depth >= FORMAT_DEPTH_LIMIT {
                "<depth-limit>"@
            } else if inside.contains(object) {
                "<cycle>"@
            } else {
                "["@ + joined(all_words(heap, texts, items, inside.push(object), depth + 1)) + "]"@
            },
            Content::Class { name, methods: _ } => name_words(heap, name),
            Content::Instance { class, fields: _ } => match heap.get(class) {
                Content::Class { name, methods: _ } => name_words(heap, name) + " instance"@,
                _ => " instance"@,
            },
            Content::BoundMethod { receiver: _, method } => match heap.get(method) {
                Content::Closure { function, upvalues: _ } => function_words(heap, function),
                _ => "<script>"@,
            },
            Content::Upvalue(_) => "upvalue"@,
            Content::Free => "<free>"@,
        },
    }
}

/// The same of each of some values.
pub open spec fn all_words(
    heap: HeapState,
    texts: NumberTexts,
    items: Seq<Value>,
    inside: Seq<usize>,
    depth: nat,
) -> Seq<Seq<char>>
    decreases FORMAT_DEPTH_LIMIT + 1 - depth, 1int,
{
    Seq::new(items.len(), |i: int| words(heap, texts, items[i], inside, depth))
}

/// What was written is a text behind what was there, unless something was cut
/// off.
spec fn wrote(f: Format, g: Format, text: Seq<char>) -> bool {
    &&& f.truncated ==> g.truncated
    &&& !g.truncated ==> g.output == f.output + text && g.active == f.active
}

proof fn lemma_write(f: Format, text: Seq<char>)
    ensures
        wrote(f, f.write(text), text),
{
}

proof fn lemma_function(heap: HeapState, function: usize, f: Format)
    ensures
        wrote(
            f,
            crate::format::write_function(heap, function, f),
            function_words(heap, function),
        ),
{
    if let Some(name) = crate::format::function_name(heap, function) {
        lemma_write(f, "<fn "@);
        lemma_write(f.write("<fn "@), name);
        lemma_write(f.write("<fn "@).write(name), ">"@);
        let g = crate::format::write_function(heap, function, f);
        if !g.truncated {
            assert(g.output =~= f.output + ("<fn "@ + name + ">"@));
        }
    } else {
        lemma_write(f, "<script>"@);
    }
}

proof fn lemma_value(heap: HeapState, texts: NumberTexts, value: Value, f: Format, depth: nat)
    ensures
        wrote(f, write_value(heap, texts, value, f, depth), words(heap, texts, value, f.active, depth)),
    decreases FORMAT_DEPTH_LIMIT + 1 - depth, 2int, 0int,
{
    if f.nodes != 0 {
        let g = Format { nodes: f.nodes - 1, ..f };
        match value {
            Value::Obj(object) => {
                lemma_object(heap, texts, object, g, depth);
            },
            Value::Nil => {
                lemma_write(g, "nil"@);
            },
            Value::Bool(b) => {
                lemma_write(g, "true"@);
                lemma_write(g, "false"@);
            },
            Value::Number(bits) => {
                lemma_write(g, texts.text(bits));
            },
        }
    }
}

proof fn lemma_object(heap: HeapState, texts: NumberTexts, object: usize, f: Format, depth: nat)
    ensures
        wrote(
            f,
            write_object(heap, texts, object, f, depth),
            words(heap, texts, Value::Obj(object), f.active, depth),
        ),
    decreases FORMAT_DEPTH_LIMIT + 1 - depth, 1int, 0int,
{
    match heap.get(object) {
        Content::Function(_) => {
            lemma_function(heap, object, f);
        },
        Content::Closure { function, upvalues } => {
            lemma_function(heap, function, f);
        },
        Content::BoundMethod { receiver, method } => {
            if let Content::Closure { function, upvalues } = heap.get(method) {
                lemma_function(heap, function, f);
            } else {
                lemma_write(f, "<script>"@);
            }
        },
        Content::Instance { class, fields } => {
            let name = match heap.get(class) {
                Content::Class { name, methods } => crate::format::text_at(heap, name),
                _ => Seq::empty(),
            };
            lemma_write(f, name);
            lemma_write(f.write(name), " instance"@);
            let g = write_object(heap, texts, object, f, depth);
            if !g.truncated {
                assert(g.output =~= f.output + (name + " instance"@));
                assert(name + " instance"@ =~= words(
                    heap,
                    texts,
                    Value::Obj(object),
                    f.active,
                    depth,
                ));
            }
        },
        Content::List(items) => {
            if depth < FORMAT_DEPTH_LIMIT && !f.active.contains(object) {
                let inside = f.active.push(object);
                let opened = Format { active: inside, ..f.write("["@) };
                let parts = all_words(heap, texts, items, inside, depth + 1);
                assert(parts.take(0) =~= Seq::empty());
                assert(joined(parts.take(0)) =~= Seq::empty());
                assert(opened.output =~= opened.output + joined(parts.take(0)));
                lemma_items(heap, texts, items, 0, opened, depth, opened.output, inside, parts);
                let written = write_items(heap, texts, items, 0, opened, depth);
                let g = write_object(heap, texts, object, f, depth);
                if !g.truncated {
                    assert(parts.take(items.len() as int) =~= parts);
                    assert(inside.drop_last() =~= f.active);
                    assert(g.output =~= f.output + ("["@ + joined(parts) + "]"@));
                }
            }
        },
        _ => {},
    }
}

proof fn lemma_items(
    heap: HeapState,
    texts: NumberTexts,
    items: Seq<Value>,
    i: int,
    f: Format,
    depth: nat,
    start: Seq<char>,
    inside: Seq<usize>,
    parts: Seq<Seq<char>>,
)
    requires
        depth < FORMAT_DEPTH_LIMIT,
        0 <= i <= items.len(),
        parts == all_words(heap, texts, items, inside, depth + 1),
        !f.truncated ==> f.active == inside && f.output == start + joined(parts.take(i)),
    ensures
        ({
            let g = write_items(heap, texts, items, i, f, depth);
            &&& f.truncated ==> g.truncated
            &&& !g.truncated && items.len() <= FORMAT_ELEMENT_LIMIT ==> g.active == inside
                && g.output == start + joined(parts.take(items.len() as int))
        }),
    decreases FORMAT_DEPTH_LIMIT - depth, 3int, items.len() - i,
{
    if i < items.len() && i < FORMAT_ELEMENT_LIMIT && !f.truncated && f.elements != 0 {
        let e = Format { elements: f.elements - 1, ..f };
        let c = if i > 0 {
            e.write(", "@)
        } else {
            e
        };
        lemma_write(e, ", "@);
        let v = write_value(heap, texts, items[i], c, depth + 1);
        lemma_value(heap, texts, items[i], c, depth + 1);
        if !v.truncated {
            let next = parts.take(i + 1);
            assert(next.drop_last() =~= parts.take(i));
            assert(next.last() == parts[i]);
            assert(v.output =~= start + joined(next));
        }
        lemma_items(heap, texts, items, i + 1, v, depth, start, inside, parts);
    }
}

/// What is printed of a value is all of it, unless something was cut off, which
/// is then said at the end.
pub proof fn law_values_are_printed_in_full(heap: HeapState, texts: NumberTexts, value: Value)
    ensures
        ({
            let g = write_value(heap, texts, value, Format::start(), 0);
            !g.truncated ==> shown(heap, texts, value) == words(
                heap,
                texts,
                value,
                Seq::empty(),
                0,
            )
        }),
{
    lemma_value(heap, texts, value, Format::start(), 0);
    assert(Seq::<char>::empty() + words(heap, texts, value, Seq::empty(), 0) =~= words(
        heap,
        texts,
        value,
        Seq::empty(),
        0,
    ));
}

proof fn lemma_short(text: Seq<char>)
    requires
        text.len() <= 2000,
    ensures
        !Format::start().write(text).truncated,
{
    reveal_strlit("<truncated>");
    lemma_utf8_len_bounds("<truncated>"@);
    lemma_utf8_len_bounds(text);
}

/// `nil` and the truth values are printed as the words for them, and a string of
/// an ordinary length as it is.
pub proof fn law_plain_values_are_printed_as_words(
    heap: HeapState,
    texts: NumberTexts,
    object: usize,
    text: Seq<char>,
)
    requires
        heap.get(object) matches Content::Text { text: t, hash: _ } && t == text,
        text.len() <= 2000,
    ensures
        shown(heap, texts, Value::Nil) == "nil"@,
        shown(heap, texts, Value::Bool(true)) == "true"@,
        shown(heap, texts, Value::Bool(false)) == "false"@,
        shown(heap, texts, Value::Obj(object)) == text,
{
    reveal_strlit("nil");
    reveal_strlit("true");
    reveal_strlit("false");
    let f = Format { nodes: Format::start().nodes - 1, ..Format::start() };
    lemma_short("nil"@);
    lemma_short("true"@);
    lemma_short("false"@);
    lemma_short(text);
    assert(f.write("nil"@).truncated == Format::start().write("nil"@).truncated);
    law_values_are_printed_in_full(heap, texts, Value::Nil);
    law_values_are_printed_in_full(heap, texts, Value::Bool(true));
    law_values_are_printed_in_full(heap, texts, Value::Bool(false));
    law_values_are_printed_in_full(heap, texts, Value::Obj(object));
}

/// The number that decimal digits spell.
pub open spec fn number_of(digits: Seq<char>) -> int
    decreases digits.len(),
{
    if digits.len() == 0 {
        0
    } else {
        number_of(digits.drop_last()) * 10 + (digits.last() as int - '0' as int)
    }
}

/// The digits of a number spell it, and the first is no zero but that of zero.
pub proof fn law_digits_spell_their_number(n: nat)
    ensures
        number_of(decimal(n)) == n,
        decimal(n).len() > 0,
        forall|i: int| 0 <= i < decimal(n).len() ==> '0' <= #[trigger] decimal(n)[i] <= '9',
        n > 0 ==> decimal(n)[0] != '0',
    decreases n,
{
    if n < 10 {
        assert(decimal(n).drop_last() =~= Seq::empty());
        assert(number_of(Seq::empty()) == 0);
        assert(decimal(n).last() == digit(n as int));
    } else {
        law_digits_spell_their_number(n / 10);
        assert(decimal(n).drop_last() =~= decimal(n / 10));
        assert(decimal(n)[0] == decimal(n / 10)[0]);
        assert forall|i: int| 0 <= i < decimal(n).len() implies '0' <= #[trigger] decimal(n)[i]
            <= '9' by {
            if i < decimal(n).len() - 1 {
                assert(decimal(n)[i] == decimal(n / 10)[i]);
            }
        }
    }
}

/// A fault is reported with the calls under way, the innermost first: each by
/// the name of its function, and by where it is, which is, but for the
/// innermost, where it called the next.
pub proof fn law_faults_are_traced(s: VmState, fault: Fault, otherwise: SourceSpan, k: int)
    requires
        0 <= k < s.frames.len(),
    ensures
        ({
            let report = s.fault_report(fault, otherwise);
            let i = s.frames.len() - 1 - k;
            &&& report.frames.len() == s.frames.len()
            &&& report.phase is Runtime
            &&& report.severity is Error
            &&& k > 0 ==> (s.frames[i + 1].call_site matches Some(span) ==> report.frames[k].1
                == span)
            &&& k == 0 ==> report.frames[0].1 == report.span
            &&& s.heap.get(s.frames[i].closure) matches Content::Closure { function, upvalues }
                ==> s.heap.get(function) matches Content::Function(f) ==> match f.name {
                None => report.frames[k].0 == "<script>"@,
                Some(name) => s.heap.get(name) matches Content::Text { text, hash }
                    ==> report.frames[k].0 == text,
            }
        }),
        s.running() matches Some(f) ==> s.frames.last().ip < f.chunk.spans@.len()
            ==> s.fault_report(fault, otherwise).span
            == f.chunk.spans@[s.frames.last().ip as int],
{
}

/// What is told of a fault names what was wrong.
pub proof fn law_faults_name_what_was_wrong(heap: HeapState, name: usize, text: Seq<char>, expected: usize, got: usize)
    requires
        heap.get(name) matches Content::Text { text: t, hash } && t == text,
    ensures
        fault_message(heap, Fault::UndefinedVariable { name }) == "Undefined variable '"@ + text
            + "'."@,
        fault_message(heap, Fault::UndefinedProperty { name }) == "Undefined property '"@ + text
            + "'."@,
        fault_message(heap, Fault::NoListMethod { name }) == "List has no method '"@ + text
            + "'."@,
        fault_message(heap, Fault::WrongArity { expected, got }) == "Expected "@ + decimal(
            expected as nat,
        ) + " arguments but got "@ + decimal(got as nat) + "."@,
{
}

} // verus!
