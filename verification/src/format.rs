//! Showing values as text, within bounds.
use vstd::prelude::*;
use crate::object::{Content, Heap, HeapState, Object};
use crate::text::{byte_len, chars_of, char_width, text_of, utf8_len};
use crate::text::{lemma_utf8_len_bounds, lemma_utf8_len_concat, lemma_utf8_len_take};
use crate::value::Value;
use vstd::string::*;

verus! {

pub const FORMAT_DEPTH_LIMIT: usize = 64;

pub const FORMAT_ELEMENT_LIMIT: usize = 100;

pub const FORMAT_NODE_LIMIT: usize = 1_024;

pub const FORMAT_TOTAL_ELEMENT_LIMIT: usize = 1_024;

pub const FORMAT_BYTE_LIMIT: usize = 8_192;

/// The texts of numbers, by their bits. They are made by whoever runs the library.
pub struct NumberTexts {
    pub entries: Vec<(u64, String)>,
}

pub open spec fn number_text_from(entries: Seq<(u64, String)>, bits: u64, i: int) -> Seq<char>
    decreases entries.len() - i,
{
    if 0 <= i < entries.len() {
        if entries[i].0 == bits {
            entries[i].1@
        } else {
            number_text_from(entries, bits, i + 1)
        }
    } else {
        Seq::empty()
    }
}

impl NumberTexts {
    /// The text of a number; nothing for a number that was not given.
    pub open spec fn text(self, bits: u64) -> Seq<char> {
        number_text_from(self.entries@, bits, 0)
    }

    pub fn new() -> (texts: Self)
        ensures
            texts.entries@.len() == 0,
    {
        NumberTexts { entries: Vec::new() }
    }

    pub fn lookup(&self, bits: u64) -> (text: String)
        ensures
            text@ == self.text(bits),
    {
        let mut i: usize = 0;
        while i < self.entries.len()
            invariant
                i <= self.entries@.len(),
                number_text_from(self.entries@, bits, i as int) == self.text(bits),
            decreases self.entries@.len() - i,
        {
            if self.entries[i].0 == bits {
                return self.entries[i].1.clone();
            }
            i += 1;
        }
        String::new()
    }
}

/// A text in the making: what is written, the numbers and the lists that are
/// being written, and what may still be visited.
pub ghost struct Format {
    pub output: Seq<char>,
    pub numbers: Seq<u64>,
    pub active: Seq<usize>,
    pub nodes: int,
    pub elements: int,
    pub truncated: bool,
}

/// The longest prefix that takes no more than `bytes` bytes, by scalars.
pub open spec fn fitting(text: Seq<char>, k: int, bytes: int) -> int
    decreases k,
{
    if k <= 0 || utf8_len(text.take(k)) <= bytes {
        k
    } else {
        fitting(text, k - 1, bytes)
    }
}

pub open spec fn content_limit() -> int {
    FORMAT_BYTE_LIMIT - utf8_len("<truncated>"@)
}

impl Format {
    pub open spec fn start() -> Format {
        Format {
            output: Seq::empty(),
            numbers: Seq::empty(),
            active: Seq::empty(),
            nodes: FORMAT_NODE_LIMIT as int,
            elements: FORMAT_TOTAL_ELEMENT_LIMIT as int,
            truncated: false,
        }
    }

    pub open spec fn truncate(self) -> Format {
        if self.truncated {
            self
        } else {
            Format { output: self.output + "<truncated>"@, truncated: true, ..self }
        }
    }

    /// Writes as much of a text as fits.
    pub open spec fn write(self, text: Seq<char>) -> Format {
        let room = content_limit() - utf8_len(self.output);
        if self.truncated {
            self
        } else if utf8_len(text) <= room {
            Format { output: self.output + text, ..self }
        } else {
            let kept = text.take(fitting(text, text.len() as int, if room < 0 { 0 } else { room }));
            Format { output: self.output + kept, ..self }.truncate()
        }
    }
}

/// The name of a function, if it has one.
pub open spec fn function_name(heap: HeapState, function: usize) -> Option<Seq<char>> {
    match heap.get(function) {
        Content::Function(f) => match f.name {
            Some(name) => match heap.get(name) {
                Content::Text { text, hash } => Some(text),
                _ => None,
            },
            None => None,
        },
        _ => None,
    }
}

pub open spec fn write_function(heap: HeapState, function: usize, f: Format) -> Format {
    match function_name(heap, function) {
        Some(name) => f.write("<fn "@).write(name).write(">"@),
        None => f.write("<script>"@),
    }
}

pub open spec fn text_at(heap: HeapState, object: usize) -> Seq<char> {
    match heap.get(object) {
        Content::Text { text, hash } => text,
        _ => Seq::empty(),
    }
}

pub open spec fn without_last(active: Seq<usize>) -> Seq<usize> {
    if active.len() == 0 {
        active
    } else {
        active.drop_last()
    }
}

/// One value, at a depth of nesting.
pub open spec fn write_value(
    heap: HeapState,
    texts: NumberTexts,
    value: Value,
    f: Format,
    depth: nat,
) -> Format
    decreases FORMAT_DEPTH_LIMIT + 1 - depth, 2int, 0int,
{
    if f.nodes == 0 {
        f.truncate()
    } else {
        let f = Format { nodes: f.nodes - 1, ..f };
        match value {
            Value::Bool(true) => f.write("true"@),
            Value::Bool(false) => f.write("false"@),
            Value::Nil => f.write("nil"@),
            Value::Number(bits) => Format {
                numbers: f.numbers.push(bits),
                ..f.write(texts.text(bits))
            },
            Value::Obj(object) => write_object(heap, texts, object, f, depth),
        }
    }
}

pub open spec fn write_object(
    heap: HeapState,
    texts: NumberTexts,
    object: usize,
    f: Format,
    depth: nat,
) -> Format
    decreases FORMAT_DEPTH_LIMIT + 1 - depth, 1int, 0int,
{
    match heap.get(object) {
        Content::Free => f.write("<free>"@),
        Content::Text { text, hash } => f.write(text),
        Content::Function(function) => write_function(heap, object, f),
        Content::Native => f.write("<native fn>"@),
        Content::Closure { function, upvalues } => write_function(heap, function, f),
        Content::Upvalue(cell) => f.write("upvalue"@),
        Content::Class { name, methods } => f.write(text_at(heap, name)),
        Content::Instance { class, fields } => {
            let name = match heap.get(class) {
                Content::Class { name, methods } => text_at(heap, name),
                _ => Seq::empty(),
            };
            f.write(name).write(" instance"@)
        },
        Content::BoundMethod { receiver, method } => match heap.get(method) {
            Content::Closure { function, upvalues } => write_function(heap, function, f),
            _ => f.write("<script>"@),
        },
        Content::List(items) => {
            if depth >= FORMAT_DEPTH_LIMIT {
                f.write("<depth-limit>"@)
            } else if f.active.contains(object) {
                f.write("<cycle>"@)
            } else {
                let f = Format { active: f.active.push(object), ..f.write("["@) };
                let f = write_items(heap, texts, items, 0, f, depth);
                let f = if !f.truncated && items.len() > FORMAT_ELEMENT_LIMIT {
                    f.truncate()
                } else {
                    f
                };
                Format { active: without_last(f.active), ..f.write("]"@) }
            }
        },
    }
}

/// The items of a list from `i` on, with commas between them.
pub open spec fn write_items(
    heap: HeapState,
    texts: NumberTexts,
    items: Seq<Value>,
    i: int,
    f: Format,
    depth: nat,
) -> Format
    decreases FORMAT_DEPTH_LIMIT - depth, 3int, items.len() - i,
{
    if i < 0 || i >= items.len() || i >= FORMAT_ELEMENT_LIMIT || f.truncated || depth
        >= FORMAT_DEPTH_LIMIT {
        f
    } else if f.elements == 0 {
        f.truncate()
    } else {
        let f = Format { elements: f.elements - 1, ..f };
        let f = if i > 0 {
            f.write(", "@)
        } else {
            f
        };
        let f = write_value(heap, texts, items[i], f, depth + 1);
        write_items(heap, texts, items, i + 1, f, depth)
    }
}

/// How a value is shown.
pub open spec fn shown(heap: HeapState, texts: NumberTexts, value: Value) -> Seq<char> {
    write_value(heap, texts, value, Format::start(), 0).output
}

/// The numbers that are met on the way when a value is shown.
pub open spec fn numbers_shown(heap: HeapState, texts: NumberTexts, value: Value) -> Seq<u64> {
    write_value(heap, texts, value, Format::start(), 0).numbers
}

struct FormatState {
    output: String,
    numbers: Vec<u64>,
    active: Vec<usize>,
    nodes_remaining: usize,
    elements_remaining: usize,
    truncated: bool,
}

impl FormatState {
    spec fn view(self) -> Format {
        Format {
            output: self.output@,
            numbers: self.numbers@,
            active: self.active@,
            nodes: self.nodes_remaining as int,
            elements: self.elements_remaining as int,
            truncated: self.truncated,
        }
    }

    fn new() -> (state: Self)
        ensures
            state@ == Format::start(),
    {
        let state = FormatState {
            output: String::new(),
            numbers: Vec::new(),
            active: Vec::new(),
            nodes_remaining: FORMAT_NODE_LIMIT,
            elements_remaining: FORMAT_TOTAL_ELEMENT_LIMIT,
            truncated: false,
        };
        assert(state@.active =~= Format::start().active);
        assert(state@.numbers =~= Format::start().numbers);
        state
    }

    fn truncate(&mut self)
        ensures
            final(self)@ == old(self)@.truncate(),
    {
        if !self.truncated {
            self.output.append("<truncated>");
            self.truncated = true;
        }
    }

    fn write_str(&mut self, value: &str)
        ensures
            final(self)@ == old(self)@.write(value@),
    {
        if self.truncated {
            return ;
        }
        let marker: usize = byte_len("<truncated>");
        proof {
            reveal_strlit("<truncated>");
            lemma_utf8_len_bounds("<truncated>"@);
        }
        let limit: usize = FORMAT_BYTE_LIMIT - marker;
        let written: usize = byte_len(self.output.as_str());
        let room: usize = if written < limit {
            limit - written
        } else {
            0
        };
        if written <= limit && byte_len(value) <= room {
            self.output.append(value);
            return ;
        }
        let scalars = chars_of(value);
        let mut k: usize = scalars.len();
        let mut bytes: usize = byte_len(value);
        let ghost text = value@;
        assert(text.take(text.len() as int) =~= text);
        while k > 0 && bytes > room
            invariant
                k <= scalars@.len(),
                scalars@ == text,
                bytes == utf8_len(text.take(k as int)),
                fitting(text, k as int, room as int) == fitting(
                    text,
                    text.len() as int,
                    room as int,
                ),
            decreases k,
        {
            proof {
                lemma_utf8_len_take(text, k - 1);
            }
            bytes -= char_width(scalars[k - 1]);
            k -= 1;
        }
        let kept = text_of(vstd::slice::slice_subrange(scalars.as_slice(), 0, k));
        self.output.append(kept.as_str());
        assert(scalars@.subrange(0, k as int) =~= text.take(k as int));
        self.truncate();
    }

    fn consume_node(&mut self) -> (admitted: bool)
        ensures
            admitted == (old(self)@.nodes != 0),
            final(self)@ == (if admitted {
                Format { nodes: old(self)@.nodes - 1, ..old(self)@ }
            } else {
                old(self)@.truncate()
            }),
    {
        if self.nodes_remaining == 0 {
            self.truncate();
            return false;
        }
        self.nodes_remaining = self.nodes_remaining - 1;
        true
    }

    fn consume_element(&mut self) -> (admitted: bool)
        ensures
            admitted == (old(self)@.elements != 0),
            final(self)@ == (if admitted {
                Format { elements: old(self)@.elements - 1, ..old(self)@ }
            } else {
                old(self)@.truncate()
            }),
    {
        if self.elements_remaining == 0 {
            self.truncate();
            return false;
        }
        self.elements_remaining = self.elements_remaining - 1;
        true
    }

    fn is_active(&self, object: usize) -> (active: bool)
        ensures
            active == self@.active.contains(object),
    {
        let mut i: usize = 0;
        while i < self.active.len()
            invariant
                i <= self.active@.len(),
                forall|j: int| 0 <= j < i ==> self.active@[j] != object,
            decreases self.active@.len() - i,
        {
            if self.active[i] == object {
                return true;
            }
            i += 1;
        }
        false
    }

    fn format_function(&mut self, heap: &Heap, function: usize)
        requires
            heap.wf(),
        ensures
            final(self)@ == write_function(heap@, function, old(self)@),
    {
        if function < heap.len() {
            if let Object::Function(f) = heap.get(function) {
                if let Some(name) = f.name {
                    if name < heap.len() {
                        if let Object::Text { text, hash: _ } = heap.get(name) {
                            self.write_str("<fn ");
                            self.write_str(text.as_str());
                            self.write_str(">");
                            return ;
                        }
                    }
                }
            }
        }
        self.write_str("<script>");
    }

    fn format_text(&mut self, heap: &Heap, object: usize)
        requires
            heap.wf(),
        ensures
            final(self)@ == old(self)@.write(text_at(heap@, object)),
    {
        if object < heap.len() {
            if let Object::Text { text, hash: _ } = heap.get(object) {
                self.write_str(text.as_str());
                return ;
            }
        }
        let none = String::new();
        self.write_str(none.as_str());
    }

    fn format_value_nested(&mut self, heap: &Heap, texts: &NumberTexts, value: Value, depth: usize)
        requires
            heap.wf(),
            depth <= FORMAT_DEPTH_LIMIT,
        ensures
            final(self)@ == write_value(heap@, *texts, value, old(self)@, depth as nat),
        decreases FORMAT_DEPTH_LIMIT + 1 - depth, 2int,
    {
        if !self.consume_node() {
            return ;
        }
        match value {
            Value::Bool(shown) => if shown {
                self.write_str("true")
            } else {
                self.write_str("false")
            },
            Value::Nil => self.write_str("nil"),
            Value::Number(bits) => {
                let text = texts.lookup(bits);
                self.write_str(text.as_str());
                self.numbers.push(bits);
            },
            Value::Obj(object) => self.format_object(heap, texts, object, depth),
        }
    }

    fn format_object(&mut self, heap: &Heap, texts: &NumberTexts, object: usize, depth: usize)
        requires
            heap.wf(),
            depth <= FORMAT_DEPTH_LIMIT,
        ensures
            final(self)@ == write_object(heap@, *texts, object, old(self)@, depth as nat),
        decreases FORMAT_DEPTH_LIMIT + 1 - depth, 1int,
    {
        if object >= heap.len() {
            self.write_str("<free>");
            return ;
        }
        match heap.get(object) {
            Object::Free => self.write_str("<free>"),
            Object::Text { text, hash: _ } => self.write_str(text.as_str()),
            Object::Function(_) => self.format_function(heap, object),
            Object::Native => self.write_str("<native fn>"),
            Object::Closure { function, upvalues: _ } => self.format_function(heap, *function),
            Object::Upvalue(_) => self.write_str("upvalue"),
            Object::Class { name, methods: _ } => self.format_text(heap, *name),
            Object::Instance { class, fields: _ } => {
                let mut name: usize = heap.len();
                if *class < heap.len() {
                    if let Object::Class { name: own, methods: _ } = heap.get(*class) {
                        name = *own;
                    }
                }
                self.format_text(heap, name);
                self.write_str(" instance");
            },
            Object::BoundMethod { receiver: _, method } => {
                if *method < heap.len() {
                    if let Object::Closure { function, upvalues: _ } = heap.get(*method) {
                        self.format_function(heap, *function);
                        return ;
                    }
                }
                self.write_str("<script>");
            },
            Object::List(items) => {
                if depth >= FORMAT_DEPTH_LIMIT {
                    self.write_str("<depth-limit>");
                    return ;
                }
                if self.is_active(object) {
                    self.write_str("<cycle>");
                    return ;
                }
                self.write_str("[");
                self.active.push(object);
                let ghost opened = self@;
                let mut index: usize = 0;
                loop
                    invariant_except_break
                        index <= items@.len(),
                        write_items(
                            heap@,
                            *texts,
                            items@,
                            index as int,
                            self@,
                            depth as nat,
                        ) == write_items(heap@, *texts, items@, 0, opened, depth as nat),
                    invariant
                        heap.wf(),
                        depth < FORMAT_DEPTH_LIMIT,
                    ensures
                        self@ == write_items(heap@, *texts, items@, 0, opened, depth as nat),
                    decreases items@.len() - index,
                {
                    if index >= items.len() || index >= FORMAT_ELEMENT_LIMIT || self.truncated {
                        break;
                    }
                    if !self.consume_element() {
                        break;
                    }
                    if index > 0 {
                        self.write_str(", ");
                    }
                    self.format_value_nested(heap, texts, items[index], depth + 1);
                    index += 1;
                }
                if !self.truncated && items.len() > FORMAT_ELEMENT_LIMIT {
                    self.truncate();
                }
                self.write_str("]");
                let ghost before = self@;
                self.active.pop();
                assert(self@.active =~= without_last(before.active));
            },
        }
    }
}

/// Shows a value.
pub fn format_value(heap: &Heap, texts: &NumberTexts, value: Value) -> (text: String)
    requires
        heap.wf(),
    ensures
        text@ == shown(heap@, *texts, value),
{
    let mut state = FormatState::new();
    state.format_value_nested(heap, texts, value, 0);
    state.output
}

/// The numbers whose texts are needed to show a value.
pub fn numbers_of(heap: &Heap, value: Value) -> (numbers: Vec<u64>)
    requires
        heap.wf(),
    ensures
        forall|texts: NumberTexts|
            texts.entries@.len() == 0 ==> numbers@ == #[trigger] numbers_shown(
                heap@,
                texts,
                value,
            ),
{
    let texts = NumberTexts::new();
    let mut state = FormatState::new();
    state.format_value_nested(heap, &texts, value, 0);
    assert forall|other: NumberTexts| other.entries@.len() == 0 implies state.numbers@
        == #[trigger] numbers_shown(heap@, other, value) by {
        assert(other.entries@ =~= texts.entries@);
        lemma_texts_by_view(heap@, texts, other, value, Format::start(), 0);
    }
    state.numbers
}

/// Only the entries matter.
proof fn lemma_texts_by_view(
    heap: HeapState,
    a: NumberTexts,
    b: NumberTexts,
    value: Value,
    f: Format,
    depth: nat,
)
    requires
        forall|bits: u64| #[trigger] a.text(bits) == b.text(bits),
    ensures
        write_value(heap, a, value, f, depth) == write_value(heap, b, value, f, depth),
    decreases FORMAT_DEPTH_LIMIT + 1 - depth, 2int, 0int,
{
    if f.nodes != 0 {
        let f = Format { nodes: f.nodes - 1, ..f };
        if let Value::Obj(object) = value {
            if let Content::List(items) = heap.get(object) {
                if depth < FORMAT_DEPTH_LIMIT && !f.active.contains(object) {
                    let f = Format { active: f.active.push(object), ..f.write("["@) };
                    lemma_items_by_view(heap, a, b, items, 0, f, depth);
                }
            }
        } else if let Value::Number(bits) = value {
            assert(a.text(bits) == b.text(bits));
        }
    }
}

proof fn lemma_items_by_view(
    heap: HeapState,
    a: NumberTexts,
    b: NumberTexts,
    items: Seq<Value>,
    i: int,
    f: Format,
    depth: nat,
)
    requires
        forall|bits: u64| #[trigger] a.text(bits) == b.text(bits),
    ensures
        write_items(heap, a, items, i, f, depth) == write_items(heap, b, items, i, f, depth),
    decreases FORMAT_DEPTH_LIMIT - depth, 3int, items.len() - i,
{
    if i < 0 || i >= items.len() || i >= FORMAT_ELEMENT_LIMIT || f.truncated || depth
        >= FORMAT_DEPTH_LIMIT || f.elements == 0 {
    } else {
        let f = Format { elements: f.elements - 1, ..f };
        let f = if i > 0 {
            f.write(", "@)
        } else {
            f
        };
        lemma_texts_by_view(heap, a, b, items[i], f, depth + 1);
        let f = write_value(heap, a, items[i], f, depth + 1);
        lemma_items_by_view(heap, a, b, items, i + 1, f, depth);
    }
}

/// No more is written than fits.
pub open spec fn fits(f: Format) -> bool {
    if f.truncated {
        utf8_len(f.output) <= FORMAT_BYTE_LIMIT
    } else {
        utf8_len(f.output) <= content_limit()
    }
}

proof fn lemma_marker()
    ensures
        0 <= utf8_len("<truncated>"@) <= 44,
{
    reveal_strlit("<truncated>");
    lemma_utf8_len_bounds("<truncated>"@);
}

proof fn lemma_truncate_fits(f: Format)
    requires
        fits(f),
    ensures
        fits(f.truncate()),
{
    lemma_marker();
    lemma_utf8_len_concat(f.output, "<truncated>"@);
}

proof fn lemma_write_fits(f: Format, text: Seq<char>)
    requires
        fits(f),
    ensures
        fits(f.write(text)),
{
    lemma_marker();
    if !f.truncated {
        let room = content_limit() - utf8_len(f.output);
        lemma_utf8_len_concat(f.output, text);
        if utf8_len(text) > room {
            let k = fitting(text, text.len() as int, room);
            lemma_fitting_fits(text, text.len() as int, room);
            lemma_utf8_len_concat(f.output, text.take(k));
            lemma_truncate_fits(Format { output: f.output + text.take(k), ..f });
        }
    }
}

proof fn lemma_fitting_fits(text: Seq<char>, k: int, bytes: int)
    requires
        0 <= k <= text.len(),
        0 <= bytes,
    ensures
        0 <= fitting(text, k, bytes) <= k,
        utf8_len(text.take(fitting(text, k, bytes))) <= bytes,
    decreases k,
{
    assert(text.take(0) =~= Seq::empty());
    if k > 0 && utf8_len(text.take(k)) > bytes {
        lemma_fitting_fits(text, k - 1, bytes);
    }
}

proof fn lemma_function_fits(heap: HeapState, function: usize, f: Format)
    requires
        fits(f),
    ensures
        fits(write_function(heap, function, f)),
{
    lemma_write_fits(f, "<script>"@);
    if let Some(name) = function_name(heap, function) {
        lemma_write_fits(f, "<fn "@);
        lemma_write_fits(f.write("<fn "@), name);
        lemma_write_fits(f.write("<fn "@).write(name), ">"@);
    }
}

proof fn lemma_value_fits(heap: HeapState, texts: NumberTexts, value: Value, f: Format, depth: nat)
    requires
        fits(f),
    ensures
        fits(write_value(heap, texts, value, f, depth)),
    decreases FORMAT_DEPTH_LIMIT + 1 - depth, 2int, 0int,
{
    if f.nodes == 0 {
        lemma_truncate_fits(f);
    } else {
        let f = Format { nodes: f.nodes - 1, ..f };
        match value {
            Value::Bool(true) => lemma_write_fits(f, "true"@),
            Value::Bool(false) => lemma_write_fits(f, "false"@),
            Value::Nil => lemma_write_fits(f, "nil"@),
            Value::Number(bits) => lemma_write_fits(f, texts.text(bits)),
            Value::Obj(object) => lemma_object_fits(heap, texts, object, f, depth),
        }
    }
}

proof fn lemma_object_fits(
    heap: HeapState,
    texts: NumberTexts,
    object: usize,
    f: Format,
    depth: nat,
)
    requires
        fits(f),
    ensures
        fits(write_object(heap, texts, object, f, depth)),
    decreases FORMAT_DEPTH_LIMIT + 1 - depth, 1int, 0int,
{
    match heap.get(object) {
        Content::Free => lemma_write_fits(f, "<free>"@),
        Content::Text { text, hash } => lemma_write_fits(f, text),
        Content::Function(function) => lemma_function_fits(heap, object, f),
        Content::Native => lemma_write_fits(f, "<native fn>"@),
        Content::Closure { function, upvalues } => lemma_function_fits(heap, function, f),
        Content::Upvalue(cell) => lemma_write_fits(f, "upvalue"@),
        Content::Class { name, methods } => lemma_write_fits(f, text_at(heap, name)),
        Content::Instance { class, fields } => {
            let name = match heap.get(class) {
                Content::Class { name, methods } => text_at(heap, name),
                _ => Seq::empty(),
            };
            lemma_write_fits(f, name);
            lemma_write_fits(f.write(name), " instance"@);
        },
        Content::BoundMethod { receiver, method } => match heap.get(method) {
            Content::Closure { function, upvalues } => lemma_function_fits(heap, function, f),
            _ => lemma_write_fits(f, "<script>"@),
        },
        Content::List(items) => {
            lemma_write_fits(f, "<depth-limit>"@);
            lemma_write_fits(f, "<cycle>"@);
            lemma_write_fits(f, "["@);
            if depth < FORMAT_DEPTH_LIMIT && !f.active.contains(object) {
                let f = Format { active: f.active.push(object), ..f.write("["@) };
                lemma_items_fit(heap, texts, items, 0, f, depth);
                let f = write_items(heap, texts, items, 0, f, depth);
                lemma_truncate_fits(f);
                let f = if !f.truncated && items.len() > FORMAT_ELEMENT_LIMIT {
                    f.truncate()
                } else {
                    f
                };
                lemma_write_fits(f, "]"@);
            }
        },
    }
}

proof fn lemma_items_fit(
    heap: HeapState,
    texts: NumberTexts,
    items: Seq<Value>,
    i: int,
    f: Format,
    depth: nat,
)
    requires
        fits(f),
    ensures
        fits(write_items(heap, texts, items, i, f, depth)),
    decreases FORMAT_DEPTH_LIMIT - depth, 3int, items.len() - i,
{
    if i < 0 || i >= items.len() || i >= FORMAT_ELEMENT_LIMIT || f.truncated || depth
        >= FORMAT_DEPTH_LIMIT {
    } else if f.elements == 0 {
        lemma_truncate_fits(f);
    } else {
        let f = Format { elements: f.elements - 1, ..f };
        lemma_write_fits(f, ", "@);
        let f = if i > 0 {
            f.write(", "@)
        } else {
            f
        };
        lemma_value_fits(heap, texts, items[i], f, depth + 1);
        lemma_items_fit(
            heap,
            texts,
            items,
            i + 1,
            write_value(heap, texts, items[i], f, depth + 1),
            depth,
        );
    }
}

/// What is shown of a value is bounded, however large or cyclic it is.
pub proof fn law_shown_is_bounded(heap: HeapState, texts: NumberTexts, value: Value)
    ensures
        utf8_len(shown(heap, texts, value)) <= FORMAT_BYTE_LIMIT,
{
    lemma_marker();
    lemma_value_fits(heap, texts, value, Format::start(), 0);
}

/// A text is written with the texts of its numbers left out (`e`) and with
/// them (`f`): the second is cut, or both have come equally far.
spec fn in_step(e: Format, f: Format) -> bool {
    f.truncated || (!e.truncated && e.nodes == f.nodes && e.elements == f.elements && e.active
        == f.active && utf8_len(e.output) <= utf8_len(f.output) && utf8_len(f.output)
        <= content_limit())
}

proof fn lemma_write_in_step(e: Format, f: Format, short: Seq<char>, long: Seq<char>)
    requires
        in_step(e, f),
        utf8_len(short) <= utf8_len(long),
    ensures
        in_step(e.write(short), f.write(long)),
{
    if !f.truncated {
        lemma_utf8_len_concat(e.output, short);
        lemma_utf8_len_concat(f.output, long);
    }
}

proof fn lemma_function_in_step(heap: HeapState, function: usize, e: Format, f: Format)
    requires
        in_step(e, f),
    ensures
        in_step(write_function(heap, function, e), write_function(heap, function, f)),
{
    match function_name(heap, function) {
        Some(name) => {
            lemma_write_in_step(e, f, "<fn "@, "<fn "@);
            let (e1, f1) = (e.write("<fn "@), f.write("<fn "@));
            lemma_write_in_step(e1, f1, name, name);
            lemma_write_in_step(e1.write(name), f1.write(name), ">"@, ">"@);
        },
        None => lemma_write_in_step(e, f, "<script>"@, "<script>"@),
    }
}

/// A text that is cut stays so, whatever the texts of numbers are.
proof fn lemma_value_cut(
    heap: HeapState,
    a: NumberTexts,
    b: NumberTexts,
    value: Value,
    f: Format,
    depth: nat,
)
    requires
        f.truncated,
    ensures
        write_value(heap, a, value, f, depth) == write_value(heap, b, value, f, depth),
        write_value(heap, a, value, f, depth).truncated,
    decreases FORMAT_DEPTH_LIMIT + 1 - depth, 2int, 0int,
{
    if f.nodes != 0 {
        let f = Format { nodes: f.nodes - 1, ..f };
        if let Value::Obj(object) = value {
            if let Content::List(items) = heap.get(object) {
                if depth < FORMAT_DEPTH_LIMIT && !f.active.contains(object) {
                    let f = Format { active: f.active.push(object), ..f.write("["@) };
                    assert(write_items(heap, a, items, 0, f, depth) == f);
                    assert(write_items(heap, b, items, 0, f, depth) == f);
                }
            }
        }
    }
}

/// The numbers that were met stay.
proof fn lemma_value_numbers(heap: HeapState, texts: NumberTexts, value: Value, f: Format, depth: nat)
    ensures
        f.numbers.is_prefix_of(write_value(heap, texts, value, f, depth).numbers),
    decreases FORMAT_DEPTH_LIMIT + 1 - depth, 2int, 0int,
{
    if f.nodes != 0 {
        let f = Format { nodes: f.nodes - 1, ..f };
        if let Value::Obj(object) = value {
            if let Content::List(items) = heap.get(object) {
                if depth < FORMAT_DEPTH_LIMIT && !f.active.contains(object) {
                    let f = Format { active: f.active.push(object), ..f.write("["@) };
                    lemma_items_numbers(heap, texts, items, 0, f, depth);
                }
            }
        }
    }
}

proof fn lemma_items_numbers(
    heap: HeapState,
    texts: NumberTexts,
    items: Seq<Value>,
    i: int,
    f: Format,
    depth: nat,
)
    ensures
        f.numbers.is_prefix_of(write_items(heap, texts, items, i, f, depth).numbers),
    decreases FORMAT_DEPTH_LIMIT - depth, 3int, items.len() - i,
{
    if i < 0 || i >= items.len() || i >= FORMAT_ELEMENT_LIMIT || f.truncated || depth
        >= FORMAT_DEPTH_LIMIT || f.elements == 0 {
    } else {
        let f1 = Format { elements: f.elements - 1, ..f };
        let f2 = if i > 0 {
            f1.write(", "@)
        } else {
            f1
        };
        lemma_value_numbers(heap, texts, items[i], f2, depth + 1);
        let f3 = write_value(heap, texts, items[i], f2, depth + 1);
        lemma_items_numbers(heap, texts, items, i + 1, f3, depth);
        assert(f2.numbers == f.numbers);
    }
}

/// Some numbers have the same texts.
pub open spec fn agree(a: NumberTexts, b: NumberTexts, numbers: Seq<u64>) -> bool {
    forall|i: int| 0 <= i < numbers.len() ==> a.text(#[trigger] numbers[i]) == b.text(numbers[i])
}

proof fn lemma_value_in_step(
    heap: HeapState,
    none: NumberTexts,
    a: NumberTexts,
    b: NumberTexts,
    value: Value,
    e: Format,
    f: Format,
    depth: nat,
)
    requires
        none.entries@.len() == 0,
        in_step(e, f),
        agree(a, b, write_value(heap, none, value, e, depth).numbers),
    ensures
        write_value(heap, a, value, f, depth) == write_value(heap, b, value, f, depth),
        in_step(
            write_value(heap, none, value, e, depth),
            write_value(heap, a, value, f, depth),
        ),
    decreases FORMAT_DEPTH_LIMIT + 1 - depth, 2int, 0int,
{
    if f.truncated {
        lemma_value_cut(heap, a, b, value, f, depth);
    } else if f.nodes != 0 {
        let e1 = Format { nodes: e.nodes - 1, ..e };
        let f1 = Format { nodes: f.nodes - 1, ..f };
        match value {
            Value::Bool(true) => lemma_write_in_step(e1, f1, "true"@, "true"@),
            Value::Bool(false) => lemma_write_in_step(e1, f1, "false"@, "false"@),
            Value::Nil => lemma_write_in_step(e1, f1, "nil"@, "nil"@),
            Value::Number(bits) => {
                let numbers = write_value(heap, none, value, e, depth).numbers;
                assert(numbers.last() == bits);
                assert(a.text(numbers[numbers.len() - 1]) == b.text(numbers[numbers.len() - 1]));
                assert(none.text(bits) =~= Seq::empty());
                lemma_write_in_step(e1, f1, none.text(bits), a.text(bits));
            },
            Value::Obj(object) => {
                lemma_object_in_step(heap, none, a, b, object, e1, f1, depth);
            },
        }
    }
}

proof fn lemma_object_in_step(
    heap: HeapState,
    none: NumberTexts,
    a: NumberTexts,
    b: NumberTexts,
    object: usize,
    e: Format,
    f: Format,
    depth: nat,
)
    requires
        none.entries@.len() == 0,
        in_step(e, f),
        !f.truncated,
        agree(a, b, write_object(heap, none, object, e, depth).numbers),
    ensures
        write_object(heap, a, object, f, depth) == write_object(heap, b, object, f, depth),
        in_step(
            write_object(heap, none, object, e, depth),
            write_object(heap, a, object, f, depth),
        ),
    decreases FORMAT_DEPTH_LIMIT + 1 - depth, 1int, 0int,
{
    match heap.get(object) {
        Content::Free => lemma_write_in_step(e, f, "<free>"@, "<free>"@),
        Content::Text { text, hash } => lemma_write_in_step(e, f, text, text),
        Content::Function(function) => lemma_function_in_step(heap, object, e, f),
        Content::Native => lemma_write_in_step(e, f, "<native fn>"@, "<native fn>"@),
        Content::Closure { function, upvalues } => lemma_function_in_step(heap, function, e, f),
        Content::Upvalue(cell) => lemma_write_in_step(e, f, "upvalue"@, "upvalue"@),
        Content::Class { name, methods } => {
            lemma_write_in_step(e, f, text_at(heap, name), text_at(heap, name));
        },
        Content::Instance { class, fields } => {
            let name = match heap.get(class) {
                Content::Class { name, methods } => text_at(heap, name),
                _ => Seq::empty(),
            };
            lemma_write_in_step(e, f, name, name);
            lemma_write_in_step(e.write(name), f.write(name), " instance"@, " instance"@);
        },
        Content::BoundMethod { receiver, method } => match heap.get(method) {
            Content::Closure { function, upvalues } => {
                lemma_function_in_step(heap, function, e, f);
            },
            _ => lemma_write_in_step(e, f, "<script>"@, "<script>"@),
        },
        Content::List(items) => {
            if depth >= FORMAT_DEPTH_LIMIT {
                lemma_write_in_step(e, f, "<depth-limit>"@, "<depth-limit>"@);
            } else if f.active.contains(object) {
                lemma_write_in_step(e, f, "<cycle>"@, "<cycle>"@);
            } else {
                lemma_write_in_step(e, f, "["@, "["@);
                let e1 = Format { active: e.active.push(object), ..e.write("["@) };
                let f1 = Format { active: f.active.push(object), ..f.write("["@) };
                lemma_items_in_step(heap, none, a, b, items, 0, e1, f1, depth);
                let e2 = write_items(heap, none, items, 0, e1, depth);
                let f2 = write_items(heap, a, items, 0, f1, depth);
                let cut = items.len() > FORMAT_ELEMENT_LIMIT;
                let e3 = if !e2.truncated && cut {
                    e2.truncate()
                } else {
                    e2
                };
                let f3 = if !f2.truncated && cut {
                    f2.truncate()
                } else {
                    f2
                };
                lemma_write_in_step(e3, f3, "]"@, "]"@);
            }
        },
    }
}

proof fn lemma_items_in_step(
    heap: HeapState,
    none: NumberTexts,
    a: NumberTexts,
    b: NumberTexts,
    items: Seq<Value>,
    i: int,
    e: Format,
    f: Format,
    depth: nat,
)
    requires
        none.entries@.len() == 0,
        in_step(e, f),
        agree(a, b, write_items(heap, none, items, i, e, depth).numbers),
    ensures
        write_items(heap, a, items, i, f, depth) == write_items(heap, b, items, i, f, depth),
        in_step(
            write_items(heap, none, items, i, e, depth),
            write_items(heap, a, items, i, f, depth),
        ),
    decreases FORMAT_DEPTH_LIMIT - depth, 3int, items.len() - i,
{
    if i < 0 || i >= items.len() || i >= FORMAT_ELEMENT_LIMIT || f.truncated || depth
        >= FORMAT_DEPTH_LIMIT || f.elements == 0 {
    } else {
        let e1 = Format { elements: e.elements - 1, ..e };
        let f1 = Format { elements: f.elements - 1, ..f };
        lemma_write_in_step(e1, f1, ", "@, ", "@);
        let (e2, f2) = if i > 0 {
            (e1.write(", "@), f1.write(", "@))
        } else {
            (e1, f1)
        };
        let e3 = write_value(heap, none, items[i], e2, depth + 1);
        lemma_items_numbers(heap, none, items, i + 1, e3, depth);
        let all = write_items(heap, none, items, i, e, depth).numbers;
        assert(agree(a, b, e3.numbers)) by {
            assert forall|k: int| 0 <= k < e3.numbers.len() implies a.text(
                #[trigger] e3.numbers[k],
            ) == b.text(e3.numbers[k]) by {
                assert(all[k] == e3.numbers[k]);
            }
        }
        lemma_value_in_step(heap, none, a, b, items[i], e2, f2, depth + 1);
        let f3 = write_value(heap, a, items[i], f2, depth + 1);
        lemma_items_in_step(heap, none, a, b, items, i + 1, e3, f3, depth);
    }
}

/// A value is shown by the texts of the numbers that are met without any
/// texts: others do not matter.
pub proof fn law_texts_of_numbers_suffice(
    heap: HeapState,
    none: NumberTexts,
    a: NumberTexts,
    b: NumberTexts,
    value: Value,
)
    requires
        none.entries@.len() == 0,
        agree(a, b, numbers_shown(heap, none, value)),
    ensures
        shown(heap, a, value) == shown(heap, b, value),
{
    lemma_marker();
    lemma_value_in_step(heap, none, a, b, value, Format::start(), Format::start(), 0);
}

} // verus!
