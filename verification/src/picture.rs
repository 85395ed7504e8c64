//! Picturing the values of a running program, within a budget.
use vstd::prelude::*;
use crate::debug_info::BindingId;
use crate::format::{without_last, NumberTexts};
use crate::number::{is_nan, is_nan_bits, INFINITY_BITS, SIGN_BIT};
use crate::object::{Content, HeapState, Object};
use crate::snapshot::{BindingSnapshot, DebugValue, SnapshotBuildError, SnapshotLimits, ValueKind};
use crate::snapshot_budget::{BuildBudget, DynamicStringAdmission};
use crate::value::Value;
use crate::vm::VM;
use vstd::string::*;

verus! {

/// What a pictured value shows.
pub ghost enum Shown {
    Nil,
    Bool(bool),
    Number(Seq<char>),
    Text(Seq<char>),
    Function(Seq<char>),
    Closure(Seq<char>),
    Native(Seq<char>),
    List { object_id: u64, items: Seq<Shown>, truncated: bool },
    Cycle { object_id: u64 },
    Truncated,
}

pub open spec fn shows(value: DebugValue, shown: Shown) -> bool
    decreases value,
{
    match (value, shown) {
        (DebugValue::Nil, Shown::Nil) => true,
        (DebugValue::Bool(a), Shown::Bool(b)) => a == b,
        (DebugValue::Number(a), Shown::Number(b)) => a@ == b,
        (DebugValue::String(a), Shown::Text(b)) => a@ == b,
        (DebugValue::Function(a), Shown::Function(b)) => a@ == b,
        (DebugValue::Closure(a), Shown::Closure(b)) => a@ == b,
        (DebugValue::Native(a), Shown::Native(b)) => a@ == b,
        (
            DebugValue::List { object_id: i, items: a, truncated: s },
            Shown::List { object_id: j, items: b, truncated: t },
        ) => i == j && s == t && a@.len() == b.len() && forall|n: int|
            0 <= n < a@.len() ==> shows(#[trigger] a@[n], b[n]),
        (DebugValue::Cycle { object_id: i }, Shown::Cycle { object_id: j }) => i == j,
        (DebugValue::Truncated, Shown::Truncated) => true,
        _ => false,
    }
}

/// A picture in the making: what may still be spent, the numbers that lists
/// have been given, the lists that are being pictured, and the floating-point
/// numbers that were met.
#[verifier::ext_equal]
pub ghost struct Build {
    pub budget: BuildBudget,
    /// By object; zero where none was given.
    pub ids: Seq<u64>,
    pub active: Seq<usize>,
    pub next_id: u64,
    pub numbers: Seq<u64>,
}

pub type Picture = Result<(ValueKind, Shown), SnapshotBuildError>;

/// The text of a number that every reader takes for the same number.
pub open spec fn canonical_text(texts: NumberTexts, bits: u64) -> Seq<char> {
    if is_nan(bits) {
        "nan"@
    } else if bits == INFINITY_BITS {
        "infinity"@
    } else if bits == SIGN_BIT + INFINITY_BITS {
        "-infinity"@
    } else if bits == SIGN_BIT {
        "-0"@
    } else {
        texts.text(bits)
    }
}

/// The name of a function; a name that is no string is an error.
pub open spec fn checked_name(heap: HeapState, function: usize) -> Result<
    Seq<char>,
    SnapshotBuildError,
> {
    match heap.get(function) {
        Content::Function(f) => match f.name {
            None => Ok("<script>"@),
            Some(name) => match heap.get(name) {
                Content::Text { text, hash } => Ok(text),
                _ => Err(SnapshotBuildError::ObjectState),
            },
        },
        _ => Err(SnapshotBuildError::ObjectState),
    }
}

impl Build {
    pub open spec fn start(limits: SnapshotLimits, objects: nat) -> Build {
        Build {
            budget: BuildBudget::fresh(limits),
            ids: Seq::new(objects, |i: int| 0u64),
            active: Seq::empty(),
            next_id: 1,
            numbers: Seq::empty(),
        }
    }

    pub open spec fn limits(self) -> SnapshotLimits {
        self.budget.limits
    }

    pub open spec fn exhausted(self) -> bool {
        self.budget.exhausted is Some
    }

    pub open spec fn with_budget(self, budget: BuildBudget) -> Build {
        Build { budget, ..self }
    }

    /// Shows a text if it is admitted.
    pub open spec fn text(self, text: Seq<char>, kind: ValueKind, shown: Shown) -> (Build, Picture) {
        let (budget, admission) = self.budget.on_dynamic_string(text);
        (
            self.with_budget(budget),
            if admission is Admitted {
                Ok((kind, shown))
            } else {
                Ok((ValueKind::Truncated, Shown::Truncated))
            },
        )
    }

    pub open spec fn named(
        self,
        name: Result<Seq<char>, SnapshotBuildError>,
        closure: bool,
    ) -> (Build, Picture) {
        match name {
            Ok(name) => if closure {
                self.text(name, ValueKind::Closure, Shown::Closure(name))
            } else {
                self.text(name, ValueKind::Function, Shown::Function(name))
            },
            Err(error) => (self, Err(error)),
        }
    }
}

/// What is pictured, and under which limits.
pub ghost struct Scene {
    pub heap: HeapState,
    pub texts: NumberTexts,
    pub limits: SnapshotLimits,
}

/// A value for which room was made, at a depth of nesting.
pub open spec fn pictured(scene: Scene, value: Value, depth: nat, b: Build) -> (Build, Picture)
    decreases scene.limits.max_depth + 1 - depth, 2int, 0int,
{
    match value {
        Value::Nil => (b, Ok((ValueKind::Nil, Shown::Nil))),
        Value::Bool(value) => (b, Ok((ValueKind::Bool, Shown::Bool(value)))),
        Value::Number(bits) => {
            let text = canonical_text(scene.texts, bits);
            Build { numbers: b.numbers.push(bits), ..b }.text(
                text,
                ValueKind::Number,
                Shown::Number(text),
            )
        },
        Value::Obj(object) => match scene.heap.get(object) {
            Content::Text { text, hash } => b.text(text, ValueKind::String, Shown::Text(text)),
            Content::Function(_) => b.named(checked_name(scene.heap, object), false),
            Content::Closure { function, upvalues } => b.named(
                checked_name(scene.heap, function),
                true,
            ),
            Content::Native => b.text("clock"@, ValueKind::Native, Shown::Native("clock"@)),
            Content::List(items) => {
                if b.ids[object as int] == 0 {
                    if b.next_id == u64::MAX {
                        (b, Err(SnapshotBuildError::ObjectIdExhausted))
                    } else {
                        let id = b.next_id;
                        let b = Build {
                            ids: b.ids.update(object as int, id),
                            next_id: (id + 1) as u64,
                            ..b
                        };
                        pictured_list(scene, object, id, items, depth, b)
                    }
                } else if b.active.contains(object) {
                    let object_id = b.ids[object as int];
                    (b, Ok((ValueKind::Cycle, Shown::Cycle { object_id })))
                } else {
                    pictured_list(scene, object, b.ids[object as int], items, depth, b)
                }
            },
            _ => (b, Err(SnapshotBuildError::ObjectState)),
        },
    }
}

/// A list, as deep as the limits go.
pub open spec fn pictured_list(
    scene: Scene,
    object: usize,
    object_id: u64,
    items: Seq<Value>,
    depth: nat,
    b: Build,
) -> (Build, Picture)
    decreases scene.limits.max_depth + 1 - depth, 1int, 0int,
{
    if depth >= scene.limits.max_depth {
        let shown = Shown::List { object_id, items: Seq::empty(), truncated: items.len() > 0 };
        (b, Ok((ValueKind::List, shown)))
    } else {
        let opened = Build { active: b.active.push(object), ..b };
        let cut = items.len() > scene.limits.max_collection_items;
        let (b, result) = pictured_items(scene, items, 0, depth, opened, Seq::empty(), cut);
        let b = Build { active: without_last(b.active), ..b };
        match result {
            Ok((items, truncated)) => (
                b,
                Ok((ValueKind::List, Shown::List { object_id, items, truncated })),
            ),
            Err(error) => (b, Err(error)),
        }
    }
}

/// The items of a list from `i` on, behind those that are done.
pub open spec fn pictured_items(
    scene: Scene,
    items: Seq<Value>,
    i: int,
    depth: nat,
    b: Build,
    done: Seq<Shown>,
    truncated: bool,
) -> (Build, Result<(Seq<Shown>, bool), SnapshotBuildError>)
    decreases scene.limits.max_depth - depth, 3int, items.len() - i,
{
    if i < 0 || i >= items.len() || i >= scene.limits.max_collection_items || depth
        >= scene.limits.max_depth {
        (b, Ok((done, truncated)))
    } else {
        let (budget, answer) = b.budget.on_value();
        let b = b.with_budget(budget);
        if answer is Err {
            (b, Ok((done, true)))
        } else {
            let (b, picture) = pictured(scene, items[i], depth + 1, b);
            match picture {
                Err(error) => (b, Err(error)),
                Ok((_, shown)) => if b.exhausted() {
                    (b, Ok((done.push(shown), true)))
                } else {
                    pictured_items(
                        scene,
                        items,
                        i + 1,
                        depth,
                        b,
                        done.push(shown),
                        truncated || shown is Truncated,
                    )
                },
            }
        }
    }
}

/// What a pictured binding shows.
pub ghost struct BindingPicture {
    pub binding_id: Option<BindingId>,
    pub name: Seq<char>,
    pub name_truncated: bool,
    pub binding_kind: Seq<char>,
    pub value_kind: ValueKind,
    pub value: Shown,
}

pub open spec fn shows_binding(binding: BindingSnapshot, p: BindingPicture) -> bool {
    &&& binding.binding_id == p.binding_id
    &&& binding.name@ == p.name
    &&& binding.name_truncated == p.name_truncated
    &&& binding.binding_kind@ == p.binding_kind
    &&& binding.value_kind == p.value_kind
    &&& shows(binding.value, p.value)
}

pub open spec fn shows_bindings(bindings: Seq<BindingSnapshot>, ps: Seq<BindingPicture>) -> bool {
    &&& bindings.len() == ps.len()
    &&& forall|i: int| 0 <= i < ps.len() ==> shows_binding(#[trigger] bindings[i], ps[i])
}

impl Build {
    /// A name that the picture may own: as it is, or emptied where it is too
    /// long by itself; nothing where no room is left.
    pub open spec fn owned_name(self, name: Seq<char>) -> (Build, Option<(Seq<char>, bool)>) {
        let (budget, admission) = self.budget.on_dynamic_string(name);
        let b = self.with_budget(budget);
        match admission {
            DynamicStringAdmission::Admitted => (b, Some((name, false))),
            DynamicStringAdmission::Exhausted(_) => (b, None),
            DynamicStringAdmission::PerStringLimit => {
                let (budget, admission) = b.budget.on_dynamic_string(Seq::empty());
                let b = b.with_budget(budget);
                if admission is Admitted {
                    (b, Some((Seq::empty(), true)))
                } else {
                    (b, None)
                }
            },
        }
    }

    /// The budget as it was before, but for what ran out.
    pub open spec fn back_to(self, before: Build) -> Build {
        self.with_budget(
            BuildBudget { exhausted: self.budget.exhausted, limits: self.budget.limits, ..before.budget },
        )
    }

    /// A binding, unless there is no room for it.
    pub open spec fn binding(
        self,
        scene: Scene,
        binding_id: Option<BindingId>,
        name: Seq<char>,
        kind: Seq<char>,
        value: Result<Value, SnapshotBuildError>,
    ) -> (Build, Result<Option<BindingPicture>, SnapshotBuildError>) {
        let (budget, first) = self.budget.on_binding();
        let (budget, second) = if first is Ok {
            budget.on_owned_string(kind)
        } else {
            (budget, first)
        };
        let b = self.with_budget(budget);
        if second is Err {
            (b.back_to(self), Ok(None))
        } else {
            match b.owned_name(name) {
                (b, None) => (b.back_to(self), Ok(None)),
                (b, Some((name, name_truncated))) => {
                    let (budget, third) = b.budget.on_value();
                    let b = b.with_budget(budget);
                    if third is Err {
                        (b.back_to(self), Ok(None))
                    } else {
                        match value {
                            Err(error) => (b, Err(error)),
                            Ok(value) => match pictured(scene, value, 0, b) {
                                (b, Err(error)) => (b, Err(error)),
                                (b, Ok((value_kind, value))) => (
                                    b,
                                    Ok(
                                        Some(
                                            BindingPicture {
                                                binding_id,
                                                name,
                                                name_truncated,
                                                binding_kind: kind,
                                                value_kind,
                                                value,
                                            },
                                        ),
                                    ),
                                ),
                            },
                        }
                    }
                },
            }
        }
    }
}

/// Builds pictures of a machine's values.
pub struct Painter<'a> {
    pub vm: &'a VM,
    pub texts: &'a NumberTexts,
    pub limits: SnapshotLimits,
    pub budget: BuildBudget,
    pub ids: Vec<u64>,
    pub active: Vec<usize>,
    pub next_id: u64,
    pub numbers: Vec<u64>,
}

fn canonical_number(texts: &NumberTexts, bits: u64) -> (text: String)
    ensures
        text@ == canonical_text(*texts, bits),
{
    if is_nan_bits(bits) {
        "nan".to_owned()
    } else if bits == INFINITY_BITS {
        "infinity".to_owned()
    } else if bits == SIGN_BIT + INFINITY_BITS {
        "-infinity".to_owned()
    } else if bits == SIGN_BIT {
        "-0".to_owned()
    } else {
        texts.lookup(bits)
    }
}

impl<'a> Painter<'a> {
    pub open spec fn view(self) -> Build {
        Build {
            budget: self.budget,
            ids: self.ids@,
            active: self.active@,
            next_id: self.next_id,
            numbers: self.numbers@,
        }
    }

    pub open spec fn scene(self) -> Scene {
        Scene { heap: self.vm@.heap, texts: *self.texts, limits: self.limits }
    }

    pub open spec fn wf(self) -> bool {
        self.vm.wf() && self.ids@.len() == self.vm@.heap.objects.len()
    }

    /// The same machine is pictured, with the same limits.
    pub open spec fn same(self, other: Self) -> bool {
        self.vm == other.vm && self.texts == other.texts && self.limits == other.limits
    }

    /// Asks for room for a text.
    fn make_room(&mut self, text: &str) -> (admitted: bool)
        requires
            old(self).wf(),
        ensures
            final(self).wf(),
            final(self).same(*old(self)),
            final(self)@ == old(self)@.with_budget(old(self).budget.on_dynamic_string(text@).0),
            admitted == (old(self).budget.on_dynamic_string(text@).1 is Admitted),
    {
        matches!(self.budget.reserve_dynamic_string(text), DynamicStringAdmission::Admitted)
    }

    pub fn function_name(&self, function: usize) -> (name: Result<&'a str, SnapshotBuildError>)
        requires
            self.wf(),
        ensures
            match name {
                Ok(name) => checked_name(self.vm@.heap, function) == Ok::<
                    Seq<char>,
                    SnapshotBuildError,
                >(name@),
                Err(error) => checked_name(self.vm@.heap, function) == Err::<
                    Seq<char>,
                    SnapshotBuildError,
                >(error),
            },
    {
        let vm = self.vm;
        if function >= vm.heap.len() {
            return Err(SnapshotBuildError::ObjectState);
        }
        match vm.heap.get(function) {
            Object::Function(f) => match f.name {
                None => Ok("<script>"),
                Some(name) => {
                    if name >= vm.heap.len() {
                        return Err(SnapshotBuildError::ObjectState);
                    }
                    match vm.heap.get(name) {
                        Object::Text { text, hash: _ } => Ok(text.as_str()),
                        _ => Err(SnapshotBuildError::ObjectState),
                    }
                },
            },
            _ => Err(SnapshotBuildError::ObjectState),
        }
    }

    fn build_callable_name(&mut self, function: usize, closure: bool) -> (picture: Result<
        (ValueKind, DebugValue),
        SnapshotBuildError,
    >)
        requires
            old(self).wf(),
        ensures
            final(self).wf(),
            final(self).same(*old(self)),
            painted(
                picture,
                final(self)@,
                old(self)@.named(checked_name(old(self).vm@.heap, function), closure),
            ),
    {
        let name = match self.function_name(function) {
            Ok(name) => name,
            Err(error) => return Err(error),
        };
        if !self.make_room(name) {
            return Ok((ValueKind::Truncated, DebugValue::Truncated));
        }
        if closure {
            Ok((ValueKind::Closure, DebugValue::Closure(name.to_owned())))
        } else {
            Ok((ValueKind::Function, DebugValue::Function(name.to_owned())))
        }
    }

    fn is_active(&self, object: usize) -> (active: bool)
        ensures
            active == self@.active.contains(object),
    {
        let mut i: usize = 0;
        while i < self.active.len()
            invariant
                i <= self.active@.len(),
                forall|j: int| 0 <= j < i ==> self.active@[j] != object,
            decreases self.active@.len() - i,
        {
            if self.active[i] == object {
                return true;
            }
            i += 1;
        }
        false
    }

    pub fn build_value(&mut self, value: Value, depth: usize) -> (picture: Result<
        (ValueKind, DebugValue),
        SnapshotBuildError,
    >)
        requires
            old(self).wf(),
            depth <= old(self).limits.max_depth,
            old(self).limits.max_depth < 100,
        ensures
            final(self).wf(),
            final(self).same(*old(self)),
            painted(
                picture,
                final(self)@,
                pictured(old(self).scene(), value, depth as nat, old(self)@),
            ),
        decreases old(self).limits.max_depth + 1 - depth, 2int,
    {
        let vm = self.vm;
        match value {
            Value::Nil => Ok((ValueKind::Nil, DebugValue::Nil)),
            Value::Bool(value) => Ok((ValueKind::Bool, DebugValue::Bool(value))),
            Value::Number(bits) => {
                self.numbers.push(bits);
                let text = canonical_number(self.texts, bits);
                if self.make_room(text.as_str()) {
                    Ok((ValueKind::Number, DebugValue::Number(text)))
                } else {
                    Ok((ValueKind::Truncated, DebugValue::Truncated))
                }
            },
            Value::Obj(object) => {
                if object >= vm.heap.len() {
                    return Err(SnapshotBuildError::ObjectState);
                }
                match vm.heap.get(object) {
                    Object::Text { text, hash: _ } => if self.make_room(text.as_str()) {
                        Ok((ValueKind::String, DebugValue::String(text.clone())))
                    } else {
                        Ok((ValueKind::Truncated, DebugValue::Truncated))
                    },
                    Object::Function(_) => self.build_callable_name(object, false),
                    Object::Closure { function, upvalues: _ } => self.build_callable_name(
                        *function,
                        true,
                    ),
                    Object::Native => if self.make_room("clock") {
                        Ok((ValueKind::Native, DebugValue::Native("clock".to_owned())))
                    } else {
                        Ok((ValueKind::Truncated, DebugValue::Truncated))
                    },
                    Object::List(items) => {
                        let known: u64 = self.ids[object];
                        if known == 0 {
                            if self.next_id == u64::MAX {
                                return Err(SnapshotBuildError::ObjectIdExhausted);
                            }
                            let object_id: u64 = self.next_id;
                            self.next_id = object_id + 1;
                            self.ids.set(object, object_id);
                            self.expand_list(object, object_id, items, depth)
                        } else if self.is_active(object) {
                            Ok((ValueKind::Cycle, DebugValue::Cycle { object_id: known }))
                        } else {
                            self.expand_list(object, known, items, depth)
                        }
                    },
                    _ => Err(SnapshotBuildError::ObjectState),
                }
            },
        }
    }

    fn expand_list(
        &mut self,
        object: usize,
        object_id: u64,
        items: &'a Vec<Value>,
        depth: usize,
    ) -> (picture: Result<(ValueKind, DebugValue), SnapshotBuildError>)
        requires
            old(self).wf(),
            depth <= old(self).limits.max_depth,
            old(self).limits.max_depth < 100,
        ensures
            final(self).wf(),
            final(self).same(*old(self)),
            painted(
                picture,
                final(self)@,
                pictured_list(
                    old(self).scene(),
                    object,
                    object_id,
                    items@,
                    depth as nat,
                    old(self)@,
                ),
            ),
        decreases old(self).limits.max_depth + 1 - depth, 1int,
    {
        if depth >= self.limits.max_depth {
            let shown = DebugValue::List {
                object_id,
                items: Vec::new(),
                truncated: items.len() > 0,
            };
            return Ok((ValueKind::List, shown));
        }
        self.active.push(object);
        let ghost opened = self@;
        let ghost scene = self.scene();
        let mut shown: Vec<DebugValue> = Vec::new();
        let mut truncated = items.len() > self.limits.max_collection_items;
        let ghost cut = truncated;
        let ghost mut views: Seq<Shown> = Seq::empty();
        let mut index: usize = 0;
        loop
            invariant_except_break
                pictured_items(
                    scene,
                    items@,
                    index as int,
                    depth as nat,
                    self@,
                    views,
                    truncated,
                ) == pictured_items(scene, items@, 0, depth as nat, opened, Seq::empty(), cut),
            invariant
                self.wf(),
                self.same(*old(self)),
                scene == self.scene(),
                opened == (Build { active: old(self)@.active.push(object), ..old(self)@ }),
                cut == (items@.len() > self.limits.max_collection_items),
                depth < self.limits.max_depth < 100,
                index <= items@.len(),
                shown@.len() == views.len(),
                forall|n: int| 0 <= n < views.len() ==> shows(#[trigger] shown@[n], views[n]),
            ensures
                pictured_items(scene, items@, 0, depth as nat, opened, Seq::empty(), cut) == (
                    self@,
                    Ok::<(Seq<Shown>, bool), SnapshotBuildError>((views, truncated)),
                ),
            decreases items@.len() - index,
        {
            if index >= items.len() || index >= self.limits.max_collection_items {
                break;
            }
            if self.budget.reserve_value().is_err() {
                truncated = true;
                break;
            }
            let ghost goal = pictured(scene, items@[index as int], depth as nat + 1, self@);
            match self.build_value(items[index], depth + 1) {
                Err(error) => {
                    return Err(error);
                },
                Ok((_, value)) => {
                    if matches!(value, DebugValue::Truncated) {
                        truncated = true;
                    }
                    shown.push(value);
                    proof {
                        views = views.push(shown_in(goal));
                    }
                    if self.budget.is_exhausted() {
                        truncated = true;
                        break;
                    }
                    index += 1;
                },
            }
        }
        let ghost closing = self@;
        self.active.pop();
        assert(self@.active =~= without_last(closing.active));
        Ok((ValueKind::List, DebugValue::List { object_id, items: shown, truncated }))
    }
}

spec fn shown_in(goal: (Build, Picture)) -> Shown {
    match goal.1 {
        Ok((_, shown)) => shown,
        Err(_) => Shown::Truncated,
    }
}

/// What was painted is what the picture says.
pub open spec fn painted(
    picture: Result<(ValueKind, DebugValue), SnapshotBuildError>,
    after: Build,
    goal: (Build, Picture),
) -> bool {
    match (picture, goal.1) {
        (Ok((kind, value)), Ok((k, shown))) => kind == k && shows(value, shown) && after == goal.0,
        (Err(a), Err(b)) => a == b,
        _ => false,
    }
}

} // verus!
