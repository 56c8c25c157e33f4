//! The arrays a running program makes, and the ops that read and write
//! them.
//!
//! A reference names an object by its number. The heap holds, at each number
//! it has given out, the object's class (an index of the class table) and,
//! for an array, its elements; an object that is no array keeps its fields
//! with the runtime. The array ops load and store elements (a `null` array
//! throws `NullPointerException`, an index out of range
//! `ArrayIndexOutOfBoundsException`, a reference of the wrong class stored
//! in an object array `ArrayStoreException`), `arraylength` reads a length,
//! and `newarray`, `anewarray` and `multianewarray` make arrays of zeros or
//! `null`s of their array classes (a negative length throws
//! `NegativeArraySizeException`). `checkcast` and `instanceof` test an
//! object's class against a class of the table, and `athrow` throws an
//! object.
use vstd::prelude::*;

use crate::interpret::{
    below, builtin_class_name, dropped, has, room, int_at, prims, push_next, push_wide_next, spec_step,
    BuiltinException, Flow, Frame, SpecFrame,
};
use crate::descriptor::{Descriptor, PrimitiveType, SpecDescriptor};
use crate::hierarchy::{array_class_of, class_named, has_ancestor, spec_check_cast, table_wf, ClassTable, ElementType, SpecClass};
use crate::op::{ArrayType, MultiANewArrayInfo, Op};
use crate::value::{bits_of, int_of, int_value, object_of, Value};
use crate::string::JvmString;

verus! {

/// What the elements of an array are. A `boolean[]` is held as bytes.
#[derive(Clone, Copy, Debug, PartialEq, Eq, Structural)]
pub enum ArrayKind {
    Byte,
    Char,
    Double,
    Float,
    Int,
    Long,
    Short,
    Object,
}

/// An array: its kind and its elements.
pub struct ArrayObject {
    kind: ArrayKind,
    elements: Vec<Value>,
}

/// The value of an array.
pub struct SpecArray {
    pub kind: ArrayKind,
    pub elements: Seq<Value>,
}

impl View for ArrayObject {
    type V = SpecArray;

    closed spec fn view(&self) -> SpecArray {
        SpecArray { kind: self.kind, elements: self.elements@ }
    }
}

/// An object of the heap: its class, and its elements if it is an array.
pub struct HeapObject {
    class: usize,
    array: Option<ArrayObject>,
}

/// The value of an object of the heap.
pub struct SpecObject {
    pub class: usize,
    pub array: Option<SpecArray>,
}

/// The value of an object's elements.
pub open spec fn array_view(o: Option<ArrayObject>) -> Option<SpecArray> {
    match o {
        Some(a) => Some(a@),
        None => None,
    }
}

impl View for HeapObject {
    type V = SpecObject;

    closed spec fn view(&self) -> SpecObject {
        SpecObject { class: self.class, array: array_view(self.array) }
    }
}

/// The objects, by object number.
pub struct Heap {
    objects: Vec<HeapObject>,
}

impl View for Heap {
    type V = Seq<SpecObject>;

    closed spec fn view(&self) -> Seq<SpecObject> {
        self.objects@.map_values(|o: HeapObject| o@)
    }
}

// ---------------------------------------------------------------------------
// The meaning of the array ops
// ---------------------------------------------------------------------------

/// The kind of the arrays `newarray` makes for `t`.
pub open spec fn kind_of(t: ArrayType) -> ArrayKind {
    match t {
        ArrayType::Boolean | ArrayType::Byte => ArrayKind::Byte,
        ArrayType::Char => ArrayKind::Char,
        ArrayType::Float => ArrayKind::Float,
        ArrayType::Double => ArrayKind::Double,
        ArrayType::Short => ArrayKind::Short,
        ArrayType::Int => ArrayKind::Int,
        ArrayType::Long => ArrayKind::Long,
    }
}

/// The element kind an array load reads, and whether the element takes two
/// stack slots.
pub open spec fn array_load(op: Op) -> Option<(ArrayKind, bool)> {
    match op {
        Op::IaLoad => Some((ArrayKind::Int, false)),
        Op::LaLoad => Some((ArrayKind::Long, true)),
        Op::FaLoad => Some((ArrayKind::Float, false)),
        Op::DaLoad => Some((ArrayKind::Double, true)),
        Op::AaLoad => Some((ArrayKind::Object, false)),
        Op::BaLoad => Some((ArrayKind::Byte, false)),
        Op::CaLoad => Some((ArrayKind::Char, false)),
        Op::SaLoad => Some((ArrayKind::Short, false)),
        _ => None,
    }
}

/// The element kind an array store writes, and whether the value takes two
/// stack slots.
pub open spec fn array_store(op: Op) -> Option<(ArrayKind, bool)> {
    match op {
        Op::IaStore => Some((ArrayKind::Int, false)),
        Op::LaStore => Some((ArrayKind::Long, true)),
        Op::FaStore => Some((ArrayKind::Float, false)),
        Op::DaStore => Some((ArrayKind::Double, true)),
        Op::AaStore => Some((ArrayKind::Object, false)),
        Op::BaStore => Some((ArrayKind::Byte, false)),
        Op::CaStore => Some((ArrayKind::Char, false)),
        Op::SaStore => Some((ArrayKind::Short, false)),
        _ => None,
    }
}

/// What an element of kind `k` keeps of the value `v` stored in it: a byte,
/// `char` or `short` is cut to its width (and read back sign- or
/// zero-extended), a `float` to its 32 bits.
pub open spec fn stored(k: ArrayKind, v: Value) -> Value {
    match k {
        ArrayKind::Byte => int_value((int_of(v) as i8) as i32),
        ArrayKind::Char => int_value((int_of(v) as u16) as i32),
        ArrayKind::Short => int_value((int_of(v) as i16) as i32),
        ArrayKind::Int => int_value(int_of(v)),
        ArrayKind::Float => Value::Primitive((bits_of(v) as u32) as u64),
        ArrayKind::Long | ArrayKind::Double => Value::Primitive(bits_of(v)),
        ArrayKind::Object => Value::Reference(object_of(v)),
    }
}

/// The element a new array of kind `k` holds: zero, or `null`.
pub open spec fn zero(k: ArrayKind) -> Value {
    match k {
        ArrayKind::Object => Value::Reference(None),
        _ => Value::Primitive(0),
    }
}

/// Object `id` is an array of kind `k`.
pub open spec fn is_array(h: Seq<SpecObject>, id: u64, k: ArrayKind) -> bool {
    id < h.len() && h[id as int].array is Some && h[id as int].array->0.kind == k
}

/// The array `id` names.
pub open spec fn array_of(h: Seq<SpecObject>, id: u64) -> SpecArray {
    h[id as int].array->0
}

/// A frame step that leaves the heap as it is.
pub open spec fn keep_heap(r: Option<(SpecFrame, Flow)>, h: Seq<SpecObject>) -> Option<
    (SpecFrame, Seq<SpecObject>, Flow),
> {
    match r {
        Some((g, flow)) => Some((g, h, flow)),
        None => None,
    }
}

/// The op throws `e`, its `n` operands gone.
pub open spec fn throw(f: SpecFrame, n: int, h: Seq<SpecObject>, e: BuiltinException) -> Option<
    (SpecFrame, Seq<SpecObject>, Flow),
> {
    Some((dropped(f, n), h, Flow::Throw(e)))
}

/// The element index `i` is outside an array of `len` elements.
pub open spec fn out_of_range(i: i32, len: nat) -> bool {
    i < 0 || i >= len
}

/// An array load of kind `k`: the index on top, the array below it.
pub open spec fn load_element(f: SpecFrame, h: Seq<SpecObject>, k: ArrayKind, wide: bool) -> Option<
    (SpecFrame, Seq<SpecObject>, Flow),
> {
    if !(has(f, 2) && below(f, 1) is Primitive && below(f, 2) is Reference) {
        None
    } else {
        match object_of(below(f, 2)) {
            None => throw(f, 2, h, BuiltinException::NullPointerException),
            Some(id) => if !is_array(h, id, k) {
                None
            } else if out_of_range(int_at(f, 1), array_of(h, id).elements.len()) {
                throw(f, 2, h, BuiltinException::ArrayIndexOutOfBoundsException)
            } else {
                let v = array_of(h, id).elements[int_at(f, 1) as int];
                keep_heap(if wide { push_wide_next(dropped(f, 2), v) } else { push_next(dropped(f, 2), v) }, h)
            },
        }
    }
}

/// The depth of the value an array store writes.
pub open spec fn value_depth(wide: bool) -> int {
    if wide { 2 } else { 1 }
}

/// The number of operands of an array store.
pub open spec fn store_operands(wide: bool) -> int {
    if wide { 4 } else { 3 }
}

/// The value at depth `d` is of the kind an element of kind `k` takes.
pub open spec fn fits_kind(f: SpecFrame, d: int, k: ArrayKind) -> bool {
    if k == ArrayKind::Object {
        below(f, d) is Reference
    } else {
        below(f, d) is Primitive
    }
}

/// `h` with element `i` of array `id` set to `v`.
pub open spec fn with_element(h: Seq<SpecObject>, id: u64, i: int, v: Value) -> Seq<SpecObject> {
    h.update(
        id as int,
        SpecObject {
            array: Some(SpecArray { elements: array_of(h, id).elements.update(i, v), ..array_of(h, id) }),
            ..h[id as int]
        },
    )
}

/// Storing `v` in object array `id` has a defined outcome: the array's class
/// is an array class of references, and `v` is `null` or an object whose
/// class the table holds.
pub open spec fn store_defined(h: Seq<SpecObject>, t: Seq<SpecClass>, id: u64, v: Value) -> bool {
    &&& h[id as int].class < t.len()
    &&& t[h[id as int].class as int].array_value matches Some(ElementType::Reference(_))
    &&& match object_of(v) {
        None => true,
        Some(o) => o < h.len() && h[o as int].class < t.len(),
    }
}

/// An object array `id` may hold `v`: `v` is `null`, or its class casts to
/// the array's element class (the check `checkcast` makes).
pub open spec fn store_allowed(h: Seq<SpecObject>, t: Seq<SpecClass>, id: u64, v: Value) -> bool {
    match object_of(v) {
        None => true,
        Some(o) => match t[h[id as int].class as int].array_value {
            Some(ElementType::Reference(e)) => spec_check_cast(t, h[o as int].class as int, e as int),
            _ => false,
        },
    }
}

/// An array store of kind `k`: the value on top, the index below it, the
/// array below that. A reference stored in an object array must be of a
/// class the array's element class accepts, else `ArrayStoreException`.
pub open spec fn store_element(f: SpecFrame, h: Seq<SpecObject>, t: Seq<SpecClass>, k: ArrayKind, wide: bool) -> Option<
    (SpecFrame, Seq<SpecObject>, Flow),
> {
    let n = store_operands(wide);
    let d = value_depth(wide);
    if !(has(f, n) && fits_kind(f, d, k) && below(f, n - 1) is Primitive && below(f, n) is Reference) {
        None
    } else {
        match object_of(below(f, n)) {
            None => throw(f, n, h, BuiltinException::NullPointerException),
            Some(id) => if !is_array(h, id, k) {
                None
            } else if out_of_range(int_at(f, n - 1), array_of(h, id).elements.len()) {
                throw(f, n, h, BuiltinException::ArrayIndexOutOfBoundsException)
            } else if k == ArrayKind::Object && !store_defined(h, t, id, below(f, d)) {
                None
            } else if k == ArrayKind::Object && !store_allowed(h, t, id, below(f, d)) {
                throw(f, n, h, BuiltinException::ArrayStoreException)
            } else {
                let g = dropped(f, n);
                Some((
                    SpecFrame { ip: g.ip + 1, ..g },
                    with_element(h, id, int_at(f, n - 1) as int, stored(k, below(f, d))),
                    Flow::Continue,
                ))
            },
        }
    }
}

/// `arraylength`: the length of the array on top.
pub open spec fn array_length(f: SpecFrame, h: Seq<SpecObject>) -> Option<
    (SpecFrame, Seq<SpecObject>, Flow),
> {
    if !(has(f, 1) && below(f, 1) is Reference) {
        None
    } else {
        match object_of(below(f, 1)) {
            None => throw(f, 1, h, BuiltinException::NullPointerException),
            Some(id) => if id < h.len() && h[id as int].array is Some {
                keep_heap(push_next(dropped(f, 1), int_value(array_of(h, id).elements.len() as i32)), h)
            } else {
                None
            },
        }
    }
}

/// A new array of kind `k` and `len` elements, all zero or `null`.
pub open spec fn new_array_value(k: ArrayKind, len: nat) -> SpecArray {
    SpecArray { kind: k, elements: Seq::new(len, |_i: int| zero(k)) }
}

/// The element type of the arrays `newarray` makes for `t`.
pub open spec fn element_of(t: ArrayType) -> ElementType {
    ElementType::Primitive(
        match t {
            ArrayType::Boolean => PrimitiveType::Boolean,
            ArrayType::Byte => PrimitiveType::Byte,
            ArrayType::Char => PrimitiveType::Char,
            ArrayType::Float => PrimitiveType::Float,
            ArrayType::Double => PrimitiveType::Double,
            ArrayType::Short => PrimitiveType::Short,
            ArrayType::Int => PrimitiveType::Int,
            ArrayType::Long => PrimitiveType::Long,
        },
    )
}

/// The array class of element type `e`, where `e` is known.
pub open spec fn class_for(t: Seq<SpecClass>, e: Option<ElementType>) -> Option<usize> {
    match e {
        Some(e) => array_class_of(t, e),
        None => None,
    }
}

/// `newarray` or `anewarray`: a new array of kind `k` and element type `e`,
/// its length on top; it gets the next object number, and its class is the
/// array class of `e`. Where the element class or the array class is not in
/// the table yet, the runtime loads it first (the frame is left as it was).
pub open spec fn new_array(f: SpecFrame, h: Seq<SpecObject>, t: Seq<SpecClass>, k: ArrayKind, e: Option<ElementType>) -> Option<
    (SpecFrame, Seq<SpecObject>, Flow),
> {
    if !prims(f, 1, 1, 1) {
        None
    } else if int_at(f, 1) < 0 {
        throw(f, 1, h, BuiltinException::NegativeArraySizeException)
    } else {
        match class_for(t, e) {
            None => Some((f, h, Flow::Runtime)),
            Some(c) => match push_next(dropped(f, 1), Value::Reference(Some(h.len() as u64))) {
                Some((g, flow)) => Some(
                    (g, h.push(SpecObject { class: c, array: Some(new_array_value(k, int_at(f, 1) as nat)) }), flow),
                ),
                None => None,
            },
        }
    }
}

/// The element class `anewarray` names.
pub open spec fn named_element(t: Seq<SpecClass>, name: Seq<char>) -> Option<ElementType> {
    match class_named(t, name) {
        Some(c) => Some(ElementType::Reference(c)),
        None => None,
    }
}

/// The kind of the innermost arrays `multianewarray` makes for elements
/// `d`; `None` for `void`.
pub open spec fn innermost_kind(d: SpecDescriptor) -> Option<ArrayKind> {
    match d {
        SpecDescriptor::Class(_) | SpecDescriptor::Array(_) => Some(ArrayKind::Object),
        SpecDescriptor::Boolean | SpecDescriptor::Byte => Some(ArrayKind::Byte),
        SpecDescriptor::Character => Some(ArrayKind::Char),
        SpecDescriptor::Double => Some(ArrayKind::Double),
        SpecDescriptor::Float => Some(ArrayKind::Float),
        SpecDescriptor::Integer => Some(ArrayKind::Int),
        SpecDescriptor::Long => Some(ArrayKind::Long),
        SpecDescriptor::Short => Some(ArrayKind::Short),
        SpecDescriptor::Void => None,
    }
}

/// Reading the `n` dimensions from the top down, from depth `j + 1` on:
/// `None` where one is not a primitive; else the depth of the first
/// negative one, if there is one.
pub open spec fn scan_dimensions(f: SpecFrame, n: nat, j: nat) -> Option<Option<nat>>
    decreases n - j,
{
    if j >= n {
        Some(None)
    } else if !(below(f, (j + 1) as int) is Primitive) {
        None
    } else if int_at(f, (j + 1) as int) < 0 {
        Some(Some(j + 1))
    } else {
        scan_dimensions(f, n, j + 1)
    }
}

/// A scan that finds no negative dimension read only non-negative
/// primitives.
proof fn lemma_scan_finds_no_negative(f: SpecFrame, n: nat, j: nat)
    requires
        scan_dimensions(f, n, j) == Some(None::<nat>),
    ensures
        forall|d: int| j < d <= n ==> below(f, d) is Primitive && int_at(f, d) >= 0,
    decreases n - j,
{
    if j < n {
        lemma_scan_finds_no_negative(f, n, j + 1);
    }
}

/// The `n` dimensions on the stack, outermost (deepest) first.
pub open spec fn dimensions_of(f: SpecFrame, n: nat) -> Seq<usize> {
    Seq::new(n, |i: int| int_at(f, n - i) as usize)
}

/// `count` arrays made one after the other as `alloc_multi` makes them, and
/// references to them in that order.
pub open spec fn alloc_children(h: Seq<SpecObject>, cls: Seq<usize>, k: ArrayKind, dims: Seq<usize>, count: nat) -> (
    Seq<SpecObject>,
    Seq<Value>,
)
    decreases dims.len(), count,
{
    if count == 0 {
        (h, Seq::empty())
    } else {
        let (h1, refs) = alloc_children(h, cls, k, dims, (count - 1) as nat);
        let (h2, id) = alloc_multi(h1, cls, k, dims);
        (h2, refs.push(Value::Reference(Some(id))))
    }
}

/// The arrays `multianewarray` makes for dimensions `dims` (outermost
/// first), the classes of the levels in `cls` (innermost first): for one
/// dimension, an array of kind `k`; for more, the arrays of each element
/// first, then an array of references to them. The result is the heap
/// after, and the number of the outermost array.
pub open spec fn alloc_multi(h: Seq<SpecObject>, cls: Seq<usize>, k: ArrayKind, dims: Seq<usize>) -> (
    Seq<SpecObject>,
    u64,
)
    decreases dims.len(), 0nat,
{
    if dims.len() <= 1 {
        (h.push(SpecObject { class: cls.last(), array: Some(new_array_value(k, dims[0] as nat)) }), h.len() as u64)
    } else {
        let (h1, refs) = alloc_children(h, cls.drop_last(), k, dims.drop_first(), dims[0] as nat);
        (
            h1.push(SpecObject { class: cls.last(), array: Some(SpecArray { kind: ArrayKind::Object, elements: refs }) }),
            h1.len() as u64,
        )
    }
}

/// The kind of the innermost arrays for elements `c`.
pub open spec fn made_kind(c: SpecDescriptor) -> ArrayKind {
    match innermost_kind(c) {
        Some(k) => k,
        None => ArrayKind::Object,
    }
}

/// The element type descriptor `d` stands for in the class table: a class
/// by its name, an array type by the array class of its element type;
/// `None` for `void`, and where a class is not in the table yet.
pub open spec fn element_type_of(t: Seq<SpecClass>, d: SpecDescriptor) -> Option<ElementType>
    decreases d,
{
    match d {
        SpecDescriptor::Class(name) => named_element(t, name),
        SpecDescriptor::Array(inner) => match element_type_of(t, *inner) {
            Some(e) => match array_class_of(t, e) {
                Some(c) => Some(ElementType::Reference(c)),
                None => None,
            },
            None => None,
        },
        SpecDescriptor::Boolean => Some(ElementType::Primitive(PrimitiveType::Boolean)),
        SpecDescriptor::Byte => Some(ElementType::Primitive(PrimitiveType::Byte)),
        SpecDescriptor::Character => Some(ElementType::Primitive(PrimitiveType::Char)),
        SpecDescriptor::Double => Some(ElementType::Primitive(PrimitiveType::Double)),
        SpecDescriptor::Float => Some(ElementType::Primitive(PrimitiveType::Float)),
        SpecDescriptor::Integer => Some(ElementType::Primitive(PrimitiveType::Int)),
        SpecDescriptor::Long => Some(ElementType::Primitive(PrimitiveType::Long)),
        SpecDescriptor::Short => Some(ElementType::Primitive(PrimitiveType::Short)),
        SpecDescriptor::Void => None,
    }
}

/// The classes of the arrays of `n` dimensions of elements `e`, innermost
/// first: the array class of `e`, the array class of that, and so on; `None`
/// where one is not in the table yet.
pub open spec fn level_classes(t: Seq<SpecClass>, e: ElementType, n: nat) -> Option<Seq<usize>>
    decreases n,
{
    if n == 0 {
        Some(Seq::empty())
    } else {
        match level_classes(t, e, (n - 1) as nat) {
            None => None,
            Some(s) => {
                let inner = if s.len() == 0 {
                    e
                } else {
                    ElementType::Reference(s.last())
                };
                match array_class_of(t, inner) {
                    Some(c) => Some(s.push(c)),
                    None => None,
                }
            },
        }
    }
}

/// The classes of the levels of `multianewarray` of elements `c` and `n`
/// dimensions.
pub open spec fn multi_classes(t: Seq<SpecClass>, c: SpecDescriptor, n: nat) -> Option<Seq<usize>> {
    match element_type_of(t, c) {
        Some(e) => level_classes(t, e, n),
        None => None,
    }
}

/// `multianewarray` of elements `c` and `n` dimensions, the innermost on
/// top: a negative dimension throws `NegativeArraySizeException` with the
/// dimensions read up to it gone; else the arrays are made, each of the
/// array class of its level, and a reference to the outermost one pushed.
/// Where a class is not in the table yet, the runtime loads it first (the
/// frame is left as it was).
pub open spec fn multi_new_array(f: SpecFrame, h: Seq<SpecObject>, t: Seq<SpecClass>, c: SpecDescriptor, n: nat) -> Option<
    (SpecFrame, Seq<SpecObject>, Flow),
> {
    if n == 0 || !(has(f, n as int)) {
        None
    } else {
        match scan_dimensions(f, n, 0) {
            None => None,
            Some(Some(d)) => throw(f, d as int, h, BuiltinException::NegativeArraySizeException),
            Some(None) => match multi_classes(t, c, n) {
                None => Some((f, h, Flow::Runtime)),
                Some(cls) => {
                    let (h2, id) = alloc_multi(h, cls, made_kind(c), dimensions_of(f, n));
                    match push_next(dropped(f, n as int), Value::Reference(Some(id))) {
                        Some((g, flow)) => Some((g, h2, flow)),
                        None => None,
                    }
                },
            },
        }
    }
}

/// `checkcast` (`instance` false) or `instanceof` (`instance` true) of the
/// class named `name`, the reference on top: `instanceof` pushes `1` where
/// the reference is an object whose class casts to the named class, else
/// `0`; `checkcast` leaves a `null` or such a reference and goes on, and
/// throws `ClassCastException` for any other. Where the class is not in the
/// table yet, the runtime loads it first (the frame is left as it was).
pub open spec fn cast_test(f: SpecFrame, h: Seq<SpecObject>, t: Seq<SpecClass>, name: Seq<char>, instance: bool) -> Option<
    (SpecFrame, Seq<SpecObject>, Flow),
> {
    if !(has(f, 1) && below(f, 1) is Reference) {
        None
    } else {
        match class_named(t, name) {
            None => Some((f, h, Flow::Runtime)),
            Some(c) => match object_of(below(f, 1)) {
                None => if instance {
                    keep_heap(push_next(dropped(f, 1), int_value(0)), h)
                } else {
                    Some((SpecFrame { ip: f.ip + 1, ..f }, h, Flow::Continue))
                },
                Some(o) => if !(o < h.len() && h[o as int].class < t.len()) {
                    None
                } else if instance {
                    keep_heap(
                        push_next(
                            dropped(f, 1),
                            int_value(if spec_check_cast(t, h[o as int].class as int, c as int) { 1 } else { 0 }),
                        ),
                        h,
                    )
                } else if spec_check_cast(t, h[o as int].class as int, c as int) {
                    Some((SpecFrame { ip: f.ip + 1, ..f }, h, Flow::Continue))
                } else {
                    throw(f, 1, h, BuiltinException::ClassCastException)
                },
            },
        }
    }
}

/// `athrow`: a `null` on top throws `NullPointerException`; an object
/// whose class is `java/lang/Throwable` or a subclass of it is thrown.
/// `None` for an object of another class, where the runtime has no defined
/// behavior; where `Throwable` is not in the table yet, the runtime loads
/// it first.
pub open spec fn throw_object(f: SpecFrame, h: Seq<SpecObject>, t: Seq<SpecClass>) -> Option<
    (SpecFrame, Seq<SpecObject>, Flow),
> {
    if !(has(f, 1) && below(f, 1) is Reference) {
        None
    } else {
        match object_of(below(f, 1)) {
            None => throw(f, 1, h, BuiltinException::NullPointerException),
            Some(o) => match class_named(t, "java/lang/Throwable"@) {
                None => Some((f, h, Flow::Runtime)),
                Some(c) => if o < h.len() && h[o as int].class < t.len() && (h[o as int].class == c || has_ancestor(
                    t,
                    h[o as int].class as int,
                    c as int,
                )) {
                    Some((dropped(f, 1), h, Flow::ThrowObject(o)))
                } else {
                    None
                },
            },
        }
    }
}

/// What running `op` does to frame `f` and heap `h`, with the class table
/// `t`: the array ops as above, every other op as `spec_step` says, the heap
/// unchanged.
pub open spec fn spec_heap_step(f: SpecFrame, h: Seq<SpecObject>, t: Seq<SpecClass>, op: Op) -> Option<
    (SpecFrame, Seq<SpecObject>, Flow),
> {
    match array_load(op) {
        Some((k, wide)) => load_element(f, h, k, wide),
        None => match array_store(op) {
            Some((k, wide)) => store_element(f, h, t, k, wide),
            None => match op {
                Op::ArrayLength => array_length(f, h),
                Op::NewArray(at) => new_array(f, h, t, kind_of(at), Some(element_of(at))),
                Op::ANewArray(name) => new_array(f, h, t, ArrayKind::Object, named_element(t, name@)),
                Op::MultiANewArray(info) => multi_new_array(f, h, t, info.class@, info.dimensions as nat),
                Op::CheckCast(name) => cast_test(f, h, t, name@, false),
                Op::InstanceOf(name) => cast_test(f, h, t, name@, true),
                Op::AThrow => throw_object(f, h, t),
                _ => keep_heap(spec_step(f, op), h),
            },
        },
    }
}

/// Running at most `fuel` ops of `ops` from `f` and `h`, as `spec_run` does
/// with `spec_heap_step` in place of `spec_step`.
pub open spec fn spec_heap_run(f: SpecFrame, h: Seq<SpecObject>, t: Seq<SpecClass>, ops: Seq<Op>, fuel: nat) -> Option<
    (SpecFrame, Seq<SpecObject>, Option<Flow>),
>
    decreases fuel,
{
    if fuel == 0 {
        Some((f, h, None))
    } else if f.ip < 0 || f.ip >= ops.len() {
        None
    } else {
        match spec_heap_step(f, h, t, ops[f.ip]) {
            None => None,
            Some((g, h2, Flow::Continue)) => spec_heap_run(g, h2, t, ops, (fuel - 1) as nat),
            Some((g, h2, flow)) => Some((g, h2, Some(flow))),
        }
    }
}


// ---------------------------------------------------------------------------
// Laws of the array ops
// ---------------------------------------------------------------------------

/// The heap after a step.
pub open spec fn heap_after(r: Option<(SpecFrame, Seq<SpecObject>, Flow)>) -> Seq<SpecObject> {
    match r {
        Some((_, h, _)) => h,
        None => Seq::empty(),
    }
}

/// The step goes on to the next op.
pub open spec fn continues(r: Option<(SpecFrame, Seq<SpecObject>, Flow)>) -> bool {
    r matches Some((_, _, Flow::Continue))
}

/// The element kind of an array store.
pub open spec fn store_kind(op: Op) -> ArrayKind {
    match array_store(op) {
        Some((k, _)) => k,
        None => ArrayKind::Object,
    }
}

/// The operands of an array store.
pub open spec fn operands_of(op: Op) -> int {
    match array_store(op) {
        Some((_, wide)) => store_operands(wide),
        None => 0,
    }
}

/// The same object: of the same class, and an array of the same kind and
/// length or no array at all.
pub open spec fn same_shape(a: SpecObject, b: SpecObject) -> bool {
    &&& a.class == b.class
    &&& match (a.array, b.array) {
        (Some(x), Some(y)) => x.kind == y.kind && x.elements.len() == y.elements.len(),
        (None, None) => true,
        _ => false,
    }
}

/// Making arrays only adds object numbers: what the numbers given out
/// before name stays as it was.
proof fn lemma_alloc_multi_extends(h: Seq<SpecObject>, cls: Seq<usize>, k: ArrayKind, dims: Seq<usize>)
    ensures
        h.len() < alloc_multi(h, cls, k, dims).0.len(),
        forall|id: int| 0 <= id < h.len() ==> #[trigger] alloc_multi(h, cls, k, dims).0[id] == h[id],
    decreases dims.len(), 0nat,
{
    if dims.len() > 1 {
        lemma_alloc_children_extends(h, cls.drop_last(), k, dims.drop_first(), dims[0] as nat);
    }
}

/// The children `alloc_children` makes only add object numbers.
proof fn lemma_alloc_children_extends(h: Seq<SpecObject>, cls: Seq<usize>, k: ArrayKind, dims: Seq<usize>, count: nat)
    ensures
        h.len() <= alloc_children(h, cls, k, dims, count).0.len(),
        forall|id: int| 0 <= id < h.len() ==> #[trigger] alloc_children(h, cls, k, dims, count).0[id] == h[id],
    decreases dims.len(), count,
{
    if count > 0 {
        lemma_alloc_children_extends(h, cls, k, dims, (count - 1) as nat);
        let h1 = alloc_children(h, cls, k, dims, (count - 1) as nat).0;
        lemma_alloc_multi_extends(h1, cls, k, dims);
    }
}

/// Object `id` is an array of the shape `multianewarray` makes for
/// dimensions `dims`, its levels of the classes `cls` (innermost first): of
/// the outermost level's class, with as many elements as the first
/// dimension; for one dimension of kind `k`, for more references to arrays
/// of the shape of the remaining dimensions.
pub open spec fn has_shape(h: Seq<SpecObject>, id: u64, cls: Seq<usize>, k: ArrayKind, dims: Seq<usize>) -> bool
    decreases dims.len(),
{
    &&& dims.len() >= 1
    &&& cls.len() == dims.len()
    &&& id < h.len()
    &&& h[id as int].class == cls.last()
    &&& h[id as int].array is Some
    &&& array_of(h, id).elements.len() == dims[0]
    &&& if dims.len() == 1 {
        array_of(h, id).kind == k
    } else {
        &&& array_of(h, id).kind == ArrayKind::Object
        &&& forall|i: int|
            0 <= i < dims[0] ==> {
                let e = #[trigger] array_of(h, id).elements[i];
                &&& e matches Value::Reference(Some(c))
                &&& has_shape(h, c, cls.drop_last(), k, dims.drop_first())
            }
    }
}

/// A shape stays when the heap only grows.
proof fn lemma_shape_extends(h: Seq<SpecObject>, h2: Seq<SpecObject>, id: u64, cls: Seq<usize>, k: ArrayKind, dims: Seq<usize>)
    requires
        has_shape(h, id, cls, k, dims),
        h.len() <= h2.len(),
        forall|j: int| 0 <= j < h.len() ==> #[trigger] h2[j] == h[j],
    ensures
        has_shape(h2, id, cls, k, dims),
    decreases dims.len(),
{
    assert(h2[id as int] == h[id as int]);
    if dims.len() > 1 {
        assert forall|i: int| 0 <= i < dims[0] implies {
            let e = #[trigger] array_of(h2, id).elements[i];
            &&& e matches Value::Reference(Some(c))
            &&& has_shape(h2, c, cls.drop_last(), k, dims.drop_first())
        } by {
            let e = array_of(h, id).elements[i];
            if let Value::Reference(Some(c)) = e {
                lemma_shape_extends(h, h2, c, cls.drop_last(), k, dims.drop_first());
            }
        }
    }
}

/// The outermost array `alloc_multi` makes has the shape of its dimensions
/// (where every object number fits in 64 bits).
proof fn lemma_alloc_multi_shape(h: Seq<SpecObject>, cls: Seq<usize>, k: ArrayKind, dims: Seq<usize>)
    requires
        dims.len() >= 1,
        cls.len() == dims.len(),
        alloc_multi(h, cls, k, dims).0.len() <= u64::MAX,
    ensures
        has_shape(alloc_multi(h, cls, k, dims).0, alloc_multi(h, cls, k, dims).1, cls, k, dims),
    decreases dims.len(), 0nat,
{
    if dims.len() > 1 {
        let rest = dims.drop_first();
        let (h1, refs) = alloc_children(h, cls.drop_last(), k, rest, dims[0] as nat);
        lemma_alloc_children_shapes(h, cls.drop_last(), k, rest, dims[0] as nat);
        let h2 = alloc_multi(h, cls, k, dims).0;
        let id = alloc_multi(h, cls, k, dims).1;
        assert forall|i: int| 0 <= i < dims[0] implies {
            let e = #[trigger] array_of(h2, id).elements[i];
            &&& e matches Value::Reference(Some(c))
            &&& has_shape(h2, c, cls.drop_last(), k, dims.drop_first())
        } by {
            if let Value::Reference(Some(c)) = refs[i] {
                lemma_shape_extends(h1, h2, c, cls.drop_last(), k, rest);
            }
        }
    }
}

/// Each array `alloc_children` makes has the shape of the dimensions, and
/// the references come in the order they were made.
proof fn lemma_alloc_children_shapes(h: Seq<SpecObject>, cls: Seq<usize>, k: ArrayKind, dims: Seq<usize>, count: nat)
    requires
        dims.len() >= 1,
        cls.len() == dims.len(),
        alloc_children(h, cls, k, dims, count).0.len() <= u64::MAX,
    ensures
        ({
            let (h1, refs) = alloc_children(h, cls, k, dims, count);
            &&& refs.len() == count
            &&& forall|i: int|
                0 <= i < count ==> {
                    let e = #[trigger] refs[i];
                    &&& e matches Value::Reference(Some(c))
                    &&& has_shape(h1, c, cls, k, dims)
                }
        }),
    decreases dims.len(), count,
{
    if count > 0 {
        let (hp, rp) = alloc_children(h, cls, k, dims, (count - 1) as nat);
        let (h1, id) = alloc_multi(hp, cls, k, dims);
        lemma_alloc_multi_extends(hp, cls, k, dims);
        lemma_alloc_children_shapes(h, cls, k, dims, (count - 1) as nat);
        lemma_alloc_multi_shape(hp, cls, k, dims);
        let refs = rp.push(Value::Reference(Some(id)));
        assert forall|i: int| 0 <= i < count implies {
            let e = #[trigger] refs[i];
            &&& e matches Value::Reference(Some(c))
            &&& has_shape(h1, c, cls, k, dims)
        } by {
            if i < count - 1 {
                if let Value::Reference(Some(c)) = rp[i] {
                    lemma_shape_extends(hp, h1, c, cls, k, dims);
                }
            }
        }
    }
}

/// The classes `level_classes` finds: one for each level, each the array
/// class of the one inside it (the innermost that of `e`).
pub proof fn lemma_level_classes(t: Seq<SpecClass>, e: ElementType, n: nat)
    requires
        t.len() <= usize::MAX,
        level_classes(t, e, n) is Some,
    ensures
        ({
            let cls = level_classes(t, e, n)->0;
            &&& cls.len() == n
            &&& forall|i: int|
                0 <= i < n ==> #[trigger] cls[i] < t.len() && t[cls[i] as int].array_value == Some(
                    if i == 0 {
                        e
                    } else {
                        ElementType::Reference(cls[i - 1])
                    },
                )
        }),
    decreases n,
{
    if n > 0 {
        lemma_level_classes(t, e, (n - 1) as nat);
        let s = level_classes(t, e, (n - 1) as nat)->0;
        let inner = if s.len() == 0 {
            e
        } else {
            ElementType::Reference(s.last())
        };
        crate::hierarchy::lemma_first_array_class(t, inner, 0);
    }
}

/// The frame after a step.
pub open spec fn frame_after(r: Option<(SpecFrame, Seq<SpecObject>, Flow)>) -> SpecFrame {
    match r {
        Some((g, _, _)) => g,
        None => SpecFrame { slots: Seq::empty(), local_count: 0, top: 0, ip: 0 },
    }
}

/// `multianewarray` with the dimensions `d1`, …, `dn` on the stack
/// (outermost first) that goes on pushes a reference to an array of `d1`
/// elements, each of which (for more than one dimension) is a reference to
/// an array of the shape of `d2`, …, `dn`; the innermost arrays are of the
/// kind of the element type; and each level's array is of that level's
/// class: the innermost of the array class of the element type, each other
/// of the array class of the level inside it (where every object number
/// fits in 64 bits).
pub proof fn lemma_multi_new_array_shape(f: SpecFrame, h: Seq<SpecObject>, t: Seq<SpecClass>, op: Op)
    requires
        op is MultiANewArray,
        continues(spec_heap_step(f, h, t, op)),
        heap_after(spec_heap_step(f, h, t, op)).len() <= u64::MAX,
    ensures
        ({
            let info = op->MultiANewArray_0;
            let n = info.dimensions as nat;
            let g = frame_after(spec_heap_step(f, h, t, op));
            let h2 = heap_after(spec_heap_step(f, h, t, op));
            &&& multi_classes(t, info.class@, n) matches Some(cls)
            &&& below(g, 1) matches Value::Reference(Some(id))
            &&& has_shape(h2, id, cls, made_kind(info.class@), dimensions_of(f, n))
            &&& cls == level_classes(t, element_type_of(t, info.class@)->0, n)->0
        }),
{
    let info = op->MultiANewArray_0;
    let n = info.dimensions as nat;
    let cls = multi_classes(t, info.class@, n)->0;
    lemma_level_classes_len(t, element_type_of(t, info.class@)->0, n);
    lemma_alloc_multi_shape(h, cls, made_kind(info.class@), dimensions_of(f, n));
}

/// `level_classes` finds one class for each level.
proof fn lemma_level_classes_len(t: Seq<SpecClass>, e: ElementType, n: nat)
    ensures
        level_classes(t, e, n) matches Some(cls) ==> cls.len() == n,
    decreases n,
{
    if n > 0 {
        lemma_level_classes_len(t, e, (n - 1) as nat);
    }
}

/// No op takes an object number back or changes what it names: every
/// object keeps its class, every array its kind and length, and an object
/// that is no array stays none. Only `newarray`, `anewarray` and
/// `multianewarray` add numbers.
pub proof fn lemma_step_keeps_array_shapes(f: SpecFrame, h: Seq<SpecObject>, t: Seq<SpecClass>, op: Op)
    requires
        spec_heap_step(f, h, t, op) is Some,
    ensures
        ({
            let h2 = heap_after(spec_heap_step(f, h, t, op));
            &&& h.len() <= h2.len()
            &&& !(op is NewArray || op is ANewArray || op is MultiANewArray) ==> h2.len() == h.len()
            &&& forall|id: int| 0 <= id < h.len() ==> #[trigger] same_shape(h[id], h2[id])
        }),
{
    match op {
        Op::MultiANewArray(info) => {
            let n = info.dimensions as nat;
            if scan_dimensions(f, n, 0) == Some(None::<nat>) {
                if let Some(cls) = multi_classes(t, info.class@, n) {
                    lemma_alloc_multi_extends(h, cls, made_kind(info.class@), dimensions_of(f, n));
                }
            }
        },
        _ => {},
    }
}

/// A load of an element after a store to it reads back what the element
/// keeps of the stored value (the value itself for an `int`, `long`,
/// `double` or reference element; cut to its width for the others).
pub proof fn lemma_load_after_store(f: SpecFrame, h: Seq<SpecObject>, t: Seq<SpecClass>, store_op: Op, load_op: Op, f2: SpecFrame)
    requires
        array_store(store_op) is Some,
        array_load(load_op) == array_store(store_op),
        spec_heap_step(f, h, t, store_op) is Some,
        continues(spec_heap_step(f, h, t, store_op)),
        has(f2, 2),
        below(f2, 1) == below(f, operands_of(store_op) - 1),
        below(f2, 2) == below(f, operands_of(store_op)),
    ensures
        ({
            let (k, wide) = array_store(store_op).unwrap();
            let h2 = heap_after(spec_heap_step(f, h, t, store_op));
            let v = stored(k, below(f, value_depth(wide)));
            spec_heap_step(f2, h2, t, load_op) == keep_heap(
                if wide { push_wide_next(dropped(f2, 2), v) } else { push_next(dropped(f2, 2), v) },
                h2,
            )
        }),
{
}

/// A store leaves every other element of every array as it was.
pub proof fn lemma_store_keeps_other_elements(f: SpecFrame, h: Seq<SpecObject>, t: Seq<SpecClass>, op: Op, id: u64, j: int)
    requires
        array_store(op) is Some,
        spec_heap_step(f, h, t, op) is Some,
        continues(spec_heap_step(f, h, t, op)),
        is_array(h, id, store_kind(op)),
        0 <= j < array_of(h, id).elements.len(),
        object_of(below(f, operands_of(op))) != Some(id) || int_at(f, operands_of(op) - 1) != j,
    ensures
        array_of(heap_after(spec_heap_step(f, h, t, op)), id).elements[j] == array_of(h, id).elements[j],
{
}

/// A reference stored in an object array is `null` or of a class that casts
/// to the array's element class; a store of another throws
/// `ArrayStoreException` and changes nothing.
pub proof fn lemma_object_store_checks_class(f: SpecFrame, h: Seq<SpecObject>, t: Seq<SpecClass>)
    requires
        spec_heap_step(f, h, t, Op::AaStore) is Some,
        has(f, 3),
        below(f, 3) matches Value::Reference(Some(id)) && is_array(h, id, ArrayKind::Object),
        !out_of_range(int_at(f, 2), array_of(h, object_of(below(f, 3))->0).elements.len()),
    ensures
        ({
            let id = object_of(below(f, 3))->0;
            let r = spec_heap_step(f, h, t, Op::AaStore);
            &&& continues(r) <==> store_allowed(h, t, id, below(f, 1))
            &&& !continues(r) ==> r == Some((dropped(f, 3), h, Flow::Throw(BuiltinException::ArrayStoreException)))
        }),
{
}

/// `instanceof` gives `1` for an object exactly where `checkcast` to the
/// same class lets it through, and `0` exactly where `checkcast` throws
/// `ClassCastException`.
pub proof fn lemma_instanceof_agrees_with_checkcast(f: SpecFrame, h: Seq<SpecObject>, t: Seq<SpecClass>, cast: Op, test: Op)
    requires
        cast matches Op::CheckCast(a) && test matches Op::InstanceOf(b) && a@ == b@,
        spec_heap_step(f, h, t, cast) is Some,
        has(f, 1),
        below(f, 1) matches Value::Reference(Some(_)),
        class_named(t, cast->CheckCast_0@) is Some,
    ensures
        continues(spec_heap_step(f, h, t, cast)) <==> spec_heap_step(f, h, t, test) == keep_heap(
            push_next(dropped(f, 1), int_value(1)),
            h,
        ),
        !continues(spec_heap_step(f, h, t, cast)) <==> spec_heap_step(f, h, t, test) == keep_heap(
            push_next(dropped(f, 1), int_value(0)),
            h,
        ),
{
    let g = dropped(f, 1);
    let one = crate::interpret::pushed(g, int_value(1));
    let zero_frame = crate::interpret::pushed(g, int_value(0));
    assert(int_value(1) != int_value(0));
    assert(one.slots[g.top] != zero_frame.slots[g.top]);
    assert(one != zero_frame);
}

/// `arraylength` on an array just made by `newarray` or `anewarray` of
/// length `n` gives `n`; each of its elements is zero or `null`; and its
/// class is the array class of its element type.
pub proof fn lemma_new_array_length(f: SpecFrame, h: Seq<SpecObject>, t: Seq<SpecClass>, op: Op, f2: SpecFrame)
    requires
        op is NewArray || op is ANewArray,
        spec_heap_step(f, h, t, op) is Some,
        continues(spec_heap_step(f, h, t, op)),
        h.len() < u64::MAX,
        has(f2, 1),
        below(f2, 1) == Value::Reference(Some(h.len() as u64)),
    ensures
        ({
            let h2 = heap_after(spec_heap_step(f, h, t, op));
            let k = if op is NewArray { kind_of(op->NewArray_0) } else { ArrayKind::Object };
            let e = if op is NewArray { Some(element_of(op->NewArray_0)) } else { named_element(t, op->ANewArray_0@) };
            &&& spec_heap_step(f2, h2, t, Op::ArrayLength) == keep_heap(push_next(dropped(f2, 1), int_value(int_at(f, 1))), h2)
            &&& forall|i: int| 0 <= i < int_at(f, 1) ==> #[trigger] array_of(h2, h.len() as u64).elements[i] == zero(k)
            &&& Some(h2[h.len() as int].class) == class_for(t, e)
        }),
{
    let n = int_at(f, 1);
    assert(n >= 0 ==> ((n as nat) as i32) == n);
    assert((h.len() as u64) as int == h.len());
}

// ---------------------------------------------------------------------------
// The heap
// ---------------------------------------------------------------------------

impl ArrayObject {
    /// The array's kind.
    pub fn kind(&self) -> (res: ArrayKind)
        ensures
            res == self@.kind,
    {
        self.kind
    }

    /// The number of elements.
    pub fn len(&self) -> (res: usize)
        ensures
            res == self@.elements.len(),
    {
        self.elements.len()
    }

    /// Element `i`.
    pub fn get(&self, i: usize) -> (res: Value)
        requires
            i < self@.elements.len(),
        ensures
            res == self@.elements[i as int],
    {
        self.elements[i]
    }
}

impl Heap {
    /// A heap with no objects.
    pub fn new() -> (res: Heap)
        ensures
            res@ == Seq::<SpecObject>::empty(),
    {
        let res = Heap { objects: Vec::new() };
        assert(res@ =~= Seq::<SpecObject>::empty());
        res
    }

    /// The number of object numbers given out.
    pub fn len(&self) -> (res: usize)
        ensures
            res == self@.len(),
    {
        self.objects.len()
    }

    /// Takes the next object number for an object of class `class` that is
    /// no array; the runtime holds its fields.
    pub fn reserve(&mut self, class: usize) -> (id: u64)
        ensures
            id == old(self)@.len(),
            final(self)@ == old(self)@.push(SpecObject { class, array: None }),
    {
        let id = self.objects.len() as u64;
        let o = HeapObject { class, array: None };
        self.objects.push(o);
        assert(self@ =~= old(self)@.push(SpecObject { class, array: None }));
        id
    }

    /// Makes the object a builtin exception is thrown as: the next object
    /// number, for an object of the class the table names for the
    /// exception; `None`, the heap as it was, where the table has no class
    /// of that name.
    pub fn new_exception(&mut self, classes: &ClassTable, e: BuiltinException) -> (res: Option<u64>)
        ensures
            match class_named(classes@, builtin_class_name(e)) {
                Some(c) => res == Some(old(self)@.len() as u64) && final(self)@ == old(self)@.push(
                    SpecObject { class: c, array: None },
                ),
                None => res is None && final(self)@ == old(self)@,
            },
    {
        let name = JvmString::from_str(e.class_name());
        match classes.find_class(&name) {
            Some(c) => Some(self.reserve(c)),
            None => None,
        }
    }

    /// The class of object `id`.
    pub fn class_of(&self, id: u64) -> (res: usize)
        requires
            id < self@.len(),
        ensures
            res == self@[id as int].class,
    {
        let n = self.objects.len();
        assert(n == self@.len());
        assert(self.objects@[id as int]@ == self@[id as int]);
        self.objects[id as usize].class
    }

    /// The array object `id` names, if it names one.
    pub fn array(&self, id: u64) -> (res: Option<&ArrayObject>)
        ensures
            match res {
                Some(a) => id < self@.len() && self@[id as int].array == Some(a@),
                None => !(id < self@.len() && self@[id as int].array is Some),
            },
    {
        let n = self.objects.len();
        assert(n == self@.len());
        if id >= n as u64 {
            return None;
        }
        assert(self.objects@[id as int]@ == self@[id as int]);
        match &self.objects[id as usize].array {
            Some(a) => Some(a),
            None => None,
        }
    }

    /// Makes an array of class `class`, kind `kind` and `len` elements, all
    /// zero or `null`; it gets the next object number.
    pub fn allocate(&mut self, kind: ArrayKind, class: usize, len: usize) -> (id: u64)
        ensures
            id == old(self)@.len(),
            final(self)@ == old(self)@.push(SpecObject { class, array: Some(new_array_value(kind, len as nat)) }),
    {
        let z = match kind {
            ArrayKind::Object => Value::Object(None),
            _ => Value::Primitive(0),
        };
        let mut elements: Vec<Value> = Vec::new();
        let mut k: usize = 0;
        while k < len
            invariant
                k <= len,
                z == zero(kind),
                elements@ =~= Seq::new(k as nat, |_i: int| zero(kind)),
            decreases len - k,
        {
            elements.push(z);
            k = k + 1;
        }
        let id = self.objects.len() as u64;
        let a = ArrayObject { kind, elements };
        assert(a@ == new_array_value(kind, len as nat));
        let o = HeapObject { class, array: Some(a) };
        self.objects.push(o);
        assert(self@ =~= old(self)@.push(SpecObject { class, array: Some(new_array_value(kind, len as nat)) }));
        id
    }

    /// Sets element `i` of array `id` to `v`.
    pub(crate) fn set_element(&mut self, id: u64, i: usize, v: Value)
        requires
            id < old(self)@.len(),
            old(self)@[id as int].array is Some,
            i < array_of(old(self)@, id).elements.len(),
        ensures
            final(self)@ == with_element(old(self)@, id, i as int, v),
    {
        let n = self.objects.len();
        assert(n == self@.len());
        assert(self.objects@[id as int]@ == self@[id as int]);
        let idx = id as usize;
        let ghost pre = self.objects@;
        let mut slot = HeapObject { class: 0, array: None };
        self.objects.set_and_swap(idx, &mut slot);
        assert(slot == pre[id as int]);
        assert(slot@ == old(self)@[id as int]);
        let class = slot.class;
        match slot.array {
            Some(mut a) => {
                assert(a@ == array_of(old(self)@, id));
                a.elements.set(i, v);
                let o = HeapObject { class, array: Some(a) };
                self.objects.set(idx, o);
                assert(self@ =~= with_element(old(self)@, id, i as int, v));
            },
            None => {},
        }
    }
}

impl Heap {
    /// Makes the arrays of `multianewarray` for the dimensions `dims` from
    /// `from` on, the classes of the levels in `cls` (innermost first; see
    /// `alloc_multi`); gives the outermost one's number.
    fn allocate_multi(&mut self, kind: ArrayKind, cls: &[usize], dims: &[usize], from: usize) -> (id: u64)
        requires
            from < dims@.len(),
            cls@.len() == dims@.len(),
        ensures
            (final(self)@, id) == alloc_multi(
                old(self)@,
                cls@.take(dims@.len() - from),
                kind,
                dims@.skip(from as int),
            ),
        decreases dims@.len() - from, 0nat,
    {
        let len = dims.len();
        let ghost levels = cls@.take(len - from);
        if from + 1 == len {
            let id = self.allocate(kind, cls[len - 1 - from], dims[from]);
            return id;
        }
        let ghost rest = dims@.skip(from + 1);
        assert(dims@.skip(from as int).drop_first() =~= rest);
        assert(levels.drop_last() =~= cls@.take(len - (from + 1)));
        let count = dims[from];
        let mut refs: Vec<Value> = Vec::new();
        let mut i: usize = 0;
        assert(self@ == alloc_children(old(self)@, levels.drop_last(), kind, rest, 0).0);
        while i < count
            invariant
                from + 1 < dims@.len(),
                len == dims@.len(),
                cls@.len() == dims@.len(),
                rest == dims@.skip(from + 1),
                levels.drop_last() == cls@.take(len - (from + 1)),
                i <= count,
                (self@, refs@) == alloc_children(old(self)@, levels.drop_last(), kind, rest, i as nat),
            decreases count - i,
        {
            let c = self.allocate_multi(kind, cls, dims, from + 1);
            refs.push(Value::Object(Some(c)));
            i = i + 1;
        }
        let id = self.objects.len() as u64;
        let a = ArrayObject { kind: ArrayKind::Object, elements: refs };
        let ghost before = self@;
        let o = HeapObject { class: cls[len - 1 - from], array: Some(a) };
        self.objects.push(o);
        assert(self@ =~= before.push(
            SpecObject { class: levels.last(), array: Some(SpecArray { kind: ArrayKind::Object, elements: refs@ }) },
        ));
        id
    }
}

/// The kind of the innermost arrays `multianewarray` makes for elements
/// `d`; `None` for `void`.
fn innermost_kind_of(d: &Descriptor) -> (res: Option<ArrayKind>)
    ensures
        res == innermost_kind(d@),
{
    match d {
        Descriptor::Class(_) | Descriptor::Array(_) => Some(ArrayKind::Object),
        Descriptor::Boolean | Descriptor::Byte => Some(ArrayKind::Byte),
        Descriptor::Character => Some(ArrayKind::Char),
        Descriptor::Double => Some(ArrayKind::Double),
        Descriptor::Float => Some(ArrayKind::Float),
        Descriptor::Integer => Some(ArrayKind::Int),
        Descriptor::Long => Some(ArrayKind::Long),
        Descriptor::Short => Some(ArrayKind::Short),
        Descriptor::Void => None,
    }
}

/// The element type descriptor `d` stands for in `classes` (see
/// `element_type_of`).
fn element_type_in(classes: &ClassTable, d: &Descriptor) -> (res: Option<ElementType>)
    ensures
        res == element_type_of(classes@, d@),
    decreases d,
{
    match d {
        Descriptor::Class(name) => match classes.find_class(name) {
            Some(c) => Some(ElementType::Reference(c)),
            None => None,
        },
        Descriptor::Array(inner) => match element_type_in(classes, inner) {
            Some(e) => match classes.find_array_class(e) {
                Some(c) => Some(ElementType::Reference(c)),
                None => None,
            },
            None => None,
        },
        Descriptor::Boolean => Some(ElementType::Primitive(PrimitiveType::Boolean)),
        Descriptor::Byte => Some(ElementType::Primitive(PrimitiveType::Byte)),
        Descriptor::Character => Some(ElementType::Primitive(PrimitiveType::Char)),
        Descriptor::Double => Some(ElementType::Primitive(PrimitiveType::Double)),
        Descriptor::Float => Some(ElementType::Primitive(PrimitiveType::Float)),
        Descriptor::Integer => Some(ElementType::Primitive(PrimitiveType::Int)),
        Descriptor::Long => Some(ElementType::Primitive(PrimitiveType::Long)),
        Descriptor::Short => Some(ElementType::Primitive(PrimitiveType::Short)),
        Descriptor::Void => None,
    }
}

/// The classes of the levels of arrays of `n` dimensions of elements `e`,
/// innermost first (see `level_classes`).
fn level_classes_in(classes: &ClassTable, e: ElementType, n: usize) -> (res: Option<Vec<usize>>)
    ensures
        match res {
            Some(v) => level_classes(classes@, e, n as nat) == Some(v@),
            None => level_classes(classes@, e, n as nat) is None,
        },
{
    let mut v: Vec<usize> = Vec::new();
    let mut k: usize = 0;
    while k < n
        invariant
            k <= n,
            level_classes(classes@, e, k as nat) == Some(v@),
            forall|m: nat| k <= m <= n && level_classes(classes@, e, k as nat) is None ==> #[trigger] level_classes(classes@, e, m) is None,
        decreases n - k,
    {
        let inner = if v.len() == 0 {
            e
        } else {
            ElementType::Reference(v[v.len() - 1])
        };
        match classes.find_array_class(inner) {
            Some(c) => v.push(c),
            None => {
                proof {
                    lemma_level_classes_stay_none(classes@, e, (k + 1) as nat, n as nat);
                }
                return None;
            },
        }
        k = k + 1;
    }
    Some(v)
}

/// Once a level's class is missing, so are all further levels'.
proof fn lemma_level_classes_stay_none(t: Seq<SpecClass>, e: ElementType, k: nat, m: nat)
    requires
        k <= m,
        level_classes(t, e, k) is None,
    ensures
        level_classes(t, e, m) is None,
    decreases m - k,
{
    if k < m {
        lemma_level_classes_stay_none(t, e, k, (m - 1) as nat);
    }
}

/// The element type of the arrays `newarray` makes for `t`.
fn element_for(t: ArrayType) -> (res: ElementType)
    ensures
        res == element_of(t),
{
    ElementType::Primitive(
        match t {
            ArrayType::Boolean => PrimitiveType::Boolean,
            ArrayType::Byte => PrimitiveType::Byte,
            ArrayType::Char => PrimitiveType::Char,
            ArrayType::Float => PrimitiveType::Float,
            ArrayType::Double => PrimitiveType::Double,
            ArrayType::Short => PrimitiveType::Short,
            ArrayType::Int => PrimitiveType::Int,
            ArrayType::Long => PrimitiveType::Long,
        },
    )
}

/// The value an element of kind `kind` keeps of `v`.
fn stored_value(kind: ArrayKind, v: Value) -> (res: Value)
    requires
        kind == ArrayKind::Object ==> v is Reference,
        kind != ArrayKind::Object ==> v is Primitive,
    ensures
        res == stored(kind, v),
{
    match kind {
        ArrayKind::Byte => {
            let x = v.to_int();
            #[verifier::truncate]
            let b = x as i8;
            Value::Integer(b as i32)
        },
        ArrayKind::Char => {
            let x = v.to_int();
            #[verifier::truncate]
            let c = x as u16;
            Value::Integer(c as i32)
        },
        ArrayKind::Short => {
            let x = v.to_int();
            #[verifier::truncate]
            let s = x as i16;
            Value::Integer(s as i32)
        },
        ArrayKind::Int => Value::Integer(v.to_int()),
        ArrayKind::Float => match v {
            Value::Primitive(p) => {
                #[verifier::truncate]
                let bits = p as u32;
                Value::Primitive(bits as u64)
            },
            Value::Reference(_) => vstd::pervasive::unreached(),
        },
        ArrayKind::Long | ArrayKind::Double => match v {
            Value::Primitive(p) => Value::Primitive(p),
            Value::Reference(_) => vstd::pervasive::unreached(),
        },
        ArrayKind::Object => Value::Object(v.object()),
    }
}

/// The kind of the arrays `newarray` makes for `t`.
pub fn array_kind(t: ArrayType) -> (res: ArrayKind)
    ensures
        res == kind_of(t),
{
    match t {
        ArrayType::Boolean | ArrayType::Byte => ArrayKind::Byte,
        ArrayType::Char => ArrayKind::Char,
        ArrayType::Float => ArrayKind::Float,
        ArrayType::Double => ArrayKind::Double,
        ArrayType::Short => ArrayKind::Short,
        ArrayType::Int => ArrayKind::Int,
        ArrayType::Long => ArrayKind::Long,
    }
}

// ---------------------------------------------------------------------------
// Running the array ops
// ---------------------------------------------------------------------------

impl Frame {
    /// An array load of kind `kind`.
    fn load_element(&mut self, heap: &Heap, kind: ArrayKind, wide: bool) -> (flow: Flow)
        requires
            load_element(old(self)@, heap@, kind, wide) is Some,
            old(self)@.ip < usize::MAX,
        ensures
            load_element(old(self)@, heap@, kind, wide) == Some((final(self)@, heap@, flow)),
    {
        let i = self.int_arg(1);
        let r = self.peek(2).object();
        match r {
            None => {
                self.drop_top(2);
                Flow::Throw(BuiltinException::NullPointerException)
            },
            Some(id) => match heap.array(id) {
                Some(a) => {
                    if i < 0 || i as usize >= a.len() {
                        self.drop_top(2);
                        Flow::Throw(BuiltinException::ArrayIndexOutOfBoundsException)
                    } else {
                        let v = a.get(i as usize);
                        self.replace_top(2, v, wide)
                    }
                },
                None => vstd::pervasive::unreached(),
            },
        }
    }

    /// An array store of kind `kind`.
    fn store_element(&mut self, heap: &mut Heap, classes: &ClassTable, kind: ArrayKind, wide: bool) -> (flow: Flow)
        requires
            store_element(old(self)@, old(heap)@, classes@, kind, wide) is Some,
            table_wf(classes@),
            old(self)@.ip < usize::MAX,
        ensures
            store_element(old(self)@, old(heap)@, classes@, kind, wide) == Some((final(self)@, final(heap)@, flow)),
    {
        let n: usize = if wide { 4 } else { 3 };
        let d: usize = if wide { 2 } else { 1 };
        let v = self.peek(d);
        let i = self.int_arg(n - 1);
        let r = self.peek(n).object();
        match r {
            None => {
                self.drop_top(n);
                Flow::Throw(BuiltinException::NullPointerException)
            },
            Some(id) => {
                let len = match heap.array(id) {
                    Some(a) => a.len(),
                    None => vstd::pervasive::unreached(),
                };
                if i < 0 || i as usize >= len {
                    self.drop_top(n);
                    return Flow::Throw(BuiltinException::ArrayIndexOutOfBoundsException);
                }
                if kind == ArrayKind::Object {
                    let ac = heap.class_of(id);
                    proof {
                        assert(crate::hierarchy::class_wf(classes@, ac as int));
                    }
                    let allowed = match v.object() {
                        None => true,
                        Some(o) => {
                            let vc = heap.class_of(o);
                            match classes.array_value_type(ac) {
                                Some(ElementType::Reference(e)) => classes.check_cast(vc, e),
                                _ => vstd::pervasive::unreached(),
                            }
                        },
                    };
                    if !allowed {
                        self.drop_top(n);
                        return Flow::Throw(BuiltinException::ArrayStoreException);
                    }
                }
                let e = stored_value(kind, v);
                heap.set_element(id, i as usize, e);
                self.drop_top(n);
                self.advance();
                Flow::Continue
            },
        }
    }

    /// `arraylength`.
    fn length_of_array(&mut self, heap: &Heap) -> (flow: Flow)
        requires
            array_length(old(self)@, heap@) is Some,
            old(self)@.ip < usize::MAX,
        ensures
            array_length(old(self)@, heap@) == Some((final(self)@, heap@, flow)),
    {
        let r = self.peek(1).object();
        match r {
            None => {
                self.drop_top(1);
                Flow::Throw(BuiltinException::NullPointerException)
            },
            Some(id) => match heap.array(id) {
                Some(a) => {
                    let len = a.len();
                    #[verifier::truncate]
                    let l = len as i32;
                    self.replace_top(1, Value::Integer(l), false)
                },
                None => vstd::pervasive::unreached(),
            },
        }
    }

    /// `newarray` or `anewarray` of kind `kind` and element type `element`.
    fn make_array(
        &mut self,
        heap: &mut Heap,
        classes: &ClassTable,
        kind: ArrayKind,
        element: Option<ElementType>,
    ) -> (flow: Flow)
        requires
            new_array(old(self)@, old(heap)@, classes@, kind, element) is Some,
            old(self)@.ip < usize::MAX,
        ensures
            new_array(old(self)@, old(heap)@, classes@, kind, element) == Some((final(self)@, final(heap)@, flow)),
    {
        let n = self.int_arg(1);
        if n < 0 {
            self.drop_top(1);
            return Flow::Throw(BuiltinException::NegativeArraySizeException);
        }
        let class = match element {
            Some(e) => classes.find_array_class(e),
            None => None,
        };
        match class {
            None => Flow::Runtime,
            Some(c) => {
                let id = heap.allocate(kind, c, n as usize);
                self.replace_top(1, Value::Object(Some(id)), false)
            },
        }
    }

    /// The depth of the first negative of the `n` dimensions on top, read
    /// from the top down.
    fn first_negative_dimension(&self, n: usize) -> (res: Option<usize>)
        requires
            has(self@, n as int),
            scan_dimensions(self@, n as nat, 0) is Some,
        ensures
            scan_dimensions(self@, n as nat, 0) == Some(
                match res {
                    Some(d) => Some(d as nat),
                    None => None::<nat>,
                },
            ),
            res matches Some(d) ==> 1 <= d <= n,
    {
        let mut j: usize = 0;
        while j < n
            invariant
                has(self@, n as int),
                j <= n,
                scan_dimensions(self@, n as nat, 0) == scan_dimensions(self@, n as nat, j as nat),
                scan_dimensions(self@, n as nat, 0) is Some,
            decreases n - j,
        {
            let v = self.int_arg(j + 1);
            if v < 0 {
                return Some(j + 1);
            }
            j = j + 1;
        }
        None
    }

    /// The `n` dimensions on top, outermost (deepest) first.
    fn read_dimensions(&self, n: usize) -> (dims: Vec<usize>)
        requires
            has(self@, n as int),
            scan_dimensions(self@, n as nat, 0) == Some(None::<nat>),
        ensures
            dims@ == dimensions_of(self@, n as nat),
    {
        proof {
            lemma_scan_finds_no_negative(self@, n as nat, 0);
        }
        let mut dims: Vec<usize> = Vec::new();
        let mut k: usize = n;
        while k > 0
            invariant
                has(self@, n as int),
                k <= n,
                forall|d: int| 1 <= d <= n ==> below(self@, d) is Primitive && int_at(self@, d) >= 0,
                dims@ =~= dimensions_of(self@, n as nat).take(n - k),
            decreases k,
        {
            let v = self.int_arg(k);
            dims.push(v as usize);
            k = k - 1;
        }
        assert(dims@ =~= dimensions_of(self@, n as nat));
        dims
    }

    /// `multianewarray`.
    fn make_multi_array(&mut self, heap: &mut Heap, classes: &ClassTable, info: &MultiANewArrayInfo) -> (flow: Flow)
        requires
            multi_new_array(old(self)@, old(heap)@, classes@, info.class@, info.dimensions as nat) is Some,
            old(self)@.ip < usize::MAX,
        ensures
            multi_new_array(old(self)@, old(heap)@, classes@, info.class@, info.dimensions as nat) == Some(
                (final(self)@, final(heap)@, flow),
            ),
    {
        let n = info.dimensions as usize;
        match self.first_negative_dimension(n) {
            Some(d) => {
                self.drop_top(d);
                Flow::Throw(BuiltinException::NegativeArraySizeException)
            },
            None => {
                let dims = self.read_dimensions(n);
                assert(dims@.skip(0) =~= dims@);
                let kind = match innermost_kind_of(&info.class) {
                    Some(kind) => kind,
                    None => ArrayKind::Object,
                };
                let e = match element_type_in(classes, &info.class) {
                    Some(e) => e,
                    None => return Flow::Runtime,
                };
                let cls = match level_classes_in(classes, e, n) {
                    Some(cls) => cls,
                    None => return Flow::Runtime,
                };
                proof {
                    lemma_level_classes_len(classes@, e, n as nat);
                }
                assert(cls@.take(dims@.len() - 0) =~= cls@);
                let id = heap.allocate_multi(kind, cls.as_slice(), dims.as_slice(), 0);
                self.replace_top(n, Value::Object(Some(id)), false)
            },
        }
    }

    /// `checkcast` or `instanceof` of the class named `name`.
    fn cast_test(&mut self, heap: &Heap, classes: &ClassTable, name: &JvmString, instance: bool) -> (flow: Flow)
        requires
            cast_test(old(self)@, heap@, classes@, name@, instance) is Some,
            table_wf(classes@),
            old(self)@.ip < usize::MAX,
        ensures
            cast_test(old(self)@, heap@, classes@, name@, instance) == Some((final(self)@, heap@, flow)),
    {
        let c = match classes.find_class(name) {
            Some(c) => c,
            None => return Flow::Runtime,
        };
        let _count = classes.len();
        proof {
            crate::hierarchy::lemma_first_named(classes@, name@, 0);
        }
        let ok = match self.peek(1).object() {
            None => false,
            Some(o) => {
                let oc = heap.class_of(o);
                classes.check_cast(oc, c)
            },
        };
        let is_null = self.peek(1).object().is_none();
        if instance {
            self.replace_top(1, Value::Integer(if ok { 1 } else { 0 }), false)
        } else if is_null || ok {
            self.advance();
            Flow::Continue
        } else {
            self.drop_top(1);
            Flow::Throw(BuiltinException::ClassCastException)
        }
    }

    /// `athrow`.
    fn throw_object(&mut self, heap: &Heap, classes: &ClassTable) -> (flow: Flow)
        requires
            throw_object(old(self)@, heap@, classes@) is Some,
            table_wf(classes@),
            old(self)@.ip < usize::MAX,
        ensures
            throw_object(old(self)@, heap@, classes@) == Some((final(self)@, heap@, flow)),
    {
        match self.peek(1).object() {
            None => {
                self.drop_top(1);
                Flow::Throw(BuiltinException::NullPointerException)
            },
            Some(o) => {
                let throwable = JvmString::from_str("java/lang/Throwable");
                proof {
                    reveal_strlit("java/lang/Throwable");
                }
                match classes.find_class(&throwable) {
                    None => Flow::Runtime,
                    Some(_) => {
                        self.drop_top(1);
                        Flow::ThrowObject(o)
                    },
                }
            },
        }
    }

    /// Runs `op` against `heap`: the array ops load and store elements, read
    /// lengths and make arrays (throwing `NullPointerException`,
    /// `ArrayIndexOutOfBoundsException` or `NegativeArraySizeException`
    /// where the op does); every other op runs as `step` runs it, the heap
    /// unchanged.
    pub fn step_with_heap(&mut self, heap: &mut Heap, classes: &ClassTable, op: &Op) -> (flow: Flow)
        requires
            spec_heap_step(old(self)@, old(heap)@, classes@, *op) is Some,
            table_wf(classes@),
            old(self)@.ip < usize::MAX,
        ensures
            spec_heap_step(old(self)@, old(heap)@, classes@, *op) == Some((final(self)@, final(heap)@, flow)),
    {
        match op {
            Op::IaLoad => self.load_element(heap, ArrayKind::Int, false),
            Op::LaLoad => self.load_element(heap, ArrayKind::Long, true),
            Op::FaLoad => self.load_element(heap, ArrayKind::Float, false),
            Op::DaLoad => self.load_element(heap, ArrayKind::Double, true),
            Op::AaLoad => self.load_element(heap, ArrayKind::Object, false),
            Op::BaLoad => self.load_element(heap, ArrayKind::Byte, false),
            Op::CaLoad => self.load_element(heap, ArrayKind::Char, false),
            Op::SaLoad => self.load_element(heap, ArrayKind::Short, false),
            Op::IaStore => self.store_element(heap, classes, ArrayKind::Int, false),
            Op::LaStore => self.store_element(heap, classes, ArrayKind::Long, true),
            Op::FaStore => self.store_element(heap, classes, ArrayKind::Float, false),
            Op::DaStore => self.store_element(heap, classes, ArrayKind::Double, true),
            Op::AaStore => self.store_element(heap, classes, ArrayKind::Object, false),
            Op::BaStore => self.store_element(heap, classes, ArrayKind::Byte, false),
            Op::CaStore => self.store_element(heap, classes, ArrayKind::Char, false),
            Op::SaStore => self.store_element(heap, classes, ArrayKind::Short, false),
            Op::ArrayLength => self.length_of_array(heap),
            Op::NewArray(t) => self.make_array(heap, classes, array_kind(*t), Some(element_for(*t))),
            Op::ANewArray(name) => {
                let element = match classes.find_class(name) {
                    Some(c) => Some(ElementType::Reference(c)),
                    None => None,
                };
                self.make_array(heap, classes, ArrayKind::Object, element)
            },
            Op::MultiANewArray(info) => self.make_multi_array(heap, classes, info),
            Op::CheckCast(name) => self.cast_test(heap, classes, name, false),
            Op::InstanceOf(name) => self.cast_test(heap, classes, name, true),
            Op::AThrow => self.throw_object(heap, classes),
            _ => self.step(op),
        }
    }

    /// Runs at most `fuel` ops of `ops` against `heap`, until one returns,
    /// throws or needs the runtime; gives that op's flow, or `None` when the
    /// fuel ran out.
    pub fn run_with_heap(&mut self, heap: &mut Heap, classes: &ClassTable, ops: &[Op], fuel: u64) -> (res: Option<Flow>)
        requires
            spec_heap_run(old(self)@, old(heap)@, classes@, ops@, fuel as nat) is Some,
            table_wf(classes@),
        ensures
            spec_heap_run(old(self)@, old(heap)@, classes@, ops@, fuel as nat) == Some((final(self)@, final(heap)@, res)),
    {
        let mut n: u64 = fuel;
        while n > 0
            invariant
                spec_heap_run(old(self)@, old(heap)@, classes@, ops@, fuel as nat) == spec_heap_run(self@, heap@, classes@, ops@, n as nat),
                spec_heap_run(self@, heap@, classes@, ops@, n as nat) is Some,
                table_wf(classes@),
            decreases n,
        {
            let ip = self.ip();
            if ip >= ops.len() {
                return vstd::pervasive::unreached();
            }
            let flow = self.step_with_heap(heap, classes, &ops[ip]);
            match flow {
                Flow::Continue => {},
                _ => {
                    return Some(flow);
                },
            }
            n = n - 1;
        }
        None
    }
}

} // verus!
