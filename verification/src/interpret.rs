//! The interpreter's frame and what one op does to it.
//!
//! A frame is a row of value slots: the locals first, then the operand stack
//! up to `top`. A `long` or `double` takes two stack slots and lives in the
//! lower one. Ops that only move values, compute on `int`s and `long`s, or
//! jump are carried out here; the array ops, `checkcast`, `instanceof` and
//! `athrow` run against the heap and the class table (see `heap`); the
//! others (`new`, fields, calls, monitors, floating-point arithmetic) are
//! handed to the runtime, which sees the frame unchanged. For a call, the
//! frame gives up the arguments and takes the result.
use vstd::prelude::*;

use crate::classfile::constant_pool::ConstantPoolEntry;
use crate::op::{Exception, LookupSwitchInfo, Op, TableSwitchInfo};
use crate::value::{int_of, int_value, long_of, long_value, object_of, Value};
use crate::hierarchy::{class_named, has_ancestor, table_wf, ClassTable, SpecClass};

verus! {

/// An exception the interpreter itself throws.
#[derive(Clone, Copy, Debug, PartialEq, Eq, Structural)]
pub enum BuiltinException {
    /// Division or remainder by zero.
    ArithmeticException,
    /// An array op on `null`.
    NullPointerException,
    /// An array index out of range.
    ArrayIndexOutOfBoundsException,
    /// `newarray` of a negative length.
    NegativeArraySizeException,
    /// A reference stored in an array of a class that cannot hold it.
    ArrayStoreException,
    /// `checkcast` of an object of a class that does not cast.
    ClassCastException,
}

/// The name of the class whose object a builtin exception is thrown as.
pub open spec fn builtin_class_name(e: BuiltinException) -> Seq<char> {
    match e {
        BuiltinException::ArithmeticException => "java/lang/ArithmeticException"@,
        BuiltinException::NullPointerException => "java/lang/NullPointerException"@,
        BuiltinException::ArrayIndexOutOfBoundsException => "java/lang/ArrayIndexOutOfBoundsException"@,
        BuiltinException::NegativeArraySizeException => "java/lang/NegativeArraySizeException"@,
        BuiltinException::ArrayStoreException => "java/lang/ArrayStoreException"@,
        BuiltinException::ClassCastException => "java/lang/ClassCastException"@,
    }
}

impl BuiltinException {
    /// The name of the class whose object this exception is thrown as.
    pub fn class_name(self) -> (res: &'static str)
        ensures
            res@ == builtin_class_name(self),
    {
        match self {
            BuiltinException::ArithmeticException => "java/lang/ArithmeticException",
            BuiltinException::NullPointerException => "java/lang/NullPointerException",
            BuiltinException::ArrayIndexOutOfBoundsException => "java/lang/ArrayIndexOutOfBoundsException",
            BuiltinException::NegativeArraySizeException => "java/lang/NegativeArraySizeException",
            BuiltinException::ArrayStoreException => "java/lang/ArrayStoreException",
            BuiltinException::ClassCastException => "java/lang/ClassCastException",
        }
    }
}

/// What comes of running one op.
#[derive(Clone, Copy, Debug, PartialEq, Eq, Structural)]
pub enum Flow {
    /// Go on at the op `ip` now names.
    Continue,
    /// The method returns, with a value or without.
    Return(Option<Value>),
    /// The op throws; its operands are gone from the stack.
    Throw(BuiltinException),
    /// `athrow` throws this object; its operand is gone from the stack.
    ThrowObject(u64),
    /// The runtime carries out this op; the frame is as it was.
    Runtime,
}

/// The frame of a running method.
pub struct Frame {
    slots: Vec<Value>,
    local_count: usize,
    top: usize,
    ip: usize,
}

/// The value of a frame.
pub struct SpecFrame {
    pub slots: Seq<Value>,
    pub local_count: int,
    pub top: int,
    pub ip: int,
}

impl View for Frame {
    type V = SpecFrame;

    closed spec fn view(&self) -> SpecFrame {
        SpecFrame {
            slots: self.slots@,
            local_count: self.local_count as int,
            top: self.top as int,
            ip: self.ip as int,
        }
    }
}

// ---------------------------------------------------------------------------
// The meaning of an op
// ---------------------------------------------------------------------------

/// The stack holds at least `n` slots.
pub open spec fn has(f: SpecFrame, n: int) -> bool {
    0 <= n <= f.top <= f.slots.len()
}

/// The `n`-th slot from the top (`1` is the top).
pub open spec fn below(f: SpecFrame, n: int) -> Value {
    f.slots[f.top - n]
}

/// The top `n` slots popped.
pub open spec fn dropped(f: SpecFrame, n: int) -> SpecFrame {
    SpecFrame { top: f.top - n, ..f }
}

/// There is room for `n` more slots.
pub open spec fn room(f: SpecFrame, n: int) -> bool {
    0 <= f.top && f.top + n <= f.slots.len()
}

/// `v` pushed, in one slot.
pub open spec fn pushed(f: SpecFrame, v: Value) -> SpecFrame {
    SpecFrame { slots: f.slots.update(f.top, v), top: f.top + 1, ..f }
}

/// `v` pushed in two slots: it fills the lower one, the upper keeps what it
/// held.
pub open spec fn pushed_wide(f: SpecFrame, v: Value) -> SpecFrame {
    SpecFrame { slots: f.slots.update(f.top, v), top: f.top + 2, ..f }
}

/// On to the next op.
pub open spec fn next(f: SpecFrame) -> Option<(SpecFrame, Flow)> {
    Some((SpecFrame { ip: f.ip + 1, ..f }, Flow::Continue))
}

/// On to the op at `target`.
pub open spec fn jump(f: SpecFrame, target: usize) -> Option<(SpecFrame, Flow)> {
    Some((SpecFrame { ip: target as int, ..f }, Flow::Continue))
}

/// On to `target` if `cond`, else to the next op.
pub open spec fn branch(f: SpecFrame, cond: bool, target: usize) -> Option<(SpecFrame, Flow)> {
    if cond {
        jump(f, target)
    } else {
        next(f)
    }
}

/// Push `v` and go on.
pub open spec fn push_next(f: SpecFrame, v: Value) -> Option<(SpecFrame, Flow)> {
    if room(f, 1) {
        next(pushed(f, v))
    } else {
        None
    }
}

/// Push `v` in two slots and go on.
pub open spec fn push_wide_next(f: SpecFrame, v: Value) -> Option<(SpecFrame, Flow)> {
    if room(f, 2) {
        next(pushed_wide(f, v))
    } else {
        None
    }
}

/// The `n` top slots and the slots at depths `d` are as many as needed and
/// the latter hold primitives.
pub open spec fn prims(f: SpecFrame, n: int, d1: int, d2: int) -> bool {
    &&& has(f, n)
    &&& 1 <= d1 <= n && below(f, d1) is Primitive
    &&& 1 <= d2 <= n && below(f, d2) is Primitive
}

/// An `int` op on the top `n` slots (the operands at depths `d1` and `d2`)
/// whose result is `r`.
pub open spec fn int_op(f: SpecFrame, n: int, d1: int, d2: int, r: i32) -> Option<(SpecFrame, Flow)> {
    if prims(f, n, d1, d2) {
        push_next(dropped(f, n), int_value(r))
    } else {
        None
    }
}

/// A `long` op on the top `n` slots whose result is `r`.
pub open spec fn long_op(f: SpecFrame, n: int, d1: int, d2: int, r: i64) -> Option<(SpecFrame, Flow)> {
    if prims(f, n, d1, d2) {
        push_wide_next(dropped(f, n), long_value(r))
    } else {
        None
    }
}

/// The `int` at depth `d`.
pub open spec fn int_at(f: SpecFrame, d: int) -> i32 {
    int_of(below(f, d))
}

/// The `long` whose lower slot is at depth `d`.
pub open spec fn long_at(f: SpecFrame, d: int) -> i64 {
    long_of(below(f, d))
}

/// A branch on the `int` on top.
pub open spec fn int_branch(f: SpecFrame, cond: bool, target: usize) -> Option<(SpecFrame, Flow)> {
    if prims(f, 1, 1, 1) {
        branch(dropped(f, 1), cond, target)
    } else {
        None
    }
}

/// A branch on the two `int`s on top.
pub open spec fn int2_branch(f: SpecFrame, cond: bool, target: usize) -> Option<(SpecFrame, Flow)> {
    if prims(f, 2, 1, 2) {
        branch(dropped(f, 2), cond, target)
    } else {
        None
    }
}

/// The two references on top are the same object or both `null`.
pub open spec fn same_object(f: SpecFrame) -> bool {
    object_of(below(f, 1)) == object_of(below(f, 2))
}

/// A branch on the two references on top.
pub open spec fn ref2_branch(f: SpecFrame, cond: bool, target: usize) -> Option<(SpecFrame, Flow)> {
    if has(f, 2) && below(f, 1) is Reference && below(f, 2) is Reference {
        branch(dropped(f, 2), cond, target)
    } else {
        None
    }
}

/// A branch on the reference on top.
pub open spec fn ref_branch(f: SpecFrame, cond: bool, target: usize) -> Option<(SpecFrame, Flow)> {
    if has(f, 1) && below(f, 1) is Reference {
        branch(dropped(f, 1), cond, target)
    } else {
        None
    }
}

/// Load local `index` onto the stack, in one slot or two.
pub open spec fn load(f: SpecFrame, index: usize, wide: bool) -> Option<(SpecFrame, Flow)> {
    if index < f.slots.len() {
        if wide {
            push_wide_next(f, f.slots[index as int])
        } else {
            push_next(f, f.slots[index as int])
        }
    } else {
        None
    }
}

/// Pop one slot or two into local `index`.
pub open spec fn store(f: SpecFrame, index: usize, wide: bool) -> Option<(SpecFrame, Flow)> {
    let n: int = if wide { 2 } else { 1 };
    if has(f, n) && index < f.slots.len() {
        let g = dropped(f, n);
        next(SpecFrame { slots: g.slots.update(index as int, below(f, n)), ..g })
    } else {
        None
    }
}

/// Push the values `vs`, the first lowest, after popping `n` slots.
pub open spec fn shuffle(f: SpecFrame, n: int, vs: Seq<Value>) -> Option<(SpecFrame, Flow)> {
    let g = dropped(f, n);
    if has(f, n) && room(g, vs.len() as int) {
        next(SpecFrame { slots: g.slots.update_subrange_with(g.top, vs), top: g.top + vs.len(), ..g })
    } else {
        None
    }
}

/// Java's `idiv`: the quotient rounded toward zero; `MIN / -1` wraps to
/// `MIN`.
pub open spec fn java_idiv(b: i32, a: i32) -> i32 {
    match b.checked_div(a) {
        Some(q) => q,
        None => i32::MIN,
    }
}

/// Java's `irem`: the remainder of `java_idiv`, `0` for `MIN % -1`.
pub open spec fn java_irem(b: i32, a: i32) -> i32 {
    match b.checked_rem(a) {
        Some(r) => r,
        None => 0,
    }
}

/// Java's `ldiv`.
pub open spec fn java_ldiv(b: i64, a: i64) -> i64 {
    match b.checked_div(a) {
        Some(q) => q,
        None => i64::MIN,
    }
}

/// Java's `lrem`.
pub open spec fn java_lrem(b: i64, a: i64) -> i64 {
    match b.checked_rem(a) {
        Some(r) => r,
        None => 0,
    }
}

/// Divide or take the remainder: `ArithmeticException` on a zero divisor,
/// else the result `r`.
pub open spec fn int_div(f: SpecFrame, r: i32) -> Option<(SpecFrame, Flow)> {
    if !prims(f, 2, 1, 2) {
        None
    } else if int_at(f, 1) == 0 {
        Some((dropped(f, 2), Flow::Throw(BuiltinException::ArithmeticException)))
    } else {
        push_next(dropped(f, 2), int_value(r))
    }
}

/// The `long` form of `int_div`.
pub open spec fn long_div(f: SpecFrame, r: i64) -> Option<(SpecFrame, Flow)> {
    if !prims(f, 4, 2, 4) {
        None
    } else if long_at(f, 2) == 0 {
        Some((dropped(f, 4), Flow::Throw(BuiltinException::ArithmeticException)))
    } else {
        push_wide_next(dropped(f, 4), long_value(r))
    }
}

/// The target of the first pair whose value is `v`, else `default`.
pub open spec fn lookup_target(matches: Seq<(i32, usize)>, v: i32, default: usize) -> usize
    decreases matches.len(),
{
    if matches.len() == 0 {
        default
    } else if matches[0].0 == v {
        matches[0].1
    } else {
        lookup_target(matches.drop_first(), v, default)
    }
}

/// The target of `tableswitch` for `v`.
pub open spec fn table_target(low: i32, matches: Seq<usize>, default: usize, v: i32) -> usize {
    let i = v - low;
    if 0 <= i < matches.len() {
        matches[i]
    } else {
        default
    }
}

/// The comparison result of `lcmp`: `1`, `0` or `-1`.
pub open spec fn compare_longs(a: i64, b: i64) -> i32 {
    if a > b {
        1i32
    } else if a == b {
        0i32
    } else {
        -1i32
    }
}

/// Return with the value of the top `n` slots (`0` for none).
pub open spec fn return_value(f: SpecFrame, n: int) -> Option<(SpecFrame, Flow)> {
    if n == 0 {
        Some((f, Flow::Return(None)))
    } else if has(f, n) {
        Some((dropped(f, n), Flow::Return(Some(below(f, n)))))
    } else {
        None
    }
}

/// What running `op` does to frame `f`: the new frame and what comes next;
/// `None` where running it has no defined outcome (the stack or the locals
/// are too small, or a value is not of the kind the op reads).
pub open spec fn spec_step(f: SpecFrame, op: Op) -> Option<(SpecFrame, Flow)> {
    match op {
        Op::Nop => next(f),
        Op::AConstNull => push_next(f, Value::Reference(None)),
        Op::IConst(v) => push_next(f, int_value(v)),
        Op::LConst(v) => push_wide_next(f, long_value(v as i64)),
        Op::FConst(bits) => push_next(f, Value::Primitive(bits as u64)),
        Op::DConst(bits) => push_wide_next(f, Value::Primitive(bits)),
        Op::LoadLong(v) => push_wide_next(f, long_value(v)),
        Op::LoadDouble(bits) => push_wide_next(f, Value::Primitive(bits)),
        Op::Ldc(e) => match e {
            ConstantPoolEntry::Integer { value } => push_next(f, int_value(value)),
            ConstantPoolEntry::Float { bits } => push_next(f, Value::Primitive(bits as u64)),
            _ => Some((f, Flow::Runtime)),
        },
        Op::ILoad(i) | Op::FLoad(i) | Op::ALoad(i) => load(f, i, false),
        Op::LLoad(i) | Op::DLoad(i) => load(f, i, true),
        Op::IStore(i) | Op::FStore(i) | Op::AStore(i) => store(f, i, false),
        Op::LStore(i) | Op::DStore(i) => store(f, i, true),
        Op::Pop => if has(f, 1) { next(dropped(f, 1)) } else { None },
        Op::Pop2 => if has(f, 2) { next(dropped(f, 2)) } else { None },
        Op::Dup => shuffle(f, 1, seq![below(f, 1), below(f, 1)]),
        Op::DupX1 => shuffle(f, 2, seq![below(f, 1), below(f, 2), below(f, 1)]),
        Op::DupX2 => shuffle(f, 3, seq![below(f, 1), below(f, 3), below(f, 2), below(f, 1)]),
        Op::Dup2 => shuffle(f, 2, seq![below(f, 2), below(f, 1), below(f, 2), below(f, 1)]),
        Op::Swap => shuffle(f, 2, seq![below(f, 1), below(f, 2)]),
        Op::IAdd => int_op(f, 2, 1, 2, int_at(f, 1).wrapping_add(int_at(f, 2))),
        Op::ISub => int_op(f, 2, 1, 2, int_at(f, 2).wrapping_sub(int_at(f, 1))),
        Op::IMul => int_op(f, 2, 1, 2, int_at(f, 1).wrapping_mul(int_at(f, 2))),
        Op::IDiv => int_div(f, java_idiv(int_at(f, 2), int_at(f, 1))),
        Op::IRem => int_div(f, java_irem(int_at(f, 2), int_at(f, 1))),
        Op::INeg => int_op(f, 1, 1, 1, 0i32.wrapping_sub(int_at(f, 1))),
        Op::IShl => int_op(f, 2, 1, 2, int_at(f, 2).wrapping_shl((int_at(f, 1) & 0x1f) as u32)),
        Op::IShr => int_op(f, 2, 1, 2, int_at(f, 2).wrapping_shr((int_at(f, 1) & 0x1f) as u32)),
        Op::IUshr => int_op(f, 2, 1, 2, ((int_at(f, 2) as u32) >> ((int_at(f, 1) & 0x1f) as u32)) as i32),
        Op::IAnd => int_op(f, 2, 1, 2, int_at(f, 1) & int_at(f, 2)),
        Op::IOr => int_op(f, 2, 1, 2, int_at(f, 1) | int_at(f, 2)),
        Op::IXor => int_op(f, 2, 1, 2, int_at(f, 1) ^ int_at(f, 2)),
        Op::LAdd => long_op(f, 4, 2, 4, long_at(f, 2).wrapping_add(long_at(f, 4))),
        Op::LSub => long_op(f, 4, 2, 4, long_at(f, 4).wrapping_sub(long_at(f, 2))),
        Op::LMul => long_op(f, 4, 2, 4, long_at(f, 2).wrapping_mul(long_at(f, 4))),
        Op::LDiv => long_div(f, java_ldiv(long_at(f, 4), long_at(f, 2))),
        Op::LRem => long_div(f, java_lrem(long_at(f, 4), long_at(f, 2))),
        Op::LNeg => long_op(f, 2, 2, 2, 0i64.wrapping_sub(long_at(f, 2))),
        Op::LShl => long_op(f, 3, 1, 3, long_at(f, 3).wrapping_shl((int_at(f, 1) & 0x3f) as u32)),
        Op::LShr => long_op(f, 3, 1, 3, long_at(f, 3).wrapping_shr((int_at(f, 1) & 0x3f) as u32)),
        Op::LUshr => long_op(f, 3, 1, 3, ((long_at(f, 3) as u64) >> ((int_at(f, 1) & 0x3f) as u64)) as i64),
        Op::LAnd => long_op(f, 4, 2, 4, long_at(f, 2) & long_at(f, 4)),
        Op::LOr => long_op(f, 4, 2, 4, long_at(f, 2) | long_at(f, 4)),
        Op::LXor => long_op(f, 4, 2, 4, long_at(f, 2) ^ long_at(f, 4)),
        Op::IInc(i, amount) => if i < f.slots.len() && f.slots[i as int] is Primitive {
            next(SpecFrame { slots: f.slots.update(i as int, int_value(int_of(f.slots[i as int]).wrapping_add(amount))), ..f })
        } else {
            None
        },
        Op::I2L => if prims(f, 1, 1, 1) {
            push_wide_next(dropped(f, 1), long_value(int_at(f, 1) as i64))
        } else {
            None
        },
        Op::L2I => if prims(f, 2, 2, 2) {
            push_next(dropped(f, 2), int_value(long_at(f, 2) as i32))
        } else {
            None
        },
        Op::I2B => int_op(f, 1, 1, 1, (int_at(f, 1) as i8) as i32),
        Op::I2C => int_op(f, 1, 1, 1, (int_at(f, 1) as u16) as i32),
        Op::I2S => int_op(f, 1, 1, 1, (int_at(f, 1) as i16) as i32),
        Op::LCmp => if prims(f, 4, 2, 4) {
            push_next(dropped(f, 4), int_value(compare_longs(long_at(f, 4), long_at(f, 2))))
        } else {
            None
        },
        Op::IfEq(t) => int_branch(f, int_at(f, 1) == 0, t),
        Op::IfNe(t) => int_branch(f, int_at(f, 1) != 0, t),
        Op::IfLt(t) => int_branch(f, int_at(f, 1) < 0, t),
        Op::IfGe(t) => int_branch(f, int_at(f, 1) >= 0, t),
        Op::IfGt(t) => int_branch(f, int_at(f, 1) > 0, t),
        Op::IfLe(t) => int_branch(f, int_at(f, 1) <= 0, t),
        Op::IfICmpEq(t) => int2_branch(f, int_at(f, 2) == int_at(f, 1), t),
        Op::IfICmpNe(t) => int2_branch(f, int_at(f, 2) != int_at(f, 1), t),
        Op::IfICmpLt(t) => int2_branch(f, int_at(f, 2) < int_at(f, 1), t),
        Op::IfICmpGe(t) => int2_branch(f, int_at(f, 2) >= int_at(f, 1), t),
        Op::IfICmpGt(t) => int2_branch(f, int_at(f, 2) > int_at(f, 1), t),
        Op::IfICmpLe(t) => int2_branch(f, int_at(f, 2) <= int_at(f, 1), t),
        Op::IfACmpEq(t) => ref2_branch(f, same_object(f), t),
        Op::IfACmpNe(t) => ref2_branch(f, !same_object(f), t),
        Op::IfNull(t) => ref_branch(f, object_of(below(f, 1)) is None, t),
        Op::IfNonNull(t) => ref_branch(f, object_of(below(f, 1)) is Some, t),
        Op::Goto(t) => jump(f, t),
        Op::TableSwitch(info) => if prims(f, 1, 1, 1) {
            jump(dropped(f, 1), table_target(info.low_int, info.matches@, info.default_offset, int_at(f, 1)))
        } else {
            None
        },
        Op::LookupSwitch(info) => if prims(f, 1, 1, 1) {
            jump(dropped(f, 1), lookup_target(info.matches@, int_at(f, 1), info.default_offset))
        } else {
            None
        },
        Op::IReturn | Op::FReturn | Op::AReturn => return_value(f, 1),
        Op::LReturn | Op::DReturn => return_value(f, 2),
        Op::Return => return_value(f, 0),
        _ => Some((f, Flow::Runtime)),
    }
}

// ---------------------------------------------------------------------------
// Running ops
// ---------------------------------------------------------------------------

impl Frame {
    /// The frame of a method with `max_locals` locals and `max_stack` stack
    /// slots: the first locals hold `args` (those past `max_locals` are left
    /// out), the others the `int` `0`; the stack is empty and the next op is
    /// the first.
    pub fn new(max_locals: usize, max_stack: usize, args: &[Value]) -> (res: Frame)
        requires
            max_locals + max_stack <= usize::MAX,
        ensures
            res@.slots.len() == max_locals + max_stack,
            res@.local_count == max_locals,
            res@.top == max_locals,
            res@.ip == 0,
            forall|i: int| 0 <= i < max_locals ==> #[trigger] res@.slots[i] == (if i < args@.len() {
                args@[i]
            } else {
                int_value(0)
            }),
            forall|i: int| max_locals <= i < max_locals + max_stack ==> #[trigger] res@.slots[i] == int_value(0),
    {
        let mut slots: Vec<Value> = Vec::new();
        let mut i: usize = 0;
        let total = max_locals + max_stack;
        while i < total
            invariant
                total == max_locals + max_stack,
                i <= total,
                slots@.len() == i,
                forall|j: int| 0 <= j < i && j < max_locals ==> #[trigger] slots@[j] == (if j < args@.len() {
                    args@[j]
                } else {
                    int_value(0)
                }),
                forall|j: int| max_locals <= j < i ==> #[trigger] slots@[j] == int_value(0),
            decreases total - i,
        {
            if i < max_locals && i < args.len() {
                slots.push(args[i]);
            } else {
                slots.push(Value::Integer(0));
            }
            i = i + 1;
        }
        Frame { slots, local_count: max_locals, top: max_locals, ip: 0 }
    }

    /// The index of the next op.
    pub fn ip(&self) -> (res: usize)
        ensures
            res == self@.ip,
    {
        self.ip
    }

    /// The number of slots, locals and stack.
    pub fn capacity(&self) -> (res: usize)
        ensures
            res == self@.slots.len(),
    {
        self.slots.len()
    }

    /// The number of slots in use, locals included.
    pub fn top(&self) -> (res: usize)
        ensures
            res == self@.top,
    {
        self.top
    }

    /// The value in slot `index` (locals first, then the stack).
    pub fn slot(&self, index: usize) -> (res: Value)
        requires
            index < self@.slots.len(),
        ensures
            res == self@.slots[index as int],
    {
        self.slots[index]
    }

    /// The value `d` slots below the top (`1` is the top).
    pub fn peek(&self, d: usize) -> (res: Value)
        requires
            1 <= d,
            has(self@, d as int),
        ensures
            res == below(self@, d as int),
    {
        self.slots[self.top - d]
    }

    /// Pushes `v` in one slot.
    pub fn push(&mut self, v: Value)
        requires
            room(old(self)@, 1),
        ensures
            final(self)@ == pushed(old(self)@, v),
    {
        let len = self.slots.len();
        self.slots.set(self.top, v);
        assert(self.top + 1 <= len);
        self.top = self.top + 1;
    }

    /// Pushes `v` in two slots; the upper one keeps what it held.
    pub fn push_wide(&mut self, v: Value)
        requires
            room(old(self)@, 2),
        ensures
            final(self)@ == pushed_wide(old(self)@, v),
    {
        let len = self.slots.len();
        self.slots.set(self.top, v);
        assert(self.top + 2 <= len);
        self.top = self.top + 2;
    }

    /// Pops one slot.
    pub fn pop(&mut self) -> (res: Value)
        requires
            has(old(self)@, 1),
        ensures
            res == below(old(self)@, 1),
            final(self)@ == dropped(old(self)@, 1),
    {
        self.top = self.top - 1;
        self.slots[self.top]
    }

    /// Pops a value held in two slots.
    pub fn pop_wide(&mut self) -> (res: Value)
        requires
            has(old(self)@, 2),
        ensures
            res == below(old(self)@, 2),
            final(self)@ == dropped(old(self)@, 2),
    {
        self.top = self.top - 2;
        self.slots[self.top]
    }

    /// Goes on to the next op.
    pub fn advance(&mut self)
        requires
            old(self)@.ip < usize::MAX,
        ensures
            final(self)@ == (SpecFrame { ip: old(self)@.ip + 1, ..old(self)@ }),
    {
        self.ip = self.ip + 1;
    }

    /// Pops `n` slots without reading them.
    pub(crate) fn drop_top(&mut self, n: usize)
        requires
            has(old(self)@, n as int),
        ensures
            final(self)@ == dropped(old(self)@, n as int),
    {
        self.top = self.top - n;
    }

    /// The `int` at depth `d`.
    pub(crate) fn int_arg(&self, d: usize) -> (res: i32)
        requires
            1 <= d,
            has(self@, d as int),
            below(self@, d as int) is Primitive,
        ensures
            res == int_at(self@, d as int),
    {
        self.slots[self.top - d].to_int()
    }

    /// The `long` whose lower slot is at depth `d`.
    pub(crate) fn long_arg(&self, d: usize) -> (res: i64)
        requires
            1 <= d,
            has(self@, d as int),
            below(self@, d as int) is Primitive,
        ensures
            res == long_at(self@, d as int),
    {
        self.slots[self.top - d].long()
    }

    /// Pops `n` slots, pushes `v` in one slot or two, and goes on.
    pub(crate) fn replace_top(&mut self, n: usize, v: Value, wide: bool) -> (flow: Flow)
        requires
            has(old(self)@, n as int),
            room(dropped(old(self)@, n as int), if wide { 2 } else { 1 }),
            old(self)@.ip < usize::MAX,
        ensures
            Some((final(self)@, flow)) == (if wide {
                push_wide_next(dropped(old(self)@, n as int), v)
            } else {
                push_next(dropped(old(self)@, n as int), v)
            }),
    {
        self.drop_top(n);
        if wide {
            self.push_wide(v);
        } else {
            self.push(v);
        }
        self.advance();
        Flow::Continue
    }

    /// Pops `n` slots and goes on to `target` if `cond`, else to the next op.
    fn branch_on(&mut self, n: usize, cond: bool, target: usize) -> (flow: Flow)
        requires
            has(old(self)@, n as int),
            old(self)@.ip < usize::MAX,
        ensures
            Some((final(self)@, flow)) == branch(dropped(old(self)@, n as int), cond, target),
    {
        self.drop_top(n);
        if cond {
            self.ip = target;
        } else {
            self.advance();
        }
        Flow::Continue
    }

    /// Pops `n` slots and pushes `vs`, the first lowest.
    fn shuffle_values(&mut self, n: usize, vs: &[Value]) -> (flow: Flow)
        requires
            has(old(self)@, n as int),
            room(dropped(old(self)@, n as int), vs@.len() as int),
            old(self)@.ip < usize::MAX,
        ensures
            Some((final(self)@, flow)) == shuffle(old(self)@, n as int, vs@),
    {
        self.drop_top(n);
        let ghost g = self@;
        let mut k: usize = 0;
        while k < vs.len()
            invariant
                g == dropped(old(self)@, n as int),
                room(g, vs@.len() as int),
                0 <= k <= vs@.len(),
                self@.slots == g.slots.update_subrange_with(g.top, vs@.take(k as int)),
                self@.top == g.top + k,
                self@.ip == g.ip,
                self@.local_count == g.local_count,
            decreases vs@.len() - k,
        {
            self.push(vs[k]);
            assert(self@.slots =~= g.slots.update_subrange_with(g.top, vs@.take(k + 1)));
            k = k + 1;
        }
        assert(vs@.take(vs@.len() as int) =~= vs@);
        self.advance();
        Flow::Continue
    }
}

/// The ops that move values or push constants.
pub open spec fn moves_values(op: Op) -> bool {
    match op {
        Op::Nop | Op::AConstNull | Op::IConst(_) | Op::LConst(_) | Op::FConst(_) | Op::DConst(_)
        | Op::LoadLong(_) | Op::LoadDouble(_) | Op::Ldc(_) | Op::ILoad(_) | Op::FLoad(_) | Op::ALoad(_)
        | Op::LLoad(_) | Op::DLoad(_) | Op::IStore(_) | Op::FStore(_) | Op::AStore(_) | Op::LStore(_)
        | Op::DStore(_) | Op::Pop | Op::Pop2 | Op::Dup | Op::DupX1 | Op::DupX2 | Op::Dup2 | Op::Swap => true,
        _ => false,
    }
}

/// The ops that compute on `int`s alone.
pub open spec fn int_arithmetic(op: Op) -> bool {
    match op {
        Op::IAdd | Op::ISub | Op::IMul | Op::IDiv | Op::IRem | Op::INeg | Op::IShl | Op::IShr | Op::IUshr
        | Op::IAnd | Op::IOr | Op::IXor => true,
        _ => false,
    }
}

/// The ops that compute on `long`s, and the integer conversions.
pub open spec fn long_arithmetic(op: Op) -> bool {
    match op {
        Op::LAdd | Op::LSub | Op::LMul | Op::LDiv | Op::LRem | Op::LNeg | Op::LShl | Op::LShr | Op::LUshr
        | Op::LAnd | Op::LOr | Op::LXor | Op::IInc(_, _) | Op::I2L | Op::L2I | Op::I2B | Op::I2C | Op::I2S
        | Op::LCmp => true,
        _ => false,
    }
}

/// Whether two references name the same object, or are both `null`.
fn same_reference(a: Option<u64>, b: Option<u64>) -> (res: bool)
    ensures
        res == (a == b),
{
    match (a, b) {
        (Some(x), Some(y)) => x == y,
        (None, None) => true,
        _ => false,
    }
}

/// The target of the first pair of `matches` whose value is `v`, else
/// `default`.
fn find_lookup_target(matches: &[(i32, usize)], v: i32, default: usize) -> (res: usize)
    ensures
        res == lookup_target(matches@, v, default),
{
    let mut k: usize = 0;
    assert(matches@.skip(0) =~= matches@);
    while k < matches.len()
        invariant
            0 <= k <= matches@.len(),
            lookup_target(matches@, v, default) == lookup_target(matches@.skip(k as int), v, default),
        decreases matches@.len() - k,
    {
        let (m, target) = matches[k];
        assert(matches@.skip(k as int).drop_first() =~= matches@.skip(k + 1));
        if m == v {
            return target;
        }
        k = k + 1;
    }
    default
}

/// The target of `tableswitch` for `v`.
fn find_table_target(info: &TableSwitchInfo, v: i32) -> (res: usize)
    ensures
        res == table_target(info.low_int, info.matches@, info.default_offset, v),
{
    let d: i64 = v as i64 - info.low_int as i64;
    if d >= 0 && (d as u64) < (info.matches.len() as u64) {
        info.matches[d as usize]
    } else {
        info.default_offset
    }
}

impl Frame {
    /// Runs `op`: moves values between the locals and the stack, computes
    /// on `int`s and `long`s (wrapping on overflow; a zero divisor throws
    /// `ArithmeticException`), branches, and returns. Every other op is left
    /// to the runtime, with the frame unchanged.
    pub fn step(&mut self, op: &Op) -> (flow: Flow)
        requires
            spec_step(old(self)@, *op) is Some,
            old(self)@.ip < usize::MAX,
        ensures
            spec_step(old(self)@, *op) == Some((final(self)@, flow)),
    {
        match op {
            Op::Nop => {
                self.advance();
                Flow::Continue
            },
            Op::AConstNull => self.replace_top(0, Value::Object(None), false),
            Op::IConst(v) => self.replace_top(0, Value::Integer(*v), false),
            Op::LConst(v) => self.replace_top(0, Value::Long(*v as i64), true),
            Op::FConst(bits) => self.replace_top(0, Value::Primitive(*bits as u64), false),
            Op::DConst(bits) => self.replace_top(0, Value::Primitive(*bits), true),
            Op::LoadLong(v) => self.replace_top(0, Value::Long(*v), true),
            Op::LoadDouble(bits) => self.replace_top(0, Value::Primitive(*bits), true),
            Op::Ldc(e) => match e {
                ConstantPoolEntry::Integer { value } => self.replace_top(0, Value::Integer(*value), false),
                ConstantPoolEntry::Float { bits } => self.replace_top(0, Value::Primitive(*bits as u64), false),
                _ => Flow::Runtime,
            },
            Op::ILoad(i) | Op::FLoad(i) | Op::ALoad(i) => {
                let v = self.slots[*i];
                self.replace_top(0, v, false)
            },
            Op::LLoad(i) | Op::DLoad(i) => {
                let v = self.slots[*i];
                self.replace_top(0, v, true)
            },
            Op::IStore(i) | Op::FStore(i) | Op::AStore(i) => {
                let v = self.pop();
                self.slots.set(*i, v);
                self.advance();
                Flow::Continue
            },
            Op::LStore(i) | Op::DStore(i) => {
                let v = self.pop_wide();
                self.slots.set(*i, v);
                self.advance();
                Flow::Continue
            },
            Op::Pop => {
                self.drop_top(1);
                self.advance();
                Flow::Continue
            },
            Op::Pop2 => {
                self.drop_top(2);
                self.advance();
                Flow::Continue
            },
            Op::Dup => {
                let a = self.slots[self.top - 1];
                self.shuffle_values(1, &[a, a])
            },
            Op::DupX1 => {
                let a = self.slots[self.top - 1];
                let b = self.slots[self.top - 2];
                self.shuffle_values(2, &[a, b, a])
            },
            Op::DupX2 => {
                let a = self.slots[self.top - 1];
                let b = self.slots[self.top - 2];
                let c = self.slots[self.top - 3];
                self.shuffle_values(3, &[a, c, b, a])
            },
            Op::Dup2 => {
                let a = self.slots[self.top - 1];
                let b = self.slots[self.top - 2];
                self.shuffle_values(2, &[b, a, b, a])
            },
            Op::Swap => {
                let a = self.slots[self.top - 1];
                let b = self.slots[self.top - 2];
                self.shuffle_values(2, &[a, b])
            },
            _ => self.step_arithmetic(op),
        }
    }

    /// `step` for the ops on `int`s and `long`s, the branches and the returns.
    fn step_arithmetic(&mut self, op: &Op) -> (flow: Flow)
        requires
            spec_step(old(self)@, *op) is Some,
            !moves_values(*op),
            old(self)@.ip < usize::MAX,
        ensures
            spec_step(old(self)@, *op) == Some((final(self)@, flow)),
    {
        match op {
            Op::IAdd => {
                let a = self.int_arg(1);
                let b = self.int_arg(2);
                self.replace_top(2, Value::Integer(a.wrapping_add(b)), false)
            },
            Op::ISub => {
                let a = self.int_arg(1);
                let b = self.int_arg(2);
                self.replace_top(2, Value::Integer(b.wrapping_sub(a)), false)
            },
            Op::IMul => {
                let a = self.int_arg(1);
                let b = self.int_arg(2);
                self.replace_top(2, Value::Integer(a.wrapping_mul(b)), false)
            },
            Op::IDiv | Op::IRem => {
                let a = self.int_arg(1);
                let b = self.int_arg(2);
                if a == 0 {
                    self.drop_top(2);
                    return Flow::Throw(BuiltinException::ArithmeticException);
                }
                let r = match op {
                    Op::IDiv => match b.checked_div(a) {
                        Some(q) => q,
                        None => i32::MIN,
                    },
                    _ => match b.checked_rem(a) {
                        Some(q) => q,
                        None => 0,
                    },
                };
                self.replace_top(2, Value::Integer(r), false)
            },
            Op::INeg => {
                let a = self.int_arg(1);
                self.replace_top(1, Value::Integer(0i32.wrapping_sub(a)), false)
            },
            Op::IShl | Op::IShr | Op::IUshr => {
                let a = self.int_arg(1);
                let b = self.int_arg(2);
                let m = a & 0x1f;
                assert(0 <= (a & 0x1f) < 32) by (bit_vector);
                let s = m as u32;
                let r = match op {
                    Op::IShl => b.wrapping_shl(s),
                    Op::IShr => b.wrapping_shr(s),
                    _ => {
                        #[verifier::truncate]
                        let ub = b as u32;
                        #[verifier::truncate]
                        let r = (ub >> s) as i32;
                        r
                    },
                };
                self.replace_top(2, Value::Integer(r), false)
            },
            Op::IAnd => {
                let a = self.int_arg(1);
                let b = self.int_arg(2);
                self.replace_top(2, Value::Integer(a & b), false)
            },
            Op::IOr => {
                let a = self.int_arg(1);
                let b = self.int_arg(2);
                self.replace_top(2, Value::Integer(a | b), false)
            },
            Op::IXor => {
                let a = self.int_arg(1);
                let b = self.int_arg(2);
                self.replace_top(2, Value::Integer(a ^ b), false)
            },
            _ => self.step_long(op),
        }
    }

    /// `step` for the ops on `long`s and the conversions.
    fn step_long(&mut self, op: &Op) -> (flow: Flow)
        requires
            spec_step(old(self)@, *op) is Some,
            !moves_values(*op),
            !int_arithmetic(*op),
            old(self)@.ip < usize::MAX,
        ensures
            spec_step(old(self)@, *op) == Some((final(self)@, flow)),
    {
        match op {
            Op::LAdd => {
                let a = self.long_arg(2);
                let b = self.long_arg(4);
                self.replace_top(4, Value::Long(a.wrapping_add(b)), true)
            },
            Op::LSub => {
                let a = self.long_arg(2);
                let b = self.long_arg(4);
                self.replace_top(4, Value::Long(b.wrapping_sub(a)), true)
            },
            Op::LMul => {
                let a = self.long_arg(2);
                let b = self.long_arg(4);
                self.replace_top(4, Value::Long(a.wrapping_mul(b)), true)
            },
            Op::LDiv | Op::LRem => {
                let a = self.long_arg(2);
                let b = self.long_arg(4);
                if a == 0 {
                    self.drop_top(4);
                    return Flow::Throw(BuiltinException::ArithmeticException);
                }
                let r = match op {
                    Op::LDiv => match b.checked_div(a) {
                        Some(q) => q,
                        None => i64::MIN,
                    },
                    _ => match b.checked_rem(a) {
                        Some(q) => q,
                        None => 0,
                    },
                };
                self.replace_top(4, Value::Long(r), true)
            },
            Op::LNeg => {
                let a = self.long_arg(2);
                self.replace_top(2, Value::Long(0i64.wrapping_sub(a)), true)
            },
            Op::LShl | Op::LShr | Op::LUshr => {
                let a = self.int_arg(1);
                let b = self.long_arg(3);
                let r = match op {
                    Op::LShl => {
                        assert(0 <= (a & 0x3f) < 64) by (bit_vector);
                        b.wrapping_shl((a & 0x3f) as u32)
                    },
                    Op::LShr => {
                        assert(0 <= (a & 0x3f) < 64) by (bit_vector);
                        b.wrapping_shr((a & 0x3f) as u32)
                    },
                    _ => {
                        assert(0 <= (a & 0x3f) < 64) by (bit_vector);
                        #[verifier::truncate]
                        let ub = b as u64;
                        #[verifier::truncate]
                        let r = (ub >> ((a & 0x3f) as u64)) as i64;
                        r
                    },
                };
                self.replace_top(3, Value::Long(r), true)
            },
            Op::LAnd => {
                let a = self.long_arg(2);
                let b = self.long_arg(4);
                self.replace_top(4, Value::Long(a & b), true)
            },
            Op::LOr => {
                let a = self.long_arg(2);
                let b = self.long_arg(4);
                self.replace_top(4, Value::Long(a | b), true)
            },
            Op::LXor => {
                let a = self.long_arg(2);
                let b = self.long_arg(4);
                self.replace_top(4, Value::Long(a ^ b), true)
            },
            Op::IInc(i, amount) => {
                let cur = self.slots[*i].to_int();
                self.slots.set(*i, Value::Integer(cur.wrapping_add(*amount)));
                self.advance();
                Flow::Continue
            },
            Op::I2L => {
                let a = self.int_arg(1);
                self.replace_top(1, Value::Long(a as i64), true)
            },
            Op::L2I => {
                let a = self.long_arg(2);
                #[verifier::truncate]
                let r = a as i32;
                self.replace_top(2, Value::Integer(r), false)
            },
            Op::I2B => {
                let a = self.int_arg(1);
                #[verifier::truncate]
                let r = a as i8;
                self.replace_top(1, Value::Integer(r as i32), false)
            },
            Op::I2C => {
                let a = self.int_arg(1);
                #[verifier::truncate]
                let r = a as u16;
                self.replace_top(1, Value::Integer(r as i32), false)
            },
            Op::I2S => {
                let a = self.int_arg(1);
                #[verifier::truncate]
                let r = a as i16;
                self.replace_top(1, Value::Integer(r as i32), false)
            },
            Op::LCmp => {
                let b = self.long_arg(2);
                let a = self.long_arg(4);
                let r: i32 = if a > b {
                    1
                } else if a == b {
                    0
                } else {
                    -1
                };
                self.replace_top(4, Value::Integer(r), false)
            },
            _ => self.step_control(op),
        }
    }

    /// `step` for the branches, the switches and the returns.
    fn step_control(&mut self, op: &Op) -> (flow: Flow)
        requires
            spec_step(old(self)@, *op) is Some,
            !moves_values(*op),
            !int_arithmetic(*op),
            !long_arithmetic(*op),
            old(self)@.ip < usize::MAX,
        ensures
            spec_step(old(self)@, *op) == Some((final(self)@, flow)),
    {
        match op {
            Op::IfEq(t) => {
                let a = self.int_arg(1);
                self.branch_on(1, a == 0, *t)
            },
            Op::IfNe(t) => {
                let a = self.int_arg(1);
                self.branch_on(1, a != 0, *t)
            },
            Op::IfLt(t) => {
                let a = self.int_arg(1);
                self.branch_on(1, a < 0, *t)
            },
            Op::IfGe(t) => {
                let a = self.int_arg(1);
                self.branch_on(1, a >= 0, *t)
            },
            Op::IfGt(t) => {
                let a = self.int_arg(1);
                self.branch_on(1, a > 0, *t)
            },
            Op::IfLe(t) => {
                let a = self.int_arg(1);
                self.branch_on(1, a <= 0, *t)
            },
            Op::IfICmpEq(t) => {
                let a = self.int_arg(1);
                let b = self.int_arg(2);
                self.branch_on(2, b == a, *t)
            },
            Op::IfICmpNe(t) => {
                let a = self.int_arg(1);
                let b = self.int_arg(2);
                self.branch_on(2, b != a, *t)
            },
            Op::IfICmpLt(t) => {
                let a = self.int_arg(1);
                let b = self.int_arg(2);
                self.branch_on(2, b < a, *t)
            },
            Op::IfICmpGe(t) => {
                let a = self.int_arg(1);
                let b = self.int_arg(2);
                self.branch_on(2, b >= a, *t)
            },
            Op::IfICmpGt(t) => {
                let a = self.int_arg(1);
                let b = self.int_arg(2);
                self.branch_on(2, b > a, *t)
            },
            Op::IfICmpLe(t) => {
                let a = self.int_arg(1);
                let b = self.int_arg(2);
                self.branch_on(2, b <= a, *t)
            },
            Op::IfACmpEq(t) | Op::IfACmpNe(t) => {
                let a = self.slots[self.top - 1].object();
                let b = self.slots[self.top - 2].object();
                let same = same_reference(a, b);
                let cond = match op {
                    Op::IfACmpEq(_) => same,
                    _ => !same,
                };
                self.branch_on(2, cond, *t)
            },
            Op::IfNull(t) | Op::IfNonNull(t) => {
                let a = self.slots[self.top - 1].object();
                let cond = match op {
                    Op::IfNull(_) => a.is_none(),
                    _ => a.is_some(),
                };
                self.branch_on(1, cond, *t)
            },
            Op::Goto(t) => {
                self.ip = *t;
                Flow::Continue
            },
            Op::TableSwitch(info) => {
                let a = self.int_arg(1);
                let target = find_table_target(info, a);
                self.drop_top(1);
                self.ip = target;
                Flow::Continue
            },
            Op::LookupSwitch(info) => {
                let a = self.int_arg(1);
                let target = find_lookup_target(info.matches.as_slice(), a, info.default_offset);
                self.drop_top(1);
                self.ip = target;
                Flow::Continue
            },
            Op::IReturn | Op::FReturn | Op::AReturn => {
                let v = self.pop();
                Flow::Return(Some(v))
            },
            Op::LReturn | Op::DReturn => {
                let v = self.pop_wide();
                Flow::Return(Some(v))
            },
            Op::Return => Flow::Return(None),
            _ => Flow::Runtime,
        }
    }
}

// ---------------------------------------------------------------------------
// Calls
// ---------------------------------------------------------------------------

/// The top `n` slots, the lowest first: the argument slots of a call.
pub open spec fn top_slots(f: SpecFrame, n: int) -> Seq<Value> {
    f.slots.subrange(f.top - n, f.top)
}

/// The frame after a call returned `result` (pushed in two slots when
/// `wide`), on at the next op.
pub open spec fn after_call(f: SpecFrame, result: Option<Value>, wide: bool) -> SpecFrame {
    let g = match result {
        Some(v) => if wide { pushed_wide(f, v) } else { pushed(f, v) },
        None => f,
    };
    SpecFrame { ip: g.ip + 1, ..g }
}

impl Frame {
    /// Pops the `n` argument slots of a call, the receiver first where the
    /// call has one, and gives them lowest first; `None` where the receiver
    /// is `null` (the call then throws `NullPointerException`, its
    /// arguments gone).
    pub fn take_call_args(&mut self, n: usize, receiver: bool) -> (res: Option<Vec<Value>>)
        requires
            has(old(self)@, n as int),
            receiver ==> n >= 1 && below(old(self)@, n as int) is Reference,
        ensures
            final(self)@ == dropped(old(self)@, n as int),
            match res {
                Some(args) => args@ == top_slots(old(self)@, n as int) && !(receiver && object_of(
                    below(old(self)@, n as int),
                ) is None),
                None => receiver && object_of(below(old(self)@, n as int)) is None,
            },
    {
        let start = self.top - n;
        let mut args: Vec<Value> = Vec::new();
        let mut k: usize = start;
        while k < self.top
            invariant
                self@ == old(self)@,
                start == self@.top - n,
                has(self@, n as int),
                start <= k <= self@.top,
                args@ =~= self@.slots.subrange(start as int, k as int),
            decreases self@.top - k,
        {
            args.push(self.slots[k]);
            k = k + 1;
        }
        self.top = start;
        if receiver && args[0].object().is_none() {
            return None;
        }
        Some(args)
    }

    /// Pops the `n` argument slots of a static call and gives them lowest
    /// first; `None`, the frame as it was, where the stack holds fewer than
    /// `n` slots.
    pub fn take_static_call_args(&mut self, n: usize) -> (res: Option<Vec<Value>>)
        ensures
            match res {
                Some(args) => has(old(self)@, n as int) && args@ == top_slots(old(self)@, n as int) && final(self)@
                    == dropped(old(self)@, n as int),
                None => !(has(old(self)@, n as int)) && final(self)@ == old(self)@,
            },
    {
        if self.top > self.slots.len() || n > self.top {
            return None;
        }
        match self.take_call_args(n, false) {
            Some(args) => Some(args),
            None => vstd::pervasive::unreached(),
        }
    }

    /// Pushes what a call returned, if anything (in two slots when `wide`),
    /// and goes on to the next op; `false`, the frame as it was, where there
    /// is no room for the result or no op after this one.
    pub fn try_finish_call(&mut self, result: Option<Value>, wide: bool) -> (res: bool)
        ensures
            res == (old(self)@.ip < usize::MAX && (result is None || room(old(self)@, if wide { 2 } else { 1 }))),
            res ==> final(self)@ == after_call(old(self)@, result, wide),
            !res ==> final(self)@ == old(self)@,
    {
        if self.ip == usize::MAX {
            return false;
        }
        if result.is_some() {
            let width: usize = if wide { 2 } else { 1 };
            if self.top > self.slots.len() || width > self.slots.len() - self.top {
                return false;
            }
        }
        self.finish_call(result, wide);
        true
    }

    /// Pushes what a call returned, if anything (in two slots when `wide`),
    /// and goes on to the next op.
    pub fn finish_call(&mut self, result: Option<Value>, wide: bool)
        requires
            result is Some ==> room(old(self)@, if wide { 2 } else { 1 }),
            old(self)@.ip < usize::MAX,
        ensures
            final(self)@ == after_call(old(self)@, result, wide),
    {
        match result {
            Some(v) => if wide {
                self.push_wide(v);
            } else {
                self.push(v);
            },
            None => {},
        }
        self.advance();
    }
}

// ---------------------------------------------------------------------------
// Exceptions and runs of ops
// ---------------------------------------------------------------------------

/// The first handler, from the `k`-th on, that covers op `ip` and catches
/// the exception (`catches[i]` says whether the exception's class is the
/// class of handler `i` or below it; a handler without a class catches
/// everything).
pub open spec fn handler_from(exc: Seq<Exception>, catches: Seq<bool>, ip: int, k: int) -> Option<int>
    decreases exc.len() - k,
{
    if k < 0 || k >= exc.len() {
        None
    } else if exc[k].start <= ip < exc[k].end && (exc[k].catch_class is None || catches[k]) {
        Some(k)
    } else {
        handler_from(exc, catches, ip, k + 1)
    }
}

/// Which handlers catch an exception of class `thrown`: one that names no
/// class, and one whose class (looked up by name in the table) is `thrown`
/// or a superclass of it. A class not in the table has no subclass there.
pub open spec fn catches_of(t: Seq<SpecClass>, exc: Seq<Exception>, thrown: int) -> Seq<bool> {
    Seq::new(
        exc.len(),
        |i: int|
            match exc[i].catch_class {
                None => true,
                Some(name) => match class_named(t, name@) {
                    Some(d) => thrown == d || has_ancestor(t, thrown, d as int),
                    None => false,
                },
            },
    )
}

/// The frame after entering a handler at `target` with the exception
/// `error_object`: the stack holds just the exception.
pub open spec fn entered(f: SpecFrame, target: usize, error_object: u64) -> SpecFrame {
    pushed(SpecFrame { top: f.local_count, ip: target as int, ..f }, Value::Reference(Some(error_object)))
}

/// Running at most `fuel` ops of `ops` from `f`, until one returns, throws
/// or needs the runtime: the frame then, and that op's flow (`None` when the
/// fuel ran out first). `None` where a step has no defined outcome, or the
/// next op is past the end of the code.
pub open spec fn spec_run(f: SpecFrame, ops: Seq<Op>, fuel: nat) -> Option<(SpecFrame, Option<Flow>)>
    decreases fuel,
{
    if fuel == 0 {
        Some((f, None))
    } else if f.ip < 0 || f.ip >= ops.len() {
        None
    } else {
        match spec_step(f, ops[f.ip]) {
            None => None,
            Some((g, Flow::Continue)) => spec_run(g, ops, (fuel - 1) as nat),
            Some((g, flow)) => Some((g, Some(flow))),
        }
    }
}

impl Frame {
    /// Looks for a handler of the exception `error_object` thrown at the
    /// current op: the first of `exceptions` whose range covers it and that
    /// catches it (see `handler_from`). If there is one, the stack is
    /// cleared, the exception pushed, and the handler's code is next, and
    /// the result is `true`; else nothing changes and the result is `false`.
    pub fn handle_error(&mut self, exceptions: &[Exception], catches: &[bool], error_object: u64) -> (handled: bool)
        requires
            catches@.len() == exceptions@.len(),
            0 <= old(self)@.local_count < old(self)@.slots.len(),
        ensures
            match handler_from(exceptions@, catches@, old(self)@.ip, 0) {
                Some(i) => handled && final(self)@ == entered(old(self)@, exceptions@[i].target, error_object),
                None => !handled && final(self)@ == old(self)@,
            },
    {
        let mut k: usize = 0;
        while k < exceptions.len()
            invariant
                catches@.len() == exceptions@.len(),
                0 <= k <= exceptions@.len(),
                0 <= old(self)@.local_count < old(self)@.slots.len(),
                self@ == old(self)@,
                handler_from(exceptions@, catches@, self@.ip, 0) == handler_from(exceptions@, catches@, self@.ip, k as int),
            decreases exceptions@.len() - k,
        {
            let e = &exceptions[k];
            if e.start <= self.ip && self.ip < e.end && (e.catch_class.is_none() || catches[k]) {
                self.ip = e.target;
                self.top = self.local_count;
                self.push(Value::Object(Some(error_object)));
                return true;
            }
            k = k + 1;
        }
        false
    }

    /// Looks for a handler of `error_object`, an exception of class
    /// `thrown` (an index of `classes`), thrown at the current op: as
    /// `handle_error` does, a handler catching the exception where it names
    /// no class, or names a class of the table that `thrown` is or is a
    /// subclass of.
    pub fn handle_exception(
        &mut self,
        classes: &ClassTable,
        exceptions: &[Exception],
        thrown: usize,
        error_object: u64,
    ) -> (handled: bool)
        requires
            table_wf(classes@),
            thrown < classes@.len(),
            0 <= old(self)@.local_count < old(self)@.slots.len(),
        ensures
            match handler_from(exceptions@, catches_of(classes@, exceptions@, thrown as int), old(self)@.ip, 0) {
                Some(i) => handled && final(self)@ == entered(old(self)@, exceptions@[i].target, error_object),
                None => !handled && final(self)@ == old(self)@,
            },
    {
        let mut catches: Vec<bool> = Vec::new();
        let mut k: usize = 0;
        while k < exceptions.len()
            invariant
                table_wf(classes@),
                thrown < classes@.len(),
                k <= exceptions@.len(),
                catches@ =~= catches_of(classes@, exceptions@, thrown as int).take(k as int),
            decreases exceptions@.len() - k,
        {
            let c = match &exceptions[k].catch_class {
                None => true,
                Some(name) => match classes.find_class(name) {
                    Some(d) => classes.matches_class(thrown, d),
                    None => false,
                },
            };
            catches.push(c);
            k = k + 1;
        }
        assert(catches@ =~= catches_of(classes@, exceptions@, thrown as int));
        self.handle_error(exceptions, catches.as_slice(), error_object)
    }

    /// Runs at most `fuel` ops of `ops`, until one returns, throws or needs
    /// the runtime; gives that op's flow, or `None` when the fuel ran out.
    /// An op that throws leaves the frame at that op, for the caller to look
    /// for a handler; one that needs the runtime leaves the frame as it was.
    pub fn run(&mut self, ops: &[Op], fuel: u64) -> (res: Option<Flow>)
        requires
            spec_run(old(self)@, ops@, fuel as nat) is Some,
        ensures
            spec_run(old(self)@, ops@, fuel as nat) == Some((final(self)@, res)),
    {
        let mut n: u64 = fuel;
        while n > 0
            invariant
                spec_run(old(self)@, ops@, fuel as nat) == spec_run(self@, ops@, n as nat),
                spec_run(self@, ops@, n as nat) is Some,
            decreases n,
        {
            let ip = self.ip;
            if ip >= ops.len() {
                return vstd::pervasive::unreached();
            }
            let flow = self.step(&ops[ip]);
            match flow {
                Flow::Continue => {},
                _ => {
                    return Some(flow);
                },
            }
            n = n - 1;
        }
        None
    }
}

} // verus!
