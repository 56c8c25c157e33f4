//! The bytecode verifier: basic blocks, and an abstract interpreter that runs
//! every block on every frame state it can be entered with, checking that
//! each instruction finds the types it expects on the stack and in the local
//! variables.
use vstd::prelude::*;

use crate::classfile::constant_pool::{ConstantPoolEntry, SpecEntry};
use crate::descriptor::{Descriptor, MethodDescriptor, SpecDescriptor, SpecMethodDescriptor};
use crate::index_table::{index_table_contents, index_table_get, index_table_insert, index_table_new, IndexTable};
use crate::op::{spec_can_throw, Exception, Op};

verus! {

// ---------------------------------------------------------------------------
// Abstract values and frames
// ---------------------------------------------------------------------------

/// What the verifier knows of a stack slot or local variable.
#[derive(Clone, Copy, Debug, PartialEq, Eq, Hash, Structural)]
pub enum ValueType {
    /// Nothing usable (an unset local, or the second half of a wide value).
    Invalid,
    Integer,
    Long,
    Float,
    Double,
    Reference,
    /// The op index a `ret` goes back to.
    ReturnAddress(usize),
}

/// Whether a value takes two slots.
pub open spec fn value_is_wide(v: ValueType) -> bool {
    v is Long || v is Double
}

impl ValueType {
    /// Whether this value takes two slots. Not asked of `Invalid`, which is
    /// never on the stack.
    pub fn is_wide(self) -> (res: bool)
        requires
            !(self is Invalid),
        ensures
            res == value_is_wide(self),
    {
        match self {
            ValueType::Long | ValueType::Double => true,
            _ => false,
        }
    }
}

/// Why a method body was rejected.
#[derive(Clone, Copy, Debug, PartialEq, Eq, Structural)]
pub enum VerifyError {
    /// Execution can run past the last op.
    CodeFellOffMethod,
    /// Too few or too many values on the stack, or a local out of range.
    WrongCount,
    /// A value of the wrong type.
    WrongType,
}

impl VerifyError {
    /// The message a `VerifyError` thrown for this error carries.
    pub fn message(self) -> (res: &'static str)
        ensures
            self is CodeFellOffMethod ==> res@ == "Code fell off method"@,
            self is WrongCount ==> res@ == "Wrong count"@,
            self is WrongType ==> res@ == "Wrong type"@,
    {
        match self {
            VerifyError::CodeFellOffMethod => "Code fell off method",
            VerifyError::WrongCount => "Wrong count",
            VerifyError::WrongType => "Wrong type",
        }
    }
}

/// The types in the local variables and on the operand stack (its top last).
pub struct AbstractFrame {
    pub locals: Seq<ValueType>,
    pub stack: Seq<ValueType>,
}

/// The frame the verifier carries through a block.
#[derive(Debug, PartialEq, Eq, Hash)]
pub struct FrameState {
    pub locals: Vec<ValueType>,
    pub stack: Vec<ValueType>,
}

impl View for FrameState {
    type V = AbstractFrame;

    open spec fn view(&self) -> AbstractFrame {
        AbstractFrame { locals: self.locals@, stack: self.stack@ }
    }
}

/// A copy of a list of values.
fn copy_values(v: &Vec<ValueType>) -> (res: Vec<ValueType>)
    ensures
        res@ == v@,
{
    let mut out: Vec<ValueType> = Vec::new();
    let mut i: usize = 0;
    while i < v.len()
        invariant
            i <= v@.len(),
            out@ =~= v@.take(i as int),
        decreases v@.len() - i,
    {
        out.push(v[i]);
        assert(v@.take(i + 1) =~= v@.take(i as int).push(v@[i as int]));
        i = i + 1;
    }
    assert(v@.take(i as int) =~= v@);
    out
}

impl FrameState {
    /// A second frame equal to this one.
    pub fn duplicate(&self) -> (res: FrameState)
        ensures
            res@ == self@,
    {
        FrameState { locals: copy_values(&self.locals), stack: copy_values(&self.stack) }
    }
}

impl Clone for FrameState {
    fn clone(&self) -> (res: Self)
        ensures
            res@ == self@,
    {
        self.duplicate()
    }
}

/// No stack slot is `Invalid`.
pub open spec fn stack_valid(s: Seq<ValueType>) -> bool {
    forall|i: int| 0 <= i < s.len() ==> !(#[trigger] s[i] is Invalid)
}

// ---------------------------------------------------------------------------
// What each instruction does to a frame
// ---------------------------------------------------------------------------

/// The value a field, argument or result of type `d` takes.
pub open spec fn kind_of(d: SpecDescriptor) -> ValueType {
    match d {
        SpecDescriptor::Class(_) | SpecDescriptor::Array(_) => ValueType::Reference,
        SpecDescriptor::Boolean | SpecDescriptor::Byte | SpecDescriptor::Character
        | SpecDescriptor::Short | SpecDescriptor::Integer => ValueType::Integer,
        SpecDescriptor::Float => ValueType::Float,
        SpecDescriptor::Double => ValueType::Double,
        SpecDescriptor::Long => ValueType::Long,
        SpecDescriptor::Void => ValueType::Invalid,
    }
}

/// The value `ldc` pushes for a constant-pool entry (`Invalid` for the
/// kinds it does not load).
pub open spec fn ldc_kind(e: SpecEntry) -> ValueType {
    match e {
        SpecEntry::String(_) | SpecEntry::Class(_) => ValueType::Reference,
        SpecEntry::Integer(_) => ValueType::Integer,
        SpecEntry::Float(_) => ValueType::Float,
        _ => ValueType::Invalid,
    }
}

/// Popping one value, which must be `want`.
pub open spec fn pop_one(stack: Seq<ValueType>, want: ValueType) -> Result<Seq<ValueType>, VerifyError> {
    if stack.len() == 0 {
        Err(VerifyError::WrongCount)
    } else if stack.last() != want {
        Err(VerifyError::WrongType)
    } else {
        Ok(stack.drop_last())
    }
}

/// Popping values of the types `wants`, in that order.
pub open spec fn pop_each(stack: Seq<ValueType>, wants: Seq<ValueType>) -> Result<Seq<ValueType>, VerifyError>
    decreases wants.len(),
{
    if wants.len() == 0 {
        Ok(stack)
    } else {
        match pop_one(stack, wants[0]) {
            Err(e) => Err(e),
            Ok(rest) => pop_each(rest, wants.drop_first()),
        }
    }
}

/// Pushing `values`, in that order, onto a stack that holds at most `max`.
pub open spec fn push_each(stack: Seq<ValueType>, values: Seq<ValueType>, max: nat) -> Result<Seq<ValueType>, VerifyError> {
    if values.len() > 0 && stack.len() + values.len() > max {
        Err(VerifyError::WrongCount)
    } else {
        Ok(stack + values)
    }
}

/// Popping `pops`, then pushing `pushes`.
pub open spec fn apply_effect(stack: Seq<ValueType>, pops: Seq<ValueType>, pushes: Seq<ValueType>, max: nat) -> Result<Seq<ValueType>, VerifyError> {
    match pop_each(stack, pops) {
        Err(e) => Err(e),
        Ok(rest) => push_each(rest, pushes, max),
    }
}

/// The pops of a call's arguments: the last argument first.
pub open spec fn arg_pops(args: Seq<SpecDescriptor>) -> Seq<ValueType> {
    Seq::new(args.len(), |i: int| kind_of(args[args.len() - 1 - i]))
}

/// What a call leaves on the stack.
pub open spec fn return_pushes(r: SpecDescriptor) -> Seq<ValueType> {
    if r is Void {
        Seq::empty()
    } else {
        seq![kind_of(r)]
    }
}

/// The pops and pushes of a call, with or without a receiver.
pub open spec fn invoke_effect(m: SpecMethodDescriptor, receiver: bool) -> (Seq<ValueType>, Seq<ValueType>) {
    (
        if receiver {
            arg_pops(m.args).push(ValueType::Reference)
        } else {
            arg_pops(m.args)
        },
        return_pushes(m.return_type),
    )
}

/// `n` integers.
pub open spec fn integers(n: nat) -> Seq<ValueType> {
    Seq::new(n, |i: int| ValueType::Integer)
}

/// The instructions that only pop values of given types and then push values
/// of given types, with those two lists.
#[verifier::opaque]
pub open spec fn stack_effect(op: Op) -> Option<(Seq<ValueType>, Seq<ValueType>)> {
    let int_t = ValueType::Integer;
    let long_t = ValueType::Long;
    let float_t = ValueType::Float;
    let double_t = ValueType::Double;
    let ref_t = ValueType::Reference;
    match op {
        Op::Nop | Op::Goto(_) | Op::Return | Op::Clinit(_) | Op::GcCheck => Some((seq![], seq![])),
        Op::AConstNull => Some((seq![], seq![ref_t])),
        Op::IConst(_) => Some((seq![], seq![int_t])),
        Op::LConst(_) | Op::LoadLong(_) => Some((seq![], seq![long_t])),
        Op::FConst(_) => Some((seq![], seq![float_t])),
        Op::DConst(_) | Op::LoadDouble(_) => Some((seq![], seq![double_t])),
        Op::Ldc(e) => Some((seq![], seq![ldc_kind(e@)])),
        Op::IaLoad | Op::BaLoad | Op::CaLoad | Op::SaLoad => Some((seq![int_t, ref_t], seq![int_t])),
        Op::LaLoad => Some((seq![int_t, ref_t], seq![long_t])),
        Op::FaLoad => Some((seq![int_t, ref_t], seq![float_t])),
        Op::DaLoad => Some((seq![int_t, ref_t], seq![double_t])),
        Op::AaLoad => Some((seq![int_t, ref_t], seq![ref_t])),
        Op::IaStore | Op::BaStore | Op::CaStore | Op::SaStore => Some((seq![int_t, int_t, ref_t], seq![])),
        Op::LaStore => Some((seq![long_t, int_t, ref_t], seq![])),
        Op::FaStore => Some((seq![float_t, int_t, ref_t], seq![])),
        Op::DaStore => Some((seq![double_t, int_t, ref_t], seq![])),
        Op::AaStore => Some((seq![ref_t, int_t, ref_t], seq![])),
        Op::IAdd | Op::ISub | Op::IMul | Op::IDiv | Op::IRem | Op::IShl | Op::IShr | Op::IUshr
        | Op::IAnd | Op::IOr | Op::IXor => Some((seq![int_t, int_t], seq![int_t])),
        Op::LAdd | Op::LSub | Op::LMul | Op::LDiv | Op::LRem | Op::LAnd | Op::LOr | Op::LXor => Some((seq![long_t, long_t], seq![long_t])),
        Op::FAdd | Op::FSub | Op::FMul | Op::FDiv | Op::FRem => Some((seq![float_t, float_t], seq![float_t])),
        Op::DAdd | Op::DSub | Op::DMul | Op::DDiv | Op::DRem => Some((seq![double_t, double_t], seq![double_t])),
        Op::LShl | Op::LShr | Op::LUshr => Some((seq![int_t, long_t], seq![long_t])),
        Op::INeg | Op::I2B | Op::I2C | Op::I2S => Some((seq![int_t], seq![int_t])),
        Op::LNeg => Some((seq![long_t], seq![long_t])),
        Op::FNeg => Some((seq![float_t], seq![float_t])),
        Op::DNeg => Some((seq![double_t], seq![double_t])),
        Op::I2L => Some((seq![int_t], seq![long_t])),
        Op::I2F => Some((seq![int_t], seq![float_t])),
        Op::I2D => Some((seq![int_t], seq![double_t])),
        Op::L2I => Some((seq![long_t], seq![int_t])),
        Op::L2F => Some((seq![long_t], seq![float_t])),
        Op::L2D => Some((seq![long_t], seq![double_t])),
        Op::F2I => Some((seq![float_t], seq![int_t])),
        Op::F2L => Some((seq![float_t], seq![long_t])),
        Op::F2D => Some((seq![float_t], seq![double_t])),
        Op::D2I => Some((seq![double_t], seq![int_t])),
        Op::D2L => Some((seq![double_t], seq![long_t])),
        Op::D2F => Some((seq![double_t], seq![float_t])),
        Op::LCmp => Some((seq![long_t, long_t], seq![int_t])),
        Op::FCmpL | Op::FCmpG => Some((seq![float_t, float_t], seq![int_t])),
        Op::DCmpL | Op::DCmpG => Some((seq![double_t, double_t], seq![int_t])),
        Op::IfEq(_) | Op::IfNe(_) | Op::IfLt(_) | Op::IfGe(_) | Op::IfGt(_) | Op::IfLe(_)
        | Op::TableSwitch(_) | Op::LookupSwitch(_) | Op::IReturn => Some((seq![int_t], seq![])),
        Op::IfICmpEq(_) | Op::IfICmpNe(_) | Op::IfICmpLt(_) | Op::IfICmpGe(_) | Op::IfICmpGt(_)
        | Op::IfICmpLe(_) => Some((seq![int_t, int_t], seq![])),
        Op::IfACmpEq(_) | Op::IfACmpNe(_) => Some((seq![ref_t, ref_t], seq![])),
        Op::LReturn => Some((seq![long_t], seq![])),
        Op::FReturn => Some((seq![float_t], seq![])),
        Op::DReturn => Some((seq![double_t], seq![])),
        Op::AReturn | Op::AThrow | Op::MonitorEnter | Op::MonitorExit | Op::IfNull(_)
        | Op::IfNonNull(_) => Some((seq![ref_t], seq![])),
        Op::GetStatic(f) | Op::GetStaticWide(f) => Some((seq![], seq![kind_of(f.descriptor@)])),
        Op::PutStatic(f) | Op::PutStaticWide(f) => Some((seq![kind_of(f.descriptor@)], seq![])),
        Op::GetField(f) | Op::GetFieldWide(f) => Some((seq![ref_t], seq![kind_of(f.descriptor@)])),
        Op::PutField(f) | Op::PutFieldWide(f) => Some((seq![kind_of(f.descriptor@), ref_t], seq![])),
        Op::InvokeVirtual(m, _) | Op::InvokeVirtualWide(m, _) | Op::InvokeSpecial(m) => Some(invoke_effect(m.descriptor@, true)),
        Op::InvokeStatic(m) => Some(invoke_effect(m.descriptor@, false)),
        Op::InvokeInterface(info) => Some(invoke_effect(info.descriptor@, true)),
        Op::New(_) => Some((seq![], seq![ref_t])),
        Op::NewArray(_) | Op::ANewArray(_) => Some((seq![int_t], seq![ref_t])),
        Op::ArrayLength | Op::InstanceOf(_) => Some((seq![ref_t], seq![int_t])),
        Op::CheckCast(_) => Some((seq![ref_t], seq![ref_t])),
        Op::MultiANewArray(info) => Some((integers(info.dimensions as nat), seq![ref_t])),
        _ => None,
    }
}

/// The frame with its stack replaced by the outcome `r`.
pub open spec fn with_stack(f: AbstractFrame, r: Result<Seq<ValueType>, VerifyError>) -> Result<(AbstractFrame, Option<usize>), VerifyError> {
    match r {
        Err(e) => Err(e),
        Ok(s) => Ok((AbstractFrame { locals: f.locals, stack: s }, None)),
    }
}

/// Reading local `i`, which must hold `want`.
pub open spec fn expect_local(locals: Seq<ValueType>, i: int, want: ValueType) -> Result<(), VerifyError> {
    if i >= locals.len() {
        Err(VerifyError::WrongCount)
    } else if locals[i] != want {
        Err(VerifyError::WrongType)
    } else {
        Ok(())
    }
}

/// Loading local `i` of type `want` (taking two slots when `wide`).
pub open spec fn load_local(f: AbstractFrame, i: int, want: ValueType, wide: bool, max: nat) -> Result<(AbstractFrame, Option<usize>), VerifyError> {
    match expect_local(f.locals, i, want) {
        Err(e) => Err(e),
        Ok(_) => if wide && i + 1 >= f.locals.len() {
            Err(VerifyError::WrongCount)
        } else {
            with_stack(f, push_each(f.stack, seq![want], max))
        },
    }
}

/// Storing a popped `want` into local `i`; a wide value also makes local
/// `i + 1` invalid.
pub open spec fn store_local(f: AbstractFrame, i: int, want: ValueType, wide: bool) -> Result<(AbstractFrame, Option<usize>), VerifyError> {
    match pop_one(f.stack, want) {
        Err(e) => Err(e),
        Ok(rest) => if i >= f.locals.len() {
            Err(VerifyError::WrongCount)
        } else if !wide {
            Ok((AbstractFrame { locals: f.locals.update(i, want), stack: rest }, None))
        } else if i + 1 >= f.locals.len() {
            Err(VerifyError::WrongCount)
        } else {
            Ok((AbstractFrame { locals: f.locals.update(i, want).update(i + 1, ValueType::Invalid), stack: rest }, None))
        },
    }
}

/// The stack without its top `n` values.
pub open spec fn below(s: Seq<ValueType>, n: int) -> Seq<ValueType> {
    s.subrange(0, s.len() - n)
}

/// The `n`-th value from the top (`1` is the top).
pub open spec fn nth_top(s: Seq<ValueType>, n: int) -> ValueType {
    s[s.len() - n]
}

/// The stack-shuffling instructions.
#[verifier::opaque]
pub open spec fn shuffle(op: Op, s: Seq<ValueType>, max: nat) -> Result<Seq<ValueType>, VerifyError> {
    let v1 = nth_top(s, 1);
    let v2 = nth_top(s, 2);
    let v3 = nth_top(s, 3);
    let v4 = nth_top(s, 4);
    match op {
        Op::Pop => if s.len() < 1 {
            Err(VerifyError::WrongCount)
        } else if value_is_wide(v1) {
            Err(VerifyError::WrongType)
        } else {
            Ok(below(s, 1))
        },
        Op::Pop2 => if s.len() < 1 {
            Err(VerifyError::WrongCount)
        } else if value_is_wide(v1) {
            Ok(below(s, 1))
        } else if s.len() < 2 {
            Err(VerifyError::WrongCount)
        } else {
            Ok(below(s, 2))
        },
        Op::Dup => if s.len() < 1 {
            Err(VerifyError::WrongCount)
        } else if value_is_wide(v1) {
            Err(VerifyError::WrongType)
        } else {
            push_each(below(s, 1), seq![v1, v1], max)
        },
        Op::DupX1 => if s.len() < 2 {
            Err(VerifyError::WrongCount)
        } else if value_is_wide(v1) || value_is_wide(v2) {
            Err(VerifyError::WrongType)
        } else {
            push_each(below(s, 2), seq![v1, v2, v1], max)
        },
        Op::DupX2 => if s.len() < 1 {
            Err(VerifyError::WrongCount)
        } else if value_is_wide(v1) {
            Err(VerifyError::WrongType)
        } else if s.len() < 2 {
            Err(VerifyError::WrongCount)
        } else if value_is_wide(v2) {
            push_each(below(s, 2), seq![v1, v2, v1], max)
        } else if s.len() < 3 {
            Err(VerifyError::WrongCount)
        } else {
            push_each(below(s, 3), seq![v1, v3, v2, v1], max)
        },
        Op::Dup2 => if s.len() < 1 {
            Err(VerifyError::WrongCount)
        } else if value_is_wide(v1) {
            push_each(below(s, 1), seq![v1, v1], max)
        } else if s.len() < 2 {
            Err(VerifyError::WrongCount)
        } else if value_is_wide(v2) {
            Err(VerifyError::WrongType)
        } else {
            push_each(below(s, 2), seq![v2, v1, v2, v1], max)
        },
        Op::Dup2X2 => if s.len() < 2 {
            Err(VerifyError::WrongCount)
        } else if value_is_wide(v1) {
            if value_is_wide(v2) {
                push_each(below(s, 2), seq![v1, v2, v1], max)
            } else if s.len() < 3 {
                Err(VerifyError::WrongCount)
            } else if value_is_wide(v3) {
                Err(VerifyError::WrongType)
            } else {
                push_each(below(s, 3), seq![v1, v3, v2, v1], max)
            }
        } else if value_is_wide(v2) {
            Err(VerifyError::WrongType)
        } else if s.len() < 3 {
            Err(VerifyError::WrongCount)
        } else if value_is_wide(v3) {
            push_each(below(s, 3), seq![v2, v1, v3, v2, v1], max)
        } else if s.len() < 4 {
            Err(VerifyError::WrongCount)
        } else if value_is_wide(v4) {
            Err(VerifyError::WrongType)
        } else {
            push_each(below(s, 4), seq![v2, v1, v4, v3, v2, v1], max)
        },
        Op::Swap => if s.len() < 1 {
            Err(VerifyError::WrongCount)
        } else if value_is_wide(v1) {
            Err(VerifyError::WrongType)
        } else if s.len() < 2 {
            Err(VerifyError::WrongCount)
        } else if value_is_wide(v2) {
            Err(VerifyError::WrongType)
        } else {
            Ok(below(s, 2) + seq![v1, v2])
        },
        _ => Ok(s),
    }
}

/// Running the op at index `index` on frame `f`, with stacks of at most
/// `max` values: the new frame, and for `ret` the op index it returns to.
pub open spec fn spec_step(op: Op, index: int, max: nat, f: AbstractFrame) -> Result<(AbstractFrame, Option<usize>), VerifyError> {
    match op {
        Op::ILoad(i) => load_local(f, i as int, ValueType::Integer, false, max),
        Op::LLoad(i) => load_local(f, i as int, ValueType::Long, true, max),
        Op::FLoad(i) => load_local(f, i as int, ValueType::Float, false, max),
        Op::DLoad(i) => load_local(f, i as int, ValueType::Double, true, max),
        Op::ALoad(i) => load_local(f, i as int, ValueType::Reference, false, max),
        Op::IStore(i) => store_local(f, i as int, ValueType::Integer, false),
        Op::LStore(i) => store_local(f, i as int, ValueType::Long, true),
        Op::FStore(i) => store_local(f, i as int, ValueType::Float, false),
        Op::DStore(i) => store_local(f, i as int, ValueType::Double, true),
        Op::AStore(i) => if f.stack.len() == 0 {
            Err(VerifyError::WrongCount)
        } else if !(f.stack.last() is Reference || f.stack.last() is ReturnAddress) {
            Err(VerifyError::WrongType)
        } else if i >= f.locals.len() {
            Err(VerifyError::WrongCount)
        } else {
            Ok((AbstractFrame { locals: f.locals.update(i as int, f.stack.last()), stack: f.stack.drop_last() }, None))
        },
        Op::IInc(i, _) => match expect_local(f.locals, i as int, ValueType::Integer) {
            Err(e) => Err(e),
            Ok(_) => Ok((f, None)),
        },
        Op::Pop | Op::Pop2 | Op::Dup | Op::DupX1 | Op::DupX2 | Op::Dup2 | Op::Dup2X2 | Op::Swap =>
            with_stack(f, shuffle(op, f.stack, max)),
        Op::Jsr(_) => with_stack(f, push_each(f.stack, seq![ValueType::ReturnAddress((index + 1) as usize)], max)),
        Op::Ret(i) => if i >= f.locals.len() {
            Err(VerifyError::WrongCount)
        } else {
            match f.locals[i as int] {
                ValueType::ReturnAddress(p) => Ok((f, Some(p))),
                _ => Err(VerifyError::WrongType),
            }
        },
        _ => match stack_effect(op) {
            Some((pops, pushes)) => with_stack(f, apply_effect(f.stack, pops, pushes, max)),
            None => Ok((f, None)),
        },
    }
}

/// The ops the verifier can run: `ldc` of a loadable constant, fields of a
/// value type, and arguments that are not `void`.
pub open spec fn op_admissible(op: Op) -> bool {
    match op {
        Op::Ldc(e) => !(ldc_kind(e@) is Invalid),
        Op::GetStatic(f) | Op::GetStaticWide(f) | Op::PutStatic(f) | Op::PutStaticWide(f)
        | Op::GetField(f) | Op::GetFieldWide(f) | Op::PutField(f) | Op::PutFieldWide(f) => !(f.descriptor@ is Void),
        Op::InvokeVirtual(m, _) | Op::InvokeVirtualWide(m, _) | Op::InvokeSpecial(m)
        | Op::InvokeStatic(m) => args_admissible(m.descriptor@.args),
        Op::InvokeInterface(info) => args_admissible(info.descriptor@.args),
        _ => true,
    }
}

/// No argument is `void`.
pub open spec fn args_admissible(args: Seq<SpecDescriptor>) -> bool {
    forall|i: int| 0 <= i < args.len() ==> !(#[trigger] args[i] is Void)
}

// ---------------------------------------------------------------------------
// Running one instruction
// ---------------------------------------------------------------------------

/// Pops one value.
fn pop_value(stack: &mut Vec<ValueType>) -> (res: Result<ValueType, VerifyError>)
    ensures
        old(stack)@.len() == 0 ==> res == Err::<ValueType, VerifyError>(VerifyError::WrongCount),
        old(stack)@.len() > 0 ==> res == Ok::<ValueType, VerifyError>(old(stack)@.last())
            && final(stack)@ == old(stack)@.drop_last(),
{
    match stack.pop() {
        Some(v) => Ok(v),
        None => Err(VerifyError::WrongCount),
    }
}

/// Pops one value, which must be `want`.
fn pop_expect(stack: &mut Vec<ValueType>, want: ValueType) -> (res: Result<(), VerifyError>)
    ensures
        match pop_one(old(stack)@, want) {
            Ok(rest) => res is Ok && final(stack)@ == rest,
            Err(e) => res == Err::<(), VerifyError>(e),
        },
{
    let v = pop_value(stack)?;
    if v != want {
        return Err(VerifyError::WrongType);
    }
    Ok(())
}

/// Pushes `values` in order onto a stack that may hold at most `max`.
fn push_all(stack: &mut Vec<ValueType>, values: &Vec<ValueType>, max: usize) -> (res: Result<(), VerifyError>)
    ensures
        match push_each(old(stack)@, values@, max as nat) {
            Ok(s) => res is Ok && final(stack)@ == s,
            Err(e) => res == Err::<(), VerifyError>(e),
        },
{
    let mut i: usize = 0;
    while i < values.len()
        invariant
            i <= values@.len(),
            stack@ == old(stack)@ + values@.take(i as int),
        decreases values@.len() - i,
    {
        stack.push(values[i]);
        assert(values@.take(i + 1) =~= values@.take(i as int).push(values@[i as int]));
        i = i + 1;
    }
    assert(values@.take(i as int) =~= values@);
    if values.len() > 0 && stack.len() > max {
        return Err(VerifyError::WrongCount);
    }
    Ok(())
}

/// Pops values of the types `pops` in order, then pushes `pushes`.
fn apply_stack_effect(stack: &mut Vec<ValueType>, pops: &Vec<ValueType>, pushes: &Vec<ValueType>, max: usize) -> (res: Result<(), VerifyError>)
    ensures
        match apply_effect(old(stack)@, pops@, pushes@, max as nat) {
            Ok(s) => res is Ok && final(stack)@ == s,
            Err(e) => res == Err::<(), VerifyError>(e),
        },
{
    let mut i: usize = 0;
    assert(pops@.skip(0) =~= pops@);
    while i < pops.len()
        invariant
            i <= pops@.len(),
            pop_each(old(stack)@, pops@) == pop_each(stack@, pops@.skip(i as int)),
        decreases pops@.len() - i,
    {
        let ghost before = stack@;
        assert(pops@.skip(i as int)[0] == pops@[i as int]);
        assert(pops@.skip(i as int).drop_first() =~= pops@.skip(i + 1));
        pop_expect(stack, pops[i])?;
        i = i + 1;
    }
    assert(pops@.skip(i as int).len() == 0);
    push_all(stack, pushes, max)
}

/// The value a field, argument or result of type `d` takes.
fn kind_of_descriptor(d: &Descriptor) -> (res: ValueType)
    ensures
        res == kind_of(d@),
{
    match d {
        Descriptor::Class(_) | Descriptor::Array(_) => ValueType::Reference,
        Descriptor::Boolean | Descriptor::Byte | Descriptor::Character | Descriptor::Short
        | Descriptor::Integer => ValueType::Integer,
        Descriptor::Float => ValueType::Float,
        Descriptor::Double => ValueType::Double,
        Descriptor::Long => ValueType::Long,
        Descriptor::Void => ValueType::Invalid,
    }
}

/// The value `ldc` pushes for `e`.
fn ldc_kind_of(e: &ConstantPoolEntry) -> (res: ValueType)
    ensures
        res == ldc_kind(e@),
{
    match e {
        ConstantPoolEntry::String { .. } | ConstantPoolEntry::Class { .. } => ValueType::Reference,
        ConstantPoolEntry::Integer { .. } => ValueType::Integer,
        ConstantPoolEntry::Float { .. } => ValueType::Float,
        _ => ValueType::Invalid,
    }
}

/// The pops and pushes of a call.
fn invoke_effect_of(m: &MethodDescriptor, receiver: bool) -> (res: (Vec<ValueType>, Vec<ValueType>))
    ensures
        (res.0@, res.1@) == invoke_effect(m@, receiver),
{
    let args = m.args();
    let ghost a = m@.args;
    let mut pops: Vec<ValueType> = Vec::new();
    let mut i: usize = args.len();
    while i > 0
        invariant
            i <= args@.len(),
            a.len() == args@.len(),
            forall|j: int| 0 <= j < a.len() ==> a[j] == (#[trigger] args@[j])@,
            pops@ =~= arg_pops(a).take(a.len() - i),
        decreases i,
    {
        i = i - 1;
        pops.push(kind_of_descriptor(&args[i]));
        assert(pops@ =~= arg_pops(a).take(a.len() - i));
    }
    if receiver {
        pops.push(ValueType::Reference);
    }
    let r = m.return_type();
    let pushes = match r {
        Descriptor::Void => Vec::new(),
        _ => vec![kind_of_descriptor(&r)],
    };
    (pops, pushes)
}

/// The pops and pushes of the ops that only pop and push.
fn stack_effect_of(op: &Op) -> (res: Option<(Vec<ValueType>, Vec<ValueType>)>)
    ensures
        match stack_effect(*op) {
            Some((pops, pushes)) => res matches Some((a, b)) && a@ == pops && b@ == pushes,
            None => res is None,
        },
{
    reveal(stack_effect);
    let int_t = ValueType::Integer;
    let long_t = ValueType::Long;
    let float_t = ValueType::Float;
    let double_t = ValueType::Double;
    let ref_t = ValueType::Reference;
    match op {
        Op::Nop | Op::Goto(_) | Op::Return | Op::Clinit(_) | Op::GcCheck => Some((vec![], vec![])),
        Op::AConstNull => Some((vec![], vec![ref_t])),
        Op::IConst(_) => Some((vec![], vec![int_t])),
        Op::LConst(_) | Op::LoadLong(_) => Some((vec![], vec![long_t])),
        Op::FConst(_) => Some((vec![], vec![float_t])),
        Op::DConst(_) | Op::LoadDouble(_) => Some((vec![], vec![double_t])),
        Op::Ldc(e) => Some((vec![], vec![ldc_kind_of(e)])),
        Op::IaLoad | Op::BaLoad | Op::CaLoad | Op::SaLoad => Some((vec![int_t, ref_t], vec![int_t])),
        Op::LaLoad => Some((vec![int_t, ref_t], vec![long_t])),
        Op::FaLoad => Some((vec![int_t, ref_t], vec![float_t])),
        Op::DaLoad => Some((vec![int_t, ref_t], vec![double_t])),
        Op::AaLoad => Some((vec![int_t, ref_t], vec![ref_t])),
        Op::IaStore | Op::BaStore | Op::CaStore | Op::SaStore => Some((vec![int_t, int_t, ref_t], vec![])),
        Op::LaStore => Some((vec![long_t, int_t, ref_t], vec![])),
        Op::FaStore => Some((vec![float_t, int_t, ref_t], vec![])),
        Op::DaStore => Some((vec![double_t, int_t, ref_t], vec![])),
        Op::AaStore => Some((vec![ref_t, int_t, ref_t], vec![])),
        Op::IAdd | Op::ISub | Op::IMul | Op::IDiv | Op::IRem | Op::IShl | Op::IShr | Op::IUshr
        | Op::IAnd | Op::IOr | Op::IXor => Some((vec![int_t, int_t], vec![int_t])),
        Op::LAdd | Op::LSub | Op::LMul | Op::LDiv | Op::LRem | Op::LAnd | Op::LOr | Op::LXor => Some((vec![long_t, long_t], vec![long_t])),
        Op::FAdd | Op::FSub | Op::FMul | Op::FDiv | Op::FRem => Some((vec![float_t, float_t], vec![float_t])),
        Op::DAdd | Op::DSub | Op::DMul | Op::DDiv | Op::DRem => Some((vec![double_t, double_t], vec![double_t])),
        Op::LShl | Op::LShr | Op::LUshr => Some((vec![int_t, long_t], vec![long_t])),
        Op::INeg | Op::I2B | Op::I2C | Op::I2S => Some((vec![int_t], vec![int_t])),
        Op::LNeg => Some((vec![long_t], vec![long_t])),
        Op::FNeg => Some((vec![float_t], vec![float_t])),
        Op::DNeg => Some((vec![double_t], vec![double_t])),
        Op::I2L => Some((vec![int_t], vec![long_t])),
        Op::I2F => Some((vec![int_t], vec![float_t])),
        Op::I2D => Some((vec![int_t], vec![double_t])),
        Op::L2I => Some((vec![long_t], vec![int_t])),
        Op::L2F => Some((vec![long_t], vec![float_t])),
        Op::L2D => Some((vec![long_t], vec![double_t])),
        Op::F2I => Some((vec![float_t], vec![int_t])),
        Op::F2L => Some((vec![float_t], vec![long_t])),
        Op::F2D => Some((vec![float_t], vec![double_t])),
        Op::D2I => Some((vec![double_t], vec![int_t])),
        Op::D2L => Some((vec![double_t], vec![long_t])),
        Op::D2F => Some((vec![double_t], vec![float_t])),
        Op::LCmp => Some((vec![long_t, long_t], vec![int_t])),
        Op::FCmpL | Op::FCmpG => Some((vec![float_t, float_t], vec![int_t])),
        Op::DCmpL | Op::DCmpG => Some((vec![double_t, double_t], vec![int_t])),
        Op::IfEq(_) | Op::IfNe(_) | Op::IfLt(_) | Op::IfGe(_) | Op::IfGt(_) | Op::IfLe(_)
        | Op::TableSwitch(_) | Op::LookupSwitch(_) | Op::IReturn => Some((vec![int_t], vec![])),
        Op::IfICmpEq(_) | Op::IfICmpNe(_) | Op::IfICmpLt(_) | Op::IfICmpGe(_) | Op::IfICmpGt(_)
        | Op::IfICmpLe(_) => Some((vec![int_t, int_t], vec![])),
        Op::IfACmpEq(_) | Op::IfACmpNe(_) => Some((vec![ref_t, ref_t], vec![])),
        Op::LReturn => Some((vec![long_t], vec![])),
        Op::FReturn => Some((vec![float_t], vec![])),
        Op::DReturn => Some((vec![double_t], vec![])),
        Op::AReturn | Op::AThrow | Op::MonitorEnter | Op::MonitorExit | Op::IfNull(_)
        | Op::IfNonNull(_) => Some((vec![ref_t], vec![])),
        Op::GetStatic(f) | Op::GetStaticWide(f) => Some((vec![], vec![kind_of_descriptor(&f.descriptor)])),
        Op::PutStatic(f) | Op::PutStaticWide(f) => Some((vec![kind_of_descriptor(&f.descriptor)], vec![])),
        Op::GetField(f) | Op::GetFieldWide(f) => Some((vec![ref_t], vec![kind_of_descriptor(&f.descriptor)])),
        Op::PutField(f) | Op::PutFieldWide(f) => Some((vec![kind_of_descriptor(&f.descriptor), ref_t], vec![])),
        Op::InvokeVirtual(m, _) | Op::InvokeVirtualWide(m, _) | Op::InvokeSpecial(m) => Some(invoke_effect_of(&m.descriptor, true)),
        Op::InvokeStatic(m) => Some(invoke_effect_of(&m.descriptor, false)),
        Op::InvokeInterface(info) => Some(invoke_effect_of(&info.descriptor, true)),
        Op::New(_) => Some((vec![], vec![ref_t])),
        Op::NewArray(_) | Op::ANewArray(_) => Some((vec![int_t], vec![ref_t])),
        Op::ArrayLength | Op::InstanceOf(_) => Some((vec![ref_t], vec![int_t])),
        Op::CheckCast(_) => Some((vec![ref_t], vec![ref_t])),
        Op::MultiANewArray(info) => {
            let mut pops: Vec<ValueType> = Vec::new();
            let mut k: u8 = 0;
            while k < info.dimensions
                invariant
                    k <= info.dimensions,
                    pops@ =~= integers(k as nat),
                decreases info.dimensions - k,
            {
                pops.push(ValueType::Integer);
                assert(integers((k + 1) as nat) =~= integers(k as nat).push(ValueType::Integer));
                k = k + 1;
            }
            Some((pops, vec![ref_t]))
        },
        _ => None,
    }
}

/// Loads local `i`, which must hold `want`.
fn load_exec(frame: &mut FrameState, i: usize, want: ValueType, wide: bool, max: usize) -> (res: Result<Option<usize>, VerifyError>)
    ensures
        match load_local(old(frame)@, i as int, want, wide, max as nat) {
            Ok((g, r)) => res == Ok::<Option<usize>, VerifyError>(r) && final(frame)@ == g,
            Err(e) => res == Err::<Option<usize>, VerifyError>(e),
        },
{
    if i >= frame.locals.len() {
        return Err(VerifyError::WrongCount);
    }
    if frame.locals[i] != want {
        return Err(VerifyError::WrongType);
    }
    if wide && i + 1 >= frame.locals.len() {
        return Err(VerifyError::WrongCount);
    }
    let pushed = vec![want];
    assert(pushed@ =~= seq![want]);
    match push_all(&mut frame.stack, &pushed, max) {
        Ok(()) => Ok(None),
        Err(e) => Err(e),
    }
}

/// Stores a popped `want` into local `i`.
fn store_exec(frame: &mut FrameState, i: usize, want: ValueType, wide: bool) -> (res: Result<Option<usize>, VerifyError>)
    ensures
        match store_local(old(frame)@, i as int, want, wide) {
            Ok((g, r)) => res == Ok::<Option<usize>, VerifyError>(r) && final(frame)@ == g,
            Err(e) => res == Err::<Option<usize>, VerifyError>(e),
        },
{
    match pop_expect(&mut frame.stack, want) {
        Ok(()) => {},
        Err(e) => return Err(e),
    }
    if i >= frame.locals.len() {
        return Err(VerifyError::WrongCount);
    }
    frame.locals.set(i, want);
    if wide {
        if i + 1 >= frame.locals.len() {
            return Err(VerifyError::WrongCount);
        }
        frame.locals.set(i + 1, ValueType::Invalid);
    }
    Ok(None)
}

/// Runs a stack-shuffling op.
fn shuffle_exec(op: &Op, stack: &mut Vec<ValueType>, max: usize) -> (res: Result<(), VerifyError>)
    requires
        stack_valid(old(stack)@),
    ensures
        match shuffle(*op, old(stack)@, max as nat) {
            Ok(s) => res is Ok && final(stack)@ == s,
            Err(e) => res == Err::<(), VerifyError>(e),
        },
{
    reveal(shuffle);
    let ghost s0 = stack@;
    let n = stack.len();
    match op {
        Op::Pop => {
            if n < 1 {
                return Err(VerifyError::WrongCount);
            }
            let v1 = stack[n - 1];
            if v1.is_wide() {
                return Err(VerifyError::WrongType);
            }
            stack.truncate(n - 1);
            assert(stack@ =~= below(s0, 1));
            Ok(())
        },
        Op::Pop2 => {
            if n < 1 {
                return Err(VerifyError::WrongCount);
            }
            let v1 = stack[n - 1];
            if v1.is_wide() {
                stack.truncate(n - 1);
                assert(stack@ =~= below(s0, 1));
                return Ok(());
            }
            if n < 2 {
                return Err(VerifyError::WrongCount);
            }
            stack.truncate(n - 2);
            assert(stack@ =~= below(s0, 2));
            Ok(())
        },
        Op::Dup => {
            if n < 1 {
                return Err(VerifyError::WrongCount);
            }
            let v1 = stack[n - 1];
            if v1.is_wide() {
                return Err(VerifyError::WrongType);
            }
            stack.truncate(n - 1);
            assert(stack@ =~= below(s0, 1));
            push_all(stack, &vec![v1, v1], max)
        },
        Op::DupX1 => {
            if n < 2 {
                return Err(VerifyError::WrongCount);
            }
            let v1 = stack[n - 1];
            let v2 = stack[n - 2];
            if v1.is_wide() || v2.is_wide() {
                return Err(VerifyError::WrongType);
            }
            stack.truncate(n - 2);
            assert(stack@ =~= below(s0, 2));
            push_all(stack, &vec![v1, v2, v1], max)
        },
        Op::DupX2 => {
            if n < 1 {
                return Err(VerifyError::WrongCount);
            }
            let v1 = stack[n - 1];
            if v1.is_wide() {
                return Err(VerifyError::WrongType);
            }
            if n < 2 {
                return Err(VerifyError::WrongCount);
            }
            let v2 = stack[n - 2];
            if v2.is_wide() {
                stack.truncate(n - 2);
                assert(stack@ =~= below(s0, 2));
                return push_all(stack, &vec![v1, v2, v1], max);
            }
            if n < 3 {
                return Err(VerifyError::WrongCount);
            }
            let v3 = stack[n - 3];
            stack.truncate(n - 3);
            assert(stack@ =~= below(s0, 3));
            push_all(stack, &vec![v1, v3, v2, v1], max)
        },
        Op::Dup2 => {
            if n < 1 {
                return Err(VerifyError::WrongCount);
            }
            let v1 = stack[n - 1];
            if v1.is_wide() {
                stack.truncate(n - 1);
                assert(stack@ =~= below(s0, 1));
                return push_all(stack, &vec![v1, v1], max);
            }
            if n < 2 {
                return Err(VerifyError::WrongCount);
            }
            let v2 = stack[n - 2];
            if v2.is_wide() {
                return Err(VerifyError::WrongType);
            }
            stack.truncate(n - 2);
            assert(stack@ =~= below(s0, 2));
            push_all(stack, &vec![v2, v1, v2, v1], max)
        },
        Op::Dup2X2 => {
            if n < 2 {
                return Err(VerifyError::WrongCount);
            }
            let v1 = stack[n - 1];
            let v2 = stack[n - 2];
            if v1.is_wide() {
                if v2.is_wide() {
                    stack.truncate(n - 2);
                    assert(stack@ =~= below(s0, 2));
                    return push_all(stack, &vec![v1, v2, v1], max);
                }
                if n < 3 {
                    return Err(VerifyError::WrongCount);
                }
                let v3 = stack[n - 3];
                if v3.is_wide() {
                    return Err(VerifyError::WrongType);
                }
                stack.truncate(n - 3);
                assert(stack@ =~= below(s0, 3));
                return push_all(stack, &vec![v1, v3, v2, v1], max);
            }
            if v2.is_wide() {
                return Err(VerifyError::WrongType);
            }
            if n < 3 {
                return Err(VerifyError::WrongCount);
            }
            let v3 = stack[n - 3];
            if v3.is_wide() {
                stack.truncate(n - 3);
                assert(stack@ =~= below(s0, 3));
                return push_all(stack, &vec![v2, v1, v3, v2, v1], max);
            }
            if n < 4 {
                return Err(VerifyError::WrongCount);
            }
            let v4 = stack[n - 4];
            if v4.is_wide() {
                return Err(VerifyError::WrongType);
            }
            stack.truncate(n - 4);
            assert(stack@ =~= below(s0, 4));
            push_all(stack, &vec![v2, v1, v4, v3, v2, v1], max)
        },
        Op::Swap => {
            if n < 1 {
                return Err(VerifyError::WrongCount);
            }
            let v1 = stack[n - 1];
            if v1.is_wide() {
                return Err(VerifyError::WrongType);
            }
            if n < 2 {
                return Err(VerifyError::WrongCount);
            }
            let v2 = stack[n - 2];
            if v2.is_wide() {
                return Err(VerifyError::WrongType);
            }
            stack.truncate(n - 2);
            stack.push(v1);
            stack.push(v2);
            assert(stack@ =~= below(s0, 2) + seq![v1, v2]);
            Ok(())
        },
        _ => Ok(()),
    }
}

/// Runs one op, at op index `index`, on `frame`. `Ok(Some(p))` is a `ret`
/// to op index `p`.
pub fn verify_op(op: &Op, index: usize, max_stack: usize, frame: &mut FrameState) -> (res: Result<Option<usize>, VerifyError>)
    requires
        index < usize::MAX,
        stack_valid(old(frame).stack@),
    ensures
        match spec_step(*op, index as int, max_stack as nat, old(frame)@) {
            Ok((g, r)) => res == Ok::<Option<usize>, VerifyError>(r) && final(frame)@ == g,
            Err(e) => res == Err::<Option<usize>, VerifyError>(e),
        },
{
    match op {
        Op::ILoad(i) => load_exec(frame, *i, ValueType::Integer, false, max_stack),
        Op::LLoad(i) => load_exec(frame, *i, ValueType::Long, true, max_stack),
        Op::FLoad(i) => load_exec(frame, *i, ValueType::Float, false, max_stack),
        Op::DLoad(i) => load_exec(frame, *i, ValueType::Double, true, max_stack),
        Op::ALoad(i) => load_exec(frame, *i, ValueType::Reference, false, max_stack),
        Op::IStore(i) => store_exec(frame, *i, ValueType::Integer, false),
        Op::LStore(i) => store_exec(frame, *i, ValueType::Long, true),
        Op::FStore(i) => store_exec(frame, *i, ValueType::Float, false),
        Op::DStore(i) => store_exec(frame, *i, ValueType::Double, true),
        Op::AStore(i) => {
            let v = match pop_value(&mut frame.stack) {
                Ok(v) => v,
                Err(e) => return Err(e),
            };
            match v {
                ValueType::Reference | ValueType::ReturnAddress(_) => {},
                _ => return Err(VerifyError::WrongType),
            }
            if *i >= frame.locals.len() {
                return Err(VerifyError::WrongCount);
            }
            frame.locals.set(*i, v);
            Ok(None)
        },
        Op::IInc(i, _) => {
            if *i >= frame.locals.len() {
                return Err(VerifyError::WrongCount);
            }
            if frame.locals[*i] != ValueType::Integer {
                return Err(VerifyError::WrongType);
            }
            Ok(None)
        },
        Op::Pop | Op::Pop2 | Op::Dup | Op::DupX1 | Op::DupX2 | Op::Dup2 | Op::Dup2X2 | Op::Swap => {
            match shuffle_exec(op, &mut frame.stack, max_stack) {
                Ok(()) => Ok(None),
                Err(e) => Err(e),
            }
        },
        Op::Jsr(_) => {
            let pushed = vec![ValueType::ReturnAddress(index + 1)];
            assert(pushed@ =~= seq![ValueType::ReturnAddress((index + 1) as usize)]);
            match push_all(&mut frame.stack, &pushed, max_stack) {
                Ok(()) => Ok(None),
                Err(e) => Err(e),
            }
        },
        Op::Ret(i) => {
            if *i >= frame.locals.len() {
                return Err(VerifyError::WrongCount);
            }
            match frame.locals[*i] {
                ValueType::ReturnAddress(p) => Ok(Some(p)),
                _ => Err(VerifyError::WrongType),
            }
        },
        _ => match stack_effect_of(op) {
            Some((pops, pushes)) => match apply_stack_effect(&mut frame.stack, &pops, &pushes, max_stack) {
                Ok(()) => Ok(None),
                Err(e) => Err(e),
            },
            None => Ok(None),
        },
    }
}

// ---------------------------------------------------------------------------
// Stacks never hold `Invalid`
// ---------------------------------------------------------------------------

/// What popping leaves is a prefix of the stack.
proof fn lemma_pop_each_prefix(stack: Seq<ValueType>, wants: Seq<ValueType>)
    ensures
        pop_each(stack, wants) matches Ok(rest) ==> rest.len() <= stack.len() && rest =~= stack.subrange(0, rest.len() as int),
    decreases wants.len(),
{
    if wants.len() > 0 {
        if let Ok(rest) = pop_one(stack, wants[0]) {
            lemma_pop_each_prefix(rest, wants.drop_first());
        }
    }
}

/// The values an op pushes, when it is admissible, are never `Invalid`.
proof fn lemma_effect_pushes_valid(op: Op)
    requires
        op_admissible(op),
    ensures
        stack_effect(op) matches Some((pops, pushes)) ==> stack_valid(pushes),
{
    reveal(stack_effect);
    match op {
        Op::Ldc(e) => {},
        Op::InvokeVirtual(m, _) | Op::InvokeVirtualWide(m, _) | Op::InvokeSpecial(m)
        | Op::InvokeStatic(m) => {
            assert(!(kind_of(m.descriptor@.return_type) is Invalid) || m.descriptor@.return_type is Void);
        },
        Op::InvokeInterface(info) => {
            assert(!(kind_of(info.descriptor@.return_type) is Invalid) || info.descriptor@.return_type is Void);
        },
        _ => {},
    }
}

/// Running an admissible op on a frame whose stack holds no `Invalid` gives
/// such a frame again.
proof fn lemma_step_keeps_valid(op: Op, index: int, max: nat, f: AbstractFrame)
    requires
        op_admissible(op),
        stack_valid(f.stack),
    ensures
        spec_step(op, index, max, f) matches Ok((g, _)) ==> stack_valid(g.stack),
{
    reveal(shuffle);
    let s = f.stack;
    match op {
        Op::ILoad(_) | Op::LLoad(_) | Op::FLoad(_) | Op::DLoad(_) | Op::ALoad(_) | Op::Jsr(_) => {},
        Op::IStore(_) | Op::LStore(_) | Op::FStore(_) | Op::DStore(_) | Op::AStore(_) | Op::IInc(_, _)
        | Op::Ret(_) => {},
        Op::Pop | Op::Pop2 | Op::Dup | Op::DupX1 | Op::DupX2 | Op::Dup2 | Op::Dup2X2 | Op::Swap => {
            assert(s.len() >= 1 ==> !(nth_top(s, 1) is Invalid));
            assert(s.len() >= 2 ==> !(nth_top(s, 2) is Invalid));
            assert(s.len() >= 3 ==> !(nth_top(s, 3) is Invalid));
            assert(s.len() >= 4 ==> !(nth_top(s, 4) is Invalid));
        },
        _ => {
            lemma_effect_pushes_valid(op);
            if let Some((pops, pushes)) = stack_effect(op) {
                lemma_pop_each_prefix(s, pops);
            }
        },
    }
}

// ---------------------------------------------------------------------------
// Basic blocks
// ---------------------------------------------------------------------------

/// The ways a block can be left.
#[derive(Debug)]
pub enum BlockExits {
    /// To any of the blocks listed (`tableswitch`, `lookupswitch`).
    BranchMultiple(Vec<usize>),
    /// To any of the exception handlers listed, with one reference on the
    /// stack.
    BranchMultipleException(Vec<usize>),
    /// To the block listed or the next block (conditional branches).
    Branch(usize),
    /// To the block listed (`goto`, `jsr`).
    Goto(usize),
    /// Through a `ret`, to the block its return address names.
    SubroutineReturn,
    /// To the next block.
    NextBlock,
    /// Out of the method.
    Return,
}

/// A run of ops entered only at its first and left only after its last.
#[derive(Debug)]
pub struct BasicBlock {
    /// The index of its first op.
    pub start_index: usize,
    /// The index after its last op.
    pub end_index: usize,
    /// Where execution goes after it; before the blocks are numbered the
    /// targets are op indices, after it block indices.
    pub exits: BlockExits,
}

/// The ways a block can be left, as values.
pub enum SpecExits {
    BranchMultiple(Seq<usize>),
    BranchMultipleException(Seq<usize>),
    Branch(usize),
    Goto(usize),
    SubroutineReturn,
    NextBlock,
    Return,
}

impl View for BlockExits {
    type V = SpecExits;

    open spec fn view(&self) -> SpecExits {
        match self {
            BlockExits::BranchMultiple(t) => SpecExits::BranchMultiple(t@),
            BlockExits::BranchMultipleException(t) => SpecExits::BranchMultipleException(t@),
            BlockExits::Branch(t) => SpecExits::Branch(*t),
            BlockExits::Goto(t) => SpecExits::Goto(*t),
            BlockExits::SubroutineReturn => SpecExits::SubroutineReturn,
            BlockExits::NextBlock => SpecExits::NextBlock,
            BlockExits::Return => SpecExits::Return,
        }
    }
}

/// A basic block as values.
pub struct SpecBlock {
    pub start: int,
    pub end: int,
    pub exits: SpecExits,
}

impl View for BasicBlock {
    type V = SpecBlock;

    open spec fn view(&self) -> SpecBlock {
        SpecBlock { start: self.start_index as int, end: self.end_index as int, exits: self.exits@ }
    }
}

/// Running the ops from index `i` up to `end`: the frame at the end, or at
/// a `ret` with the op index it returns to.
pub open spec fn spec_run(ops: Seq<Op>, i: int, end: int, max: nat, f: AbstractFrame) -> Result<(AbstractFrame, Option<usize>), VerifyError>
    decreases end - i,
{
    if i >= end {
        Ok((f, None))
    } else {
        match spec_step(ops[i], i, max, f) {
            Err(e) => Err(e),
            Ok((g, Some(p))) => Ok((g, Some(p))),
            Ok((g, None)) => spec_run(ops, i + 1, end, max, g),
        }
    }
}

/// The (block, frame) pairs a block that ended with frame `f` hands on, in
/// the order they are queued.
pub open spec fn spec_successors(exits: SpecExits, block_idx: int, f: AbstractFrame) -> Seq<(usize, AbstractFrame)> {
    match exits {
        SpecExits::BranchMultiple(targets) => targets.map_values(|t: usize| (t, f)),
        SpecExits::BranchMultipleException(targets) => {
            let h = AbstractFrame { locals: f.locals, stack: seq![ValueType::Reference] };
            targets.map_values(|t: usize| (t, h))
        },
        SpecExits::Goto(t) => seq![(t, f)],
        SpecExits::Branch(t) => seq![(t, f), ((block_idx + 1) as usize, f)],
        SpecExits::NextBlock => seq![((block_idx + 1) as usize, f)],
        SpecExits::SubroutineReturn | SpecExits::Return => Seq::empty(),
    }
}

/// The worklist entries as (block, frame) values.
pub open spec fn entries_view(w: Seq<(usize, FrameState)>) -> Seq<(usize, AbstractFrame)> {
    w.map_values(|e: (usize, FrameState)| (e.0, e.1@))
}

/// What running a block on frame `f` queues: the handed-on pairs, or for a
/// `ret` the block that starts at the return address.
pub open spec fn block_outcome(ops: Seq<Op>, block: SpecBlock, block_idx: int, max: nat, f: AbstractFrame, table: Map<usize, usize>) -> Result<Seq<(usize, AbstractFrame)>, VerifyError> {
    match spec_run(ops, block.start, block.end, max, f) {
        Err(e) => Err(e),
        Ok((g, Some(p))) => Ok(seq![(table[p], g)]),
        Ok((g, None)) => Ok(spec_successors(block.exits, block_idx, g)),
    }
}

/// The ops from `start` up to `end` are admissible.
pub open spec fn ops_admissible(ops: Seq<Op>, start: int, end: int) -> bool {
    forall|i: int| start <= i < end ==> op_admissible(#[trigger] ops[i])
}

/// A `ret` the block ends at returns to the start of a block.
pub open spec fn return_resolves(ops: Seq<Op>, block: SpecBlock, max: nat, f: AbstractFrame, table: Map<usize, usize>) -> bool {
    spec_run(ops, block.start, block.end, max, f) matches Ok((_, Some(p))) ==> table.contains_key(p)
}

/// Running the ops from `i` keeps the stack free of `Invalid`.
proof fn lemma_run_keeps_valid(ops: Seq<Op>, i: int, end: int, max: nat, f: AbstractFrame)
    requires
        ops_admissible(ops, i, end),
        end <= ops.len(),
        0 <= i,
        stack_valid(f.stack),
    ensures
        spec_run(ops, i, end, max, f) matches Ok((g, _)) ==> stack_valid(g.stack),
    decreases end - i,
{
    if i < end {
        lemma_step_keeps_valid(ops[i], i, max, f);
        if let Ok((g, None)) = spec_step(ops[i], i, max, f) {
            lemma_run_keeps_valid(ops, i + 1, end, max, g);
        }
    }
}

/// Runs block `block_idx` on `frame_state` and queues what it hands on.
pub fn verify_block(
    ops: &[Op],
    block: &BasicBlock,
    block_idx: usize,
    max_stack: usize,
    frame_state: FrameState,
    worklist: &mut Vec<(usize, FrameState)>,
    table: &IndexTable,
) -> (res: Result<(), VerifyError>)
    requires
        block.start_index <= block.end_index <= ops@.len(),
        ops@.len() < usize::MAX,
        block_idx < usize::MAX,
        ops_admissible(ops@, block.start_index as int, block.end_index as int),
        stack_valid(frame_state.stack@),
        return_resolves(ops@, block@, max_stack as nat, frame_state@, index_table_contents(*table)),
    ensures
        match block_outcome(ops@, block@, block_idx as int, max_stack as nat, frame_state@, index_table_contents(*table)) {
            Err(e) => res == Err::<(), VerifyError>(e),
            Ok(queued) => res is Ok && entries_view(final(worklist)@) == entries_view(old(worklist)@) + queued,
        },
{
    let ghost f0 = frame_state@;
    let ghost start = block.start_index as int;
    let ghost end = block.end_index as int;
    let ghost max = max_stack as nat;
    let mut frame = frame_state;
    let mut i = block.start_index;
    while i < block.end_index
        invariant
            block.start_index <= i <= block.end_index <= ops@.len(),
            ops@.len() < usize::MAX,
            ops_admissible(ops@, i as int, end),
            end == block.end_index,
            stack_valid(frame.stack@),
            spec_run(ops@, start, end, max, f0) == spec_run(ops@, i as int, end, max, frame@),
            worklist@ == old(worklist)@,
            max == max_stack,
            start == block.start_index,
            f0 == frame_state@,
            spec_run(ops@, start, end, max, f0) matches Ok((_, Some(p))) ==> index_table_contents(*table).contains_key(p),
        decreases block.end_index - i,
    {
        let ghost before = frame@;
        proof {
            lemma_step_keeps_valid(ops@[i as int], i as int, max, before);
        }
        match verify_op(&ops[i], i, max_stack, &mut frame) {
            Err(e) => {
                assert(spec_run(ops@, i as int, end, max, before) == Err::<(AbstractFrame, Option<usize>), VerifyError>(e));
                return Err(e);
            },
            Ok(Some(p)) => {
                assert(spec_run(ops@, i as int, end, max, before) == Ok::<(AbstractFrame, Option<usize>), VerifyError>((frame@, Some(p))));
                let target = match index_table_get(table, p) {
                    Some(t) => t,
                    None => return Err(VerifyError::WrongType),
                };
                worklist.push((target, frame));
                proof {
                    assert(entries_view(worklist@) =~= entries_view(old(worklist)@) + seq![(target, frame@)]);
                }
                return Ok(());
            },
            Ok(None) => {},
        }
        i = i + 1;
    }
    let ghost g = frame@;
    assert(spec_run(ops@, i as int, end, max, g) == Ok::<(AbstractFrame, Option<usize>), VerifyError>((g, None)));
    match &block.exits {
        BlockExits::BranchMultiple(targets) => {
            let mut k: usize = 0;
            while k < targets.len()
                invariant
                    k <= targets@.len(),
                    frame@ == g,
                    entries_view(worklist@) =~= entries_view(old(worklist)@) + targets@.take(k as int).map_values(|t: usize| (t, g)),
                decreases targets@.len() - k,
            {
                let ghost w0 = worklist@;
                worklist.push((targets[k], frame.duplicate()));
                assert(entries_view(worklist@) =~= entries_view(w0).push((targets@[k as int], g)));
                assert(targets@.take(k + 1).map_values(|t: usize| (t, g)) =~= targets@.take(k as int).map_values(|t: usize| (t, g)).push((targets@[k as int], g)));
                k = k + 1;
            }
            assert(targets@.take(k as int) =~= targets@);
        },
        BlockExits::BranchMultipleException(targets) => {
            let handler = FrameState { locals: frame.locals, stack: vec![ValueType::Reference] };
            let ghost h = handler@;
            assert(h.stack =~= seq![ValueType::Reference]);
            let mut k: usize = 0;
            while k < targets.len()
                invariant
                    k <= targets@.len(),
                    handler@ == h,
                    entries_view(worklist@) =~= entries_view(old(worklist)@) + targets@.take(k as int).map_values(|t: usize| (t, h)),
                decreases targets@.len() - k,
            {
                let ghost w0 = worklist@;
                worklist.push((targets[k], handler.duplicate()));
                assert(entries_view(worklist@) =~= entries_view(w0).push((targets@[k as int], h)));
                assert(targets@.take(k + 1).map_values(|t: usize| (t, h)) =~= targets@.take(k as int).map_values(|t: usize| (t, h)).push((targets@[k as int], h)));
                k = k + 1;
            }
            assert(targets@.take(k as int) =~= targets@);
        },
        BlockExits::Goto(t) => {
            worklist.push((*t, frame));
            assert(entries_view(worklist@) =~= entries_view(old(worklist)@) + seq![(*t, g)]);
        },
        BlockExits::Branch(t) => {
            worklist.push((*t, frame.duplicate()));
            worklist.push((block_idx + 1, frame));
            assert(entries_view(worklist@) =~= entries_view(old(worklist)@) + seq![(*t, g), ((block_idx + 1) as usize, g)]);
        },
        BlockExits::NextBlock => {
            worklist.push((block_idx + 1, frame));
            assert(entries_view(worklist@) =~= entries_view(old(worklist)@) + seq![((block_idx + 1) as usize, g)]);
        },
        BlockExits::SubroutineReturn | BlockExits::Return => {
            assert(entries_view(worklist@) =~= entries_view(old(worklist)@) + Seq::<(usize, AbstractFrame)>::empty());
        },
    }
    Ok(())
}

// ---------------------------------------------------------------------------
// Where control can go
// ---------------------------------------------------------------------------

/// The op indices an op jumps to (falling through and handlers aside).
pub open spec fn branch_targets(op: Op) -> Seq<usize> {
    match op {
        Op::IfEq(p) | Op::IfNe(p) | Op::IfLt(p) | Op::IfGe(p) | Op::IfGt(p) | Op::IfLe(p)
        | Op::IfICmpEq(p) | Op::IfICmpNe(p) | Op::IfICmpLt(p) | Op::IfICmpGe(p) | Op::IfICmpGt(p)
        | Op::IfICmpLe(p) | Op::IfACmpEq(p) | Op::IfACmpNe(p) | Op::IfNull(p) | Op::IfNonNull(p)
        | Op::Goto(p) | Op::Jsr(p) => seq![p],
        Op::TableSwitch(t) => seq![t.default_offset] + t.matches@,
        Op::LookupSwitch(t) => seq![t.default_offset] + t.matches@.map_values(|m: (i32, usize)| m.1),
        _ => Seq::empty(),
    }
}

/// Whether execution never goes on from an op to the next one.
pub open spec fn ends_flow(op: Op) -> bool {
    match op {
        Op::Goto(_) | Op::TableSwitch(_) | Op::LookupSwitch(_) | Op::AThrow | Op::IReturn
        | Op::LReturn | Op::FReturn | Op::DReturn | Op::AReturn | Op::Return => true,
        _ => false,
    }
}

/// Handler `k` covers op `i` and starts at `t`.
pub open spec fn handler_at(exc: Seq<Exception>, k: int, i: int, t: int) -> bool {
    0 <= k < exc.len() && exc[k].start <= i < exc[k].end && exc[k].target == t
}

/// The op indices an op at index `i` can transfer to other than the next
/// op: its branch targets and, when it can throw, the handlers covering it.
pub open spec fn op_jump_target(op: Op, exc: Seq<Exception>, i: int, t: int) -> bool {
    ||| 0 <= t <= usize::MAX && branch_targets(op).contains(t as usize)
    ||| spec_can_throw(op) && exists|k: int| #[trigger] handler_at(exc, k, i, t)
}

/// Op `i` can transfer to `t` other than by going on to the next op.
pub open spec fn jump_target(ops: Seq<Op>, exc: Seq<Exception>, i: int, t: int) -> bool {
    op_jump_target(ops[i], exc, i, t)
}

/// Control can go from op `i` to op index `j`.
pub open spec fn flows_to(ops: Seq<Op>, exc: Seq<Exception>, i: int, j: int) -> bool {
    ||| jump_target(ops, exc, i, j)
    ||| !ends_flow(ops[i]) && j == i + 1
}

/// `path` is a run of op indices from the entry, each transferring to the
/// next.
pub open spec fn is_path(ops: Seq<Op>, exc: Seq<Exception>, path: Seq<int>) -> bool {
    &&& path.len() > 0
    &&& path[0] == 0
    &&& forall|k: int| 0 <= k < path.len() - 1 ==> 0 <= #[trigger] path[k] < ops.len() && flows_to(ops, exc, path[k], path[k + 1])
}

/// Op index `j` can be reached from the entry.
pub open spec fn op_reachable(ops: Seq<Op>, exc: Seq<Exception>, j: int) -> bool {
    exists|path: Seq<int>| #[trigger] is_path(ops, exc, path) && path.last() == j
}

/// Execution can run past the last op.
pub open spec fn falls_off(ops: Seq<Op>, exc: Seq<Exception>) -> bool {
    exists|j: int| #[trigger] op_reachable(ops, exc, j) && j >= ops.len()
}

/// The op indices that some reachable op jumps to.
pub open spec fn reached_targets(ops: Seq<Op>, exc: Seq<Exception>) -> Set<usize> {
    Set::new(|t: usize| exists|i: int| 0 <= i < ops.len() && #[trigger] op_reachable(ops, exc, i) && jump_target(ops, exc, i, t as int))
}

/// The entry is reachable.
proof fn lemma_entry_reachable(ops: Seq<Op>, exc: Seq<Exception>)
    ensures
        op_reachable(ops, exc, 0),
{
    assert(is_path(ops, exc, seq![0int]));
}

/// What a reachable op transfers to is reachable.
proof fn lemma_reachable_step(ops: Seq<Op>, exc: Seq<Exception>, i: int, j: int)
    requires
        0 <= i < ops.len(),
        op_reachable(ops, exc, i),
        flows_to(ops, exc, i, j),
    ensures
        op_reachable(ops, exc, j),
{
    let path = choose|path: Seq<int>| #[trigger] is_path(ops, exc, path) && path.last() == i;
    let longer = path.push(j);
    assert forall|k: int| 0 <= k < longer.len() - 1 implies 0 <= #[trigger] longer[k] < ops.len() && flows_to(ops, exc, longer[k], longer[k + 1]) by {
        if k < path.len() - 1 {
            assert(longer[k] == path[k] && longer[k + 1] == path[k + 1]);
        }
    }
    assert(is_path(ops, exc, longer));
}

/// A set of op indices that holds the entry and what each of its ops
/// transfers to holds every index of a path.
proof fn lemma_closed_holds_path(ops: Seq<Op>, exc: Seq<Exception>, done: Set<int>, path: Seq<int>, k: int)
    requires
        done.contains(0),
        forall|d: int, j: int| #[trigger] done.contains(d) && flows_to(ops, exc, d, j) ==> #[trigger] done.contains(j),
        is_path(ops, exc, path),
        0 <= k < path.len(),
    ensures
        done.contains(path[k]),
    decreases k,
{
    if k > 0 {
        lemma_closed_holds_path(ops, exc, done, path, k - 1);
        assert(flows_to(ops, exc, path[k - 1], path[k]));
    }
}

/// A set of op indices that holds the entry and what each of its ops
/// transfers to holds every reachable index.
proof fn lemma_closed_holds_reachable(ops: Seq<Op>, exc: Seq<Exception>, done: Set<int>, j: int)
    requires
        done.contains(0),
        forall|d: int, k: int| #[trigger] done.contains(d) && flows_to(ops, exc, d, k) ==> #[trigger] done.contains(k),
        op_reachable(ops, exc, j),
    ensures
        done.contains(j),
{
    let path = choose|path: Seq<int>| #[trigger] is_path(ops, exc, path) && path.last() == j;
    lemma_closed_holds_path(ops, exc, done, path, path.len() - 1);
}

// ---------------------------------------------------------------------------
// Sets of op indices
// ---------------------------------------------------------------------------

/// A set of op indices.
#[verifier::external_body]
pub struct IndexSet {
    set: hashbrown::HashSet<usize>,
}

/// The indices a set holds.
pub uninterp spec fn index_set_contents(set: IndexSet) -> Set<usize>;

/// The empty set of op indices.
pub open spec fn no_indices() -> Set<usize> {
    Set::empty()
}

/// An empty set.
///
/// Trusted: calls `hashbrown::HashSet::new`, which creates an empty set.
#[verifier::external_body]
pub(crate) fn index_set_new() -> (res: IndexSet)
    ensures
        index_set_contents(res) == no_indices(),
{
    IndexSet { set: hashbrown::HashSet::new() }
}

/// Whether `x` is in the set.
///
/// Trusted: calls `hashbrown::HashSet::contains`, which reports whether an
/// equal value is stored.
#[verifier::external_body]
pub(crate) fn index_set_contains(set: &IndexSet, x: usize) -> (res: bool)
    ensures
        res == index_set_contents(*set).contains(x),
{
    set.set.contains(&x)
}

/// Adds `x` to the set.
///
/// Trusted: calls `hashbrown::HashSet::insert`, which stores the value
/// unless an equal one is already stored.
#[verifier::external_body]
pub(crate) fn index_set_insert(set: &mut IndexSet, x: usize)
    ensures
        index_set_contents(*final(set)) == index_set_contents(*old(set)).insert(x),
{
    set.set.insert(x);
}

// ---------------------------------------------------------------------------
// Phase one: which op indices are jumped to, and whether execution can run
// past the end
// ---------------------------------------------------------------------------

/// Every op index that some op names as a branch target.
pub open spec fn all_branch_targets(ops: Seq<Op>) -> Seq<usize>
    decreases ops.len(),
{
    if ops.len() == 0 {
        Seq::empty()
    } else {
        all_branch_targets(ops.drop_last()) + branch_targets(ops.last())
    }
}

/// Every op index an op or a handler names.
pub open spec fn target_bound(ops: Seq<Op>, exc: Seq<Exception>) -> Set<usize> {
    all_branch_targets(ops).to_set().union(exc.map_values(|e: Exception| e.target).to_set())
}

/// A branch target of an op is among all branch targets.
proof fn lemma_branch_target_listed(ops: Seq<Op>, i: int, t: usize)
    requires
        0 <= i < ops.len(),
        branch_targets(ops[i]).contains(t),
    ensures
        all_branch_targets(ops).contains(t),
    decreases ops.len(),
{
    let last = ops.len() - 1;
    if i < last {
        assert(ops.drop_last()[i] == ops[i]);
        lemma_branch_target_listed(ops.drop_last(), i, t);
        let k = choose|k: int| 0 <= k < all_branch_targets(ops.drop_last()).len() && all_branch_targets(ops.drop_last())[k] == t;
        assert(all_branch_targets(ops)[k] == t);
    } else {
        let k = choose|k: int| 0 <= k < branch_targets(ops.last()).len() && branch_targets(ops.last())[k] == t;
        assert(all_branch_targets(ops)[all_branch_targets(ops.drop_last()).len() + k] == t);
    }
}

/// The jump targets of an op are within the bound, which is finite.
proof fn lemma_target_bound(ops: Seq<Op>, exc: Seq<Exception>, i: int, t: usize)
    requires
        0 <= i < ops.len(),
        op_jump_target(ops[i], exc, i, t as int),
    ensures
        target_bound(ops, exc).contains(t),
        target_bound(ops, exc).finite(),
{
    broadcast use vstd::seq_lib::seq_to_set_is_finite;
    if branch_targets(ops[i]).contains(t) {
        lemma_branch_target_listed(ops, i, t);
    } else {
        let k = choose|k: int| #[trigger] handler_at(exc, k, i, t as int);
        assert(exc.map_values(|e: Exception| e.target)[k] == t);
    }
}

/// `w` is `w0` with the indices added to `v0` to make `v` pushed, one push
/// for each.
pub open spec fn noted(v0: Set<usize>, w0: Seq<usize>, v: Set<usize>, w: Seq<usize>) -> bool {
    &&& v0.subset_of(v)
    &&& v.finite()
    &&& w0.len() <= w.len()
    &&& w.subrange(0, w0.len() as int) == w0
    &&& v.len() == v0.len() + (w.len() - w0.len())
    &&& forall|t: usize| #[trigger] v.contains(t) && !v0.contains(t) ==> w.contains(t)
    &&& forall|k: int| w0.len() <= k < w.len() ==> v.contains(#[trigger] w[k]) && !v0.contains(w[k])
}

/// Noting is transitive.
proof fn lemma_noted_trans(v0: Set<usize>, w0: Seq<usize>, v1: Set<usize>, w1: Seq<usize>, v2: Set<usize>, w2: Seq<usize>)
    requires
        noted(v0, w0, v1, w1),
        noted(v1, w1, v2, w2),
    ensures
        noted(v0, w0, v2, w2),
{
    assert(w2.subrange(0, w0.len() as int) =~= w1.subrange(0, w0.len() as int));
    assert forall|t: usize| #[trigger] v2.contains(t) && !v0.contains(t) implies w2.contains(t) by {
        if !v1.contains(t) {
        } else {
            let k = choose|k: int| 0 <= k < w1.len() && w1[k] == t;
            assert(w2[k] == w1[k]);
        }
    }
    assert forall|k: int| w0.len() <= k < w2.len() implies v2.contains(#[trigger] w2[k]) && !v0.contains(w2[k]) by {
        if k < w1.len() {
            assert(w2[k] == w1[k]);
        }
    }
}

/// Nothing noted.
proof fn lemma_noted_refl(v: Set<usize>, w: Seq<usize>)
    requires
        v.finite(),
    ensures
        noted(v, w, v, w),
{
    assert(w.subrange(0, w.len() as int) =~= w);
}

/// Queues `t` unless it was seen before, and marks it seen.
fn note_target(visited: &mut IndexSet, worklist: &mut Vec<usize>, t: usize)
    requires
        index_set_contents(*old(visited)).finite(),
    ensures
        index_set_contents(*final(visited)) == index_set_contents(*old(visited)).insert(t),
        noted(index_set_contents(*old(visited)), old(worklist)@, index_set_contents(*final(visited)), final(worklist)@),
{
    let ghost v0 = index_set_contents(*visited);
    let ghost w0 = worklist@;
    if !index_set_contains(visited, t) {
        index_set_insert(visited, t);
        worklist.push(t);
        assert(worklist@[w0.len() as int] == t);
        assert(worklist@.subrange(0, w0.len() as int) =~= w0);
    } else {
        assert(v0.insert(t) =~= v0);
        proof {
            lemma_noted_refl(v0, w0);
        }
    }
}

/// Queues each of `targets` not seen before, and marks them seen.
fn note_targets(visited: &mut IndexSet, worklist: &mut Vec<usize>, targets: &Vec<usize>)
    requires
        index_set_contents(*old(visited)).finite(),
    ensures
        forall|t: usize| #[trigger] index_set_contents(*final(visited)).contains(t) <==> index_set_contents(*old(visited)).contains(t) || targets@.contains(t),
        noted(index_set_contents(*old(visited)), old(worklist)@, index_set_contents(*final(visited)), final(worklist)@),
{
    let ghost v0 = index_set_contents(*visited);
    let ghost w0 = worklist@;
    proof {
        lemma_noted_refl(v0, w0);
    }
    let mut k: usize = 0;
    while k < targets.len()
        invariant
            k <= targets@.len(),
            v0.finite(),
            noted(v0, w0, index_set_contents(*visited), worklist@),
            forall|t: usize| #[trigger] index_set_contents(*visited).contains(t) <==> v0.contains(t) || targets@.take(k as int).contains(t),
        decreases targets@.len() - k,
    {
        let ghost v1 = index_set_contents(*visited);
        let ghost w1 = worklist@;
        note_target(visited, worklist, targets[k]);
        proof {
            lemma_noted_trans(v0, w0, v1, w1, index_set_contents(*visited), worklist@);
            let before = targets@.take(k as int);
            let after = targets@.take(k + 1);
            assert(after =~= before.push(targets@[k as int]));
            assert forall|t: usize| #[trigger] after.contains(t) <==> before.contains(t) || t == targets@[k as int] by {
                if after.contains(t) && !before.contains(t) {
                    let j = choose|j: int| 0 <= j < after.len() && after[j] == t;
                    if j < before.len() {
                        assert(before[j] == t);
                    }
                }
                if before.contains(t) {
                    let j = choose|j: int| 0 <= j < before.len() && before[j] == t;
                    assert(after[j] == t);
                }
                if t == targets@[k as int] {
                    assert(after[k as int] == t);
                }
            }
        }
        k = k + 1;
    }
    assert(targets@.take(k as int) =~= targets@);
}

/// Queues the jump targets of op `op`, at index `i`, not seen before, and
/// marks them seen.
fn note_jump_targets(op: &Op, i: usize, exceptions: &[Exception], visited: &mut IndexSet, worklist: &mut Vec<usize>)
    requires
        index_set_contents(*old(visited)).finite(),
    ensures
        forall|t: usize| #[trigger] index_set_contents(*final(visited)).contains(t)
            <==> index_set_contents(*old(visited)).contains(t) || op_jump_target(*op, exceptions@, i as int, t as int),
        noted(index_set_contents(*old(visited)), old(worklist)@, index_set_contents(*final(visited)), final(worklist)@),
{
    let ghost v0 = index_set_contents(*visited);
    let ghost w0 = worklist@;
    let ghost exc = exceptions@;
    proof {
        lemma_noted_refl(v0, w0);
    }
    if op.can_throw_error() {
        let mut k: usize = 0;
        while k < exceptions.len()
            invariant
                k <= exc.len(),
                exc == exceptions@,
                v0.finite(),
                noted(v0, w0, index_set_contents(*visited), worklist@),
                forall|t: usize| #[trigger] index_set_contents(*visited).contains(t)
                    <==> v0.contains(t) || exists|k2: int| 0 <= k2 < k && #[trigger] handler_at(exc, k2, i as int, t as int),
            decreases exc.len() - k,
        {
            let e = &exceptions[k];
            if i >= e.start && i < e.end {
                let ghost v1 = index_set_contents(*visited);
                let ghost w1 = worklist@;
                note_target(visited, worklist, e.target);
                proof {
                    lemma_noted_trans(v0, w0, v1, w1, index_set_contents(*visited), worklist@);
                    assert(handler_at(exc, k as int, i as int, e.target as int));
                }
            }
            proof {
                assert forall|t: usize| #[trigger] index_set_contents(*visited).contains(t)
                    <==> v0.contains(t) || exists|k2: int| 0 <= k2 < k + 1 && #[trigger] handler_at(exc, k2, i as int, t as int) by {
                    if exists|k2: int| 0 <= k2 < k + 1 && #[trigger] handler_at(exc, k2, i as int, t as int) {
                        let k2 = choose|k2: int| 0 <= k2 < k + 1 && #[trigger] handler_at(exc, k2, i as int, t as int);
                        if k2 < k {
                            assert(exists|k3: int| 0 <= k3 < k && #[trigger] handler_at(exc, k3, i as int, t as int));
                        }
                    }
                }
            }
            k = k + 1;
        }
    }
    let ghost v_h = index_set_contents(*visited);
    let ghost w_h = worklist@;
    assert forall|t: usize| #[trigger] v_h.contains(t)
        <==> v0.contains(t) || (spec_can_throw(*op) && exists|k2: int| #[trigger] handler_at(exc, k2, i as int, t as int)) by {
        if spec_can_throw(*op) && exists|k2: int| #[trigger] handler_at(exc, k2, i as int, t as int) {
            let k2 = choose|k2: int| #[trigger] handler_at(exc, k2, i as int, t as int);
            assert(0 <= k2 < exc.len());
        }
    }
    match op {
        Op::IfEq(p) | Op::IfNe(p) | Op::IfLt(p) | Op::IfGe(p) | Op::IfGt(p) | Op::IfLe(p)
        | Op::IfICmpEq(p) | Op::IfICmpNe(p) | Op::IfICmpLt(p) | Op::IfICmpGe(p) | Op::IfICmpGt(p)
        | Op::IfICmpLe(p) | Op::IfACmpEq(p) | Op::IfACmpNe(p) | Op::IfNull(p) | Op::IfNonNull(p)
        | Op::Goto(p) | Op::Jsr(p) => {
            note_target(visited, worklist, *p);
            proof {
                lemma_noted_trans(v0, w0, v_h, w_h, index_set_contents(*visited), worklist@);
                assert forall|t: usize| #[trigger] branch_targets(*op).contains(t) <==> t == *p by {
                    if t == *p {
                        assert(branch_targets(*op)[0] == t);
                    }
                }
            }
        },
        Op::TableSwitch(table) => {
            note_target(visited, worklist, table.default_offset);
            let ghost v_d = index_set_contents(*visited);
            let ghost w_d = worklist@;
            note_targets(visited, worklist, &table.matches);
            proof {
                lemma_noted_trans(v0, w0, v_h, w_h, v_d, w_d);
                lemma_noted_trans(v0, w0, v_d, w_d, index_set_contents(*visited), worklist@);
                let bt = branch_targets(*op);
                assert(bt == seq![table.default_offset] + table.matches@);
                assert forall|t: usize| #[trigger] bt.contains(t) <==> t == table.default_offset || table.matches@.contains(t) by {
                    if t == table.default_offset {
                        assert(bt[0] == t);
                    }
                    if table.matches@.contains(t) {
                        let j = choose|j: int| 0 <= j < table.matches@.len() && table.matches@[j] == t;
                        assert(bt[j + 1] == t);
                    }
                    if bt.contains(t) && t != table.default_offset {
                        let j = choose|j: int| 0 <= j < bt.len() && bt[j] == t;
                        assert(table.matches@[j - 1] == t);
                    }
                }
            }
        },
        Op::LookupSwitch(table) => {
            note_target(visited, worklist, table.default_offset);
            let ghost v_d = index_set_contents(*visited);
            let ghost w_d = worklist@;
            let mut offsets: Vec<usize> = Vec::new();
            let mut k: usize = 0;
            while k < table.matches.len()
                invariant
                    k <= table.matches@.len(),
                    offsets@ =~= table.matches@.take(k as int).map_values(|m: (i32, usize)| m.1),
                decreases table.matches@.len() - k,
            {
                offsets.push(table.matches[k].1);
                assert(table.matches@.take(k + 1) =~= table.matches@.take(k as int).push(table.matches@[k as int]));
                k = k + 1;
            }
            assert(table.matches@.take(k as int) =~= table.matches@);
            note_targets(visited, worklist, &offsets);
            proof {
                lemma_noted_trans(v0, w0, v_h, w_h, v_d, w_d);
                lemma_noted_trans(v0, w0, v_d, w_d, index_set_contents(*visited), worklist@);
                let bt = branch_targets(*op);
                assert(bt == seq![table.default_offset] + offsets@);
                assert forall|t: usize| #[trigger] bt.contains(t) <==> t == table.default_offset || offsets@.contains(t) by {
                    if t == table.default_offset {
                        assert(bt[0] == t);
                    }
                    if offsets@.contains(t) {
                        let j = choose|j: int| 0 <= j < offsets@.len() && offsets@[j] == t;
                        assert(bt[j + 1] == t);
                    }
                    if bt.contains(t) && t != table.default_offset {
                        let j = choose|j: int| 0 <= j < bt.len() && bt[j] == t;
                        assert(offsets@[j - 1] == t);
                    }
                }
            }
        },
        _ => {
            assert(branch_targets(*op) =~= Seq::<usize>::empty());
        },
    }
}

/// Whether execution never goes on from `op` to the next op.
fn ends_flow_exec(op: &Op) -> (res: bool)
    ensures
        res == ends_flow(*op),
{
    match op {
        Op::Goto(_) | Op::TableSwitch(_) | Op::LookupSwitch(_) | Op::AThrow | Op::IReturn
        | Op::LReturn | Op::FReturn | Op::DReturn | Op::AReturn | Op::Return => true,
        _ => false,
    }
}

/// The targets seen are those of done ops, and cover them.
pub open spec fn targets_of_done(o: Seq<Op>, exc: Seq<Exception>, done: Set<int>, v: Set<usize>) -> bool {
    &&& forall|t: usize| #[trigger] v.contains(t) ==> exists|d: int| done.contains(d) && jump_target(o, exc, d, t as int)
    &&& forall|d: int, t: int| done.contains(d) && #[trigger] jump_target(o, exc, d, t) ==> 0 <= t && v.contains(t as usize)
}

/// Walks every path from the entry, following branches, handlers and falls
/// through: `Err(CodeFellOffMethod)` when one runs past the last op, else
/// the op indices reachable ops jump to.
fn collect_jump_targets(ops: &[Op], exceptions: &[Exception]) -> (res: Result<IndexSet, VerifyError>)
    ensures
        match res {
            Err(e) => e == VerifyError::CodeFellOffMethod && falls_off(ops@, exceptions@),
            Ok(v) => !falls_off(ops@, exceptions@) && index_set_contents(v) == reached_targets(ops@, exceptions@),
        },
{
    let ghost o = ops@;
    let ghost exc = exceptions@;
    let ghost bound = target_bound(o, exc);
    let mut visited = index_set_new();
    let mut worklist: Vec<usize> = Vec::new();
    worklist.push(0);
    let ghost mut done: Set<int> = Set::empty();
    proof {
        broadcast use vstd::seq_lib::seq_to_set_is_finite;
        lemma_entry_reachable(o, exc);
        assert(worklist@[0] == 0);
    }
    loop
        invariant
            o == ops@,
            exc == exceptions@,
            bound == target_bound(o, exc),
            bound.finite(),
            index_set_contents(visited).finite(),
            index_set_contents(visited).subset_of(bound),
            forall|k: int| 0 <= k < worklist@.len() ==> op_reachable(o, exc, #[trigger] worklist@[k] as int),
            forall|d: int| #[trigger] done.contains(d) ==> 0 <= d < o.len() && op_reachable(o, exc, d),
            targets_of_done(o, exc, done, index_set_contents(visited)),
            forall|d: int| #[trigger] done.contains(d) && !ends_flow(o[d]) ==> done.contains(d + 1),
            forall|t: usize| #[trigger] index_set_contents(visited).contains(t) ==> done.contains(t as int) || worklist@.contains(t),
            done.contains(0) || worklist@.contains(0),
        ensures
            worklist@.len() == 0,
        decreases bound.len() - index_set_contents(visited).len(), worklist@.len(),
    {
        let ghost v_start = index_set_contents(visited);
        let ghost w_start = worklist@;
        let s = match worklist.pop() {
            Some(s) => s,
            None => break,
        };
        let ghost w_pop = worklist@;
        proof {
            assert(w_start[w_start.len() - 1] == s);
            assert forall|t: usize| w_start.contains(t) implies w_pop.contains(t) || t == s by {
                let k = choose|k: int| 0 <= k < w_start.len() && w_start[k] == t;
                if k < w_start.len() - 1 {
                    assert(w_pop[k] == t);
                }
            }
        }
        if s >= ops.len() {
            proof {
                assert(op_reachable(o, exc, s as int));
            }
            return Err(VerifyError::CodeFellOffMethod);
        }
        proof {
            lemma_noted_refl(v_start, w_pop);
        }
        let mut i = s;
        loop
            invariant
                o == ops@,
                exc == exceptions@,
                bound == target_bound(o, exc),
                bound.finite(),
                s <= i < o.len(),
                op_reachable(o, exc, i as int),
                index_set_contents(visited).finite(),
                index_set_contents(visited).subset_of(bound),
                noted(v_start, w_pop, index_set_contents(visited), worklist@),
                forall|k: int| 0 <= k < worklist@.len() ==> op_reachable(o, exc, #[trigger] worklist@[k] as int),
                forall|d: int| #[trigger] done.contains(d) ==> 0 <= d < o.len() && op_reachable(o, exc, d),
                targets_of_done(o, exc, done, index_set_contents(visited)),
                forall|d: int| #[trigger] done.contains(d) && !ends_flow(o[d]) ==> done.contains(d + 1) || d + 1 == i,
                forall|t: usize| #[trigger] index_set_contents(visited).contains(t) ==> done.contains(t as int) || worklist@.contains(t) || t == i,
                done.contains(0) || worklist@.contains(0) || i == 0,
            ensures
                done.contains(i as int),
                ends_flow(o[i as int]),
            decreases o.len() - i,
        {
            let ghost v_before = index_set_contents(visited);
            let ghost w_before = worklist@;
            note_jump_targets(&ops[i], i, exceptions, &mut visited, &mut worklist);
            proof {
                let v_after = index_set_contents(visited);
                lemma_noted_trans(v_start, w_pop, v_before, w_before, v_after, worklist@);
                assert forall|t: usize| v_after.contains(t) implies bound.contains(t) by {
                    if !v_before.contains(t) {
                        lemma_target_bound(o, exc, i as int, t);
                    }
                }
                assert forall|k: int| 0 <= k < worklist@.len() implies op_reachable(o, exc, #[trigger] worklist@[k] as int) by {
                    if k < w_before.len() {
                        assert(worklist@.subrange(0, w_before.len() as int)[k] == w_before[k]);
                    } else {
                        let t = worklist@[k];
                        assert(v_after.contains(t) && !v_before.contains(t));
                        lemma_reachable_step(o, exc, i as int, t as int);
                    }
                }
                assert forall|t: usize| w_before.contains(t) implies worklist@.contains(t) by {
                    let k = choose|k: int| 0 <= k < w_before.len() && w_before[k] == t;
                    assert(worklist@.subrange(0, w_before.len() as int)[k] == w_before[k]);
                }
                let done_before = done;
                done = done.insert(i as int);
                assert forall|t: usize| #[trigger] v_after.contains(t) implies exists|d: int| done.contains(d) && jump_target(o, exc, d, t as int) by {
                    if !v_before.contains(t) {
                        assert(done.contains(i as int) && jump_target(o, exc, i as int, t as int));
                    } else {
                        let d = choose|d: int| done_before.contains(d) && jump_target(o, exc, d, t as int);
                        assert(done.contains(d));
                    }
                }
                assert forall|d: int, t: int| done.contains(d) && #[trigger] jump_target(o, exc, d, t) implies 0 <= t && v_after.contains(t as usize) by {
                    if d == i {
                        if branch_targets(o[d]).contains(t as usize) && 0 <= t <= usize::MAX {
                        } else {
                            let k = choose|k: int| #[trigger] handler_at(exc, k, i as int, t);
                        }
                    }
                }
            }
            if ends_flow_exec(&ops[i]) {
                break;
            }
            proof {
                lemma_reachable_step(o, exc, i as int, i + 1);
            }
            i = i + 1;
            if i >= ops.len() {
                return Err(VerifyError::CodeFellOffMethod);
            }
        }
        proof {
            let v_end = index_set_contents(visited);
            vstd::set_lib::lemma_len_subset(v_end, bound);
            assert forall|t: usize| #[trigger] v_end.contains(t) implies done.contains(t as int) || worklist@.contains(t) by {
                if v_end.contains(t) && !done.contains(t as int) && !worklist@.contains(t) {
                    assert(t != s || done.contains(s as int));
                }
            }
        }
    }
    proof {
        let v = index_set_contents(visited);
        assert forall|d: int, k: int| #[trigger] done.contains(d) && flows_to(o, exc, d, k) implies #[trigger] done.contains(k) by {
            if jump_target(o, exc, d, k) {
                assert(v.contains(k as usize));
                assert(!worklist@.contains(k as usize));
            }
        }
        assert(!worklist@.contains(0));
        assert forall|j: int| #[trigger] op_reachable(o, exc, j) implies j < o.len() by {
            lemma_closed_holds_reachable(o, exc, done, j);
        }
        assert(v =~= reached_targets(o, exc)) by {
            assert forall|t: usize| v.contains(t) implies reached_targets(o, exc).contains(t) by {
                let d = choose|d: int| done.contains(d) && jump_target(o, exc, d, t as int);
                assert(0 <= d < o.len() && op_reachable(o, exc, d));
            }
            assert forall|t: usize| reached_targets(o, exc).contains(t) implies v.contains(t) by {
                let i = choose|i: int| 0 <= i < o.len() && #[trigger] op_reachable(o, exc, i) && jump_target(o, exc, i, t as int);
                lemma_closed_holds_reachable(o, exc, done, i);
            }
        }
    }
    Ok(visited)
}

// ---------------------------------------------------------------------------
// Phase two: cutting the ops into blocks
// ---------------------------------------------------------------------------

/// The targets of the handlers covering op `i`, in handler order.
pub open spec fn covering_handlers(exc: Seq<Exception>, i: int) -> Seq<usize>
    decreases exc.len(),
{
    if exc.len() == 0 {
        Seq::empty()
    } else {
        covering_handlers(exc.drop_last(), i) + if exc.last().start <= i < exc.last().end {
            seq![exc.last().target]
        } else {
            Seq::empty()
        }
    }
}

/// Whether op `i` ends a block, and how that block is left (targets are op
/// indices). `targets` are the op indices jumped to.
pub open spec fn block_end(ops: Seq<Op>, exc: Seq<Exception>, targets: Set<usize>, i: int) -> Option<SpecExits> {
    let op = ops[i];
    match op {
        Op::IfEq(p) | Op::IfNe(p) | Op::IfLt(p) | Op::IfGe(p) | Op::IfGt(p) | Op::IfLe(p)
        | Op::IfICmpEq(p) | Op::IfICmpNe(p) | Op::IfICmpLt(p) | Op::IfICmpGe(p) | Op::IfICmpGt(p)
        | Op::IfICmpLe(p) | Op::IfACmpEq(p) | Op::IfACmpNe(p) | Op::IfNull(p) | Op::IfNonNull(p) => Some(SpecExits::Branch(p)),
        Op::Goto(p) | Op::Jsr(p) => Some(SpecExits::Goto(p)),
        Op::Ret(_) => Some(SpecExits::SubroutineReturn),
        Op::TableSwitch(_) | Op::LookupSwitch(_) => Some(SpecExits::BranchMultiple(branch_targets(op))),
        Op::IReturn | Op::LReturn | Op::FReturn | Op::DReturn | Op::AReturn | Op::Return => Some(SpecExits::Return),
        _ => if spec_can_throw(op) && covering_handlers(exc, i).len() > 0 {
            Some(SpecExits::BranchMultipleException(covering_handlers(exc, i)))
        } else if op is AThrow {
            Some(SpecExits::Return)
        } else if targets.contains((i + 1) as usize) {
            Some(SpecExits::NextBlock)
        } else {
            None
        },
    }
}

/// The blocks ending among the first `n` ops, and where the next one starts.
pub open spec fn spec_blocks(ops: Seq<Op>, exc: Seq<Exception>, targets: Set<usize>, n: nat) -> (Seq<SpecBlock>, int)
    decreases n,
{
    if n == 0 {
        (Seq::empty(), 0)
    } else {
        let (blocks, start) = spec_blocks(ops, exc, targets, (n - 1) as nat);
        match block_end(ops, exc, targets, n - 1) {
            Some(exits) => (blocks.push(SpecBlock { start, end: n as int, exits }), n as int),
            None => (blocks, start),
        }
    }
}

/// The blocks of a method body whose jump targets are those reached.
pub open spec fn spec_basic_blocks(ops: Seq<Op>, exc: Seq<Exception>) -> Seq<SpecBlock> {
    spec_blocks(ops, exc, reached_targets(ops, exc), ops.len()).0
}

/// The map from each block's first op to the block's index.
pub open spec fn start_table(blocks: Seq<SpecBlock>) -> Map<usize, usize>
    decreases blocks.len(),
{
    if blocks.len() == 0 {
        Map::empty()
    } else {
        start_table(blocks.drop_last()).insert(blocks.last().start as usize, (blocks.len() - 1) as usize)
    }
}

/// The op indices a block can be left to by a jump.
pub open spec fn exit_targets(x: SpecExits) -> Seq<usize> {
    match x {
        SpecExits::BranchMultiple(ts) | SpecExits::BranchMultipleException(ts) => ts,
        SpecExits::Branch(t) | SpecExits::Goto(t) => seq![t],
        _ => Seq::empty(),
    }
}

/// The exits with op indices replaced by block indices.
pub open spec fn resolve_exits(x: SpecExits, table: Map<usize, usize>) -> SpecExits {
    match x {
        SpecExits::BranchMultiple(ts) => SpecExits::BranchMultiple(ts.map_values(|t: usize| table[t])),
        SpecExits::BranchMultipleException(ts) => SpecExits::BranchMultipleException(ts.map_values(|t: usize| table[t])),
        SpecExits::Branch(t) => SpecExits::Branch(table[t]),
        SpecExits::Goto(t) => SpecExits::Goto(table[t]),
        _ => x,
    }
}

/// Every jump out of every block goes to the start of a block.
pub open spec fn exits_resolve(blocks: Seq<SpecBlock>, table: Map<usize, usize>) -> bool {
    forall|k: int, j: int| 0 <= k < blocks.len() && 0 <= j < exit_targets(blocks[k].exits).len()
        ==> table.contains_key(#[trigger] exit_targets(blocks[k].exits)[j])
}

/// The blocks of a method body, with exits in block indices.
pub open spec fn resolved_blocks(ops: Seq<Op>, exc: Seq<Exception>) -> Seq<SpecBlock> {
    let blocks = spec_basic_blocks(ops, exc);
    let table = start_table(blocks);
    blocks.map_values(|b: SpecBlock| SpecBlock { start: b.start, end: b.end, exits: resolve_exits(b.exits, table) })
}

/// The blocks as values.
pub open spec fn blocks_view(blocks: Seq<BasicBlock>) -> Seq<SpecBlock> {
    blocks.map_values(|b: BasicBlock| b@)
}

/// The targets of the handlers covering op `i`.
fn covering_handlers_exec(exceptions: &[Exception], i: usize) -> (res: Vec<usize>)
    ensures
        res@ == covering_handlers(exceptions@, i as int),
{
    let mut res: Vec<usize> = Vec::new();
    let mut k: usize = 0;
    while k < exceptions.len()
        invariant
            k <= exceptions@.len(),
            res@ == covering_handlers(exceptions@.take(k as int), i as int),
        decreases exceptions@.len() - k,
    {
        let e = &exceptions[k];
        assert(exceptions@.take(k + 1).drop_last() =~= exceptions@.take(k as int));
        if i >= e.start && i < e.end {
            res.push(e.target);
            assert(res@ =~= covering_handlers(exceptions@.take(k + 1), i as int));
        } else {
            assert(res@ =~= covering_handlers(exceptions@.take(k + 1), i as int));
        }
        k = k + 1;
    }
    assert(exceptions@.take(k as int) =~= exceptions@);
    res
}

/// The op indices a switch jumps to: the default first.
fn switch_targets(op: &Op) -> (res: Vec<usize>)
    requires
        op is TableSwitch || op is LookupSwitch,
    ensures
        res@ == branch_targets(*op),
{
    match op {
        Op::TableSwitch(table) => {
            let mut res: Vec<usize> = vec![table.default_offset];
            let mut k: usize = 0;
            while k < table.matches.len()
                invariant
                    k <= table.matches@.len(),
                    res@ =~= seq![table.default_offset] + table.matches@.take(k as int),
                decreases table.matches@.len() - k,
            {
                res.push(table.matches[k]);
                assert(table.matches@.take(k + 1) =~= table.matches@.take(k as int).push(table.matches@[k as int]));
                k = k + 1;
            }
            assert(table.matches@.take(k as int) =~= table.matches@);
            res
        },
        Op::LookupSwitch(table) => {
            let mut res: Vec<usize> = vec![table.default_offset];
            let mut k: usize = 0;
            while k < table.matches.len()
                invariant
                    k <= table.matches@.len(),
                    res@ =~= seq![table.default_offset] + table.matches@.take(k as int).map_values(|m: (i32, usize)| m.1),
                decreases table.matches@.len() - k,
            {
                res.push(table.matches[k].1);
                assert(table.matches@.take(k + 1) =~= table.matches@.take(k as int).push(table.matches@[k as int]));
                k = k + 1;
            }
            assert(table.matches@.take(k as int) =~= table.matches@);
            res
        },
        _ => Vec::new(),
    }
}

/// Whether op `i` ends a block, and how that block is left.
fn block_end_exec(ops: &[Op], i: usize, exceptions: &[Exception], targets: &IndexSet) -> (res: Option<BlockExits>)
    requires
        i < ops@.len(),
    ensures
        match res {
            Some(x) => block_end(ops@, exceptions@, index_set_contents(*targets), i as int) == Some(x@),
            None => block_end(ops@, exceptions@, index_set_contents(*targets), i as int) is None,
        },
{
    let op = &ops[i];
    match op {
        Op::IfEq(p) | Op::IfNe(p) | Op::IfLt(p) | Op::IfGe(p) | Op::IfGt(p) | Op::IfLe(p)
        | Op::IfICmpEq(p) | Op::IfICmpNe(p) | Op::IfICmpLt(p) | Op::IfICmpGe(p) | Op::IfICmpGt(p)
        | Op::IfICmpLe(p) | Op::IfACmpEq(p) | Op::IfACmpNe(p) | Op::IfNull(p) | Op::IfNonNull(p) => Some(BlockExits::Branch(*p)),
        Op::Goto(p) | Op::Jsr(p) => Some(BlockExits::Goto(*p)),
        Op::Ret(_) => Some(BlockExits::SubroutineReturn),
        Op::TableSwitch(_) | Op::LookupSwitch(_) => Some(BlockExits::BranchMultiple(switch_targets(op))),
        Op::IReturn | Op::LReturn | Op::FReturn | Op::DReturn | Op::AReturn | Op::Return => Some(BlockExits::Return),
        _ => {
            if op.can_throw_error() {
                let handlers = covering_handlers_exec(exceptions, i);
                if handlers.len() > 0 {
                    return Some(BlockExits::BranchMultipleException(handlers));
                }
            }
            if let Op::AThrow = op {
                Some(BlockExits::Return)
            } else if index_set_contains(targets, i + 1) {
                Some(BlockExits::NextBlock)
            } else {
                None
            }
        },
    }
}

/// The exits with op indices replaced by the indices of the blocks that
/// start there.
fn resolve_exits_exec(exits: &BlockExits, table: &IndexTable) -> (res: BlockExits)
    requires
        forall|j: int| 0 <= j < exit_targets(exits@).len() ==> index_table_contents(*table).contains_key(#[trigger] exit_targets(exits@)[j]),
    ensures
        res@ == resolve_exits(exits@, index_table_contents(*table)),
{
    let ghost m = index_table_contents(*table);
    match exits {
        BlockExits::BranchMultiple(ts) | BlockExits::BranchMultipleException(ts) => {
            assert(exit_targets(exits@) == ts@);
            let mut out: Vec<usize> = Vec::new();
            let mut k: usize = 0;
            while k < ts.len()
                invariant
                    k <= ts@.len(),
                    m == index_table_contents(*table),
                    forall|j: int| 0 <= j < ts@.len() ==> m.contains_key(#[trigger] ts@[j]),
                    out@ =~= ts@.take(k as int).map_values(|t: usize| m[t]),
                decreases ts@.len() - k,
            {
                let b = match index_table_get(table, ts[k]) {
                    Some(b) => b,
                    None => 0,
                };
                out.push(b);
                assert(ts@.take(k + 1) =~= ts@.take(k as int).push(ts@[k as int]));
                k = k + 1;
            }
            assert(ts@.take(k as int) =~= ts@);
            match exits {
                BlockExits::BranchMultiple(_) => BlockExits::BranchMultiple(out),
                _ => BlockExits::BranchMultipleException(out),
            }
        },
        BlockExits::Branch(t) => {
            assert(exit_targets(exits@)[0] == *t);
            BlockExits::Branch(match index_table_get(table, *t) {
                Some(b) => b,
                None => 0,
            })
        },
        BlockExits::Goto(t) => {
            assert(exit_targets(exits@)[0] == *t);
            BlockExits::Goto(match index_table_get(table, *t) {
                Some(b) => b,
                None => 0,
            })
        },
        BlockExits::SubroutineReturn => BlockExits::SubroutineReturn,
        BlockExits::NextBlock => BlockExits::NextBlock,
        BlockExits::Return => BlockExits::Return,
    }
}

/// Cuts the ops into basic blocks: after checking that no path runs past
/// the last op (`Err(CodeFellOffMethod)` else), a block ends at every jump,
/// return, throw and op covered by a handler, and before every jump target;
/// exits are then given in block indices, with the table from first op
/// index to block index.
pub fn collect_basic_blocks(ops: &[Op], exceptions: &[Exception]) -> (res: Result<(Vec<BasicBlock>, IndexTable), VerifyError>)
    requires
        !falls_off(ops@, exceptions@) ==> exits_resolve(spec_basic_blocks(ops@, exceptions@), start_table(spec_basic_blocks(ops@, exceptions@))),
    ensures
        match res {
            Err(e) => e == VerifyError::CodeFellOffMethod && falls_off(ops@, exceptions@),
            Ok((blocks, table)) => !falls_off(ops@, exceptions@)
                && blocks_view(blocks@) == resolved_blocks(ops@, exceptions@)
                && index_table_contents(table) == start_table(spec_basic_blocks(ops@, exceptions@)),
        },
{
    let ghost o = ops@;
    let ghost exc = exceptions@;
    let visited = match collect_jump_targets(ops, exceptions) {
        Err(e) => return Err(e),
        Ok(v) => v,
    };
    let ghost targets = index_set_contents(visited);
    let mut raw: Vec<BasicBlock> = Vec::new();
    let mut current: usize = 0;
    let mut i: usize = 0;
    assert(blocks_view(raw@) =~= spec_blocks(o, exc, targets, 0).0);
    while i < ops.len()
        invariant
            o == ops@,
            exc == exceptions@,
            targets == index_set_contents(visited),
            i <= o.len(),
            blocks_view(raw@) == spec_blocks(o, exc, targets, i as nat).0,
            current as int == spec_blocks(o, exc, targets, i as nat).1,
            current <= i,
        decreases o.len() - i,
    {
        match block_end_exec(ops, i, exceptions, &visited) {
            Some(exits) => {
                let ghost before = blocks_view(raw@);
                raw.push(BasicBlock { start_index: current, end_index: i + 1, exits });
                assert(blocks_view(raw@) =~= before.push(raw@[raw@.len() - 1]@));
                current = i + 1;
            },
            None => {},
        }
        i = i + 1;
    }
    let ghost bs = blocks_view(raw@);
    assert(bs == spec_basic_blocks(o, exc));
    let mut table = index_table_new();
    let mut k: usize = 0;
    assert(bs.take(0) =~= Seq::<SpecBlock>::empty());
    while k < raw.len()
        invariant
            bs == blocks_view(raw@),
            k <= raw@.len(),
            index_table_contents(table) == start_table(bs.take(k as int)),
        decreases raw@.len() - k,
    {
        index_table_insert(&mut table, raw[k].start_index, k);
        assert(bs.take(k + 1).drop_last() =~= bs.take(k as int));
        assert(bs.take(k + 1).last() == bs[k as int]);
        k = k + 1;
    }
    assert(bs.take(k as int) =~= bs);
    let ghost m = index_table_contents(table);
    let mut blocks: Vec<BasicBlock> = Vec::new();
    let mut k: usize = 0;
    while k < raw.len()
        invariant
            bs == blocks_view(raw@),
            m == index_table_contents(table),
            m == start_table(bs),
            exits_resolve(bs, m),
            k <= raw@.len(),
            blocks_view(blocks@) =~= bs.take(k as int).map_values(|b: SpecBlock| SpecBlock { start: b.start, end: b.end, exits: resolve_exits(b.exits, m) }),
        decreases raw@.len() - k,
    {
        let b = &raw[k];
        assert(b@ == bs[k as int]);
        assert forall|j: int| 0 <= j < exit_targets(b.exits@).len() implies m.contains_key(#[trigger] exit_targets(b.exits@)[j]) by {
            assert(exit_targets(bs[k as int].exits)[j] == exit_targets(b.exits@)[j]);
        }
        let exits = resolve_exits_exec(&b.exits, &table);
        let ghost before = blocks_view(blocks@);
        blocks.push(BasicBlock { start_index: b.start_index, end_index: b.end_index, exits });
        assert(blocks_view(blocks@) =~= before.push(blocks@[blocks@.len() - 1]@));
        assert(bs.take(k + 1) =~= bs.take(k as int).push(bs[k as int]));
        k = k + 1;
    }
    assert(bs.take(k as int) =~= bs);
    Ok((blocks, table))
}

// ---------------------------------------------------------------------------
// The frames the abstract interpreter can meet are finitely many
// ---------------------------------------------------------------------------

/// A return address is at most `limit`.
pub open spec fn value_ok(v: ValueType, limit: nat) -> bool {
    v matches ValueType::ReturnAddress(p) ==> p <= limit
}

/// A frame of `nlocals` locals and at most `max_stack + 1` stack slots, no
/// `Invalid` on the stack, and return addresses at most `limit`.
pub open spec fn frame_ok(f: AbstractFrame, nlocals: nat, max_stack: nat, limit: nat) -> bool {
    &&& f.locals.len() == nlocals
    &&& f.stack.len() <= max_stack + 1
    &&& stack_valid(f.stack)
    &&& forall|i: int| 0 <= i < f.locals.len() ==> value_ok(#[trigger] f.locals[i], limit)
    &&& forall|i: int| 0 <= i < f.stack.len() ==> value_ok(#[trigger] f.stack[i], limit)
}

/// The (block, frame) pairs with a block index below `nblocks` and a frame
/// of that shape.
pub open spec fn universe(nblocks: nat, nlocals: nat, max_stack: nat, limit: nat) -> Set<(usize, AbstractFrame)> {
    Set::new(|e: (usize, AbstractFrame)| e.0 < nblocks && frame_ok(e.1, nlocals, max_stack, limit))
}

/// All pairs of an element of `a` and one of `b`.
pub open spec fn pairs<X, Y>(a: Set<X>, b: Set<Y>) -> Set<(X, Y)> {
    Set::new(|p: (X, Y)| a.contains(p.0) && b.contains(p.1))
}

proof fn lemma_pairs_finite<X, Y>(a: Set<X>, b: Set<Y>)
    requires
        a.finite(),
        b.finite(),
    ensures
        pairs(a, b).finite(),
{
    let f = |x: X| b.map(|y: Y| (x, y));
    assert forall|s: Set<(X, Y)>| #[trigger] a.map(f).contains(s) implies s.finite() by {
        let x = choose|x: X| a.contains(x) && s == f(x);
        b.lemma_map_finite(|y: Y| (x, y));
    }
    a.lemma_map_finite(f);
    a.map(f).lemma_flatten_finite();
    assert forall|p: (X, Y)| pairs(a, b).contains(p) implies a.map(f).flatten().contains(p) by {
        assert(a.map(f).contains(f(p.0)));
        assert(b.contains(p.1) && p == (p.0, p.1));
        assert(f(p.0).contains(p));
    }
    vstd::set_lib::lemma_set_subset_finite(a.map(f).flatten(), pairs(a, b));
}

/// The sequences of length `n` over `vals`.
pub open spec fn seqs_of(vals: Set<ValueType>, n: nat) -> Set<Seq<ValueType>> {
    Set::new(|s: Seq<ValueType>| s.len() == n && forall|i: int| 0 <= i < s.len() ==> vals.contains(#[trigger] s[i]))
}

/// The sequences of length at most `n` over `vals`.
pub open spec fn seqs_upto(vals: Set<ValueType>, n: nat) -> Set<Seq<ValueType>> {
    Set::new(|s: Seq<ValueType>| s.len() <= n && forall|i: int| 0 <= i < s.len() ==> vals.contains(#[trigger] s[i]))
}

proof fn lemma_seqs_of_finite(vals: Set<ValueType>, n: nat)
    requires
        vals.finite(),
    ensures
        seqs_of(vals, n).finite(),
    decreases n,
{
    if n == 0 {
        assert forall|t: Seq<ValueType>| seqs_of(vals, 0).contains(t) implies t == Seq::<ValueType>::empty() by {
            assert(t =~= Seq::<ValueType>::empty());
        }
        assert(seqs_of(vals, 0) =~= Set::empty().insert(Seq::<ValueType>::empty()));
    } else {
        let prev = seqs_of(vals, (n - 1) as nat);
        lemma_seqs_of_finite(vals, (n - 1) as nat);
        lemma_pairs_finite(prev, vals);
        let g = |p: (Seq<ValueType>, ValueType)| p.0.push(p.1);
        pairs(prev, vals).lemma_map_finite(g);
        assert forall|s: Seq<ValueType>| seqs_of(vals, n).contains(s) implies pairs(prev, vals).map(g).contains(s) by {
            let p = (s.drop_last(), s.last());
            assert forall|i: int| 0 <= i < p.0.len() implies vals.contains(#[trigger] p.0[i]) by {
                assert(p.0[i] == s[i]);
            }
            assert(vals.contains(s[s.len() - 1]));
            assert(pairs(prev, vals).contains(p));
            assert(s == g(p));
        }
        vstd::set_lib::lemma_set_subset_finite(pairs(prev, vals).map(g), seqs_of(vals, n));
    }
}

proof fn lemma_seqs_upto_finite(vals: Set<ValueType>, n: nat)
    requires
        vals.finite(),
    ensures
        seqs_upto(vals, n).finite(),
    decreases n,
{
    lemma_seqs_of_finite(vals, n);
    if n == 0 {
        assert(seqs_upto(vals, 0) =~= seqs_of(vals, 0));
    } else {
        lemma_seqs_upto_finite(vals, (n - 1) as nat);
        assert(seqs_upto(vals, n) =~= seqs_upto(vals, (n - 1) as nat).union(seqs_of(vals, n)));
    }
}

/// The values with return addresses at most `limit`.
pub open spec fn values_upto(limit: nat) -> Set<ValueType> {
    Set::new(|v: ValueType| value_ok(v, limit))
}

proof fn lemma_values_upto_finite(limit: nat)
    ensures
        values_upto(limit).finite(),
{
    let plain = Set::empty().insert(ValueType::Invalid).insert(ValueType::Integer).insert(ValueType::Long)
        .insert(ValueType::Float).insert(ValueType::Double).insert(ValueType::Reference);
    vstd::set_lib::lemma_int_range(0, (limit + 1) as int);
    let r = vstd::set_lib::set_int_range(0, (limit + 1) as int);
    let addr = |i: int| ValueType::ReturnAddress(i as usize);
    r.lemma_map_finite(addr);
    assert forall|v: ValueType| values_upto(limit).contains(v) implies plain.union(r.map(addr)).contains(v) by {
        if let ValueType::ReturnAddress(p) = v {
            assert(r.contains(p as int));
            assert(v == addr(p as int));
        }
    }
    vstd::set_lib::lemma_set_subset_finite(plain.union(r.map(addr)), values_upto(limit));
}

/// The universe is finite.
proof fn lemma_universe_finite(nblocks: nat, nlocals: nat, max_stack: nat, limit: nat)
    ensures
        universe(nblocks, nlocals, max_stack, limit).finite(),
{
    let vals = values_upto(limit);
    lemma_values_upto_finite(limit);
    lemma_seqs_of_finite(vals, nlocals);
    lemma_seqs_upto_finite(vals, max_stack + 1);
    let ls = seqs_of(vals, nlocals);
    let ss = seqs_upto(vals, max_stack + 1);
    lemma_pairs_finite(ls, ss);
    let mk = |p: (Seq<ValueType>, Seq<ValueType>)| AbstractFrame { locals: p.0, stack: p.1 };
    pairs(ls, ss).lemma_map_finite(mk);
    let frames = pairs(ls, ss).map(mk);
    vstd::set_lib::lemma_int_range(0, nblocks as int);
    let r = vstd::set_lib::set_int_range(0, nblocks as int);
    let to_index = |i: int| i as usize;
    r.lemma_map_finite(to_index);
    let indices = r.map(to_index);
    lemma_pairs_finite(indices, frames);
    assert forall|e: (usize, AbstractFrame)| universe(nblocks, nlocals, max_stack, limit).contains(e) implies pairs(indices, frames).contains(e) by {
        assert(r.contains(e.0 as int));
        assert(indices.contains(to_index(e.0 as int)));
        let f = e.1;
        assert(ls.contains(f.locals));
        assert(ss.contains(f.stack));
        assert(pairs(ls, ss).contains((f.locals, f.stack)));
        assert(f == mk((f.locals, f.stack)));
    }
    vstd::set_lib::lemma_set_subset_finite(pairs(indices, frames), universe(nblocks, nlocals, max_stack, limit));
}

/// Every value of `s` has its return address at most `limit`.
pub open spec fn seq_ok(s: Seq<ValueType>, limit: nat) -> bool {
    forall|i: int| 0 <= i < s.len() ==> value_ok(#[trigger] s[i], limit)
}

/// A stack cut down by `k` values and given values that are fine is fine.
proof fn lemma_shuffled_ok(s: Seq<ValueType>, k: int, lit: Seq<ValueType>, limit: nat)
    requires
        0 <= k <= s.len(),
        seq_ok(s, limit),
        forall|i: int| 0 <= i < lit.len() ==> value_ok(#[trigger] lit[i], limit),
    ensures
        seq_ok(below(s, k) + lit, limit),
{
    let r = below(s, k) + lit;
    assert forall|i: int| 0 <= i < r.len() implies value_ok(#[trigger] r[i], limit) by {
        if i < s.len() - k {
            assert(r[i] == s[i]);
        } else {
            assert(r[i] == lit[i - (s.len() - k)]);
        }
    }
}

/// Running an admissible op at an index below `limit` keeps a frame's shape.
proof fn lemma_step_frame_ok(op: Op, index: int, max: nat, f: AbstractFrame, nlocals: nat, limit: nat)
    requires
        op_admissible(op),
        frame_ok(f, nlocals, max, limit),
        0 <= index < limit,
    ensures
        spec_step(op, index, max, f) matches Ok((g, _)) ==> frame_ok(g, nlocals, max, limit),
{
    reveal(shuffle);
    lemma_step_keeps_valid(op, index, max, f);
    let s = f.stack;
    if let Ok((g, _)) = spec_step(op, index, max, f) {
        match op {
            Op::ILoad(_) | Op::LLoad(_) | Op::FLoad(_) | Op::DLoad(_) | Op::ALoad(_) | Op::Jsr(_) => {
                assert forall|i: int| 0 <= i < g.stack.len() implies value_ok(#[trigger] g.stack[i], limit) by {
                    if i < s.len() {
                        assert(g.stack[i] == s[i]);
                    }
                }
            },
            Op::IStore(_) | Op::LStore(_) | Op::FStore(_) | Op::DStore(_) | Op::AStore(_) => {
                assert forall|i: int| 0 <= i < g.stack.len() implies value_ok(#[trigger] g.stack[i], limit) by {
                    assert(g.stack[i] == s[i]);
                }
                assert forall|i: int| 0 <= i < g.locals.len() implies value_ok(#[trigger] g.locals[i], limit) by {
                    if g.locals[i] != f.locals[i] {
                        assert(op is AStore ==> g.locals[i] == s.last());
                    }
                }
            },
            Op::IInc(_, _) | Op::Ret(_) => {},
            Op::Pop | Op::Pop2 | Op::Dup | Op::DupX1 | Op::DupX2 | Op::Dup2 | Op::Dup2X2 | Op::Swap => {
                let v1 = nth_top(s, 1);
                let v2 = nth_top(s, 2);
                let v3 = nth_top(s, 3);
                let v4 = nth_top(s, 4);
                assert(s.len() >= 1 ==> value_ok(v1, limit));
                assert(s.len() >= 2 ==> value_ok(v2, limit));
                assert(s.len() >= 3 ==> value_ok(v3, limit));
                assert(s.len() >= 4 ==> value_ok(v4, limit));
                if s.len() >= 1 {
                    lemma_shuffled_ok(s, 1, seq![v1, v1], limit);
                    lemma_shuffled_ok(s, 1, Seq::empty(), limit);
                }
                if s.len() >= 2 {
                    lemma_shuffled_ok(s, 2, seq![v1, v2, v1], limit);
                    lemma_shuffled_ok(s, 2, seq![v2, v1, v2, v1], limit);
                    lemma_shuffled_ok(s, 2, seq![v1, v2], limit);
                    lemma_shuffled_ok(s, 2, Seq::empty(), limit);
                }
                if s.len() >= 3 {
                    lemma_shuffled_ok(s, 3, seq![v1, v3, v2, v1], limit);
                    lemma_shuffled_ok(s, 3, seq![v2, v1, v3, v2, v1], limit);
                }
                if s.len() >= 4 {
                    lemma_shuffled_ok(s, 4, seq![v2, v1, v4, v3, v2, v1], limit);
                }
                assert(below(s, 1) + Seq::<ValueType>::empty() =~= below(s, 1));
                assert(below(s, 2) + Seq::<ValueType>::empty() =~= below(s, 2));
            },
            _ => {
                reveal(stack_effect);
                if let Some((pops, pushes)) = stack_effect(op) {
                    lemma_pop_each_prefix(s, pops);
                    let rest = pop_each(s, pops)->Ok_0;
                    assert forall|i: int| 0 <= i < g.stack.len() implies value_ok(#[trigger] g.stack[i], limit) by {
                        if i < rest.len() {
                            assert(rest[i] == s[i]);
                        } else {
                            assert(g.stack[i] == pushes[i - rest.len()]);
                            if op is MultiANewArray {
                            }
                        }
                    }
                }
            },
        }
    }
}

/// Running a block's ops, at indices below `limit`, keeps a frame's shape.
proof fn lemma_run_frame_ok(ops: Seq<Op>, i: int, end: int, max: nat, f: AbstractFrame, nlocals: nat, limit: nat)
    requires
        ops_admissible(ops, i, end),
        0 <= i,
        end <= limit,
        frame_ok(f, nlocals, max, limit),
    ensures
        spec_run(ops, i, end, max, f) matches Ok((g, _)) ==> frame_ok(g, nlocals, max, limit),
    decreases end - i,
{
    if i < end {
        lemma_step_frame_ok(ops[i], i, max, f, nlocals, limit);
        if let Ok((g, None)) = spec_step(ops[i], i, max, f) {
            lemma_run_frame_ok(ops, i + 1, end, max, g, nlocals, limit);
        }
    }
}

// ---------------------------------------------------------------------------
// The abstract interpreter over blocks
// ---------------------------------------------------------------------------

/// Running block `from.0` on frame `from.1` hands on `to`.
pub open spec fn ai_step(ops: Seq<Op>, blocks: Seq<SpecBlock>, table: Map<usize, usize>, max: nat, from: (usize, AbstractFrame), to: (usize, AbstractFrame)) -> bool {
    &&& from.0 < blocks.len()
    &&& block_outcome(ops, blocks[from.0 as int], from.0 as int, max, from.1, table) matches Ok(q) && q.contains(to)
}

/// `path` is a run of (block, frame) pairs from the entry block on the entry
/// frame, each handing on the next.
pub open spec fn is_state_path(ops: Seq<Op>, blocks: Seq<SpecBlock>, table: Map<usize, usize>, max: nat, entry: AbstractFrame, path: Seq<(usize, AbstractFrame)>) -> bool {
    &&& path.len() > 0
    &&& path[0] == (0usize, entry)
    &&& forall|k: int| 0 <= k < path.len() - 1 ==> #[trigger] ai_step(ops, blocks, table, max, path[k], path[k + 1])
}

/// Block `st.0` can be entered with frame `st.1`.
pub open spec fn state_reachable(ops: Seq<Op>, blocks: Seq<SpecBlock>, table: Map<usize, usize>, max: nat, entry: AbstractFrame, st: (usize, AbstractFrame)) -> bool {
    exists|path: Seq<(usize, AbstractFrame)>| #[trigger] is_state_path(ops, blocks, table, max, entry, path) && path.last() == st
}

/// Running block `st.0` on frame `st.1` fails with `e`.
pub open spec fn state_fails(ops: Seq<Op>, blocks: Seq<SpecBlock>, table: Map<usize, usize>, max: nat, st: (usize, AbstractFrame), e: VerifyError) -> bool {
    st.0 < blocks.len() && block_outcome(ops, blocks[st.0 as int], st.0 as int, max, st.1, table) == Err::<Seq<(usize, AbstractFrame)>, VerifyError>(e)
}

/// Running block `st.0` on frame `st.1` succeeds.
pub open spec fn state_passes(ops: Seq<Op>, blocks: Seq<SpecBlock>, table: Map<usize, usize>, max: nat, st: (usize, AbstractFrame)) -> bool {
    st.0 < blocks.len() && block_outcome(ops, blocks[st.0 as int], st.0 as int, max, st.1, table) is Ok
}

/// Every pair that can be reached names a block, and a `ret` it runs into
/// returns to the start of a block.
pub open spec fn ai_total(ops: Seq<Op>, blocks: Seq<SpecBlock>, table: Map<usize, usize>, max: nat, entry: AbstractFrame) -> bool {
    forall|st: (usize, AbstractFrame)| #[trigger] state_reachable(ops, blocks, table, max, entry, st)
        ==> st.0 < blocks.len() && return_resolves(ops, blocks[st.0 as int], max, st.1, table)
}

proof fn lemma_state_entry(ops: Seq<Op>, blocks: Seq<SpecBlock>, table: Map<usize, usize>, max: nat, entry: AbstractFrame)
    ensures
        state_reachable(ops, blocks, table, max, entry, (0usize, entry)),
{
    assert(is_state_path(ops, blocks, table, max, entry, seq![(0usize, entry)]));
}

proof fn lemma_state_step(ops: Seq<Op>, blocks: Seq<SpecBlock>, table: Map<usize, usize>, max: nat, entry: AbstractFrame, from: (usize, AbstractFrame), to: (usize, AbstractFrame))
    requires
        state_reachable(ops, blocks, table, max, entry, from),
        ai_step(ops, blocks, table, max, from, to),
    ensures
        state_reachable(ops, blocks, table, max, entry, to),
{
    let path = choose|path: Seq<(usize, AbstractFrame)>| #[trigger] is_state_path(ops, blocks, table, max, entry, path) && path.last() == from;
    let longer = path.push(to);
    assert forall|k: int| 0 <= k < longer.len() - 1 implies #[trigger] ai_step(ops, blocks, table, max, longer[k], longer[k + 1]) by {
        if k < path.len() - 1 {
            assert(longer[k] == path[k] && longer[k + 1] == path[k + 1]);
            assert(ai_step(ops, blocks, table, max, path[k], path[k + 1]));
        }
    }
    assert(is_state_path(ops, blocks, table, max, entry, longer));
}

proof fn lemma_state_closed_path(ops: Seq<Op>, blocks: Seq<SpecBlock>, table: Map<usize, usize>, max: nat, entry: AbstractFrame, done: Set<(usize, AbstractFrame)>, path: Seq<(usize, AbstractFrame)>, k: int)
    requires
        done.contains((0usize, entry)),
        forall|a: (usize, AbstractFrame), b: (usize, AbstractFrame)| #[trigger] done.contains(a) && #[trigger] ai_step(ops, blocks, table, max, a, b) ==> done.contains(b),
        is_state_path(ops, blocks, table, max, entry, path),
        0 <= k < path.len(),
    ensures
        done.contains(path[k]),
    decreases k,
{
    if k > 0 {
        lemma_state_closed_path(ops, blocks, table, max, entry, done, path, k - 1);
        let j = k - 1;
        assert(ai_step(ops, blocks, table, max, path[j], path[j + 1]));
        assert(path[j + 1] == path[k]);
    }
}

/// A set of pairs that holds the entry and what each of its pairs hands on
/// holds every reachable pair.
proof fn lemma_state_closed(ops: Seq<Op>, blocks: Seq<SpecBlock>, table: Map<usize, usize>, max: nat, entry: AbstractFrame, done: Set<(usize, AbstractFrame)>, st: (usize, AbstractFrame))
    requires
        done.contains((0usize, entry)),
        forall|a: (usize, AbstractFrame), b: (usize, AbstractFrame)| #[trigger] done.contains(a) && #[trigger] ai_step(ops, blocks, table, max, a, b) ==> done.contains(b),
        state_reachable(ops, blocks, table, max, entry, st),
    ensures
        done.contains(st),
{
    let path = choose|path: Seq<(usize, AbstractFrame)>| #[trigger] is_state_path(ops, blocks, table, max, entry, path) && path.last() == st;
    lemma_state_closed_path(ops, blocks, table, max, entry, done, path, path.len() - 1);
}

/// A set of (block, frame) pairs.
#[verifier::external_body]
pub struct StateSet {
    set: hashbrown::HashSet<(usize, FrameState)>,
}

/// The (block, frame) values a set holds.
pub uninterp spec fn state_set_contents(set: StateSet) -> Set<(usize, AbstractFrame)>;

/// No (block, frame) pairs.
pub open spec fn no_states() -> Set<(usize, AbstractFrame)> {
    Set::empty()
}

/// An empty set.
///
/// Trusted: calls `hashbrown::HashSet::new`, which creates an empty set.
#[verifier::external_body]
fn state_set_new() -> (res: StateSet)
    ensures
        state_set_contents(res) == no_states(),
{
    StateSet { set: hashbrown::HashSet::new() }
}

/// Whether the pair of `block` and `frame` is in the set.
///
/// Trusted: calls `hashbrown::HashSet::contains`, which reports whether an
/// equal pair is stored. Pairs compare by the derived equality, field by
/// field, so two pairs are equal exactly when their block indices and the
/// values in their locals and stacks are.
#[verifier::external_body]
fn state_set_contains(set: &StateSet, block: usize, frame: &FrameState) -> (res: bool)
    ensures
        res == state_set_contents(*set).contains((block, frame@)),
{
    set.set.contains(&(block, frame.clone()))
}

/// Adds the pair of `block` and `frame`.
///
/// Trusted: calls `hashbrown::HashSet::insert`, which stores the pair unless
/// an equal one (as above) is already stored.
#[verifier::external_body]
fn state_set_insert(set: &mut StateSet, block: usize, frame: FrameState)
    ensures
        state_set_contents(*final(set)) == state_set_contents(*old(set)).insert((block, frame@)),
{
    set.set.insert((block, frame));
}

/// What a block hands on keeps the frame's shape.
proof fn lemma_outcome_frame_ok(ops: Seq<Op>, block: SpecBlock, block_idx: int, max: nat, f: AbstractFrame, table: Map<usize, usize>, nlocals: nat)
    requires
        0 <= block.start <= block.end <= ops.len(),
        ops_admissible(ops, block.start, block.end),
        frame_ok(f, nlocals, max, ops.len()),
    ensures
        block_outcome(ops, block, block_idx, max, f, table) matches Ok(q) ==>
            forall|k: int| 0 <= k < q.len() ==> frame_ok(#[trigger] q[k].1, nlocals, max, ops.len()),
{
    lemma_run_frame_ok(ops, block.start, block.end, max, f, nlocals, ops.len());
    if let Ok((g, _)) = spec_run(ops, block.start, block.end, max, f) {
        let h = AbstractFrame { locals: g.locals, stack: seq![ValueType::Reference] };
        assert(frame_ok(h, nlocals, max, ops.len()));
    }
}

/// The block list is well formed: each block's ops lie within the body.
pub open spec fn blocks_within(blocks: Seq<SpecBlock>, n: int) -> bool {
    forall|k: int| 0 <= k < blocks.len() ==> 0 <= (#[trigger] blocks[k]).start <= blocks[k].end <= n
}

/// Runs the abstract interpreter from the entry block on `entry`, verifying
/// each (block, frame) pair once, until no new pair comes up or one fails.
fn verify_blocks(ops: &[Op], blocks: &Vec<BasicBlock>, table: &IndexTable, max_stack: usize, entry: FrameState) -> (res: Result<(), VerifyError>)
    requires
        ops@.len() < usize::MAX,
        blocks@.len() < usize::MAX,
        ops_admissible(ops@, 0, ops@.len() as int),
        blocks_within(blocks_view(blocks@), ops@.len() as int),
        frame_ok(entry@, entry@.locals.len(), max_stack as nat, ops@.len()),
        ai_total(ops@, blocks_view(blocks@), index_table_contents(*table), max_stack as nat, entry@),
    ensures
        res is Ok <==> forall|st: (usize, AbstractFrame)|
            #[trigger] state_reachable(ops@, blocks_view(blocks@), index_table_contents(*table), max_stack as nat, entry@, st)
            ==> state_passes(ops@, blocks_view(blocks@), index_table_contents(*table), max_stack as nat, st),
        res matches Err(e) ==> exists|st: (usize, AbstractFrame)|
            #[trigger] state_reachable(ops@, blocks_view(blocks@), index_table_contents(*table), max_stack as nat, entry@, st)
            && state_fails(ops@, blocks_view(blocks@), index_table_contents(*table), max_stack as nat, st, e),
{
    let ghost o = ops@;
    let ghost bs = blocks_view(blocks@);
    let ghost tb = index_table_contents(*table);
    let ghost max = max_stack as nat;
    let ghost e0 = entry@;
    let ghost nlocals = e0.locals.len();
    let ghost u = universe(bs.len(), nlocals, max, o.len());
    proof {
        lemma_universe_finite(bs.len(), nlocals, max, o.len());
        lemma_state_entry(o, bs, tb, max, e0);
    }
    let mut verified = state_set_new();
    let mut worklist: Vec<(usize, FrameState)> = Vec::new();
    worklist.push((0, entry));
    proof {
        assert(entries_view(worklist@)[0] == (0usize, e0));
    }
    loop
        invariant
            o == ops@,
            bs == blocks_view(blocks@),
            tb == index_table_contents(*table),
            max == max_stack,
            o.len() < usize::MAX,
            bs.len() < usize::MAX,
            ops_admissible(o, 0, o.len() as int),
            blocks_within(bs, o.len() as int),
            ai_total(o, bs, tb, max, e0),
            u == universe(bs.len(), nlocals, max, o.len()),
            u.finite(),
            e0 == entry@,
            nlocals == e0.locals.len(),
            state_set_contents(verified).subset_of(u),
            forall|k: int| 0 <= k < worklist@.len() ==> {
                let st = #[trigger] entries_view(worklist@)[k];
                &&& state_reachable(o, bs, tb, max, e0, st)
                &&& frame_ok(st.1, nlocals, max, o.len())
            },
            forall|st: (usize, AbstractFrame)| #[trigger] state_set_contents(verified).contains(st) ==> {
                &&& state_reachable(o, bs, tb, max, e0, st)
                &&& block_outcome(o, bs[st.0 as int], st.0 as int, max, st.1, tb) matches Ok(q)
                    && forall|j: int| 0 <= j < q.len() ==> state_set_contents(verified).contains(#[trigger] q[j]) || entries_view(worklist@).contains(q[j])
            },
            state_set_contents(verified).contains((0usize, e0)) || entries_view(worklist@).contains((0usize, e0)),
        ensures
            worklist@.len() == 0,
        decreases u.len() - state_set_contents(verified).len(), worklist@.len(),
    {
        let ghost v_start = state_set_contents(verified);
        let ghost w_start = entries_view(worklist@);
        let (block_idx, frame) = match worklist.pop() {
            Some(x) => x,
            None => break,
        };
        let ghost st = (block_idx, frame@);
        let ghost w_pop = entries_view(worklist@);
        proof {
            assert(w_start[w_start.len() - 1] == st);
            assert(state_reachable(o, bs, tb, max, e0, st));
            assert(block_idx < bs.len());
            assert forall|x: (usize, AbstractFrame)| w_start.contains(x) implies w_pop.contains(x) || x == st by {
                let k = choose|k: int| 0 <= k < w_start.len() && w_start[k] == x;
                if k < w_start.len() - 1 {
                    assert(w_pop[k] == x);
                }
            }
            assert forall|k: int| 0 <= k < worklist@.len() implies ({
                let s2 = #[trigger] entries_view(worklist@)[k];
                &&& state_reachable(o, bs, tb, max, e0, s2)
                &&& frame_ok(s2.1, nlocals, max, o.len())
            }) by {
                assert(entries_view(worklist@)[k] == w_start[k]);
            }
        }
        if !state_set_contains(&verified, block_idx, &frame) {
            state_set_insert(&mut verified, block_idx, frame.duplicate());
            let block = &blocks[block_idx];
            proof {
                assert(block@ == bs[block_idx as int]);
                assert(0 <= bs[block_idx as int].start <= bs[block_idx as int].end <= o.len());
                assert(ops_admissible(o, block.start_index as int, block.end_index as int));
                assert(u.contains(st));
                vstd::set_lib::lemma_len_subset(state_set_contents(verified), u);
                lemma_outcome_frame_ok(o, bs[block_idx as int], block_idx as int, max, st.1, tb, nlocals);
            }
            let ghost w_before = entries_view(worklist@);
            let ghost wl_before = worklist@;
            match verify_block(ops, block, block_idx, max_stack, frame, &mut worklist, table) {
                Err(e) => {
                    proof {
                        assert(state_fails(o, bs, tb, max, st, e));
                        assert(state_reachable(o, bs, tb, max, e0, st) && !state_passes(o, bs, tb, max, st));
                    }
                    return Err(e);
                },
                Ok(()) => {},
            }
            proof {
                let q = block_outcome(o, bs[block_idx as int], block_idx as int, max, st.1, tb)->Ok_0;
                let wv = entries_view(worklist@);
                assert(wv == w_before + q);
                assert forall|j: int| 0 <= j < q.len() implies wv.contains(#[trigger] q[j]) by {
                    assert(wv[w_before.len() + j] == q[j]);
                }
                assert forall|k: int| 0 <= k < worklist@.len() implies ({
                    let s2 = #[trigger] entries_view(worklist@)[k];
                    &&& state_reachable(o, bs, tb, max, e0, s2)
                    &&& frame_ok(s2.1, nlocals, max, o.len())
                }) by {
                    if k < w_before.len() {
                        assert(wv[k] == w_before[k]);
                    } else {
                        let j = k - w_before.len();
                        assert(wv[k] == q[j]);
                        assert(ai_step(o, bs, tb, max, st, q[j]));
                        lemma_state_step(o, bs, tb, max, e0, st, q[j]);
                    }
                }
                assert forall|x: (usize, AbstractFrame)| w_before.contains(x) implies wv.contains(x) by {
                    let k = choose|k: int| 0 <= k < w_before.len() && w_before[k] == x;
                    assert(wv[k] == x);
                }
            }
        } else {
            proof {
                vstd::set_lib::lemma_len_subset(state_set_contents(verified), u);
            }
        }
    }
    proof {
        let v = state_set_contents(verified);
        assert forall|a: (usize, AbstractFrame), b: (usize, AbstractFrame)| #[trigger] v.contains(a) && #[trigger] ai_step(o, bs, tb, max, a, b) implies v.contains(b) by {
            let q = block_outcome(o, bs[a.0 as int], a.0 as int, max, a.1, tb)->Ok_0;
            let j = choose|j: int| 0 <= j < q.len() && q[j] == b;
            assert(v.contains(q[j]) || entries_view(worklist@).contains(q[j]));
        }
        assert forall|st: (usize, AbstractFrame)| #[trigger] state_reachable(o, bs, tb, max, e0, st) implies state_passes(o, bs, tb, max, st) by {
            lemma_state_closed(o, bs, tb, max, e0, v, st);
        }
    }
    Ok(())
}

// ---------------------------------------------------------------------------
// The whole method
// ---------------------------------------------------------------------------

/// Placing the arguments `args` into the locals from slot `i` on (a wide
/// argument takes two slots; a slot past the end is `WrongCount`).
pub open spec fn place_args(locals: Seq<ValueType>, i: int, args: Seq<SpecDescriptor>) -> Result<Seq<ValueType>, VerifyError>
    decreases args.len(),
{
    if args.len() == 0 {
        Ok(locals)
    } else if i >= locals.len() {
        Err(VerifyError::WrongCount)
    } else {
        let k = kind_of(args[0]);
        place_args(locals.update(i, k), if value_is_wide(k) { i + 2 } else { i + 1 }, args.drop_first())
    }
}

/// The frame a method is entered with: its receiver (unless static) and
/// its arguments in the first locals, the rest `Invalid`, and an empty
/// stack.
pub open spec fn spec_entry_frame(is_static: bool, args: Seq<SpecDescriptor>, max_locals: nat) -> Result<AbstractFrame, VerifyError> {
    let blank = Seq::new(max_locals, |i: int| ValueType::Invalid);
    let placed = if is_static {
        place_args(blank, 0, args)
    } else if max_locals == 0 {
        Err(VerifyError::WrongCount)
    } else {
        place_args(blank.update(0, ValueType::Reference), 1, args)
    };
    match placed {
        Err(e) => Err(e),
        Ok(locals) => Ok(AbstractFrame { locals, stack: Seq::empty() }),
    }
}

/// Placing arguments keeps the number of locals and puts in only value
/// types of arguments.
proof fn lemma_place_args(locals: Seq<ValueType>, i: int, args: Seq<SpecDescriptor>)
    requires
        0 <= i,
        forall|j: int| 0 <= j < locals.len() ==> value_ok(#[trigger] locals[j], 0),
    ensures
        place_args(locals, i, args) matches Ok(l) ==> l.len() == locals.len()
            && forall|j: int| 0 <= j < l.len() ==> value_ok(#[trigger] l[j], 0),
    decreases args.len(),
{
    if args.len() > 0 && i < locals.len() {
        let k = kind_of(args[0]);
        let l2 = locals.update(i, k);
        assert forall|j: int| 0 <= j < l2.len() implies value_ok(#[trigger] l2[j], 0) by {
            if j != i {
                assert(l2[j] == locals[j]);
            }
        }
        lemma_place_args(l2, if value_is_wide(k) { i + 2 } else { i + 1 }, args.drop_first());
    }
}

/// Builds the frame a method is entered with.
fn entry_frame(is_static: bool, descriptor: &MethodDescriptor, max_locals: usize) -> (res: Result<FrameState, VerifyError>)
    requires
        max_locals < usize::MAX,
        args_admissible(descriptor@.args),
    ensures
        match spec_entry_frame(is_static, descriptor@.args, max_locals as nat) {
            Ok(f) => res matches Ok(fs) && fs@ == f,
            Err(e) => res == Err::<FrameState, VerifyError>(e),
        },
{
    let ghost args_v = descriptor@.args;
    let mut locals: Vec<ValueType> = Vec::new();
    let mut n: usize = 0;
    while n < max_locals
        invariant
            n <= max_locals,
            locals@ =~= Seq::new(n as nat, |i: int| ValueType::Invalid),
        decreases max_locals - n,
    {
        locals.push(ValueType::Invalid);
        n = n + 1;
    }
    let mut i: usize = 0;
    if !is_static {
        if max_locals == 0 {
            return Err(VerifyError::WrongCount);
        }
        locals.set(0, ValueType::Reference);
        i = 1;
    }
    let ghost start_locals = locals@;
    let ghost start_i = i as int;
    let ghost blank = Seq::new(max_locals as nat, |i: int| ValueType::Invalid);
    assert(start_locals =~= (if is_static { blank } else { blank.update(0, ValueType::Reference) }));
    let args = descriptor.args();
    let mut k: usize = 0;
    assert(args_v.skip(0) =~= args_v);
    while k < args.len()
        invariant
            args_v == descriptor@.args,
            crate::descriptor::descriptors_view(args@) == args_v,
            args_admissible(args_v),
            k <= args@.len(),
            locals@.len() == max_locals,
            max_locals < usize::MAX,
            i <= max_locals + 1,
            place_args(start_locals, start_i, args_v) == place_args(locals@, i as int, args_v.skip(k as int)),
            blank == Seq::new(max_locals as nat, |i: int| ValueType::Invalid),
            start_locals == (if is_static { blank } else { blank.update(0, ValueType::Reference) }),
            start_i == (if is_static { 0int } else { 1int }),
            is_static || max_locals > 0,
        decreases args@.len() - k,
    {
        if i >= locals.len() {
            assert(args_v.skip(k as int).len() > 0);
            assert(place_args(locals@, i as int, args_v.skip(k as int)) == Err::<Seq<ValueType>, VerifyError>(VerifyError::WrongCount));
            return Err(VerifyError::WrongCount);
        }
        assert(args_v[k as int] == args@[k as int]@);
        let kind = kind_of_descriptor(&args[k]);
        assert(args_v.skip(k as int)[0] == args_v[k as int]);
        assert(args_v.skip(k as int).drop_first() =~= args_v.skip(k + 1));
        locals.set(i, kind);
        if kind.is_wide() {
            i = i + 2;
        } else {
            i = i + 1;
        }
        k = k + 1;
    }
    assert(args_v.skip(k as int).len() == 0);
    Ok(FrameState { locals, stack: Vec::new() })
}

/// The blocks built from the first `n` ops lie within them, in order.
proof fn lemma_spec_blocks_shape(ops: Seq<Op>, exc: Seq<Exception>, targets: Set<usize>, n: nat)
    ensures
        ({
            let (bs, cur) = spec_blocks(ops, exc, targets, n);
            &&& 0 <= cur <= n
            &&& bs.len() <= n
            &&& forall|k: int| 0 <= k < bs.len() ==> 0 <= (#[trigger] bs[k]).start <= bs[k].end <= cur
        }),
    decreases n,
{
    if n > 0 {
        lemma_spec_blocks_shape(ops, exc, targets, (n - 1) as nat);
    }
}

/// Nothing stops the verifier from finishing: every jump out of a block
/// goes to a block, and every pair the interpreter reaches names a block
/// and returns only to block starts.
pub open spec fn method_total(ops: Seq<Op>, exc: Seq<Exception>, is_static: bool, args: Seq<SpecDescriptor>, max_stack: nat, max_locals: nat) -> bool {
    !falls_off(ops, exc) ==> {
        &&& exits_resolve(spec_basic_blocks(ops, exc), start_table(spec_basic_blocks(ops, exc)))
        &&& (spec_entry_frame(is_static, args, max_locals) matches Ok(f0) ==>
            ai_total(ops, resolved_blocks(ops, exc), start_table(spec_basic_blocks(ops, exc)), max_stack, f0))
    }
}

/// Verifies a method body: `Err(CodeFellOffMethod)` when execution can run
/// past the last op; otherwise the entry frame is built from the receiver
/// and the arguments (`WrongCount` when they do not fit in the locals), and
/// the result is `Ok` exactly when every (block, frame) pair reachable from
/// the entry block on that frame runs without error, and else the error of
/// one such pair.
pub fn verify_ops(
    is_static: bool,
    descriptor: &MethodDescriptor,
    max_stack: usize,
    max_locals: usize,
    ops: &[Op],
    exceptions: &[Exception],
) -> (res: Result<(), VerifyError>)
    requires
        ops@.len() < usize::MAX,
        max_locals < usize::MAX,
        ops_admissible(ops@, 0, ops@.len() as int),
        args_admissible(descriptor@.args),
        method_total(ops@, exceptions@, is_static, descriptor@.args, max_stack as nat, max_locals as nat),
    ensures
        falls_off(ops@, exceptions@) ==> res == Err::<(), VerifyError>(VerifyError::CodeFellOffMethod),
        !falls_off(ops@, exceptions@) ==> match spec_entry_frame(is_static, descriptor@.args, max_locals as nat) {
            Err(e) => res == Err::<(), VerifyError>(e),
            Ok(f0) => {
                let bs = resolved_blocks(ops@, exceptions@);
                let tb = start_table(spec_basic_blocks(ops@, exceptions@));
                &&& (res is Ok <==> forall|st: (usize, AbstractFrame)| #[trigger] state_reachable(ops@, bs, tb, max_stack as nat, f0, st)
                    ==> state_passes(ops@, bs, tb, max_stack as nat, st))
                &&& (res matches Err(e) ==> exists|st: (usize, AbstractFrame)| #[trigger] state_reachable(ops@, bs, tb, max_stack as nat, f0, st)
                    && state_fails(ops@, bs, tb, max_stack as nat, st, e))
            },
        },
{
    let (blocks, table) = match collect_basic_blocks(ops, exceptions) {
        Err(e) => return Err(e),
        Ok(x) => x,
    };
    let entry = match entry_frame(is_static, descriptor, max_locals) {
        Err(e) => return Err(e),
        Ok(f) => f,
    };
    proof {
        let o = ops@;
        let exc = exceptions@;
        let raw = spec_basic_blocks(o, exc);
        lemma_spec_blocks_shape(o, exc, reached_targets(o, exc), o.len());
        let bs = blocks_view(blocks@);
        assert(bs.len() == raw.len());
        assert forall|k: int| 0 <= k < bs.len() implies 0 <= (#[trigger] bs[k]).start <= bs[k].end <= o.len() by {
            assert(bs[k].start == raw[k].start && bs[k].end == raw[k].end);
        }
        let blank = Seq::new(max_locals as nat, |i: int| ValueType::Invalid);
        assert forall|j: int| 0 <= j < blank.len() implies value_ok(#[trigger] blank[j], 0) by {}
        lemma_place_args(blank, 0, descriptor@.args);
        if max_locals > 0 {
            let ref_first = blank.update(0, ValueType::Reference);
            assert forall|j: int| 0 <= j < ref_first.len() implies value_ok(#[trigger] ref_first[j], 0) by {
                if j != 0 {
                    assert(ref_first[j] == blank[j]);
                }
            }
            lemma_place_args(ref_first, 1, descriptor@.args);
        }
        assert(frame_ok(entry@, entry@.locals.len(), max_stack as nat, o.len()));
    }
    verify_blocks(ops, &blocks, &table, max_stack, entry)
}

} // verus!
