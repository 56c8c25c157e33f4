//! The instructions of a method body, as the verifier and the interpreter see
//! them: jump targets are op indices, and field, method and class operands
//! are kept by name and descriptor.
use vstd::prelude::*;

use crate::classfile::constant_pool::ConstantPoolEntry;
use crate::classfile::constant_pool::SpecEntry;
use crate::descriptor::{Descriptor, MethodDescriptor, SpecDescriptor, SpecMethodDescriptor};
use crate::string::JvmString;

verus! {

/// The field an instruction reads or writes.
#[derive(Clone, Debug)]
pub struct FieldTarget {
    /// The class that declares the field.
    pub class_name: JvmString,
    /// The field's name.
    pub name: JvmString,
    /// The field's type.
    pub descriptor: Descriptor,
}

/// The method an instruction invokes.
#[derive(Clone, Debug)]
pub struct MethodTarget {
    /// The class the method is looked up in.
    pub class_name: JvmString,
    /// The method's name.
    pub name: JvmString,
    /// The method's argument and return types.
    pub descriptor: MethodDescriptor,
}

/// The operands of `tableswitch`.
#[derive(Clone, Debug)]
pub struct TableSwitchInfo {
    /// The value the first target is for.
    pub low_int: i32,
    /// The targets of the values `low_int`, `low_int + 1`, ...
    pub matches: Vec<usize>,
    /// The target of every other value.
    pub default_offset: usize,
}

/// The operands of `lookupswitch`.
#[derive(Clone, Debug)]
pub struct LookupSwitchInfo {
    /// Pairs of a value and its target.
    pub matches: Vec<(i32, usize)>,
    /// The target of every other value.
    pub default_offset: usize,
}

/// The operands of `invokeinterface`.
#[derive(Clone, Debug)]
pub struct InvokeInterfaceInfo {
    /// The interface.
    pub class: JvmString,
    /// The method's name.
    pub name: JvmString,
    /// The method's argument and return types.
    pub descriptor: MethodDescriptor,
}

/// The operands of `multianewarray`.
#[derive(Clone, Debug)]
pub struct MultiANewArrayInfo {
    /// The type of the array that is made.
    pub class: Descriptor,
    /// How many dimensions are given on the stack.
    pub dimensions: u8,
}

/// The element types `newarray` can make arrays of.
#[derive(Clone, Copy, Debug, PartialEq, Eq, Structural)]
pub enum ArrayType {
    Boolean,
    Char,
    Float,
    Double,
    Byte,
    Short,
    Int,
    Long,
}

/// One instruction. Floating-point constants are held by their bit patterns.
#[derive(Debug)]
pub enum Op {
    Nop,

    // Push constant
    AConstNull,
    IConst(i32),
    LConst(i8),
    FConst(u32),
    DConst(u64),
    Ldc(ConstantPoolEntry),
    LoadLong(i64),
    LoadDouble(u64),

    // Load local
    ILoad(usize),
    LLoad(usize),
    FLoad(usize),
    DLoad(usize),
    ALoad(usize),

    // Array get
    IaLoad,
    LaLoad,
    FaLoad,
    DaLoad,
    AaLoad,
    BaLoad,
    CaLoad,
    SaLoad,

    // Store local
    IStore(usize),
    LStore(usize),
    FStore(usize),
    DStore(usize),
    AStore(usize),

    // Array set
    IaStore,
    LaStore,
    FaStore,
    DaStore,
    AaStore,
    BaStore,
    CaStore,
    SaStore,

    // Stack
    Pop,
    Pop2,
    Dup,
    DupX1,
    DupX2,
    Dup2,
    Dup2X2,
    Swap,

    // Arithmetic
    IAdd,
    LAdd,
    FAdd,
    DAdd,
    ISub,
    LSub,
    FSub,
    DSub,
    IMul,
    LMul,
    FMul,
    DMul,
    IDiv,
    LDiv,
    FDiv,
    DDiv,
    IRem,
    LRem,
    FRem,
    DRem,
    INeg,
    LNeg,
    FNeg,
    DNeg,
    IShl,
    LShl,
    IShr,
    LShr,
    IUshr,
    LUshr,
    IAnd,
    LAnd,
    IOr,
    LOr,
    IXor,
    LXor,

    IInc(usize, i32),

    // Conversion
    I2L,
    I2F,
    I2D,
    L2I,
    L2F,
    L2D,
    F2I,
    F2L,
    F2D,
    D2I,
    D2L,
    D2F,
    I2B,
    I2C,
    I2S,

    // Comparison
    LCmp,
    FCmpL,
    FCmpG,
    DCmpL,
    DCmpG,

    // Branching
    IfEq(usize),
    IfNe(usize),
    IfLt(usize),
    IfGe(usize),
    IfGt(usize),
    IfLe(usize),
    IfICmpEq(usize),
    IfICmpNe(usize),
    IfICmpLt(usize),
    IfICmpGe(usize),
    IfICmpGt(usize),
    IfICmpLe(usize),
    IfACmpEq(usize),
    IfACmpNe(usize),
    Goto(usize),
    Jsr(usize),
    Ret(usize),
    TableSwitch(Box<TableSwitchInfo>),
    LookupSwitch(Box<LookupSwitchInfo>),

    // Return
    IReturn,
    LReturn,
    FReturn,
    DReturn,
    AReturn,
    Return,

    // Field get/set
    GetStatic(FieldTarget),
    PutStatic(FieldTarget),
    GetField(FieldTarget),
    PutField(FieldTarget),

    // Wide field get/set
    GetStaticWide(FieldTarget),
    PutStaticWide(FieldTarget),
    GetFieldWide(FieldTarget),
    PutFieldWide(FieldTarget),

    // Method invocation; the number is the slot count of the arguments
    InvokeVirtual(MethodTarget, usize),
    InvokeVirtualWide(MethodTarget, usize),
    InvokeSpecial(MethodTarget),
    InvokeStatic(MethodTarget),
    InvokeInterface(Box<InvokeInterfaceInfo>),

    // Memory allocation
    New(JvmString),
    NewArray(ArrayType),
    ANewArray(JvmString),

    // Misc
    ArrayLength,
    AThrow,
    CheckCast(JvmString),
    InstanceOf(JvmString),
    MonitorEnter,
    MonitorExit,
    MultiANewArray(Box<MultiANewArrayInfo>),
    IfNull(usize),
    IfNonNull(usize),

    // Custom ops
    Clinit(JvmString),
    GcCheck,
}

/// Whether executing `op` can throw.
pub open spec fn spec_can_throw(op: Op) -> bool {
    match op {
        Op::Ldc(_) | Op::IaLoad | Op::LaLoad | Op::FaLoad | Op::DaLoad | Op::AaLoad | Op::BaLoad
        | Op::CaLoad | Op::SaLoad | Op::IaStore | Op::LaStore | Op::FaStore | Op::DaStore
        | Op::AaStore | Op::BaStore | Op::CaStore | Op::SaStore | Op::IDiv | Op::LDiv | Op::IRem
        | Op::LRem | Op::GetField(_) | Op::PutField(_) | Op::GetFieldWide(_)
        | Op::PutFieldWide(_) | Op::InvokeVirtual(_, _) | Op::InvokeVirtualWide(_, _)
        | Op::InvokeSpecial(_) | Op::InvokeStatic(_) | Op::InvokeInterface(_) | Op::NewArray(_)
        | Op::ANewArray(_) | Op::ArrayLength | Op::AThrow | Op::CheckCast(_) | Op::MonitorEnter
        | Op::MonitorExit | Op::MultiANewArray(_) | Op::Clinit(_) => true,
        _ => false,
    }
}

impl Op {
    /// Whether executing this op can throw, so that an exception handler
    /// covering it may be entered from it.
    pub fn can_throw_error(&self) -> (res: bool)
        ensures
            res == spec_can_throw(*self),
    {
        match self {
            Op::Ldc(_) | Op::IaLoad | Op::LaLoad | Op::FaLoad | Op::DaLoad | Op::AaLoad
            | Op::BaLoad | Op::CaLoad | Op::SaLoad | Op::IaStore | Op::LaStore | Op::FaStore
            | Op::DaStore | Op::AaStore | Op::BaStore | Op::CaStore | Op::SaStore | Op::IDiv
            | Op::LDiv | Op::IRem | Op::LRem | Op::GetField(_) | Op::PutField(_)
            | Op::GetFieldWide(_) | Op::PutFieldWide(_) | Op::InvokeVirtual(_, _)
            | Op::InvokeVirtualWide(_, _) | Op::InvokeSpecial(_) | Op::InvokeStatic(_)
            | Op::InvokeInterface(_) | Op::NewArray(_) | Op::ANewArray(_) | Op::ArrayLength
            | Op::AThrow | Op::CheckCast(_) | Op::MonitorEnter | Op::MonitorExit
            | Op::MultiANewArray(_) | Op::Clinit(_) => true,
            _ => false,
        }
    }
}

/// An exception handler of a method body, in op indices.
#[derive(Clone, Debug)]
pub struct Exception {
    /// The first op covered.
    pub start: usize,
    /// The op after the last covered.
    pub end: usize,
    /// Where the handler's code starts.
    pub target: usize,
    /// The class of exceptions caught, or `None` for all.
    pub catch_class: Option<JvmString>,
}

// ---------------------------------------------------------------------------
// Ops as values
// ---------------------------------------------------------------------------

/// A field operand as values.
pub struct SpecField {
    pub class_name: Seq<char>,
    pub name: Seq<char>,
    pub descriptor: SpecDescriptor,
}

/// A method operand as values.
pub struct SpecMethod {
    pub class_name: Seq<char>,
    pub name: Seq<char>,
    pub descriptor: SpecMethodDescriptor,
}

/// The operands of `tableswitch` as values.
pub struct SpecTableSwitch {
    pub low_int: i32,
    pub matches: Seq<usize>,
    pub default_offset: usize,
}

/// The operands of `lookupswitch` as values.
pub struct SpecLookupSwitch {
    pub matches: Seq<(i32, usize)>,
    pub default_offset: usize,
}

/// The operands of `multianewarray` as values.
pub struct SpecMultiANewArray {
    pub class: SpecDescriptor,
    pub dimensions: u8,
}

impl View for FieldTarget {
    type V = SpecField;

    open spec fn view(&self) -> SpecField {
        SpecField { class_name: self.class_name@, name: self.name@, descriptor: self.descriptor@ }
    }
}

impl View for MethodTarget {
    type V = SpecMethod;

    open spec fn view(&self) -> SpecMethod {
        SpecMethod { class_name: self.class_name@, name: self.name@, descriptor: self.descriptor@ }
    }
}

impl View for InvokeInterfaceInfo {
    type V = SpecMethod;

    open spec fn view(&self) -> SpecMethod {
        SpecMethod { class_name: self.class@, name: self.name@, descriptor: self.descriptor@ }
    }
}

impl View for TableSwitchInfo {
    type V = SpecTableSwitch;

    open spec fn view(&self) -> SpecTableSwitch {
        SpecTableSwitch { low_int: self.low_int, matches: self.matches@, default_offset: self.default_offset }
    }
}

impl View for LookupSwitchInfo {
    type V = SpecLookupSwitch;

    open spec fn view(&self) -> SpecLookupSwitch {
        SpecLookupSwitch { matches: self.matches@, default_offset: self.default_offset }
    }
}

impl View for MultiANewArrayInfo {
    type V = SpecMultiANewArray;

    open spec fn view(&self) -> SpecMultiANewArray {
        SpecMultiANewArray { class: self.class@, dimensions: self.dimensions }
    }
}

/// An op as a value.
pub enum SpecOp {
    Nop,
    AConstNull,
    IConst(i32),
    LConst(i8),
    FConst(u32),
    DConst(u64),
    Ldc(SpecEntry),
    LoadLong(i64),
    LoadDouble(u64),
    ILoad(usize),
    LLoad(usize),
    FLoad(usize),
    DLoad(usize),
    ALoad(usize),
    IaLoad,
    LaLoad,
    FaLoad,
    DaLoad,
    AaLoad,
    BaLoad,
    CaLoad,
    SaLoad,
    IStore(usize),
    LStore(usize),
    FStore(usize),
    DStore(usize),
    AStore(usize),
    IaStore,
    LaStore,
    FaStore,
    DaStore,
    AaStore,
    BaStore,
    CaStore,
    SaStore,
    Pop,
    Pop2,
    Dup,
    DupX1,
    DupX2,
    Dup2,
    Dup2X2,
    Swap,
    IAdd,
    LAdd,
    FAdd,
    DAdd,
    ISub,
    LSub,
    FSub,
    DSub,
    IMul,
    LMul,
    FMul,
    DMul,
    IDiv,
    LDiv,
    FDiv,
    DDiv,
    IRem,
    LRem,
    FRem,
    DRem,
    INeg,
    LNeg,
    FNeg,
    DNeg,
    IShl,
    LShl,
    IShr,
    LShr,
    IUshr,
    LUshr,
    IAnd,
    LAnd,
    IOr,
    LOr,
    IXor,
    LXor,
    IInc(usize, i32),
    I2L,
    I2F,
    I2D,
    L2I,
    L2F,
    L2D,
    F2I,
    F2L,
    F2D,
    D2I,
    D2L,
    D2F,
    I2B,
    I2C,
    I2S,
    LCmp,
    FCmpL,
    FCmpG,
    DCmpL,
    DCmpG,
    IfEq(usize),
    IfNe(usize),
    IfLt(usize),
    IfGe(usize),
    IfGt(usize),
    IfLe(usize),
    IfICmpEq(usize),
    IfICmpNe(usize),
    IfICmpLt(usize),
    IfICmpGe(usize),
    IfICmpGt(usize),
    IfICmpLe(usize),
    IfACmpEq(usize),
    IfACmpNe(usize),
    Goto(usize),
    Jsr(usize),
    Ret(usize),
    TableSwitch(SpecTableSwitch),
    LookupSwitch(SpecLookupSwitch),
    IReturn,
    LReturn,
    FReturn,
    DReturn,
    AReturn,
    Return,
    GetStatic(SpecField),
    PutStatic(SpecField),
    GetField(SpecField),
    PutField(SpecField),
    GetStaticWide(SpecField),
    PutStaticWide(SpecField),
    GetFieldWide(SpecField),
    PutFieldWide(SpecField),
    InvokeVirtual(SpecMethod, usize),
    InvokeVirtualWide(SpecMethod, usize),
    InvokeSpecial(SpecMethod),
    InvokeStatic(SpecMethod),
    InvokeInterface(SpecMethod),
    New(Seq<char>),
    NewArray(ArrayType),
    ANewArray(Seq<char>),
    ArrayLength,
    AThrow,
    CheckCast(Seq<char>),
    InstanceOf(Seq<char>),
    MonitorEnter,
    MonitorExit,
    MultiANewArray(SpecMultiANewArray),
    IfNull(usize),
    IfNonNull(usize),
    Clinit(Seq<char>),
    GcCheck,
}

impl View for Op {
    type V = SpecOp;

    open spec fn view(&self) -> SpecOp {
        match self {
            Op::Nop => SpecOp::Nop,
            Op::AConstNull => SpecOp::AConstNull,
            Op::IConst(a0) => SpecOp::IConst(*a0),
            Op::LConst(a0) => SpecOp::LConst(*a0),
            Op::FConst(a0) => SpecOp::FConst(*a0),
            Op::DConst(a0) => SpecOp::DConst(*a0),
            Op::Ldc(a0) => SpecOp::Ldc(a0@),
            Op::LoadLong(a0) => SpecOp::LoadLong(*a0),
            Op::LoadDouble(a0) => SpecOp::LoadDouble(*a0),
            Op::ILoad(a0) => SpecOp::ILoad(*a0),
            Op::LLoad(a0) => SpecOp::LLoad(*a0),
            Op::FLoad(a0) => SpecOp::FLoad(*a0),
            Op::DLoad(a0) => SpecOp::DLoad(*a0),
            Op::ALoad(a0) => SpecOp::ALoad(*a0),
            Op::IaLoad => SpecOp::IaLoad,
            Op::LaLoad => SpecOp::LaLoad,
            Op::FaLoad => SpecOp::FaLoad,
            Op::DaLoad => SpecOp::DaLoad,
            Op::AaLoad => SpecOp::AaLoad,
            Op::BaLoad => SpecOp::BaLoad,
            Op::CaLoad => SpecOp::CaLoad,
            Op::SaLoad => SpecOp::SaLoad,
            Op::IStore(a0) => SpecOp::IStore(*a0),
            Op::LStore(a0) => SpecOp::LStore(*a0),
            Op::FStore(a0) => SpecOp::FStore(*a0),
            Op::DStore(a0) => SpecOp::DStore(*a0),
            Op::AStore(a0) => SpecOp::AStore(*a0),
            Op::IaStore => SpecOp::IaStore,
            Op::LaStore => SpecOp::LaStore,
            Op::FaStore => SpecOp::FaStore,
            Op::DaStore => SpecOp::DaStore,
            Op::AaStore => SpecOp::AaStore,
            Op::BaStore => SpecOp::BaStore,
            Op::CaStore => SpecOp::CaStore,
            Op::SaStore => SpecOp::SaStore,
            Op::Pop => SpecOp::Pop,
            Op::Pop2 => SpecOp::Pop2,
            Op::Dup => SpecOp::Dup,
            Op::DupX1 => SpecOp::DupX1,
            Op::DupX2 => SpecOp::DupX2,
            Op::Dup2 => SpecOp::Dup2,
            Op::Dup2X2 => SpecOp::Dup2X2,
            Op::Swap => SpecOp::Swap,
            Op::IAdd => SpecOp::IAdd,
            Op::LAdd => SpecOp::LAdd,
            Op::FAdd => SpecOp::FAdd,
            Op::DAdd => SpecOp::DAdd,
            Op::ISub => SpecOp::ISub,
            Op::LSub => SpecOp::LSub,
            Op::FSub => SpecOp::FSub,
            Op::DSub => SpecOp::DSub,
            Op::IMul => SpecOp::IMul,
            Op::LMul => SpecOp::LMul,
            Op::FMul => SpecOp::FMul,
            Op::DMul => SpecOp::DMul,
            Op::IDiv => SpecOp::IDiv,
            Op::LDiv => SpecOp::LDiv,
            Op::FDiv => SpecOp::FDiv,
            Op::DDiv => SpecOp::DDiv,
            Op::IRem => SpecOp::IRem,
            Op::LRem => SpecOp::LRem,
            Op::FRem => SpecOp::FRem,
            Op::DRem => SpecOp::DRem,
            Op::INeg => SpecOp::INeg,
            Op::LNeg => SpecOp::LNeg,
            Op::FNeg => SpecOp::FNeg,
            Op::DNeg => SpecOp::DNeg,
            Op::IShl => SpecOp::IShl,
            Op::LShl => SpecOp::LShl,
            Op::IShr => SpecOp::IShr,
            Op::LShr => SpecOp::LShr,
            Op::IUshr => SpecOp::IUshr,
            Op::LUshr => SpecOp::LUshr,
            Op::IAnd => SpecOp::IAnd,
            Op::LAnd => SpecOp::LAnd,
            Op::IOr => SpecOp::IOr,
            Op::LOr => SpecOp::LOr,
            Op::IXor => SpecOp::IXor,
            Op::LXor => SpecOp::LXor,
            Op::IInc(a0, a1) => SpecOp::IInc(*a0, *a1),
            Op::I2L => SpecOp::I2L,
            Op::I2F => SpecOp::I2F,
            Op::I2D => SpecOp::I2D,
            Op::L2I => SpecOp::L2I,
            Op::L2F => SpecOp::L2F,
            Op::L2D => SpecOp::L2D,
            Op::F2I => SpecOp::F2I,
            Op::F2L => SpecOp::F2L,
            Op::F2D => SpecOp::F2D,
            Op::D2I => SpecOp::D2I,
            Op::D2L => SpecOp::D2L,
            Op::D2F => SpecOp::D2F,
            Op::I2B => SpecOp::I2B,
            Op::I2C => SpecOp::I2C,
            Op::I2S => SpecOp::I2S,
            Op::LCmp => SpecOp::LCmp,
            Op::FCmpL => SpecOp::FCmpL,
            Op::FCmpG => SpecOp::FCmpG,
            Op::DCmpL => SpecOp::DCmpL,
            Op::DCmpG => SpecOp::DCmpG,
            Op::IfEq(a0) => SpecOp::IfEq(*a0),
            Op::IfNe(a0) => SpecOp::IfNe(*a0),
            Op::IfLt(a0) => SpecOp::IfLt(*a0),
            Op::IfGe(a0) => SpecOp::IfGe(*a0),
            Op::IfGt(a0) => SpecOp::IfGt(*a0),
            Op::IfLe(a0) => SpecOp::IfLe(*a0),
            Op::IfICmpEq(a0) => SpecOp::IfICmpEq(*a0),
            Op::IfICmpNe(a0) => SpecOp::IfICmpNe(*a0),
            Op::IfICmpLt(a0) => SpecOp::IfICmpLt(*a0),
            Op::IfICmpGe(a0) => SpecOp::IfICmpGe(*a0),
            Op::IfICmpGt(a0) => SpecOp::IfICmpGt(*a0),
            Op::IfICmpLe(a0) => SpecOp::IfICmpLe(*a0),
            Op::IfACmpEq(a0) => SpecOp::IfACmpEq(*a0),
            Op::IfACmpNe(a0) => SpecOp::IfACmpNe(*a0),
            Op::Goto(a0) => SpecOp::Goto(*a0),
            Op::Jsr(a0) => SpecOp::Jsr(*a0),
            Op::Ret(a0) => SpecOp::Ret(*a0),
            Op::TableSwitch(a0) => SpecOp::TableSwitch(a0@),
            Op::LookupSwitch(a0) => SpecOp::LookupSwitch(a0@),
            Op::IReturn => SpecOp::IReturn,
            Op::LReturn => SpecOp::LReturn,
            Op::FReturn => SpecOp::FReturn,
            Op::DReturn => SpecOp::DReturn,
            Op::AReturn => SpecOp::AReturn,
            Op::Return => SpecOp::Return,
            Op::GetStatic(a0) => SpecOp::GetStatic(a0@),
            Op::PutStatic(a0) => SpecOp::PutStatic(a0@),
            Op::GetField(a0) => SpecOp::GetField(a0@),
            Op::PutField(a0) => SpecOp::PutField(a0@),
            Op::GetStaticWide(a0) => SpecOp::GetStaticWide(a0@),
            Op::PutStaticWide(a0) => SpecOp::PutStaticWide(a0@),
            Op::GetFieldWide(a0) => SpecOp::GetFieldWide(a0@),
            Op::PutFieldWide(a0) => SpecOp::PutFieldWide(a0@),
            Op::InvokeVirtual(a0, a1) => SpecOp::InvokeVirtual(a0@, *a1),
            Op::InvokeVirtualWide(a0, a1) => SpecOp::InvokeVirtualWide(a0@, *a1),
            Op::InvokeSpecial(a0) => SpecOp::InvokeSpecial(a0@),
            Op::InvokeStatic(a0) => SpecOp::InvokeStatic(a0@),
            Op::InvokeInterface(a0) => SpecOp::InvokeInterface(a0@),
            Op::New(a0) => SpecOp::New(a0@),
            Op::NewArray(a0) => SpecOp::NewArray(*a0),
            Op::ANewArray(a0) => SpecOp::ANewArray(a0@),
            Op::ArrayLength => SpecOp::ArrayLength,
            Op::AThrow => SpecOp::AThrow,
            Op::CheckCast(a0) => SpecOp::CheckCast(a0@),
            Op::InstanceOf(a0) => SpecOp::InstanceOf(a0@),
            Op::MonitorEnter => SpecOp::MonitorEnter,
            Op::MonitorExit => SpecOp::MonitorExit,
            Op::MultiANewArray(a0) => SpecOp::MultiANewArray(a0@),
            Op::IfNull(a0) => SpecOp::IfNull(*a0),
            Op::IfNonNull(a0) => SpecOp::IfNonNull(*a0),
            Op::Clinit(a0) => SpecOp::Clinit(a0@),
            Op::GcCheck => SpecOp::GcCheck,
        }
    }
}

/// A copy of a list of offsets.
fn copy_offsets(v: &Vec<usize>) -> (res: Vec<usize>)
    ensures
        res@ == v@,
{
    let mut out: Vec<usize> = Vec::new();
    let mut i: usize = 0;
    while i < v.len()
        invariant
            i <= v@.len(),
            out@ =~= v@.take(i as int),
        decreases v@.len() - i,
    {
        out.push(v[i]);
        assert(v@.take(i + 1) =~= v@.take(i as int).push(v@[i as int]));
        i = i + 1;
    }
    assert(v@.take(i as int) =~= v@);
    out
}

/// A copy of a list of (value, offset) pairs.
fn copy_pairs(v: &Vec<(i32, usize)>) -> (res: Vec<(i32, usize)>)
    ensures
        res@ == v@,
{
    let mut out: Vec<(i32, usize)> = Vec::new();
    let mut i: usize = 0;
    while i < v.len()
        invariant
            i <= v@.len(),
            out@ =~= v@.take(i as int),
        decreases v@.len() - i,
    {
        out.push(v[i]);
        assert(v@.take(i + 1) =~= v@.take(i as int).push(v@[i as int]));
        i = i + 1;
    }
    assert(v@.take(i as int) =~= v@);
    out
}

impl FieldTarget {
    /// A second field operand equal to this one.
    pub fn duplicate(&self) -> (res: Self)
        ensures
            res@ == self@,
    {
        FieldTarget { class_name: self.class_name.duplicate(), name: self.name.duplicate(), descriptor: self.descriptor.duplicate() }
    }
}

impl MethodTarget {
    /// A second method operand equal to this one.
    pub fn duplicate(&self) -> (res: Self)
        ensures
            res@ == self@,
    {
        MethodTarget { class_name: self.class_name.duplicate(), name: self.name.duplicate(), descriptor: self.descriptor.duplicate() }
    }
}

impl TableSwitchInfo {
    /// A second set of operands equal to these.
    pub fn duplicate(&self) -> (res: Self)
        ensures
            res@ == self@,
    {
        TableSwitchInfo { low_int: self.low_int, matches: copy_offsets(&self.matches), default_offset: self.default_offset }
    }
}

impl LookupSwitchInfo {
    /// A second set of operands equal to these.
    pub fn duplicate(&self) -> (res: Self)
        ensures
            res@ == self@,
    {
        LookupSwitchInfo { matches: copy_pairs(&self.matches), default_offset: self.default_offset }
    }
}

impl InvokeInterfaceInfo {
    /// A second set of operands equal to these.
    pub fn duplicate(&self) -> (res: Self)
        ensures
            res@ == self@,
    {
        InvokeInterfaceInfo { class: self.class.duplicate(), name: self.name.duplicate(), descriptor: self.descriptor.duplicate() }
    }
}

impl MultiANewArrayInfo {
    /// A second set of operands equal to these.
    pub fn duplicate(&self) -> (res: Self)
        ensures
            res@ == self@,
    {
        MultiANewArrayInfo { class: self.class.duplicate(), dimensions: self.dimensions }
    }
}

impl Op {
    /// A second op equal to this one.
    pub fn duplicate(&self) -> (res: Op)
        ensures
            res@ == self@,
    {
        match self {
            Op::Nop => Op::Nop,
            Op::AConstNull => Op::AConstNull,
            Op::IConst(a0) => Op::IConst(*a0),
            Op::LConst(a0) => Op::LConst(*a0),
            Op::FConst(a0) => Op::FConst(*a0),
            Op::DConst(a0) => Op::DConst(*a0),
            Op::Ldc(a0) => Op::Ldc(a0.duplicate()),
            Op::LoadLong(a0) => Op::LoadLong(*a0),
            Op::LoadDouble(a0) => Op::LoadDouble(*a0),
            Op::ILoad(a0) => Op::ILoad(*a0),
            Op::LLoad(a0) => Op::LLoad(*a0),
            Op::FLoad(a0) => Op::FLoad(*a0),
            Op::DLoad(a0) => Op::DLoad(*a0),
            Op::ALoad(a0) => Op::ALoad(*a0),
            Op::IaLoad => Op::IaLoad,
            Op::LaLoad => Op::LaLoad,
            Op::FaLoad => Op::FaLoad,
            Op::DaLoad => Op::DaLoad,
            Op::AaLoad => Op::AaLoad,
            Op::BaLoad => Op::BaLoad,
            Op::CaLoad => Op::CaLoad,
            Op::SaLoad => Op::SaLoad,
            Op::IStore(a0) => Op::IStore(*a0),
            Op::LStore(a0) => Op::LStore(*a0),
            Op::FStore(a0) => Op::FStore(*a0),
            Op::DStore(a0) => Op::DStore(*a0),
            Op::AStore(a0) => Op::AStore(*a0),
            Op::IaStore => Op::IaStore,
            Op::LaStore => Op::LaStore,
            Op::FaStore => Op::FaStore,
            Op::DaStore => Op::DaStore,
            Op::AaStore => Op::AaStore,
            Op::BaStore => Op::BaStore,
            Op::CaStore => Op::CaStore,
            Op::SaStore => Op::SaStore,
            Op::Pop => Op::Pop,
            Op::Pop2 => Op::Pop2,
            Op::Dup => Op::Dup,
            Op::DupX1 => Op::DupX1,
            Op::DupX2 => Op::DupX2,
            Op::Dup2 => Op::Dup2,
            Op::Dup2X2 => Op::Dup2X2,
            Op::Swap => Op::Swap,
            Op::IAdd => Op::IAdd,
            Op::LAdd => Op::LAdd,
            Op::FAdd => Op::FAdd,
            Op::DAdd => Op::DAdd,
            Op::ISub => Op::ISub,
            Op::LSub => Op::LSub,
            Op::FSub => Op::FSub,
            Op::DSub => Op::DSub,
            Op::IMul => Op::IMul,
            Op::LMul => Op::LMul,
            Op::FMul => Op::FMul,
            Op::DMul => Op::DMul,
            Op::IDiv => Op::IDiv,
            Op::LDiv => Op::LDiv,
            Op::FDiv => Op::FDiv,
            Op::DDiv => Op::DDiv,
            Op::IRem => Op::IRem,
            Op::LRem => Op::LRem,
            Op::FRem => Op::FRem,
            Op::DRem => Op::DRem,
            Op::INeg => Op::INeg,
            Op::LNeg => Op::LNeg,
            Op::FNeg => Op::FNeg,
            Op::DNeg => Op::DNeg,
            Op::IShl => Op::IShl,
            Op::LShl => Op::LShl,
            Op::IShr => Op::IShr,
            Op::LShr => Op::LShr,
            Op::IUshr => Op::IUshr,
            Op::LUshr => Op::LUshr,
            Op::IAnd => Op::IAnd,
            Op::LAnd => Op::LAnd,
            Op::IOr => Op::IOr,
            Op::LOr => Op::LOr,
            Op::IXor => Op::IXor,
            Op::LXor => Op::LXor,
            Op::IInc(a0, a1) => Op::IInc(*a0, *a1),
            Op::I2L => Op::I2L,
            Op::I2F => Op::I2F,
            Op::I2D => Op::I2D,
            Op::L2I => Op::L2I,
            Op::L2F => Op::L2F,
            Op::L2D => Op::L2D,
            Op::F2I => Op::F2I,
            Op::F2L => Op::F2L,
            Op::F2D => Op::F2D,
            Op::D2I => Op::D2I,
            Op::D2L => Op::D2L,
            Op::D2F => Op::D2F,
            Op::I2B => Op::I2B,
            Op::I2C => Op::I2C,
            Op::I2S => Op::I2S,
            Op::LCmp => Op::LCmp,
            Op::FCmpL => Op::FCmpL,
            Op::FCmpG => Op::FCmpG,
            Op::DCmpL => Op::DCmpL,
            Op::DCmpG => Op::DCmpG,
            Op::IfEq(a0) => Op::IfEq(*a0),
            Op::IfNe(a0) => Op::IfNe(*a0),
            Op::IfLt(a0) => Op::IfLt(*a0),
            Op::IfGe(a0) => Op::IfGe(*a0),
            Op::IfGt(a0) => Op::IfGt(*a0),
            Op::IfLe(a0) => Op::IfLe(*a0),
            Op::IfICmpEq(a0) => Op::IfICmpEq(*a0),
            Op::IfICmpNe(a0) => Op::IfICmpNe(*a0),
            Op::IfICmpLt(a0) => Op::IfICmpLt(*a0),
            Op::IfICmpGe(a0) => Op::IfICmpGe(*a0),
            Op::IfICmpGt(a0) => Op::IfICmpGt(*a0),
            Op::IfICmpLe(a0) => Op::IfICmpLe(*a0),
            Op::IfACmpEq(a0) => Op::IfACmpEq(*a0),
            Op::IfACmpNe(a0) => Op::IfACmpNe(*a0),
            Op::Goto(a0) => Op::Goto(*a0),
            Op::Jsr(a0) => Op::Jsr(*a0),
            Op::Ret(a0) => Op::Ret(*a0),
            Op::TableSwitch(a0) => Op::TableSwitch(Box::new(a0.duplicate())),
            Op::LookupSwitch(a0) => Op::LookupSwitch(Box::new(a0.duplicate())),
            Op::IReturn => Op::IReturn,
            Op::LReturn => Op::LReturn,
            Op::FReturn => Op::FReturn,
            Op::DReturn => Op::DReturn,
            Op::AReturn => Op::AReturn,
            Op::Return => Op::Return,
            Op::GetStatic(a0) => Op::GetStatic(a0.duplicate()),
            Op::PutStatic(a0) => Op::PutStatic(a0.duplicate()),
            Op::GetField(a0) => Op::GetField(a0.duplicate()),
            Op::PutField(a0) => Op::PutField(a0.duplicate()),
            Op::GetStaticWide(a0) => Op::GetStaticWide(a0.duplicate()),
            Op::PutStaticWide(a0) => Op::PutStaticWide(a0.duplicate()),
            Op::GetFieldWide(a0) => Op::GetFieldWide(a0.duplicate()),
            Op::PutFieldWide(a0) => Op::PutFieldWide(a0.duplicate()),
            Op::InvokeVirtual(a0, a1) => Op::InvokeVirtual(a0.duplicate(), *a1),
            Op::InvokeVirtualWide(a0, a1) => Op::InvokeVirtualWide(a0.duplicate(), *a1),
            Op::InvokeSpecial(a0) => Op::InvokeSpecial(a0.duplicate()),
            Op::InvokeStatic(a0) => Op::InvokeStatic(a0.duplicate()),
            Op::InvokeInterface(a0) => Op::InvokeInterface(Box::new(a0.duplicate())),
            Op::New(a0) => Op::New(a0.duplicate()),
            Op::NewArray(a0) => Op::NewArray(*a0),
            Op::ANewArray(a0) => Op::ANewArray(a0.duplicate()),
            Op::ArrayLength => Op::ArrayLength,
            Op::AThrow => Op::AThrow,
            Op::CheckCast(a0) => Op::CheckCast(a0.duplicate()),
            Op::InstanceOf(a0) => Op::InstanceOf(a0.duplicate()),
            Op::MonitorEnter => Op::MonitorEnter,
            Op::MonitorExit => Op::MonitorExit,
            Op::MultiANewArray(a0) => Op::MultiANewArray(Box::new(a0.duplicate())),
            Op::IfNull(a0) => Op::IfNull(*a0),
            Op::IfNonNull(a0) => Op::IfNonNull(*a0),
            Op::Clinit(a0) => Op::Clinit(a0.duplicate()),
            Op::GcCheck => Op::GcCheck,
        }
    }
}

impl Clone for Op {
    fn clone(&self) -> (res: Self)
        ensures
            res@ == self@,
    {
        self.duplicate()
    }
}

} // verus!
