//! Decoding the bytecode of a method body into ops: operands are read,
//! constant-pool references are looked up and their descriptors parsed, and
//! jump offsets are turned into op indices. Linking the named classes,
//! fields and methods against loaded classes is left to the caller.
use vstd::prelude::*;
use vstd::utf8::encode_utf8;

use crate::classfile::constant_pool::{spec_entry, spec_get_class, spec_get_ref, ConstantPool, ConstantPoolEntry, RefKind, SpecEntry};
use crate::classfile::error::{error_of_read, Error};
use crate::descriptor::{spec_is_wide, spec_method_descriptor, spec_try_from_string, Descriptor, MethodDescriptor, SpecDescriptor, SpecMethodDescriptor};
use crate::op::{ArrayType, SpecField, SpecLookupSwitch, SpecMethod, SpecMultiANewArray, SpecOp, SpecTableSwitch};
use crate::op::{FieldTarget, InvokeInterfaceInfo, LookupSwitchInfo, MethodTarget, MultiANewArrayInfo, Op, TableSwitchInfo};
use crate::index_table::{index_table_contents, index_table_get, index_table_insert, index_table_new, IndexTable};
use crate::reader::{spec_u16_be, spec_u32_be, spec_u8, FileData, ReadError};

verus! {

/// Why a method body could not be decoded.
#[derive(Clone, Copy, Debug, PartialEq, Eq, Structural)]
pub enum DecodeError {
    /// The code ended early, or a constant-pool reference is of the wrong
    /// kind.
    ClassFile(Error),
    /// A field descriptor that does not parse.
    IllegalFieldSignature,
    /// A method descriptor that does not parse.
    IllegalMethodSignature,
    /// The return op (its opcode given) does not fit the return type.
    BadReturnType(u8),
    /// `newarray` of an unknown element type.
    InvalidArrayType,
    /// `multianewarray` of no dimensions.
    NoDimensions,
    /// `multianewarray` of more dimensions than its type has.
    NotAnArrayOfDimensions,
    /// A jump to an offset where no op starts.
    InvalidBranchTarget,
    /// A `tableswitch` default to an offset where no op starts.
    InvalidTableSwitchDefault,
    /// A `tableswitch` case to an offset where no op starts.
    InvalidTableSwitchCase,
    /// A `lookupswitch` default to an offset where no op starts.
    InvalidLookupSwitchDefault,
    /// A `lookupswitch` case to an offset where no op starts.
    InvalidLookupSwitchCase,
    /// An exception handler whose range or target is at an offset where no
    /// op starts (reported as the error for a catch class that cannot be
    /// thrown).
    ClassNotThrowable,
}

/// Decoding one op: the op, a second op it is split into, and the position
/// after it; `None` where decoding has no defined outcome (an opcode the
/// decoder does not know, a constant-pool index past the pool, `ldc2_w` of
/// a constant that is not a long or double, a descriptor without a defined
/// parse, or a switch whose bounds give no table).
pub type DecodeOutcome = Option<Result<(SpecOp, Option<SpecOp>, int), DecodeError>>;

/// The outcome of a read that failed.
pub open spec fn read_fail(e: ReadError) -> DecodeOutcome {
    Some(Err(DecodeError::ClassFile(error_of_read(e))))
}

/// One op, ending at `q`.
pub open spec fn one(op: SpecOp, q: int) -> DecodeOutcome {
    Some(Ok((op, None, q)))
}

/// The op index (still a byte offset) a jump by `offset` from the op at
/// offset `off` goes to.
pub open spec fn jump_to(off: int, offset: int) -> usize {
    (off + offset) as usize
}

/// The ops of one opcode byte and no operands.
pub open spec fn simple_op(opcode: u8) -> Option<SpecOp> {
    match opcode {
        0x00u8 => Some(SpecOp::Nop),
        0x01u8 => Some(SpecOp::AConstNull),
        0x02u8 => Some(SpecOp::IConst(-1i32)),
        0x03u8 => Some(SpecOp::IConst(0i32)),
        0x04u8 => Some(SpecOp::IConst(1i32)),
        0x05u8 => Some(SpecOp::IConst(2i32)),
        0x06u8 => Some(SpecOp::IConst(3i32)),
        0x07u8 => Some(SpecOp::IConst(4i32)),
        0x08u8 => Some(SpecOp::IConst(5i32)),
        0x09u8 => Some(SpecOp::LConst(0i8)),
        0x0au8 => Some(SpecOp::LConst(1i8)),
        0x0bu8 => Some(SpecOp::FConst(0u32)),
        0x0cu8 => Some(SpecOp::FConst(0x3f80_0000u32)),
        0x0du8 => Some(SpecOp::FConst(0x4000_0000u32)),
        0x0eu8 => Some(SpecOp::DConst(0u64)),
        0x0fu8 => Some(SpecOp::DConst(0x3ff0_0000_0000_0000u64)),
        0x1au8 => Some(SpecOp::ILoad(0usize)),
        0x1bu8 => Some(SpecOp::ILoad(1usize)),
        0x1cu8 => Some(SpecOp::ILoad(2usize)),
        0x1du8 => Some(SpecOp::ILoad(3usize)),
        0x1eu8 => Some(SpecOp::LLoad(0usize)),
        0x1fu8 => Some(SpecOp::LLoad(1usize)),
        0x20u8 => Some(SpecOp::LLoad(2usize)),
        0x21u8 => Some(SpecOp::LLoad(3usize)),
        0x22u8 => Some(SpecOp::FLoad(0usize)),
        0x23u8 => Some(SpecOp::FLoad(1usize)),
        0x24u8 => Some(SpecOp::FLoad(2usize)),
        0x25u8 => Some(SpecOp::FLoad(3usize)),
        0x26u8 => Some(SpecOp::DLoad(0usize)),
        0x27u8 => Some(SpecOp::DLoad(1usize)),
        0x28u8 => Some(SpecOp::DLoad(2usize)),
        0x29u8 => Some(SpecOp::DLoad(3usize)),
        0x2au8 => Some(SpecOp::ALoad(0usize)),
        0x2bu8 => Some(SpecOp::ALoad(1usize)),
        0x2cu8 => Some(SpecOp::ALoad(2usize)),
        0x2du8 => Some(SpecOp::ALoad(3usize)),
        0x2eu8 => Some(SpecOp::IaLoad),
        0x2fu8 => Some(SpecOp::LaLoad),
        0x30u8 => Some(SpecOp::FaLoad),
        0x31u8 => Some(SpecOp::DaLoad),
        0x32u8 => Some(SpecOp::AaLoad),
        0x33u8 => Some(SpecOp::BaLoad),
        0x34u8 => Some(SpecOp::CaLoad),
        0x35u8 => Some(SpecOp::SaLoad),
        0x3bu8 => Some(SpecOp::IStore(0usize)),
        0x3cu8 => Some(SpecOp::IStore(1usize)),
        0x3du8 => Some(SpecOp::IStore(2usize)),
        0x3eu8 => Some(SpecOp::IStore(3usize)),
        0x3fu8 => Some(SpecOp::LStore(0usize)),
        0x40u8 => Some(SpecOp::LStore(1usize)),
        0x41u8 => Some(SpecOp::LStore(2usize)),
        0x42u8 => Some(SpecOp::LStore(3usize)),
        0x43u8 => Some(SpecOp::FStore(0usize)),
        0x44u8 => Some(SpecOp::FStore(1usize)),
        0x45u8 => Some(SpecOp::FStore(2usize)),
        0x46u8 => Some(SpecOp::FStore(3usize)),
        0x47u8 => Some(SpecOp::DStore(0usize)),
        0x48u8 => Some(SpecOp::DStore(1usize)),
        0x49u8 => Some(SpecOp::DStore(2usize)),
        0x4au8 => Some(SpecOp::DStore(3usize)),
        0x4bu8 => Some(SpecOp::AStore(0usize)),
        0x4cu8 => Some(SpecOp::AStore(1usize)),
        0x4du8 => Some(SpecOp::AStore(2usize)),
        0x4eu8 => Some(SpecOp::AStore(3usize)),
        0x4fu8 => Some(SpecOp::IaStore),
        0x50u8 => Some(SpecOp::LaStore),
        0x51u8 => Some(SpecOp::FaStore),
        0x52u8 => Some(SpecOp::DaStore),
        0x53u8 => Some(SpecOp::AaStore),
        0x54u8 => Some(SpecOp::BaStore),
        0x55u8 => Some(SpecOp::CaStore),
        0x56u8 => Some(SpecOp::SaStore),
        0x57u8 => Some(SpecOp::Pop),
        0x58u8 => Some(SpecOp::Pop2),
        0x59u8 => Some(SpecOp::Dup),
        0x5au8 => Some(SpecOp::DupX1),
        0x5bu8 => Some(SpecOp::DupX2),
        0x5cu8 => Some(SpecOp::Dup2),
        0x5eu8 => Some(SpecOp::Dup2X2),
        0x5fu8 => Some(SpecOp::Swap),
        0x60u8 => Some(SpecOp::IAdd),
        0x61u8 => Some(SpecOp::LAdd),
        0x62u8 => Some(SpecOp::FAdd),
        0x63u8 => Some(SpecOp::DAdd),
        0x64u8 => Some(SpecOp::ISub),
        0x65u8 => Some(SpecOp::LSub),
        0x66u8 => Some(SpecOp::FSub),
        0x67u8 => Some(SpecOp::DSub),
        0x68u8 => Some(SpecOp::IMul),
        0x69u8 => Some(SpecOp::LMul),
        0x6au8 => Some(SpecOp::FMul),
        0x6bu8 => Some(SpecOp::DMul),
        0x6cu8 => Some(SpecOp::IDiv),
        0x6du8 => Some(SpecOp::LDiv),
        0x6eu8 => Some(SpecOp::FDiv),
        0x6fu8 => Some(SpecOp::DDiv),
        0x70u8 => Some(SpecOp::IRem),
        0x71u8 => Some(SpecOp::LRem),
        0x72u8 => Some(SpecOp::FRem),
        0x73u8 => Some(SpecOp::DRem),
        0x74u8 => Some(SpecOp::INeg),
        0x75u8 => Some(SpecOp::LNeg),
        0x76u8 => Some(SpecOp::FNeg),
        0x77u8 => Some(SpecOp::DNeg),
        0x78u8 => Some(SpecOp::IShl),
        0x79u8 => Some(SpecOp::LShl),
        0x7au8 => Some(SpecOp::IShr),
        0x7bu8 => Some(SpecOp::LShr),
        0x7cu8 => Some(SpecOp::IUshr),
        0x7du8 => Some(SpecOp::LUshr),
        0x7eu8 => Some(SpecOp::IAnd),
        0x7fu8 => Some(SpecOp::LAnd),
        0x80u8 => Some(SpecOp::IOr),
        0x81u8 => Some(SpecOp::LOr),
        0x82u8 => Some(SpecOp::IXor),
        0x83u8 => Some(SpecOp::LXor),
        0x85u8 => Some(SpecOp::I2L),
        0x86u8 => Some(SpecOp::I2F),
        0x87u8 => Some(SpecOp::I2D),
        0x88u8 => Some(SpecOp::L2I),
        0x89u8 => Some(SpecOp::L2F),
        0x8au8 => Some(SpecOp::L2D),
        0x8bu8 => Some(SpecOp::F2I),
        0x8cu8 => Some(SpecOp::F2L),
        0x8du8 => Some(SpecOp::F2D),
        0x8eu8 => Some(SpecOp::D2I),
        0x8fu8 => Some(SpecOp::D2L),
        0x90u8 => Some(SpecOp::D2F),
        0x91u8 => Some(SpecOp::I2B),
        0x92u8 => Some(SpecOp::I2C),
        0x93u8 => Some(SpecOp::I2S),
        0x94u8 => Some(SpecOp::LCmp),
        0x95u8 => Some(SpecOp::FCmpL),
        0x96u8 => Some(SpecOp::FCmpG),
        0x97u8 => Some(SpecOp::DCmpL),
        0x98u8 => Some(SpecOp::DCmpG),
        0xbeu8 => Some(SpecOp::ArrayLength),
        0xbfu8 => Some(SpecOp::AThrow),
        0xc2u8 => Some(SpecOp::MonitorEnter),
        0xc3u8 => Some(SpecOp::MonitorExit),
        _ => None,
    }
}

/// The local-variable ops that take a one-byte index.
pub open spec fn local_op(opcode: u8, i: usize) -> Option<SpecOp> {
    match opcode {
        0x15u8 => Some(SpecOp::ILoad(i)),
        0x16u8 => Some(SpecOp::LLoad(i)),
        0x17u8 => Some(SpecOp::FLoad(i)),
        0x18u8 => Some(SpecOp::DLoad(i)),
        0x19u8 => Some(SpecOp::ALoad(i)),
        0x36u8 => Some(SpecOp::IStore(i)),
        0x37u8 => Some(SpecOp::LStore(i)),
        0x38u8 => Some(SpecOp::FStore(i)),
        0x39u8 => Some(SpecOp::DStore(i)),
        0x3au8 => Some(SpecOp::AStore(i)),
        0xa9u8 => Some(SpecOp::Ret(i)),
        _ => None,
    }
}

/// The jumps that take a two-byte offset, and the four-byte `goto_w` and
/// `jsr_w`.
pub open spec fn branch_op(opcode: u8, target: usize) -> Option<SpecOp> {
    match opcode {
        0x99u8 => Some(SpecOp::IfEq(target)),
        0x9au8 => Some(SpecOp::IfNe(target)),
        0x9bu8 => Some(SpecOp::IfLt(target)),
        0x9cu8 => Some(SpecOp::IfGe(target)),
        0x9du8 => Some(SpecOp::IfGt(target)),
        0x9eu8 => Some(SpecOp::IfLe(target)),
        0x9fu8 => Some(SpecOp::IfICmpEq(target)),
        0xa0u8 => Some(SpecOp::IfICmpNe(target)),
        0xa1u8 => Some(SpecOp::IfICmpLt(target)),
        0xa2u8 => Some(SpecOp::IfICmpGe(target)),
        0xa3u8 => Some(SpecOp::IfICmpGt(target)),
        0xa4u8 => Some(SpecOp::IfICmpLe(target)),
        0xa5u8 => Some(SpecOp::IfACmpEq(target)),
        0xa6u8 => Some(SpecOp::IfACmpNe(target)),
        0xa7u8 | 0xc8u8 => Some(SpecOp::Goto(target)),
        0xa8u8 | 0xc9u8 => Some(SpecOp::Jsr(target)),
        0xc6u8 => Some(SpecOp::IfNull(target)),
        0xc7u8 => Some(SpecOp::IfNonNull(target)),
        _ => None,
    }
}

/// Whether a jump opcode takes a four-byte offset.
pub open spec fn wide_jump(opcode: u8) -> bool {
    opcode == 0xc8u8 || opcode == 0xc9u8
}

/// A return op, checked against the method's return type.
pub open spec fn return_op(opcode: u8, ret: SpecDescriptor) -> Result<SpecOp, DecodeError> {
    let fits = match opcode {
        0xacu8 => ret is Boolean || ret is Byte || ret is Character || ret is Integer || ret is Short,
        0xadu8 => ret is Long,
        0xaeu8 => ret is Float,
        0xafu8 => ret is Double,
        0xb0u8 => ret is Class || ret is Array,
        _ => ret is Void,
    };
    if !fits {
        Err(DecodeError::BadReturnType(opcode))
    } else {
        Ok(match opcode {
            0xacu8 => SpecOp::IReturn,
            0xadu8 => SpecOp::LReturn,
            0xaeu8 => SpecOp::FReturn,
            0xafu8 => SpecOp::DReturn,
            0xb0u8 => SpecOp::AReturn,
            _ => SpecOp::Return,
        })
    }
}

/// `ldc` and `ldc_w` of entry `idx`.
pub open spec fn ldc_op(pool: Seq<SpecEntry>, idx: u16, q: int) -> DecodeOutcome {
    match spec_entry(pool, idx) {
        None => None,
        Some(Err(e)) => Some(Err(DecodeError::ClassFile(e))),
        Some(Ok(e)) => one(SpecOp::Ldc(e), q),
    }
}

/// `ldc2_w` of entry `idx`.
pub open spec fn ldc2_op(pool: Seq<SpecEntry>, idx: u16, q: int) -> DecodeOutcome {
    match spec_entry(pool, idx) {
        None => None,
        Some(Err(e)) => Some(Err(DecodeError::ClassFile(e))),
        Some(Ok(SpecEntry::Long(v))) => one(SpecOp::LoadLong(v), q),
        Some(Ok(SpecEntry::Double(bits))) => one(SpecOp::LoadDouble(bits), q),
        Some(Ok(_)) => None,
    }
}

/// Parsing a field descriptor.
pub open spec fn field_descriptor(s: Seq<char>) -> Result<SpecDescriptor, DecodeError> {
    match spec_try_from_string(s) {
        None => Err(DecodeError::IllegalFieldSignature),
        Some(d) => Ok(d),
    }
}

/// Parsing a method descriptor: `None` where the string is longer than half
/// the address space, which no string in memory is.
pub open spec fn method_descriptor(s: Seq<char>) -> Option<Result<SpecMethodDescriptor, DecodeError>> {
    if encode_utf8(s).len() * 2 > usize::MAX {
        None
    } else {
        match spec_method_descriptor(s) {
            None => Some(Err(DecodeError::IllegalMethodSignature)),
            Some(m) => Some(Ok(m)),
        }
    }
}

/// The field ops: `getstatic` and `putstatic` first run the class
/// initializer of the class named.
pub open spec fn field_op(pool: Seq<SpecEntry>, opcode: u8, idx: u16, q: int) -> DecodeOutcome {
    match spec_get_ref(pool, idx, RefKind::Field) {
        None => None,
        Some(Err(e)) => Some(Err(DecodeError::ClassFile(e))),
        Some(Ok((class_name, name, dstr))) => match field_descriptor(dstr) {
            Err(e) => Some(Err(e)),
            Ok(d) => {
                let f = SpecField { class_name, name, descriptor: d };
                let wide = spec_is_wide(d);
                match opcode {
                    0xb2u8 => Some(Ok((SpecOp::Clinit(class_name), Some(if wide { SpecOp::GetStaticWide(f) } else { SpecOp::GetStatic(f) }), q))),
                    0xb3u8 => Some(Ok((SpecOp::Clinit(class_name), Some(if wide { SpecOp::PutStaticWide(f) } else { SpecOp::PutStatic(f) }), q))),
                    0xb4u8 => one(if wide { SpecOp::GetFieldWide(f) } else { SpecOp::GetField(f) }, q),
                    _ => one(if wide { SpecOp::PutFieldWide(f) } else { SpecOp::PutField(f) }, q),
                }
            },
        },
    }
}

/// Which kind of member reference an invoke opcode names.
pub open spec fn invoke_kind(opcode: u8) -> RefKind {
    match opcode {
        0xb6u8 => RefKind::Method,
        0xb9u8 => RefKind::InterfaceMethod,
        _ => RefKind::AnyMethod,
    }
}

/// The method a reference at `idx` names, with its descriptor parsed.
pub open spec fn method_target(pool: Seq<SpecEntry>, kind: RefKind, idx: u16) -> Option<Result<SpecMethod, DecodeError>> {
    match spec_get_ref(pool, idx, kind) {
        None => None,
        Some(Err(e)) => Some(Err(DecodeError::ClassFile(e))),
        Some(Ok((class_name, name, dstr))) => match method_descriptor(dstr) {
            None => None,
            Some(Err(e)) => Some(Err(e)),
            Some(Ok(m)) => Some(Ok(SpecMethod { class_name, name, descriptor: m })),
        },
    }
}

/// `invokevirtual`, `invokespecial` and `invokestatic`.
pub open spec fn invoke_op(pool: Seq<SpecEntry>, opcode: u8, idx: u16, q: int) -> DecodeOutcome {
    match method_target(pool, invoke_kind(opcode), idx) {
        None => None,
        Some(Err(e)) => Some(Err(e)),
        Some(Ok(m)) => one(
            match opcode {
                0xb6u8 => if spec_is_wide(m.descriptor.return_type) {
                    SpecOp::InvokeVirtualWide(m, m.descriptor.physical_arg_count as usize)
                } else {
                    SpecOp::InvokeVirtual(m, m.descriptor.physical_arg_count as usize)
                },
                0xb7u8 => SpecOp::InvokeSpecial(m),
                _ => SpecOp::InvokeStatic(m),
            },
            q,
        ),
    }
}

/// `invokeinterface`: after the reference come a count byte and a zero
/// byte, which are read and not checked.
pub open spec fn invoke_interface_op(pool: Seq<SpecEntry>, idx: u16, d: Seq<u8>, q: int) -> DecodeOutcome {
    match method_target(pool, RefKind::InterfaceMethod, idx) {
        None => None,
        Some(Err(e)) => Some(Err(e)),
        Some(Ok(m)) => match spec_u8(d, q) {
            Err(e) => read_fail(e),
            Ok((_, q1)) => match spec_u8(d, q1) {
                Err(e) => read_fail(e),
                Ok((_, q2)) => one(SpecOp::InvokeInterface(m), q2),
            },
        },
    }
}

/// The class ops: `new` first runs the class initializer.
pub open spec fn class_op(pool: Seq<SpecEntry>, opcode: u8, idx: u16, q: int) -> DecodeOutcome {
    match spec_get_class(pool, idx) {
        None => None,
        Some(Err(e)) => Some(Err(DecodeError::ClassFile(e))),
        Some(Ok(name)) => match opcode {
            0xbbu8 => Some(Ok((SpecOp::Clinit(name), Some(SpecOp::New(name)), q))),
            0xbdu8 => one(SpecOp::ANewArray(name), q),
            0xc0u8 => one(SpecOp::CheckCast(name), q),
            _ => one(SpecOp::InstanceOf(name), q),
        },
    }
}

/// The element type `newarray` names.
pub open spec fn array_type_of(code: u8) -> Option<ArrayType> {
    match code {
        4u8 => Some(ArrayType::Boolean),
        5u8 => Some(ArrayType::Char),
        6u8 => Some(ArrayType::Float),
        7u8 => Some(ArrayType::Double),
        8u8 => Some(ArrayType::Byte),
        9u8 => Some(ArrayType::Short),
        10u8 => Some(ArrayType::Int),
        11u8 => Some(ArrayType::Long),
        _ => None,
    }
}

/// The type `n` array levels inside `d`, if it has that many.
pub open spec fn peel(d: SpecDescriptor, n: nat) -> Option<SpecDescriptor>
    decreases n,
{
    if n == 0 {
        Some(d)
    } else {
        match d {
            SpecDescriptor::Array(inner) => peel(*inner, (n - 1) as nat),
            _ => None,
        }
    }
}

/// `multianewarray` of the class at `idx` and `dims` dimensions.
pub open spec fn multi_new_array_op(pool: Seq<SpecEntry>, idx: u16, dims: u8, q: int) -> DecodeOutcome {
    match spec_get_class(pool, idx) {
        None => None,
        Some(Err(e)) => Some(Err(DecodeError::ClassFile(e))),
        Some(Ok(name)) => if dims == 0 {
            Some(Err(DecodeError::NoDimensions))
        } else {
            match field_descriptor(name) {
                Err(e) => Some(Err(e)),
                Ok(d) => match peel(d, dims as nat) {
                    None => Some(Err(DecodeError::NotAnArrayOfDimensions)),
                    Some(c) => one(SpecOp::MultiANewArray(SpecMultiANewArray { class: c, dimensions: dims }), q),
                },
            }
        },
    }
}

/// Reading `n` four-byte jump offsets at `p`, each from the op at `off`.
pub open spec fn read_targets(d: Seq<u8>, p: int, n: nat, off: int) -> Result<(Seq<usize>, int), ReadError>
    decreases n,
{
    if n == 0 {
        Ok((Seq::empty(), p))
    } else {
        match read_targets(d, p, (n - 1) as nat, off) {
            Err(e) => Err(e),
            Ok((ts, p1)) => match spec_u32_be(d, p1) {
                Err(e) => Err(e),
                Ok((v, p2)) => Ok((ts.push(jump_to(off, v as i32 as int)), p2)),
            },
        }
    }
}

/// Reading `n` (value, jump offset) pairs at `p`.
pub open spec fn read_pairs(d: Seq<u8>, p: int, n: nat, off: int) -> Result<(Seq<(i32, usize)>, int), ReadError>
    decreases n,
{
    if n == 0 {
        Ok((Seq::empty(), p))
    } else {
        match read_pairs(d, p, (n - 1) as nat, off) {
            Err(e) => Err(e),
            Ok((ps, p1)) => match spec_u32_be(d, p1) {
                Err(e) => Err(e),
                Ok((v, p2)) => match spec_u32_be(d, p2) {
                    Err(e) => Err(e),
                    Ok((o, p3)) => Ok((ps.push((v as i32, jump_to(off, o as i32 as int))), p3)),
                },
            },
        }
    }
}

/// The padding bytes before a switch's operands, which start at the next
/// multiple of four from the code start.
pub open spec fn switch_padding(off: int) -> int {
    let m = (off + 1) % 4;
    if m == 0 {
        0
    } else {
        4 - m
    }
}

/// `tableswitch` at offset `off`, its operands from `p` on. The table has
/// `high - low + 1` entries; bounds with `high < low` or a difference
/// past `i32` give no table.
pub open spec fn table_switch_op(d: Seq<u8>, p: int, off: int) -> DecodeOutcome {
    let pad = switch_padding(off);
    if p + pad > d.len() {
        read_fail(ReadError::EndOfFile)
    } else {
        let p0 = p + pad;
        match spec_u32_be(d, p0) {
            Err(e) => read_fail(e),
            Ok((dv, p1)) => match spec_u32_be(d, p1) {
                Err(e) => read_fail(e),
                Ok((lv, p2)) => match spec_u32_be(d, p2) {
                    Err(e) => read_fail(e),
                    Ok((hv, p3)) => {
                        let low = lv as i32;
                        let high = hv as i32;
                        if high < low || high - low > i32::MAX {
                            None
                        } else {
                            match read_targets(d, p3, (high - low + 1) as nat, off) {
                                Err(e) => read_fail(e),
                                Ok((ts, p4)) => one(
                                    SpecOp::TableSwitch(SpecTableSwitch { low_int: low, matches: ts, default_offset: jump_to(off, dv as i32 as int) }),
                                    p4,
                                ),
                            }
                        }
                    },
                },
            },
        }
    }
}

/// `lookupswitch` at offset `off`, its operands from `p` on.
pub open spec fn lookup_switch_op(d: Seq<u8>, p: int, off: int) -> DecodeOutcome {
    let pad = switch_padding(off);
    if p + pad > d.len() {
        read_fail(ReadError::EndOfFile)
    } else {
        let p0 = p + pad;
        match spec_u32_be(d, p0) {
            Err(e) => read_fail(e),
            Ok((dv, p1)) => match spec_u32_be(d, p1) {
                Err(e) => read_fail(e),
                Ok((n, p2)) => match read_pairs(d, p2, n as nat, off) {
                    Err(e) => read_fail(e),
                    Ok((ps, p3)) => one(
                        SpecOp::LookupSwitch(SpecLookupSwitch { matches: ps, default_offset: jump_to(off, dv as i32 as int) }),
                        p3,
                    ),
                },
            },
        }
    }
}

/// Decoding the op whose opcode was read, its operands from `q` on; the op
/// is at offset `off` from the code start.
#[verifier::opaque]
pub open spec fn decode_opcode(pool: Seq<SpecEntry>, ret: SpecDescriptor, d: Seq<u8>, q: int, off: int, opcode: u8) -> DecodeOutcome {
    if simple_op(opcode) is Some {
        one(simple_op(opcode)->0, q)
    } else if opcode == 0x10u8 {
        match spec_u8(d, q) {
            Err(e) => read_fail(e),
            Ok((b, r)) => one(SpecOp::IConst(b as i8 as i32), r),
        }
    } else if opcode == 0x11u8 {
        match spec_u16_be(d, q) {
            Err(e) => read_fail(e),
            Ok((v, r)) => one(SpecOp::IConst(v as i16 as i32), r),
        }
    } else if opcode == 0x12u8 {
        match spec_u8(d, q) {
            Err(e) => read_fail(e),
            Ok((i, r)) => ldc_op(pool, i as u16, r),
        }
    } else if opcode == 0x13u8 || opcode == 0x14u8 {
        match spec_u16_be(d, q) {
            Err(e) => read_fail(e),
            Ok((i, r)) => if opcode == 0x13u8 {
                ldc_op(pool, i, r)
            } else {
                ldc2_op(pool, i, r)
            },
        }
    } else if local_op(opcode, 0) is Some {
        match spec_u8(d, q) {
            Err(e) => read_fail(e),
            Ok((i, r)) => one(local_op(opcode, i as usize)->0, r),
        }
    } else if opcode == 0x84u8 {
        match spec_u8(d, q) {
            Err(e) => read_fail(e),
            Ok((i, r)) => match spec_u8(d, r) {
                Err(e) => read_fail(e),
                Ok((c, r2)) => one(SpecOp::IInc(i as usize, c as i8 as i32), r2),
            },
        }
    } else if branch_op(opcode, 0) is Some {
        if wide_jump(opcode) {
            match spec_u32_be(d, q) {
                Err(e) => read_fail(e),
                Ok((v, r)) => one(branch_op(opcode, jump_to(off, v as i32 as int))->0, r),
            }
        } else {
            match spec_u16_be(d, q) {
                Err(e) => read_fail(e),
                Ok((v, r)) => one(branch_op(opcode, jump_to(off, v as i16 as int))->0, r),
            }
        }
    } else if opcode == 0xaau8 {
        table_switch_op(d, q, off)
    } else if opcode == 0xabu8 {
        lookup_switch_op(d, q, off)
    } else if 0xacu8 <= opcode <= 0xb1u8 {
        match return_op(opcode, ret) {
            Err(e) => Some(Err(e)),
            Ok(op) => one(op, q),
        }
    } else if 0xb2u8 <= opcode <= 0xb5u8 {
        match spec_u16_be(d, q) {
            Err(e) => read_fail(e),
            Ok((i, r)) => field_op(pool, opcode, i, r),
        }
    } else if 0xb6u8 <= opcode <= 0xb8u8 {
        match spec_u16_be(d, q) {
            Err(e) => read_fail(e),
            Ok((i, r)) => invoke_op(pool, opcode, i, r),
        }
    } else if opcode == 0xb9u8 {
        match spec_u16_be(d, q) {
            Err(e) => read_fail(e),
            Ok((i, r)) => invoke_interface_op(pool, i, d, r),
        }
    } else if opcode == 0xbbu8 || opcode == 0xbdu8 || opcode == 0xc0u8 || opcode == 0xc1u8 {
        match spec_u16_be(d, q) {
            Err(e) => read_fail(e),
            Ok((i, r)) => class_op(pool, opcode, i, r),
        }
    } else if opcode == 0xbcu8 {
        match spec_u8(d, q) {
            Err(e) => read_fail(e),
            Ok((t, r)) => match array_type_of(t) {
                None => Some(Err(DecodeError::InvalidArrayType)),
                Some(a) => one(SpecOp::NewArray(a), r),
            },
        }
    } else if opcode == 0xc5u8 {
        match spec_u16_be(d, q) {
            Err(e) => read_fail(e),
            Ok((i, r)) => match spec_u8(d, r) {
                Err(e) => read_fail(e),
                Ok((dims, r2)) => multi_new_array_op(pool, i, dims, r2),
            },
        }
    } else {
        None
    }
}

/// Decoding the op at position `p`, which is at offset `off` from the code
/// start.
pub open spec fn spec_read_op(pool: Seq<SpecEntry>, ret: SpecDescriptor, d: Seq<u8>, p: int, off: int) -> DecodeOutcome {
    match spec_u8(d, p) {
        Err(e) => read_fail(e),
        Ok((opcode, q)) => decode_opcode(pool, ret, d, q, off, opcode),
    }
}

// ---------------------------------------------------------------------------
// Decoding, executably
// ---------------------------------------------------------------------------

/// Positions and offsets stay far from the integer limits.
pub open spec fn small_enough(n: int) -> bool {
    0 <= n < 0x4000_0000_0000_0000 && n + 8 <= usize::MAX
}

/// The decode error a read error stands for.
fn read_error(e: ReadError) -> (res: DecodeError)
    ensures
        res == DecodeError::ClassFile(error_of_read(e)),
{
    DecodeError::ClassFile(match e {
        ReadError::EndOfFile => Error::EndOfFile,
        ReadError::InvalidMagic => Error::InvalidMagic,
        ReadError::InvalidString => Error::InvalidString,
    })
}

/// Reads one byte.
fn next_u8(data: &mut FileData<'_>) -> (res: Result<u8, DecodeError>)
    requires
        old(data).pos() <= old(data).bytes().len(),
        small_enough(old(data).bytes().len() as int),
    ensures
        final(data).bytes() == old(data).bytes(),
        match spec_u8(old(data).bytes(), old(data).pos()) {
            Ok((v, q)) => res == Ok::<u8, DecodeError>(v) && final(data).pos() == q,
            Err(e) => res == Err::<u8, DecodeError>(DecodeError::ClassFile(error_of_read(e))),
        },
{
    match data.read_u8() {
        Ok(v) => Ok(v),
        Err(e) => Err(read_error(e)),
    }
}

/// Reads a big-endian `u16`.
pub(crate) fn next_u16(data: &mut FileData<'_>) -> (res: Result<u16, DecodeError>)
    requires
        old(data).pos() <= old(data).bytes().len(),
        small_enough(old(data).bytes().len() as int),
    ensures
        final(data).bytes() == old(data).bytes(),
        match spec_u16_be(old(data).bytes(), old(data).pos()) {
            Ok((v, q)) => res == Ok::<u16, DecodeError>(v) && final(data).pos() == q,
            Err(e) => res == Err::<u16, DecodeError>(DecodeError::ClassFile(error_of_read(e))),
        },
{
    match data.read_u16_be() {
        Ok(v) => Ok(v),
        Err(e) => Err(read_error(e)),
    }
}

/// Reads a big-endian `u32`.
fn next_u32(data: &mut FileData<'_>) -> (res: Result<u32, DecodeError>)
    requires
        old(data).pos() <= old(data).bytes().len(),
        small_enough(old(data).bytes().len() as int),
    ensures
        final(data).bytes() == old(data).bytes(),
        match spec_u32_be(old(data).bytes(), old(data).pos()) {
            Ok((v, q)) => res == Ok::<u32, DecodeError>(v) && final(data).pos() == q,
            Err(e) => res == Err::<u32, DecodeError>(DecodeError::ClassFile(error_of_read(e))),
        },
{
    match data.read_u32_be() {
        Ok(v) => Ok(v),
        Err(e) => Err(read_error(e)),
    }
}

/// The bits of `v` as a signed number.
fn signed(v: u32) -> (res: i32)
    ensures
        res == v as i32,
{
    #[verifier::truncate]
    (v as i32)
}

/// The byte offset a jump by `offset` from offset `off` goes to.
fn jump_target_exec(off: usize, offset: i64) -> (res: usize)
    requires
        small_enough(off as int),
        -0x8000_0000 <= offset < 0x8000_0000,
    ensures
        res == jump_to(off as int, offset as int),
{
    let t: i64 = (off as i64) + offset;
    #[verifier::truncate]
    (t as usize)
}

/// The ops of one opcode byte and no operands.
fn simple_op_exec(opcode: u8) -> (res: Option<Op>)
    ensures
        match simple_op(opcode) {
            Some(s) => res matches Some(op) && op@ == s,
            None => res is None,
        },
{
    match opcode {
        0x00u8 => Some(Op::Nop),
        0x01u8 => Some(Op::AConstNull),
        0x02u8 => Some(Op::IConst(-1i32)),
        0x03u8 => Some(Op::IConst(0i32)),
        0x04u8 => Some(Op::IConst(1i32)),
        0x05u8 => Some(Op::IConst(2i32)),
        0x06u8 => Some(Op::IConst(3i32)),
        0x07u8 => Some(Op::IConst(4i32)),
        0x08u8 => Some(Op::IConst(5i32)),
        0x09u8 => Some(Op::LConst(0i8)),
        0x0au8 => Some(Op::LConst(1i8)),
        0x0bu8 => Some(Op::FConst(0u32)),
        0x0cu8 => Some(Op::FConst(0x3f80_0000u32)),
        0x0du8 => Some(Op::FConst(0x4000_0000u32)),
        0x0eu8 => Some(Op::DConst(0u64)),
        0x0fu8 => Some(Op::DConst(0x3ff0_0000_0000_0000u64)),
        0x1au8 => Some(Op::ILoad(0usize)),
        0x1bu8 => Some(Op::ILoad(1usize)),
        0x1cu8 => Some(Op::ILoad(2usize)),
        0x1du8 => Some(Op::ILoad(3usize)),
        0x1eu8 => Some(Op::LLoad(0usize)),
        0x1fu8 => Some(Op::LLoad(1usize)),
        0x20u8 => Some(Op::LLoad(2usize)),
        0x21u8 => Some(Op::LLoad(3usize)),
        0x22u8 => Some(Op::FLoad(0usize)),
        0x23u8 => Some(Op::FLoad(1usize)),
        0x24u8 => Some(Op::FLoad(2usize)),
        0x25u8 => Some(Op::FLoad(3usize)),
        0x26u8 => Some(Op::DLoad(0usize)),
        0x27u8 => Some(Op::DLoad(1usize)),
        0x28u8 => Some(Op::DLoad(2usize)),
        0x29u8 => Some(Op::DLoad(3usize)),
        0x2au8 => Some(Op::ALoad(0usize)),
        0x2bu8 => Some(Op::ALoad(1usize)),
        0x2cu8 => Some(Op::ALoad(2usize)),
        0x2du8 => Some(Op::ALoad(3usize)),
        0x2eu8 => Some(Op::IaLoad),
        0x2fu8 => Some(Op::LaLoad),
        0x30u8 => Some(Op::FaLoad),
        0x31u8 => Some(Op::DaLoad),
        0x32u8 => Some(Op::AaLoad),
        0x33u8 => Some(Op::BaLoad),
        0x34u8 => Some(Op::CaLoad),
        0x35u8 => Some(Op::SaLoad),
        0x3bu8 => Some(Op::IStore(0usize)),
        0x3cu8 => Some(Op::IStore(1usize)),
        0x3du8 => Some(Op::IStore(2usize)),
        0x3eu8 => Some(Op::IStore(3usize)),
        0x3fu8 => Some(Op::LStore(0usize)),
        0x40u8 => Some(Op::LStore(1usize)),
        0x41u8 => Some(Op::LStore(2usize)),
        0x42u8 => Some(Op::LStore(3usize)),
        0x43u8 => Some(Op::FStore(0usize)),
        0x44u8 => Some(Op::FStore(1usize)),
        0x45u8 => Some(Op::FStore(2usize)),
        0x46u8 => Some(Op::FStore(3usize)),
        0x47u8 => Some(Op::DStore(0usize)),
        0x48u8 => Some(Op::DStore(1usize)),
        0x49u8 => Some(Op::DStore(2usize)),
        0x4au8 => Some(Op::DStore(3usize)),
        0x4bu8 => Some(Op::AStore(0usize)),
        0x4cu8 => Some(Op::AStore(1usize)),
        0x4du8 => Some(Op::AStore(2usize)),
        0x4eu8 => Some(Op::AStore(3usize)),
        0x4fu8 => Some(Op::IaStore),
        0x50u8 => Some(Op::LaStore),
        0x51u8 => Some(Op::FaStore),
        0x52u8 => Some(Op::DaStore),
        0x53u8 => Some(Op::AaStore),
        0x54u8 => Some(Op::BaStore),
        0x55u8 => Some(Op::CaStore),
        0x56u8 => Some(Op::SaStore),
        0x57u8 => Some(Op::Pop),
        0x58u8 => Some(Op::Pop2),
        0x59u8 => Some(Op::Dup),
        0x5au8 => Some(Op::DupX1),
        0x5bu8 => Some(Op::DupX2),
        0x5cu8 => Some(Op::Dup2),
        0x5eu8 => Some(Op::Dup2X2),
        0x5fu8 => Some(Op::Swap),
        0x60u8 => Some(Op::IAdd),
        0x61u8 => Some(Op::LAdd),
        0x62u8 => Some(Op::FAdd),
        0x63u8 => Some(Op::DAdd),
        0x64u8 => Some(Op::ISub),
        0x65u8 => Some(Op::LSub),
        0x66u8 => Some(Op::FSub),
        0x67u8 => Some(Op::DSub),
        0x68u8 => Some(Op::IMul),
        0x69u8 => Some(Op::LMul),
        0x6au8 => Some(Op::FMul),
        0x6bu8 => Some(Op::DMul),
        0x6cu8 => Some(Op::IDiv),
        0x6du8 => Some(Op::LDiv),
        0x6eu8 => Some(Op::FDiv),
        0x6fu8 => Some(Op::DDiv),
        0x70u8 => Some(Op::IRem),
        0x71u8 => Some(Op::LRem),
        0x72u8 => Some(Op::FRem),
        0x73u8 => Some(Op::DRem),
        0x74u8 => Some(Op::INeg),
        0x75u8 => Some(Op::LNeg),
        0x76u8 => Some(Op::FNeg),
        0x77u8 => Some(Op::DNeg),
        0x78u8 => Some(Op::IShl),
        0x79u8 => Some(Op::LShl),
        0x7au8 => Some(Op::IShr),
        0x7bu8 => Some(Op::LShr),
        0x7cu8 => Some(Op::IUshr),
        0x7du8 => Some(Op::LUshr),
        0x7eu8 => Some(Op::IAnd),
        0x7fu8 => Some(Op::LAnd),
        0x80u8 => Some(Op::IOr),
        0x81u8 => Some(Op::LOr),
        0x82u8 => Some(Op::IXor),
        0x83u8 => Some(Op::LXor),
        0x85u8 => Some(Op::I2L),
        0x86u8 => Some(Op::I2F),
        0x87u8 => Some(Op::I2D),
        0x88u8 => Some(Op::L2I),
        0x89u8 => Some(Op::L2F),
        0x8au8 => Some(Op::L2D),
        0x8bu8 => Some(Op::F2I),
        0x8cu8 => Some(Op::F2L),
        0x8du8 => Some(Op::F2D),
        0x8eu8 => Some(Op::D2I),
        0x8fu8 => Some(Op::D2L),
        0x90u8 => Some(Op::D2F),
        0x91u8 => Some(Op::I2B),
        0x92u8 => Some(Op::I2C),
        0x93u8 => Some(Op::I2S),
        0x94u8 => Some(Op::LCmp),
        0x95u8 => Some(Op::FCmpL),
        0x96u8 => Some(Op::FCmpG),
        0x97u8 => Some(Op::DCmpL),
        0x98u8 => Some(Op::DCmpG),
        0xbeu8 => Some(Op::ArrayLength),
        0xbfu8 => Some(Op::AThrow),
        0xc2u8 => Some(Op::MonitorEnter),
        0xc3u8 => Some(Op::MonitorExit),
        _ => None,
    }
}

/// The local-variable ops that take a one-byte index.
fn local_op_exec(opcode: u8, i: usize) -> (res: Option<Op>)
    ensures
        match local_op(opcode, i) {
            Some(s) => res matches Some(op) && op@ == s,
            None => res is None,
        },
{
    match opcode {
        0x15u8 => Some(Op::ILoad(i)),
        0x16u8 => Some(Op::LLoad(i)),
        0x17u8 => Some(Op::FLoad(i)),
        0x18u8 => Some(Op::DLoad(i)),
        0x19u8 => Some(Op::ALoad(i)),
        0x36u8 => Some(Op::IStore(i)),
        0x37u8 => Some(Op::LStore(i)),
        0x38u8 => Some(Op::FStore(i)),
        0x39u8 => Some(Op::DStore(i)),
        0x3au8 => Some(Op::AStore(i)),
        0xa9u8 => Some(Op::Ret(i)),
        _ => None,
    }
}

/// The jump ops.
fn branch_op_exec(opcode: u8, target: usize) -> (res: Option<Op>)
    ensures
        match branch_op(opcode, target) {
            Some(s) => res matches Some(op) && op@ == s,
            None => res is None,
        },
{
    match opcode {
        0x99u8 => Some(Op::IfEq(target)),
        0x9au8 => Some(Op::IfNe(target)),
        0x9bu8 => Some(Op::IfLt(target)),
        0x9cu8 => Some(Op::IfGe(target)),
        0x9du8 => Some(Op::IfGt(target)),
        0x9eu8 => Some(Op::IfLe(target)),
        0x9fu8 => Some(Op::IfICmpEq(target)),
        0xa0u8 => Some(Op::IfICmpNe(target)),
        0xa1u8 => Some(Op::IfICmpLt(target)),
        0xa2u8 => Some(Op::IfICmpGe(target)),
        0xa3u8 => Some(Op::IfICmpGt(target)),
        0xa4u8 => Some(Op::IfICmpLe(target)),
        0xa5u8 => Some(Op::IfACmpEq(target)),
        0xa6u8 => Some(Op::IfACmpNe(target)),
        0xa7u8 | 0xc8u8 => Some(Op::Goto(target)),
        0xa8u8 | 0xc9u8 => Some(Op::Jsr(target)),
        0xc6u8 => Some(Op::IfNull(target)),
        0xc7u8 => Some(Op::IfNonNull(target)),
        _ => None,
    }
}

/// A return op, checked against the method's return type.
fn return_op_exec(opcode: u8, ret: &Descriptor) -> (res: Result<Op, DecodeError>)
    requires
        0xacu8 <= opcode <= 0xb1u8,
    ensures
        match return_op(opcode, ret@) {
            Ok(s) => res matches Ok(op) && op@ == s,
            Err(e) => res == Err::<Op, DecodeError>(e),
        },
{
    let fits = match opcode {
        0xacu8 => match ret {
            Descriptor::Boolean | Descriptor::Byte | Descriptor::Character | Descriptor::Integer
            | Descriptor::Short => true,
            _ => false,
        },
        0xadu8 => match ret {
            Descriptor::Long => true,
            _ => false,
        },
        0xaeu8 => match ret {
            Descriptor::Float => true,
            _ => false,
        },
        0xafu8 => match ret {
            Descriptor::Double => true,
            _ => false,
        },
        0xb0u8 => match ret {
            Descriptor::Class(_) | Descriptor::Array(_) => true,
            _ => false,
        },
        _ => match ret {
            Descriptor::Void => true,
            _ => false,
        },
    };
    if !fits {
        return Err(DecodeError::BadReturnType(opcode));
    }
    Ok(match opcode {
        0xacu8 => Op::IReturn,
        0xadu8 => Op::LReturn,
        0xaeu8 => Op::FReturn,
        0xafu8 => Op::DReturn,
        0xb0u8 => Op::AReturn,
        _ => Op::Return,
    })
}

/// The view of an optional second op.
pub open spec fn second_view(o: Option<Op>) -> Option<SpecOp> {
    match o {
        Some(op) => Some(op@),
        None => None,
    }
}

/// What a decoding function returned agrees with the outcome `spec`, the
/// position after the op being `pos`.
pub open spec fn decoded_as(res: Result<(Op, Option<Op>), DecodeError>, pos: int, spec: DecodeOutcome) -> bool {
    match spec {
        Some(Ok((a, b, q))) => res matches Ok((x, y)) && x@ == a && second_view(y) == b && pos == q,
        Some(Err(e)) => res == Err::<(Op, Option<Op>), DecodeError>(e),
        None => false,
    }
}

/// `ldc`, `ldc_w` and `ldc2_w` of entry `idx`.
fn ldc_exec(pool: &ConstantPool, idx: u16, wide: bool, Ghost(q): Ghost<int>) -> (res: Result<(Op, Option<Op>), DecodeError>)
    requires
        (if wide { ldc2_op(pool@, idx, q) } else { ldc_op(pool@, idx, q) }) is Some,
    ensures
        decoded_as(res, q, if wide { ldc2_op(pool@, idx, q) } else { ldc_op(pool@, idx, q) }),
{
    let e = match pool.entry(idx) {
        Ok(e) => e,
        Err(e) => return Err(DecodeError::ClassFile(e)),
    };
    if !wide {
        return Ok((Op::Ldc(e), None));
    }
    match e {
        ConstantPoolEntry::Long { value } => Ok((Op::LoadLong(value), None)),
        ConstantPoolEntry::Double { bits } => Ok((Op::LoadDouble(bits), None)),
        _ => Ok((Op::Nop, None)),
    }
}

/// The field ops on the field reference at `idx`.
fn field_exec(pool: &ConstantPool, opcode: u8, idx: u16, Ghost(q): Ghost<int>) -> (res: Result<(Op, Option<Op>), DecodeError>)
    requires
        0xb2u8 <= opcode <= 0xb5u8,
        field_op(pool@, opcode, idx, q) is Some,
    ensures
        decoded_as(res, q, field_op(pool@, opcode, idx, q)),
{
    let (class_name, name, dstr) = match pool.get_field_ref(idx) {
        Ok(r) => r,
        Err(e) => return Err(DecodeError::ClassFile(e)),
    };
    let descriptor = match Descriptor::try_from_string(&dstr) {
        Some(d) => d,
        None => return Err(DecodeError::IllegalFieldSignature),
    };
    let wide = descriptor.is_wide();
    let clinit_name = class_name.duplicate();
    let f = FieldTarget { class_name, name, descriptor };
    if opcode == 0xb2u8 {
        Ok((Op::Clinit(clinit_name), Some(if wide { Op::GetStaticWide(f) } else { Op::GetStatic(f) })))
    } else if opcode == 0xb3u8 {
        Ok((Op::Clinit(clinit_name), Some(if wide { Op::PutStaticWide(f) } else { Op::PutStatic(f) })))
    } else if opcode == 0xb4u8 {
        Ok((if wide { Op::GetFieldWide(f) } else { Op::GetField(f) }, None))
    } else {
        Ok((if wide { Op::PutFieldWide(f) } else { Op::PutField(f) }, None))
    }
}

/// The method the reference at `idx` names, with its descriptor parsed.
fn method_target_exec(pool: &ConstantPool, kind: RefKind, idx: u16) -> (res: Result<MethodTarget, DecodeError>)
    requires
        method_target(pool@, kind, idx) is Some,
    ensures
        match method_target(pool@, kind, idx) {
            Some(Ok(m)) => res matches Ok(t) && t@ == m,
            Some(Err(e)) => res == Err::<MethodTarget, DecodeError>(e),
            None => false,
        },
{
    let r = match kind {
        RefKind::Method => pool.get_method_ref(idx),
        RefKind::InterfaceMethod => pool.get_interface_method_ref(idx),
        RefKind::AnyMethod => pool.get_any_method_ref(idx),
        RefKind::Field => pool.get_field_ref(idx),
    };
    let (class_name, name, dstr) = match r {
        Ok(r) => r,
        Err(e) => return Err(DecodeError::ClassFile(e)),
    };
    let descriptor = match MethodDescriptor::new_from_string(&dstr) {
        Some(m) => m,
        None => return Err(DecodeError::IllegalMethodSignature),
    };
    Ok(MethodTarget { class_name, name, descriptor })
}

/// `invokevirtual`, `invokespecial` and `invokestatic` of the reference at
/// `idx`.
fn invoke_exec(pool: &ConstantPool, opcode: u8, idx: u16, Ghost(q): Ghost<int>) -> (res: Result<(Op, Option<Op>), DecodeError>)
    requires
        0xb6u8 <= opcode <= 0xb8u8,
        invoke_op(pool@, opcode, idx, q) is Some,
    ensures
        decoded_as(res, q, invoke_op(pool@, opcode, idx, q)),
{
    let kind = if opcode == 0xb6u8 { RefKind::Method } else { RefKind::AnyMethod };
    let m = method_target_exec(pool, kind, idx)?;
    if opcode == 0xb6u8 {
        let count = m.descriptor.physical_arg_count();
        let wide = m.descriptor.return_type().is_wide();
        Ok((if wide { Op::InvokeVirtualWide(m, count) } else { Op::InvokeVirtual(m, count) }, None))
    } else if opcode == 0xb7u8 {
        Ok((Op::InvokeSpecial(m), None))
    } else {
        Ok((Op::InvokeStatic(m), None))
    }
}

/// The class ops on the class at `idx`.
fn class_exec(pool: &ConstantPool, opcode: u8, idx: u16, Ghost(q): Ghost<int>) -> (res: Result<(Op, Option<Op>), DecodeError>)
    requires
        class_op(pool@, opcode, idx, q) is Some,
    ensures
        decoded_as(res, q, class_op(pool@, opcode, idx, q)),
{
    let name = match pool.get_class(idx) {
        Ok(n) => n,
        Err(e) => return Err(DecodeError::ClassFile(e)),
    };
    if opcode == 0xbbu8 {
        let clinit_name = name.duplicate();
        Ok((Op::Clinit(clinit_name), Some(Op::New(name))))
    } else if opcode == 0xbdu8 {
        Ok((Op::ANewArray(name), None))
    } else if opcode == 0xc0u8 {
        Ok((Op::CheckCast(name), None))
    } else {
        Ok((Op::InstanceOf(name), None))
    }
}

/// The element type `newarray` names.
fn array_type_exec(code: u8) -> (res: Option<ArrayType>)
    ensures
        res == array_type_of(code),
{
    match code {
        4u8 => Some(ArrayType::Boolean),
        5u8 => Some(ArrayType::Char),
        6u8 => Some(ArrayType::Float),
        7u8 => Some(ArrayType::Double),
        8u8 => Some(ArrayType::Byte),
        9u8 => Some(ArrayType::Short),
        10u8 => Some(ArrayType::Int),
        11u8 => Some(ArrayType::Long),
        _ => None,
    }
}

/// The type `n` array levels inside `d`.
fn peel_exec(d: Descriptor, n: u8) -> (res: Option<Descriptor>)
    ensures
        match peel(d@, n as nat) {
            Some(s) => res matches Some(r) && r@ == s,
            None => res is None,
        },
{
    let mut cur = d;
    let mut k: u8 = 0;
    while k < n
        invariant
            k <= n,
            peel(d@, n as nat) == peel(cur@, (n - k) as nat),
        decreases n - k,
    {
        match cur {
            Descriptor::Array(inner) => {
                cur = *inner;
            },
            _ => return None,
        }
        k = k + 1;
    }
    Some(cur)
}

/// `multianewarray` of the class at `idx` and `dims` dimensions.
fn multi_new_array_exec(pool: &ConstantPool, idx: u16, dims: u8, Ghost(q): Ghost<int>) -> (res: Result<(Op, Option<Op>), DecodeError>)
    requires
        multi_new_array_op(pool@, idx, dims, q) is Some,
    ensures
        decoded_as(res, q, multi_new_array_op(pool@, idx, dims, q)),
{
    let name = match pool.get_class(idx) {
        Ok(n) => n,
        Err(e) => return Err(DecodeError::ClassFile(e)),
    };
    if dims == 0 {
        return Err(DecodeError::NoDimensions);
    }
    let d = match Descriptor::try_from_string(&name) {
        Some(d) => d,
        None => return Err(DecodeError::IllegalFieldSignature),
    };
    match peel_exec(d, dims) {
        None => Err(DecodeError::NotAnArrayOfDimensions),
        Some(c) => Ok((Op::MultiANewArray(Box::new(MultiANewArrayInfo { class: c, dimensions: dims })), None)),
    }
}

/// A failed read of jump offsets stays failed when more are read.
proof fn lemma_read_targets_fails(d: Seq<u8>, p: int, k: nat, m: nat, off: int)
    requires
        k <= m,
        read_targets(d, p, k, off) is Err,
    ensures
        read_targets(d, p, m, off) == read_targets(d, p, k, off),
    decreases m - k,
{
    if k < m {
        lemma_read_targets_fails(d, p, k, (m - 1) as nat, off);
    }
}

/// A failed read of pairs stays failed when more are read.
proof fn lemma_read_pairs_fails(d: Seq<u8>, p: int, k: nat, m: nat, off: int)
    requires
        k <= m,
        read_pairs(d, p, k, off) is Err,
    ensures
        read_pairs(d, p, m, off) == read_pairs(d, p, k, off),
    decreases m - k,
{
    if k < m {
        lemma_read_pairs_fails(d, p, k, (m - 1) as nat, off);
    }
}

/// Skips the padding before a switch's operands.
fn skip_padding(data: &mut FileData<'_>, off: usize) -> (res: Result<(), DecodeError>)
    requires
        old(data).pos() <= old(data).bytes().len(),
        small_enough(old(data).bytes().len() as int),
        small_enough(off as int),
    ensures
        final(data).bytes() == old(data).bytes(),
        ({
            let p = old(data).pos() as int;
            let pad = switch_padding(off as int);
            if p + pad > old(data).bytes().len() {
                res == Err::<(), DecodeError>(DecodeError::ClassFile(error_of_read(ReadError::EndOfFile)))
            } else {
                res is Ok && final(data).pos() == p + pad
            }
        }),
{
    let start = data.position();
    let ghost p = start as int;
    let padding_bytes = (off + 1) % 4;
    if padding_bytes != 0 {
        let mut k: usize = 0;
        while k < 4 - padding_bytes
            invariant
                data.bytes() == old(data).bytes(),
                small_enough(data.bytes().len() as int),
                padding_bytes == (off + 1) % 4,
                padding_bytes != 0,
                switch_padding(off as int) == 4 - padding_bytes,
                k <= 4 - padding_bytes,
                data.pos() == p + k,
                p + k <= data.bytes().len(),
                p == old(data).pos(),
                0 <= p,
            decreases 4 - padding_bytes - k,
        {
            match next_u8(data) {
                Ok(_) => {},
                Err(e) => return Err(e),
            }
            k = k + 1;
        }
    }
    Ok(())
}

/// `tableswitch` at offset `off`, its operands at the cursor.
fn table_switch_exec(data: &mut FileData<'_>, off: usize) -> (res: Result<(Op, Option<Op>), DecodeError>)
    requires
        old(data).pos() <= old(data).bytes().len(),
        small_enough(old(data).bytes().len() as int),
        small_enough(off as int),
        table_switch_op(old(data).bytes(), old(data).pos() as int, off as int) is Some,
    ensures
        final(data).bytes() == old(data).bytes(),
        decoded_as(res, final(data).pos() as int, table_switch_op(old(data).bytes(), old(data).pos() as int, off as int)),
        res is Ok ==> old(data).pos() <= final(data).pos() <= final(data).bytes().len(),
{
    let ghost d = data.bytes();
    let ghost p_start = data.pos() as int;
    skip_padding(data, off)?;
    let default_offset = signed(next_u32(data)?);
    let default_target = jump_target_exec(off, default_offset as i64);
    let low_int = signed(next_u32(data)?);
    let high_int = signed(next_u32(data)?);
    let num = ((high_int as i64) - (low_int as i64) + 1) as usize;
    let ghost p3 = data.pos() as int;
    assert(table_switch_op(d, p_start, off as int) == match read_targets(d, p3, num as nat, off as int) {
        Err(e) => read_fail(e),
        Ok((ts, p4)) => one(SpecOp::TableSwitch(SpecTableSwitch { low_int, matches: ts, default_offset: default_target }), p4),
    });
    let mut offsets: Vec<usize> = Vec::new();
    let mut k: usize = 0;
    assert(read_targets(d, p3, 0, off as int) == Ok::<(Seq<usize>, int), ReadError>((offsets@, data.pos() as int)));
    while k < num
        invariant
            d == old(data).bytes(),
            p_start == old(data).pos(),
            table_switch_op(d, p_start, off as int) == match read_targets(d, p3, num as nat, off as int) {
                Err(e) => read_fail(e),
                Ok((ts, p4)) => one(SpecOp::TableSwitch(SpecTableSwitch { low_int, matches: ts, default_offset: default_target }), p4),
            },
            data.bytes() == d,
            small_enough(d.len() as int),
            small_enough(off as int),
            p_start <= p3 <= data.pos() <= d.len(),
            k <= num,
            read_targets(d, p3, k as nat, off as int) == Ok::<(Seq<usize>, int), ReadError>((offsets@, data.pos() as int)),
        decreases num - k,
    {
        let v = match next_u32(data) {
            Ok(v) => v,
            Err(e) => {
                proof {
                    lemma_read_targets_fails(d, p3, (k + 1) as nat, num as nat, off as int);
                }
                return Err(e);
            },
        };
        let o = signed(v);
        offsets.push(jump_target_exec(off, o as i64));
        k = k + 1;
    }
    Ok((Op::TableSwitch(Box::new(TableSwitchInfo { low_int, matches: offsets, default_offset: default_target })), None))
}

/// `lookupswitch` at offset `off`, its operands at the cursor.
fn lookup_switch_exec(data: &mut FileData<'_>, off: usize) -> (res: Result<(Op, Option<Op>), DecodeError>)
    requires
        old(data).pos() <= old(data).bytes().len(),
        small_enough(old(data).bytes().len() as int),
        small_enough(off as int),
        lookup_switch_op(old(data).bytes(), old(data).pos() as int, off as int) is Some,
    ensures
        final(data).bytes() == old(data).bytes(),
        decoded_as(res, final(data).pos() as int, lookup_switch_op(old(data).bytes(), old(data).pos() as int, off as int)),
        res is Ok ==> old(data).pos() <= final(data).pos() <= final(data).bytes().len(),
{
    let ghost d = data.bytes();
    let ghost p_start = data.pos() as int;
    skip_padding(data, off)?;
    let default_offset = signed(next_u32(data)?);
    let default_target = jump_target_exec(off, default_offset as i64);
    let num_pairs = next_u32(data)?;
    let ghost p2 = data.pos() as int;
    assert(lookup_switch_op(d, p_start, off as int) == match read_pairs(d, p2, num_pairs as nat, off as int) {
        Err(e) => read_fail(e),
        Ok((ps, p3)) => one(SpecOp::LookupSwitch(SpecLookupSwitch { matches: ps, default_offset: default_target }), p3),
    });
    let mut pairs: Vec<(i32, usize)> = Vec::new();
    let mut k: u32 = 0;
    assert(read_pairs(d, p2, 0, off as int) == Ok::<(Seq<(i32, usize)>, int), ReadError>((pairs@, data.pos() as int)));
    while k < num_pairs
        invariant
            d == old(data).bytes(),
            p_start == old(data).pos(),
            lookup_switch_op(d, p_start, off as int) == match read_pairs(d, p2, num_pairs as nat, off as int) {
                Err(e) => read_fail(e),
                Ok((ps, p3)) => one(SpecOp::LookupSwitch(SpecLookupSwitch { matches: ps, default_offset: default_target }), p3),
            },
            data.bytes() == d,
            small_enough(d.len() as int),
            small_enough(off as int),
            p_start <= p2 <= data.pos() <= d.len(),
            k <= num_pairs,
            read_pairs(d, p2, k as nat, off as int) == Ok::<(Seq<(i32, usize)>, int), ReadError>((pairs@, data.pos() as int)),
        decreases num_pairs - k,
    {
        let v = match next_u32(data) {
            Ok(v) => v,
            Err(e) => {
                proof {
                    lemma_read_pairs_fails(d, p2, (k + 1) as nat, num_pairs as nat, off as int);
                }
                return Err(e);
            },
        };
        let o = match next_u32(data) {
            Ok(o) => o,
            Err(e) => {
                proof {
                    lemma_read_pairs_fails(d, p2, (k + 1) as nat, num_pairs as nat, off as int);
                }
                return Err(e);
            },
        };
        let target = jump_target_exec(off, signed(o) as i64);
        pairs.push((signed(v), target));
        k = k + 1;
    }
    Ok((Op::LookupSwitch(Box::new(LookupSwitchInfo { matches: pairs, default_offset: default_target })), None))
}

/// A byte as a signed number, widened.
fn byte_signed(b: u8) -> (res: i32)
    ensures
        res == b as i8 as i32,
{
    let x: i8 = #[verifier::truncate]
    (b as i8);
    x as i32
}

/// Two bytes as a signed number, widened.
fn short_signed(v: u16) -> (res: i32)
    ensures
        res == v as i16 as i32,
{
    let x: i16 = #[verifier::truncate]
    (v as i16);
    x as i32
}

/// `invokeinterface` of the reference at `idx`, then its two trailing
/// bytes.
fn invoke_interface_exec(pool: &ConstantPool, idx: u16, data: &mut FileData<'_>) -> (res: Result<(Op, Option<Op>), DecodeError>)
    requires
        old(data).pos() <= old(data).bytes().len(),
        small_enough(old(data).bytes().len() as int),
        invoke_interface_op(pool@, idx, old(data).bytes(), old(data).pos() as int) is Some,
    ensures
        final(data).bytes() == old(data).bytes(),
        decoded_as(res, final(data).pos() as int, invoke_interface_op(pool@, idx, old(data).bytes(), old(data).pos() as int)),
        res is Ok ==> old(data).pos() <= final(data).pos() <= final(data).bytes().len(),
{
    let m = method_target_exec(pool, RefKind::InterfaceMethod, idx)?;
    next_u8(data)?;
    next_u8(data)?;
    Ok((Op::InvokeInterface(Box::new(InvokeInterfaceInfo { class: m.class_name, name: m.name, descriptor: m.descriptor })), None))
}

impl Op {
    /// Decodes the op at the cursor, which is at offset `data_position` from
    /// the code start. Some ops are decoded as two: `getstatic`,
    /// `putstatic` and `new` first run the class initializer.
    pub fn read_op(constant_pool: &ConstantPool, return_type: &Descriptor, data: &mut FileData<'_>, data_position: usize) -> (res: Result<(Op, Option<Op>), DecodeError>)
        requires
            old(data).pos() <= old(data).bytes().len(),
            small_enough(old(data).bytes().len() as int),
            data_position <= old(data).pos(),
            spec_read_op(constant_pool@, return_type@, old(data).bytes(), old(data).pos() as int, data_position as int) is Some,
        ensures
            final(data).bytes() == old(data).bytes(),
            decoded_as(res, final(data).pos() as int, spec_read_op(constant_pool@, return_type@, old(data).bytes(), old(data).pos() as int, data_position as int)),
            res is Ok ==> old(data).pos() < final(data).pos() <= final(data).bytes().len(),
    {
        reveal(decode_opcode);
        let pool = constant_pool;
        let off = data_position;
        let opcode = next_u8(data)?;
        if let Some(op) = simple_op_exec(opcode) {
            return Ok((op, None));
        }
        if opcode == 0x10u8 {
            let b = next_u8(data)?;
            return Ok((Op::IConst(byte_signed(b)), None));
        }
        if opcode == 0x11u8 {
            let v = next_u16(data)?;
            return Ok((Op::IConst(short_signed(v)), None));
        }
        if opcode == 0x12u8 {
            let i = next_u8(data)?;
            return ldc_exec(pool, i as u16, false, Ghost(data.pos() as int));
        }
        if opcode == 0x13u8 || opcode == 0x14u8 {
            let i = next_u16(data)?;
            return ldc_exec(pool, i, opcode == 0x14u8, Ghost(data.pos() as int));
        }
        if local_op_exec(opcode, 0).is_some() {
            let i = next_u8(data)?;
            return match local_op_exec(opcode, i as usize) {
                Some(op) => Ok((op, None)),
                None => Ok((Op::Nop, None)),
            };
        }
        if opcode == 0x84u8 {
            let i = next_u8(data)?;
            let c = next_u8(data)?;
            return Ok((Op::IInc(i as usize, byte_signed(c)), None));
        }
        if branch_op_exec(opcode, 0).is_some() {
            let target = if opcode == 0xc8u8 || opcode == 0xc9u8 {
                let v = next_u32(data)?;
                jump_target_exec(off, signed(v) as i64)
            } else {
                let v = next_u16(data)?;
                jump_target_exec(off, short_signed(v) as i64)
            };
            return match branch_op_exec(opcode, target) {
                Some(op) => Ok((op, None)),
                None => Ok((Op::Nop, None)),
            };
        }
        if opcode == 0xaau8 {
            return table_switch_exec(data, off);
        }
        if opcode == 0xabu8 {
            return lookup_switch_exec(data, off);
        }
        if 0xacu8 <= opcode && opcode <= 0xb1u8 {
            let op = return_op_exec(opcode, return_type)?;
            return Ok((op, None));
        }
        if 0xb2u8 <= opcode && opcode <= 0xb5u8 {
            let i = next_u16(data)?;
            return field_exec(pool, opcode, i, Ghost(data.pos() as int));
        }
        if 0xb6u8 <= opcode && opcode <= 0xb8u8 {
            let i = next_u16(data)?;
            return invoke_exec(pool, opcode, i, Ghost(data.pos() as int));
        }
        if opcode == 0xb9u8 {
            let i = next_u16(data)?;
            return invoke_interface_exec(pool, i, data);
        }
        if opcode == 0xbbu8 || opcode == 0xbdu8 || opcode == 0xc0u8 || opcode == 0xc1u8 {
            let i = next_u16(data)?;
            return class_exec(pool, opcode, i, Ghost(data.pos() as int));
        }
        if opcode == 0xbcu8 {
            let t = next_u8(data)?;
            return match array_type_exec(t) {
                None => Err(DecodeError::InvalidArrayType),
                Some(a) => Ok((Op::NewArray(a), None)),
            };
        }
        let i = next_u16(data)?;
        let dims = next_u8(data)?;
        multi_new_array_exec(pool, i, dims, Ghost(data.pos() as int))
    }
}

// ---------------------------------------------------------------------------
// A whole method body
// ---------------------------------------------------------------------------

/// The jump offset a branch op names.
pub open spec fn branch_offset(op: SpecOp) -> Option<usize> {
    match op {
        SpecOp::IfEq(p) | SpecOp::IfNe(p) | SpecOp::IfLt(p) | SpecOp::IfGe(p) | SpecOp::IfGt(p) | SpecOp::IfLe(p) | SpecOp::IfICmpEq(p) | SpecOp::IfICmpNe(p) | SpecOp::IfICmpLt(p) | SpecOp::IfICmpGe(p) | SpecOp::IfICmpGt(p) | SpecOp::IfICmpLe(p) | SpecOp::IfACmpEq(p) | SpecOp::IfACmpNe(p) | SpecOp::IfNull(p) | SpecOp::IfNonNull(p) | SpecOp::Goto(p) | SpecOp::Jsr(p) => Some(p),
        _ => None,
    }
}

/// The same branch op, jumping to `t`.
pub open spec fn retarget(op: SpecOp, t: usize) -> SpecOp {
    match op {
        SpecOp::IfEq(_) => SpecOp::IfEq(t),
        SpecOp::IfNe(_) => SpecOp::IfNe(t),
        SpecOp::IfLt(_) => SpecOp::IfLt(t),
        SpecOp::IfGe(_) => SpecOp::IfGe(t),
        SpecOp::IfGt(_) => SpecOp::IfGt(t),
        SpecOp::IfLe(_) => SpecOp::IfLe(t),
        SpecOp::IfICmpEq(_) => SpecOp::IfICmpEq(t),
        SpecOp::IfICmpNe(_) => SpecOp::IfICmpNe(t),
        SpecOp::IfICmpLt(_) => SpecOp::IfICmpLt(t),
        SpecOp::IfICmpGe(_) => SpecOp::IfICmpGe(t),
        SpecOp::IfICmpGt(_) => SpecOp::IfICmpGt(t),
        SpecOp::IfICmpLe(_) => SpecOp::IfICmpLe(t),
        SpecOp::IfACmpEq(_) => SpecOp::IfACmpEq(t),
        SpecOp::IfACmpNe(_) => SpecOp::IfACmpNe(t),
        SpecOp::IfNull(_) => SpecOp::IfNull(t),
        SpecOp::IfNonNull(_) => SpecOp::IfNonNull(t),
        SpecOp::Goto(_) => SpecOp::Goto(t),
        SpecOp::Jsr(_) => SpecOp::Jsr(t),
        _ => op,
    }
}

/// An op with its jump offsets replaced by the op indices `map` gives them;
/// an offset `map` lacks is an error (for a switch, its default first, then
/// its cases in order).
pub open spec fn resolve_op(op: SpecOp, map: Map<usize, usize>) -> Result<SpecOp, DecodeError> {
    match op {
        SpecOp::TableSwitch(t) => if !map.contains_key(t.default_offset) {
            Err(DecodeError::InvalidTableSwitchDefault)
        } else if exists|k: int| 0 <= k < t.matches.len() && !map.contains_key(#[trigger] t.matches[k]) {
            Err(DecodeError::InvalidTableSwitchCase)
        } else {
            Ok(SpecOp::TableSwitch(SpecTableSwitch {
                low_int: t.low_int,
                matches: t.matches.map_values(|o: usize| map[o]),
                default_offset: map[t.default_offset],
            }))
        },
        SpecOp::LookupSwitch(t) => if !map.contains_key(t.default_offset) {
            Err(DecodeError::InvalidLookupSwitchDefault)
        } else if exists|k: int| 0 <= k < t.matches.len() && !map.contains_key(#[trigger] t.matches[k].1) {
            Err(DecodeError::InvalidLookupSwitchCase)
        } else {
            Ok(SpecOp::LookupSwitch(SpecLookupSwitch {
                matches: t.matches.map_values(|m: (i32, usize)| (m.0, map[m.1])),
                default_offset: map[t.default_offset],
            }))
        },
        _ => match branch_offset(op) {
            Some(p) => if map.contains_key(p) {
                Ok(retarget(op, map[p]))
            } else {
                Err(DecodeError::InvalidBranchTarget)
            },
            None => Ok(op),
        },
    }
}

/// Resolving each op in order; the first that fails gives the error.
pub open spec fn resolve_ops(ops: Seq<SpecOp>, map: Map<usize, usize>) -> Result<Seq<SpecOp>, DecodeError>
    decreases ops.len(),
{
    if ops.len() == 0 {
        Ok(Seq::empty())
    } else {
        match resolve_ops(ops.drop_last(), map) {
            Err(e) => Err(e),
            Ok(done) => match resolve_op(ops.last(), map) {
                Err(e) => Err(e),
                Ok(op) => Ok(done.push(op)),
            },
        }
    }
}

/// Decoding ops at `p` on while `p < end`, after the ops `ops`, with the
/// map from byte offsets (from `start`) to op indices so far: each decoded
/// op's end is mapped to the index of the op that follows it.
pub open spec fn decode_from(pool: Seq<SpecEntry>, ret: SpecDescriptor, d: Seq<u8>, start: int, end: int, p: int, ops: Seq<SpecOp>, map: Map<usize, usize>) -> Option<Result<(Seq<SpecOp>, Map<usize, usize>, int), DecodeError>>
    decreases (if p < end { end - p } else { 0 }),
{
    if p >= end {
        Some(Ok((ops, map, p)))
    } else {
        match spec_read_op(pool, ret, d, p, p - start) {
            None => None,
            Some(Err(e)) => Some(Err(e)),
            Some(Ok((a, b, q))) => {
                let ops2 = match b {
                    Some(x) => ops.push(a).push(x),
                    None => ops.push(a),
                };
                // Reading an op always moves forward.
                if q <= p {
                    None
                } else {
                    decode_from(pool, ret, d, start, end, q, ops2, map.insert((q - start) as usize, ops2.len() as usize))
                }
            },
        }
    }
}

/// Decoding a method body's code at `p`: its length, then its ops (a
/// garbage-collection check first), then jump offsets resolved to op
/// indices. The result holds the ops, the map from byte offsets to op
/// indices, and the position after the last op.
pub open spec fn spec_read_ops(pool: Seq<SpecEntry>, ret: SpecDescriptor, d: Seq<u8>, p: int) -> Option<Result<(Seq<SpecOp>, Map<usize, usize>, int), DecodeError>> {
    match spec_u32_be(d, p) {
        Err(e) => Some(Err(DecodeError::ClassFile(error_of_read(e)))),
        Ok((length, start)) => finish(decode_from(pool, ret, d, start, start + length, start, seq![SpecOp::GcCheck], map![0usize => 0usize])),
    }
}

/// Resolving the jump offsets of what decoding gave.
pub open spec fn finish(decoded: Option<Result<(Seq<SpecOp>, Map<usize, usize>, int), DecodeError>>) -> Option<Result<(Seq<SpecOp>, Map<usize, usize>, int), DecodeError>> {
    match decoded {
        None => None,
        Some(Err(e)) => Some(Err(e)),
        Some(Ok((ops, map, end))) => match resolve_ops(ops, map) {
            Err(e) => Some(Err(e)),
            Ok(resolved) => Some(Ok((resolved, map, end))),
        },
    }
}

/// The ops as values.
pub open spec fn ops_view(ops: Seq<Op>) -> Seq<SpecOp> {
    ops.map_values(|o: Op| o@)
}

/// A failure resolving a prefix stays the failure of longer prefixes.
proof fn lemma_resolve_fails(ops: Seq<SpecOp>, map: Map<usize, usize>, k: int, m: int)
    requires
        0 <= k <= m <= ops.len(),
        resolve_ops(ops.take(k), map) is Err,
    ensures
        resolve_ops(ops.take(m), map) == resolve_ops(ops.take(k), map),
    decreases m - k,
{
    if k < m {
        lemma_resolve_fails(ops, map, k, m - 1);
        assert(ops.take(m).drop_last() =~= ops.take(m - 1));
    }
}

/// An op with its jump offsets resolved through `map`.
fn resolve_op_exec(op: &Op, map: &IndexTable) -> (res: Result<Op, DecodeError>)
    ensures
        match resolve_op(op@, index_table_contents(*map)) {
            Ok(s) => res matches Ok(r) && r@ == s,
            Err(e) => res == Err::<Op, DecodeError>(e),
        },
{
    let ghost m = index_table_contents(*map);
    match op {
        Op::IfEq(p) => match index_table_get(map, *p) {
            Some(t) => Ok(Op::IfEq(t)),
            None => Err(DecodeError::InvalidBranchTarget),
        },
        Op::IfNe(p) => match index_table_get(map, *p) {
            Some(t) => Ok(Op::IfNe(t)),
            None => Err(DecodeError::InvalidBranchTarget),
        },
        Op::IfLt(p) => match index_table_get(map, *p) {
            Some(t) => Ok(Op::IfLt(t)),
            None => Err(DecodeError::InvalidBranchTarget),
        },
        Op::IfGe(p) => match index_table_get(map, *p) {
            Some(t) => Ok(Op::IfGe(t)),
            None => Err(DecodeError::InvalidBranchTarget),
        },
        Op::IfGt(p) => match index_table_get(map, *p) {
            Some(t) => Ok(Op::IfGt(t)),
            None => Err(DecodeError::InvalidBranchTarget),
        },
        Op::IfLe(p) => match index_table_get(map, *p) {
            Some(t) => Ok(Op::IfLe(t)),
            None => Err(DecodeError::InvalidBranchTarget),
        },
        Op::IfICmpEq(p) => match index_table_get(map, *p) {
            Some(t) => Ok(Op::IfICmpEq(t)),
            None => Err(DecodeError::InvalidBranchTarget),
        },
        Op::IfICmpNe(p) => match index_table_get(map, *p) {
            Some(t) => Ok(Op::IfICmpNe(t)),
            None => Err(DecodeError::InvalidBranchTarget),
        },
        Op::IfICmpLt(p) => match index_table_get(map, *p) {
            Some(t) => Ok(Op::IfICmpLt(t)),
            None => Err(DecodeError::InvalidBranchTarget),
        },
        Op::IfICmpGe(p) => match index_table_get(map, *p) {
            Some(t) => Ok(Op::IfICmpGe(t)),
            None => Err(DecodeError::InvalidBranchTarget),
        },
        Op::IfICmpGt(p) => match index_table_get(map, *p) {
            Some(t) => Ok(Op::IfICmpGt(t)),
            None => Err(DecodeError::InvalidBranchTarget),
        },
        Op::IfICmpLe(p) => match index_table_get(map, *p) {
            Some(t) => Ok(Op::IfICmpLe(t)),
            None => Err(DecodeError::InvalidBranchTarget),
        },
        Op::IfACmpEq(p) => match index_table_get(map, *p) {
            Some(t) => Ok(Op::IfACmpEq(t)),
            None => Err(DecodeError::InvalidBranchTarget),
        },
        Op::IfACmpNe(p) => match index_table_get(map, *p) {
            Some(t) => Ok(Op::IfACmpNe(t)),
            None => Err(DecodeError::InvalidBranchTarget),
        },
        Op::IfNull(p) => match index_table_get(map, *p) {
            Some(t) => Ok(Op::IfNull(t)),
            None => Err(DecodeError::InvalidBranchTarget),
        },
        Op::IfNonNull(p) => match index_table_get(map, *p) {
            Some(t) => Ok(Op::IfNonNull(t)),
            None => Err(DecodeError::InvalidBranchTarget),
        },
        Op::Goto(p) => match index_table_get(map, *p) {
            Some(t) => Ok(Op::Goto(t)),
            None => Err(DecodeError::InvalidBranchTarget),
        },
        Op::Jsr(p) => match index_table_get(map, *p) {
            Some(t) => Ok(Op::Jsr(t)),
            None => Err(DecodeError::InvalidBranchTarget),
        },
        Op::TableSwitch(t) => {
            let default_offset = match index_table_get(map, t.default_offset) {
                Some(x) => x,
                None => return Err(DecodeError::InvalidTableSwitchDefault),
            };
            let mut matches: Vec<usize> = Vec::new();
            let mut k: usize = 0;
            while k < t.matches.len()
                invariant
                    k <= t.matches@.len(),
                    m == index_table_contents(*map),
                    op@ == SpecOp::TableSwitch(t@),
                    m.contains_key(t.default_offset),
                    forall|j: int| 0 <= j < k ==> m.contains_key(#[trigger] t.matches@[j]),
                    matches@ =~= t.matches@.take(k as int).map_values(|o: usize| m[o]),
                decreases t.matches@.len() - k,
            {
                let x = match index_table_get(map, t.matches[k]) {
                    Some(x) => x,
                    None => {
                        assert(!m.contains_key(t.matches@[k as int]));
                        return Err(DecodeError::InvalidTableSwitchCase);
                    },
                };
                matches.push(x);
                assert(t.matches@.take(k + 1) =~= t.matches@.take(k as int).push(t.matches@[k as int]));
                k = k + 1;
            }
            assert(t.matches@.take(k as int) =~= t.matches@);
            Ok(Op::TableSwitch(Box::new(TableSwitchInfo { low_int: t.low_int, matches, default_offset })))
        },
        Op::LookupSwitch(t) => {
            let default_offset = match index_table_get(map, t.default_offset) {
                Some(x) => x,
                None => return Err(DecodeError::InvalidLookupSwitchDefault),
            };
            let mut matches: Vec<(i32, usize)> = Vec::new();
            let mut k: usize = 0;
            while k < t.matches.len()
                invariant
                    k <= t.matches@.len(),
                    m == index_table_contents(*map),
                    op@ == SpecOp::LookupSwitch(t@),
                    m.contains_key(t.default_offset),
                    forall|j: int| 0 <= j < k ==> m.contains_key(#[trigger] t.matches@[j].1),
                    matches@ =~= t.matches@.take(k as int).map_values(|p: (i32, usize)| (p.0, m[p.1])),
                decreases t.matches@.len() - k,
            {
                let (v, o) = t.matches[k];
                let x = match index_table_get(map, o) {
                    Some(x) => x,
                    None => {
                        assert(!m.contains_key(t.matches@[k as int].1));
                        return Err(DecodeError::InvalidLookupSwitchCase);
                    },
                };
                matches.push((v, x));
                assert(t.matches@.take(k + 1) =~= t.matches@.take(k as int).push(t.matches@[k as int]));
                k = k + 1;
            }
            assert(t.matches@.take(k as int) =~= t.matches@);
            Ok(Op::LookupSwitch(Box::new(LookupSwitchInfo { matches, default_offset })))
        },
        _ => Ok(op.duplicate()),
    }
}

impl Op {
    /// Decodes a method body's code at the cursor: a four-byte length, then
    /// that many bytes of ops (preceded by a garbage-collection check), with
    /// every jump offset turned into an op index. Returns the ops and the
    /// map from byte offsets to op indices.
    pub fn read_ops(constant_pool: &ConstantPool, return_type: &Descriptor, data: &mut FileData<'_>) -> (res: Result<(Vec<Op>, IndexTable), DecodeError>)
        requires
            old(data).pos() <= old(data).bytes().len(),
            small_enough(old(data).bytes().len() as int),
            spec_read_ops(constant_pool@, return_type@, old(data).bytes(), old(data).pos() as int) is Some,
        ensures
            final(data).bytes() == old(data).bytes(),
            res is Ok ==> final(data).pos() <= final(data).bytes().len(),
            match spec_read_ops(constant_pool@, return_type@, old(data).bytes(), old(data).pos() as int) {
                Some(Ok((ops, map, end))) => res matches Ok((code, table)) && ops_view(code@) == ops
                    && index_table_contents(table) == map && final(data).pos() == end,
                Some(Err(e)) => res == Err::<(Vec<Op>, IndexTable), DecodeError>(e),
                None => false,
            },
    {
        let ghost pool = constant_pool@;
        let ghost ret = return_type@;
        let ghost d = data.bytes();
        let code_length = next_u32(data)?;
        let code_start = data.position();
        let end: u64 = code_start as u64 + code_length as u64;
        let ghost start = code_start as int;
        let mut code: Vec<Op> = Vec::new();
        let mut map = index_table_new();
        index_table_insert(&mut map, 0, 0);
        code.push(Op::GcCheck);
        assert(ops_view(code@) =~= seq![SpecOp::GcCheck]);
        assert(index_table_contents(map) =~= map![0usize => 0usize]);
        let ghost total = decode_from(pool, ret, d, start, end as int, start, seq![SpecOp::GcCheck], map![0usize => 0usize]);
        assert(spec_read_ops(pool, ret, d, old(data).pos() as int) == finish(total));
        while (data.position() as u64) < end
            invariant
                pool == constant_pool@,
                ret == return_type@,
                d == data.bytes(),
                d == old(data).bytes(),
                small_enough(d.len() as int),
                0 <= start <= data.pos() <= d.len(),
                start == code_start,
                end == code_start + code_length,
                total == decode_from(pool, ret, d, start, end as int, start, seq![SpecOp::GcCheck], map![0usize => 0usize]),
                total == decode_from(pool, ret, d, start, end as int, data.pos() as int, ops_view(code@), index_table_contents(map)),
                total is Some,
                spec_read_ops(pool, ret, d, old(data).pos() as int) == finish(total),
            decreases d.len() - data.pos(),
        {
            let pos = data.position();
            let ghost before_ops = ops_view(code@);
            let ghost before_map = index_table_contents(map);
            let (a, b) = match Op::read_op(constant_pool, return_type, data, pos - code_start) {
                Ok(r) => r,
                Err(e) => return Err(e),
            };
            code.push(a);
            match b {
                Some(x) => code.push(x),
                None => {},
            }
            let after = data.position();
            index_table_insert(&mut map, after - code_start, code.len());
            proof {
                assert(ops_view(code@) =~= (match second_view(b) {
                    Some(x) => before_ops.push(a@).push(x),
                    None => before_ops.push(a@),
                }));
            }
        }
        let ghost decoded = ops_view(code@);
        let ghost m = index_table_contents(map);
        assert(total == Some(Ok::<(Seq<SpecOp>, Map<usize, usize>, int), DecodeError>((decoded, m, data.pos() as int))));
        let mut resolved: Vec<Op> = Vec::new();
        let mut i: usize = 0;
        assert(decoded.take(0) =~= Seq::<SpecOp>::empty());
        assert(ops_view(resolved@) =~= Seq::<SpecOp>::empty());
        while i < code.len()
            invariant
                decoded == ops_view(code@),
                m == index_table_contents(map),
                pool == constant_pool@,
                ret == return_type@,
                data.bytes() == old(data).bytes(),
                spec_read_ops(pool, ret, old(data).bytes(), old(data).pos() as int) == finish(total),
                total == Some(Ok::<(Seq<SpecOp>, Map<usize, usize>, int), DecodeError>((decoded, m, data.pos() as int))),
                i <= code@.len(),
                resolve_ops(decoded.take(i as int), m) == Ok::<Seq<SpecOp>, DecodeError>(ops_view(resolved@)),
            decreases code@.len() - i,
        {
            assert(decoded.take(i + 1).drop_last() =~= decoded.take(i as int));
            assert(decoded.take(i + 1).last() == code@[i as int]@);
            let r = match resolve_op_exec(&code[i], &map) {
                Ok(r) => r,
                Err(e) => {
                    proof {
                        lemma_resolve_fails(decoded, m, i + 1, decoded.len() as int);
                        assert(decoded.take(decoded.len() as int) =~= decoded);
                    }
                    return Err(e);
                },
            };
            let ghost before = ops_view(resolved@);
            resolved.push(r);
            assert(ops_view(resolved@) =~= before.push(r@));
            i = i + 1;
        }
        assert(decoded.take(i as int) =~= decoded);
        Ok((resolved, map))
    }
}

} // verus!
