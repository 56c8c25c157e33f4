//! How the bytes of a method body decode, opcode by opcode, as the JVM
//! specification's table of opcodes lists them.
use vstd::prelude::*;

use crate::classfile::constant_pool::SpecEntry;
use crate::decode::{decode_opcode, spec_read_op, DecodeError, DecodeOutcome};
use crate::descriptor::SpecDescriptor;
use crate::op::SpecOp;

verus! {

/// The op `op`, decoded from the bytes up to `q`.
pub open spec fn decoded(op: SpecOp, q: int) -> DecodeOutcome {
    Some(Ok((op, None, q)))
}

/// The target of a jump whose two-byte signed offset is at `p`, from the op
/// at offset `off`.
pub open spec fn branch_target(d: Seq<u8>, p: int, off: int) -> usize {
    (off + ((((d[p] as int) * 256 + (d[p + 1] as int)) as u16) as i16) as int) as usize
}

/// The one-byte opcodes that are the stack and array opcodes: `iaload` to `saload` (0x2e to 0x35), `iastore` to `sastore` (0x4f to 0x56), `pop` to `swap` (0x57 to 0x5f, but `dup2_x1`), `arraylength` (0xbe) and `athrow` (0xbf): each decodes to the op of that
/// name, one byte long.
pub proof fn lemma_stack_and_array_opcodes(pool: Seq<SpecEntry>, ret: SpecDescriptor, d: Seq<u8>, p: int, off: int)
    requires
        0 <= p < d.len(),
    ensures
        d[p] == 0x2eu8 ==> spec_read_op(pool, ret, d, p, off) == decoded(SpecOp::IaLoad, p + 1),
        d[p] == 0x2fu8 ==> spec_read_op(pool, ret, d, p, off) == decoded(SpecOp::LaLoad, p + 1),
        d[p] == 0x30u8 ==> spec_read_op(pool, ret, d, p, off) == decoded(SpecOp::FaLoad, p + 1),
        d[p] == 0x31u8 ==> spec_read_op(pool, ret, d, p, off) == decoded(SpecOp::DaLoad, p + 1),
        d[p] == 0x32u8 ==> spec_read_op(pool, ret, d, p, off) == decoded(SpecOp::AaLoad, p + 1),
        d[p] == 0x33u8 ==> spec_read_op(pool, ret, d, p, off) == decoded(SpecOp::BaLoad, p + 1),
        d[p] == 0x34u8 ==> spec_read_op(pool, ret, d, p, off) == decoded(SpecOp::CaLoad, p + 1),
        d[p] == 0x35u8 ==> spec_read_op(pool, ret, d, p, off) == decoded(SpecOp::SaLoad, p + 1),
        d[p] == 0x4fu8 ==> spec_read_op(pool, ret, d, p, off) == decoded(SpecOp::IaStore, p + 1),
        d[p] == 0x50u8 ==> spec_read_op(pool, ret, d, p, off) == decoded(SpecOp::LaStore, p + 1),
        d[p] == 0x51u8 ==> spec_read_op(pool, ret, d, p, off) == decoded(SpecOp::FaStore, p + 1),
        d[p] == 0x52u8 ==> spec_read_op(pool, ret, d, p, off) == decoded(SpecOp::DaStore, p + 1),
        d[p] == 0x53u8 ==> spec_read_op(pool, ret, d, p, off) == decoded(SpecOp::AaStore, p + 1),
        d[p] == 0x54u8 ==> spec_read_op(pool, ret, d, p, off) == decoded(SpecOp::BaStore, p + 1),
        d[p] == 0x55u8 ==> spec_read_op(pool, ret, d, p, off) == decoded(SpecOp::CaStore, p + 1),
        d[p] == 0x56u8 ==> spec_read_op(pool, ret, d, p, off) == decoded(SpecOp::SaStore, p + 1),
        d[p] == 0x57u8 ==> spec_read_op(pool, ret, d, p, off) == decoded(SpecOp::Pop, p + 1),
        d[p] == 0x58u8 ==> spec_read_op(pool, ret, d, p, off) == decoded(SpecOp::Pop2, p + 1),
        d[p] == 0x59u8 ==> spec_read_op(pool, ret, d, p, off) == decoded(SpecOp::Dup, p + 1),
        d[p] == 0x5au8 ==> spec_read_op(pool, ret, d, p, off) == decoded(SpecOp::DupX1, p + 1),
        d[p] == 0x5bu8 ==> spec_read_op(pool, ret, d, p, off) == decoded(SpecOp::DupX2, p + 1),
        d[p] == 0x5cu8 ==> spec_read_op(pool, ret, d, p, off) == decoded(SpecOp::Dup2, p + 1),
        d[p] == 0x5eu8 ==> spec_read_op(pool, ret, d, p, off) == decoded(SpecOp::Dup2X2, p + 1),
        d[p] == 0x5fu8 ==> spec_read_op(pool, ret, d, p, off) == decoded(SpecOp::Swap, p + 1),
        d[p] == 0xbeu8 ==> spec_read_op(pool, ret, d, p, off) == decoded(SpecOp::ArrayLength, p + 1),
        d[p] == 0xbfu8 ==> spec_read_op(pool, ret, d, p, off) == decoded(SpecOp::AThrow, p + 1),
{
    reveal(decode_opcode);
}

/// The one-byte opcodes that are the arithmetic opcodes, `iadd` (0x60) to `lxor` (0x83): each decodes to the op of that
/// name, one byte long.
pub proof fn lemma_arithmetic_opcodes(pool: Seq<SpecEntry>, ret: SpecDescriptor, d: Seq<u8>, p: int, off: int)
    requires
        0 <= p < d.len(),
    ensures
        d[p] == 0x60u8 ==> spec_read_op(pool, ret, d, p, off) == decoded(SpecOp::IAdd, p + 1),
        d[p] == 0x61u8 ==> spec_read_op(pool, ret, d, p, off) == decoded(SpecOp::LAdd, p + 1),
        d[p] == 0x62u8 ==> spec_read_op(pool, ret, d, p, off) == decoded(SpecOp::FAdd, p + 1),
        d[p] == 0x63u8 ==> spec_read_op(pool, ret, d, p, off) == decoded(SpecOp::DAdd, p + 1),
        d[p] == 0x64u8 ==> spec_read_op(pool, ret, d, p, off) == decoded(SpecOp::ISub, p + 1),
        d[p] == 0x65u8 ==> spec_read_op(pool, ret, d, p, off) == decoded(SpecOp::LSub, p + 1),
        d[p] == 0x66u8 ==> spec_read_op(pool, ret, d, p, off) == decoded(SpecOp::FSub, p + 1),
        d[p] == 0x67u8 ==> spec_read_op(pool, ret, d, p, off) == decoded(SpecOp::DSub, p + 1),
        d[p] == 0x68u8 ==> spec_read_op(pool, ret, d, p, off) == decoded(SpecOp::IMul, p + 1),
        d[p] == 0x69u8 ==> spec_read_op(pool, ret, d, p, off) == decoded(SpecOp::LMul, p + 1),
        d[p] == 0x6au8 ==> spec_read_op(pool, ret, d, p, off) == decoded(SpecOp::FMul, p + 1),
        d[p] == 0x6bu8 ==> spec_read_op(pool, ret, d, p, off) == decoded(SpecOp::DMul, p + 1),
        d[p] == 0x6cu8 ==> spec_read_op(pool, ret, d, p, off) == decoded(SpecOp::IDiv, p + 1),
        d[p] == 0x6du8 ==> spec_read_op(pool, ret, d, p, off) == decoded(SpecOp::LDiv, p + 1),
        d[p] == 0x6eu8 ==> spec_read_op(pool, ret, d, p, off) == decoded(SpecOp::FDiv, p + 1),
        d[p] == 0x6fu8 ==> spec_read_op(pool, ret, d, p, off) == decoded(SpecOp::DDiv, p + 1),
        d[p] == 0x70u8 ==> spec_read_op(pool, ret, d, p, off) == decoded(SpecOp::IRem, p + 1),
        d[p] == 0x71u8 ==> spec_read_op(pool, ret, d, p, off) == decoded(SpecOp::LRem, p + 1),
        d[p] == 0x72u8 ==> spec_read_op(pool, ret, d, p, off) == decoded(SpecOp::FRem, p + 1),
        d[p] == 0x73u8 ==> spec_read_op(pool, ret, d, p, off) == decoded(SpecOp::DRem, p + 1),
        d[p] == 0x74u8 ==> spec_read_op(pool, ret, d, p, off) == decoded(SpecOp::INeg, p + 1),
        d[p] == 0x75u8 ==> spec_read_op(pool, ret, d, p, off) == decoded(SpecOp::LNeg, p + 1),
        d[p] == 0x76u8 ==> spec_read_op(pool, ret, d, p, off) == decoded(SpecOp::FNeg, p + 1),
        d[p] == 0x77u8 ==> spec_read_op(pool, ret, d, p, off) == decoded(SpecOp::DNeg, p + 1),
        d[p] == 0x78u8 ==> spec_read_op(pool, ret, d, p, off) == decoded(SpecOp::IShl, p + 1),
        d[p] == 0x79u8 ==> spec_read_op(pool, ret, d, p, off) == decoded(SpecOp::LShl, p + 1),
        d[p] == 0x7au8 ==> spec_read_op(pool, ret, d, p, off) == decoded(SpecOp::IShr, p + 1),
        d[p] == 0x7bu8 ==> spec_read_op(pool, ret, d, p, off) == decoded(SpecOp::LShr, p + 1),
        d[p] == 0x7cu8 ==> spec_read_op(pool, ret, d, p, off) == decoded(SpecOp::IUshr, p + 1),
        d[p] == 0x7du8 ==> spec_read_op(pool, ret, d, p, off) == decoded(SpecOp::LUshr, p + 1),
        d[p] == 0x7eu8 ==> spec_read_op(pool, ret, d, p, off) == decoded(SpecOp::IAnd, p + 1),
        d[p] == 0x7fu8 ==> spec_read_op(pool, ret, d, p, off) == decoded(SpecOp::LAnd, p + 1),
        d[p] == 0x80u8 ==> spec_read_op(pool, ret, d, p, off) == decoded(SpecOp::IOr, p + 1),
        d[p] == 0x81u8 ==> spec_read_op(pool, ret, d, p, off) == decoded(SpecOp::LOr, p + 1),
        d[p] == 0x82u8 ==> spec_read_op(pool, ret, d, p, off) == decoded(SpecOp::IXor, p + 1),
        d[p] == 0x83u8 ==> spec_read_op(pool, ret, d, p, off) == decoded(SpecOp::LXor, p + 1),
{
    reveal(decode_opcode);
}

/// The one-byte opcodes that are the conversion and comparison opcodes, `i2l` (0x85) to `dcmpg` (0x98): each decodes to the op of that
/// name, one byte long.
pub proof fn lemma_conversion_opcodes(pool: Seq<SpecEntry>, ret: SpecDescriptor, d: Seq<u8>, p: int, off: int)
    requires
        0 <= p < d.len(),
    ensures
        d[p] == 0x85u8 ==> spec_read_op(pool, ret, d, p, off) == decoded(SpecOp::I2L, p + 1),
        d[p] == 0x86u8 ==> spec_read_op(pool, ret, d, p, off) == decoded(SpecOp::I2F, p + 1),
        d[p] == 0x87u8 ==> spec_read_op(pool, ret, d, p, off) == decoded(SpecOp::I2D, p + 1),
        d[p] == 0x88u8 ==> spec_read_op(pool, ret, d, p, off) == decoded(SpecOp::L2I, p + 1),
        d[p] == 0x89u8 ==> spec_read_op(pool, ret, d, p, off) == decoded(SpecOp::L2F, p + 1),
        d[p] == 0x8au8 ==> spec_read_op(pool, ret, d, p, off) == decoded(SpecOp::L2D, p + 1),
        d[p] == 0x8bu8 ==> spec_read_op(pool, ret, d, p, off) == decoded(SpecOp::F2I, p + 1),
        d[p] == 0x8cu8 ==> spec_read_op(pool, ret, d, p, off) == decoded(SpecOp::F2L, p + 1),
        d[p] == 0x8du8 ==> spec_read_op(pool, ret, d, p, off) == decoded(SpecOp::F2D, p + 1),
        d[p] == 0x8eu8 ==> spec_read_op(pool, ret, d, p, off) == decoded(SpecOp::D2I, p + 1),
        d[p] == 0x8fu8 ==> spec_read_op(pool, ret, d, p, off) == decoded(SpecOp::D2L, p + 1),
        d[p] == 0x90u8 ==> spec_read_op(pool, ret, d, p, off) == decoded(SpecOp::D2F, p + 1),
        d[p] == 0x91u8 ==> spec_read_op(pool, ret, d, p, off) == decoded(SpecOp::I2B, p + 1),
        d[p] == 0x92u8 ==> spec_read_op(pool, ret, d, p, off) == decoded(SpecOp::I2C, p + 1),
        d[p] == 0x93u8 ==> spec_read_op(pool, ret, d, p, off) == decoded(SpecOp::I2S, p + 1),
        d[p] == 0x94u8 ==> spec_read_op(pool, ret, d, p, off) == decoded(SpecOp::LCmp, p + 1),
        d[p] == 0x95u8 ==> spec_read_op(pool, ret, d, p, off) == decoded(SpecOp::FCmpL, p + 1),
        d[p] == 0x96u8 ==> spec_read_op(pool, ret, d, p, off) == decoded(SpecOp::FCmpG, p + 1),
        d[p] == 0x97u8 ==> spec_read_op(pool, ret, d, p, off) == decoded(SpecOp::DCmpL, p + 1),
        d[p] == 0x98u8 ==> spec_read_op(pool, ret, d, p, off) == decoded(SpecOp::DCmpG, p + 1),
{
    reveal(decode_opcode);
}

/// The branch opcodes with a two-byte offset: `ifeq` (0x99) to `jsr`
/// (0xa8), `ifnull` (0xc6) and `ifnonnull` (0xc7). Each decodes to the
/// branch with that comparison, its target the op's offset plus the signed
/// offset that follows the opcode; `if_icmpge` (0xa2) branches when
/// `value1 >= value2`.
pub proof fn lemma_branch_opcodes(pool: Seq<SpecEntry>, ret: SpecDescriptor, d: Seq<u8>, p: int, off: int)
    requires
        0 <= p,
        p + 3 <= d.len(),
    ensures
        d[p] == 0x99u8 ==> spec_read_op(pool, ret, d, p, off) == decoded(SpecOp::IfEq(branch_target(d, p + 1, off)), p + 3),
        d[p] == 0x9au8 ==> spec_read_op(pool, ret, d, p, off) == decoded(SpecOp::IfNe(branch_target(d, p + 1, off)), p + 3),
        d[p] == 0x9bu8 ==> spec_read_op(pool, ret, d, p, off) == decoded(SpecOp::IfLt(branch_target(d, p + 1, off)), p + 3),
        d[p] == 0x9cu8 ==> spec_read_op(pool, ret, d, p, off) == decoded(SpecOp::IfGe(branch_target(d, p + 1, off)), p + 3),
        d[p] == 0x9du8 ==> spec_read_op(pool, ret, d, p, off) == decoded(SpecOp::IfGt(branch_target(d, p + 1, off)), p + 3),
        d[p] == 0x9eu8 ==> spec_read_op(pool, ret, d, p, off) == decoded(SpecOp::IfLe(branch_target(d, p + 1, off)), p + 3),
        d[p] == 0x9fu8 ==> spec_read_op(pool, ret, d, p, off) == decoded(SpecOp::IfICmpEq(branch_target(d, p + 1, off)), p + 3),
        d[p] == 0xa0u8 ==> spec_read_op(pool, ret, d, p, off) == decoded(SpecOp::IfICmpNe(branch_target(d, p + 1, off)), p + 3),
        d[p] == 0xa1u8 ==> spec_read_op(pool, ret, d, p, off) == decoded(SpecOp::IfICmpLt(branch_target(d, p + 1, off)), p + 3),
        d[p] == 0xa2u8 ==> spec_read_op(pool, ret, d, p, off) == decoded(SpecOp::IfICmpGe(branch_target(d, p + 1, off)), p + 3),
        d[p] == 0xa3u8 ==> spec_read_op(pool, ret, d, p, off) == decoded(SpecOp::IfICmpGt(branch_target(d, p + 1, off)), p + 3),
        d[p] == 0xa4u8 ==> spec_read_op(pool, ret, d, p, off) == decoded(SpecOp::IfICmpLe(branch_target(d, p + 1, off)), p + 3),
        d[p] == 0xa5u8 ==> spec_read_op(pool, ret, d, p, off) == decoded(SpecOp::IfACmpEq(branch_target(d, p + 1, off)), p + 3),
        d[p] == 0xa6u8 ==> spec_read_op(pool, ret, d, p, off) == decoded(SpecOp::IfACmpNe(branch_target(d, p + 1, off)), p + 3),
        d[p] == 0xa7u8 ==> spec_read_op(pool, ret, d, p, off) == decoded(SpecOp::Goto(branch_target(d, p + 1, off)), p + 3),
        d[p] == 0xa8u8 ==> spec_read_op(pool, ret, d, p, off) == decoded(SpecOp::Jsr(branch_target(d, p + 1, off)), p + 3),
        d[p] == 0xc6u8 ==> spec_read_op(pool, ret, d, p, off) == decoded(SpecOp::IfNull(branch_target(d, p + 1, off)), p + 3),
        d[p] == 0xc7u8 ==> spec_read_op(pool, ret, d, p, off) == decoded(SpecOp::IfNonNull(branch_target(d, p + 1, off)), p + 3),
{
    reveal(decode_opcode);
}

/// The byte `b` read as a two's-complement signed byte.
pub open spec fn signed_byte(b: u8) -> int {
    if b < 128 { b as int } else { b as int - 256 }
}

/// The two bytes `hi`, `lo` read as a big-endian two's-complement `short`.
pub open spec fn signed_short(hi: u8, lo: u8) -> int {
    let u = (hi as int) * 256 + (lo as int);
    if u < 32768 { u } else { u - 65536 }
}

/// The constant opcodes: `aconst_null` (0x01), `iconst_m1` to `iconst_5`
/// (0x02 to 0x08) push `-1` to `5`, `lconst_0` and `lconst_1` (0x09, 0x0a);
/// `bipush` (0x10) and `sipush` (0x11) push their signed operand.
pub proof fn lemma_constant_opcodes(pool: Seq<SpecEntry>, ret: SpecDescriptor, d: Seq<u8>, p: int, off: int)
    requires
        0 <= p,
        p + 3 <= d.len(),
    ensures
        d[p] == 0x01u8 ==> spec_read_op(pool, ret, d, p, off) == decoded(SpecOp::AConstNull, p + 1),
        0x02u8 <= d[p] <= 0x08u8 ==> spec_read_op(pool, ret, d, p, off) == decoded(SpecOp::IConst((d[p] - 3) as i32), p + 1),
        0x09u8 <= d[p] <= 0x0au8 ==> spec_read_op(pool, ret, d, p, off) == decoded(SpecOp::LConst((d[p] - 9) as i8), p + 1),
        d[p] == 0x10u8 ==> spec_read_op(pool, ret, d, p, off) == decoded(SpecOp::IConst(signed_byte(d[p + 1]) as i32), p + 2),
        d[p] == 0x11u8 ==> spec_read_op(pool, ret, d, p, off) == decoded(
            SpecOp::IConst(signed_short(d[p + 1], d[p + 2]) as i32), p + 3),
{
    reveal(decode_opcode);
    let b = d[p + 1];
    assert((b as i8 as i32) as int == signed_byte(b)) by (bit_vector);
    let hi = d[p + 1];
    let lo = d[p + 2];
    let u = ((hi as int) * 256 + (lo as int)) as u16;
    assert(u as int == (hi as int) * 256 + (lo as int));
    assert((u as i16 as i32) as int == if u < 32768u16 { u as int } else { u as int - 65536 }) by (bit_vector);
}

/// The local-variable opcodes: `iload_<n>`, `lload_<n>`, `aload_<n>` (0x1a,
/// 0x1e, 0x2a on) and `istore_<n>`, `lstore_<n>`, `astore_<n>` (0x3b, 0x3f,
/// 0x4b on) name local `n` (0 to 3) in the opcode; `iload`, `lload`, `aload`
/// (0x15, 0x16, 0x19), `istore`, `lstore`, `astore` (0x36, 0x37, 0x3a) name
/// it in the byte that follows, and `iinc` (0x84) adds the signed byte after
/// the local's index.
pub proof fn lemma_local_opcodes(pool: Seq<SpecEntry>, ret: SpecDescriptor, d: Seq<u8>, p: int, off: int)
    requires
        0 <= p,
        p + 3 <= d.len(),
    ensures
        0x1au8 <= d[p] <= 0x1du8 ==> spec_read_op(pool, ret, d, p, off) == decoded(SpecOp::ILoad((d[p] - 0x1a) as usize), p + 1),
        0x1eu8 <= d[p] <= 0x21u8 ==> spec_read_op(pool, ret, d, p, off) == decoded(SpecOp::LLoad((d[p] - 0x1e) as usize), p + 1),
        0x2au8 <= d[p] <= 0x2du8 ==> spec_read_op(pool, ret, d, p, off) == decoded(SpecOp::ALoad((d[p] - 0x2a) as usize), p + 1),
        0x3bu8 <= d[p] <= 0x3eu8 ==> spec_read_op(pool, ret, d, p, off) == decoded(SpecOp::IStore((d[p] - 0x3b) as usize), p + 1),
        0x3fu8 <= d[p] <= 0x42u8 ==> spec_read_op(pool, ret, d, p, off) == decoded(SpecOp::LStore((d[p] - 0x3f) as usize), p + 1),
        0x4bu8 <= d[p] <= 0x4eu8 ==> spec_read_op(pool, ret, d, p, off) == decoded(SpecOp::AStore((d[p] - 0x4b) as usize), p + 1),
        d[p] == 0x15u8 ==> spec_read_op(pool, ret, d, p, off) == decoded(SpecOp::ILoad(d[p + 1] as usize), p + 2),
        d[p] == 0x16u8 ==> spec_read_op(pool, ret, d, p, off) == decoded(SpecOp::LLoad(d[p + 1] as usize), p + 2),
        d[p] == 0x19u8 ==> spec_read_op(pool, ret, d, p, off) == decoded(SpecOp::ALoad(d[p + 1] as usize), p + 2),
        d[p] == 0x36u8 ==> spec_read_op(pool, ret, d, p, off) == decoded(SpecOp::IStore(d[p + 1] as usize), p + 2),
        d[p] == 0x37u8 ==> spec_read_op(pool, ret, d, p, off) == decoded(SpecOp::LStore(d[p + 1] as usize), p + 2),
        d[p] == 0x3au8 ==> spec_read_op(pool, ret, d, p, off) == decoded(SpecOp::AStore(d[p + 1] as usize), p + 2),
        d[p] == 0x84u8 ==> spec_read_op(pool, ret, d, p, off) == decoded(
            SpecOp::IInc(d[p + 1] as usize, signed_byte(d[p + 2]) as i32), p + 3),
{
    reveal(decode_opcode);
    let b = d[p + 2];
    assert((b as i8 as i32) as int == signed_byte(b)) by (bit_vector);
}

/// The return opcodes: `ireturn` (0xac) in a method returning `int`,
/// `lreturn` (0xad) returning `long`, `areturn` (0xb0) returning an object
/// and `return` (0xb1) returning `void` decode to those ops; an `ireturn`
/// or `areturn` in a `void` method, or a `return` in one that returns an
/// `int`, is refused with the opcode.
pub proof fn lemma_return_opcodes(pool: Seq<SpecEntry>, d: Seq<u8>, p: int, off: int, name: Seq<char>)
    requires
        0 <= p < d.len(),
    ensures
        d[p] == 0xacu8 ==> spec_read_op(pool, SpecDescriptor::Integer, d, p, off) == decoded(SpecOp::IReturn, p + 1),
        d[p] == 0xadu8 ==> spec_read_op(pool, SpecDescriptor::Long, d, p, off) == decoded(SpecOp::LReturn, p + 1),
        d[p] == 0xb0u8 ==> spec_read_op(pool, SpecDescriptor::Class(name), d, p, off) == decoded(SpecOp::AReturn, p + 1),
        d[p] == 0xb1u8 ==> spec_read_op(pool, SpecDescriptor::Void, d, p, off) == decoded(SpecOp::Return, p + 1),
        d[p] == 0xacu8 ==> spec_read_op(pool, SpecDescriptor::Void, d, p, off) == Some(Err::<(SpecOp, Option<SpecOp>, int), DecodeError>(DecodeError::BadReturnType(0xacu8))),
        d[p] == 0xb0u8 ==> spec_read_op(pool, SpecDescriptor::Void, d, p, off) == Some(Err::<(SpecOp, Option<SpecOp>, int), DecodeError>(DecodeError::BadReturnType(0xb0u8))),
        d[p] == 0xb1u8 ==> spec_read_op(pool, SpecDescriptor::Integer, d, p, off) == Some(Err::<(SpecOp, Option<SpecOp>, int), DecodeError>(DecodeError::BadReturnType(0xb1u8))),
{
    reveal(decode_opcode);
}

} // verus!
