//! What the interpreter's ops compute, stated over the values pushed before
//! them: for every frame with room, and every operand. The operands are
//! named in the order they were pushed (`a` first, `b` on top), as the
//! bytecode's own description names them (`value1`, `value2`).
use vstd::prelude::*;

use crate::interpret::{below, has, int_at, long_at, pushed, pushed_wide, spec_step, java_idiv, java_irem, java_ldiv, java_lrem, BuiltinException, Flow, SpecFrame};
use crate::heap::{array_of, is_array, spec_heap_step, ArrayKind, SpecObject};
use crate::hierarchy::{class_named, has_ancestor, SpecClass};
use crate::interpret::{catches_of, entered, handler_from, lookup_target};
use crate::op::{ArrayType, Exception, LookupSwitchInfo, Op, TableSwitchInfo};
use crate::string::JvmString;
use crate::value::{int_of, int_value, long_of, long_value, Value};

verus! {

/// The `int`s `a` and then `b` pushed.
pub open spec fn with_ints(f: SpecFrame, a: i32, b: i32) -> SpecFrame {
    pushed(pushed(f, int_value(a)), int_value(b))
}

/// The `long`s `a` and then `b` pushed, two slots each.
pub open spec fn with_longs(f: SpecFrame, a: i64, b: i64) -> SpecFrame {
    pushed_wide(pushed_wide(f, long_value(a)), long_value(b))
}

/// The `long` `a` and then the `int` `s` pushed.
pub open spec fn with_long_int(f: SpecFrame, a: i64, s: i32) -> SpecFrame {
    pushed(pushed_wide(f, long_value(a)), int_value(s))
}

/// Frame `g` once the op has replaced its operands, which started at slot
/// `base`, by the value `v` taking `width` slots, and gone on to the next op.
pub open spec fn gave(g: SpecFrame, base: int, v: Value, width: int) -> SpecFrame {
    SpecFrame { slots: g.slots.update(base, v), top: base + width, ip: g.ip + 1, local_count: g.local_count }
}

/// Frame `g` with its operands, which started at slot `base`, popped, and
/// the next op at `ip`.
pub open spec fn went_to(g: SpecFrame, base: int, ip: int) -> SpecFrame {
    SpecFrame { top: base, ip, ..g }
}

/// The frame has room for `n` more slots.
pub open spec fn has_room(f: SpecFrame, n: int) -> bool {
    0 <= f.top && f.top + n <= f.slots.len()
}

/// An `int` read back is the `int` stored.
pub proof fn lemma_int_round_trip(a: i32)
    ensures
        int_of(int_value(a)) == a,
{
    assert(((a as u64) as i32) == a) by (bit_vector);
}

/// A `long` read back is the `long` stored.
pub proof fn lemma_long_round_trip(a: i64)
    ensures
        long_of(long_value(a)) == a,
{
    assert(((a as u64) as i64) == a) by (bit_vector);
}

/// What the ops see of two pushed `int`s.
proof fn lemma_two_ints(f: SpecFrame, a: i32, b: i32)
    requires
        has_room(f, 2),
    ensures
        has(with_ints(f, a, b), 2),
        with_ints(f, a, b).top == f.top + 2,
        below(with_ints(f, a, b), 1) == int_value(b),
        below(with_ints(f, a, b), 2) == int_value(a),
        int_at(with_ints(f, a, b), 1) == b,
        int_at(with_ints(f, a, b), 2) == a,
{
    lemma_int_round_trip(a);
    lemma_int_round_trip(b);
}

/// What the ops see of two pushed `long`s.
proof fn lemma_two_longs(f: SpecFrame, a: i64, b: i64)
    requires
        has_room(f, 4),
    ensures
        has(with_longs(f, a, b), 4),
        with_longs(f, a, b).top == f.top + 4,
        below(with_longs(f, a, b), 2) == long_value(b),
        below(with_longs(f, a, b), 4) == long_value(a),
        long_at(with_longs(f, a, b), 2) == b,
        long_at(with_longs(f, a, b), 4) == a,
{
    lemma_long_round_trip(a);
    lemma_long_round_trip(b);
}

/// What the ops see of a pushed `long` and `int`.
proof fn lemma_long_int(f: SpecFrame, a: i64, s: i32)
    requires
        has_room(f, 3),
    ensures
        has(with_long_int(f, a, s), 3),
        with_long_int(f, a, s).top == f.top + 3,
        below(with_long_int(f, a, s), 1) == int_value(s),
        below(with_long_int(f, a, s), 3) == long_value(a),
        int_at(with_long_int(f, a, s), 1) == s,
        long_at(with_long_int(f, a, s), 3) == a,
{
    lemma_long_round_trip(a);
    lemma_int_round_trip(s);
}

/// The `int` arithmetic of the JVM: `iadd`, `isub`, `imul`, `iand`, `ior`,
/// `ixor` and the shifts replace `value1` (`a`) and `value2` (`b`) by
/// `a + b`, `a - b`, `a * b` (wrapping), the bitwise results, and `a`
/// shifted by the low five bits of `b`.
pub proof fn lemma_int_arithmetic(f: SpecFrame, a: i32, b: i32)
    requires
        has_room(f, 2),
    ensures
        ({
            let g = with_ints(f, a, b);
            &&& spec_step(g, Op::IAdd) == Some((gave(g, f.top, int_value(a.wrapping_add(b)), 1), Flow::Continue))
            &&& spec_step(g, Op::ISub) == Some((gave(g, f.top, int_value(a.wrapping_sub(b)), 1), Flow::Continue))
            &&& spec_step(g, Op::IMul) == Some((gave(g, f.top, int_value(a.wrapping_mul(b)), 1), Flow::Continue))
            &&& spec_step(g, Op::IAnd) == Some((gave(g, f.top, int_value(a & b), 1), Flow::Continue))
            &&& spec_step(g, Op::IOr) == Some((gave(g, f.top, int_value(a | b), 1), Flow::Continue))
            &&& spec_step(g, Op::IXor) == Some((gave(g, f.top, int_value(a ^ b), 1), Flow::Continue))
            &&& spec_step(g, Op::IShl) == Some(
                (gave(g, f.top, int_value(a.wrapping_shl((b & 0x1f) as u32)), 1), Flow::Continue),
            )
            &&& spec_step(g, Op::IShr) == Some(
                (gave(g, f.top, int_value(a.wrapping_shr((b & 0x1f) as u32)), 1), Flow::Continue),
            )
            &&& spec_step(g, Op::IUshr) == Some(
                (gave(g, f.top, int_value(((a as u32) >> ((b & 0x1f) as u32)) as i32), 1), Flow::Continue),
            )
        }),
{
    lemma_two_ints(f, a, b);
    assert(b.wrapping_add(a) == a.wrapping_add(b));
    assert(b.wrapping_mul(a) == a.wrapping_mul(b)) by (nonlinear_arith);
    assert(b & a == a & b) by (bit_vector);
    assert(b | a == a | b) by (bit_vector);
    assert(b ^ a == a ^ b) by (bit_vector);
}

/// Without overflow, `iadd`, `isub` and `imul` give the exact sum,
/// difference and product of `value1` and `value2`, in that order.
pub proof fn lemma_int_arithmetic_exact(f: SpecFrame, a: i32, b: i32)
    requires
        has_room(f, 2),
    ensures
        ({
            let g = with_ints(f, a, b);
            &&& i32::MIN <= a + b <= i32::MAX ==> spec_step(g, Op::IAdd) == Some(
                (gave(g, f.top, int_value((a + b) as i32), 1), Flow::Continue),
            )
            &&& i32::MIN <= a - b <= i32::MAX ==> spec_step(g, Op::ISub) == Some(
                (gave(g, f.top, int_value((a - b) as i32), 1), Flow::Continue),
            )
            &&& i32::MIN <= a * b <= i32::MAX ==> spec_step(g, Op::IMul) == Some(
                (gave(g, f.top, int_value((a * b) as i32), 1), Flow::Continue),
            )
        }),
{
    lemma_int_arithmetic(f, a, b);
}

/// The `long` arithmetic of the JVM: `ladd`, `lsub`, `lmul`, `land`, `lor`
/// and `lxor` replace `value1` (`a`) and `value2` (`b`) by `a + b`,
/// `a - b`, `a * b` (wrapping) and the bitwise results.
pub proof fn lemma_long_arithmetic(f: SpecFrame, a: i64, b: i64)
    requires
        has_room(f, 4),
    ensures
        ({
            let g = with_longs(f, a, b);
            &&& spec_step(g, Op::LAdd) == Some((gave(g, f.top, long_value(a.wrapping_add(b)), 2), Flow::Continue))
            &&& spec_step(g, Op::LSub) == Some((gave(g, f.top, long_value(a.wrapping_sub(b)), 2), Flow::Continue))
            &&& spec_step(g, Op::LMul) == Some((gave(g, f.top, long_value(a.wrapping_mul(b)), 2), Flow::Continue))
            &&& spec_step(g, Op::LAnd) == Some((gave(g, f.top, long_value(a & b), 2), Flow::Continue))
            &&& spec_step(g, Op::LOr) == Some((gave(g, f.top, long_value(a | b), 2), Flow::Continue))
            &&& spec_step(g, Op::LXor) == Some((gave(g, f.top, long_value(a ^ b), 2), Flow::Continue))
        }),
{
    lemma_two_longs(f, a, b);
    assert(b.wrapping_add(a) == a.wrapping_add(b));
    assert(b.wrapping_mul(a) == a.wrapping_mul(b)) by (nonlinear_arith);
    assert(b & a == a & b) by (bit_vector);
    assert(b | a == a | b) by (bit_vector);
    assert(b ^ a == a ^ b) by (bit_vector);
}

/// Without overflow, `ladd`, `lsub` and `lmul` give the exact sum,
/// difference and product of `value1` and `value2`, in that order: `5 - 3`
/// is `2`.
pub proof fn lemma_long_arithmetic_exact(f: SpecFrame, a: i64, b: i64)
    requires
        has_room(f, 4),
    ensures
        ({
            let g = with_longs(f, a, b);
            &&& i64::MIN <= a + b <= i64::MAX ==> spec_step(g, Op::LAdd) == Some(
                (gave(g, f.top, long_value((a + b) as i64), 2), Flow::Continue),
            )
            &&& i64::MIN <= a - b <= i64::MAX ==> spec_step(g, Op::LSub) == Some(
                (gave(g, f.top, long_value((a - b) as i64), 2), Flow::Continue),
            )
            &&& i64::MIN <= a * b <= i64::MAX ==> spec_step(g, Op::LMul) == Some(
                (gave(g, f.top, long_value((a * b) as i64), 2), Flow::Continue),
            )
        }),
{
    lemma_long_arithmetic(f, a, b);
}

/// The `long` shifts: `lshl`, `lshr` and `lushr` shift the `long` `a` by
/// the low six bits of the `int` `s` on top of it.
pub proof fn lemma_long_shifts(f: SpecFrame, a: i64, s: i32)
    requires
        has_room(f, 3),
    ensures
        ({
            let g = with_long_int(f, a, s);
            &&& spec_step(g, Op::LShl) == Some(
                (gave(g, f.top, long_value(a.wrapping_shl((s & 0x3f) as u32)), 2), Flow::Continue),
            )
            &&& spec_step(g, Op::LShr) == Some(
                (gave(g, f.top, long_value(a.wrapping_shr((s & 0x3f) as u32)), 2), Flow::Continue),
            )
            &&& spec_step(g, Op::LUshr) == Some(
                (gave(g, f.top, long_value(((a as u64) >> ((s & 0x3f) as u64)) as i64), 2), Flow::Continue),
            )
        }),
{
    lemma_long_int(f, a, s);
}


/// `idiv` and `irem` divide `value1` (`a`) by `value2` (`b`), the
/// quotient rounded toward zero and the remainder taking the sign of `a`:
/// `7 / 2` is `3` remainder `1`, `-7 / 2` is `-3` remainder `-1`. A zero
/// divisor throws `ArithmeticException` with both operands popped;
/// `MIN / -1` wraps to `MIN` with remainder `0`.
pub proof fn lemma_int_division(f: SpecFrame, a: i32, b: i32)
    requires
        has_room(f, 2),
    ensures
        ({
            let g = with_ints(f, a, b);
            &&& b == 0 ==> spec_step(g, Op::IDiv) == Some(
                (went_to(g, f.top, g.ip), Flow::Throw(BuiltinException::ArithmeticException)),
            ) && spec_step(g, Op::IRem) == Some(
                (went_to(g, f.top, g.ip), Flow::Throw(BuiltinException::ArithmeticException)),
            )
            &&& (a == i32::MIN && b == -1) ==> spec_step(g, Op::IDiv) == Some(
                (gave(g, f.top, int_value(i32::MIN), 1), Flow::Continue),
            ) && spec_step(g, Op::IRem) == Some((gave(g, f.top, int_value(0), 1), Flow::Continue))
            &&& (a >= 0 && b > 0) ==> spec_step(g, Op::IDiv) == Some(
                (gave(g, f.top, int_value((a / b) as i32), 1), Flow::Continue),
            ) && spec_step(g, Op::IRem) == Some((gave(g, f.top, int_value((a % b) as i32), 1), Flow::Continue))
            &&& (a < 0 && b > 0) ==> spec_step(g, Op::IDiv) == Some(
                (gave(g, f.top, int_value((-((-(a as int)) / (b as int))) as i32), 1), Flow::Continue),
            ) && spec_step(g, Op::IRem) == Some(
                (gave(g, f.top, int_value((-((-(a as int)) % (b as int))) as i32), 1), Flow::Continue),
            )
        }),
{
    lemma_two_ints(f, a, b);
    let g = with_ints(f, a, b);
    if a == i32::MIN && b == -1 {
        assert(java_idiv(a, b) == i32::MIN);
        assert(java_irem(a, b) == 0);
    } else if a >= 0 && b > 0 {
        if a == 0 {
            vstd::arithmetic::div_mod::lemma_small_mod(0nat, b as nat);
            vstd::arithmetic::div_mod::lemma_basic_div(0int, b as int);
        }
        assert(java_idiv(a, b) == (a / b) as i32);
        assert(java_irem(a, b) == (a % b) as i32);
    } else if a < 0 && b > 0 {
        assert(java_idiv(a, b) == (-((-(a as int)) / (b as int))) as i32);
        assert(java_irem(a, b) == (-((-(a as int)) % (b as int))) as i32);
    }
}

/// `ldiv` and `lrem` divide `value1` (`a`) by `value2` (`b`) as `idiv`
/// and `irem` do, on `long`s.
pub proof fn lemma_long_division(f: SpecFrame, a: i64, b: i64)
    requires
        has_room(f, 4),
    ensures
        ({
            let g = with_longs(f, a, b);
            &&& b == 0 ==> spec_step(g, Op::LDiv) == Some(
                (went_to(g, f.top, g.ip), Flow::Throw(BuiltinException::ArithmeticException)),
            ) && spec_step(g, Op::LRem) == Some(
                (went_to(g, f.top, g.ip), Flow::Throw(BuiltinException::ArithmeticException)),
            )
            &&& (a == i64::MIN && b == -1) ==> spec_step(g, Op::LDiv) == Some(
                (gave(g, f.top, long_value(i64::MIN), 2), Flow::Continue),
            ) && spec_step(g, Op::LRem) == Some((gave(g, f.top, long_value(0), 2), Flow::Continue))
            &&& (a >= 0 && b > 0) ==> spec_step(g, Op::LDiv) == Some(
                (gave(g, f.top, long_value((a / b) as i64), 2), Flow::Continue),
            ) && spec_step(g, Op::LRem) == Some((gave(g, f.top, long_value((a % b) as i64), 2), Flow::Continue))
            &&& (a < 0 && b > 0) ==> spec_step(g, Op::LDiv) == Some(
                (gave(g, f.top, long_value((-((-(a as int)) / (b as int))) as i64), 2), Flow::Continue),
            ) && spec_step(g, Op::LRem) == Some(
                (gave(g, f.top, long_value((-((-(a as int)) % (b as int))) as i64), 2), Flow::Continue),
            )
        }),
{
    lemma_two_longs(f, a, b);
    if a == i64::MIN && b == -1 {
        assert(java_ldiv(a, b) == i64::MIN);
        assert(java_lrem(a, b) == 0);
    } else if a >= 0 && b > 0 {
        if a == 0 {
            vstd::arithmetic::div_mod::lemma_small_mod(0nat, b as nat);
            vstd::arithmetic::div_mod::lemma_basic_div(0int, b as int);
        }
        assert(java_ldiv(a, b) == (a / b) as i64);
        assert(java_lrem(a, b) == (a % b) as i64);
    } else if a < 0 && b > 0 {
        assert(java_ldiv(a, b) == (-((-(a as int)) / (b as int))) as i64);
        assert(java_lrem(a, b) == (-((-(a as int)) % (b as int))) as i64);
    }
}

/// `ineg` and `lneg` negate (wrapping); `i2l` widens with the sign,
/// `l2i` keeps the low 32 bits, and `i2b`, `i2c`, `i2s` keep the low 8
/// (signed), 16 (unsigned) and 16 (signed) bits.
pub proof fn lemma_conversions(f: SpecFrame, a: i32, l: i64)
    requires
        has_room(f, 2),
    ensures
        ({
            let g = pushed(f, int_value(a));
            let w = pushed_wide(f, long_value(l));
            &&& spec_step(g, Op::INeg) == Some((gave(g, f.top, int_value(0i32.wrapping_sub(a)), 1), Flow::Continue))
            &&& spec_step(w, Op::LNeg) == Some((gave(w, f.top, long_value(0i64.wrapping_sub(l)), 2), Flow::Continue))
            &&& spec_step(g, Op::I2L) == Some((gave(g, f.top, long_value(a as i64), 2), Flow::Continue))
            &&& spec_step(w, Op::L2I) == Some((gave(w, f.top, int_value(l as i32), 1), Flow::Continue))
            &&& spec_step(g, Op::I2B) == Some((gave(g, f.top, int_value((a as i8) as i32), 1), Flow::Continue))
            &&& spec_step(g, Op::I2C) == Some((gave(g, f.top, int_value((a as u16) as i32), 1), Flow::Continue))
            &&& spec_step(g, Op::I2S) == Some((gave(g, f.top, int_value((a as i16) as i32), 1), Flow::Continue))
            &&& (a != i32::MIN ==> spec_step(g, Op::INeg) == Some(
                (gave(g, f.top, int_value((-a) as i32), 1), Flow::Continue),
            ))
        }),
{
    lemma_int_round_trip(a);
    lemma_long_round_trip(l);
}

/// `lcmp` pushes `1` when `value1` (`a`) is greater than `value2` (`b`),
/// `0` when they are equal, and `-1` when it is less.
pub proof fn lemma_long_compare(f: SpecFrame, a: i64, b: i64)
    requires
        has_room(f, 4),
    ensures
        ({
            let g = with_longs(f, a, b);
            &&& a > b ==> spec_step(g, Op::LCmp) == Some((gave(g, f.top, int_value(1), 1), Flow::Continue))
            &&& a == b ==> spec_step(g, Op::LCmp) == Some((gave(g, f.top, int_value(0), 1), Flow::Continue))
            &&& a < b ==> spec_step(g, Op::LCmp) == Some((gave(g, f.top, int_value(-1i32), 1), Flow::Continue))
        }),
{
    lemma_two_longs(f, a, b);
}

/// The branches on one `int`: `ifeq`, `ifne`, `iflt`, `ifge`, `ifgt` and
/// `ifle` pop `value` (`a`) and go to `t` when it compares with `0` as
/// their names say, else to the next op.
pub proof fn lemma_int_branches(f: SpecFrame, a: i32, t: usize)
    requires
        has_room(f, 1),
    ensures
        ({
            let g = pushed(f, int_value(a));
            let to = |c: bool| Some((went_to(g, f.top, if c { t as int } else { g.ip + 1 }), Flow::Continue));
            &&& spec_step(g, Op::IfEq(t)) == to(a == 0)
            &&& spec_step(g, Op::IfNe(t)) == to(a != 0)
            &&& spec_step(g, Op::IfLt(t)) == to(a < 0)
            &&& spec_step(g, Op::IfGe(t)) == to(a >= 0)
            &&& spec_step(g, Op::IfGt(t)) == to(a > 0)
            &&& spec_step(g, Op::IfLe(t)) == to(a <= 0)
        }),
{
    lemma_int_round_trip(a);
}

/// The branches on two `int`s: `if_icmpeq` to `if_icmple` pop `value1`
/// (`a`) and `value2` (`b`) and go to `t` when `a` compares with `b` as
/// their names say, else to the next op.
pub proof fn lemma_int_compare_branches(f: SpecFrame, a: i32, b: i32, t: usize)
    requires
        has_room(f, 2),
    ensures
        ({
            let g = with_ints(f, a, b);
            let to = |c: bool| Some((went_to(g, f.top, if c { t as int } else { g.ip + 1 }), Flow::Continue));
            &&& spec_step(g, Op::IfICmpEq(t)) == to(a == b)
            &&& spec_step(g, Op::IfICmpNe(t)) == to(a != b)
            &&& spec_step(g, Op::IfICmpLt(t)) == to(a < b)
            &&& spec_step(g, Op::IfICmpGe(t)) == to(a >= b)
            &&& spec_step(g, Op::IfICmpGt(t)) == to(a > b)
            &&& spec_step(g, Op::IfICmpLe(t)) == to(a <= b)
        }),
{
    lemma_two_ints(f, a, b);
}

/// The branches on references: `if_acmpeq` and `if_acmpne` go to `t` when
/// the two references are (are not) the same object or both `null`;
/// `ifnull` and `ifnonnull` when the reference is (is not) `null`.
pub proof fn lemma_reference_branches(f: SpecFrame, x: Option<u64>, y: Option<u64>, t: usize)
    requires
        has_room(f, 2),
    ensures
        ({
            let g = pushed(pushed(f, Value::Reference(x)), Value::Reference(y));
            let h = pushed(f, Value::Reference(x));
            let to2 = |c: bool| Some((went_to(g, f.top, if c { t as int } else { g.ip + 1 }), Flow::Continue));
            let to1 = |c: bool| Some((went_to(h, f.top, if c { t as int } else { h.ip + 1 }), Flow::Continue));
            &&& spec_step(g, Op::IfACmpEq(t)) == to2(x == y)
            &&& spec_step(g, Op::IfACmpNe(t)) == to2(x != y)
            &&& spec_step(h, Op::IfNull(t)) == to1(x is None)
            &&& spec_step(h, Op::IfNonNull(t)) == to1(x is Some)
        }),
{
}

/// The stack shuffles on one-slot values `x` (deeper) and `y` (top), and
/// `w` below them: `dup`, `dup_x1`, `dup_x2`, `dup2`, `swap`, `pop` and
/// `pop2` leave the values as the JVM specification lists them.
pub proof fn lemma_runtime_shuffles(f: SpecFrame, w: Value, x: Value, y: Value)
    requires
        has_room(f, 7),
    ensures
        ({
            let g = pushed(pushed(pushed(f, w), x), y);
            let n = f.top;
            let after = |vs: Seq<Value>| Some((
                SpecFrame { slots: g.slots.update_subrange_with(n, vs), top: n + vs.len(), ip: g.ip + 1, local_count: g.local_count },
                Flow::Continue,
            ));
            &&& spec_step(g, Op::Dup) == after(seq![w, x, y, y])
            &&& spec_step(g, Op::DupX1) == after(seq![w, y, x, y])
            &&& spec_step(g, Op::DupX2) == after(seq![y, w, x, y])
            &&& spec_step(g, Op::Dup2) == after(seq![w, x, y, x, y])
            &&& spec_step(g, Op::Swap) == after(seq![w, y, x])
            &&& spec_step(g, Op::Pop) == Some((went_to(g, n + 2, g.ip + 1), Flow::Continue))
            &&& spec_step(g, Op::Pop2) == Some((went_to(g, n + 1, g.ip + 1), Flow::Continue))
        }),
{
    let g = pushed(pushed(pushed(f, w), x), y);
    let n = f.top;
    assert(g.slots[n] == w);
    assert(g.slots[n + 1] == x);
    assert(g.slots[n + 2] == y);
    assert(g.slots.update_subrange_with(n + 2, seq![y, y]) =~= g.slots.update_subrange_with(n, seq![w, x, y, y]));
    assert(g.slots.update_subrange_with(n + 1, seq![y, x, y]) =~= g.slots.update_subrange_with(n, seq![w, y, x, y]));
    assert(g.slots.update_subrange_with(n, seq![y, w, x, y]) =~= g.slots.update_subrange_with(n, seq![y, w, x, y]));
    assert(g.slots.update_subrange_with(n + 1, seq![x, y, x, y]) =~= g.slots.update_subrange_with(n, seq![w, x, y, x, y]));
    assert(g.slots.update_subrange_with(n + 1, seq![y, x]) =~= g.slots.update_subrange_with(n, seq![w, y, x]));
}


// ---------------------------------------------------------------------------
// Exception handlers
// ---------------------------------------------------------------------------

/// Handler `e` covers the op at `ip`.
pub open spec fn covers(e: Exception, ip: int) -> bool {
    e.start <= ip < e.end
}

/// Handler `e` catches an exception of class `thrown`: it names no class,
/// or it names a class of the table that is `thrown` or a superclass of it.
pub open spec fn handler_catches(t: Seq<SpecClass>, e: Exception, thrown: int) -> bool {
    match e.catch_class {
        None => true,
        Some(name) => match class_named(t, name@) {
            Some(d) => thrown == d || has_ancestor(t, thrown, d as int),
            None => false,
        },
    }
}

/// The handler found from the `k`-th on is the first there that covers
/// `ip` and catches the exception.
proof fn lemma_handler_from(t: Seq<SpecClass>, exc: Seq<Exception>, thrown: int, ip: int, k: int)
    requires
        0 <= k,
    ensures
        match handler_from(exc, catches_of(t, exc, thrown), ip, k) {
            Some(i) => k <= i < exc.len() && covers(exc[i], ip) && handler_catches(t, exc[i], thrown) && forall|j: int|
                k <= j < i ==> !(covers(exc[j], ip) && handler_catches(t, exc[j], thrown)),
            None => forall|j: int| k <= j < exc.len() ==> !(covers(exc[j], ip) && handler_catches(t, exc[j], thrown)),
        },
    decreases exc.len() - k,
{
    if k < exc.len() {
        lemma_handler_from(t, exc, thrown, ip, k + 1);
    }
}

/// The handler an exception of class `thrown`, thrown at `ip`, goes to is
/// the first in the table that covers `ip` and names no class, the thrown
/// class, or a superclass of it; there is none when no handler does.
pub proof fn lemma_first_catching_handler(t: Seq<SpecClass>, exc: Seq<Exception>, thrown: int, ip: int)
    ensures
        match handler_from(exc, catches_of(t, exc, thrown), ip, 0) {
            Some(i) => 0 <= i < exc.len() && covers(exc[i], ip) && handler_catches(t, exc[i], thrown) && forall|j: int|
                0 <= j < i ==> !(covers(exc[j], ip) && handler_catches(t, exc[j], thrown)),
            None => forall|j: int| 0 <= j < exc.len() ==> !(covers(exc[j], ip) && handler_catches(t, exc[j], thrown)),
        },
{
    lemma_handler_from(t, exc, thrown, ip, 0);
}

/// A handler that covers `ip` and names a superclass of the thrown class
/// (or that class) catches the exception, unless an earlier handler does.
pub proof fn lemma_superclass_handler_catches(t: Seq<SpecClass>, exc: Seq<Exception>, thrown: int, ip: int, i: int, d: usize)
    requires
        0 <= i < exc.len(),
        covers(exc[i], ip),
        exc[i].catch_class matches Some(name) && class_named(t, name@) == Some(d),
        thrown == d || has_ancestor(t, thrown, d as int),
    ensures
        handler_from(exc, catches_of(t, exc, thrown), ip, 0) matches Some(k) && k <= i,
{
    lemma_first_catching_handler(t, exc, thrown, ip);
}

/// A handler with no class that covers `ip` catches every exception, unless
/// an earlier handler does; a handler that does not cover `ip`, or that
/// names a class of the table that is neither the thrown class nor one of
/// its superclasses, is never the one entered.
pub proof fn lemma_handler_choice(t: Seq<SpecClass>, exc: Seq<Exception>, thrown: int, ip: int, i: int)
    requires
        0 <= i < exc.len(),
    ensures
        (covers(exc[i], ip) && exc[i].catch_class is None) ==> (handler_from(exc, catches_of(t, exc, thrown), ip, 0)
            matches Some(k) && k <= i),
        !(exc[i].start <= ip < exc[i].end) ==> handler_from(exc, catches_of(t, exc, thrown), ip, 0) != Some(i),
        (exc[i].catch_class matches Some(name) && class_named(t, name@) matches Some(d) && thrown != d
            && !has_ancestor(t, thrown, d as int)) ==> handler_from(exc, catches_of(t, exc, thrown), ip, 0) != Some(i),
{
    lemma_first_catching_handler(t, exc, thrown, ip);
}

/// Entering a handler: the next op is the handler's first, the stack holds
/// just the exception, and the locals are kept.
pub proof fn lemma_entered_handler(f: SpecFrame, target: usize, o: u64)
    requires
        0 <= f.local_count < f.slots.len(),
    ensures
        entered(f, target, o).ip == target,
        entered(f, target, o).top == f.local_count + 1,
        entered(f, target, o).slots[f.local_count] == Value::Reference(Some(o)),
        entered(f, target, o).slots.len() == f.slots.len(),
        forall|i: int| 0 <= i < f.local_count ==> #[trigger] entered(f, target, o).slots[i] == f.slots[i],
{
}

// ---------------------------------------------------------------------------
// Casts
// ---------------------------------------------------------------------------

/// `checkcast` lets `null` through, stack and heap as they were, and
/// `instanceof` of `null` is `0`, whatever class is named.
pub proof fn lemma_cast_of_null(f: SpecFrame, h: Seq<SpecObject>, t: Seq<SpecClass>, name: JvmString)
    requires
        has(f, 1),
        below(f, 1) == Value::Reference(None),
        class_named(t, name@) is Some,
    ensures
        spec_heap_step(f, h, t, Op::CheckCast(name)) == Some((SpecFrame { ip: f.ip + 1, ..f }, h, Flow::Continue)),
        spec_heap_step(f, h, t, Op::InstanceOf(name)) == Some((gave(f, f.top - 1, int_value(0), 1), h, Flow::Continue)),
{
}

/// `checkcast` and `instanceof` of an object whose class `c` is the named
/// class `d` or a subclass of it (not both arrays): the cast goes through,
/// the test gives `1`. An object of a class that is not an array, not `d`,
/// not below it and does not implement it: the cast throws
/// `ClassCastException` (its operand popped), the test gives `0`.
pub proof fn lemma_cast_of_object(f: SpecFrame, h: Seq<SpecObject>, t: Seq<SpecClass>, name: JvmString, o: u64, d: usize)
    requires
        has(f, 1),
        below(f, 1) == Value::Reference(Some(o)),
        o < h.len(),
        h[o as int].class < t.len(),
        class_named(t, name@) == Some(d),
        d < t.len(),
    ensures
        ({
            let c = h[o as int].class;
            &&& ((c == d && t[c as int].array_value is None) || (has_ancestor(t, c as int, d as int)
                && t[d as int].array_value is None)) ==> {
                &&& spec_heap_step(f, h, t, Op::CheckCast(name)) == Some(
                    (SpecFrame { ip: f.ip + 1, ..f }, h, Flow::Continue),
                )
                &&& spec_heap_step(f, h, t, Op::InstanceOf(name)) == Some(
                    (gave(f, f.top - 1, int_value(1), 1), h, Flow::Continue),
                )
            }
            &&& (t[c as int].array_value is None && c != d && !has_ancestor(t, c as int, d as int)
                && !t[c as int].all_interfaces.contains(d)) ==> {
                &&& spec_heap_step(f, h, t, Op::CheckCast(name)) == Some(
                    (went_to(f, f.top - 1, f.ip), h, Flow::Throw(BuiltinException::ClassCastException)),
                )
                &&& spec_heap_step(f, h, t, Op::InstanceOf(name)) == Some(
                    (gave(f, f.top - 1, int_value(0), 1), h, Flow::Continue),
                )
            }
        }),
{
}

// ---------------------------------------------------------------------------
// Constants, locals, switches and returns
// ---------------------------------------------------------------------------

/// `aconst_null`, `iconst_<i>`/`bipush`/`sipush` and `lconst_<l>` push the
/// constant they carry on top of the stack (a `long` in two slots), the
/// slots below untouched.
pub proof fn lemma_constants(f: SpecFrame, v: i32, l: i8)
    requires
        has_room(f, 2),
    ensures
        ({
            let (g, flow) = spec_step(f, Op::IConst(v))->0;
            &&& spec_step(f, Op::IConst(v)) is Some && flow == Flow::Continue
            &&& g.top == f.top + 1 && g.ip == f.ip + 1 && int_at(g, 1) == v
            &&& forall|i: int| 0 <= i < f.top ==> #[trigger] g.slots[i] == f.slots[i]
        }),
        ({
            let (g, flow) = spec_step(f, Op::LConst(l))->0;
            &&& spec_step(f, Op::LConst(l)) is Some && flow == Flow::Continue
            &&& g.top == f.top + 2 && g.ip == f.ip + 1 && long_at(g, 2) == l as i64
            &&& forall|i: int| 0 <= i < f.top ==> #[trigger] g.slots[i] == f.slots[i]
        }),
        ({
            let (g, flow) = spec_step(f, Op::AConstNull)->0;
            &&& spec_step(f, Op::AConstNull) is Some && flow == Flow::Continue
            &&& g.top == f.top + 1 && g.ip == f.ip + 1 && below(g, 1) == Value::Reference(None)
        }),
{
    lemma_int_round_trip(v);
    lemma_long_round_trip(l as i64);
}

/// A value stored into a local below the stack's top by `istore` (`lstore`)
/// comes back on top of the stack by `iload` (`lload`) of the same local.
pub proof fn lemma_local_round_trip(f: SpecFrame, a: i32, l: i64, i: usize)
    requires
        has_room(f, 2),
        i < f.top,
    ensures
        ({
            let g = pushed(f, int_value(a));
            let (g1, flow1) = spec_step(g, Op::IStore(i))->0;
            let (g2, flow2) = spec_step(g1, Op::ILoad(i))->0;
            &&& spec_step(g, Op::IStore(i)) is Some && flow1 == Flow::Continue
            &&& g1.top == f.top && g1.slots[i as int] == int_value(a)
            &&& spec_step(g1, Op::ILoad(i)) is Some && flow2 == Flow::Continue
            &&& g2.top == f.top + 1 && int_at(g2, 1) == a && g2.ip == f.ip + 2
        }),
        ({
            let g = pushed_wide(f, long_value(l));
            let (g1, flow1) = spec_step(g, Op::LStore(i))->0;
            let (g2, flow2) = spec_step(g1, Op::LLoad(i))->0;
            &&& spec_step(g, Op::LStore(i)) is Some && flow1 == Flow::Continue
            &&& g1.top == f.top && g1.slots[i as int] == long_value(l)
            &&& spec_step(g1, Op::LLoad(i)) is Some && flow2 == Flow::Continue
            &&& g2.top == f.top + 2 && long_at(g2, 2) == l && g2.ip == f.ip + 2
        }),
{
    lemma_int_round_trip(a);
    lemma_long_round_trip(l);
}

/// `iinc` adds its constant (wrapping) to the `int` in its local, and
/// leaves the stack and the other locals as they were.
pub proof fn lemma_iinc(f: SpecFrame, i: usize, a: i32, c: i32)
    requires
        i < f.slots.len(),
        f.slots[i as int] == int_value(a),
    ensures
        ({
            let (g, flow) = spec_step(f, Op::IInc(i, c))->0;
            &&& spec_step(f, Op::IInc(i, c)) is Some && flow == Flow::Continue
            &&& int_of(g.slots[i as int]) == a.wrapping_add(c) && g.slots[i as int] is Primitive
            &&& g.top == f.top && g.ip == f.ip + 1 && g.slots.len() == f.slots.len()
            &&& forall|j: int| 0 <= j < f.slots.len() && j != i ==> #[trigger] g.slots[j] == f.slots[j]
        }),
{
    lemma_int_round_trip(a);
    lemma_int_round_trip(a.wrapping_add(c));
}

/// `tableswitch` on the `int` `v` pops it and goes to the target listed for
/// `v` when `low <= v < low + n` (`n` targets), else to the default.
pub proof fn lemma_table_switch(f: SpecFrame, v: i32, info: Box<TableSwitchInfo>)
    requires
        has_room(f, 1),
    ensures
        ({
            let g = pushed(f, int_value(v));
            let (g1, flow) = spec_step(g, Op::TableSwitch(info))->0;
            &&& spec_step(g, Op::TableSwitch(info)) is Some && flow == Flow::Continue
            &&& g1.top == f.top
            &&& (info.low_int <= v && v - info.low_int < info.matches@.len()) ==> g1.ip == info.matches@[v - info.low_int]
            &&& !(info.low_int <= v && v - info.low_int < info.matches@.len()) ==> g1.ip == info.default_offset
        }),
{
    lemma_int_round_trip(v);
}

/// The `lookupswitch` target of `v` is that of the first pair whose value
/// is `v`, and the default where no pair has it.
proof fn lemma_lookup_target(matches: Seq<(i32, usize)>, v: i32, default: usize, j: int)
    requires
        j == -1 || (0 <= j < matches.len() && matches[j].0 == v),
        forall|k: int| 0 <= k < matches.len() && (j == -1 || k < j) ==> #[trigger] matches[k].0 != v,
    ensures
        j == -1 ==> lookup_target(matches, v, default) == default,
        j != -1 ==> lookup_target(matches, v, default) == matches[j].1,
    decreases matches.len(),
{
    if matches.len() > 0 {
        if j == -1 || j > 0 {
            let rest = matches.drop_first();
            assert forall|k: int| 0 <= k < rest.len() && (j - 1 == -1 || k < j - 1) implies #[trigger] rest[k].0 != v by {
                assert(rest[k] == matches[k + 1]);
            }
            if j == -1 {
                assert(matches[0].0 != v);
                assert forall|k: int| 0 <= k < rest.len() implies #[trigger] rest[k].0 != v by {
                    assert(rest[k] == matches[k + 1]);
                }
                lemma_lookup_target(rest, v, default, -1);
            } else {
                assert(matches[0].0 != v);
                assert(rest[j - 1] == matches[j]);
                lemma_lookup_target(rest, v, default, j - 1);
            }
        }
    }
}

/// `lookupswitch` on the `int` `v` pops it and goes to the target of the
/// first pair whose value is `v`, or to the default where none has it.
pub proof fn lemma_lookup_switch(f: SpecFrame, v: i32, info: Box<LookupSwitchInfo>, j: int)
    requires
        has_room(f, 1),
        j == -1 || (0 <= j < info.matches@.len() && info.matches@[j].0 == v),
        forall|k: int| 0 <= k < info.matches@.len() && (j == -1 || k < j) ==> #[trigger] info.matches@[k].0 != v,
    ensures
        ({
            let g = pushed(f, int_value(v));
            let (g1, flow) = spec_step(g, Op::LookupSwitch(info))->0;
            &&& spec_step(g, Op::LookupSwitch(info)) is Some && flow == Flow::Continue
            &&& g1.top == f.top
            &&& j == -1 ==> g1.ip == info.default_offset
            &&& j != -1 ==> g1.ip == info.matches@[j].1
        }),
{
    lemma_int_round_trip(v);
    lemma_lookup_target(info.matches@, v, info.default_offset, j);
}

/// `ireturn` and `lreturn` hand back the value on top and pop it; `return`
/// hands back nothing.
pub proof fn lemma_returns(f: SpecFrame, a: i32, l: i64)
    requires
        has_room(f, 2),
    ensures
        ({
            let g = pushed(f, int_value(a));
            let (g1, flow) = spec_step(g, Op::IReturn)->0;
            &&& spec_step(g, Op::IReturn) is Some && g1.top == f.top
            &&& flow == Flow::Return(Some(int_value(a))) && int_of(int_value(a)) == a
        }),
        ({
            let g = pushed_wide(f, long_value(l));
            let (g1, flow) = spec_step(g, Op::LReturn)->0;
            &&& spec_step(g, Op::LReturn) is Some && g1.top == f.top
            &&& flow == Flow::Return(Some(long_value(l))) && long_of(long_value(l)) == l
        }),
        spec_step(f, Op::Return) == Some((f, Flow::Return(None))),
{
    lemma_int_round_trip(a);
    lemma_long_round_trip(l);
}

// ---------------------------------------------------------------------------
// Arrays
// ---------------------------------------------------------------------------

/// `iaload` and `iastore` on the array `r` at index `i`: on `null` they throw
/// `NullPointerException`, at an index outside an `int` array they throw
/// `ArrayIndexOutOfBoundsException` (both with their operands popped and the
/// heap as it was); inside it `iaload` pushes the element and `iastore`
/// sets it to `v`, leaving the other elements and objects as they were.
pub proof fn lemma_int_array_access(f: SpecFrame, h: Seq<SpecObject>, t: Seq<SpecClass>, r: Option<u64>, i: i32, v: i32)
    requires
        has_room(f, 3),
    ensures
        ({
            let g = pushed(pushed(f, Value::Reference(r)), int_value(i));
            let gs = pushed(g, int_value(v));
            &&& r is None ==> spec_heap_step(g, h, t, Op::IaLoad) == Some(
                (went_to(g, f.top, g.ip), h, Flow::Throw(BuiltinException::NullPointerException)),
            )
            &&& r is None ==> spec_heap_step(gs, h, t, Op::IaStore) == Some(
                (went_to(gs, f.top, gs.ip), h, Flow::Throw(BuiltinException::NullPointerException)),
            )
            &&& (r matches Some(id) && is_array(h, id, ArrayKind::Int) && (i < 0 || i >= array_of(h, id).elements.len()))
                ==> {
                &&& spec_heap_step(g, h, t, Op::IaLoad) == Some(
                    (went_to(g, f.top, g.ip), h, Flow::Throw(BuiltinException::ArrayIndexOutOfBoundsException)),
                )
                &&& spec_heap_step(gs, h, t, Op::IaStore) == Some(
                    (went_to(gs, f.top, gs.ip), h, Flow::Throw(BuiltinException::ArrayIndexOutOfBoundsException)),
                )
            }
            &&& (r matches Some(id) && is_array(h, id, ArrayKind::Int) && 0 <= i < array_of(h, id).elements.len())
                ==> {
                let id = r->0;
                let (g1, h1, flow1) = spec_heap_step(g, h, t, Op::IaLoad)->0;
                let (g2, h2, flow2) = spec_heap_step(gs, h, t, Op::IaStore)->0;
                &&& spec_heap_step(g, h, t, Op::IaLoad) is Some && flow1 == Flow::Continue && h1 == h
                &&& g1.top == f.top + 1 && g1.ip == f.ip + 1 && below(g1, 1) == array_of(h, id).elements[i as int]
                &&& spec_heap_step(gs, h, t, Op::IaStore) is Some && flow2 == Flow::Continue
                &&& g2.top == f.top && g2.ip == f.ip + 1 && h2.len() == h.len()
                &&& array_of(h2, id).elements.len() == array_of(h, id).elements.len()
                &&& array_of(h2, id).elements[i as int] == int_value(v)
                &&& forall|j: int| 0 <= j < array_of(h, id).elements.len() && j != i
                    ==> #[trigger] array_of(h2, id).elements[j] == array_of(h, id).elements[j]
                &&& forall|o: int| 0 <= o < h.len() && o != id ==> #[trigger] h2[o] == h[o]
            }
        }),
{
    lemma_int_round_trip(i);
    lemma_int_round_trip(v);
    let g = pushed(pushed(f, Value::Reference(r)), int_value(i));
    let gs = pushed(g, int_value(v));
    assert(below(g, 2) == Value::Reference(r));
    assert(below(gs, 3) == Value::Reference(r));
    assert(int_at(gs, 2) == i);
}

/// `arraylength` of `null` throws `NullPointerException`; of an array it
/// pushes the number of its elements. `newarray` of a negative length
/// throws `NegativeArraySizeException`, its operand popped.
pub proof fn lemma_array_length_and_size(f: SpecFrame, h: Seq<SpecObject>, t: Seq<SpecClass>, r: Option<u64>, n: i32, at: ArrayType)
    requires
        has_room(f, 1),
    ensures
        ({
            let g = pushed(f, Value::Reference(r));
            &&& r is None ==> spec_heap_step(g, h, t, Op::ArrayLength) == Some(
                (went_to(g, f.top, g.ip), h, Flow::Throw(BuiltinException::NullPointerException)),
            )
            &&& (r matches Some(id) && id < h.len() && h[id as int].array is Some) ==> {
                let (g1, h1, flow) = spec_heap_step(g, h, t, Op::ArrayLength)->0;
                &&& spec_heap_step(g, h, t, Op::ArrayLength) is Some && flow == Flow::Continue && h1 == h
                &&& g1.top == f.top + 1 && g1.ip == f.ip + 1
                &&& below(g1, 1) == int_value(array_of(h, r->0).elements.len() as i32)
            }
        }),
        n < 0 ==> spec_heap_step(pushed(f, int_value(n)), h, t, Op::NewArray(at)) == Some(
            (went_to(pushed(f, int_value(n)), f.top, f.ip), h, Flow::Throw(BuiltinException::NegativeArraySizeException)),
        ),
{
    lemma_int_round_trip(n);
}

} // verus!
