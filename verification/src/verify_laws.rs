//! What the verifier accepts and refuses, and the frame it then computes:
//! the stack-shuffling ops in each form the JVM specification lists (a
//! value of a one-slot type counts once, a `long` or `double` is one value
//! that takes two slots), the operand types of the other ops, the locals,
//! and the frame a method is entered with.
use vstd::prelude::*;

use crate::op::Op;
use crate::descriptor::SpecDescriptor;
use crate::verify::{
    kind_of, place_args, pop_each, shuffle, spec_entry_frame, spec_step, stack_effect, value_is_wide, AbstractFrame, ValueType,
    VerifyError,
};

verus! {

/// A value of a type that takes one slot.
pub open spec fn one_slot(v: ValueType) -> bool {
    !(v is Long) && !(v is Double)
}

/// A value of a type that takes two slots.
pub open spec fn two_slots(v: ValueType) -> bool {
    v is Long || v is Double
}

/// With one-slot values `x`, `y`, `z` and `u` on top of `s` (`u` on top,
/// in the order given), each shuffle is accepted where the stack has room,
/// and gives the stack the JVM specification gives.
pub proof fn lemma_one_slot_shuffles(s: Seq<ValueType>, x: ValueType, y: ValueType, z: ValueType, u: ValueType, max: nat)
    requires
        one_slot(x),
        one_slot(y),
        one_slot(z),
        one_slot(u),
        s.len() + 6 <= max,
    ensures
        shuffle(Op::Pop, s.push(x), max) == Ok::<Seq<ValueType>, VerifyError>(s),
        shuffle(Op::Pop2, s.push(x).push(y), max) == Ok::<Seq<ValueType>, VerifyError>(s),
        shuffle(Op::Dup, s.push(x), max) == Ok::<Seq<ValueType>, VerifyError>(s.push(x).push(x)),
        shuffle(Op::DupX1, s.push(x).push(y), max) == Ok::<Seq<ValueType>, VerifyError>(s.push(y).push(x).push(y)),
        shuffle(Op::DupX2, s.push(x).push(y).push(z), max) == Ok::<Seq<ValueType>, VerifyError>(
            s.push(z).push(x).push(y).push(z),
        ),
        shuffle(Op::Dup2, s.push(x).push(y), max) == Ok::<Seq<ValueType>, VerifyError>(
            s.push(x).push(y).push(x).push(y),
        ),
        shuffle(Op::Dup2X2, s.push(x).push(y).push(z).push(u), max) == Ok::<Seq<ValueType>, VerifyError>(
            s.push(z).push(u).push(x).push(y).push(z).push(u),
        ),
        shuffle(Op::Swap, s.push(x).push(y), max) == Ok::<Seq<ValueType>, VerifyError>(s.push(y).push(x)),
{
    reveal(shuffle);
    let s1 = s.push(x);
    let s2 = s.push(x).push(y);
    let s3 = s.push(x).push(y).push(z);
    let s4 = s.push(x).push(y).push(z).push(u);
    assert(s1.subrange(0, s1.len() - 1) =~= s);
    assert(s2.subrange(0, s2.len() - 2) =~= s);
    assert(s3.subrange(0, s3.len() - 3) =~= s);
    assert(s4.subrange(0, s4.len() - 4) =~= s);
    assert(s + seq![x, x] =~= s.push(x).push(x));
    assert(s + seq![y, x, y] =~= s.push(y).push(x).push(y));
    assert(s + seq![z, x, y, z] =~= s.push(z).push(x).push(y).push(z));
    assert(s + seq![x, y, x, y] =~= s.push(x).push(y).push(x).push(y));
    assert(s + seq![z, u, x, y, z, u] =~= s.push(z).push(u).push(x).push(y).push(z).push(u));
    assert(s + seq![y, x] =~= s.push(y).push(x));
}

/// With a two-slot value `w` (and one-slot values `x`, `y`) on top of `s`:
/// `pop2` pops `w` alone, `dup2` duplicates it, `dup_x2` puts a one-slot
/// value on top of it under `w`, and `dup2_x2` puts `w` under a two-slot
/// value or two one-slot values; `pop`, `dup`, `dup_x1` and `swap` refuse
/// a two-slot value on top.
pub proof fn lemma_two_slot_shuffles(s: Seq<ValueType>, w: ValueType, v: ValueType, x: ValueType, y: ValueType, max: nat)
    requires
        two_slots(w),
        two_slots(v),
        one_slot(x),
        one_slot(y),
        s.len() + 6 <= max,
    ensures
        shuffle(Op::Pop2, s.push(w), max) == Ok::<Seq<ValueType>, VerifyError>(s),
        shuffle(Op::Dup2, s.push(w), max) == Ok::<Seq<ValueType>, VerifyError>(s.push(w).push(w)),
        shuffle(Op::DupX2, s.push(w).push(x), max) == Ok::<Seq<ValueType>, VerifyError>(s.push(x).push(w).push(x)),
        shuffle(Op::Dup2X2, s.push(v).push(w), max) == Ok::<Seq<ValueType>, VerifyError>(s.push(w).push(v).push(w)),
        shuffle(Op::Dup2X2, s.push(x).push(y).push(w), max) == Ok::<Seq<ValueType>, VerifyError>(
            s.push(w).push(x).push(y).push(w),
        ),
        shuffle(Op::Dup2X2, s.push(w).push(x).push(y), max) == Ok::<Seq<ValueType>, VerifyError>(
            s.push(x).push(y).push(w).push(x).push(y),
        ),
        shuffle(Op::Pop, s.push(w), max) == Err::<Seq<ValueType>, VerifyError>(VerifyError::WrongType),
        shuffle(Op::Dup, s.push(w), max) == Err::<Seq<ValueType>, VerifyError>(VerifyError::WrongType),
        shuffle(Op::DupX1, s.push(x).push(w), max) == Err::<Seq<ValueType>, VerifyError>(VerifyError::WrongType),
        shuffle(Op::Swap, s.push(x).push(w), max) == Err::<Seq<ValueType>, VerifyError>(VerifyError::WrongType),
{
    reveal(shuffle);
    let s1 = s.push(w);
    let s2 = s.push(w).push(x);
    let s2b = s.push(v).push(w);
    let s3 = s.push(x).push(y).push(w);
    let s3b = s.push(w).push(x).push(y);
    let s2c = s.push(x).push(w);
    assert(s1.subrange(0, s1.len() - 1) =~= s);
    assert(s2.subrange(0, s2.len() - 2) =~= s);
    assert(s2b.subrange(0, s2b.len() - 2) =~= s);
    assert(s3.subrange(0, s3.len() - 3) =~= s);
    assert(s3b.subrange(0, s3b.len() - 3) =~= s);
    assert(s2c.subrange(0, s2c.len() - 2) =~= s);
    assert(s + seq![w, w] =~= s.push(w).push(w));
    assert(s + seq![x, w, x] =~= s.push(x).push(w).push(x));
    assert(s + seq![w, v, w] =~= s.push(w).push(v).push(w));
    assert(s + seq![w, x, y, w] =~= s.push(w).push(x).push(y).push(w));
    assert(s + seq![x, y, w, x, y] =~= s.push(x).push(y).push(w).push(x).push(y));
}


/// A frame of the verifier with locals `l` and stack `st`.
pub open spec fn frame_of(l: Seq<ValueType>, st: Seq<ValueType>) -> AbstractFrame {
    AbstractFrame { locals: l, stack: st }
}

/// The verifier takes `op` from stack `before` to stack `after`, the locals
/// kept.
pub open spec fn takes(op: Op, max: nat, l: Seq<ValueType>, before: Seq<ValueType>, after: Seq<ValueType>) -> bool {
    forall|i: int| #[trigger] spec_step(op, i, max, frame_of(l, before)) == Ok::<(AbstractFrame, Option<usize>), VerifyError>(
        (frame_of(l, after), None),
    )
}

/// The stack shuffles, run as steps of the verifier: `dup2` on two
/// one-slot values, `dup_x1` and `swap`.
pub proof fn lemma_shuffle_steps(l: Seq<ValueType>, s: Seq<ValueType>, x: ValueType, y: ValueType, max: nat)
    requires
        one_slot(x),
        one_slot(y),
        s.len() + 6 <= max,
    ensures
        takes(Op::Dup2, max, l, s.push(x).push(y), s.push(x).push(y).push(x).push(y)),
        takes(Op::DupX1, max, l, s.push(x).push(y), s.push(y).push(x).push(y)),
        takes(Op::Swap, max, l, s.push(x).push(y), s.push(y).push(x)),
{
    lemma_one_slot_shuffles(s, x, y, x, y, max);
}

/// The operand and result types the verifier gives the arithmetic, the
/// conversions, the comparisons and the array ops, as the JVM
/// specification lists them (the operands named deepest first).
pub proof fn lemma_typed_ops(l: Seq<ValueType>, s: Seq<ValueType>, max: nat)
    requires
        s.len() + 4 <= max,
    ensures
        ({
            let int_t = ValueType::Integer;
            let long_t = ValueType::Long;
            let ref_t = ValueType::Reference;
            &&& takes(Op::IAdd, max, l, s.push(int_t).push(int_t), s.push(int_t))
            &&& takes(Op::ISub, max, l, s.push(int_t).push(int_t), s.push(int_t))
            &&& takes(Op::IMul, max, l, s.push(int_t).push(int_t), s.push(int_t))
            &&& takes(Op::IDiv, max, l, s.push(int_t).push(int_t), s.push(int_t))
            &&& takes(Op::IRem, max, l, s.push(int_t).push(int_t), s.push(int_t))
            &&& takes(Op::IShl, max, l, s.push(int_t).push(int_t), s.push(int_t))
            &&& takes(Op::IShr, max, l, s.push(int_t).push(int_t), s.push(int_t))
            &&& takes(Op::IUshr, max, l, s.push(int_t).push(int_t), s.push(int_t))
            &&& takes(Op::IAnd, max, l, s.push(int_t).push(int_t), s.push(int_t))
            &&& takes(Op::IOr, max, l, s.push(int_t).push(int_t), s.push(int_t))
            &&& takes(Op::IXor, max, l, s.push(int_t).push(int_t), s.push(int_t))
            &&& takes(Op::LAdd, max, l, s.push(long_t).push(long_t), s.push(long_t))
            &&& takes(Op::LSub, max, l, s.push(long_t).push(long_t), s.push(long_t))
            &&& takes(Op::LMul, max, l, s.push(long_t).push(long_t), s.push(long_t))
            &&& takes(Op::LDiv, max, l, s.push(long_t).push(long_t), s.push(long_t))
            &&& takes(Op::LRem, max, l, s.push(long_t).push(long_t), s.push(long_t))
            &&& takes(Op::LAnd, max, l, s.push(long_t).push(long_t), s.push(long_t))
            &&& takes(Op::LOr, max, l, s.push(long_t).push(long_t), s.push(long_t))
            &&& takes(Op::LXor, max, l, s.push(long_t).push(long_t), s.push(long_t))
            &&& takes(Op::LShl, max, l, s.push(long_t).push(int_t), s.push(long_t))
            &&& takes(Op::LShr, max, l, s.push(long_t).push(int_t), s.push(long_t))
            &&& takes(Op::LUshr, max, l, s.push(long_t).push(int_t), s.push(long_t))
            &&& takes(Op::INeg, max, l, s.push(int_t), s.push(int_t))
            &&& takes(Op::LNeg, max, l, s.push(long_t), s.push(long_t))
            &&& takes(Op::I2L, max, l, s.push(int_t), s.push(long_t))
            &&& takes(Op::L2I, max, l, s.push(long_t), s.push(int_t))
            &&& takes(Op::I2B, max, l, s.push(int_t), s.push(int_t))
            &&& takes(Op::I2C, max, l, s.push(int_t), s.push(int_t))
            &&& takes(Op::I2S, max, l, s.push(int_t), s.push(int_t))
            &&& takes(Op::LCmp, max, l, s.push(long_t).push(long_t), s.push(int_t))
            &&& takes(Op::IaLoad, max, l, s.push(ref_t).push(int_t), s.push(int_t))
            &&& takes(Op::LaLoad, max, l, s.push(ref_t).push(int_t), s.push(long_t))
            &&& takes(Op::AaLoad, max, l, s.push(ref_t).push(int_t), s.push(ref_t))
            &&& takes(Op::IaStore, max, l, s.push(ref_t).push(int_t).push(int_t), s)
            &&& takes(Op::LaStore, max, l, s.push(ref_t).push(int_t).push(long_t), s)
            &&& takes(Op::AaStore, max, l, s.push(ref_t).push(int_t).push(ref_t), s)
            &&& takes(Op::ArrayLength, max, l, s.push(ref_t), s.push(int_t))
        }),
{
    reveal(stack_effect);
    let int_t = ValueType::Integer;
    let long_t = ValueType::Long;
    let ref_t = ValueType::Reference;
    lemma_pops2(s, int_t, int_t);
    lemma_pops2(s, long_t, long_t);
    lemma_pops2(s, long_t, int_t);
    lemma_pops2(s, ref_t, int_t);
    lemma_pops3(s, ref_t, int_t, int_t);
    lemma_pops3(s, ref_t, int_t, long_t);
    lemma_pops3(s, ref_t, int_t, ref_t);
    lemma_pops1(s, int_t);
    lemma_pops1(s, long_t);
    lemma_pops1(s, ref_t);
    assert(s + seq![int_t] =~= s.push(int_t));
    assert(s + seq![long_t] =~= s.push(long_t));
    assert(s + seq![ref_t] =~= s.push(ref_t));
    assert(s + Seq::<ValueType>::empty() =~= s);
}

/// The operand types of the branches: `if<cond>` pops an `int`,
/// `if_icmp<cond>` two, `if_acmp<cond>` two references, `ifnull` and
/// `ifnonnull` one reference; none pushes anything.
pub proof fn lemma_typed_branches(l: Seq<ValueType>, s: Seq<ValueType>, max: nat, t: usize)
    requires
        s.len() + 4 <= max,
    ensures
        ({
            let int_t = ValueType::Integer;
            let ref_t = ValueType::Reference;
            &&& takes(Op::IfEq(t), max, l, s.push(int_t), s)
            &&& takes(Op::IfNe(t), max, l, s.push(int_t), s)
            &&& takes(Op::IfLt(t), max, l, s.push(int_t), s)
            &&& takes(Op::IfGe(t), max, l, s.push(int_t), s)
            &&& takes(Op::IfGt(t), max, l, s.push(int_t), s)
            &&& takes(Op::IfLe(t), max, l, s.push(int_t), s)
            &&& takes(Op::IfICmpEq(t), max, l, s.push(int_t).push(int_t), s)
            &&& takes(Op::IfICmpNe(t), max, l, s.push(int_t).push(int_t), s)
            &&& takes(Op::IfICmpLt(t), max, l, s.push(int_t).push(int_t), s)
            &&& takes(Op::IfICmpGe(t), max, l, s.push(int_t).push(int_t), s)
            &&& takes(Op::IfICmpGt(t), max, l, s.push(int_t).push(int_t), s)
            &&& takes(Op::IfICmpLe(t), max, l, s.push(int_t).push(int_t), s)
            &&& takes(Op::IfACmpEq(t), max, l, s.push(ref_t).push(ref_t), s)
            &&& takes(Op::IfACmpNe(t), max, l, s.push(ref_t).push(ref_t), s)
            &&& takes(Op::IfNull(t), max, l, s.push(ref_t), s)
            &&& takes(Op::IfNonNull(t), max, l, s.push(ref_t), s)
        }),
{
    reveal(stack_effect);
    let int_t = ValueType::Integer;
    let ref_t = ValueType::Reference;
    lemma_pops1(s, int_t);
    lemma_pops1(s, ref_t);
    lemma_pops2(s, int_t, int_t);
    lemma_pops2(s, ref_t, ref_t);
    assert(s + Seq::<ValueType>::empty() =~= s);
}


/// Popping the one value on top, of the type wanted.
proof fn lemma_pops1(s: Seq<ValueType>, a: ValueType)
    ensures
        pop_each(s.push(a), seq![a]) == Ok::<Seq<ValueType>, VerifyError>(s),
{
    assert(seq![a].drop_first() =~= Seq::<ValueType>::empty());
    assert(s.push(a).drop_last() =~= s);
    assert(pop_each(s, Seq::<ValueType>::empty()) == Ok::<Seq<ValueType>, VerifyError>(s));
}

/// Popping the two values on top, the top first.
proof fn lemma_pops2(s: Seq<ValueType>, a: ValueType, b: ValueType)
    ensures
        pop_each(s.push(a).push(b), seq![b, a]) == Ok::<Seq<ValueType>, VerifyError>(s),
{
    assert(seq![b, a].drop_first() =~= seq![a]);
    assert(s.push(a).push(b).drop_last() =~= s.push(a));
    lemma_pops1(s, a);
}

/// Popping the three values on top, the top first.
proof fn lemma_pops3(s: Seq<ValueType>, a: ValueType, b: ValueType, c: ValueType)
    ensures
        pop_each(s.push(a).push(b).push(c), seq![c, b, a]) == Ok::<Seq<ValueType>, VerifyError>(s),
{
    assert(seq![c, b, a].drop_first() =~= seq![b, a]);
    assert(s.push(a).push(b).push(c).drop_last() =~= s.push(a).push(b));
    lemma_pops2(s, a, b);
}

/// The constants and the locals: `aconst_null`, `iconst` and `lconst` push
/// a reference, an `int` and a `long`; `iload`, `lload` and `aload` push
/// the type their local holds, where it holds that type, and are refused
/// with `WrongType` where it holds another; `istore` pops an `int` into its
/// local, `lstore` a `long` into its local, the local after it made
/// unusable; `iinc` of a local holding an `int` leaves the frame as it was.
pub proof fn lemma_typed_locals(l: Seq<ValueType>, s: Seq<ValueType>, max: nat, i: usize, c: i32, k: int)
    requires
        s.len() + 2 <= max,
        i + 1 < l.len(),
    ensures
        ({
            let int_t = ValueType::Integer;
            let long_t = ValueType::Long;
            let ref_t = ValueType::Reference;
            &&& takes(Op::AConstNull, max, l, s, s.push(ref_t))
            &&& takes(Op::IConst(c), max, l, s, s.push(int_t))
            &&& takes(Op::LConst(0i8), max, l, s, s.push(long_t))
            &&& l[i as int] == int_t ==> takes(Op::ILoad(i), max, l, s, s.push(int_t))
            &&& l[i as int] == long_t ==> takes(Op::LLoad(i), max, l, s, s.push(long_t))
            &&& l[i as int] == ref_t ==> takes(Op::ALoad(i), max, l, s, s.push(ref_t))
            &&& l[i as int] != int_t ==> spec_step(Op::ILoad(i), k, max, frame_of(l, s)) == Err::<
                (AbstractFrame, Option<usize>),
                VerifyError,
            >(VerifyError::WrongType)
            &&& l[i as int] != ref_t ==> spec_step(Op::ALoad(i), k, max, frame_of(l, s)) == Err::<
                (AbstractFrame, Option<usize>),
                VerifyError,
            >(VerifyError::WrongType)
            &&& l[i as int] == int_t ==> takes(Op::IInc(i, c), max, l, s, s)
            &&& spec_step(Op::IStore(i), k, max, frame_of(l, s.push(int_t))) == Ok::<
                (AbstractFrame, Option<usize>),
                VerifyError,
            >((frame_of(l.update(i as int, int_t), s), None))
            &&& spec_step(Op::LStore(i), k, max, frame_of(l, s.push(long_t))) == Ok::<
                (AbstractFrame, Option<usize>),
                VerifyError,
            >((frame_of(l.update(i as int, long_t).update(i + 1, ValueType::Invalid), s), None))
        }),
{
    reveal(stack_effect);
    let int_t = ValueType::Integer;
    let long_t = ValueType::Long;
    let ref_t = ValueType::Reference;
    assert(s + seq![int_t] =~= s.push(int_t));
    assert(s + seq![long_t] =~= s.push(long_t));
    assert(s + seq![ref_t] =~= s.push(ref_t));
    assert(s.push(int_t).drop_last() =~= s);
    assert(s.push(long_t).drop_last() =~= s);
    assert(pop_each(s, Seq::<ValueType>::empty()) == Ok::<Seq<ValueType>, VerifyError>(s));
}

/// The verifier refuses with `WrongType` an `int` op one of whose operands
/// is not an `int`, a `long` op one of whose operands is not a `long`, and
/// an array load whose array is not a reference.
pub proof fn lemma_mistyped_ops(l: Seq<ValueType>, s: Seq<ValueType>, max: nat, x: ValueType, k: int)
    ensures
        ({
            let int_t = ValueType::Integer;
            let long_t = ValueType::Long;
            let wrong = Err::<(AbstractFrame, Option<usize>), VerifyError>(VerifyError::WrongType);
            &&& x != int_t ==> spec_step(Op::IAdd, k, max, frame_of(l, s.push(int_t).push(x))) == wrong
            &&& x != int_t ==> spec_step(Op::IAdd, k, max, frame_of(l, s.push(x).push(int_t))) == wrong
            &&& x != long_t ==> spec_step(Op::LAdd, k, max, frame_of(l, s.push(long_t).push(x))) == wrong
            &&& x != long_t ==> spec_step(Op::LAdd, k, max, frame_of(l, s.push(x).push(long_t))) == wrong
            &&& x != ValueType::Reference ==> spec_step(Op::IaLoad, k, max, frame_of(l, s.push(x).push(int_t))) == wrong
        }),
{
    reveal(stack_effect);
    let int_t = ValueType::Integer;
    let long_t = ValueType::Long;
    let ref_t = ValueType::Reference;
    assert(s.push(int_t).push(x).drop_last() =~= s.push(int_t));
    assert(s.push(x).push(int_t).drop_last() =~= s.push(x));
    assert(s.push(long_t).push(x).drop_last() =~= s.push(long_t));
    assert(s.push(x).push(long_t).drop_last() =~= s.push(x));
    assert(seq![int_t, int_t].drop_first() =~= seq![int_t]);
    assert(seq![long_t, long_t].drop_first() =~= seq![long_t]);
    assert(seq![int_t, ref_t].drop_first() =~= seq![ref_t]);
    if x != int_t {
        assert(pop_each(s.push(x), seq![int_t]) == Err::<Seq<ValueType>, VerifyError>(VerifyError::WrongType));
        assert(pop_each(s.push(int_t).push(x), seq![int_t, int_t]) == Err::<Seq<ValueType>, VerifyError>(VerifyError::WrongType));
        assert(pop_each(s.push(x).push(int_t), seq![int_t, int_t]) == Err::<Seq<ValueType>, VerifyError>(VerifyError::WrongType));
    }
    if x != long_t {
        assert(pop_each(s.push(x), seq![long_t]) == Err::<Seq<ValueType>, VerifyError>(VerifyError::WrongType));
        assert(pop_each(s.push(long_t).push(x), seq![long_t, long_t]) == Err::<Seq<ValueType>, VerifyError>(VerifyError::WrongType));
        assert(pop_each(s.push(x).push(long_t), seq![long_t, long_t]) == Err::<Seq<ValueType>, VerifyError>(VerifyError::WrongType));
    }
    if x != ref_t {
        assert(pop_each(s.push(x), seq![ref_t]) == Err::<Seq<ValueType>, VerifyError>(VerifyError::WrongType));
        assert(pop_each(s.push(x).push(int_t), seq![int_t, ref_t]) == Err::<Seq<ValueType>, VerifyError>(VerifyError::WrongType));
    }
}

/// The local slots an argument of type `d` takes: two for a `long` or a
/// `double`, one for any other.
pub open spec fn arg_width(d: SpecDescriptor) -> int {
    if d is Long || d is Double { 2 } else { 1 }
}

/// The slot, counted from the first argument's, where argument `k` of
/// `args` goes: the widths of the arguments before it added up.
pub open spec fn arg_slot(args: Seq<SpecDescriptor>, k: int) -> int
    decreases k,
{
    if k <= 0 || args.len() == 0 {
        0
    } else {
        arg_width(args[0]) + arg_slot(args.drop_first(), k - 1)
    }
}

/// The slots are increasing: a later argument goes above an earlier one.
proof fn lemma_arg_slot_grows(args: Seq<SpecDescriptor>, k: int, m: int)
    requires
        0 <= k <= m <= args.len(),
    ensures
        arg_slot(args, k) + (m - k) <= arg_slot(args, m),
    decreases m,
{
    if k < m {
        lemma_arg_slot_grows(args, k, m - 1);
        lemma_arg_slot_step(args, m - 1);
    }
}

/// The slot after argument `k` is its slot plus its width.
proof fn lemma_arg_slot_step(args: Seq<SpecDescriptor>, k: int)
    requires
        0 <= k < args.len(),
    ensures
        arg_slot(args, k + 1) == arg_slot(args, k) + arg_width(args[k]),
    decreases k,
{
    let rest = args.drop_first();
    assert(arg_slot(rest, 0) == 0);
    assert(arg_slot(args, k + 1) == arg_width(args[0]) + arg_slot(rest, k));
    if k > 0 {
        lemma_arg_slot_step(rest, k - 1);
        assert(rest[k - 1] == args[k]);
        assert(arg_slot(args, k) == arg_width(args[0]) + arg_slot(rest, k - 1));
    }
}

/// Placing the arguments from slot `i` on succeeds exactly when the last
/// argument starts inside the locals (else it fails with `WrongCount`);
/// each argument then has its value type at its slot, and the locals below
/// `i` and above the arguments are kept.
pub proof fn lemma_place_args_slots(locals: Seq<ValueType>, i: int, args: Seq<SpecDescriptor>)
    requires
        0 <= i,
    ensures
        (place_args(locals, i, args) is Ok) <==> (args.len() == 0 || i + arg_slot(args, args.len() - 1) < locals.len()),
        !(place_args(locals, i, args) is Ok) ==> place_args(locals, i, args) == Err::<Seq<ValueType>, VerifyError>(
            VerifyError::WrongCount,
        ),
        place_args(locals, i, args) matches Ok(l) ==> {
            &&& l.len() == locals.len()
            &&& forall|k: int| 0 <= k < args.len() ==> l[i + #[trigger] arg_slot(args, k)] == kind_of(args[k])
            &&& forall|j: int| 0 <= j < locals.len() && (j < i || i + arg_slot(args, args.len() as int) <= j)
                ==> #[trigger] l[j] == locals[j]
        },
    decreases args.len(),
{
    if args.len() > 0 {
        let k0 = kind_of(args[0]);
        let rest = args.drop_first();
        let w = arg_width(args[0]);
        assert(value_is_wide(k0) <==> (args[0] is Long || args[0] is Double));
        let i2 = i + w;
        assert(arg_slot(args, 0) == 0);
        lemma_arg_slot_grows(rest, 0, rest.len() as int);
        assert(arg_slot(rest, 0) == 0);
        if i < locals.len() {
            let l2 = locals.update(i, k0);
            lemma_place_args_slots(l2, i2, rest);
            assert forall|k: int| 1 <= k <= args.len() implies #[trigger] arg_slot(args, k) == w + arg_slot(rest, k - 1) by {}
            if rest.len() > 0 {
                assert(arg_slot(args, args.len() - 1) == w + arg_slot(rest, rest.len() - 1));
            } else {
                assert(args.len() - 1 == 0);
            }
            match place_args(locals, i, args) {
                Ok(l) => {
                    assert(place_args(l2, i2, rest) == Ok::<Seq<ValueType>, VerifyError>(l));
                    assert forall|k: int| 0 <= k < args.len() implies l[i + #[trigger] arg_slot(args, k)] == kind_of(args[k]) by {
                        if k == 0 {
                            assert(l[i] == l2[i]);
                        } else {
                            assert(arg_slot(args, k) == w + arg_slot(rest, k - 1));
                            assert(rest[k - 1] == args[k]);
                            assert(l[i2 + arg_slot(rest, k - 1)] == kind_of(rest[k - 1]));
                        }
                    }
                    assert(arg_slot(args, args.len() as int) == w + arg_slot(rest, rest.len() as int));
                    assert forall|j: int| 0 <= j < locals.len() && (j < i || i + arg_slot(args, args.len() as int) <= j)
                        implies #[trigger] l[j] == locals[j] by {
                        assert(l[j] == l2[j]);
                    }
                },
                Err(_) => {},
            }
        } else {
            lemma_arg_slot_grows(args, 0, args.len() - 1);
        }
    }
}

/// The frame a method is entered with: an empty stack and `max_locals`
/// locals; for an instance method the receiver, a reference, in local 0 and
/// the arguments from local 1 on, for a static method from local 0 on, each
/// at the slot the widths of those before it give; every other local is
/// unusable. Entering fails with `WrongCount` exactly when the locals are
/// too few to hold the receiver or the start of every argument.
pub proof fn lemma_entry_frame(is_static: bool, args: Seq<SpecDescriptor>, max_locals: nat)
    ensures
        ({
            let base: int = if is_static { 0 } else { 1 };
            let fits = (is_static || max_locals > 0) && (args.len() == 0 || base + arg_slot(args, args.len() - 1) < max_locals);
            &&& !fits ==> spec_entry_frame(is_static, args, max_locals) == Err::<AbstractFrame, VerifyError>(VerifyError::WrongCount)
            &&& fits ==> (spec_entry_frame(is_static, args, max_locals) matches Ok(f) && {
                &&& f.stack.len() == 0
                &&& f.locals.len() == max_locals
                &&& !is_static ==> f.locals[0] == ValueType::Reference
                &&& forall|k: int| 0 <= k < args.len() ==> f.locals[base + #[trigger] arg_slot(args, k)] == kind_of(args[k])
                &&& forall|j: int| base + arg_slot(args, args.len() as int) <= j < max_locals
                    ==> #[trigger] f.locals[j] == ValueType::Invalid
            })
        }),
{
    let blank = Seq::new(max_locals, |i: int| ValueType::Invalid);
    lemma_arg_slot_grows(args, 0, args.len() as int);
    assert(arg_slot(args, 0) == 0);
    if is_static {
        lemma_place_args_slots(blank, 0, args);
    } else if max_locals > 0 {
        let first = blank.update(0, ValueType::Reference);
        lemma_place_args_slots(first, 1, args);
        match place_args(first, 1, args) {
            Ok(l) => {
                assert(l[0] == first[0]);
                assert forall|j: int| 1 + arg_slot(args, args.len() as int) <= j < max_locals implies #[trigger] l[j] == ValueType::Invalid by {
                    assert(l[j] == first[j]);
                }
            },
            Err(_) => {},
        }
    }
}

} // verus!
