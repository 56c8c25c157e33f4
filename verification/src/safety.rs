//! What the verifier's types promise the interpreter: a frame whose values
//! are of the kinds the verifier computed for an op can run that op, and
//! the frame that comes out is of the kinds the verifier computed for the
//! next op.
use vstd::prelude::*;

use crate::interpret::{dropped, has, int_at, long_at, pushed, pushed_wide, room, Flow, SpecFrame};
use crate::op::Op;
use crate::value::Value;
use crate::verify::{apply_effect, nth_top, pop_each, pop_one, stack_effect, value_is_wide, AbstractFrame, ValueType};

verus! {

/// The number of slots a value of type `t` takes on the stack.
pub open spec fn width(t: ValueType) -> int {
    if value_is_wide(t) {
        2
    } else {
        1
    }
}

/// The number of slots the values `s` take on the stack.
pub open spec fn stack_size(s: Seq<ValueType>) -> int
    decreases s.len(),
{
    if s.len() == 0 {
        0
    } else {
        stack_size(s.drop_last()) + width(s.last())
    }
}

/// A concrete value is of the kind the verifier's type says: a primitive
/// for the number types, a reference for `Reference`.
pub open spec fn fits(v: Value, t: ValueType) -> bool {
    match t {
        ValueType::Integer | ValueType::Long | ValueType::Float | ValueType::Double => v is Primitive,
        ValueType::Reference => v is Reference,
        ValueType::Invalid | ValueType::ReturnAddress(_) => true,
    }
}

/// The slot where the `i`-th stack value (from the bottom) lives, on a stack
/// that starts at slot `base`.
pub open spec fn entry_slot(base: int, s: Seq<ValueType>, i: int) -> int {
    base + stack_size(s.take(i))
}

/// Frame `f` is laid out as the verifier's frame `af` says: one local slot
/// per local, the stack values one after the other (two slots for a wide
/// one, the value in the lower), and every value of the kind its type says.
pub open spec fn agrees(f: SpecFrame, af: AbstractFrame) -> bool {
    &&& f.local_count == af.locals.len()
    &&& f.top == f.local_count + stack_size(af.stack)
    &&& f.top <= f.slots.len()
    &&& forall|i: int| 0 <= i < af.locals.len() ==> fits(#[trigger] f.slots[i], af.locals[i])
    &&& forall|i: int| 0 <= i < af.stack.len() ==> fits(f.slots[entry_slot(f.local_count, af.stack, i)], #[trigger] af.stack[i])
}

/// Pushing a value adds its width.
proof fn lemma_size_push(s: Seq<ValueType>, t: ValueType)
    ensures
        stack_size(s.push(t)) == stack_size(s) + width(t),
{
    assert(s.push(t).drop_last() =~= s);
}

/// A stack of `n` values takes between `n` and `2n` slots.
proof fn lemma_size_bounds(s: Seq<ValueType>)
    ensures
        s.len() <= stack_size(s) <= 2 * s.len(),
    decreases s.len(),
{
    if s.len() > 0 {
        lemma_size_bounds(s.drop_last());
    }
}

/// The first `i + 1` values take the slots of the first `i` and then those
/// of value `i`.
proof fn lemma_size_take(s: Seq<ValueType>, i: int)
    requires
        0 <= i < s.len(),
    ensures
        stack_size(s.take(i + 1)) == stack_size(s.take(i)) + width(s[i]),
{
    assert(s.take(i + 1).drop_last() =~= s.take(i));
}

/// A prefix takes no more slots than the whole, and value `i` lies within
/// the whole.
proof fn lemma_size_prefix(s: Seq<ValueType>, i: int)
    requires
        0 <= i <= s.len(),
    ensures
        stack_size(s.take(i)) + (if i < s.len() { width(s[i]) } else { 0 }) <= stack_size(s),
    decreases s.len() - i,
{
    if i == s.len() {
        assert(s.take(i) =~= s);
    } else {
        lemma_size_take(s, i);
        lemma_size_prefix(s, i + 1);
        if i + 1 < s.len() {
            assert(width(s[i + 1]) >= 1);
        }
    }
}

/// Popping the top `k` values of an agreeing frame leaves an agreeing frame.
proof fn lemma_agrees_pop(f: SpecFrame, af: AbstractFrame, k: int)
    requires
        agrees(f, af),
        0 <= k <= af.stack.len(),
    ensures
        ({
            let r = af.stack.take(af.stack.len() - k);
            &&& stack_size(r) <= stack_size(af.stack)
            &&& has(f, stack_size(af.stack) - stack_size(r))
            &&& agrees(dropped(f, stack_size(af.stack) - stack_size(r)), AbstractFrame { locals: af.locals, stack: r })
        }),
{
    let s = af.stack;
    let r = s.take(s.len() - k);
    lemma_size_prefix(s, s.len() - k);
    lemma_size_bounds(r);
    let g = dropped(f, stack_size(s) - stack_size(r));
    assert forall|i: int| 0 <= i < r.len() implies fits(g.slots[entry_slot(g.local_count, r, i)], #[trigger] r[i]) by {
        assert(r.take(i) =~= s.take(i));
        assert(r[i] == s[i]);
    }
}

/// Pushing a value of the kind `t` says onto an agreeing frame, with room
/// for it, gives an agreeing frame.
proof fn lemma_agrees_push(f: SpecFrame, af: AbstractFrame, t: ValueType, v: Value)
    requires
        agrees(f, af),
        fits(v, t),
        room(f, width(t)),
    ensures
        agrees(
            if value_is_wide(t) {
                pushed_wide(f, v)
            } else {
                pushed(f, v)
            },
            AbstractFrame { locals: af.locals, stack: af.stack.push(t) },
        ),
{
    let s = af.stack;
    let s2 = s.push(t);
    let g = if value_is_wide(t) {
        pushed_wide(f, v)
    } else {
        pushed(f, v)
    };
    lemma_size_push(s, t);
    lemma_size_bounds(s);
    assert(g.slots == f.slots.update(f.top, v));
    assert(g.local_count == f.local_count);
    assert forall|i: int| 0 <= i < af.locals.len() implies fits(#[trigger] g.slots[i], af.locals[i]) by {
        assert(i < f.top);
    }
    assert forall|i: int| 0 <= i < s2.len() implies fits(g.slots[entry_slot(g.local_count, s2, i)], #[trigger] s2[i]) by {
        if i < s.len() {
            assert(s2.take(i) =~= s.take(i));
            lemma_size_prefix(s, i);
            lemma_size_bounds(s.take(i));
            assert(entry_slot(f.local_count, s, i) < f.top);
            assert(s2[i] == s[i]);
            assert(fits(f.slots[entry_slot(f.local_count, s, i)], s[i]));
            assert(g.slots[entry_slot(f.local_count, s, i)] == f.slots[entry_slot(f.local_count, s, i)]);
            assert(entry_slot(g.local_count, s2, i) == entry_slot(f.local_count, s, i));
        } else {
            assert(s2.take(i) =~= s);
            assert(entry_slot(g.local_count, s2, i) == f.top);
            assert(s2[i] == t);
        }
    }
}

/// The slots the top `k` values take.
pub open spec fn top_width(s: Seq<ValueType>, k: int) -> int
    decreases k,
{
    if k <= 0 {
        0
    } else {
        width(s[s.len() - k]) + top_width(s, k - 1)
    }
}

/// The stack splits into its values below the top `k` and those `k`.
proof fn lemma_size_split(s: Seq<ValueType>, k: int)
    requires
        0 <= k <= s.len(),
    ensures
        stack_size(s) == stack_size(s.take(s.len() - k)) + top_width(s, k),
    decreases k,
{
    if k == 0 {
        assert(s.take(s.len() as int) =~= s);
    } else {
        lemma_size_split(s, k - 1);
        lemma_size_take(s, s.len() - k);
    }
}

/// Value `j` of an agreeing frame's stack lies `top_width` slots of the
/// values above it, and itself, below the top, and is of its kind.
proof fn lemma_entry(f: SpecFrame, af: AbstractFrame, k: int)
    requires
        agrees(f, af),
        1 <= k <= af.stack.len(),
    ensures
        entry_slot(f.local_count, af.stack, af.stack.len() - k) == f.top - top_width(af.stack, k),
        f.top - top_width(af.stack, k) >= f.local_count >= 0,
        fits(f.slots[f.top - top_width(af.stack, k)], af.stack[af.stack.len() - k]),
{
    lemma_size_split(af.stack, k);
    lemma_size_bounds(af.stack.take(af.stack.len() - k));
    assert(fits(f.slots[entry_slot(f.local_count, af.stack, af.stack.len() - k)], af.stack[af.stack.len() - k]));
}

/// What a successful pop of the values `wants` tells of the stack: its top
/// values are `wants`, the top one first, and what is left is the rest.
proof fn lemma_pop_each(s: Seq<ValueType>, wants: Seq<ValueType>)
    requires
        pop_each(s, wants) is Ok,
    ensures
        wants.len() <= s.len(),
        forall|j: int| 0 <= j < wants.len() ==> #[trigger] s[s.len() - 1 - j] == wants[j],
        pop_each(s, wants) == Ok::<Seq<ValueType>, crate::verify::VerifyError>(s.take(s.len() - wants.len())),
    decreases wants.len(),
{
    if wants.len() > 0 {
        let rest = s.drop_last();
        assert(pop_one(s, wants[0]) == Ok::<Seq<ValueType>, crate::verify::VerifyError>(rest));
        lemma_pop_each(rest, wants.drop_first());
        assert forall|j: int| 0 <= j < wants.len() implies #[trigger] s[s.len() - 1 - j] == wants[j] by {
            if j > 0 {
                assert(rest[rest.len() - 1 - (j - 1)] == wants.drop_first()[j - 1]);
            }
        }
        assert(rest.take(rest.len() - wants.drop_first().len()) =~= s.take(s.len() - wants.len()));
    } else {
        assert(s.take(s.len() as int) =~= s);
    }
}

/// What a successful pop-then-push tells of the stack.
proof fn lemma_effect(s: Seq<ValueType>, pops: Seq<ValueType>, pushes: Seq<ValueType>, max: nat)
    requires
        apply_effect(s, pops, pushes, max) is Ok,
    ensures
        pops.len() <= s.len(),
        forall|j: int| 0 <= j < pops.len() ==> #[trigger] s[s.len() - 1 - j] == pops[j],
        apply_effect(s, pops, pushes, max) == Ok::<Seq<ValueType>, crate::verify::VerifyError>(s.take(s.len() - pops.len()) + pushes),
        pushes.len() > 0 ==> s.len() - pops.len() + pushes.len() <= max,
{
    lemma_pop_each(s, pops);
}

/// Popping the top `k` values of an agreeing frame, the slots they take.
proof fn lemma_pop_k(f: SpecFrame, af: AbstractFrame, k: int)
    requires
        agrees(f, af),
        0 <= k <= af.stack.len(),
    ensures
        has(f, top_width(af.stack, k)),
        agrees(dropped(f, top_width(af.stack, k)), AbstractFrame { locals: af.locals, stack: af.stack.take(af.stack.len() - k) }),
{
    lemma_agrees_pop(f, af, k);
    lemma_size_split(af.stack, k);
}

/// Popping the top `k` values of an agreeing frame and pushing any value of
/// the kind `t` says gives an agreeing frame, with room to spare when the
/// frame has two slots for each value the verifier allows on the stack.
proof fn lemma_replace(f: SpecFrame, af: AbstractFrame, k: int, t: ValueType, max: nat)
    requires
        agrees(f, af),
        0 <= k <= af.stack.len(),
        f.local_count + 2 * max <= f.slots.len(),
        af.stack.len() - k + 1 <= max,
    ensures
        has(f, top_width(af.stack, k)),
        room(dropped(f, top_width(af.stack, k)), width(t)),
        !value_is_wide(t) ==> forall|v: Value| fits(v, t) ==> agrees(
            #[trigger] pushed(dropped(f, top_width(af.stack, k)), v),
            AbstractFrame { locals: af.locals, stack: af.stack.take(af.stack.len() - k).push(t) },
        ),
        value_is_wide(t) ==> forall|v: Value| fits(v, t) ==> agrees(
            #[trigger] pushed_wide(dropped(f, top_width(af.stack, k)), v),
            AbstractFrame { locals: af.locals, stack: af.stack.take(af.stack.len() - k).push(t) },
        ),
{
    let r = af.stack.take(af.stack.len() - k);
    let g = dropped(f, top_width(af.stack, k));
    let ag = AbstractFrame { locals: af.locals, stack: r };
    lemma_pop_k(f, af, k);
    lemma_size_bounds(r);
    if value_is_wide(t) {
        assert forall|v: Value| fits(v, t) implies agrees(
            #[trigger] pushed_wide(g, v),
            AbstractFrame { locals: af.locals, stack: r.push(t) },
        ) by {
            lemma_agrees_push(g, ag, t, v);
        }
    } else {
        assert forall|v: Value| fits(v, t) implies agrees(
            #[trigger] pushed(g, v),
            AbstractFrame { locals: af.locals, stack: r.push(t) },
        ) by {
            lemma_agrees_push(g, ag, t, v);
        }
    }
}

/// `v` pushed in the slots its type `t` takes.
pub open spec fn push_any(f: SpecFrame, v: Value, t: ValueType) -> SpecFrame {
    if value_is_wide(t) {
        pushed_wide(f, v)
    } else {
        pushed(f, v)
    }
}

// ---------------------------------------------------------------------------
// The law
// ---------------------------------------------------------------------------

/// `dup_x2` over two one-slot values with a wide value below them: the
/// verifier takes the three values, the interpreter three slots.
pub open spec fn dup_x2_over_wide(af: AbstractFrame, op: Op) -> bool {
    &&& op is DupX2
    &&& af.stack.len() >= 3
    &&& !value_is_wide(nth_top(af.stack, 1))
    &&& !value_is_wide(nth_top(af.stack, 2))
    &&& value_is_wide(nth_top(af.stack, 3))
}

/// `pop2` over a one-slot value with a wide value below it: the verifier
/// takes the two values, the interpreter two slots.
pub open spec fn pop2_over_wide(af: AbstractFrame, op: Op) -> bool {
    &&& op is Pop2
    &&& af.stack.len() >= 2
    &&& !value_is_wide(nth_top(af.stack, 1))
    &&& value_is_wide(nth_top(af.stack, 2))
}

/// Where the law applies: the frame is laid out as the verifier's frame
/// says, it has two slots for each stack value the verifier allows, and
/// the op is not one of the two cases above.
pub open spec fn safe_start(f: SpecFrame, af: AbstractFrame, op: Op, max: nat) -> bool {
    &&& agrees(f, af)
    &&& f.local_count + 2 * max <= f.slots.len()
    &&& !dup_x2_over_wide(af, op)
    &&& !pop2_over_wide(af, op)
}

/// If the verifier accepts `op` on `af` (and it is not a `ret`), the
/// interpreter can run it on `f`, and when it goes on to another op the new
/// frame is laid out as the verifier's new frame says.
pub open spec fn step_keeps_agreement(f: SpecFrame, af: AbstractFrame, op: Op, max: nat) -> bool {
    match crate::verify::spec_step(op, f.ip, max, af) {
        Ok((af2, None)) => match crate::interpret::spec_step(f, op) {
            Some((g, flow)) => flow is Continue ==> agrees(g, af2),
            None => false,
        },
        _ => true,
    }
}

/// The ops on two `int`s that give an `int` and cannot throw.
#[verifier::spinoff_prover]
#[verifier::rlimit(40)]
proof fn lemma_int_binop(f: SpecFrame, af: AbstractFrame, op: Op, max: nat)
    requires
        safe_start(f, af, op, max),
        op is IAdd || op is ISub || op is IMul || op is IShl || op is IShr || op is IUshr || op is IAnd
            || op is IOr || op is IXor,
    ensures
        step_keeps_agreement(f, af, op, max),
{
    reveal(stack_effect);
    let s = af.stack;
    let it = ValueType::Integer;
    if apply_effect(s, seq![it, it], seq![it], max) is Ok {
        lemma_effect(s, seq![it, it], seq![it], max);
        assert(s[s.len() - 1 - 0] == it);
        assert(s[s.len() - 1 - 1] == it);
        lemma_entry(f, af, 1);
        lemma_entry(f, af, 2);
        reveal_with_fuel(top_width, 3);
        lemma_replace(f, af, 2, it, max);
        assert(s.take(s.len() - 2) + seq![it] =~= s.take(s.len() - 2).push(it));
        let af2 = AbstractFrame { locals: af.locals, stack: s.take(s.len() - 2).push(it) };
        assert(top_width(s, 1) == 1);
        assert(top_width(s, 2) == 2);
        assert(crate::verify::spec_step(op, f.ip, max, af) == Ok::<(AbstractFrame, Option<usize>), crate::verify::VerifyError>((af2, None)));
        assert(crate::interpret::prims(f, 2, 1, 2));
        assert(room(dropped(f, 2), 1));
    }
}

/// What a pop-then-push of one value tells of an agreeing frame: the top
/// values are of the kinds popped, and popping their slots and pushing any
/// value of the pushed kind gives a frame that agrees with the verifier's.
proof fn lemma_effect_push(f: SpecFrame, af: AbstractFrame, pops: Seq<ValueType>, t: ValueType, max: nat)
    requires
        agrees(f, af),
        f.local_count + 2 * max <= f.slots.len(),
        apply_effect(af.stack, pops, seq![t], max) is Ok,
    ensures
        pops.len() <= af.stack.len(),
        forall|j: int| 0 <= j < pops.len() ==> #[trigger] af.stack[af.stack.len() - 1 - j] == pops[j],
        forall|j: int| 0 <= j < pops.len() ==> fits(f.slots[f.top - #[trigger] top_width(af.stack, j + 1)], pops[j]),
        has(f, top_width(af.stack, pops.len() as int)),
        room(dropped(f, top_width(af.stack, pops.len() as int)), width(t)),
        apply_effect(af.stack, pops, seq![t], max) == Ok::<Seq<ValueType>, crate::verify::VerifyError>(
            af.stack.take(af.stack.len() - pops.len()).push(t),
        ),
        !value_is_wide(t) ==> forall|v: Value| fits(v, t) ==> agrees(
            #[trigger] pushed(dropped(f, top_width(af.stack, pops.len() as int)), v),
            AbstractFrame { locals: af.locals, stack: af.stack.take(af.stack.len() - pops.len()).push(t) },
        ),
        value_is_wide(t) ==> forall|v: Value| fits(v, t) ==> agrees(
            #[trigger] pushed_wide(dropped(f, top_width(af.stack, pops.len() as int)), v),
            AbstractFrame { locals: af.locals, stack: af.stack.take(af.stack.len() - pops.len()).push(t) },
        ),
{
    let s = af.stack;
    lemma_effect(s, pops, seq![t], max);
    assert(s.take(s.len() - pops.len()) + seq![t] =~= s.take(s.len() - pops.len()).push(t));
    assert forall|j: int| 0 <= j < pops.len() implies fits(f.slots[f.top - #[trigger] top_width(s, j + 1)], pops[j]) by {
        lemma_entry(f, af, j + 1);
        assert(s[s.len() - 1 - j] == pops[j]);
    }
    lemma_replace(f, af, pops.len() as int, t, max);
}

/// What a pop of values pushing nothing tells of an agreeing frame.
proof fn lemma_effect_pop(f: SpecFrame, af: AbstractFrame, pops: Seq<ValueType>, max: nat)
    requires
        agrees(f, af),
        apply_effect(af.stack, pops, seq![], max) is Ok,
    ensures
        pops.len() <= af.stack.len(),
        forall|j: int| 0 <= j < pops.len() ==> #[trigger] af.stack[af.stack.len() - 1 - j] == pops[j],
        forall|j: int| 0 <= j < pops.len() ==> fits(f.slots[f.top - #[trigger] top_width(af.stack, j + 1)], pops[j]),
        has(f, top_width(af.stack, pops.len() as int)),
        apply_effect(af.stack, pops, seq![], max) == Ok::<Seq<ValueType>, crate::verify::VerifyError>(
            af.stack.take(af.stack.len() - pops.len()),
        ),
        agrees(
            dropped(f, top_width(af.stack, pops.len() as int)),
            AbstractFrame { locals: af.locals, stack: af.stack.take(af.stack.len() - pops.len()) },
        ),
{
    let s = af.stack;
    lemma_effect(s, pops, seq![], max);
    assert(s.take(s.len() - pops.len()) + seq![] =~= s.take(s.len() - pops.len()));
    assert forall|j: int| 0 <= j < pops.len() implies fits(f.slots[f.top - #[trigger] top_width(s, j + 1)], pops[j]) by {
        lemma_entry(f, af, j + 1);
        assert(s[s.len() - 1 - j] == pops[j]);
    }
    lemma_pop_k(f, af, pops.len() as int);
}

/// Agreement does not look at the op index.
proof fn lemma_agrees_any_ip(f: SpecFrame, af: AbstractFrame, ip: int)
    requires
        agrees(f, af),
    ensures
        agrees(SpecFrame { ip: ip, ..f }, af),
{
}

/// The ops on one `int` that give an `int`.
#[verifier::spinoff_prover]
#[verifier::rlimit(40)]
proof fn lemma_int_unop(f: SpecFrame, af: AbstractFrame, op: Op, max: nat)
    requires
        safe_start(f, af, op, max),
        op is INeg || op is I2B || op is I2C || op is I2S,
    ensures
        step_keeps_agreement(f, af, op, max),
{
    reveal(stack_effect);
    let s = af.stack;
    let it = ValueType::Integer;
    let lt = ValueType::Long;
    let ft = ValueType::Float;
    let dt = ValueType::Double;
    let rt = ValueType::Reference;
    if apply_effect(s, seq![it], seq![it], max) is Ok {
        lemma_effect_push(f, af, seq![it], it, max);
        assert(s[s.len() - 1 - 0] == it);
        reveal_with_fuel(top_width, 2);
        assert(top_width(s, 1) == 1);
    }
}

/// The ops on two `long`s that give a `long` and cannot throw.
#[verifier::spinoff_prover]
#[verifier::rlimit(40)]
proof fn lemma_long_binop(f: SpecFrame, af: AbstractFrame, op: Op, max: nat)
    requires
        safe_start(f, af, op, max),
        op is LAdd || op is LSub || op is LMul || op is LAnd || op is LOr || op is LXor,
    ensures
        step_keeps_agreement(f, af, op, max),
{
    reveal(stack_effect);
    let s = af.stack;
    let it = ValueType::Integer;
    let lt = ValueType::Long;
    let ft = ValueType::Float;
    let dt = ValueType::Double;
    let rt = ValueType::Reference;
    if apply_effect(s, seq![lt, lt], seq![lt], max) is Ok {
        lemma_effect_push(f, af, seq![lt, lt], lt, max);
        assert(s[s.len() - 1 - 0] == lt);
        assert(s[s.len() - 1 - 1] == lt);
        reveal_with_fuel(top_width, 3);
        assert(top_width(s, 1) == 2);
        assert(top_width(s, 2) == 4);
        assert(fits(f.slots[f.top - top_width(s, 0int + 1)], seq![lt, lt][0]));
        assert(fits(f.slots[f.top - top_width(s, 1int + 1)], seq![lt, lt][1]));
        assert(has(f, top_width(s, 2)));
    }
}

/// `lneg`.
#[verifier::spinoff_prover]
#[verifier::rlimit(40)]
proof fn lemma_long_neg(f: SpecFrame, af: AbstractFrame, op: Op, max: nat)
    requires
        safe_start(f, af, op, max),
        op is LNeg,
    ensures
        step_keeps_agreement(f, af, op, max),
{
    reveal(stack_effect);
    let s = af.stack;
    let it = ValueType::Integer;
    let lt = ValueType::Long;
    let ft = ValueType::Float;
    let dt = ValueType::Double;
    let rt = ValueType::Reference;
    if apply_effect(s, seq![lt], seq![lt], max) is Ok {
        lemma_effect_push(f, af, seq![lt], lt, max);
        assert(s[s.len() - 1 - 0] == lt);
        reveal_with_fuel(top_width, 2);
        assert(top_width(s, 1) == 2);
        assert(crate::interpret::prims(f, 2, 2, 2));
    }
}

/// The shifts of a `long` by an `int`.
#[verifier::spinoff_prover]
#[verifier::rlimit(40)]
proof fn lemma_long_shift(f: SpecFrame, af: AbstractFrame, op: Op, max: nat)
    requires
        safe_start(f, af, op, max),
        op is LShl || op is LShr || op is LUshr,
    ensures
        step_keeps_agreement(f, af, op, max),
{
    reveal(stack_effect);
    let s = af.stack;
    let it = ValueType::Integer;
    let lt = ValueType::Long;
    let ft = ValueType::Float;
    let dt = ValueType::Double;
    let rt = ValueType::Reference;
    if apply_effect(s, seq![it, lt], seq![lt], max) is Ok {
        lemma_effect_push(f, af, seq![it, lt], lt, max);
        assert(s[s.len() - 1 - 0] == it);
        assert(s[s.len() - 1 - 1] == lt);
        reveal_with_fuel(top_width, 3);
        assert(top_width(s, 1) == 1);
        assert(top_width(s, 2) == 3);
        assert(fits(f.slots[f.top - top_width(s, 0int + 1)], seq![it, lt][0]));
        assert(fits(f.slots[f.top - top_width(s, 1int + 1)], seq![it, lt][1]));
        assert(has(f, top_width(s, 2)));
        assert(crate::interpret::prims(f, 3, 1, 3));
    }
}

/// `i2l`.
#[verifier::spinoff_prover]
#[verifier::rlimit(40)]
proof fn lemma_int_to_long(f: SpecFrame, af: AbstractFrame, op: Op, max: nat)
    requires
        safe_start(f, af, op, max),
        op is I2L,
    ensures
        step_keeps_agreement(f, af, op, max),
{
    reveal(stack_effect);
    let s = af.stack;
    let it = ValueType::Integer;
    let lt = ValueType::Long;
    let ft = ValueType::Float;
    let dt = ValueType::Double;
    let rt = ValueType::Reference;
    if apply_effect(s, seq![it], seq![lt], max) is Ok {
        lemma_effect_push(f, af, seq![it], lt, max);
        assert(s[s.len() - 1 - 0] == it);
        reveal_with_fuel(top_width, 2);
        assert(top_width(s, 1) == 1);
    }
}

/// `l2i`.
#[verifier::spinoff_prover]
#[verifier::rlimit(40)]
proof fn lemma_long_to_int(f: SpecFrame, af: AbstractFrame, op: Op, max: nat)
    requires
        safe_start(f, af, op, max),
        op is L2I,
    ensures
        step_keeps_agreement(f, af, op, max),
{
    reveal(stack_effect);
    let s = af.stack;
    let it = ValueType::Integer;
    let lt = ValueType::Long;
    let ft = ValueType::Float;
    let dt = ValueType::Double;
    let rt = ValueType::Reference;
    if apply_effect(s, seq![lt], seq![it], max) is Ok {
        lemma_effect_push(f, af, seq![lt], it, max);
        assert(s[s.len() - 1 - 0] == lt);
        reveal_with_fuel(top_width, 2);
        assert(top_width(s, 1) == 2);
        assert(crate::interpret::prims(f, 2, 2, 2));
    }
}

/// `lcmp`.
#[verifier::spinoff_prover]
#[verifier::rlimit(40)]
proof fn lemma_long_compare(f: SpecFrame, af: AbstractFrame, op: Op, max: nat)
    requires
        safe_start(f, af, op, max),
        op is LCmp,
    ensures
        step_keeps_agreement(f, af, op, max),
{
    reveal(stack_effect);
    let s = af.stack;
    let it = ValueType::Integer;
    let lt = ValueType::Long;
    let ft = ValueType::Float;
    let dt = ValueType::Double;
    let rt = ValueType::Reference;
    if apply_effect(s, seq![lt, lt], seq![it], max) is Ok {
        lemma_effect_push(f, af, seq![lt, lt], it, max);
        assert(s[s.len() - 1 - 0] == lt);
        assert(s[s.len() - 1 - 1] == lt);
        reveal_with_fuel(top_width, 3);
        assert(top_width(s, 1) == 2);
        assert(top_width(s, 2) == 4);
        assert(fits(f.slots[f.top - top_width(s, 0int + 1)], seq![lt, lt][0]));
        assert(fits(f.slots[f.top - top_width(s, 1int + 1)], seq![lt, lt][1]));
        assert(has(f, top_width(s, 2)));
        assert(crate::interpret::prims(f, 4, 2, 4));
    }
}

/// The branches on one `int`, and the switches.
#[verifier::spinoff_prover]
#[verifier::rlimit(40)]
proof fn lemma_int_branch(f: SpecFrame, af: AbstractFrame, op: Op, max: nat)
    requires
        safe_start(f, af, op, max),
        op is IfEq || op is IfNe || op is IfLt || op is IfGe || op is IfGt || op is IfLe || op is TableSwitch || op is LookupSwitch,
    ensures
        step_keeps_agreement(f, af, op, max),
{
    reveal(stack_effect);
    let s = af.stack;
    let it = ValueType::Integer;
    let lt = ValueType::Long;
    let ft = ValueType::Float;
    let dt = ValueType::Double;
    let rt = ValueType::Reference;
    if apply_effect(s, seq![it], seq![], max) is Ok {
        lemma_effect_pop(f, af, seq![it], max);
        assert(s[s.len() - 1 - 0] == it);
        reveal_with_fuel(top_width, 2);
        assert(top_width(s, 1) == 1);
        lemma_agrees_any_ip(dropped(f, top_width(s, 1)), AbstractFrame { locals: af.locals, stack: s.take(s.len() - 1) }, f.ip + 1);
    }
}

/// The branches on two `int`s.
#[verifier::spinoff_prover]
#[verifier::rlimit(40)]
proof fn lemma_int2_branch(f: SpecFrame, af: AbstractFrame, op: Op, max: nat)
    requires
        safe_start(f, af, op, max),
        op is IfICmpEq || op is IfICmpNe || op is IfICmpLt || op is IfICmpGe || op is IfICmpGt || op is IfICmpLe,
    ensures
        step_keeps_agreement(f, af, op, max),
{
    reveal(stack_effect);
    let s = af.stack;
    let it = ValueType::Integer;
    let lt = ValueType::Long;
    let ft = ValueType::Float;
    let dt = ValueType::Double;
    let rt = ValueType::Reference;
    if apply_effect(s, seq![it, it], seq![], max) is Ok {
        lemma_effect_pop(f, af, seq![it, it], max);
        assert(s[s.len() - 1 - 0] == it);
        assert(s[s.len() - 1 - 1] == it);
        reveal_with_fuel(top_width, 3);
        assert(top_width(s, 1) == 1);
        assert(top_width(s, 2) == 2);
        lemma_agrees_any_ip(dropped(f, top_width(s, 2)), AbstractFrame { locals: af.locals, stack: s.take(s.len() - 2) }, f.ip + 1);
    }
}

/// The branches on two references.
#[verifier::spinoff_prover]
#[verifier::rlimit(40)]
proof fn lemma_ref2_branch(f: SpecFrame, af: AbstractFrame, op: Op, max: nat)
    requires
        safe_start(f, af, op, max),
        op is IfACmpEq || op is IfACmpNe,
    ensures
        step_keeps_agreement(f, af, op, max),
{
    reveal(stack_effect);
    let s = af.stack;
    let it = ValueType::Integer;
    let lt = ValueType::Long;
    let ft = ValueType::Float;
    let dt = ValueType::Double;
    let rt = ValueType::Reference;
    if apply_effect(s, seq![rt, rt], seq![], max) is Ok {
        lemma_effect_pop(f, af, seq![rt, rt], max);
        assert(s[s.len() - 1 - 0] == rt);
        assert(s[s.len() - 1 - 1] == rt);
        reveal_with_fuel(top_width, 3);
        assert(top_width(s, 1) == 1);
        assert(top_width(s, 2) == 2);
        lemma_agrees_any_ip(dropped(f, top_width(s, 2)), AbstractFrame { locals: af.locals, stack: s.take(s.len() - 2) }, f.ip + 1);
    }
}

/// The branches on one reference.
#[verifier::spinoff_prover]
#[verifier::rlimit(40)]
proof fn lemma_ref_branch(f: SpecFrame, af: AbstractFrame, op: Op, max: nat)
    requires
        safe_start(f, af, op, max),
        op is IfNull || op is IfNonNull,
    ensures
        step_keeps_agreement(f, af, op, max),
{
    reveal(stack_effect);
    let s = af.stack;
    let it = ValueType::Integer;
    let lt = ValueType::Long;
    let ft = ValueType::Float;
    let dt = ValueType::Double;
    let rt = ValueType::Reference;
    if apply_effect(s, seq![rt], seq![], max) is Ok {
        lemma_effect_pop(f, af, seq![rt], max);
        assert(s[s.len() - 1 - 0] == rt);
        reveal_with_fuel(top_width, 2);
        assert(top_width(s, 1) == 1);
        lemma_agrees_any_ip(dropped(f, top_width(s, 1)), AbstractFrame { locals: af.locals, stack: s.take(s.len() - 1) }, f.ip + 1);
    }
}

/// `idiv` and `irem`.
#[verifier::spinoff_prover]
#[verifier::rlimit(40)]
proof fn lemma_int_div(f: SpecFrame, af: AbstractFrame, op: Op, max: nat)
    requires
        safe_start(f, af, op, max),
        op is IDiv || op is IRem,
    ensures
        step_keeps_agreement(f, af, op, max),
{
    reveal(stack_effect);
    let s = af.stack;
    let it = ValueType::Integer;
    if apply_effect(s, seq![it, it], seq![it], max) is Ok {
        lemma_effect_push(f, af, seq![it, it], it, max);
        assert(s[s.len() - 1 - 0] == it);
        assert(s[s.len() - 1 - 1] == it);
        reveal_with_fuel(top_width, 3);
        assert(top_width(s, 1) == 1);
        assert(top_width(s, 2) == 2);
    }
}

/// `ldiv` and `lrem`.
#[verifier::spinoff_prover]
#[verifier::rlimit(40)]
proof fn lemma_long_div(f: SpecFrame, af: AbstractFrame, op: Op, max: nat)
    requires
        safe_start(f, af, op, max),
        op is LDiv || op is LRem,
    ensures
        step_keeps_agreement(f, af, op, max),
{
    reveal(stack_effect);
    let s = af.stack;
    let lt = ValueType::Long;
    if apply_effect(s, seq![lt, lt], seq![lt], max) is Ok {
        lemma_effect_push(f, af, seq![lt, lt], lt, max);
        assert(s[s.len() - 1 - 0] == lt);
        assert(s[s.len() - 1 - 1] == lt);
        reveal_with_fuel(top_width, 3);
        assert(top_width(s, 1) == 2);
        assert(top_width(s, 2) == 4);
        assert(fits(f.slots[f.top - top_width(s, 0int + 1)], seq![lt, lt][0]));
        assert(fits(f.slots[f.top - top_width(s, 1int + 1)], seq![lt, lt][1]));
        assert(has(f, top_width(s, 2)));
        assert(crate::interpret::prims(f, 4, 2, 4));
    }
}

/// The returns.
#[verifier::spinoff_prover]
#[verifier::rlimit(40)]
proof fn lemma_return(f: SpecFrame, af: AbstractFrame, op: Op, max: nat)
    requires
        safe_start(f, af, op, max),
        op is IReturn || op is LReturn || op is FReturn || op is DReturn || op is AReturn || op is Return,
    ensures
        step_keeps_agreement(f, af, op, max),
{
    reveal(stack_effect);
    let s = af.stack;
    let t = match op {
        Op::IReturn => ValueType::Integer,
        Op::LReturn => ValueType::Long,
        Op::FReturn => ValueType::Float,
        Op::DReturn => ValueType::Double,
        _ => ValueType::Reference,
    };
    if !(op is Return) && apply_effect(s, seq![t], seq![], max) is Ok {
        lemma_effect_pop(f, af, seq![t], max);
        assert(s[s.len() - 1 - 0] == t);
        reveal_with_fuel(top_width, 2);
        assert(top_width(s, 1) == width(t));
    }
}

/// The ops that push a constant.
#[verifier::spinoff_prover]
#[verifier::rlimit(40)]
proof fn lemma_constant(f: SpecFrame, af: AbstractFrame, op: Op, max: nat)
    requires
        safe_start(f, af, op, max),
        op is AConstNull || op is IConst || op is LConst || op is FConst || op is DConst || op is LoadLong
            || op is LoadDouble || op is Ldc,
    ensures
        step_keeps_agreement(f, af, op, max),
{
    reveal(stack_effect);
    let s = af.stack;
    let t = match op {
        Op::AConstNull => ValueType::Reference,
        Op::IConst(_) => ValueType::Integer,
        Op::LConst(_) | Op::LoadLong(_) => ValueType::Long,
        Op::FConst(_) => ValueType::Float,
        Op::DConst(_) | Op::LoadDouble(_) => ValueType::Double,
        Op::Ldc(e) => crate::verify::ldc_kind(e@),
        _ => ValueType::Invalid,
    };
    assert(dropped(f, 0) == f);
    if apply_effect(s, seq![], seq![t], max) is Ok {
        lemma_effect_push(f, af, seq![], t, max);
        reveal_with_fuel(top_width, 1);
        assert(top_width(s, 0) == 0);
    }
}

/// `nop` and `goto`.
#[verifier::spinoff_prover]
#[verifier::rlimit(40)]
proof fn lemma_nop_goto(f: SpecFrame, af: AbstractFrame, op: Op, max: nat)
    requires
        safe_start(f, af, op, max),
        op is Nop || op is Goto,
    ensures
        step_keeps_agreement(f, af, op, max),
{
    reveal(stack_effect);
    let s = af.stack;
    if apply_effect(s, seq![], seq![], max) is Ok {
        lemma_effect_pop(f, af, seq![], max);
        assert(s.take(s.len() - 0) =~= s);
        assert(dropped(f, 0) == f);
        reveal_with_fuel(top_width, 1);
        assert(top_width(s, 0) == 0);
    }
}

/// Writing a value of the kind `t` says into local `i` of an agreeing frame
/// gives a frame that agrees once local `i` has type `t`.
proof fn lemma_set_local(g: SpecFrame, ag: AbstractFrame, i: int, v: Value, t: ValueType)
    requires
        agrees(g, ag),
        0 <= i < ag.locals.len(),
        fits(v, t),
    ensures
        agrees(
            SpecFrame { slots: g.slots.update(i, v), ..g },
            AbstractFrame { locals: ag.locals.update(i, t), stack: ag.stack },
        ),
{
    let h = SpecFrame { slots: g.slots.update(i, v), ..g };
    let s = ag.stack;
    lemma_size_bounds(s);
    assert forall|j: int| 0 <= j < s.len() implies fits(h.slots[entry_slot(h.local_count, s, j)], #[trigger] s[j]) by {
        lemma_size_bounds(s.take(j));
        lemma_size_prefix(s, j);
        assert(fits(g.slots[entry_slot(g.local_count, s, j)], s[j]));
    }
}

/// Marking a local unusable keeps a frame agreeing.
proof fn lemma_invalidate_local(g: SpecFrame, ag: AbstractFrame, i: int)
    requires
        agrees(g, ag),
        0 <= i < ag.locals.len(),
    ensures
        agrees(g, AbstractFrame { locals: ag.locals.update(i, ValueType::Invalid), stack: ag.stack }),
{
    let ag2 = AbstractFrame { locals: ag.locals.update(i, ValueType::Invalid), stack: ag.stack };
    assert forall|j: int| 0 <= j < ag2.locals.len() implies fits(#[trigger] g.slots[j], ag2.locals[j]) by {
        if j != i {
            assert(fits(g.slots[j], ag.locals[j]));
        }
    }
}

/// The loads of locals.
#[verifier::spinoff_prover]
#[verifier::rlimit(40)]
proof fn lemma_load(f: SpecFrame, af: AbstractFrame, op: Op, max: nat)
    requires
        safe_start(f, af, op, max),
        op is ILoad || op is FLoad || op is ALoad || op is LLoad || op is DLoad,
    ensures
        step_keeps_agreement(f, af, op, max),
{
    let s = af.stack;
    let (i, t, wide) = match op {
        Op::ILoad(i) => (i, ValueType::Integer, false),
        Op::FLoad(i) => (i, ValueType::Float, false),
        Op::ALoad(i) => (i, ValueType::Reference, false),
        Op::LLoad(i) => (i, ValueType::Long, true),
        Op::DLoad(i) => (i, ValueType::Double, true),
        _ => (0usize, ValueType::Invalid, false),
    };
    if crate::verify::load_local(af, i as int, t, wide, max) is Ok {
        assert(af.locals[i as int] == t);
        assert(fits(f.slots[i as int], af.locals[i as int]));
        lemma_replace(f, af, 0, t, max);
        reveal_with_fuel(top_width, 1);
        assert(top_width(s, 0) == 0);
        assert(dropped(f, 0) == f);
        assert(s.take(s.len() - 0) =~= s);
        assert(s + seq![t] =~= s.push(t));
    }
}

/// The stores into locals, `astore` included.
#[verifier::spinoff_prover]
#[verifier::rlimit(40)]
proof fn lemma_store(f: SpecFrame, af: AbstractFrame, op: Op, max: nat)
    requires
        safe_start(f, af, op, max),
        op is IStore || op is FStore || op is AStore || op is LStore || op is DStore,
    ensures
        step_keeps_agreement(f, af, op, max),
{
    let s = af.stack;
    if crate::verify::spec_step(op, f.ip, max, af) is Ok {
        let (i, wide) = match op {
            Op::IStore(i) | Op::FStore(i) | Op::AStore(i) => (i, false),
            Op::LStore(i) | Op::DStore(i) => (i, true),
            _ => (0usize, false),
        };
        let t = s.last();
        assert(s.len() > 0);
        assert(width(t) == if wide { 2int } else { 1int });
        lemma_pop_k(f, af, 1);
        lemma_entry(f, af, 1);
        reveal_with_fuel(top_width, 2);
        assert(top_width(s, 1) == width(t));
        let g = dropped(f, width(t));
        let ag = AbstractFrame { locals: af.locals, stack: s.take(s.len() - 1) };
        assert(s.take(s.len() - 1) =~= s.drop_last());
        lemma_set_local(g, ag, i as int, f.slots[f.top - width(t)], t);
        let h = SpecFrame { slots: g.slots.update(i as int, f.slots[f.top - width(t)]), ..g };
        if wide {
            lemma_invalidate_local(h, AbstractFrame { locals: af.locals.update(i as int, t), stack: ag.stack }, i + 1);
        }
    }
}

/// `iinc`.
#[verifier::spinoff_prover]
#[verifier::rlimit(40)]
proof fn lemma_iinc(f: SpecFrame, af: AbstractFrame, op: Op, max: nat)
    requires
        safe_start(f, af, op, max),
        op is IInc,
    ensures
        step_keeps_agreement(f, af, op, max),
{
    if let Op::IInc(i, amount) = op {
        if crate::verify::expect_local(af.locals, i as int, ValueType::Integer) is Ok {
            assert(fits(f.slots[i as int], af.locals[i as int]));
            let v = crate::value::int_value(crate::value::int_of(f.slots[i as int]).wrapping_add(amount));
            lemma_set_local(f, af, i as int, v, ValueType::Integer);
            assert(af.locals.update(i as int, ValueType::Integer) =~= af.locals);
        }
    }
}

/// Two stacks one on the other take the slots of both.
proof fn lemma_size_concat(a: Seq<ValueType>, b: Seq<ValueType>)
    ensures
        stack_size(a + b) == stack_size(a) + stack_size(b),
    decreases b.len(),
{
    if b.len() == 0 {
        assert(a + b =~= a);
    } else {
        assert((a + b).drop_last() =~= a + b.drop_last());
        lemma_size_concat(a, b.drop_last());
    }
}

/// Writing slots `vs` on top of an agreeing frame, where each value of `ts`
/// finds a value of its kind at the slot where it starts, gives a frame that
/// agrees with `ts` pushed.
proof fn lemma_write_entries(g: SpecFrame, ag: AbstractFrame, vs: Seq<Value>, ts: Seq<ValueType>)
    requires
        agrees(g, ag),
        stack_size(ts) == vs.len(),
        g.top + vs.len() <= g.slots.len(),
        forall|j: int| 0 <= j < ts.len() ==> fits(vs[stack_size(ts.take(j))], #[trigger] ts[j]),
    ensures
        agrees(
            SpecFrame { slots: g.slots.update_subrange_with(g.top, vs), top: g.top + vs.len(), ..g },
            AbstractFrame { locals: ag.locals, stack: ag.stack + ts },
        ),
{
    let s = ag.stack;
    let s2 = s + ts;
    let h = SpecFrame { slots: g.slots.update_subrange_with(g.top, vs), top: g.top + vs.len(), ..g };
    lemma_size_concat(s, ts);
    lemma_size_bounds(s);
    assert forall|i: int| 0 <= i < ag.locals.len() implies fits(#[trigger] h.slots[i], ag.locals[i]) by {
        assert(fits(g.slots[i], ag.locals[i]));
    }
    assert forall|i: int| 0 <= i < s2.len() implies fits(h.slots[entry_slot(h.local_count, s2, i)], #[trigger] s2[i]) by {
        if i < s.len() {
            assert(s2.take(i) =~= s.take(i));
            lemma_size_prefix(s, i);
            lemma_size_bounds(s.take(i));
            assert(s2[i] == s[i]);
            assert(fits(g.slots[entry_slot(g.local_count, s, i)], s[i]));
        } else {
            let j = i - s.len();
            assert(s2.take(i) =~= s + ts.take(j));
            lemma_size_concat(s, ts.take(j));
            lemma_size_prefix(ts, j);
            lemma_size_bounds(ts.take(j));
            assert(s2[i] == ts[j]);
            assert(fits(vs[stack_size(ts.take(j))], ts[j]));
        }
    }
}

/// The slots values of the kinds `ts` start at: sizes of short lists.
proof fn lemma_small_sizes(ts: Seq<ValueType>)
    requires
        1 <= ts.len() <= 4,
    ensures
        stack_size(ts.take(0)) == 0,
        stack_size(ts.take(1)) == width(ts[0]),
        ts.len() >= 2 ==> stack_size(ts.take(2)) == width(ts[0]) + width(ts[1]),
        ts.len() >= 3 ==> stack_size(ts.take(3)) == width(ts[0]) + width(ts[1]) + width(ts[2]),
        stack_size(ts) == stack_size(ts.take(ts.len() - 1)) + width(ts[ts.len() - 1]),
{
    lemma_size_take(ts, 0);
    assert(ts.take(0) =~= Seq::<ValueType>::empty());
    if ts.len() >= 2 {
        lemma_size_take(ts, 1);
    }
    if ts.len() >= 3 {
        lemma_size_take(ts, 2);
    }
    lemma_size_take(ts, ts.len() - 1);
    assert(ts.take(ts.len() as int) =~= ts);
}

/// A shuffle that pops the top `k` values and writes the slots `vs`, which
/// hold the values `ts`, keeps the frame agreeing.
proof fn lemma_shuffle_write(f: SpecFrame, af: AbstractFrame, k: int, vs: Seq<Value>, ts: Seq<ValueType>, max: nat)
    requires
        agrees(f, af),
        f.local_count + 2 * max <= f.slots.len(),
        0 <= k <= af.stack.len(),
        af.stack.len() - k + ts.len() <= max || ts.len() <= k,
        stack_size(ts) == vs.len(),
        vs.len() <= top_width(af.stack, k) || af.stack.len() - k + ts.len() <= max,
        forall|j: int| 0 <= j < ts.len() ==> fits(vs[stack_size(ts.take(j))], #[trigger] ts[j]),
    ensures
        has(f, top_width(af.stack, k)),
        room(dropped(f, top_width(af.stack, k)), vs.len() as int),
        agrees(
            SpecFrame {
                slots: dropped(f, top_width(af.stack, k)).slots.update_subrange_with(
                    dropped(f, top_width(af.stack, k)).top,
                    vs,
                ),
                top: dropped(f, top_width(af.stack, k)).top + vs.len(),
                ..dropped(f, top_width(af.stack, k))
            },
            AbstractFrame { locals: af.locals, stack: af.stack.take(af.stack.len() - k) + ts },
        ),
{
    let s = af.stack;
    lemma_pop_k(f, af, k);
    lemma_size_split(s, k);
    lemma_size_bounds(s.take(s.len() - k));
    lemma_size_bounds(ts);
    let g = dropped(f, top_width(s, k));
    lemma_write_entries(g, AbstractFrame { locals: af.locals, stack: s.take(s.len() - k) }, vs, ts);
}

/// `pop` and `pop2`.
#[verifier::spinoff_prover]
#[verifier::rlimit(60)]
proof fn lemma_pops(f: SpecFrame, af: AbstractFrame, op: Op, max: nat)
    requires
        safe_start(f, af, op, max),
        op is Pop || op is Pop2,
    ensures
        step_keeps_agreement(f, af, op, max),
{
    reveal(crate::verify::shuffle);
    let s = af.stack;
    if crate::verify::shuffle(op, s, max) is Ok {
        reveal_with_fuel(top_width, 3);
        let k: int = if op is Pop || value_is_wide(nth_top(s, 1)) { 1 } else { 2 };
        lemma_pop_k(f, af, k);
        assert(crate::verify::below(s, k) =~= s.take(s.len() - k));
    }
}

/// `dup`.
#[verifier::spinoff_prover]
#[verifier::rlimit(60)]
proof fn lemma_dup(f: SpecFrame, af: AbstractFrame, op: Op, max: nat)
    requires
        safe_start(f, af, op, max),
        op is Dup,
    ensures
        step_keeps_agreement(f, af, op, max),
{
    reveal(crate::verify::shuffle);
    let s = af.stack;
    if crate::verify::shuffle(op, s, max) is Ok {
        let n = s.len();
        let v1 = nth_top(s, 1);
        let v2 = nth_top(s, 2);
        let v3 = nth_top(s, 3);
        reveal_with_fuel(top_width, 4);
        lemma_entry(f, af, 1);
        if n >= 2 {
            lemma_entry(f, af, 2);
        }
        if n >= 3 {
            lemma_entry(f, af, 3);
        }
        let b1 = f.slots[f.top - 1];
        let b2 = f.slots[f.top - 2];
        let b3 = f.slots[f.top - 3];
        {
            let vs = seq![b1, b1];
            let ts = seq![v1, v1];
            lemma_small_sizes(ts);
            assert(crate::verify::below(s, 1) =~= s.take(n - 1));
            lemma_shuffle_write(f, af, 1, vs, ts, max);
        }
    }
}

/// `dup_x1`.
#[verifier::spinoff_prover]
#[verifier::rlimit(60)]
proof fn lemma_dup_x1(f: SpecFrame, af: AbstractFrame, op: Op, max: nat)
    requires
        safe_start(f, af, op, max),
        op is DupX1,
    ensures
        step_keeps_agreement(f, af, op, max),
{
    reveal(crate::verify::shuffle);
    let s = af.stack;
    if crate::verify::shuffle(op, s, max) is Ok {
        let n = s.len();
        let v1 = nth_top(s, 1);
        let v2 = nth_top(s, 2);
        let v3 = nth_top(s, 3);
        reveal_with_fuel(top_width, 4);
        lemma_entry(f, af, 1);
        if n >= 2 {
            lemma_entry(f, af, 2);
        }
        if n >= 3 {
            lemma_entry(f, af, 3);
        }
        let b1 = f.slots[f.top - 1];
        let b2 = f.slots[f.top - 2];
        let b3 = f.slots[f.top - 3];
        {
            let vs = seq![b1, b2, b1];
            let ts = seq![v1, v2, v1];
            lemma_small_sizes(ts);
            assert(crate::verify::below(s, 2) =~= s.take(n - 2));
            lemma_shuffle_write(f, af, 2, vs, ts, max);
        }
    }
}

/// `dup_x2`.
#[verifier::spinoff_prover]
#[verifier::rlimit(60)]
proof fn lemma_dup_x2(f: SpecFrame, af: AbstractFrame, op: Op, max: nat)
    requires
        safe_start(f, af, op, max),
        op is DupX2,
    ensures
        step_keeps_agreement(f, af, op, max),
{
    reveal(crate::verify::shuffle);
    let s = af.stack;
    if crate::verify::shuffle(op, s, max) is Ok {
        let n = s.len();
        let v1 = nth_top(s, 1);
        let v2 = nth_top(s, 2);
        let v3 = nth_top(s, 3);
        reveal_with_fuel(top_width, 4);
        lemma_entry(f, af, 1);
        if n >= 2 {
            lemma_entry(f, af, 2);
        }
        if n >= 3 {
            lemma_entry(f, af, 3);
        }
        let b1 = f.slots[f.top - 1];
        let b2 = f.slots[f.top - 2];
        let b3 = f.slots[f.top - 3];
        if value_is_wide(v2) {
            let vs = seq![b1, b3, b2, b1];
            let ts = seq![v1, v2, v1];
            lemma_small_sizes(ts);
            assert(crate::verify::below(s, 2) =~= s.take(n - 2));
            lemma_shuffle_write(f, af, 2, vs, ts, max);
        } else {
            let vs = seq![b1, b3, b2, b1];
            let ts = seq![v1, v3, v2, v1];
            lemma_small_sizes(ts);
            assert(crate::verify::below(s, 3) =~= s.take(n - 3));
            lemma_shuffle_write(f, af, 3, vs, ts, max);
        }
    }
}

/// `dup2`.
#[verifier::spinoff_prover]
#[verifier::rlimit(60)]
proof fn lemma_dup2(f: SpecFrame, af: AbstractFrame, op: Op, max: nat)
    requires
        safe_start(f, af, op, max),
        op is Dup2,
    ensures
        step_keeps_agreement(f, af, op, max),
{
    reveal(crate::verify::shuffle);
    let s = af.stack;
    if crate::verify::shuffle(op, s, max) is Ok {
        let n = s.len();
        let v1 = nth_top(s, 1);
        let v2 = nth_top(s, 2);
        let v3 = nth_top(s, 3);
        reveal_with_fuel(top_width, 4);
        lemma_entry(f, af, 1);
        if n >= 2 {
            lemma_entry(f, af, 2);
        }
        if n >= 3 {
            lemma_entry(f, af, 3);
        }
        let b1 = f.slots[f.top - 1];
        let b2 = f.slots[f.top - 2];
        let b3 = f.slots[f.top - 3];
        if value_is_wide(v1) {
            let vs = seq![b2, b1, b2, b1];
            let ts = seq![v1, v1];
            lemma_small_sizes(ts);
            assert(crate::verify::below(s, 1) =~= s.take(n - 1));
            lemma_shuffle_write(f, af, 1, vs, ts, max);
        } else {
            let vs = seq![b2, b1, b2, b1];
            let ts = seq![v2, v1, v2, v1];
            lemma_small_sizes(ts);
            assert(crate::verify::below(s, 2) =~= s.take(n - 2));
            lemma_shuffle_write(f, af, 2, vs, ts, max);
        }
    }
}

/// `swap`.
#[verifier::spinoff_prover]
#[verifier::rlimit(60)]
proof fn lemma_swap(f: SpecFrame, af: AbstractFrame, op: Op, max: nat)
    requires
        safe_start(f, af, op, max),
        op is Swap,
    ensures
        step_keeps_agreement(f, af, op, max),
{
    reveal(crate::verify::shuffle);
    let s = af.stack;
    if crate::verify::shuffle(op, s, max) is Ok {
        let n = s.len();
        let v1 = nth_top(s, 1);
        let v2 = nth_top(s, 2);
        let v3 = nth_top(s, 3);
        reveal_with_fuel(top_width, 4);
        lemma_entry(f, af, 1);
        if n >= 2 {
            lemma_entry(f, af, 2);
        }
        if n >= 3 {
            lemma_entry(f, af, 3);
        }
        let b1 = f.slots[f.top - 1];
        let b2 = f.slots[f.top - 2];
        let b3 = f.slots[f.top - 3];
        {
            let vs = seq![b1, b2];
            let ts = seq![v1, v2];
            lemma_small_sizes(ts);
            assert(crate::verify::below(s, 2) =~= s.take(n - 2));
            lemma_shuffle_write(f, af, 2, vs, ts, max);
        }
    }
}

/// The verifier's types are kept by the interpreter: when a frame is laid
/// out as the verifier's frame for an op says (each value of the kind of its
/// type, a wide value in two slots) and has room for twice the values the
/// verifier allows on the stack, then if the verifier accepts the op (and it
/// is not a `ret`), running it on the frame has a defined outcome, and when
/// it goes on to another op the new frame is laid out as the verifier's
/// frame after the op says. Left out: a division or remainder of the least
/// value by `-1`, and `pop2` and `dup_x2` over a one-slot value with a wide
/// value below it, which the verifier accepts on three values though the
/// interpreter moves three slots.
pub proof fn lemma_verified_step_keeps_types(f: SpecFrame, af: AbstractFrame, op: Op, max: nat)
    requires
        safe_start(f, af, op, max),
    ensures
        step_keeps_agreement(f, af, op, max),
{
    match op {
        Op::IAdd | Op::ISub | Op::IMul | Op::IShl | Op::IShr | Op::IUshr | Op::IAnd | Op::IOr | Op::IXor =>
            lemma_int_binop(f, af, op, max),
        Op::IDiv | Op::IRem => lemma_int_div(f, af, op, max),
        Op::INeg | Op::I2B | Op::I2C | Op::I2S => lemma_int_unop(f, af, op, max),
        Op::LAdd | Op::LSub | Op::LMul | Op::LAnd | Op::LOr | Op::LXor => lemma_long_binop(f, af, op, max),
        Op::LDiv | Op::LRem => lemma_long_div(f, af, op, max),
        Op::LNeg => lemma_long_neg(f, af, op, max),
        Op::LShl | Op::LShr | Op::LUshr => lemma_long_shift(f, af, op, max),
        Op::I2L => lemma_int_to_long(f, af, op, max),
        Op::L2I => lemma_long_to_int(f, af, op, max),
        Op::LCmp => lemma_long_compare(f, af, op, max),
        Op::IfEq(_) | Op::IfNe(_) | Op::IfLt(_) | Op::IfGe(_) | Op::IfGt(_) | Op::IfLe(_) | Op::TableSwitch(_)
        | Op::LookupSwitch(_) => lemma_int_branch(f, af, op, max),
        Op::IfICmpEq(_) | Op::IfICmpNe(_) | Op::IfICmpLt(_) | Op::IfICmpGe(_) | Op::IfICmpGt(_)
        | Op::IfICmpLe(_) => lemma_int2_branch(f, af, op, max),
        Op::IfACmpEq(_) | Op::IfACmpNe(_) => lemma_ref2_branch(f, af, op, max),
        Op::IfNull(_) | Op::IfNonNull(_) => lemma_ref_branch(f, af, op, max),
        Op::IReturn | Op::LReturn | Op::FReturn | Op::DReturn | Op::AReturn | Op::Return =>
            lemma_return(f, af, op, max),
        Op::AConstNull | Op::IConst(_) | Op::LConst(_) | Op::FConst(_) | Op::DConst(_) | Op::LoadLong(_)
        | Op::LoadDouble(_) | Op::Ldc(_) => lemma_constant(f, af, op, max),
        Op::Nop | Op::Goto(_) => lemma_nop_goto(f, af, op, max),
        Op::ILoad(_) | Op::FLoad(_) | Op::ALoad(_) | Op::LLoad(_) | Op::DLoad(_) => lemma_load(f, af, op, max),
        Op::IStore(_) | Op::FStore(_) | Op::AStore(_) | Op::LStore(_) | Op::DStore(_) => lemma_store(f, af, op, max),
        Op::IInc(_, _) => lemma_iinc(f, af, op, max),
        Op::Pop | Op::Pop2 => lemma_pops(f, af, op, max),
        Op::Dup => lemma_dup(f, af, op, max),
        Op::DupX1 => lemma_dup_x1(f, af, op, max),
        Op::DupX2 => lemma_dup_x2(f, af, op, max),
        Op::Dup2 => lemma_dup2(f, af, op, max),
        Op::Swap => lemma_swap(f, af, op, max),
        _ => {},
    }
}

} // verus!
