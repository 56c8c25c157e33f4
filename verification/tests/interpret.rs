use rjvm_core::classfile::constant_pool::ConstantPoolEntry;
use rjvm_core::interpret::{BuiltinException, Flow, Frame};
use rjvm_core::op::{Exception, LookupSwitchInfo, Op, TableSwitchInfo};
use rjvm_core::string::JvmString;
use rjvm_core::descriptor::MethodDescriptor;
use rjvm_core::value::Value;
use rjvm_core::verify::verify_ops;

fn run(ops: &[Op], locals: usize, stack: usize, args: &[Value]) -> (Frame, Option<Flow>) {
    let mut frame = Frame::new(locals, stack, args);
    let flow = frame.run(ops, 1000);
    (frame, flow)
}

fn returned_int(ops: &[Op], args: &[Value]) -> i32 {
    match run(ops, args.len().max(1), 8, args).1 {
        Some(Flow::Return(Some(v))) => v.to_int(),
        other => panic!("unexpected outcome {:?}", other),
    }
}

fn returned_long(ops: &[Op]) -> i64 {
    match run(ops, 1, 8, &[]).1 {
        Some(Flow::Return(Some(v))) => v.long(),
        other => panic!("unexpected outcome {:?}", other),
    }
}

#[test]
fn new_frame_fills_the_locals() {
    let frame = Frame::new(3, 2, &[Value::Integer(7)]);
    assert_eq!(frame.ip(), 0);
    assert_eq!(frame.top(), 3);
    assert_eq!(frame.slot(0), Value::Integer(7));
    assert_eq!(frame.slot(1), Value::Integer(0));
    assert_eq!(frame.slot(4), Value::Integer(0));
}

#[test]
fn values_round_trip() {
    assert_eq!(Value::Integer(-5).to_int(), -5);
    assert_eq!(Value::Integer(-1), Value::Primitive(u64::MAX));
    assert_eq!(Value::Long(i64::MIN).long(), i64::MIN);
    assert_eq!(Value::Object(Some(3)).object(), Some(3));
    assert_eq!(Value::Object(None).object(), None);
}

#[test]
fn branches_and_integer_arithmetic() {
    // a == 0 ? 1 : a * 2
    let ops = [
        Op::ILoad(0),
        Op::IfNe(4),
        Op::IConst(1),
        Op::IReturn,
        Op::ILoad(0),
        Op::IConst(2),
        Op::IMul,
        Op::IReturn,
    ];
    assert_eq!(returned_int(&ops, &[Value::Integer(5)]), 10);
    assert_eq!(returned_int(&ops, &[Value::Integer(0)]), 1);
}

#[test]
fn integer_arithmetic_wraps() {
    let add = [Op::IConst(i32::MAX), Op::IConst(1), Op::IAdd, Op::IReturn];
    assert_eq!(returned_int(&add, &[]), i32::MIN);
    let sub = [Op::IConst(3), Op::IConst(10), Op::ISub, Op::IReturn];
    assert_eq!(returned_int(&sub, &[]), -7);
    let neg = [Op::IConst(i32::MIN), Op::INeg, Op::IReturn];
    assert_eq!(returned_int(&neg, &[]), i32::MIN);
    let div = [Op::IConst(-7), Op::IConst(2), Op::IDiv, Op::IReturn];
    assert_eq!(returned_int(&div, &[]), -3);
    let rem = [Op::IConst(-7), Op::IConst(2), Op::IRem, Op::IReturn];
    assert_eq!(returned_int(&rem, &[]), -1);
    let div = [Op::IConst(i32::MIN), Op::IConst(-1), Op::IDiv, Op::IReturn];
    assert_eq!(returned_int(&div, &[]), i32::MIN);
    let rem = [Op::IConst(i32::MIN), Op::IConst(-1), Op::IRem, Op::IReturn];
    assert_eq!(returned_int(&rem, &[]), 0);
    let inc = [Op::IInc(0, 5), Op::ILoad(0), Op::IReturn];
    assert_eq!(returned_int(&inc, &[Value::Integer(i32::MAX)]), i32::MIN + 4);
}

#[test]
fn shifts_mask_their_distance() {
    let ushr = [Op::IConst(-8), Op::IConst(1), Op::IUshr, Op::IReturn];
    assert_eq!(returned_int(&ushr, &[]), 0x7FFF_FFFC);
    let shr = [Op::IConst(-8), Op::IConst(33), Op::IShr, Op::IReturn];
    assert_eq!(returned_int(&shr, &[]), -4);
    let shl = [Op::IConst(1), Op::IConst(35), Op::IShl, Op::IReturn];
    assert_eq!(returned_int(&shl, &[]), 8);
    let lshl = [Op::LoadLong(1), Op::IConst(40), Op::LShl, Op::LReturn];
    assert_eq!(returned_long(&lshl), 1 << 40);
    // A long shifted right uses the low six bits of the distance.
    let lshr = [Op::LoadLong(1 << 40), Op::IConst(32), Op::LShr, Op::LReturn];
    assert_eq!(returned_long(&lshr), 256);
    let lshr = [Op::LoadLong(-(1 << 40)), Op::IConst(96), Op::LShr, Op::LReturn];
    assert_eq!(returned_long(&lshr), -256);
    let lushr = [Op::LoadLong(-1), Op::IConst(60), Op::LUshr, Op::LReturn];
    assert_eq!(returned_long(&lushr), 0xF);
}

#[test]
fn long_arithmetic_and_comparison() {
    let div = [Op::LoadLong(-3), Op::LoadLong(2), Op::LDiv, Op::LReturn];
    assert_eq!(returned_long(&div), -1);
    let rem = [Op::LoadLong(-3), Op::LoadLong(2), Op::LRem, Op::LReturn];
    assert_eq!(returned_long(&rem), -1);
    let div = [Op::LoadLong(i64::MIN), Op::LoadLong(-1), Op::LDiv, Op::LReturn];
    assert_eq!(returned_long(&div), i64::MIN);
    let rem = [Op::LoadLong(i64::MIN), Op::LoadLong(-1), Op::LRem, Op::LReturn];
    assert_eq!(returned_long(&rem), 0);
    let mul = [Op::LConst(1), Op::LoadLong(i64::MAX), Op::LMul, Op::LReturn];
    assert_eq!(returned_long(&mul), i64::MAX);
    let cmp = [Op::LoadLong(5), Op::LConst(1), Op::LCmp, Op::IReturn];
    assert_eq!(returned_int(&cmp, &[]), 1);
    let cmp = [Op::LConst(0), Op::LConst(1), Op::LCmp, Op::IReturn];
    assert_eq!(returned_int(&cmp, &[]), -1);
    let cmp = [Op::LConst(1), Op::LConst(1), Op::LCmp, Op::IReturn];
    assert_eq!(returned_int(&cmp, &[]), 0);
}

#[test]
fn conversions_truncate_and_extend() {
    let i2b = [Op::IConst(0x1FF), Op::I2B, Op::IReturn];
    assert_eq!(returned_int(&i2b, &[]), -1);
    let i2c = [Op::IConst(-1), Op::I2C, Op::IReturn];
    assert_eq!(returned_int(&i2c, &[]), 0xFFFF);
    let i2s = [Op::IConst(0x18000), Op::I2S, Op::IReturn];
    assert_eq!(returned_int(&i2s, &[]), -0x8000);
    let l2i = [Op::LoadLong(0x1_0000_0005), Op::L2I, Op::IReturn];
    assert_eq!(returned_int(&l2i, &[]), 5);
    let i2l = [Op::IConst(-2), Op::I2L, Op::LReturn];
    assert_eq!(returned_long(&i2l), -2);
}

#[test]
fn division_by_zero_throws_and_is_caught() {
    let ops = [Op::IConst(1), Op::IConst(0), Op::IDiv, Op::Pop, Op::IConst(42), Op::IReturn];
    let mut frame = Frame::new(1, 4, &[]);
    assert_eq!(frame.run(&ops, 100), Some(Flow::Throw(BuiltinException::ArithmeticException)));
    assert_eq!(frame.ip(), 2);
    assert_eq!(frame.top(), 1);
    let table = [Exception { start: 0, end: 3, target: 3, catch_class: None }];
    assert!(frame.handle_error(&table, &[false], 9));
    assert_eq!(frame.ip(), 3);
    assert_eq!(frame.top(), 2);
    assert_eq!(frame.slot(1), Value::Object(Some(9)));
    assert_eq!(frame.run(&ops, 100), Some(Flow::Return(Some(Value::Integer(42)))));
}

#[test]
fn handlers_must_cover_and_catch() {
    let ops = [Op::IConst(1), Op::IConst(0), Op::IDiv, Op::IReturn];
    let mut frame = Frame::new(1, 4, &[]);
    assert_eq!(frame.run(&ops, 100), Some(Flow::Throw(BuiltinException::ArithmeticException)));
    let named = Exception { start: 0, end: 3, target: 3, catch_class: Some(JvmString::from_str("java/io/IOException")) };
    let elsewhere = Exception { start: 3, end: 4, target: 3, catch_class: None };
    assert!(!frame.handle_error(&[named, elsewhere], &[false, true], 9));
    assert_eq!(frame.ip(), 2);
    assert_eq!(frame.top(), 1);
}

#[test]
fn interpreter_stack_shuffles() {
    let dup_x1 = [Op::IConst(1), Op::IConst(2), Op::DupX1, Op::ISub, Op::ISub, Op::IReturn];
    // [2, 1, 2] -> 1 - 2 = -1 -> 2 - (-1) = 3
    assert_eq!(returned_int(&dup_x1, &[]), 3);
    let swap = [Op::IConst(10), Op::IConst(3), Op::Swap, Op::ISub, Op::IReturn];
    assert_eq!(returned_int(&swap, &[]), -7);
    let dup2 = [Op::IConst(4), Op::IConst(5), Op::Dup2, Op::IAdd, Op::IAdd, Op::IAdd, Op::IReturn];
    assert_eq!(returned_int(&dup2, &[]), 18);
    let dup_x2 = [Op::IConst(1), Op::IConst(2), Op::IConst(3), Op::DupX2, Op::Pop, Op::Pop, Op::Pop, Op::IReturn];
    assert_eq!(returned_int(&dup_x2, &[]), 3);
    let stores = [Op::LoadLong(7), Op::LStore(1), Op::LLoad(1), Op::LReturn];
    assert_eq!(returned_long(&stores), 7);
}

#[test]
fn switches_pick_their_targets() {
    let table = |v: i32| {
        vec![
            Op::IConst(v),
            Op::TableSwitch(Box::new(TableSwitchInfo { low_int: 10, matches: vec![2, 4], default_offset: 6 })),
            Op::IConst(100),
            Op::IReturn,
            Op::IConst(200),
            Op::IReturn,
            Op::IConst(300),
            Op::IReturn,
        ]
    };
    assert_eq!(returned_int(&table(10), &[]), 100);
    assert_eq!(returned_int(&table(11), &[]), 200);
    assert_eq!(returned_int(&table(12), &[]), 300);
    assert_eq!(returned_int(&table(i32::MIN), &[]), 300);
    let lookup = |v: i32| {
        vec![
            Op::IConst(v),
            Op::LookupSwitch(Box::new(LookupSwitchInfo { matches: vec![(-5, 2), (7, 4), (7, 6)], default_offset: 6 })),
            Op::IConst(1),
            Op::IReturn,
            Op::IConst(2),
            Op::IReturn,
            Op::IConst(3),
            Op::IReturn,
        ]
    };
    assert_eq!(returned_int(&lookup(-5), &[]), 1);
    assert_eq!(returned_int(&lookup(7), &[]), 2);
    assert_eq!(returned_int(&lookup(0), &[]), 3);
}

#[test]
fn references_compare_by_identity() {
    let ops = [
        Op::ALoad(0),
        Op::ALoad(1),
        Op::IfACmpEq(5),
        Op::IConst(0),
        Op::IReturn,
        Op::IConst(1),
        Op::IReturn,
    ];
    let same = [Value::Object(Some(4)), Value::Object(Some(4))];
    assert_eq!(returned_int(&ops, &same), 1);
    let different = [Value::Object(Some(4)), Value::Object(None)];
    assert_eq!(returned_int(&ops, &different), 0);
    let null = [Op::AConstNull, Op::IfNull(3), Op::Return, Op::IConst(9), Op::IReturn];
    assert_eq!(returned_int(&null, &[]), 9);
}

#[test]
fn constants_and_runtime_ops() {
    let ldc = [Op::Ldc(ConstantPoolEntry::Integer { value: 77 }), Op::IReturn];
    assert_eq!(returned_int(&ldc, &[]), 77);
    let ops = [Op::GcCheck, Op::FConst(0x3f80_0000), Op::FReturn];
    let mut frame = Frame::new(0, 2, &[]);
    assert_eq!(frame.run(&ops, 10), Some(Flow::Runtime));
    assert_eq!(frame.ip(), 0);
    frame.advance();
    assert_eq!(frame.run(&ops, 10), Some(Flow::Return(Some(Value::Primitive(0x3f80_0000)))));
    let void = [Op::Nop, Op::Return];
    assert_eq!(run(&void, 0, 0, &[]).1, Some(Flow::Return(None)));
}

#[test]
fn runs_stop_when_the_fuel_is_spent() {
    let ops = [Op::Nop, Op::Goto(0)];
    let (frame, flow) = run(&ops, 0, 0, &[]);
    assert_eq!(flow, None);
    assert_eq!(frame.ip(), 0);
}

#[test]
fn frames_push_and_pop_for_the_runtime() {
    let mut frame = Frame::new(0, 3, &[]);
    frame.push_wide(Value::Long(5));
    frame.push(Value::Integer(1));
    assert_eq!(frame.top(), 3);
    assert_eq!(frame.pop(), Value::Integer(1));
    assert_eq!(frame.pop_wide(), Value::Long(5));
    assert_eq!(frame.top(), 0);
}

fn descriptor_of(s: &str) -> MethodDescriptor {
    MethodDescriptor::new_from_string(&JvmString::from_str(s)).unwrap()
}

#[test]
fn verified_code_runs_to_its_return() {
    // static long f(int a, long b) { long c = b << a; return a < 0 ? c : c + b; }
    let ops = [
        Op::LLoad(1),
        Op::ILoad(0),
        Op::LShl,
        Op::LStore(3),
        Op::ILoad(0),
        Op::IfGe(8),
        Op::LLoad(3),
        Op::LReturn,
        Op::LLoad(3),
        Op::LLoad(1),
        Op::LAdd,
        Op::LReturn,
    ];
    let m = descriptor_of("(IJ)J");
    assert_eq!(verify_ops(true, &m, 4, 5, &ops, &[]), Ok(()));
    let mut frame = Frame::new(5, 8, &[Value::Integer(3), Value::Long(5)]);
    assert_eq!(frame.run(&ops, 100), Some(Flow::Return(Some(Value::Long(45)))));
}

#[test]
fn pop2_over_a_wide_value_leaves_a_slot() {
    // The verifier takes `pop2` on a long under an int as popping both values;
    // the interpreter pops two slots, leaving the long's lower slot.
    let ops = [Op::LConst(1), Op::IConst(2), Op::Pop2, Op::Return];
    assert_eq!(verify_ops(true, &descriptor_of("()V"), 3, 0, &ops, &[]), Ok(()));
    let mut frame = Frame::new(0, 6, &[]);
    assert_eq!(frame.run(&ops, 10), Some(Flow::Return(None)));
    assert_eq!(frame.top(), 1);
}

#[test]
fn calls_take_their_arguments_and_push_the_result() {
    let mut frame = Frame::new(1, 6, &[]);
    frame.push(Value::Object(Some(4)));
    frame.push(Value::Integer(7));
    frame.push_wide(Value::Long(9));
    let args = frame.take_call_args(4, true).unwrap();
    assert_eq!(args.len(), 4);
    assert_eq!(args[0], Value::Object(Some(4)));
    assert_eq!(args[1], Value::Integer(7));
    assert_eq!(args[2], Value::Long(9));
    assert_eq!(frame.top(), 1);
    frame.finish_call(Some(Value::Long(-3)), true);
    assert_eq!(frame.top(), 3);
    assert_eq!(frame.ip(), 1);
    assert_eq!(frame.peek(2), Value::Long(-3));
    frame.finish_call(None, false);
    assert_eq!(frame.top(), 3);
    assert_eq!(frame.ip(), 2);
    assert_eq!(frame.capacity(), 7);

    frame.push(Value::Object(None));
    frame.push(Value::Integer(1));
    assert_eq!(frame.take_call_args(2, true), None);
    assert_eq!(frame.top(), 3);
}

#[test]
fn static_calls_check_the_stack() {
    let mut frame = Frame::new(1, 3, &[]);
    frame.push(Value::Integer(5));
    assert_eq!(frame.take_static_call_args(3), None);
    assert_eq!(frame.top(), 2);
    let args = frame.take_static_call_args(1).unwrap();
    assert_eq!(args, vec![Value::Integer(5)]);
    assert_eq!(frame.top(), 1);
    // A wide result needs two free slots; there are three.
    assert!(frame.try_finish_call(Some(Value::Long(8)), true));
    assert_eq!(frame.top(), 3);
    assert_eq!(frame.ip(), 1);
    // One free slot is left: a wide result does not fit, a narrow one does.
    assert!(!frame.try_finish_call(Some(Value::Long(1)), true));
    assert_eq!(frame.top(), 3);
    assert_eq!(frame.ip(), 1);
    assert!(frame.try_finish_call(Some(Value::Integer(2)), false));
    assert_eq!(frame.top(), 4);
    assert!(!frame.try_finish_call(Some(Value::Integer(3)), false));
    assert!(frame.try_finish_call(None, false));
    assert_eq!(frame.ip(), 3);
}

#[test]
fn builtin_exceptions_name_their_classes() {
    assert_eq!(BuiltinException::ArithmeticException.class_name(), "java/lang/ArithmeticException");
    assert_eq!(BuiltinException::NullPointerException.class_name(), "java/lang/NullPointerException");
    assert_eq!(
        BuiltinException::ArrayIndexOutOfBoundsException.class_name(),
        "java/lang/ArrayIndexOutOfBoundsException"
    );
    assert_eq!(BuiltinException::NegativeArraySizeException.class_name(), "java/lang/NegativeArraySizeException");
    assert_eq!(BuiltinException::ArrayStoreException.class_name(), "java/lang/ArrayStoreException");
    assert_eq!(BuiltinException::ClassCastException.class_name(), "java/lang/ClassCastException");
}
