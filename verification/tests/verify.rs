use rjvm_core::classfile::constant_pool::ConstantPoolEntry;
use rjvm_core::descriptor::{Descriptor, MethodDescriptor};
use rjvm_core::op::{Exception, FieldTarget, LookupSwitchInfo, MethodTarget, Op, TableSwitchInfo};
use rjvm_core::string::JvmString;
use rjvm_core::verify::{collect_basic_blocks, verify_ops, BlockExits, ValueType, VerifyError};

fn method(descriptor: &str) -> MethodDescriptor {
    MethodDescriptor::new_from_string(&JvmString::from_str(descriptor)).unwrap()
}

fn check(is_static: bool, descriptor: &str, max_stack: usize, max_locals: usize, ops: &[Op]) -> Result<(), VerifyError> {
    verify_ops(is_static, &method(descriptor), max_stack, max_locals, ops, &[])
}

fn field(descriptor: &str) -> FieldTarget {
    FieldTarget {
        class_name: JvmString::from_str("A"),
        name: JvmString::from_str("f"),
        descriptor: Descriptor::try_from_string(&JvmString::from_str(descriptor)).unwrap(),
    }
}

#[test]
fn empty_void_method_verifies() {
    assert_eq!(check(true, "()V", 0, 0, &[Op::GcCheck, Op::Return]), Ok(()));
}

#[test]
fn running_off_the_end_is_refused() {
    assert_eq!(check(true, "()V", 1, 0, &[Op::Nop]), Err(VerifyError::CodeFellOffMethod));
    assert_eq!(check(true, "()V", 1, 0, &[Op::Goto(5), Op::Return]), Err(VerifyError::CodeFellOffMethod));
}

#[test]
fn unreachable_tail_is_not_walked() {
    // The op after `return` is never run, so its missing end does not matter.
    assert_eq!(check(true, "()V", 1, 0, &[Op::Return, Op::Nop]), Ok(()));
}

#[test]
fn integer_arithmetic_verifies() {
    let ops = [Op::IConst(1), Op::IConst(2), Op::IAdd, Op::IReturn];
    assert_eq!(check(true, "()I", 2, 0, &ops), Ok(()));
}

#[test]
fn wrong_type_on_stack_is_refused() {
    let ops = [Op::IConst(1), Op::LReturn];
    assert_eq!(check(true, "()J", 1, 0, &ops), Err(VerifyError::WrongType));
}

#[test]
fn popping_an_empty_stack_is_wrong_count() {
    assert_eq!(check(true, "()V", 1, 0, &[Op::Pop, Op::Return]), Err(VerifyError::WrongCount));
}

#[test]
fn stack_overflow_is_wrong_count() {
    let ops = [Op::IConst(1), Op::IConst(2), Op::Pop2, Op::Return];
    assert_eq!(check(true, "()V", 1, 0, &ops), Err(VerifyError::WrongCount));
    assert_eq!(check(true, "()V", 2, 0, &ops), Ok(()));
}

#[test]
fn receiver_needs_a_local() {
    assert_eq!(check(false, "()V", 0, 0, &[Op::Return]), Err(VerifyError::WrongCount));
    assert_eq!(check(false, "()V", 0, 1, &[Op::Return]), Ok(()));
}

#[test]
fn arguments_fill_the_locals() {
    // this, int, long (two slots), reference
    let ops = [
        Op::ALoad(0),
        Op::Pop,
        Op::ILoad(1),
        Op::Pop,
        Op::LLoad(2),
        Op::Pop2,
        Op::ALoad(4),
        Op::AReturn,
    ];
    assert_eq!(check(false, "(IJLjava/lang/String;)Ljava/lang/Object;", 2, 5, &ops), Ok(()));
    // Too few locals for the arguments.
    assert_eq!(check(false, "(IJLjava/lang/String;)Ljava/lang/Object;", 2, 4, &ops), Err(VerifyError::WrongCount));
    // The second half of the long is not an int.
    let bad = [Op::ILoad(3), Op::IReturn];
    assert_eq!(check(true, "(JJ)I", 1, 4, &bad), Err(VerifyError::WrongType));
}

#[test]
fn stores_and_wide_locals() {
    let ops = [Op::LConst(1), Op::LStore(0), Op::LLoad(0), Op::LReturn];
    assert_eq!(check(true, "()J", 2, 2, &ops), Ok(()));
    // A long in the last local has no room for its second half.
    let ops = [Op::LConst(1), Op::LStore(0), Op::Return];
    assert_eq!(check(true, "()V", 2, 1, &ops), Err(VerifyError::WrongCount));
}

#[test]
fn loop_with_branches_verifies() {
    // i = 0; while (i < 10) i++; return i;
    let ops = [
        Op::IConst(0),
        Op::IStore(0),
        Op::ILoad(0),
        Op::IConst(10),
        Op::IfICmpGe(7),
        Op::IInc(0, 1),
        Op::Goto(2),
        Op::ILoad(0),
        Op::IReturn,
    ];
    assert_eq!(check(true, "()I", 2, 1, &ops), Ok(()));
}

#[test]
fn branch_merging_different_types_is_checked_on_each_path() {
    // One path leaves an int in local 0, the other a reference; loading an
    // int afterwards fails on the second.
    let ops = [
        Op::ILoad(0),
        Op::IfEq(5),
        Op::IConst(1),
        Op::IStore(1),
        Op::Goto(7),
        Op::AConstNull,
        Op::AStore(1),
        Op::ILoad(1),
        Op::IReturn,
    ];
    assert_eq!(check(true, "(I)I", 1, 2, &ops), Err(VerifyError::WrongType));
}

#[test]
fn subroutines_return_to_the_caller() {
    // A `ret` does not end the flow for the first pass, so an op follows it.
    let ops = [
        Op::Jsr(3),
        Op::IConst(7),
        Op::IReturn,
        Op::AStore(0),
        Op::Ret(0),
        Op::Return,
    ];
    assert_eq!(check(true, "()I", 1, 1, &ops), Ok(()));
    let ops = [Op::Jsr(3), Op::IConst(7), Op::IReturn, Op::AStore(0), Op::Ret(0)];
    assert_eq!(check(true, "()I", 1, 1, &ops), Err(VerifyError::CodeFellOffMethod));
    // `ret` of a local that holds no return address.
    let bad = [Op::IConst(1), Op::IStore(0), Op::Ret(0), Op::Return];
    assert_eq!(check(true, "()V", 1, 1, &bad), Err(VerifyError::WrongType));
}

#[test]
fn exception_handler_sees_one_reference() {
    let ops = [
        Op::IConst(1),
        Op::IConst(0),
        Op::IDiv,
        Op::IReturn,
        Op::AThrow,
    ];
    let handlers = [Exception { start: 0, end: 4, target: 4, catch_class: None }];
    // The op covered by the handler hands on to the handler only, entered
    // with one reference on the stack.
    assert_eq!(verify_ops(true, &method("()I"), 2, 0, &ops, &handlers), Ok(()));
    // A handler that expects an int on the stack is refused.
    let ops = [Op::IConst(1), Op::IConst(0), Op::IDiv, Op::IReturn, Op::IReturn];
    assert_eq!(verify_ops(true, &method("()I"), 2, 0, &ops, &handlers), Err(VerifyError::WrongType));
}

#[test]
fn stack_shuffles() {
    let ops = [Op::IConst(1), Op::IConst(2), Op::Swap, Op::Dup, Op::DupX1, Op::Pop, Op::Pop, Op::Pop, Op::IReturn];
    assert_eq!(check(true, "()I", 4, 0, &ops), Ok(()));
    // `dup` of a long is refused.
    let ops = [Op::LConst(1), Op::Dup, Op::Return];
    assert_eq!(check(true, "()V", 4, 0, &ops), Err(VerifyError::WrongType));
    // `dup2` of a long duplicates it whole.
    let ops = [Op::LConst(1), Op::Dup2, Op::LAdd, Op::LReturn];
    assert_eq!(check(true, "()J", 2, 0, &ops), Ok(()));
    // `dup2_x2` of a long over two ints.
    let ops = [Op::IConst(1), Op::IConst(2), Op::LConst(3), Op::Dup2X2, Op::Pop2, Op::Pop, Op::Pop, Op::LReturn];
    assert_eq!(check(true, "()J", 4, 0, &ops), Ok(()));
}

#[test]
fn fields_and_calls_use_their_descriptors() {
    let ops = [
        Op::GetStatic(field("J")),
        Op::L2I,
        Op::InvokeStatic(MethodTarget {
            class_name: JvmString::from_str("A"),
            name: JvmString::from_str("m"),
            descriptor: method("(I)Ljava/lang/String;"),
        }),
        Op::AReturn,
    ];
    assert_eq!(check(true, "()Ljava/lang/String;", 1, 0, &ops), Ok(()));
    let ops = [Op::AConstNull, Op::IConst(1), Op::PutField(field("Z")), Op::Return];
    assert_eq!(check(true, "()V", 2, 0, &ops), Ok(()));
    let ops = [Op::IConst(1), Op::AConstNull, Op::PutField(field("Z")), Op::Return];
    assert_eq!(check(true, "()V", 2, 0, &ops), Err(VerifyError::WrongType));
}

#[test]
fn ldc_pushes_the_constant_kind() {
    let ops = [Op::Ldc(ConstantPoolEntry::Integer { value: 3 }), Op::IReturn];
    assert_eq!(check(true, "()I", 1, 0, &ops), Ok(()));
    let ops = [Op::Ldc(ConstantPoolEntry::String { string_idx: 1 }), Op::IReturn];
    assert_eq!(check(true, "()I", 1, 0, &ops), Err(VerifyError::WrongType));
}

#[test]
fn switches_branch_to_every_target() {
    let table = TableSwitchInfo { low_int: 0, matches: vec![3, 5], default_offset: 3 };
    let ops = [
        Op::IConst(0),
        Op::TableSwitch(Box::new(table)),
        Op::Nop,
        Op::IConst(1),
        Op::IReturn,
        Op::AConstNull,
        Op::IReturn,
    ];
    // The second case returns a reference where an int is expected.
    assert_eq!(check(true, "()I", 1, 0, &ops), Err(VerifyError::WrongType));
    let lookup = LookupSwitchInfo { matches: vec![(10, 3)], default_offset: 3 };
    let ops = [Op::IConst(0), Op::LookupSwitch(Box::new(lookup)), Op::Nop, Op::IConst(1), Op::IReturn];
    assert_eq!(check(true, "()I", 1, 0, &ops), Ok(()));
}

#[test]
fn multianewarray_pops_each_dimension() {
    let info = rjvm_core::op::MultiANewArrayInfo {
        class: Descriptor::try_from_string(&JvmString::from_str("[[I")).unwrap(),
        dimensions: 2,
    };
    let ops = [Op::IConst(2), Op::IConst(3), Op::MultiANewArray(Box::new(info)), Op::AReturn];
    assert_eq!(check(true, "()[[I", 2, 0, &ops), Ok(()));
}

#[test]
fn blocks_are_cut_at_jumps_and_targets() {
    let ops = [
        Op::IConst(0),
        Op::IfEq(3),
        Op::Nop,
        Op::Return,
    ];
    let (blocks, _table) = collect_basic_blocks(&ops, &[]).ok().unwrap();
    assert_eq!(blocks.len(), 3);
    assert_eq!((blocks[0].start_index, blocks[0].end_index), (0, 2));
    assert!(matches!(blocks[0].exits, BlockExits::Branch(2)));
    assert_eq!((blocks[1].start_index, blocks[1].end_index), (2, 3));
    assert!(matches!(blocks[1].exits, BlockExits::NextBlock));
    assert_eq!((blocks[2].start_index, blocks[2].end_index), (3, 4));
    assert!(matches!(blocks[2].exits, BlockExits::Return));
    assert!(matches!(collect_basic_blocks(&[Op::Nop], &[]), Err(VerifyError::CodeFellOffMethod)));
}

#[test]
fn value_types_and_messages() {
    assert!(ValueType::Long.is_wide());
    assert!(ValueType::Double.is_wide());
    assert!(!ValueType::Integer.is_wide());
    assert!(!ValueType::ReturnAddress(3).is_wide());
    assert_eq!(VerifyError::CodeFellOffMethod.message(), "Code fell off method");
    assert_eq!(VerifyError::WrongCount.message(), "Wrong count");
    assert_eq!(VerifyError::WrongType.message(), "Wrong type");
}

#[test]
fn ops_that_can_throw() {
    assert!(Op::IDiv.can_throw_error());
    assert!(Op::AThrow.can_throw_error());
    assert!(Op::Clinit(JvmString::from_str("A")).can_throw_error());
    assert!(!Op::IAdd.can_throw_error());
    assert!(!Op::Return.can_throw_error());
    assert!(!Op::GetStatic(field("I")).can_throw_error());
}
