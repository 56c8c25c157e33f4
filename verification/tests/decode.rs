use rjvm_core::classfile::constant_pool::{read_constant_pool, ConstantPool, ConstantPoolEntry};
use rjvm_core::classfile::error::Error;
use rjvm_core::decode::DecodeError;
use rjvm_core::descriptor::{Descriptor, MethodDescriptor};
use rjvm_core::method::{read_exceptions, BytecodeMethodInfo, MethodError};
use rjvm_core::index_table::IndexTable;
use rjvm_core::op::{ArrayType, Op};
use rjvm_core::reader::FileData;
use rjvm_core::string::JvmString;
use rjvm_core::verify::{verify_ops, VerifyError};

/// A constant pool with an integer, a long, a field and a method reference.
struct TestPool {
    pool: ConstantPool,
    integer: u16,
    long: u16,
    string: u16,
    field: u16,
    long_field: u16,
    method: u16,
    class: u16,
    array_class: u16,
}

fn test_pool() -> TestPool {
    let mut bytes = Vec::new();
    let mut slots: u16 = 0;
    let mut add = |entry: &[u8], size: u16| -> u16 {
        bytes.extend_from_slice(entry);
        slots += size;
        slots - size + 1
    };
    fn utf8(s: &str) -> Vec<u8> {
        let mut v = vec![1u8];
        v.extend_from_slice(&(s.len() as u16).to_be_bytes());
        v.extend_from_slice(s.as_bytes());
        v
    }
    fn pair(tag: u8, a: u16, b: u16) -> Vec<u8> {
        let mut v = vec![tag];
        v.extend_from_slice(&a.to_be_bytes());
        v.extend_from_slice(&b.to_be_bytes());
        v
    }
    let class_name = add(&utf8("demo/Main"), 1);
    let class = add(&[7, 0, class_name as u8], 1);
    let field_name = add(&utf8("count"), 1);
    let field_type = add(&utf8("I"), 1);
    let field_nat = add(&pair(12, field_name, field_type), 1);
    let field = add(&pair(9, class, field_nat), 1);
    let long_type = add(&utf8("J"), 1);
    let long_nat = add(&pair(12, field_name, long_type), 1);
    let long_field = add(&pair(9, class, long_nat), 1);
    let method_name = add(&utf8("add"), 1);
    let method_type = add(&utf8("(II)I"), 1);
    let method_nat = add(&pair(12, method_name, method_type), 1);
    let method = add(&pair(10, class, method_nat), 1);
    let mut int_entry = vec![3u8];
    int_entry.extend_from_slice(&42i32.to_be_bytes());
    let integer = add(&int_entry, 1);
    let mut long_entry = vec![5u8];
    long_entry.extend_from_slice(&(-3i64).to_be_bytes());
    let long = add(&long_entry, 2);
    let string = add(&[8, 0, class_name as u8], 1);
    let array_name = add(&utf8("[[I"), 1);
    let array_class = add(&[7, 0, array_name as u8], 1);
    let mut encoded = (slots + 1).to_be_bytes().to_vec();
    encoded.extend_from_slice(&bytes);
    let mut reader = FileData::new(&encoded);
    let pool = read_constant_pool(&mut reader).unwrap();
    TestPool { pool, integer, long, string, field, long_field, method, class, array_class }
}

fn descriptor(s: &str) -> Descriptor {
    if s == "V" {
        Descriptor::from_data_counting(b"V", true).unwrap().0
    } else {
        Descriptor::try_from_string(&JvmString::from_str(s)).unwrap()
    }
}

/// The code attribute's length field followed by the code.
fn code(bytes: &[u8]) -> Vec<u8> {
    let mut out = (bytes.len() as u32).to_be_bytes().to_vec();
    out.extend_from_slice(bytes);
    out
}

fn decode(pool: &ConstantPool, ret: &str, bytes: &[u8]) -> Result<Vec<Op>, DecodeError> {
    let data = code(bytes);
    let mut reader = FileData::new(&data);
    Op::read_ops(pool, &descriptor(ret), &mut reader).map(|(ops, _)| ops)
}

#[test]
fn decodes_constants_and_returns() {
    let p = test_pool();
    let ops = decode(&p.pool, "I", &[0x04, 0xac]).unwrap();
    assert_eq!(ops.len(), 3);
    assert!(matches!(ops[0], Op::GcCheck));
    assert!(matches!(ops[1], Op::IConst(1)));
    assert!(matches!(ops[2], Op::IReturn));
}

#[test]
fn decodes_pushes_of_signed_operands() {
    let p = test_pool();
    let ops = decode(&p.pool, "I", &[0x10, 0xfe, 0x11, 0x80, 0x00, 0x60, 0xac]).unwrap();
    assert!(matches!(ops[1], Op::IConst(-2)));
    assert!(matches!(ops[2], Op::IConst(-32768)));
    assert!(matches!(ops[3], Op::IAdd));
}

#[test]
fn float_constants_keep_their_bits() {
    let p = test_pool();
    let ops = decode(&p.pool, "F", &[0x0c, 0xae]).unwrap();
    match ops[1] {
        Op::FConst(bits) => assert_eq!(f32::from_bits(bits), 1.0),
        _ => panic!("expected fconst"),
    }
    let ops = decode(&p.pool, "D", &[0x0f, 0xaf]).unwrap();
    match ops[1] {
        Op::DConst(bits) => assert_eq!(f64::from_bits(bits), 1.0),
        _ => panic!("expected dconst"),
    }
}

#[test]
fn return_must_fit_the_return_type() {
    let p = test_pool();
    assert_eq!(decode(&p.pool, "I", &[0xb1]).err(), Some(DecodeError::BadReturnType(0xb1)));
    assert_eq!(decode(&p.pool, "V", &[0xac]).err(), Some(DecodeError::BadReturnType(0xac)));
    assert!(decode(&p.pool, "V", &[0xb1]).is_ok());
    assert!(decode(&p.pool, "Ljava/lang/Object;", &[0x01, 0xb0]).is_ok());
}

#[test]
fn jumps_become_op_indices() {
    let p = test_pool();
    // 0: iconst_0, 1: ifeq +4 (to 5), 4: return, 5: return
    let ops = decode(&p.pool, "V", &[0x03, 0x99, 0x00, 0x04, 0xb1, 0xb1]).unwrap();
    assert_eq!(ops.len(), 5);
    assert!(matches!(ops[2], Op::IfEq(4)));
    // A backward jump to the start lands on the garbage-collection check.
    let ops = decode(&p.pool, "V", &[0xa7, 0x00, 0x00]).unwrap();
    assert!(matches!(ops[1], Op::Goto(0)));
}

#[test]
fn jump_into_an_op_is_refused() {
    let p = test_pool();
    // ifeq +2 lands inside the ifeq itself.
    let r = decode(&p.pool, "V", &[0x03, 0x99, 0x00, 0x02, 0xb1]);
    assert_eq!(r.err(), Some(DecodeError::InvalidBranchTarget));
}

#[test]
fn locals_and_iinc() {
    let p = test_pool();
    let ops = decode(&p.pool, "V", &[0x15, 0x05, 0x3b, 0x84, 0x02, 0xff, 0xa9, 0x07, 0xb1]).unwrap();
    assert!(matches!(ops[1], Op::ILoad(5)));
    assert!(matches!(ops[2], Op::IStore(0)));
    assert!(matches!(ops[3], Op::IInc(2, -1)));
    assert!(matches!(ops[4], Op::Ret(7)));
}

#[test]
fn code_running_past_the_data_is_an_error() {
    let p = test_pool();
    let mut data = 5u32.to_be_bytes().to_vec();
    data.push(0x03);
    let mut reader = FileData::new(&data);
    let r = Op::read_ops(&p.pool, &descriptor("V"), &mut reader);
    assert_eq!(r.err(), Some(DecodeError::ClassFile(Error::EndOfFile)));
}

#[test]
fn new_array_types() {
    let p = test_pool();
    let ops = decode(&p.pool, "Ljava/lang/Object;", &[0x03, 0xbc, 10, 0xb0]).unwrap();
    assert!(matches!(ops[2], Op::NewArray(ArrayType::Int)));
    assert_eq!(decode(&p.pool, "V", &[0x03, 0xbc, 3, 0xb1]).err(), Some(DecodeError::InvalidArrayType));
}

#[test]
fn table_switch_skips_padding() {
    let p = test_pool();
    // 0: iconst_0, 1: tableswitch (2 padding bytes to offset 4), default +23,
    // low 0, high 1, cases +23 and +24; 24: return, 25: return
    let mut bytes = vec![0x03, 0xaa, 0, 0];
    for v in [23i32, 0, 1, 23, 24] {
        bytes.extend_from_slice(&v.to_be_bytes());
    }
    bytes.extend_from_slice(&[0xb1, 0xb1]);
    let ops = decode(&p.pool, "V", &bytes).unwrap();
    match &ops[2] {
        Op::TableSwitch(t) => {
            assert_eq!(t.low_int, 0);
            assert_eq!(t.default_offset, 3);
            assert_eq!(t.matches, vec![3, 4]);
        },
        _ => panic!("expected tableswitch"),
    }
}

#[test]
fn lookup_switch_reads_pairs() {
    let p = test_pool();
    // 0: iconst_0, 1: lookupswitch (2 padding bytes), default +19, 1 pair
    // (7 -> +20); 20: return, 21: return
    let mut bytes = vec![0x03, 0xab, 0, 0];
    for v in [19i32, 1, 7, 20] {
        bytes.extend_from_slice(&v.to_be_bytes());
    }
    bytes.extend_from_slice(&[0xb1, 0xb1]);
    let ops = decode(&p.pool, "V", &bytes).unwrap();
    match &ops[2] {
        Op::LookupSwitch(t) => {
            assert_eq!(t.default_offset, 3);
            assert_eq!(t.matches, vec![(7, 4)]);
        },
        _ => panic!("expected lookupswitch"),
    }
    // A case to an offset inside the switch is refused.
    let mut bad = vec![0x03, 0xab, 0, 0];
    for v in [19i32, 1, 7, 3] {
        bad.extend_from_slice(&v.to_be_bytes());
    }
    bad.extend_from_slice(&[0xb1, 0xb1]);
    assert_eq!(decode(&p.pool, "V", &bad).err(), Some(DecodeError::InvalidLookupSwitchCase));
}

#[test]
fn constant_pool_operands() {
    let p = test_pool();
    let ops = decode(&p.pool, "I", &[0x12, p.integer as u8, 0xac]).unwrap();
    assert!(matches!(ops[1], Op::Ldc(ConstantPoolEntry::Integer { value: 42 })));
    let [hi, lo] = p.long.to_be_bytes();
    let ops = decode(&p.pool, "J", &[0x14, hi, lo, 0xad]).unwrap();
    assert!(matches!(ops[1], Op::LoadLong(-3)));
    let [hi, lo] = p.string.to_be_bytes();
    let ops = decode(&p.pool, "Ljava/lang/String;", &[0x13, hi, lo, 0xb0]).unwrap();
    assert!(matches!(ops[1], Op::Ldc(ConstantPoolEntry::String { .. })));
    // A field reference is not a method reference.
    let [hi, lo] = p.field.to_be_bytes();
    assert_eq!(
        decode(&p.pool, "V", &[0xb8, hi, lo, 0xb1]).err(),
        Some(DecodeError::ClassFile(Error::ConstantPoolTypeMismatch))
    );
}

#[test]
fn static_fields_run_the_class_initializer_first() {
    let p = test_pool();
    let [hi, lo] = p.field.to_be_bytes();
    let ops = decode(&p.pool, "I", &[0xb2, hi, lo, 0xac]).unwrap();
    assert_eq!(ops.len(), 4);
    match (&ops[1], &ops[2]) {
        (Op::Clinit(c), Op::GetStatic(f)) => {
            assert_eq!(c.as_str(), "demo/Main");
            assert_eq!(f.name.as_str(), "count");
            assert!(matches!(f.descriptor, Descriptor::Integer));
        },
        _ => panic!("expected clinit and getstatic"),
    }
    let [hi, lo] = p.long_field.to_be_bytes();
    let ops = decode(&p.pool, "J", &[0xb2, hi, lo, 0xad]).unwrap();
    assert!(matches!(ops[2], Op::GetStaticWide(_)));
}

#[test]
fn invocations_carry_their_descriptors() {
    let p = test_pool();
    let [hi, lo] = p.method.to_be_bytes();
    let ops = decode(&p.pool, "I", &[0x2a, 0x04, 0x05, 0xb6, hi, lo, 0xac]).unwrap();
    match &ops[4] {
        Op::InvokeVirtual(m, count) => {
            assert_eq!(m.name.as_str(), "add");
            assert_eq!(*count, 2);
            assert_eq!(m.descriptor.args().len(), 2);
        },
        _ => panic!("expected invokevirtual"),
    }
}

#[test]
fn class_operands_and_multianewarray() {
    let p = test_pool();
    let [hi, lo] = p.class.to_be_bytes();
    let ops = decode(&p.pool, "Ljava/lang/Object;", &[0xbb, hi, lo, 0xb0]).unwrap();
    match (&ops[1], &ops[2]) {
        (Op::Clinit(a), Op::New(b)) => {
            assert_eq!(a.as_str(), "demo/Main");
            assert_eq!(b.as_str(), "demo/Main");
        },
        _ => panic!("expected clinit and new"),
    }
    let [hi, lo] = p.array_class.to_be_bytes();
    let ops = decode(&p.pool, "Ljava/lang/Object;", &[0x04, 0x04, 0xc5, hi, lo, 2, 0xb0]).unwrap();
    match &ops[3] {
        Op::MultiANewArray(info) => {
            assert_eq!(info.dimensions, 2);
            assert!(matches!(info.class, Descriptor::Integer));
        },
        _ => panic!("expected multianewarray"),
    }
    assert_eq!(
        decode(&p.pool, "V", &[0x04, 0xc5, hi, lo, 0, 0xb1]).err(),
        Some(DecodeError::NoDimensions)
    );
    assert_eq!(
        decode(&p.pool, "V", &[0x04, 0xc5, hi, lo, 3, 0xb1]).err(),
        Some(DecodeError::NotAnArrayOfDimensions)
    );
}

#[test]
fn decoded_code_verifies() {
    let p = test_pool();
    // static int f(int a): a == 0 ? 1 : a * 2
    let bytes = [0x1a, 0x9a, 0x00, 0x05, 0x04, 0xac, 0x1a, 0x05, 0x68, 0xac];
    let ops = decode(&p.pool, "I", &bytes).unwrap();
    let m = MethodDescriptor::new_from_string(&JvmString::from_str("(I)I")).unwrap();
    assert_eq!(verify_ops(true, &m, 2, 1, &ops, &[]), Ok(()));
    assert_eq!(verify_ops(true, &m, 1, 1, &ops, &[]), Err(VerifyError::WrongCount));
}

#[test]
fn ops_copy_equal() {
    let p = test_pool();
    let [hi, lo] = p.method.to_be_bytes();
    let ops = decode(&p.pool, "I", &[0x2a, 0x04, 0x05, 0xb6, hi, lo, 0xac]).unwrap();
    let copy = ops[4].clone();
    match copy {
        Op::InvokeVirtual(m, count) => {
            assert_eq!(m.class_name.as_str(), "demo/Main");
            assert_eq!(count, 2);
        },
        _ => panic!("expected invokevirtual"),
    }
}

/// A `Code` attribute's data: the limits, the code, then the handlers
/// (start, end, target, class index).
fn code_attribute(max_stack: u16, max_locals: u16, bytes: &[u8], handlers: &[[u16; 4]]) -> Vec<u8> {
    let mut out = max_stack.to_be_bytes().to_vec();
    out.extend_from_slice(&max_locals.to_be_bytes());
    out.extend_from_slice(&code(bytes));
    out.extend_from_slice(&(handlers.len() as u16).to_be_bytes());
    for h in handlers {
        for v in h {
            out.extend_from_slice(&v.to_be_bytes());
        }
    }
    out
}

fn method_descriptor(s: &str) -> MethodDescriptor {
    MethodDescriptor::new_from_string(&JvmString::from_str(s)).unwrap()
}

#[test]
fn code_attribute_decodes_and_verifies() {
    let p = test_pool();
    let bytes = [0x1a, 0x9a, 0x00, 0x05, 0x04, 0xac, 0x1a, 0x05, 0x68, 0xac];
    let data = code_attribute(2, 1, &bytes, &[]);
    let info = BytecodeMethodInfo::from_code_data(&p.pool, true, &method_descriptor("(I)I"), &data).unwrap();
    assert_eq!(info.max_stack, 2);
    assert_eq!(info.max_locals, 1);
    assert_eq!(info.code.len(), 9);
    assert!(matches!(info.code[0], Op::GcCheck));
    assert!(info.exceptions.is_empty());
    let tight = code_attribute(1, 1, &bytes, &[]);
    assert_eq!(
        BytecodeMethodInfo::from_code_data(&p.pool, true, &method_descriptor("(I)I"), &tight).err(),
        Some(MethodError::Verify(VerifyError::WrongCount))
    );
}

#[test]
fn code_attribute_with_a_handler() {
    let p = test_pool();
    // iconst_0; pop; return; handler: pop; return
    let bytes = [0x03, 0x57, 0xb1, 0x57, 0xb1];
    let data = code_attribute(1, 0, &bytes, &[[0, 2, 3, p.class]]);
    let info = BytecodeMethodInfo::from_code_data(&p.pool, true, &method_descriptor("()V"), &data).unwrap();
    assert_eq!(info.exceptions.len(), 1);
    let h = &info.exceptions[0];
    assert_eq!((h.start, h.end, h.target), (0, 3, 4));
    assert_eq!(h.catch_class.as_ref().map(|c| c.as_str()), Some("demo/Main"));
    let any = code_attribute(1, 0, &bytes, &[[0, 2, 3, 0]]);
    let info = BytecodeMethodInfo::from_code_data(&p.pool, true, &method_descriptor("()V"), &any).unwrap();
    assert!(info.exceptions[0].catch_class.is_none());
}

#[test]
fn code_attribute_errors() {
    let p = test_pool();
    let bytes = [0x03, 0x57, 0xb1, 0x57, 0xb1];
    let inside = code_attribute(1, 0, &bytes, &[[0, 7, 3, 0]]);
    assert_eq!(
        BytecodeMethodInfo::from_code_data(&p.pool, true, &method_descriptor("()V"), &inside).err(),
        Some(MethodError::Decode(DecodeError::ClassNotThrowable))
    );
    let not_a_class = code_attribute(1, 0, &bytes, &[[0, 2, 3, p.integer]]);
    assert_eq!(
        BytecodeMethodInfo::from_code_data(&p.pool, true, &method_descriptor("()V"), &not_a_class).err(),
        Some(MethodError::Decode(DecodeError::ClassFile(Error::ConstantPoolTypeMismatch)))
    );
    let short = [0u8, 1];
    assert_eq!(
        BytecodeMethodInfo::from_code_data(&p.pool, true, &method_descriptor("()V"), &short).err(),
        Some(MethodError::Decode(DecodeError::ClassFile(Error::EndOfFile)))
    );
    // return falls through to nothing after a handler-free nop
    let falls = code_attribute(1, 0, &[0x00], &[]);
    assert_eq!(
        BytecodeMethodInfo::from_code_data(&p.pool, true, &method_descriptor("()V"), &falls).err(),
        Some(MethodError::Verify(VerifyError::CodeFellOffMethod))
    );
}

#[test]
fn exception_table_alone() {
    let p = test_pool();
    let data = code(&[0x03, 0x57, 0xb1, 0x57, 0xb1]);
    let mut reader = FileData::new(&data);
    let (_, table): (Vec<Op>, IndexTable) = Op::read_ops(&p.pool, &descriptor("V"), &mut reader).unwrap();
    let mut table_bytes = 1u16.to_be_bytes().to_vec();
    for v in [1u16, 4, 3, 0] {
        table_bytes.extend_from_slice(&v.to_be_bytes());
    }
    let mut reader = FileData::new(&table_bytes);
    let handlers = read_exceptions(&p.pool, &mut reader, &table).unwrap();
    assert_eq!((handlers[0].start, handlers[0].end, handlers[0].target), (2, 5, 4));
    assert_eq!(reader.position(), 10);
}

#[test]
fn method_descriptors_print_back() {
    for s in ["()V", "(I)I", "([Ljava/lang/String;)V", "(JDLjava/lang/Object;[[Z)Ljava/lang/String;"] {
        assert_eq!(method_descriptor(s).to_string(), s);
    }
}

#[test]
fn operands_past_the_pool_are_errors() {
    let p = test_pool();
    let oob = Some(DecodeError::ClassFile(Error::ConstantPoolIndexOutOfBounds));
    assert_eq!(decode(&p.pool, "V", &[0x12, 200, 0xb1]).err(), oob);
    assert_eq!(decode(&p.pool, "V", &[0xb2, 0, 200, 0xb1]).err(), oob);
    assert_eq!(decode(&p.pool, "V", &[0xb8, 0, 200, 0xb1]).err(), oob);
    assert_eq!(decode(&p.pool, "V", &[0xbb, 0, 200, 0xb1]).err(), oob);
    assert_eq!(decode(&p.pool, "V", &[0xc5, 0, 200, 1, 0xb1]).err(), oob);
}
