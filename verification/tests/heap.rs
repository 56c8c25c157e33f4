use rjvm_core::descriptor::PrimitiveType;
use rjvm_core::heap::{ArrayKind, Heap};
use rjvm_core::hierarchy::{ClassTable, ElementType, ACC_PUBLIC};
use rjvm_core::interpret::{BuiltinException, Flow, Frame};
use rjvm_core::op::Exception;
use rjvm_core::system::{array_copy, ArrayCopyError};
use rjvm_core::descriptor::Descriptor;
use rjvm_core::op::{ArrayType, MultiANewArrayInfo, Op};
use rjvm_core::string::JvmString;
use rjvm_core::value::Value;

/// `java/lang/Object` (0), `java/lang/String` (1), the array classes of the
/// primitive types, of `Object` and `String`, `[[I`, `[[J`, `[[[J`, `[[B`
/// and `[[Ljava/lang/String;`.
fn classes() -> ClassTable {
    let mut t = ClassTable::new();
    let object = t.add_class(JvmString::from_str("java/lang/Object"), ACC_PUBLIC, None, vec![]).unwrap();
    let string = t.add_class(JvmString::from_str("java/lang/String"), ACC_PUBLIC, Some(object), vec![]).unwrap();
    for p in PrimitiveType::get_all() {
        if p != PrimitiveType::Void {
            t.add_array_class(ElementType::Primitive(p), object);
        }
    }
    t.add_array_class(ElementType::Reference(object), object);
    let strings = t.add_array_class(ElementType::Reference(string), object);
    t.add_array_class(ElementType::Reference(strings), object);
    let ints = t.find_array_class(ElementType::Primitive(PrimitiveType::Int)).unwrap();
    t.add_array_class(ElementType::Reference(ints), object);
    let longs = t.find_array_class(ElementType::Primitive(PrimitiveType::Long)).unwrap();
    let longs2 = t.add_array_class(ElementType::Reference(longs), object);
    t.add_array_class(ElementType::Reference(longs2), object);
    let bytes = t.find_array_class(ElementType::Primitive(PrimitiveType::Byte)).unwrap();
    t.add_array_class(ElementType::Reference(bytes), object);
    t
}

fn class_named(t: &ClassTable, name: &str) -> usize {
    t.find_class(&JvmString::from_str(name)).unwrap()
}

fn run_on_heap(ops: &[Op], heap: &mut Heap) -> (Frame, Option<Flow>) {
    let t = classes();
    let mut frame = Frame::new(2, 8, &[]);
    let flow = frame.run_with_heap(heap, &t, ops, 1000);
    (frame, flow)
}

fn returned_value(ops: &[Op]) -> Value {
    let mut heap = Heap::new();
    match run_on_heap(ops, &mut heap).1 {
        Some(Flow::Return(Some(v))) => v,
        other => panic!("unexpected outcome {:?}", other),
    }
}

#[test]
fn int_array_store_then_load() {
    let ops = [
        Op::IConst(3),
        Op::NewArray(ArrayType::Int),
        Op::AStore(0),
        Op::ALoad(0),
        Op::IConst(1),
        Op::IConst(7),
        Op::IaStore,
        Op::ALoad(0),
        Op::IConst(1),
        Op::IaLoad,
        Op::ALoad(0),
        Op::ArrayLength,
        Op::IAdd,
        Op::IReturn,
    ];
    assert_eq!(returned_value(&ops), Value::Integer(10));
}

#[test]
fn narrow_elements_are_cut_to_their_width() {
    let store_and_load = |t: ArrayType, store: Op, load: Op, v: i32| {
        let ops = [
            Op::IConst(1),
            Op::NewArray(t),
            Op::Dup,
            Op::IConst(0),
            Op::IConst(v),
            store,
            Op::IConst(0),
            load,
            Op::IReturn,
        ];
        returned_value(&ops).to_int()
    };
    assert_eq!(store_and_load(ArrayType::Byte, Op::BaStore, Op::BaLoad, 300), 44);
    assert_eq!(store_and_load(ArrayType::Boolean, Op::BaStore, Op::BaLoad, 200), -56);
    assert_eq!(store_and_load(ArrayType::Char, Op::CaStore, Op::CaLoad, -1), 65535);
    assert_eq!(store_and_load(ArrayType::Short, Op::SaStore, Op::SaLoad, 40000), -25536);
    assert_eq!(store_and_load(ArrayType::Int, Op::IaStore, Op::IaLoad, -40000), -40000);
}

#[test]
fn long_arrays_hold_two_slot_values() {
    let ops = [
        Op::IConst(2),
        Op::NewArray(ArrayType::Long),
        Op::Dup,
        Op::IConst(1),
        Op::LoadLong(-5_000_000_000),
        Op::LaStore,
        Op::IConst(1),
        Op::LaLoad,
        Op::LReturn,
    ];
    assert_eq!(returned_value(&ops).long(), -5_000_000_000);
}

#[test]
fn object_arrays_start_null() {
    let ops = [
        Op::IConst(4),
        Op::ANewArray(JvmString::from_str("java/lang/Object")),
        Op::IConst(3),
        Op::AaLoad,
        Op::AReturn,
    ];
    assert_eq!(returned_value(&ops), Value::Object(None));
}

#[test]
fn array_ops_on_null_throw() {
    let mut heap = Heap::new();
    let ops = [Op::AConstNull, Op::IConst(0), Op::IaLoad, Op::IReturn];
    let (frame, flow) = run_on_heap(&ops, &mut heap);
    assert_eq!(flow, Some(Flow::Throw(BuiltinException::NullPointerException)));
    assert_eq!(frame.ip(), 2);
    assert_eq!(frame.top(), 2);

    let ops = [Op::AConstNull, Op::ArrayLength, Op::IReturn];
    let (_, flow) = run_on_heap(&ops, &mut heap);
    assert_eq!(flow, Some(Flow::Throw(BuiltinException::NullPointerException)));
}

#[test]
fn indices_out_of_range_throw() {
    let mut heap = Heap::new();
    let ops = [Op::IConst(2), Op::NewArray(ArrayType::Int), Op::IConst(2), Op::IConst(9), Op::IaStore, Op::Return];
    let (frame, flow) = run_on_heap(&ops, &mut heap);
    assert_eq!(flow, Some(Flow::Throw(BuiltinException::ArrayIndexOutOfBoundsException)));
    assert_eq!(frame.top(), 2);
    let ops = [Op::IConst(2), Op::NewArray(ArrayType::Int), Op::IConst(-1), Op::IaLoad, Op::IReturn];
    let (_, flow) = run_on_heap(&ops, &mut heap);
    assert_eq!(flow, Some(Flow::Throw(BuiltinException::ArrayIndexOutOfBoundsException)));
}

#[test]
fn negative_array_sizes_throw() {
    let mut heap = Heap::new();
    let ops = [Op::IConst(-1), Op::NewArray(ArrayType::Byte), Op::AReturn];
    let (_, flow) = run_on_heap(&ops, &mut heap);
    assert_eq!(flow, Some(Flow::Throw(BuiltinException::NegativeArraySizeException)));
    assert_eq!(heap.len(), 0);
}

#[test]
fn arrays_get_fresh_numbers() {
    let t = classes();
    let mut heap = Heap::new();
    assert_eq!(heap.reserve(0), 0);
    assert_eq!(heap.class_of(0), 0);
    let doubles = class_named(&t, "[D");
    let id = heap.allocate(ArrayKind::Double, doubles, 3);
    assert_eq!(id, 1);
    assert_eq!(heap.class_of(1), doubles);
    assert!(heap.array(0).is_none());
    let a = heap.array(1).unwrap();
    assert_eq!(a.kind(), ArrayKind::Double);
    assert_eq!(a.len(), 3);
    assert_eq!(a.get(2), Value::Primitive(0));
    assert!(heap.array(2).is_none());

    let ops = [Op::IConst(1), Op::NewArray(ArrayType::Float), Op::AReturn];
    let (_, flow) = run_on_heap(&ops, &mut heap);
    assert_eq!(flow, Some(Flow::Return(Some(Value::Object(Some(2))))));
    assert_eq!(heap.array(2).unwrap().kind(), ArrayKind::Float);
    assert_eq!(heap.class_of(2), class_named(&t, "[F"));
}

#[test]
fn object_arrays_check_what_they_store() {
    let t = classes();
    let mut heap = Heap::new();
    let plain = heap.reserve(class_named(&t, "java/lang/Object"));
    let text = heap.reserve(class_named(&t, "java/lang/String"));
    let store = |heap: &mut Heap, v: u64| {
        let ops = [
            Op::IConst(1),
            Op::ANewArray(JvmString::from_str("java/lang/String")),
            Op::Dup,
            Op::IConst(0),
            Op::ALoad(0),
            Op::AaStore,
            Op::IConst(0),
            Op::AaLoad,
            Op::AReturn,
        ];
        let mut frame = Frame::new(2, 8, &[Value::Object(Some(v))]);
        let flow = frame.run_with_heap(heap, &t, &ops, 100);
        (frame, flow)
    };
    let (_, flow) = store(&mut heap, text);
    assert_eq!(flow, Some(Flow::Return(Some(Value::Object(Some(text))))));
    let (frame, flow) = store(&mut heap, plain);
    assert_eq!(flow, Some(Flow::Throw(BuiltinException::ArrayStoreException)));
    assert_eq!(frame.ip(), 5);
    assert_eq!(frame.top(), 3);
    let strings = heap.len() as u64 - 1;
    assert_eq!(heap.class_of(strings), class_named(&t, "[Ljava/lang/String;"));
    assert_eq!(heap.array(strings).unwrap().get(0), Value::Object(None));

    // An array of `Object` takes a string.
    let objects = heap.allocate(ArrayKind::Object, class_named(&t, "[Ljava/lang/Object;"), 1);
    let ops = [Op::ALoad(0), Op::IConst(0), Op::ALoad(1), Op::AaStore, Op::Return];
    let mut frame = Frame::new(2, 8, &[Value::Object(Some(objects)), Value::Object(Some(text))]);
    assert_eq!(frame.run_with_heap(&mut heap, &t, &ops, 100), Some(Flow::Return(None)));
    assert_eq!(heap.array(objects).unwrap().get(0), Value::Object(Some(text)));
}

#[test]
fn classes_not_yet_linked_go_to_the_runtime() {
    let mut heap = Heap::new();
    let ops = [Op::IConst(1), Op::ANewArray(JvmString::from_str("Missing")), Op::AReturn];
    let (frame, flow) = run_on_heap(&ops, &mut heap);
    assert_eq!(flow, Some(Flow::Runtime));
    assert_eq!(frame.ip(), 1);
    assert_eq!(frame.top(), 3);
    let ops = [Op::IConst(1), Op::IConst(1), multi(Descriptor::Short, 2), Op::AReturn];
    let (frame, flow) = run_on_heap(&ops, &mut heap);
    assert_eq!(flow, Some(Flow::Runtime));
    assert_eq!(frame.ip(), 2);
    assert_eq!(heap.len(), 0);
}

#[test]
fn float_elements_keep_their_bits() {
    let ops = [
        Op::IConst(1),
        Op::NewArray(ArrayType::Float),
        Op::Dup,
        Op::IConst(0),
        Op::FConst(0x4040_0000),
        Op::FaStore,
        Op::IConst(0),
        Op::FaLoad,
        Op::FReturn,
    ];
    assert_eq!(returned_value(&ops), Value::Primitive(0x4040_0000));
    assert_eq!(f32::from_bits(0x4040_0000), 3.0f32);
}

fn multi(class: Descriptor, dimensions: u8) -> Op {
    Op::MultiANewArray(Box::new(MultiANewArrayInfo { class, dimensions }))
}

#[test]
fn multi_dimensional_arrays_nest() {
    // new int[2][3]; a[1].length + a[1][2] + a.length
    let ops = [
        Op::IConst(2),
        Op::IConst(3),
        multi(Descriptor::Integer, 2),
        Op::AStore(0),
        Op::ALoad(0),
        Op::IConst(1),
        Op::AaLoad,
        Op::ArrayLength,
        Op::ALoad(0),
        Op::IConst(1),
        Op::AaLoad,
        Op::IConst(2),
        Op::IaLoad,
        Op::IAdd,
        Op::ALoad(0),
        Op::ArrayLength,
        Op::IAdd,
        Op::IReturn,
    ];
    assert_eq!(returned_value(&ops), Value::Integer(5));

    let mut heap = Heap::new();
    let ops = [Op::IConst(2), Op::IConst(3), Op::IConst(4), multi(Descriptor::Long, 3), Op::AReturn];
    let (_, flow) = run_on_heap(&ops, &mut heap);
    // the six innermost arrays and the two middle ones are made before the outermost
    assert_eq!(heap.len(), 9);
    assert_eq!(flow, Some(Flow::Return(Some(Value::Object(Some(8))))));
    let outer = heap.array(8).unwrap();
    assert_eq!(outer.kind(), ArrayKind::Object);
    assert_eq!(outer.len(), 2);
    assert_eq!(outer.get(0), Value::Object(Some(3)));
    assert_eq!(outer.get(1), Value::Object(Some(7)));
    let middle = heap.array(3).unwrap();
    assert_eq!(middle.len(), 3);
    assert_eq!(middle.get(2), Value::Object(Some(2)));
    let inner = heap.array(2).unwrap();
    assert_eq!(inner.kind(), ArrayKind::Long);
    assert_eq!(inner.len(), 4);
    let t = classes();
    assert_eq!(heap.class_of(8), class_named(&t, "[[[J"));
    assert_eq!(heap.class_of(3), class_named(&t, "[[J"));
    assert_eq!(heap.class_of(2), class_named(&t, "[J"));
}

#[test]
fn multi_dimensional_arrays_of_objects_hold_null() {
    let class = Descriptor::Class(JvmString::from_str("java/lang/String"));
    let ops = [Op::IConst(1), Op::IConst(1), multi(class, 2), Op::IConst(0), Op::AaLoad, Op::IConst(0), Op::AaLoad, Op::AReturn];
    assert_eq!(returned_value(&ops), Value::Object(None));
}

#[test]
fn negative_dimensions_throw() {
    let mut heap = Heap::new();
    let ops = [Op::IConst(2), Op::IConst(-1), multi(Descriptor::Integer, 2), Op::AReturn];
    let (frame, flow) = run_on_heap(&ops, &mut heap);
    assert_eq!(flow, Some(Flow::Throw(BuiltinException::NegativeArraySizeException)));
    assert_eq!(frame.top(), 3);
    let ops = [Op::IConst(-1), Op::IConst(2), multi(Descriptor::Integer, 2), Op::AReturn];
    let (frame, flow) = run_on_heap(&ops, &mut heap);
    assert_eq!(flow, Some(Flow::Throw(BuiltinException::NegativeArraySizeException)));
    assert_eq!(frame.top(), 2);
    assert_eq!(heap.len(), 0);
}

#[test]
fn zero_outer_dimensions_make_no_inner_arrays() {
    let mut heap = Heap::new();
    let ops = [Op::IConst(0), Op::IConst(5), multi(Descriptor::Byte, 2), Op::AReturn];
    let (_, flow) = run_on_heap(&ops, &mut heap);
    assert_eq!(flow, Some(Flow::Return(Some(Value::Object(Some(0))))));
    assert_eq!(heap.len(), 1);
    assert_eq!(heap.array(0).unwrap().len(), 0);
}

fn int_array(heap: &mut Heap, t: &ClassTable, vals: &[i32]) -> u64 {
    let id = heap.allocate(ArrayKind::Int, class_named(t, "[I"), vals.len());
    let ops: Vec<Op> = vals
        .iter()
        .enumerate()
        .flat_map(|(i, v)| [Op::ALoad(0), Op::IConst(i as i32), Op::IConst(*v), Op::IaStore])
        .chain([Op::Return])
        .collect();
    let mut frame = Frame::new(1, 4, &[Value::Object(Some(id))]);
    assert_eq!(frame.run_with_heap(heap, t, &ops, 1000), Some(Flow::Return(None)));
    id
}

fn ints(heap: &Heap, id: u64) -> Vec<i32> {
    let a = heap.array(id).unwrap();
    (0..a.len()).map(|i| a.get(i).to_int()).collect()
}

#[test]
fn array_copy_moves_runs_of_elements() {
    let t = classes();
    let mut heap = Heap::new();
    let a = int_array(&mut heap, &t, &[1, 2, 3, 4, 5]);
    let b = int_array(&mut heap, &t, &[0, 0, 0]);
    assert_eq!(array_copy(&mut heap, &t, Some(a), 3, Some(b), 1, 2), Ok(()));
    assert_eq!(ints(&heap, b), vec![0, 4, 5]);
    // Overlapping runs of one array copy as if read first.
    assert_eq!(array_copy(&mut heap, &t, Some(a), 0, Some(a), 1, 3), Ok(()));
    assert_eq!(ints(&heap, a), vec![1, 1, 2, 3, 5]);
}

#[test]
fn array_copy_checks_in_order() {
    let t = classes();
    let mut heap = Heap::new();
    let a = int_array(&mut heap, &t, &[1, 2, 3]);
    let longs = heap.allocate(ArrayKind::Long, class_named(&t, "[J"), 3);
    let plain = heap.reserve(class_named(&t, "java/lang/Object"));
    assert_eq!(array_copy(&mut heap, &t, None, 0, Some(a), 0, 1), Err(ArrayCopyError::NullPointerException));
    assert_eq!(array_copy(&mut heap, &t, Some(a), 0, None, 0, 1), Err(ArrayCopyError::NullPointerException));
    assert_eq!(array_copy(&mut heap, &t, Some(a), -1, Some(a), 0, 1), Err(ArrayCopyError::ArrayIndexOutOfBoundsException));
    assert_eq!(array_copy(&mut heap, &t, Some(a), 0, Some(a), 0, -1), Err(ArrayCopyError::ArrayIndexOutOfBoundsException));
    assert_eq!(array_copy(&mut heap, &t, Some(plain), 0, Some(a), 0, 1), Err(ArrayCopyError::ArrayStoreException));
    assert_eq!(array_copy(&mut heap, &t, Some(a), 2, Some(a), 0, 2), Err(ArrayCopyError::ArrayIndexOutOfBoundsException));
    assert_eq!(array_copy(&mut heap, &t, Some(a), 0, Some(longs), 0, 1), Err(ArrayCopyError::ArrayStoreException));
    assert_eq!(ints(&heap, a), vec![1, 2, 3]);
}

#[test]
fn array_copy_checks_each_object() {
    let t = classes();
    let mut heap = Heap::new();
    let text = heap.reserve(class_named(&t, "java/lang/String"));
    let plain = heap.reserve(class_named(&t, "java/lang/Object"));
    let objects = heap.allocate(ArrayKind::Object, class_named(&t, "[Ljava/lang/Object;"), 3);
    let ops = [
        Op::ALoad(0),
        Op::IConst(0),
        Op::ALoad(1),
        Op::AaStore,
        Op::ALoad(0),
        Op::IConst(1),
        Op::ALoad(2),
        Op::AaStore,
        Op::Return,
    ];
    let mut frame = Frame::new(3, 4, &[Value::Object(Some(objects)), Value::Object(Some(text)), Value::Object(Some(plain))]);
    assert_eq!(frame.run_with_heap(&mut heap, &t, &ops, 100), Some(Flow::Return(None)));
    let strings = heap.allocate(ArrayKind::Object, class_named(&t, "[Ljava/lang/String;"), 3);
    assert_eq!(array_copy(&mut heap, &t, Some(objects), 0, Some(strings), 0, 3), Err(ArrayCopyError::ArrayStoreException));
    let s = heap.array(strings).unwrap();
    assert_eq!(s.get(0), Value::Object(Some(text)));
    assert_eq!(s.get(1), Value::Object(None));
    assert_eq!(array_copy(&mut heap, &t, Some(strings), 0, Some(objects), 1, 2), Ok(()));
    let o = heap.array(objects).unwrap();
    assert_eq!(o.get(1), Value::Object(Some(text)));
    assert_eq!(o.get(2), Value::Object(None));
}

#[test]
fn handlers_match_by_class() {
    let t = classes();
    let object = class_named(&t, "java/lang/Object");
    let string = class_named(&t, "java/lang/String");
    let handler = |class: Option<&str>| Exception {
        start: 0,
        end: 2,
        target: 7,
        catch_class: class.map(JvmString::from_str),
    };
    let exceptions = [handler(Some("java/lang/String")), handler(Some("Unknown")), handler(Some("java/lang/Object"))];
    let mut frame = Frame::new(1, 2, &[]);
    assert!(!frame.handle_exception(&t, &exceptions[..2], object, 5));
    assert_eq!(frame.ip(), 0);
    assert!(frame.handle_exception(&t, &exceptions, object, 5));
    assert_eq!(frame.ip(), 7);
    assert_eq!(frame.peek(1), Value::Object(Some(5)));
    let mut frame = Frame::new(1, 2, &[]);
    assert!(frame.handle_exception(&t, &exceptions[..1], string, 6));
}

#[test]
fn casts_test_the_object_class() {
    let t = classes();
    let mut heap = Heap::new();
    let text = heap.reserve(class_named(&t, "java/lang/String"));
    let plain = heap.reserve(class_named(&t, "java/lang/Object"));
    let strings = heap.allocate(ArrayKind::Object, class_named(&t, "[Ljava/lang/String;"), 0);
    let run = |heap: &mut Heap, v: Option<u64>, op: Op| {
        let ops = [Op::ALoad(0), op, Op::IReturn];
        let mut frame = Frame::new(1, 4, &[Value::Object(v)]);
        let flow = frame.run_with_heap(heap, &t, &ops, 10);
        (frame, flow)
    };
    let instance_of = |name: &str| Op::InstanceOf(JvmString::from_str(name));
    let check_cast = |name: &str| Op::CheckCast(JvmString::from_str(name));
    assert_eq!(run(&mut heap, Some(text), instance_of("java/lang/Object")).1, Some(Flow::Return(Some(Value::Integer(1)))));
    assert_eq!(run(&mut heap, Some(plain), instance_of("java/lang/String")).1, Some(Flow::Return(Some(Value::Integer(0)))));
    assert_eq!(run(&mut heap, None, instance_of("java/lang/String")).1, Some(Flow::Return(Some(Value::Integer(0)))));
    assert_eq!(
        run(&mut heap, Some(strings), instance_of("[Ljava/lang/Object;")).1,
        Some(Flow::Return(Some(Value::Integer(1))))
    );
    let (frame, flow) = run(&mut heap, Some(plain), check_cast("java/lang/String"));
    assert_eq!(flow, Some(Flow::Throw(BuiltinException::ClassCastException)));
    assert_eq!(frame.top(), 1);
    let (frame, _) = run(&mut heap, Some(text), check_cast("java/lang/Object"));
    assert_eq!(frame.peek(1), Value::Object(Some(text)));
    let (_, flow) = run(&mut heap, Some(text), check_cast("Unloaded"));
    assert_eq!(flow, Some(Flow::Runtime));
}

#[test]
fn athrow_throws_the_object() {
    let mut t = classes();
    let object = class_named(&t, "java/lang/Object");
    let throwable = t.add_class(JvmString::from_str("java/lang/Throwable"), ACC_PUBLIC, Some(object), vec![]).unwrap();
    let mut heap = Heap::new();
    let error = heap.reserve(throwable);
    let ops = [Op::ALoad(0), Op::AThrow];
    let mut frame = Frame::new(1, 2, &[Value::Object(Some(error))]);
    assert_eq!(frame.run_with_heap(&mut heap, &t, &ops, 10), Some(Flow::ThrowObject(error)));
    assert_eq!(frame.ip(), 1);
    assert_eq!(frame.top(), 1);
    let mut frame = Frame::new(1, 2, &[Value::Object(None)]);
    assert_eq!(
        frame.run_with_heap(&mut heap, &t, &ops, 10),
        Some(Flow::Throw(BuiltinException::NullPointerException))
    );
}

#[test]
fn builtin_exceptions_become_objects_of_their_class() {
    let mut t = classes();
    let object = class_named(&t, "java/lang/Object");
    let npe = t
        .add_class(JvmString::from_str("java/lang/NullPointerException"), ACC_PUBLIC, Some(object), vec![])
        .unwrap();
    let mut heap = Heap::new();
    heap.reserve(object);
    let o = heap.new_exception(&t, BuiltinException::NullPointerException).unwrap();
    assert_eq!(o, 1);
    assert_eq!(heap.len(), 2);
    assert_eq!(heap.class_of(o), npe);
    // No class of that name: nothing is made.
    assert_eq!(heap.new_exception(&t, BuiltinException::ArithmeticException), None);
    assert_eq!(heap.len(), 2);
}
