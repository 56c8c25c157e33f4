use rjvm_core::descriptor::{Descriptor, MethodDescriptor};
use rjvm_core::string::JvmString;
use rjvm_core::vtable::{array_class_vtable, find_key, InstanceMethodVTable, VTable};

fn name(s: &str) -> JvmString {
    JvmString::from_str(s)
}

fn method(s: &str) -> MethodDescriptor {
    MethodDescriptor::new_from_string(&name(s)).unwrap()
}

#[test]
fn field_table_slots_follow_the_parent() {
    let parent = VTable::from_parent_and_keys(
        None,
        vec![(name("a"), Descriptor::Integer), (name("b"), Descriptor::Long)],
    );
    assert_eq!(parent.lookup(&name("a"), &Descriptor::Integer), Some(0));
    assert_eq!(parent.lookup(&name("b"), &Descriptor::Long), Some(1));
    assert_eq!(parent.lookup(&name("a"), &Descriptor::Long), None);
    let child = VTable::from_parent_and_keys(
        Some(parent),
        vec![(name("c"), Descriptor::Integer), (name("a"), Descriptor::Integer)],
    );
    assert_eq!(child.lookup(&name("c"), &Descriptor::Integer), Some(2));
    assert_eq!(child.lookup(&name("a"), &Descriptor::Integer), Some(3));
    assert_eq!(child.lookup(&name("b"), &Descriptor::Long), Some(1));
    assert_eq!(child.lookup(&name("d"), &Descriptor::Integer), None);
    assert_eq!(child.slots_for_name(&name("a")), vec![3]);
    assert_eq!(child.slots_for_name(&name("b")), Vec::<usize>::new());
}

#[test]
fn field_table_repeated_key_takes_its_last_slot() {
    let empty: VTable<Descriptor> = VTable::empty();
    assert_eq!(empty.lookup(&name("x"), &Descriptor::Integer), None);
    let table = VTable::from_parent_and_keys(
        Some(empty),
        vec![
            (name("x"), Descriptor::Integer),
            (name("x"), Descriptor::Double),
            (name("x"), Descriptor::Integer),
        ],
    );
    assert_eq!(table.lookup(&name("x"), &Descriptor::Integer), Some(2));
    assert_eq!(table.lookup(&name("x"), &Descriptor::Double), Some(1));
    assert_eq!(table.slots_for_name(&name("x")), vec![1, 2]);
}

#[test]
fn static_method_table_keys_by_method_descriptor() {
    let table = VTable::from_parent_and_keys(
        None,
        vec![(name("f"), method("()V")), (name("f"), method("(I)V"))],
    );
    assert_eq!(table.lookup(&name("f"), &method("(I)V")), Some(1));
    assert_eq!(table.lookup(&name("f"), &method("(J)V")), None);
}

#[test]
fn overriding_methods_keep_the_inherited_slot() {
    let parent = InstanceMethodVTable::from_parent_and_keys(
        None,
        vec![((name("m1"), method("()V")), 10u32), ((name("m2"), method("(I)V")), 20u32)],
    );
    let child = InstanceMethodVTable::from_parent_and_keys(
        Some(&parent),
        vec![
            ((name("m2"), method("(I)V")), 21u32),
            ((name("m3"), method("()V")), 30u32),
            ((name("m1"), method("(I)V")), 40u32),
        ],
    );
    assert_eq!(child.lookup(&name("m1"), &method("()V")), Some(0));
    assert_eq!(child.lookup(&name("m2"), &method("(I)V")), Some(1));
    assert_eq!(child.lookup(&name("m3"), &method("()V")), Some(2));
    assert_eq!(child.lookup(&name("m1"), &method("(I)V")), Some(3));
    assert_eq!(child.lookup(&name("m4"), &method("()V")), None);
    assert_eq!(child.get_element(0), 10);
    assert_eq!(child.get_element(1), 21);
    assert_eq!(parent.get_element(1), 20);
    assert_eq!(child.elements_for_name(&name("m1")), vec![10, 40]);
    let empty: InstanceMethodVTable<u32> = InstanceMethodVTable::empty();
    assert_eq!(empty.lookup(&name("m1"), &method("()V")), None);
}

#[test]
fn array_classes_override_clone() {
    let object = InstanceMethodVTable::from_parent_and_keys(
        None,
        vec![
            ((name("clone"), method("()Ljava/lang/Object;")), 1u32),
            ((name("toString"), method("()Ljava/lang/String;")), 2u32),
        ],
    );
    let array = array_class_vtable(&object, 7u32);
    let slot = array.lookup(&name("clone"), &method("()Ljava/lang/Object;")).unwrap();
    assert_eq!(slot, 0);
    assert_eq!(array.get_element(slot), 7);
    assert_eq!(array.lookup(&name("toString"), &method("()Ljava/lang/String;")), Some(1));
    assert_eq!(array.get_element(1), 2);
    assert_eq!(array.elements_for_name(&name("clone")), vec![7]);
    // Object's own table is left as it was.
    assert_eq!(object.get_element(0), 1);
}

#[test]
fn array_classes_get_clone_when_object_lacks_it() {
    let object = InstanceMethodVTable::from_parent_and_keys(
        None,
        vec![((name("hashCode"), method("()I")), 3u32)],
    );
    let array = array_class_vtable(&object, 9u32);
    assert_eq!(array.lookup(&name("clone"), &method("()Ljava/lang/Object;")), Some(1));
    assert_eq!(array.get_element(1), 9);
    assert_eq!(array.lookup(&name("hashCode"), &method("()I")), Some(0));
    assert_eq!(array.lookup(&name("clone"), &method("()V")), None);
}

#[test]
fn method_keys_are_found_by_name_and_descriptor() {
    let keys = vec![
        (name("main"), method("([Ljava/lang/String;)V")),
        (name("f"), method("(I)I")),
        (name("f"), method("(J)I")),
    ];
    assert_eq!(find_key(&keys, &name("f"), &method("(J)I")), Some(2));
    assert_eq!(find_key(&keys, &name("f"), &method("(I)I")), Some(1));
    assert_eq!(find_key(&keys, &name("g"), &method("(I)I")), None);
    assert_eq!(find_key(&keys, &name("main"), &method("()V")), None);
}
