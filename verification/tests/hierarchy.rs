use rjvm_core::descriptor::PrimitiveType;
use rjvm_core::hierarchy::{
    ClassTable, ElementType, LinkError, ACC_ABSTRACT, ACC_FINAL, ACC_INTERFACE, ACC_PUBLIC,
};
use rjvm_core::string::JvmString;

fn name(s: &str) -> JvmString {
    JvmString::from_str(s)
}

struct Classes {
    table: ClassTable,
    object: usize,
    runnable: usize,
    comparable: usize,
    sub_runnable: usize,
    base: usize,
    derived: usize,
    sealed: usize,
}

fn classes() -> Classes {
    let mut table = ClassTable::new();
    let object = table.add_class(name("java/lang/Object"), ACC_PUBLIC, None, vec![]).unwrap();
    let iface = ACC_PUBLIC | ACC_INTERFACE | ACC_ABSTRACT;
    let runnable = table.add_class(name("Runnable"), iface, Some(object), vec![]).unwrap();
    let comparable = table.add_class(name("Comparable"), iface, Some(object), vec![]).unwrap();
    let sub_runnable = table.add_class(name("SubRunnable"), iface, Some(object), vec![runnable]).unwrap();
    let base = table.add_class(name("Base"), ACC_PUBLIC, Some(object), vec![sub_runnable]).unwrap();
    let derived = table.add_class(name("Derived"), ACC_PUBLIC, Some(base), vec![comparable]).unwrap();
    let sealed = table.add_class(name("Sealed"), ACC_FINAL, Some(object), vec![]).unwrap();
    Classes { table, object, runnable, comparable, sub_runnable, base, derived, sealed }
}

#[test]
fn linking_checks_the_superclass_and_interfaces() {
    let mut c = classes();
    assert_eq!(c.table.len(), 7);
    let n = c.table.len();
    assert_eq!(
        c.table.add_class(name("Bad"), 0, Some(c.sealed), vec![]),
        Err(LinkError::FinalSuperclass)
    );
    assert_eq!(
        c.table.add_class(name("Bad"), 0, Some(c.object), vec![c.runnable, c.base]),
        Err(LinkError::NotAnInterface)
    );
    assert_eq!(c.table.len(), n);
    assert_eq!(c.table.add_class(name("Ok"), 0, Some(c.base), vec![]), Ok(n));
    assert_eq!(c.table.name(n).as_str(), "Ok");
    assert_eq!(c.table.super_class(n), Some(c.base));
}

#[test]
fn superclasses_and_interfaces() {
    let c = classes();
    let t = &c.table;
    assert!(t.has_super_class(c.derived, c.base));
    assert!(t.has_super_class(c.derived, c.object));
    assert!(!t.has_super_class(c.base, c.derived));
    assert!(!t.has_super_class(c.object, c.object));
    assert!(t.matches_class(c.derived, c.derived));
    assert!(t.matches_class(c.derived, c.object));
    assert!(t.implements_interface(c.derived, c.comparable));
    assert!(t.implements_interface(c.derived, c.sub_runnable));
    assert!(t.implements_interface(c.derived, c.runnable));
    assert!(t.implements_interface(c.base, c.runnable));
    assert!(!t.implements_interface(c.base, c.comparable));
    assert!(t.is_interface(c.runnable));
    assert!(t.cant_instantiate(c.runnable));
    assert!(!t.cant_instantiate(c.base));
    assert!(t.is_final(c.sealed));
    assert!(!t.is_abstract(c.base));
    assert_eq!(t.modifiers(c.sealed), ACC_FINAL);
}

#[test]
fn array_classes_are_named_by_their_element() {
    let mut c = classes();
    let derived_array = c.table.add_array_class(ElementType::Reference(c.derived), c.object);
    let int_array = c.table.add_array_class(ElementType::Primitive(PrimitiveType::Int), c.object);
    let int_matrix = c.table.add_array_class(ElementType::Reference(int_array), c.object);
    let sealed_array = c.table.add_array_class(ElementType::Reference(c.sealed), c.object);
    assert_eq!(c.table.name(derived_array).as_str(), "[LDerived;");
    assert_eq!(c.table.name(int_array).as_str(), "[I");
    assert_eq!(c.table.name(int_matrix).as_str(), "[[I");
    assert_eq!(c.table.modifiers(int_array), ACC_PUBLIC | ACC_FINAL | ACC_ABSTRACT);
    assert_eq!(c.table.modifiers(sealed_array), ACC_FINAL | ACC_ABSTRACT);
    assert_eq!(c.table.super_class(int_array), Some(c.object));
    assert_eq!(c.table.array_value_type(int_matrix), Some(ElementType::Reference(int_array)));
}

#[test]
fn casts_follow_the_hierarchy() {
    let mut c = classes();
    let derived_array = c.table.add_array_class(ElementType::Reference(c.derived), c.object);
    let base_array = c.table.add_array_class(ElementType::Reference(c.base), c.object);
    let int_array = c.table.add_array_class(ElementType::Primitive(PrimitiveType::Int), c.object);
    let long_array = c.table.add_array_class(ElementType::Primitive(PrimitiveType::Long), c.object);
    let t = &c.table;
    assert!(t.check_cast(c.derived, c.base));
    assert!(t.check_cast(c.derived, c.runnable));
    assert!(!t.check_cast(c.base, c.derived));
    assert!(t.check_cast(derived_array, base_array));
    assert!(!t.check_cast(base_array, derived_array));
    assert!(t.check_cast(int_array, int_array));
    assert!(!t.check_cast(int_array, long_array));
    assert!(!t.check_cast(derived_array, int_array));
    assert!(t.check_cast(derived_array, c.object));
    assert!(!t.check_cast(c.object, derived_array));
}

#[test]
fn primitive_classes_stand_alone() {
    let mut c = classes();
    let int = c.table.add_primitive_class(PrimitiveType::Int);
    assert_eq!(c.table.name(int).as_str(), "int");
    assert_eq!(c.table.modifiers(int), ACC_PUBLIC | ACC_FINAL | ACC_ABSTRACT);
    assert_eq!(c.table.super_class(int), None);
    assert_eq!(c.table.primitive_type(int), Some(PrimitiveType::Int));
    assert_eq!(c.table.primitive_type(c.object), None);
    assert!(c.table.cant_instantiate(int));
    assert!(c.table.check_cast(int, int));
    assert!(!c.table.check_cast(int, c.object));
    let ints = c.table.add_array_class(ElementType::Primitive(PrimitiveType::Int), c.object);
    assert_eq!(c.table.name(ints).as_str(), "[I");
    assert_eq!(c.table.primitive_type(ints), None);
}

#[test]
fn dot_names_replace_slashes() {
    let c = classes();
    assert_eq!(c.table.dot_name(c.object), "java.lang.Object");
    assert_eq!(c.table.dot_name(c.base), "Base");
}

#[test]
fn array_classes_share_their_element_loader() {
    let mut c = classes();
    let mine = c.table.add_class_in(name("app/Thing"), ACC_PUBLIC, Some(c.object), vec![], Some(3)).unwrap();
    assert_eq!(c.table.loader(mine), Some(3));
    assert_eq!(c.table.loader(c.object), None);
    let things = c.table.add_array_class(ElementType::Reference(mine), c.object);
    assert_eq!(c.table.loader(things), Some(3));
    let nested = c.table.add_array_class(ElementType::Reference(things), c.object);
    assert_eq!(c.table.loader(nested), Some(3));
    let ints = c.table.add_array_class(ElementType::Primitive(PrimitiveType::Int), c.object);
    assert_eq!(c.table.loader(ints), None);
    assert_eq!(c.table.find_array_class(ElementType::Reference(mine)), Some(things));
    assert_eq!(c.table.find_class(&name("app/Thing")), Some(mine));
    assert_eq!(c.table.find_class(&name("app/Other")), None);
}
