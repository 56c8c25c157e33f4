use rjvm_core::call_stack::{CallEntry, CallStack};
use rjvm_core::hierarchy::{ClassTable, ACC_PUBLIC};
use rjvm_core::string::JvmString;

fn name(s: &str) -> JvmString {
    JvmString::from_str(s)
}

fn call(class: usize, method: &str) -> CallEntry {
    CallEntry { class, method_name: name(method) }
}

fn shown(entries: &[CallEntry]) -> Vec<(usize, String)> {
    entries.iter().map(|e| (e.class, e.method_name.as_str().to_string())).collect()
}

#[test]
fn stack_traces_leave_out_the_exception_constructors() {
    let mut classes = ClassTable::new();
    let object = classes.add_class(name("java/lang/Object"), ACC_PUBLIC, None, vec![]).unwrap();
    let throwable = classes.add_class(name("java/lang/Throwable"), ACC_PUBLIC, Some(object), vec![]).unwrap();
    let exception = classes.add_class(name("java/lang/Exception"), ACC_PUBLIC, Some(throwable), vec![]).unwrap();
    let mine = classes.add_class(name("MyError"), ACC_PUBLIC, Some(exception), vec![]).unwrap();
    let main = classes.add_class(name("Main"), ACC_PUBLIC, Some(object), vec![]).unwrap();

    let mut stack = CallStack::empty();
    stack.push_call(call(main, "main"));
    stack.push_call(call(main, "run"));
    stack.push_call(call(mine, "<init>"));
    stack.push_call(call(exception, "<init>"));
    stack.push_call(call(throwable, "<init>"));
    stack.push_call(call(throwable, "fillInStackTrace"));
    stack.push_call(call(throwable, "internalFillInStackTrace"));
    assert_eq!(stack.len(), 7);

    let entries = stack.get_entries(2, &classes);
    assert_eq!(shown(&entries), vec![(main, "run".to_string()), (main, "main".to_string())]);

    let all = stack.get_entries(0, &classes);
    assert_eq!(all.len(), 4);
    assert_eq!(all[0].method_name.as_str(), "internalFillInStackTrace");

    assert!(stack.get_entries(10, &classes).is_empty());

    stack.pop_call();
    assert_eq!(stack.len(), 6);
    let mut empty = CallStack::empty();
    empty.pop_call();
    assert_eq!(empty.len(), 0);
}
