use rjvm_core::clinit::{ClinitAction, ClinitStage, ClinitStages};
use rjvm_core::hierarchy::{ClassTable, ACC_PUBLIC};
use rjvm_core::string::JvmString;

/// `Object` (0), `Throwable` (1), `Exception` (2), `Error` (3), a class
/// `A` (4) below `Object`, and `B` (5) below `A`.
fn classes() -> ClassTable {
    let mut t = ClassTable::new();
    let name = |s: &str| JvmString::from_str(s);
    let object = t.add_class(name("java/lang/Object"), ACC_PUBLIC, None, vec![]).unwrap();
    let throwable = t.add_class(name("java/lang/Throwable"), ACC_PUBLIC, Some(object), vec![]).unwrap();
    t.add_class(name("java/lang/Exception"), ACC_PUBLIC, Some(throwable), vec![]).unwrap();
    t.add_class(name("java/lang/Error"), ACC_PUBLIC, Some(throwable), vec![]).unwrap();
    let a = t.add_class(name("A"), ACC_PUBLIC, Some(object), vec![]).unwrap();
    t.add_class(name("B"), ACC_PUBLIC, Some(a), vec![]).unwrap();
    t
}

#[test]
fn initialization_runs_the_super_class_first_and_once() {
    let t = classes();
    let mut stages = ClinitStages::new(t.len());
    assert_eq!(stages.len(), 6);
    // B: first its superclass A.
    assert_eq!(stages.begin(5, Some(4), true), ClinitAction::InitializeSuperClass(4));
    assert_eq!(stages.stage(5), ClinitStage::StartedSuperClass);
    // A: first Object, which has no initializer and no superclass.
    assert_eq!(stages.begin(4, Some(0), false), ClinitAction::InitializeSuperClass(0));
    assert_eq!(stages.begin(0, None, false), ClinitAction::Proceed);
    assert_eq!(stages.stage(0), ClinitStage::Completed);
    assert_eq!(stages.superclass_done(4, true, false), ClinitAction::Proceed);
    assert_eq!(stages.stage(4), ClinitStage::Completed);
    // Back in B: its own initializer runs.
    assert_eq!(stages.superclass_done(5, true, true), ClinitAction::RunInitializer);
    assert_eq!(stages.stage(5), ClinitStage::StartedSelf);
    // Asking again while it runs does nothing.
    assert_eq!(stages.begin(5, Some(4), true), ClinitAction::Proceed);
    assert_eq!(stages.initializer_done(&t, 5, None, 2), ClinitAction::Proceed);
    assert_eq!(stages.stage(5), ClinitStage::Completed);
    assert_eq!(stages.begin(5, Some(4), true), ClinitAction::Proceed);
}

#[test]
fn failed_initialization_is_remembered() {
    let t = classes();
    let mut stages = ClinitStages::new(t.len());
    assert_eq!(stages.begin(4, None, true), ClinitAction::RunInitializer);
    // An Exception is wrapped.
    assert_eq!(stages.initializer_done(&t, 4, Some(2), 2), ClinitAction::ThrowWrapped);
    assert_eq!(stages.stage(4), ClinitStage::Failed);
    assert_eq!(stages.begin(4, None, true), ClinitAction::ThrowNoClassDefFound);
    // An Error is thrown on as it is.
    assert_eq!(stages.begin(5, None, true), ClinitAction::RunInitializer);
    assert_eq!(stages.initializer_done(&t, 5, Some(3), 2), ClinitAction::Rethrow);
    assert_eq!(stages.begin(5, None, false), ClinitAction::ThrowNoClassDefFound);
}

#[test]
fn failure_of_the_super_class_is_thrown_on() {
    let mut stages = ClinitStages::new(2);
    assert_eq!(stages.begin(1, Some(0), true), ClinitAction::InitializeSuperClass(0));
    assert_eq!(stages.superclass_done(1, false, true), ClinitAction::ThrowSuperClassError);
    assert_eq!(stages.stage(1), ClinitStage::StartedSuperClass);
    stages.add_class();
    assert_eq!(stages.len(), 3);
    assert_eq!(stages.stage(2), ClinitStage::NotStarted);
}
