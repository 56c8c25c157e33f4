use rjvm_core::report::error_report;

fn units(s: &str) -> Vec<u16> {
    s.encode_utf16().collect()
}

#[test]
fn report_lists_the_stack_trace() {
    let report = error_report(
        Ok(Some(String::from("java.lang.ArithmeticException: / by zero"))),
        Some(vec![units("Main.divide(Main.java:4)"), units("Main.main(Main.java:9)")]),
        None,
    );
    assert_eq!(
        report,
        "java.lang.ArithmeticException: / by zero\n\tat Main.divide(Main.java:4)\n\tat Main.main(Main.java:9)\n"
    );
}

#[test]
fn report_appends_the_cause() {
    let cause = error_report(Ok(Some(String::from("java.lang.Exception: inner"))), Some(vec![]), None);
    let report = error_report(Ok(None), None, Some(cause));
    assert_eq!(report, "null\nCaused by: java.lang.Exception: inner\n");
}

#[test]
fn report_of_a_failed_to_string() {
    let report = error_report(Err(String::from("java.lang.StackOverflowError")), Some(vec![units("x")]), None);
    assert_eq!(report, "(error while displaying error): java.lang.StackOverflowError");
}

#[test]
fn report_decodes_utf16_with_replacement() {
    let report = error_report(Ok(Some(String::from("E"))), Some(vec![vec![0x00e9, 0xd800]]), None);
    assert_eq!(report, "E\n\tat \u{e9}\u{fffd}\n");
}

#[test]
fn report_decodes_surrogate_pairs() {
    let report = error_report(Ok(Some(String::from("E"))), Some(vec![vec![0xd83d, 0xde00, 0xdc00, 0x41]]), None);
    assert_eq!(report, "E\n\tat \u{1f600}\u{fffd}A\n");
}
