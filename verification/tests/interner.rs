use rjvm_core::interner::JvmStringInterner;

#[test]
fn strings_are_interned_once() {
    let mut interner = JvmStringInterner::new();
    assert_eq!(interner.len(), 0);
    let a = interner.get_or_alloc("java/lang/Object".to_string());
    assert_eq!(a.as_str(), "java/lang/Object");
    assert_eq!(interner.len(), 1);
    let b = interner.get_or_alloc("java/lang/Object".to_string());
    assert_eq!(b.as_str(), "java/lang/Object");
    assert_eq!(interner.len(), 1);
    let c = interner.get_or_alloc("<init>".to_string());
    assert_eq!(c.as_str(), "<init>");
    assert_eq!(interner.len(), 2);
}

#[test]
fn bytes_are_interned_when_they_are_utf8() {
    let mut interner = JvmStringInterner::new();
    let a = interner.get_or_alloc_bytes("caf\u{e9}".as_bytes()).unwrap();
    assert_eq!(a.as_str(), "caf\u{e9}");
    // Found again, by bytes or by string.
    assert_eq!(interner.get_or_alloc_bytes("caf\u{e9}".as_bytes()).unwrap().as_str(), "caf\u{e9}");
    assert_eq!(interner.get_or_alloc("caf\u{e9}".to_string()).as_str(), "caf\u{e9}");
    assert_eq!(interner.len(), 1);
    // Not UTF-8.
    assert!(interner.get_or_alloc_bytes(&[0x63, 0xC3, 0x28]).is_err());
    assert!(interner.get_or_alloc_bytes(&[0xFF]).is_err());
    assert_eq!(interner.len(), 1);
    assert_eq!(interner.get_or_alloc_bytes(b"").unwrap().as_str(), "");
    assert_eq!(interner.len(), 2);
}
