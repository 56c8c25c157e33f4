use rjvm_core::classfile::class::ClassFile;
use rjvm_core::classfile::constant_pool::{constant_pool_checkable, read_constant_pool, ConstantPoolEntry, MethodHandle};
use rjvm_core::classfile::error::{Error, ThrownAs};
use rjvm_core::descriptor::Descriptor;
use rjvm_core::field::{field_constant_value, load_instance_fields, ConstantValue, Field, FieldError};
use rjvm_core::method::code_data;
use rjvm_core::value::Value;
use rjvm_core::reader::FileData;
use rjvm_core::reader::ReadError;
use rjvm_core::classfile::reader::FileData as ClassReader;

/// Assembles constant-pool entries and counts the slots they take.
struct Pool {
    bytes: Vec<u8>,
    slots: u16,
}

impl Pool {
    fn new() -> Self {
        Pool { bytes: Vec::new(), slots: 0 }
    }

    fn utf8(&mut self, s: &str) -> u16 {
        self.bytes.push(1);
        self.bytes.extend_from_slice(&(s.len() as u16).to_be_bytes());
        self.bytes.extend_from_slice(s.as_bytes());
        self.slots += 1;
        self.slots
    }

    fn raw_utf8(&mut self, b: &[u8]) -> u16 {
        self.bytes.push(1);
        self.bytes.extend_from_slice(&(b.len() as u16).to_be_bytes());
        self.bytes.extend_from_slice(b);
        self.slots += 1;
        self.slots
    }

    fn class(&mut self, name_idx: u16) -> u16 {
        self.bytes.push(7);
        self.bytes.extend_from_slice(&name_idx.to_be_bytes());
        self.slots += 1;
        self.slots
    }

    fn integer(&mut self, v: i32) -> u16 {
        self.bytes.push(3);
        self.bytes.extend_from_slice(&v.to_be_bytes());
        self.slots += 1;
        self.slots
    }

    fn long(&mut self, v: i64) -> u16 {
        self.bytes.push(5);
        self.bytes.extend_from_slice(&v.to_be_bytes());
        self.slots += 2;
        self.slots - 1
    }

    fn double_bits(&mut self, v: u64) -> u16 {
        self.bytes.push(6);
        self.bytes.extend_from_slice(&v.to_be_bytes());
        self.slots += 2;
        self.slots - 1
    }

    fn float_bits(&mut self, v: u32) -> u16 {
        self.bytes.push(4);
        self.bytes.extend_from_slice(&v.to_be_bytes());
        self.slots += 1;
        self.slots
    }

    fn pair(&mut self, tag: u8, a: u16, b: u16) -> u16 {
        self.bytes.push(tag);
        self.bytes.extend_from_slice(&a.to_be_bytes());
        self.bytes.extend_from_slice(&b.to_be_bytes());
        self.slots += 1;
        self.slots
    }

    fn method_handle(&mut self, kind: u8, idx: u16) -> u16 {
        self.bytes.push(15);
        self.bytes.push(kind);
        self.bytes.extend_from_slice(&idx.to_be_bytes());
        self.slots += 1;
        self.slots
    }

    /// The count field followed by the entries.
    fn encode(&self) -> Vec<u8> {
        let mut out = (self.slots + 1).to_be_bytes().to_vec();
        out.extend_from_slice(&self.bytes);
        out
    }
}

fn be16(out: &mut Vec<u8>, v: u16) {
    out.extend_from_slice(&v.to_be_bytes());
}

/// A small class `Test extends java/lang/Object` with one field, one method
/// with one attribute, and a long constant.
fn sample_class() -> Vec<u8> {
    let mut pool = Pool::new();
    let test_name = pool.utf8("Test");
    let test_class = pool.class(test_name);
    let object_name = pool.utf8("java/lang/Object");
    let object_class = pool.class(object_name);
    let main_name = pool.utf8("main");
    let main_desc = pool.utf8("([Ljava/lang/String;)V");
    let code_name = pool.utf8("Code");
    let _long = pool.long(0x1_0000_0002);
    let count_name = pool.utf8("count");
    let count_desc = pool.utf8("I");

    let mut out = vec![0xCA, 0xFE, 0xBA, 0xBE, 0, 0, 0, 52];
    out.extend_from_slice(&pool.encode());
    be16(&mut out, 0x0021);
    be16(&mut out, test_class);
    be16(&mut out, object_class);
    be16(&mut out, 0); // interfaces
    be16(&mut out, 1); // fields
    be16(&mut out, 0x0002);
    be16(&mut out, count_name);
    be16(&mut out, count_desc);
    be16(&mut out, 0);
    be16(&mut out, 1); // methods
    be16(&mut out, 0x0009);
    be16(&mut out, main_name);
    be16(&mut out, main_desc);
    be16(&mut out, 1);
    be16(&mut out, code_name);
    out.extend_from_slice(&3u32.to_be_bytes());
    out.extend_from_slice(&[1, 2, 3]);
    be16(&mut out, 0); // class attributes
    out
}

#[test]
fn parses_sample_class() {
    let class = ClassFile::from_data(sample_class()).unwrap();
    assert_eq!(class.flags(), 0x0021);
    assert_eq!(class.this_class().as_str(), "Test");
    assert_eq!(class.super_class().unwrap().as_str(), "java/lang/Object");
    assert_eq!(class.interfaces().len(), 0);
    assert_eq!(class.fields().len(), 1);
    assert_eq!(class.fields()[0].flags(), 0x0002);
    assert_eq!(class.fields()[0].name().as_str(), "count");
    assert_eq!(class.fields()[0].descriptor().as_str(), "I");
    assert_eq!(class.methods().len(), 1);
    let method = &class.methods()[0];
    assert_eq!(method.flags(), 0x0009);
    assert_eq!(method.name().as_str(), "main");
    assert_eq!(method.descriptor().as_str(), "([Ljava/lang/String;)V");
    assert_eq!(method.attributes().len(), 1);
    assert_eq!(method.attributes()[0].name().as_str(), "Code");
    assert_eq!(method.attributes()[0].data(), &[1, 2, 3]);
    assert_eq!(class.attributes().len(), 0);
}

#[test]
fn long_constant_takes_two_slots() {
    let class = ClassFile::from_data(sample_class()).unwrap();
    let pool = class.constant_pool();
    assert_eq!(pool.len(), 11);
    assert!(matches!(pool.entry(8).unwrap(), ConstantPoolEntry::Long { value: 0x1_0000_0002 }));
    assert!(matches!(pool.entry(9).unwrap(), ConstantPoolEntry::Placeholder));
    assert_eq!(pool.get_utf8(10).unwrap().as_str(), "count");
    assert_eq!(pool.get_class(2).unwrap().as_str(), "Test");
    assert_eq!(pool.get_class(1).unwrap_err(), Error::ConstantPoolTypeMismatch);
    assert_eq!(pool.get_utf8(0).unwrap_err(), Error::ExpectedNonZero);
    assert_eq!(pool.entry(0).unwrap_err(), Error::ExpectedNonZero);
}

#[test]
fn index_past_the_pool_is_an_error() {
    let class = ClassFile::from_data(sample_class()).unwrap();
    let pool = class.constant_pool();
    assert!(pool.entry(11).is_ok());
    assert_eq!(pool.entry(12).unwrap_err(), Error::ConstantPoolIndexOutOfBounds);
    assert_eq!(pool.get_utf8(200).unwrap_err(), Error::ConstantPoolIndexOutOfBounds);
    assert_eq!(pool.get_class(0xffff).unwrap_err(), Error::ConstantPoolIndexOutOfBounds);
    assert_eq!(pool.get_name_and_type(12).unwrap_err(), Error::ConstantPoolIndexOutOfBounds);
    assert_eq!(pool.get_field_ref(12).unwrap_err(), Error::ConstantPoolIndexOutOfBounds);
    assert_eq!(pool.get_method_ref(12).unwrap_err(), Error::ConstantPoolIndexOutOfBounds);
    assert_eq!(pool.get_interface_method_ref(12).unwrap_err(), Error::ConstantPoolIndexOutOfBounds);
    assert_eq!(pool.get_any_method_ref(12).unwrap_err(), Error::ConstantPoolIndexOutOfBounds);
    let (kind, message) = Error::ConstantPoolIndexOutOfBounds.thrown_as();
    assert_eq!(kind, ThrownAs::VerifyError);
    assert_eq!(message, "Out-of-bounds constant pool index");
}

#[test]
fn trailing_bytes_are_ignored() {
    let mut data = sample_class();
    data.extend_from_slice(&[9, 9, 9]);
    let class = ClassFile::from_data(data).unwrap();
    assert_eq!(class.this_class().as_str(), "Test");
}

#[test]
fn class_without_super_class() {
    let mut pool = Pool::new();
    let n = pool.utf8("java/lang/Object");
    let c = pool.class(n);
    let mut out = vec![0xCA, 0xFE, 0xBA, 0xBE, 0, 3, 0, 45];
    out.extend_from_slice(&pool.encode());
    be16(&mut out, 0x0001);
    be16(&mut out, c);
    be16(&mut out, 0);
    be16(&mut out, 1); // one interface: itself
    be16(&mut out, c);
    be16(&mut out, 0);
    be16(&mut out, 0);
    be16(&mut out, 0);
    let class = ClassFile::from_data(out).unwrap();
    assert!(class.super_class().is_none());
    assert_eq!(class.interfaces().len(), 1);
    assert_eq!(class.interfaces()[0].as_str(), "java/lang/Object");
}

#[test]
fn bad_magic_is_refused() {
    let mut data = sample_class();
    data[3] = 0xBF;
    assert_eq!(ClassFile::from_data(data).unwrap_err(), Error::InvalidMagic);
}

#[test]
fn truncated_file_ends_early() {
    let data = sample_class();
    for cut in [0usize, 3, 9, 20, data.len() - 1] {
        let short = data[..cut].to_vec();
        assert_eq!(ClassFile::from_data(short).unwrap_err(), Error::EndOfFile, "cut at {}", cut);
    }
}

fn parse_pool(pool: &Pool) -> Result<Vec<u8>, Error> {
    let bytes = pool.encode();
    let mut reader = FileData::new(&bytes);
    read_constant_pool(&mut reader).map(|_| bytes.clone())
}

#[test]
fn class_must_name_a_utf8_entry() {
    let mut pool = Pool::new();
    let i = pool.integer(5);
    pool.class(i);
    assert_eq!(parse_pool(&pool).unwrap_err(), Error::ConstantPoolTypeMismatch);
}

#[test]
fn zero_entry_count_is_refused() {
    let bytes = vec![0u8, 0];
    let mut reader = FileData::new(&bytes);
    assert_eq!(read_constant_pool(&mut reader).unwrap_err(), Error::ExpectedNonZero);
}

#[test]
fn reference_past_the_pool_is_refused() {
    let mut pool = Pool::new();
    pool.class(7);
    assert_eq!(parse_pool(&pool).unwrap_err(), Error::ConstantPoolIndexOutOfBounds);
    let mut pool = Pool::new();
    let n = pool.utf8("C");
    let c = pool.class(n);
    pool.pair(9, c, 40);
    assert_eq!(parse_pool(&pool).unwrap_err(), Error::ConstantPoolIndexOutOfBounds);
}

#[test]
fn reference_to_slot_zero_is_refused() {
    let mut pool = Pool::new();
    pool.class(0);
    assert_eq!(parse_pool(&pool).unwrap_err(), Error::ExpectedNonZero);
}

#[test]
fn unknown_tag_is_refused() {
    let bytes = vec![0u8, 2, 2, 0, 0];
    let mut reader = FileData::new(&bytes);
    assert_eq!(read_constant_pool(&mut reader).unwrap_err(), Error::ConstantPoolInvalidEntry);
}

#[test]
fn invalid_utf8_is_refused() {
    let mut pool = Pool::new();
    pool.raw_utf8(&[0xC3, 0x28]);
    assert_eq!(parse_pool(&pool).unwrap_err(), Error::InvalidString);
}

#[test]
fn bad_method_handle_kind_is_refused() {
    let mut pool = Pool::new();
    pool.method_handle(10, 1);
    assert_eq!(parse_pool(&pool).unwrap_err(), Error::ConstantPoolVerifyError);
}

/// A pool with a method reference `C.name:()V`, and a method handle of
/// `kind` on it.
fn pool_with_handle(kind: u8, name: &str, tag: u8) -> Pool {
    let mut pool = Pool::new();
    let cn = pool.utf8("C");
    let c = pool.class(cn);
    let n = pool.utf8(name);
    let d = pool.utf8("()V");
    let nt = pool.pair(12, n, d);
    let mr = pool.pair(tag, c, nt);
    pool.method_handle(kind, mr);
    pool
}

#[test]
fn method_handles_check_their_targets() {
    // InvokeVirtual of an ordinary method is fine; of an initializer it is not.
    assert!(parse_pool(&pool_with_handle(5, "run", 10)).is_ok());
    assert_eq!(parse_pool(&pool_with_handle(5, "<init>", 10)).unwrap_err(), Error::ConstantPoolVerifyError);
    assert_eq!(parse_pool(&pool_with_handle(5, "<clinit>", 10)).unwrap_err(), Error::ConstantPoolVerifyError);
    // NewInvokeSpecial must name <init>.
    assert!(parse_pool(&pool_with_handle(8, "<init>", 10)).is_ok());
    assert_eq!(parse_pool(&pool_with_handle(8, "run", 10)).unwrap_err(), Error::ConstantPoolVerifyError);
    // InvokeStatic accepts interface-method references too.
    assert!(parse_pool(&pool_with_handle(6, "run", 11)).is_ok());
    assert_eq!(parse_pool(&pool_with_handle(6, "run", 9)).unwrap_err(), Error::ConstantPoolTypeMismatch);
    // InvokeInterface needs an interface-method reference.
    assert!(parse_pool(&pool_with_handle(9, "run", 11)).is_ok());
    assert_eq!(parse_pool(&pool_with_handle(9, "run", 10)).unwrap_err(), Error::ConstantPoolTypeMismatch);
    // GetField needs a field reference.
    assert!(parse_pool(&pool_with_handle(1, "x", 9)).is_ok());
    assert_eq!(parse_pool(&pool_with_handle(1, "x", 10)).unwrap_err(), Error::ConstantPoolTypeMismatch);
}

#[test]
fn references_resolve_to_names() {
    let mut pool = Pool::new();
    let cn = pool.utf8("pkg/C");
    let c = pool.class(cn);
    let n = pool.utf8("value");
    let d = pool.utf8("J");
    let nt = pool.pair(12, n, d);
    let fr = pool.pair(9, c, nt);
    let mr = pool.pair(10, c, nt);
    let ir = pool.pair(11, c, nt);
    let mh = pool.method_handle(3, fr);
    let fl = pool.float_bits(0x3f80_0000);
    let db = pool.double_bits(0x4000_0000_0000_0000);
    let bytes = pool.encode();
    let mut reader = FileData::new(&bytes);
    let cp = read_constant_pool(&mut reader).unwrap();
    assert_eq!(reader.position(), bytes.len());
    let (class, name, desc) = cp.get_field_ref(fr).unwrap();
    assert_eq!((class.as_str(), name.as_str(), desc.as_str()), ("pkg/C", "value", "J"));
    assert!(cp.get_method_ref(mr).is_ok());
    assert_eq!(cp.get_method_ref(fr).unwrap_err(), Error::ConstantPoolTypeMismatch);
    assert!(cp.get_interface_method_ref(ir).is_ok());
    assert!(cp.get_any_method_ref(ir).is_ok());
    assert!(cp.get_any_method_ref(mr).is_ok());
    assert_eq!(cp.get_any_method_ref(fr).unwrap_err(), Error::ConstantPoolTypeMismatch);
    let (n2, d2) = cp.get_name_and_type(nt).unwrap();
    assert_eq!((n2.as_str(), d2.as_str()), ("value", "J"));
    assert!(matches!(cp.entry(mh).unwrap(), ConstantPoolEntry::MethodHandle { method_handle: MethodHandle::PutField(i) } if i == fr));
    assert!(matches!(cp.entry(fl).unwrap(), ConstantPoolEntry::Float { bits: 0x3f80_0000 }));
    assert!(matches!(cp.entry(db).unwrap(), ConstantPoolEntry::Double { bits: 0x4000_0000_0000_0000 }));
    assert!(matches!(cp.entry(db + 1).unwrap(), ConstantPoolEntry::Placeholder));
    assert_eq!(cp.entry(nt).unwrap().tag(), 12);
}

#[test]
fn integer_constants_keep_their_sign() {
    let mut pool = Pool::new();
    let i = pool.integer(-7);
    let l = pool.long(-2);
    let bytes = pool.encode();
    let mut reader = FileData::new(&bytes);
    let cp = read_constant_pool(&mut reader).unwrap();
    assert!(matches!(cp.entry(i).unwrap(), ConstantPoolEntry::Integer { value: -7 }));
    assert!(matches!(cp.entry(l).unwrap(), ConstantPoolEntry::Long { value: -2 }));
}

#[test]
fn classfile_error_from_read_error() {
    assert_eq!(Error::from(ReadError::EndOfFile), Error::EndOfFile);
    assert_eq!(Error::from(ReadError::InvalidMagic), Error::InvalidMagic);
    assert_eq!(Error::from(ReadError::InvalidString), Error::InvalidString);
}

#[test]
fn classfile_reader_reads_big_endian() {
    let bytes = [0x12u8, 0x34, 0x56, 0x78, 0x9a, 0x41, 0x42];
    let mut r = ClassReader::new(&bytes);
    assert_eq!(r.read_u16().unwrap(), 0x1234);
    assert_eq!(r.read_u32().unwrap(), 0x5678_9a41);
    assert_eq!(r.position(), 6);
    assert_eq!(r.read_string(1).unwrap(), "B");
    assert_eq!(r.read_u8().unwrap_err(), Error::EndOfFile);
    let mut r = ClassReader::new(&bytes);
    assert_eq!(r.read_bytes(8).unwrap_err(), Error::EndOfFile);
}

#[test]
fn method_code_is_found_by_name() {
    let class = ClassFile::from_data(sample_class()).unwrap();
    let method = &class.methods()[0];
    assert_eq!(code_data(method.attributes()), Some(vec![1, 2, 3]));
    let field = &class.fields()[0];
    assert_eq!(code_data(field.attributes()), None);
}

#[test]
fn classfile_errors_are_thrown_as_java_errors() {
    assert_eq!(Error::EndOfFile.thrown_as(), (ThrownAs::ClassFormatError, "Truncated class file"));
    assert_eq!(
        Error::ConstantPoolTypeMismatch.thrown_as(),
        (ThrownAs::VerifyError, "Type mismatch for constant pool entry")
    );
    assert_eq!(Error::InvalidString.thrown_as(), (ThrownAs::ClassFormatError, "Illegal UTF8 string"));
}

/// A class with fields holding an `int`, a `long` and a string constant,
/// and one field without a constant.
fn class_with_constants() -> Vec<u8> {
    let mut pool = Pool::new();
    let this_name = pool.utf8("Consts");
    let this_class = pool.class(this_name);
    let constant_name = pool.utf8("ConstantValue");
    let int_value = pool.integer(-7);
    let long_value = pool.long(1 << 40);
    let text = pool.utf8("hello");
    pool.bytes.push(8);
    pool.bytes.extend_from_slice(&text.to_be_bytes());
    pool.slots += 1;
    let string_value = pool.slots;
    let field_name = pool.utf8("f");
    let int_desc = pool.utf8("I");
    let long_desc = pool.utf8("J");
    let string_desc = pool.utf8("Ljava/lang/String;");
    let mut out = vec![0xCA, 0xFE, 0xBA, 0xBE, 0, 0, 0, 52];
    out.extend_from_slice(&pool.encode());
    be16(&mut out, 0x0021);
    be16(&mut out, this_class);
    be16(&mut out, 0);
    be16(&mut out, 0); // interfaces
    be16(&mut out, 4); // fields
    for (desc, constant) in [(int_desc, Some(int_value)), (long_desc, Some(long_value)), (string_desc, Some(string_value)), (int_desc, None)] {
        be16(&mut out, 0x0018);
        be16(&mut out, field_name);
        be16(&mut out, desc);
        match constant {
            Some(idx) => {
                be16(&mut out, 1);
                be16(&mut out, constant_name);
                out.extend_from_slice(&2u32.to_be_bytes());
                be16(&mut out, idx);
            }
            None => be16(&mut out, 0),
        }
    }
    be16(&mut out, 0); // methods
    be16(&mut out, 0); // class attributes
    out
}

#[test]
fn field_constants_come_from_the_pool() {
    let class = ClassFile::from_data(class_with_constants()).unwrap();
    let pool = class.constant_pool();
    let fields = class.fields();
    match field_constant_value(pool, fields[0].attributes()) {
        Ok(Some(ConstantValue::Value(v))) => assert_eq!(v, Value::Integer(-7)),
        other => panic!("unexpected {:?}", other),
    }
    match field_constant_value(pool, fields[1].attributes()) {
        Ok(Some(ConstantValue::Value(v))) => assert_eq!(v.long(), 1 << 40),
        other => panic!("unexpected {:?}", other),
    }
    match field_constant_value(pool, fields[2].attributes()) {
        Ok(Some(ConstantValue::String(s))) => assert_eq!(s.as_str(), "hello"),
        other => panic!("unexpected {:?}", other),
    }
    assert!(matches!(field_constant_value(pool, fields[3].attributes()), Ok(None)));
}

#[test]
fn fields_without_constants_start_at_zero() {
    assert_eq!(Descriptor::Integer.default_value(), Value::Integer(0));
    assert_eq!(Descriptor::Double.default_value(), Value::Primitive(0));
    assert_eq!(Descriptor::Long.default_value(), Value::Long(0));
    let class = Descriptor::Class(rjvm_core::string::JvmString::from_str("A"));
    assert_eq!(class.default_value(), Value::Object(None));
}

#[test]
fn loaded_fields_start_at_their_constant_or_zero() {
    let class = ClassFile::from_data(class_with_constants()).unwrap();
    let pool = class.constant_pool();
    let fields = class.fields();
    let mut first = Field::from_field(pool, &fields[0]).unwrap();
    assert_eq!(first.name().as_str(), "f");
    assert_eq!(first.flags(), 0x0018);
    assert_eq!(first.descriptor().to_string(), "I");
    assert!(matches!(first.value(), ConstantValue::Value(v) if *v == Value::Integer(-7)));
    first.set_value(Value::Integer(3));
    assert!(matches!(first.value(), ConstantValue::Value(v) if *v == Value::Integer(3)));
    let text = Field::from_field(pool, &fields[2]).unwrap();
    assert!(matches!(text.value(), ConstantValue::String(s) if s.as_str() == "hello"));
    let plain = Field::from_field(pool, &fields[3]).unwrap();
    assert!(matches!(plain.value(), ConstantValue::Value(v) if *v == Value::Integer(0)));
}

#[test]
fn fields_with_bad_descriptors_are_refused() {
    let mut pool = Pool::new();
    let this_name = pool.utf8("Bad");
    let this_class = pool.class(this_name);
    let field_name = pool.utf8("f");
    let bad_desc = pool.utf8("II");
    let mut out = vec![0xCA, 0xFE, 0xBA, 0xBE, 0, 0, 0, 52];
    out.extend_from_slice(&pool.encode());
    be16(&mut out, 0x0021);
    be16(&mut out, this_class);
    be16(&mut out, 0);
    be16(&mut out, 0);
    be16(&mut out, 1);
    be16(&mut out, 0);
    be16(&mut out, field_name);
    be16(&mut out, bad_desc);
    be16(&mut out, 0);
    be16(&mut out, 0);
    be16(&mut out, 0);
    let class = ClassFile::from_data(out).unwrap();
    let fields = class.fields();
    assert_eq!(Field::from_field(class.constant_pool(), &fields[0]).unwrap_err(), FieldError::IllegalFieldSignature);
}

#[test]
fn instance_fields_follow_the_superclass_fields() {
    let mut pool = Pool::new();
    let this_name = pool.utf8("Point");
    let this_class = pool.class(this_name);
    let x = pool.utf8("x");
    let count = pool.utf8("count");
    let label = pool.utf8("label");
    let int_desc = pool.utf8("I");
    let long_desc = pool.utf8("J");
    let string_desc = pool.utf8("Ljava/lang/String;");
    let mut out = vec![0xCA, 0xFE, 0xBA, 0xBE, 0, 0, 0, 52];
    out.extend_from_slice(&pool.encode());
    be16(&mut out, 0x0021);
    be16(&mut out, this_class);
    be16(&mut out, 0);
    be16(&mut out, 0);
    be16(&mut out, 3);
    for (flags, name, desc) in [(0x0001, x, int_desc), (0x0008, count, long_desc), (0x0002, label, string_desc)] {
        be16(&mut out, flags);
        be16(&mut out, name);
        be16(&mut out, desc);
        be16(&mut out, 0);
    }
    be16(&mut out, 0);
    be16(&mut out, 0);
    let class = ClassFile::from_data(out).unwrap();

    let parent_class = ClassFile::from_data(class_with_constants()).unwrap();
    let parent = vec![Field::from_field(parent_class.constant_pool(), &parent_class.fields()[3]).unwrap()];
    let (all, keys) = load_instance_fields(class.constant_pool(), class.fields(), &parent).unwrap();
    let names: Vec<&str> = all.iter().map(|f| f.name().as_str()).collect();
    assert_eq!(names, vec!["f", "x", "label"]);
    assert_eq!(keys.len(), 2);
    assert_eq!(keys[0].0.as_str(), "x");
    assert_eq!(keys[0].1.to_string(), "I");
    assert_eq!(keys[1].0.as_str(), "label");
    assert!(matches!(all[2].value(), ConstantValue::Value(v) if *v == Value::Object(None)));
}

/// A pool whose first entry is a method handle (`InvokeVirtual`) on the
/// method reference after it, which names a UTF-8 entry as its class.
fn pool_with_broken_handle_target() -> Pool {
    let mut pool = Pool::new();
    pool.method_handle(5, 5);
    let n = pool.utf8("run");
    let d = pool.utf8("()V");
    let nt = pool.pair(12, n, d);
    pool.pair(10, n, nt);
    pool
}

#[test]
fn checking_a_pool_is_defined_unless_a_handle_target_is_broken() {
    let broken = pool_with_broken_handle_target().encode();
    let mut reader = FileData::new(&broken);
    assert!(!constant_pool_checkable(&mut reader));
    for pool in [pool_with_handle(5, "run", 10), pool_with_handle(5, "<init>", 10), pool_with_handle(9, "run", 10)] {
        let bytes = pool.encode();
        let mut reader = FileData::new(&bytes);
        assert!(constant_pool_checkable(&mut reader));
    }
    // A pool that fails before the handle is checked is defined too.
    let mut pool = Pool::new();
    pool.class(0);
    pool.method_handle(5, 3);
    let bytes = pool.encode();
    let mut reader = FileData::new(&bytes);
    assert!(constant_pool_checkable(&mut reader));
}

#[test]
fn class_files_parse_unless_a_handle_target_is_broken() {
    assert!(ClassFile::can_parse(&sample_class()));
    let mut bad = sample_class();
    bad[0] = 0;
    assert!(ClassFile::can_parse(&bad));
    assert!(ClassFile::can_parse(&[0xCA, 0xFE]));
    let mut out = vec![0xCA, 0xFE, 0xBA, 0xBE, 0, 0, 0, 52];
    out.extend_from_slice(&pool_with_broken_handle_target().encode());
    out.extend_from_slice(&[0; 10]);
    assert!(!ClassFile::can_parse(&out));
}
