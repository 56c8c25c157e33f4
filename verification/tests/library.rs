use rjvm_core::bitset::CompactBitSet;
use rjvm_core::descriptor::{CommonData, Descriptor, MethodDescriptor, PrimitiveType};
use rjvm_core::jar::Jar;
use rjvm_core::jar::read_zip::records_readable;
use rjvm_core::launcher::{
    get_main_class_from_manifest, main_class_entry, FileType, LaunchError, PassedOptions,
};
use rjvm_core::reader::{FileData, ReadError};
use rjvm_core::string::{hash_chars, hash_string, JvmString};
use rjvm_core::system::{primitive_array_copy, primitive_array_copy_within};

// ---------------------------------------------------------------------------
// Reader
// ---------------------------------------------------------------------------

#[test]
fn reader_reads_both_byte_orders() {
    let bytes = [0x12u8, 0x34, 0x56, 0x78, 0x9a, 0xbc];
    let mut r = FileData::new(&bytes);
    assert_eq!(r.len(), 6);
    assert_eq!(r.read_u16_be().unwrap(), 0x1234);
    assert_eq!(r.read_u16_le().unwrap(), 0x7856);
    assert_eq!(r.position(), 4);
    let mut r = FileData::new(&bytes);
    assert_eq!(r.read_u32_be().unwrap(), 0x1234_5678);
    let mut r = FileData::new(&bytes);
    assert_eq!(r.read_u32_le().unwrap(), 0x7856_3412);
    assert_eq!(r.read_u8().unwrap(), 0x9a);
}

#[test]
fn reader_stops_at_the_end() {
    let bytes = [1u8, 2, 3];
    let mut r = FileData::new(&bytes);
    assert_eq!(r.read_u32_be(), Err(ReadError::EndOfFile));
    let mut r = FileData::new(&bytes);
    assert_eq!(r.read_bytes(2).unwrap(), vec![1, 2]);
    assert_eq!(r.read_bytes(0).unwrap(), Vec::<u8>::new());
    assert_eq!(r.read_bytes(5), Err(ReadError::EndOfFile));
    assert_eq!(r.position(), 3);
}

#[test]
fn reader_seeks_and_reads_strings() {
    let bytes = b"xxhello";
    let mut r = FileData::new(bytes);
    assert_eq!(r.seek(2), Ok(()));
    assert_eq!(r.read_string(5).unwrap(), "hello");
    assert_eq!(r.seek(8), Err(ReadError::EndOfFile));
    let bad = [0xffu8, 0xfe];
    let mut r = FileData::new(&bad);
    assert_eq!(r.read_string(2), Err(ReadError::InvalidString));
}

// ---------------------------------------------------------------------------
// Strings
// ---------------------------------------------------------------------------

#[test]
fn string_hash_values() {
    assert_eq!(hash_string(""), 0);
    // (1 * 11) + 'a'
    assert_eq!(hash_string("a"), 108);
    // ((2 * 11 + 'a') * 11) + 'b'
    assert_eq!(hash_string("ab"), 1407);
    assert_eq!(hash_chars(2, &[97, 98]), 1407);
    assert_eq!(hash_chars(5, &[]), 5);
}

#[test]
fn string_hash_wraps() {
    let long = "z".repeat(40);
    let mut expected: u64 = 40;
    for _ in 0..40 {
        expected = expected.wrapping_mul(11).wrapping_add(b'z' as u64);
    }
    assert_eq!(hash_string(&long), expected);
}

#[test]
fn jvm_strings_compare_by_contents() {
    let a = JvmString::from_str("java/lang/Object");
    let b = JvmString::new(String::from("java/lang/Object"));
    let c = JvmString::from_str("java/lang/String");
    assert!(a == b);
    assert!(a != c);
    assert_eq!(a.hash_value(), hash_string("java/lang/Object"));
    assert_eq!(a.len(), 16);
    assert_eq!(a.as_str(), "java/lang/Object");
    assert_eq!(a.to_string(), "java/lang/Object");
    assert!(a.eq_str("java/lang/Object"));
    assert!(!a.eq_str("java/lang"));
    let d = a.clone();
    assert!(d == a);
}

// ---------------------------------------------------------------------------
// Descriptors
// ---------------------------------------------------------------------------

fn parse(s: &str) -> Option<Descriptor> {
    Descriptor::try_from_string(&JvmString::from_str(s))
}

#[test]
fn field_descriptors_parse_and_print_back() {
    for s in ["I", "J", "Z", "B", "C", "S", "F", "D", "Ljava/lang/String;", "[I", "[[Ljava/lang/Object;"] {
        assert_eq!(parse(s).unwrap().to_string(), s);
    }
    assert!(matches!(parse("Ljava/lang/String;"), Some(Descriptor::Class(_))));
    assert!(matches!(parse("[I"), Some(Descriptor::Array(_))));
}

#[test]
fn bad_field_descriptors_are_refused() {
    assert!(parse("V").is_none());
    assert!(parse("II").is_none());
    assert!(parse("Q").is_none());
    assert!(parse("[V").is_none());
}

#[test]
fn empty_and_unfinished_descriptors_are_refused() {
    for s in ["", "[", "[[", "L", "Ljava/lang/String"] {
        assert!(parse(s).is_none(), "{:?}", s);
    }
    assert!(Descriptor::from_data_counting(b"", true).is_none());
    assert!(Descriptor::from_data_counting(b"[", false).is_none());
}

#[test]
fn class_names_that_are_not_ascii_are_refused() {
    assert!(parse("L\u{e9};").is_none());
    assert!(parse("[Ljava/lang/Stra\u{df}e;").is_none());
    assert!(MethodDescriptor::new_from_string(&JvmString::from_str("(L\u{e9};)V")).is_none());
}

#[test]
fn descriptor_prefix_reports_its_length() {
    let (d, n) = Descriptor::from_data_counting(b"[JI", false).unwrap();
    assert_eq!(n, 2);
    assert_eq!(d.to_string(), "[J");
    let (d, n) = Descriptor::from_data_counting(b"V", true).unwrap();
    assert_eq!(n, 1);
    assert!(matches!(d, Descriptor::Void));
    assert!(Descriptor::from_data_counting(b"V", false).is_none());
}

#[test]
fn wide_descriptors() {
    assert!(parse("J").unwrap().is_wide());
    assert!(parse("D").unwrap().is_wide());
    assert!(!parse("I").unwrap().is_wide());
    assert!(!parse("[J").unwrap().is_wide());
}

#[test]
fn method_descriptors_count_slots() {
    let m = MethodDescriptor::new_from_string(&JvmString::from_str("(IJ[DLjava/lang/String;)V")).unwrap();
    assert_eq!(m.args().len(), 4);
    assert_eq!(m.physical_arg_count(), 5);
    assert!(matches!(m.return_type(), Descriptor::Void));
    let m = MethodDescriptor::new_from_string(&JvmString::from_str("()D")).unwrap();
    assert_eq!(m.args().len(), 0);
    assert_eq!(m.physical_arg_count(), 0);
    assert!(m.return_type().is_wide());
}

#[test]
fn bad_method_descriptors_are_refused() {
    for s in ["I", "(V)V", "(I)VV", "(Q)V", "", "(", "()", "(I)", "(I", "([)V", "()["] {
        assert!(MethodDescriptor::new_from_string(&JvmString::from_str(s)).is_none(), "{}", s);
    }
}

#[test]
fn primitive_types_and_common_names() {
    let all = PrimitiveType::get_all();
    assert_eq!(all.len(), 9);
    assert_eq!(all[0].name(), "boolean");
    assert_eq!(PrimitiveType::Int.name(), "int");
    assert_eq!(PrimitiveType::Void.name(), "void");
    let common = CommonData::new();
    assert_eq!(common.init_name.as_str(), "<init>");
    assert_eq!(common.clinit_name.as_str(), "<clinit>");
    assert_eq!(common.noargs_void_desc.physical_arg_count(), 0);
    assert_eq!(common.arg_char_array_void_desc.args().len(), 1);
}

// ---------------------------------------------------------------------------
// JAR files
// ---------------------------------------------------------------------------

struct Entry {
    name: &'static str,
    method: u16,
    stored: Vec<u8>,
}

fn le16(out: &mut Vec<u8>, v: u16) {
    out.extend_from_slice(&v.to_le_bytes());
}

fn le32(out: &mut Vec<u8>, v: u32) {
    out.extend_from_slice(&v.to_le_bytes());
}

fn zip(entries: &[Entry]) -> Vec<u8> {
    let mut out = Vec::new();
    let mut offsets = Vec::new();
    for e in entries {
        offsets.push(out.len() as u32);
        le32(&mut out, 0x04034b50);
        le16(&mut out, 20);
        le16(&mut out, 0);
        le16(&mut out, e.method);
        le16(&mut out, 0);
        le16(&mut out, 0);
        le32(&mut out, 0);
        le32(&mut out, e.stored.len() as u32);
        le32(&mut out, e.stored.len() as u32);
        le16(&mut out, e.name.len() as u16);
        le16(&mut out, 0);
        out.extend_from_slice(e.name.as_bytes());
        out.extend_from_slice(&e.stored);
    }
    let directory = out.len() as u32;
    for (e, offset) in entries.iter().zip(offsets.iter()) {
        le32(&mut out, 0x02014b50);
        le16(&mut out, 20);
        le16(&mut out, 20);
        le16(&mut out, 0);
        le16(&mut out, e.method);
        le16(&mut out, 0);
        le16(&mut out, 0);
        le32(&mut out, 0);
        le32(&mut out, e.stored.len() as u32);
        le32(&mut out, e.stored.len() as u32);
        le16(&mut out, e.name.len() as u16);
        le16(&mut out, 0);
        le16(&mut out, 0);
        le16(&mut out, 0);
        le16(&mut out, 0);
        le32(&mut out, 0);
        le32(&mut out, *offset);
        out.extend_from_slice(e.name.as_bytes());
    }
    let directory_size = out.len() as u32 - directory;
    le32(&mut out, 0x06054b50);
    le16(&mut out, 0);
    le16(&mut out, 0);
    le16(&mut out, entries.len() as u16);
    le16(&mut out, entries.len() as u16);
    le32(&mut out, directory_size);
    le32(&mut out, directory);
    le16(&mut out, 0);
    out
}

fn sample_jar() -> Vec<u8> {
    let class_bytes: Vec<u8> = (0..200u32).map(|i| (i % 7) as u8).collect();
    zip(&[
        Entry {
            name: "META-INF/MANIFEST.MF",
            method: 0,
            stored: b"Manifest-Version: 1.0\r\nMain-Class: com.example.Main\r\n".to_vec(),
        },
        Entry {
            name: "com/example/Main.class",
            method: 8,
            stored: miniz_oxide::deflate::compress_to_vec(&class_bytes, 6),
        },
    ])
}

#[test]
fn jar_lists_and_reads_its_files() {
    let jar = Jar::from_bytes(sample_jar()).unwrap();
    assert!(jar.has_file(&String::from("META-INF/MANIFEST.MF")));
    assert!(jar.has_file(&String::from("com/example/Main.class")));
    assert!(!jar.has_file(&String::from("com/example/Other.class")));
    let manifest = jar.read_file(String::from("META-INF/MANIFEST.MF")).unwrap();
    assert_eq!(get_main_class_from_manifest(manifest), Some(String::from("com/example/Main")));
    assert_eq!(jar.read_file(String::from("missing")), Err(()));
}

#[test]
fn jar_inflates_deflated_files() {
    let jar = Jar::from_bytes(sample_jar()).unwrap();
    let expected: Vec<u8> = (0..200u32).map(|i| (i % 7) as u8).collect();
    let data = jar.read_file(String::from("com/example/Main.class")).unwrap();
    assert_eq!(data, expected);
}

#[test]
fn jar_with_broken_deflate_data_fails_to_read() {
    let bytes = zip(&[Entry { name: "a", method: 8, stored: vec![0xff, 0xff, 0xff] }]);
    let jar = Jar::from_bytes(bytes).unwrap();
    assert_eq!(jar.read_file(String::from("a")), Err(()));
}

#[test]
fn jar_with_bad_magic_is_refused() {
    let mut bytes = sample_jar();
    let n = bytes.len();
    bytes[n - 22] = 0;
    assert!(matches!(Jar::from_bytes(bytes), Err(ReadError::InvalidMagic)));
}

// ---------------------------------------------------------------------------
// Launcher
// ---------------------------------------------------------------------------

#[test]
fn jar_main_class_from_the_manifest() {
    let jar = Jar::from_bytes(sample_jar()).unwrap();
    assert_eq!(main_class_entry(&jar, None), Ok(String::from("com/example/Main.class")));
}

#[test]
fn jar_main_class_given_overrides_the_manifest() {
    let jar = Jar::from_bytes(sample_jar()).unwrap();
    assert_eq!(
        main_class_entry(&jar, Some(String::from("com/example/Main"))),
        Ok(String::from("com/example/Main.class"))
    );
    let missing = main_class_entry(&jar, Some(String::from("com/example/Other")));
    assert_eq!(missing, Err(LaunchError::MainClassNotInJar));
    assert_eq!(
        LaunchError::MainClassNotInJar.message(),
        "Main class specified was not present in JAR!"
    );
}

#[test]
fn jar_without_manifest_or_main_class() {
    let bare = zip(&[Entry { name: "A.class", method: 0, stored: vec![1, 2, 3] }]);
    let jar = Jar::from_bytes(bare).unwrap();
    assert_eq!(main_class_entry(&jar, None), Err(LaunchError::NoManifest));
    assert_eq!(main_class_entry(&jar, Some(String::from("A"))), Ok(String::from("A.class")));
    assert_eq!(
        LaunchError::NoManifest.message(),
        "Cannot execute JAR file without MANIFEST.MF file"
    );
    let no_main = zip(&[Entry {
        name: "META-INF/MANIFEST.MF",
        method: 0,
        stored: b"Manifest-Version: 1.0\r\n".to_vec(),
    }]);
    let jar = Jar::from_bytes(no_main).unwrap();
    assert_eq!(main_class_entry(&jar, None), Err(LaunchError::NoMainClass));
    assert_eq!(
        LaunchError::NoMainClass.message(),
        "Cannot execute JAR file without main class specified"
    );
}

#[test]
fn manifest_main_class_last_wins() {
    let m = b"Main-Class: a.b.C\r\nMain-Class: d.E\r\n".to_vec();
    assert_eq!(get_main_class_from_manifest(m), Some(String::from("d/E")));
    assert_eq!(get_main_class_from_manifest(b"Manifest-Version: 1.0\r\n".to_vec()), None);
    assert_eq!(get_main_class_from_manifest(b"Main-Class:x\r\n".to_vec()), None);
    assert_eq!(get_main_class_from_manifest(b"Main-Class: x".to_vec()), Some(String::from("x")));
}

fn args(list: &[&str]) -> Vec<String> {
    list.iter().map(|s| s.to_string()).collect()
}

#[test]
fn options_for_a_class_file() {
    let o = PassedOptions::from_args(args(&["rjvm", "Main.class", "a", "b"])).unwrap();
    assert!(matches!(o.file_type, FileType::Class));
    assert_eq!(o.file_name, "Main.class");
    assert_eq!(o.program_args, args(&["a", "b"]));
}

#[test]
fn options_for_a_jar() {
    let o = PassedOptions::from_args(args(&["rjvm", "--jar", "app.jar", "x"])).unwrap();
    assert!(matches!(o.file_type, FileType::Jar { main_class: None }));
    assert_eq!(o.file_name, "app.jar");
    assert_eq!(o.program_args, args(&["x"]));
    let o = PassedOptions::from_args(args(&["rjvm", "--jar-with-main", "app.jar", "com.example.Main"])).unwrap();
    match o.file_type {
        FileType::Jar { main_class: Some(m) } => assert_eq!(m, "com/example/Main"),
        _ => panic!("expected a JAR with a main class"),
    }
    assert!(o.program_args.is_empty());
}

#[test]
fn options_errors() {
    assert_eq!(
        PassedOptions::from_args(args(&["rjvm"])).err(),
        Some(String::from("Run as rjvm [file.class]"))
    );
    assert_eq!(
        PassedOptions::from_args(args(&["rjvm", "--jar-with-main"])).err(),
        Some(String::from("--jar-with-main flag requires a file"))
    );
}

// ---------------------------------------------------------------------------
// Bit sets and array copies
// ---------------------------------------------------------------------------

#[test]
fn small_bit_sets() {
    let set = CompactBitSet::from_iter(&[true, false, true], 10);
    assert!(set.get(0));
    assert!(!set.get(1));
    assert!(set.get(2));
    assert!(!set.get(9));
    let empty = CompactBitSet::empty();
    let _ = empty;
}

#[test]
fn small_bit_sets_wrap_past_the_size() {
    let mut bits = vec![false; 70];
    bits[65] = true;
    let set = CompactBitSet::from_iter(&bits, 10);
    assert!(set.get(1));
    assert!(!set.get(0));
}

#[test]
fn large_bit_sets() {
    let mut bits = vec![false; 100];
    bits[3] = true;
    bits[70] = true;
    let set = CompactBitSet::from_iter(&bits, 100);
    assert!(set.get(3));
    assert!(set.get(70));
    assert!(!set.get(4));
    assert!(!set.get(99));
}

#[test]
fn array_copy_between_arrays() {
    let source = [1, 2, 3, 4, 5];
    let mut dest = vec![0; 6];
    primitive_array_copy(&source, &mut dest, 1, 2, 3);
    assert_eq!(dest, vec![0, 0, 2, 3, 4, 0]);
}

#[test]
fn array_copy_within_overlapping() {
    let mut data = vec![1, 2, 3, 4, 5];
    primitive_array_copy_within(&mut data, 0, 1, 4);
    assert_eq!(data, vec![1, 1, 2, 3, 4]);
    let mut data = vec![1, 2, 3, 4, 5];
    primitive_array_copy_within(&mut data, 1, 0, 4);
    assert_eq!(data, vec![2, 3, 4, 5, 5]);
    let mut data = vec![1, 2, 3, 4, 5];
    primitive_array_copy_within(&mut data, 0, 3, 2);
    assert_eq!(data, vec![1, 2, 3, 1, 2]);
}

#[test]
fn jar_tells_which_files_it_can_read() {
    let jar = Jar::from_bytes(sample_jar()).unwrap();
    assert!(jar.can_read_file(&String::from("META-INF/MANIFEST.MF")));
    assert!(jar.can_read_file(&String::from("com/example/Main.class")));
    assert!(jar.can_read_file(&String::from("missing")));
    let odd = Jar::from_bytes(zip(&[Entry { name: "a", method: 12, stored: vec![1, 2, 3] }])).unwrap();
    assert!(!odd.can_read_file(&String::from("a")));
    assert!(odd.can_read_file(&String::from("b")));
}

#[test]
fn argument_slots_lie_between_one_and_two_per_argument() {
    for s in ["()V", "(IJ)V", "(DDD)V", "([JLjava/lang/String;Z)I"] {
        let m = rjvm_core::descriptor::MethodDescriptor::new_from_string(&rjvm_core::string::JvmString::from_str(s)).unwrap();
        let n = m.args().len();
        assert!(n <= m.physical_arg_count() && m.physical_arg_count() <= 2 * n);
    }
}

/// An archive with one directory record named `a` whose extra field is
/// `extra` bytes long.
fn zip_with_extra(extra: u16) -> Vec<u8> {
    let mut out = Vec::new();
    le32(&mut out, 0x02014b50);
    for _ in 0..6 {
        le16(&mut out, 0);
    }
    le32(&mut out, 0);
    le32(&mut out, 0);
    le32(&mut out, 0);
    le16(&mut out, 1);
    le16(&mut out, extra);
    le16(&mut out, 0);
    le16(&mut out, 0);
    le16(&mut out, 0);
    le32(&mut out, 0);
    le32(&mut out, 0);
    out.push(b'a');
    out.extend(std::iter::repeat(0u8).take(extra as usize));
    let directory_size = out.len() as u32;
    le32(&mut out, 0x06054b50);
    le16(&mut out, 0);
    le16(&mut out, 0);
    le16(&mut out, 1);
    le16(&mut out, 1);
    le32(&mut out, directory_size);
    le32(&mut out, 0);
    le16(&mut out, 0);
    out
}

#[test]
fn directory_readable_unless_a_header_size_overflows() {
    assert!(records_readable(&sample_jar()));
    assert!(records_readable(&zip_with_extra(0xffe0)));
    assert!(Jar::from_bytes(zip_with_extra(0xffe0)).unwrap().has_file(&"a".to_string()));
    assert!(!records_readable(&zip_with_extra(0xffe1)));
    // Damaged archives are readable: reading them fails.
    let mut bad = sample_jar();
    let n = bad.len();
    bad[n - 22] = 0;
    assert!(records_readable(&bad));
}
