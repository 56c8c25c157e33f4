//! The constant pool of a class file: its entries, how they are read, and the
//! checks that every reference inside it points at an entry of the right kind.
use vstd::prelude::*;

use super::error::{lift, lift_read, Error};
use crate::reader::{spec_string, spec_u16_be, spec_u32_be, spec_u8, FileData, ReadError};
use crate::string::JvmString;

verus! {

pub const PLACEHOLDER: u8 = 0;
pub const UTF8: u8 = 1;
pub const INTEGER: u8 = 3;
pub const FLOAT: u8 = 4;
pub const LONG: u8 = 5;
pub const DOUBLE: u8 = 6;
pub const CLASS: u8 = 7;
pub const STRING: u8 = 8;
pub const FIELD_REF: u8 = 9;
pub const METHOD_REF: u8 = 10;
pub const INTERFACE_METHOD_REF: u8 = 11;
pub const NAME_AND_TYPE: u8 = 12;
pub const METHOD_HANDLE: u8 = 15;
pub const METHOD_TYPE: u8 = 16;
pub const INVOKE_DYNAMIC: u8 = 18;

/// The kinds of method handle a constant pool can hold, each with the index
/// of the entry it refers to.
#[derive(Debug, Clone, Copy, PartialEq, Eq, Structural)]
pub enum MethodHandle {
    GetField(u16),
    GetStatic(u16),
    PutField(u16),
    PutStatic(u16),
    InvokeVirtual(u16),
    InvokeStatic(u16),
    InvokeSpecial(u16),
    NewInvokeSpecial(u16),
    InvokeInterface(u16),
}

/// The mathematical value of a constant-pool entry. Floating-point constants
/// are kept as their IEEE 754 bit patterns.
pub enum SpecEntry {
    Placeholder,
    Utf8(Seq<char>),
    Integer(i32),
    Float(u32),
    Long(i64),
    Double(u64),
    Class(u16),
    String(u16),
    FieldRef(u16, u16),
    MethodRef(u16, u16),
    InterfaceMethodRef(u16, u16),
    NameAndType(u16, u16),
    MethodHandle(MethodHandle),
    MethodType(u16),
    InvokeDynamic(u16, u16),
}

/// The tag byte that stands for an entry's kind.
pub open spec fn spec_tag(e: SpecEntry) -> u8 {
    match e {
        SpecEntry::Placeholder => PLACEHOLDER,
        SpecEntry::Utf8(_) => UTF8,
        SpecEntry::Integer(_) => INTEGER,
        SpecEntry::Float(_) => FLOAT,
        SpecEntry::Long(_) => LONG,
        SpecEntry::Double(_) => DOUBLE,
        SpecEntry::Class(_) => CLASS,
        SpecEntry::String(_) => STRING,
        SpecEntry::FieldRef(_, _) => FIELD_REF,
        SpecEntry::MethodRef(_, _) => METHOD_REF,
        SpecEntry::InterfaceMethodRef(_, _) => INTERFACE_METHOD_REF,
        SpecEntry::NameAndType(_, _) => NAME_AND_TYPE,
        SpecEntry::MethodHandle(_) => METHOD_HANDLE,
        SpecEntry::MethodType(_) => METHOD_TYPE,
        SpecEntry::InvokeDynamic(_, _) => INVOKE_DYNAMIC,
    }
}

/// Longs and doubles take up two slots of the pool.
pub open spec fn spec_is_wide_entry(e: SpecEntry) -> bool {
    e is Long || e is Double
}

// ---------------------------------------------------------------------------
// Reading entries
// ---------------------------------------------------------------------------

/// Reading a `u16` at `p`, with a class-file error on failure.
pub open spec fn cp_u16(d: Seq<u8>, p: int) -> Result<(u16, int), Error> {
    lift_read(spec_u16_be(d, p))
}

/// Reading two `u16`s in a row.
pub open spec fn cp_two_u16(d: Seq<u8>, p: int) -> Result<(u16, u16, int), Error> {
    match cp_u16(d, p) {
        Err(e) => Err(e),
        Ok((a, p1)) => match cp_u16(d, p1) {
            Err(e) => Err(e),
            Ok((b, p2)) => Ok((a, b, p2)),
        },
    }
}

/// Reading two big-endian `u32`s in a row as one 64-bit value, high half first.
pub open spec fn cp_u64(d: Seq<u8>, p: int) -> Result<(u64, int), Error> {
    match lift_read(spec_u32_be(d, p)) {
        Err(e) => Err(e),
        Ok((hi, p1)) => match lift_read(spec_u32_be(d, p1)) {
            Err(e) => Err(e),
            Ok((lo, p2)) => Ok(((hi * 0x1_0000_0000 + lo) as u64, p2)),
        },
    }
}

/// The method handle of reference kind `kind` that refers to entry `idx`.
pub open spec fn spec_method_handle(kind: u8, idx: u16) -> Option<MethodHandle> {
    if kind == 1 {
        Some(MethodHandle::GetField(idx))
    } else if kind == 2 {
        Some(MethodHandle::GetStatic(idx))
    } else if kind == 3 {
        Some(MethodHandle::PutField(idx))
    } else if kind == 4 {
        Some(MethodHandle::PutStatic(idx))
    } else if kind == 5 {
        Some(MethodHandle::InvokeVirtual(idx))
    } else if kind == 6 {
        Some(MethodHandle::InvokeStatic(idx))
    } else if kind == 7 {
        Some(MethodHandle::InvokeSpecial(idx))
    } else if kind == 8 {
        Some(MethodHandle::NewInvokeSpecial(idx))
    } else if kind == 9 {
        Some(MethodHandle::InvokeInterface(idx))
    } else {
        None
    }
}

/// Reading the body of an entry whose tag byte was `tag`, starting at `p`.
pub open spec fn spec_entry_body(d: Seq<u8>, p: int, tag: u8) -> Result<(SpecEntry, int), Error> {
    if tag == UTF8 {
        match cp_u16(d, p) {
            Err(e) => Err(e),
            Ok((len, p1)) => match lift_read(spec_string(d, p1, len as int)) {
                Err(e) => Err(e),
                Ok((s, p2)) => Ok((SpecEntry::Utf8(s), p2)),
            },
        }
    } else if tag == INTEGER {
        match lift_read(spec_u32_be(d, p)) {
            Err(e) => Err(e),
            Ok((v, p1)) => Ok((SpecEntry::Integer(v as i32), p1)),
        }
    } else if tag == LONG {
        match cp_u64(d, p) {
            Err(e) => Err(e),
            Ok((v, p1)) => Ok((SpecEntry::Long(v as i64), p1)),
        }
    } else if tag == FLOAT {
        match lift_read(spec_u32_be(d, p)) {
            Err(e) => Err(e),
            Ok((v, p1)) => Ok((SpecEntry::Float(v), p1)),
        }
    } else if tag == DOUBLE {
        match cp_u64(d, p) {
            Err(e) => Err(e),
            Ok((v, p1)) => Ok((SpecEntry::Double(v), p1)),
        }
    } else if tag == CLASS {
        match cp_u16(d, p) {
            Err(e) => Err(e),
            Ok((i, p1)) => Ok((SpecEntry::Class(i), p1)),
        }
    } else if tag == STRING {
        match cp_u16(d, p) {
            Err(e) => Err(e),
            Ok((i, p1)) => Ok((SpecEntry::String(i), p1)),
        }
    } else if tag == FIELD_REF {
        match cp_two_u16(d, p) {
            Err(e) => Err(e),
            Ok((a, b, p1)) => Ok((SpecEntry::FieldRef(a, b), p1)),
        }
    } else if tag == METHOD_REF {
        match cp_two_u16(d, p) {
            Err(e) => Err(e),
            Ok((a, b, p1)) => Ok((SpecEntry::MethodRef(a, b), p1)),
        }
    } else if tag == INTERFACE_METHOD_REF {
        match cp_two_u16(d, p) {
            Err(e) => Err(e),
            Ok((a, b, p1)) => Ok((SpecEntry::InterfaceMethodRef(a, b), p1)),
        }
    } else if tag == NAME_AND_TYPE {
        match cp_two_u16(d, p) {
            Err(e) => Err(e),
            Ok((a, b, p1)) => Ok((SpecEntry::NameAndType(a, b), p1)),
        }
    } else if tag == METHOD_HANDLE {
        match lift_read(spec_u8(d, p)) {
            Err(e) => Err(e),
            Ok((kind, p1)) => match cp_u16(d, p1) {
                Err(e) => Err(e),
                Ok((i, p2)) => match spec_method_handle(kind, i) {
                    Some(mh) => Ok((SpecEntry::MethodHandle(mh), p2)),
                    None => Err(Error::ConstantPoolVerifyError),
                },
            },
        }
    } else if tag == METHOD_TYPE {
        match cp_u16(d, p) {
            Err(e) => Err(e),
            Ok((i, p1)) => Ok((SpecEntry::MethodType(i), p1)),
        }
    } else if tag == INVOKE_DYNAMIC {
        match cp_two_u16(d, p) {
            Err(e) => Err(e),
            Ok((a, b, p1)) => Ok((SpecEntry::InvokeDynamic(a, b), p1)),
        }
    } else {
        Err(Error::ConstantPoolInvalidEntry)
    }
}

/// Reading one entry (its tag byte, then its body) at `p`.
pub open spec fn spec_read_entry(d: Seq<u8>, p: int) -> Result<(SpecEntry, int), Error> {
    match lift_read(spec_u8(d, p)) {
        Err(e) => Err(e),
        Ok((tag, p1)) => spec_entry_body(d, p1, tag),
    }
}

/// Reading entries at `p` onto `acc` until at least `target` slots are filled;
/// a long or a double fills its second slot with a placeholder.
pub open spec fn spec_read_entries(d: Seq<u8>, p: int, target: int, acc: Seq<SpecEntry>) -> Result<
    (Seq<SpecEntry>, int),
    Error,
>
    decreases (if target > acc.len() {
        target - acc.len()
    } else {
        0
    }),
{
    if acc.len() >= target {
        Ok((acc, p))
    } else {
        match spec_read_entry(d, p) {
            Err(e) => Err(e),
            Ok((e, p1)) => {
                let acc1 = if spec_is_wide_entry(e) {
                    acc.push(e).push(SpecEntry::Placeholder)
                } else {
                    acc.push(e)
                };
                spec_read_entries(d, p1, target, acc1)
            },
        }
    }
}

/// Reading the pool's entry count (one more than the number of slots, so
/// never 0) and then its entries.
pub open spec fn spec_read_pool(d: Seq<u8>, p: int) -> Result<(Seq<SpecEntry>, int), Error> {
    match cp_u16(d, p) {
        Err(e) => Err(e),
        Ok((count, p1)) => if count == 0 {
            Err(Error::ExpectedNonZero)
        } else {
            spec_read_entries(d, p1, count - 1, Seq::empty())
        },
    }
}

// ---------------------------------------------------------------------------
// Looking entries up. `None` stands for a lookup that has no defined
// result: a class entry whose name is not a UTF-8 entry, which a checked
// pool never holds.
// ---------------------------------------------------------------------------

/// The entry at 1-based index `idx`: index 0 and indices past the end of
/// the pool are errors.
pub open spec fn spec_entry(es: Seq<SpecEntry>, idx: u16) -> Option<Result<SpecEntry, Error>> {
    if idx == 0 {
        Some(Err(Error::ExpectedNonZero))
    } else if idx > es.len() {
        Some(Err(Error::ConstantPoolIndexOutOfBounds))
    } else {
        Some(Ok(es[idx - 1]))
    }
}

/// The string of the UTF-8 entry at `idx`.
pub open spec fn spec_get_utf8(es: Seq<SpecEntry>, idx: u16) -> Option<Result<Seq<char>, Error>> {
    match spec_entry(es, idx) {
        None => None,
        Some(Err(e)) => Some(Err(e)),
        Some(Ok(SpecEntry::Utf8(s))) => Some(Ok(s)),
        Some(Ok(_)) => Some(Err(Error::ConstantPoolTypeMismatch)),
    }
}

/// The name of the class entry at `idx`.
pub open spec fn spec_get_class(es: Seq<SpecEntry>, idx: u16) -> Option<Result<Seq<char>, Error>> {
    match spec_entry(es, idx) {
        None => None,
        Some(Err(e)) => Some(Err(e)),
        Some(Ok(SpecEntry::Class(n))) => match spec_entry(es, n) {
            None => None,
            Some(Err(e)) => Some(Err(e)),
            Some(Ok(SpecEntry::Utf8(s))) => Some(Ok(s)),
            Some(Ok(_)) => None,
        },
        Some(Ok(_)) => Some(Err(Error::ConstantPoolTypeMismatch)),
    }
}

/// The two strings a name-and-type pair names.
pub open spec fn spec_utf8_pair(es: Seq<SpecEntry>, n: u16, d: u16) -> Option<
    Result<(Seq<char>, Seq<char>), Error>,
> {
    match spec_get_utf8(es, n) {
        None => None,
        Some(Err(e)) => Some(Err(e)),
        Some(Ok(name)) => match spec_get_utf8(es, d) {
            None => None,
            Some(Err(e)) => Some(Err(e)),
            Some(Ok(desc)) => Some(Ok((name, desc))),
        },
    }
}

/// The name and descriptor of the name-and-type entry at `idx`.
pub open spec fn spec_get_name_and_type(es: Seq<SpecEntry>, idx: u16) -> Option<
    Result<(Seq<char>, Seq<char>), Error>,
> {
    match spec_entry(es, idx) {
        None => None,
        Some(Err(e)) => Some(Err(e)),
        Some(Ok(SpecEntry::NameAndType(n, d))) => spec_utf8_pair(es, n, d),
        Some(Ok(_)) => Some(Err(Error::ConstantPoolTypeMismatch)),
    }
}

/// The class name, member name and descriptor a member reference names.
pub open spec fn spec_ref_parts(es: Seq<SpecEntry>, class_idx: u16, nat_idx: u16) -> Option<
    Result<(Seq<char>, Seq<char>, Seq<char>), Error>,
> {
    match spec_get_class(es, class_idx) {
        None => None,
        Some(Err(e)) => Some(Err(e)),
        Some(Ok(class)) => match spec_get_name_and_type(es, nat_idx) {
            None => None,
            Some(Err(e)) => Some(Err(e)),
            Some(Ok((name, desc))) => Some(Ok((class, name, desc))),
        },
    }
}

/// The kinds of member reference a lookup accepts.
#[derive(Clone, Copy)]
pub enum RefKind {
    Field,
    Method,
    InterfaceMethod,
    AnyMethod,
}

/// Whether an entry is a member reference of the kind asked for, and if so
/// its class and name-and-type indices.
pub open spec fn spec_ref_indices(e: SpecEntry, kind: RefKind) -> Option<(u16, u16)> {
    match (e, kind) {
        (SpecEntry::FieldRef(c, n), RefKind::Field) => Some((c, n)),
        (SpecEntry::MethodRef(c, n), RefKind::Method) => Some((c, n)),
        (SpecEntry::InterfaceMethodRef(c, n), RefKind::InterfaceMethod) => Some((c, n)),
        (SpecEntry::MethodRef(c, n), RefKind::AnyMethod) => Some((c, n)),
        (SpecEntry::InterfaceMethodRef(c, n), RefKind::AnyMethod) => Some((c, n)),
        _ => None,
    }
}

/// The class name, member name and descriptor of the reference of kind
/// `kind` at `idx`.
pub open spec fn spec_get_ref(es: Seq<SpecEntry>, idx: u16, kind: RefKind) -> Option<
    Result<(Seq<char>, Seq<char>, Seq<char>), Error>,
> {
    match spec_entry(es, idx) {
        None => None,
        Some(Err(e)) => Some(Err(e)),
        Some(Ok(e)) => match spec_ref_indices(e, kind) {
            Some((c, n)) => spec_ref_parts(es, c, n),
            None => Some(Err(Error::ConstantPoolTypeMismatch)),
        },
    }
}

// ---------------------------------------------------------------------------
// Validation. `None` stands for a check that has no defined outcome: a
// method handle whose target reference is itself broken.
// ---------------------------------------------------------------------------

/// The characters of `<init>`.
pub open spec fn init_chars() -> Seq<char> {
    seq!['<', 'i', 'n', 'i', 't', '>']
}

/// The characters of `<clinit>`.
pub open spec fn clinit_chars() -> Seq<char> {
    seq!['<', 'c', 'l', 'i', 'n', 'i', 't', '>']
}

/// Whether the entry at `idx` has tag `tag`.
pub open spec fn spec_ensure_type(es: Seq<SpecEntry>, idx: u16, tag: u8) -> Option<Result<(), Error>> {
    match spec_entry(es, idx) {
        None => None,
        Some(Err(e)) => Some(Err(e)),
        Some(Ok(e)) => if spec_tag(e) == tag {
            Some(Ok(()))
        } else {
            Some(Err(Error::ConstantPoolTypeMismatch))
        },
    }
}

/// Two checks in a row.
pub open spec fn and_then_check(a: Option<Result<(), Error>>, b: Option<Result<(), Error>>) -> Option<
    Result<(), Error>,
> {
    match a {
        Some(Ok(())) => b,
        other => other,
    }
}

/// Whether the name a method handle's target reference names is allowed:
/// it must not be an initializer, or (for `NewInvokeSpecial`) it must be
/// `<init>`.
pub open spec fn spec_check_target_name(
    target: Option<Result<(Seq<char>, Seq<char>, Seq<char>), Error>>,
    must_be_init: bool,
) -> Option<Result<(), Error>> {
    match target {
        Some(Ok((_, name, _))) => if must_be_init {
            if name == init_chars() {
                Some(Ok(()))
            } else {
                Some(Err(Error::ConstantPoolVerifyError))
            }
        } else if name == init_chars() || name == clinit_chars() {
            Some(Err(Error::ConstantPoolVerifyError))
        } else {
            Some(Ok(()))
        },
        _ => None,
    }
}

/// Whether a method-handle entry is valid.
pub open spec fn spec_check_method_handle(es: Seq<SpecEntry>, mh: MethodHandle) -> Option<Result<(), Error>> {
    match mh {
        MethodHandle::GetField(i) => spec_ensure_type(es, i, FIELD_REF),
        MethodHandle::GetStatic(i) => spec_ensure_type(es, i, FIELD_REF),
        MethodHandle::PutField(i) => spec_ensure_type(es, i, FIELD_REF),
        MethodHandle::PutStatic(i) => spec_ensure_type(es, i, FIELD_REF),
        MethodHandle::InvokeVirtual(i) => and_then_check(
            spec_ensure_type(es, i, METHOD_REF),
            spec_check_target_name(spec_get_ref(es, i, RefKind::Method), false),
        ),
        MethodHandle::InvokeStatic(i) => spec_check_any_method_target(es, i),
        MethodHandle::InvokeSpecial(i) => spec_check_any_method_target(es, i),
        MethodHandle::NewInvokeSpecial(i) => and_then_check(
            spec_ensure_type(es, i, METHOD_REF),
            spec_check_target_name(spec_get_ref(es, i, RefKind::Method), true),
        ),
        MethodHandle::InvokeInterface(i) => and_then_check(
            spec_ensure_type(es, i, INTERFACE_METHOD_REF),
            spec_check_target_name(spec_get_ref(es, i, RefKind::InterfaceMethod), false),
        ),
    }
}

/// Whether an `InvokeStatic` or `InvokeSpecial` handle is valid: its target is
/// a method or interface-method reference that does not name an initializer.
pub open spec fn spec_check_any_method_target(es: Seq<SpecEntry>, i: u16) -> Option<Result<(), Error>> {
    match spec_entry(es, i) {
        None => None,
        Some(Err(e)) => Some(Err(e)),
        Some(Ok(e)) => if spec_tag(e) != METHOD_REF && spec_tag(e) != INTERFACE_METHOD_REF {
            Some(Err(Error::ConstantPoolTypeMismatch))
        } else {
            spec_check_target_name(spec_get_ref(es, i, RefKind::AnyMethod), false)
        },
    }
}

/// Whether one entry is valid: every index it holds points at an entry of the
/// kind the class-file format demands.
pub open spec fn spec_check_entry(es: Seq<SpecEntry>, e: SpecEntry) -> Option<Result<(), Error>> {
    match e {
        SpecEntry::Class(n) => spec_ensure_type(es, n, UTF8),
        SpecEntry::String(n) => spec_ensure_type(es, n, UTF8),
        SpecEntry::FieldRef(c, n) => and_then_check(
            spec_ensure_type(es, c, CLASS),
            spec_ensure_type(es, n, NAME_AND_TYPE),
        ),
        SpecEntry::MethodRef(c, n) => and_then_check(
            spec_ensure_type(es, c, CLASS),
            spec_ensure_type(es, n, NAME_AND_TYPE),
        ),
        SpecEntry::InterfaceMethodRef(c, n) => and_then_check(
            spec_ensure_type(es, c, CLASS),
            spec_ensure_type(es, n, NAME_AND_TYPE),
        ),
        SpecEntry::NameAndType(n, d) => and_then_check(
            spec_ensure_type(es, n, UTF8),
            spec_ensure_type(es, d, UTF8),
        ),
        SpecEntry::MethodHandle(mh) => spec_check_method_handle(es, mh),
        SpecEntry::MethodType(d) => spec_ensure_type(es, d, UTF8),
        SpecEntry::InvokeDynamic(_, n) => spec_ensure_type(es, n, NAME_AND_TYPE),
        _ => Some(Ok(())),
    }
}

/// Checking the entries from index `i` on, in order, stopping at the first
/// that fails.
pub open spec fn spec_validate_from(es: Seq<SpecEntry>, i: int) -> Option<Result<(), Error>>
    decreases es.len() - i,
{
    if i >= es.len() || i < 0 {
        Some(Ok(()))
    } else {
        match spec_check_entry(es, es[i]) {
            Some(Ok(())) => spec_validate_from(es, i + 1),
            other => other,
        }
    }
}

/// Checking every entry of the pool.
pub open spec fn spec_validate(es: Seq<SpecEntry>) -> Option<Result<(), Error>> {
    spec_validate_from(es, 0)
}

/// A pool every entry of which passes its check.
pub open spec fn spec_pool_valid(es: Seq<SpecEntry>) -> bool {
    forall|i: int| 0 <= i < es.len() ==> #[trigger] spec_check_entry(es, es[i]) == Some(
        Ok::<(), Error>(()),
    )
}

/// Reading and then checking a constant pool at `p`.
pub open spec fn spec_constant_pool(d: Seq<u8>, p: int) -> Option<Result<(Seq<SpecEntry>, int), Error>> {
    match spec_read_pool(d, p) {
        Err(e) => Some(Err(e)),
        Ok((es, p1)) => match spec_validate(es) {
            None => None,
            Some(Err(e)) => Some(Err(e)),
            Some(Ok(())) => Some(Ok((es, p1))),
        },
    }
}

// ---------------------------------------------------------------------------
// Entries as the program holds them
// ---------------------------------------------------------------------------

/// One entry of a constant pool. Floating-point constants are held as their
/// IEEE 754 bit patterns.
#[derive(Debug)]
#[allow(inconsistent_fields)]
pub enum ConstantPoolEntry {
    Placeholder,
    Utf8 { string: JvmString },
    Integer { value: i32 },
    Float { bits: u32 },
    Long { value: i64 },
    Double { bits: u64 },
    Class { name_idx: u16 },
    String { string_idx: u16 },
    FieldRef { class_idx: u16, name_and_type_idx: u16 },
    MethodRef { class_idx: u16, name_and_type_idx: u16 },
    InterfaceMethodRef { class_idx: u16, name_and_type_idx: u16 },
    NameAndType { name_idx: u16, descriptor_idx: u16 },
    MethodHandle { method_handle: MethodHandle },
    MethodType { descriptor_idx: u16 },
    InvokeDynamic { bootstrap_method_idx: u16, name_and_type_idx: u16 },
}

impl View for ConstantPoolEntry {
    type V = SpecEntry;

    open spec fn view(&self) -> SpecEntry {
        match self {
            ConstantPoolEntry::Placeholder => SpecEntry::Placeholder,
            ConstantPoolEntry::Utf8 { string } => SpecEntry::Utf8(string@),
            ConstantPoolEntry::Integer { value } => SpecEntry::Integer(*value),
            ConstantPoolEntry::Float { bits } => SpecEntry::Float(*bits),
            ConstantPoolEntry::Long { value } => SpecEntry::Long(*value),
            ConstantPoolEntry::Double { bits } => SpecEntry::Double(*bits),
            ConstantPoolEntry::Class { name_idx } => SpecEntry::Class(*name_idx),
            ConstantPoolEntry::String { string_idx } => SpecEntry::String(*string_idx),
            ConstantPoolEntry::FieldRef { class_idx, name_and_type_idx } => SpecEntry::FieldRef(
                *class_idx,
                *name_and_type_idx,
            ),
            ConstantPoolEntry::MethodRef { class_idx, name_and_type_idx } => SpecEntry::MethodRef(
                *class_idx,
                *name_and_type_idx,
            ),
            ConstantPoolEntry::InterfaceMethodRef {
                class_idx,
                name_and_type_idx,
            } => SpecEntry::InterfaceMethodRef(*class_idx, *name_and_type_idx),
            ConstantPoolEntry::NameAndType { name_idx, descriptor_idx } => SpecEntry::NameAndType(
                *name_idx,
                *descriptor_idx,
            ),
            ConstantPoolEntry::MethodHandle { method_handle } => SpecEntry::MethodHandle(
                *method_handle,
            ),
            ConstantPoolEntry::MethodType { descriptor_idx } => SpecEntry::MethodType(
                *descriptor_idx,
            ),
            ConstantPoolEntry::InvokeDynamic {
                bootstrap_method_idx,
                name_and_type_idx,
            } => SpecEntry::InvokeDynamic(*bootstrap_method_idx, *name_and_type_idx),
        }
    }
}

/// The values of a sequence of entries.
pub open spec fn entries_view(es: Seq<ConstantPoolEntry>) -> Seq<SpecEntry> {
    es.map_values(|e: ConstantPoolEntry| e@)
}

impl ConstantPoolEntry {
    /// The tag byte that stands for this entry's kind.
    pub fn tag(&self) -> (res: u8)
        ensures
            res == spec_tag(self@),
    {
        match self {
            ConstantPoolEntry::Placeholder => PLACEHOLDER,
            ConstantPoolEntry::Utf8 { .. } => UTF8,
            ConstantPoolEntry::Integer { .. } => INTEGER,
            ConstantPoolEntry::Float { .. } => FLOAT,
            ConstantPoolEntry::Long { .. } => LONG,
            ConstantPoolEntry::Double { .. } => DOUBLE,
            ConstantPoolEntry::Class { .. } => CLASS,
            ConstantPoolEntry::String { .. } => STRING,
            ConstantPoolEntry::FieldRef { .. } => FIELD_REF,
            ConstantPoolEntry::MethodRef { .. } => METHOD_REF,
            ConstantPoolEntry::InterfaceMethodRef { .. } => INTERFACE_METHOD_REF,
            ConstantPoolEntry::NameAndType { .. } => NAME_AND_TYPE,
            ConstantPoolEntry::MethodHandle { .. } => METHOD_HANDLE,
            ConstantPoolEntry::MethodType { .. } => METHOD_TYPE,
            ConstantPoolEntry::InvokeDynamic { .. } => INVOKE_DYNAMIC,
        }
    }

    /// A second entry equal to this one.
    pub fn duplicate(&self) -> (res: Self)
        ensures
            res@ == self@,
    {
        match self {
            ConstantPoolEntry::Placeholder => ConstantPoolEntry::Placeholder,
            ConstantPoolEntry::Utf8 { string } => ConstantPoolEntry::Utf8 { string: string.duplicate() },
            ConstantPoolEntry::Integer { value } => ConstantPoolEntry::Integer { value: *value },
            ConstantPoolEntry::Float { bits } => ConstantPoolEntry::Float { bits: *bits },
            ConstantPoolEntry::Long { value } => ConstantPoolEntry::Long { value: *value },
            ConstantPoolEntry::Double { bits } => ConstantPoolEntry::Double { bits: *bits },
            ConstantPoolEntry::Class { name_idx } => ConstantPoolEntry::Class { name_idx: *name_idx },
            ConstantPoolEntry::String { string_idx } => ConstantPoolEntry::String {
                string_idx: *string_idx,
            },
            ConstantPoolEntry::FieldRef { class_idx, name_and_type_idx } => ConstantPoolEntry::FieldRef {
                class_idx: *class_idx,
                name_and_type_idx: *name_and_type_idx,
            },
            ConstantPoolEntry::MethodRef { class_idx, name_and_type_idx } => ConstantPoolEntry::MethodRef {
                class_idx: *class_idx,
                name_and_type_idx: *name_and_type_idx,
            },
            ConstantPoolEntry::InterfaceMethodRef {
                class_idx,
                name_and_type_idx,
            } => ConstantPoolEntry::InterfaceMethodRef {
                class_idx: *class_idx,
                name_and_type_idx: *name_and_type_idx,
            },
            ConstantPoolEntry::NameAndType { name_idx, descriptor_idx } => ConstantPoolEntry::NameAndType {
                name_idx: *name_idx,
                descriptor_idx: *descriptor_idx,
            },
            ConstantPoolEntry::MethodHandle { method_handle } => ConstantPoolEntry::MethodHandle {
                method_handle: *method_handle,
            },
            ConstantPoolEntry::MethodType { descriptor_idx } => ConstantPoolEntry::MethodType {
                descriptor_idx: *descriptor_idx,
            },
            ConstantPoolEntry::InvokeDynamic {
                bootstrap_method_idx,
                name_and_type_idx,
            } => ConstantPoolEntry::InvokeDynamic {
                bootstrap_method_idx: *bootstrap_method_idx,
                name_and_type_idx: *name_and_type_idx,
            },
        }
    }

    /// Whether this entry is a long or a double.
    fn is_wide(&self) -> (res: bool)
        ensures
            res == spec_is_wide_entry(self@),
    {
        match self {
            ConstantPoolEntry::Long { .. } | ConstantPoolEntry::Double { .. } => true,
            _ => false,
        }
    }
}

impl Clone for ConstantPoolEntry {
    fn clone(&self) -> (res: Self)
        ensures
            res@ == self@,
    {
        self.duplicate()
    }
}

// ---------------------------------------------------------------------------
// Reading, executably
// ---------------------------------------------------------------------------

/// The requirement every parsing step places on its cursor: it stands inside
/// the data, and the data leaves room for a 4-byte read past any position
/// inside it.
pub open spec fn cursor_ok(data: &FileData) -> bool {
    &&& data.pos() <= data.bytes().len()
    &&& data.bytes().len() + 4 <= usize::MAX
}

fn read_two_u16(data: &mut FileData) -> (res: Result<(u16, u16), Error>)
    requires
        cursor_ok(old(data)),
    ensures
        final(data).bytes() == old(data).bytes(),
        res is Ok ==> cursor_ok(final(data)),
        match res {
            Ok((a, b)) => cp_two_u16(old(data).bytes(), old(data).pos()) == Ok::<(u16, u16, int), Error>((a, b, final(data).pos())),
            Err(e) => cp_two_u16(old(data).bytes(), old(data).pos()) == Err::<(u16, u16, int), Error>(e),
        },
{
    let a = lift(data.read_u16_be())?;
    let b = lift(data.read_u16_be())?;
    Ok((a, b))
}

fn read_u64_halves(data: &mut FileData) -> (res: Result<u64, Error>)
    requires
        cursor_ok(old(data)),
    ensures
        final(data).bytes() == old(data).bytes(),
        res is Ok ==> cursor_ok(final(data)),
        match res {
            Ok(v) => cp_u64(old(data).bytes(), old(data).pos()) == Ok::<(u64, int), Error>((v, final(data).pos())),
            Err(e) => cp_u64(old(data).bytes(), old(data).pos()) == Err::<(u64, int), Error>(e),
        },
{
    let hi = lift(data.read_u32_be())?;
    let lo = lift(data.read_u32_be())?;
    Ok((hi as u64) * 0x1_0000_0000 + (lo as u64))
}

/// Reads one constant-pool entry: a tag byte, then the body that the tag
/// calls for.
pub fn read_constant_pool_entry(data: &mut FileData) -> (res: Result<ConstantPoolEntry, Error>)
    requires
        cursor_ok(old(data)),
    ensures
        final(data).bytes() == old(data).bytes(),
        res is Ok ==> cursor_ok(final(data)),
        match res {
            Ok(e) => spec_read_entry(old(data).bytes(), old(data).pos()) == Ok::<(SpecEntry, int), Error>((e@, final(data).pos())),
            Err(e) => spec_read_entry(old(data).bytes(), old(data).pos()) == Err::<(SpecEntry, int), Error>(e),
        },
{
    let tag = lift(data.read_u8())?;
    if tag == UTF8 {
        let length = lift(data.read_u16_be())?;
        let string = lift(data.read_string(length as usize))?;
        Ok(ConstantPoolEntry::Utf8 { string: JvmString::new(string) })
    } else if tag == INTEGER {
        let value = lift(data.read_u32_be())?;
        Ok(ConstantPoolEntry::Integer { value: value as i32 })
    } else if tag == LONG {
        let value = read_u64_halves(data)?;
        Ok(ConstantPoolEntry::Long { value: value as i64 })
    } else if tag == FLOAT {
        let value = lift(data.read_u32_be())?;
        Ok(ConstantPoolEntry::Float { bits: value })
    } else if tag == DOUBLE {
        let value = read_u64_halves(data)?;
        Ok(ConstantPoolEntry::Double { bits: value })
    } else if tag == CLASS {
        let name_idx = lift(data.read_u16_be())?;
        Ok(ConstantPoolEntry::Class { name_idx })
    } else if tag == STRING {
        let string_idx = lift(data.read_u16_be())?;
        Ok(ConstantPoolEntry::String { string_idx })
    } else if tag == FIELD_REF {
        let (class_idx, name_and_type_idx) = read_two_u16(data)?;
        Ok(ConstantPoolEntry::FieldRef { class_idx, name_and_type_idx })
    } else if tag == METHOD_REF {
        let (class_idx, name_and_type_idx) = read_two_u16(data)?;
        Ok(ConstantPoolEntry::MethodRef { class_idx, name_and_type_idx })
    } else if tag == INTERFACE_METHOD_REF {
        let (class_idx, name_and_type_idx) = read_two_u16(data)?;
        Ok(ConstantPoolEntry::InterfaceMethodRef { class_idx, name_and_type_idx })
    } else if tag == NAME_AND_TYPE {
        let (name_idx, descriptor_idx) = read_two_u16(data)?;
        Ok(ConstantPoolEntry::NameAndType { name_idx, descriptor_idx })
    } else if tag == METHOD_HANDLE {
        let kind = lift(data.read_u8())?;
        let cpool_idx = lift(data.read_u16_be())?;
        let method_handle = if kind == 1 {
            MethodHandle::GetField(cpool_idx)
        } else if kind == 2 {
            MethodHandle::GetStatic(cpool_idx)
        } else if kind == 3 {
            MethodHandle::PutField(cpool_idx)
        } else if kind == 4 {
            MethodHandle::PutStatic(cpool_idx)
        } else if kind == 5 {
            MethodHandle::InvokeVirtual(cpool_idx)
        } else if kind == 6 {
            MethodHandle::InvokeStatic(cpool_idx)
        } else if kind == 7 {
            MethodHandle::InvokeSpecial(cpool_idx)
        } else if kind == 8 {
            MethodHandle::NewInvokeSpecial(cpool_idx)
        } else if kind == 9 {
            MethodHandle::InvokeInterface(cpool_idx)
        } else {
            return Err(Error::ConstantPoolVerifyError);
        };
        Ok(ConstantPoolEntry::MethodHandle { method_handle })
    } else if tag == METHOD_TYPE {
        let descriptor_idx = lift(data.read_u16_be())?;
        Ok(ConstantPoolEntry::MethodType { descriptor_idx })
    } else if tag == INVOKE_DYNAMIC {
        let (bootstrap_method_idx, name_and_type_idx) = read_two_u16(data)?;
        Ok(ConstantPoolEntry::InvokeDynamic { bootstrap_method_idx, name_and_type_idx })
    } else {
        Err(Error::ConstantPoolInvalidEntry)
    }
}

// ---------------------------------------------------------------------------
// Lookups and checks over a list of entries, executably
// ---------------------------------------------------------------------------

fn entry_ref(es: &Vec<ConstantPoolEntry>, index: u16) -> (res: Result<&ConstantPoolEntry, Error>)
    ensures
        match res {
            Ok(e) => spec_entry(entries_view(es@), index) == Some(Ok::<SpecEntry, Error>(e@)),
            Err(e) => spec_entry(entries_view(es@), index) == Some(Err::<SpecEntry, Error>(e)),
        },
{
    if index == 0 {
        Err(Error::ExpectedNonZero)
    } else if index as usize > es.len() {
        Err(Error::ConstantPoolIndexOutOfBounds)
    } else {
        Ok(&es[index as usize - 1])
    }
}

fn get_utf8_in(es: &Vec<ConstantPoolEntry>, index: u16) -> (res: Result<JvmString, Error>)
    requires
        spec_get_utf8(entries_view(es@), index) is Some,
    ensures
        match res {
            Ok(s) => spec_get_utf8(entries_view(es@), index) == Some(Ok::<Seq<char>, Error>(s@)),
            Err(e) => spec_get_utf8(entries_view(es@), index) == Some(Err::<Seq<char>, Error>(e)),
        },
{
    match entry_ref(es, index)? {
        ConstantPoolEntry::Utf8 { string } => Ok(string.duplicate()),
        _ => Err(Error::ConstantPoolTypeMismatch),
    }
}

fn get_class_in(es: &Vec<ConstantPoolEntry>, index: u16) -> (res: Result<JvmString, Error>)
    requires
        spec_get_class(entries_view(es@), index) is Some,
    ensures
        match res {
            Ok(s) => spec_get_class(entries_view(es@), index) == Some(Ok::<Seq<char>, Error>(s@)),
            Err(e) => spec_get_class(entries_view(es@), index) == Some(Err::<Seq<char>, Error>(e)),
        },
{
    match entry_ref(es, index)? {
        ConstantPoolEntry::Class { name_idx } => {
            match entry_ref(es, *name_idx)? {
                ConstantPoolEntry::Utf8 { string } => Ok(string.duplicate()),
                _ => vstd::pervasive::unreached(),
            }
        },
        _ => Err(Error::ConstantPoolTypeMismatch),
    }
}

fn get_name_and_type_in(es: &Vec<ConstantPoolEntry>, index: u16) -> (res: Result<(JvmString, JvmString), Error>)
    requires
        spec_get_name_and_type(entries_view(es@), index) is Some,
    ensures
        match res {
            Ok((n, d)) => spec_get_name_and_type(entries_view(es@), index) == Some(Ok::<(Seq<char>, Seq<char>), Error>((n@, d@))),
            Err(e) => spec_get_name_and_type(entries_view(es@), index) == Some(Err::<(Seq<char>, Seq<char>), Error>(e)),
        },
{
    match entry_ref(es, index)? {
        ConstantPoolEntry::NameAndType { name_idx, descriptor_idx } => {
            let name = get_utf8_in(es, *name_idx)?;
            let descriptor = get_utf8_in(es, *descriptor_idx)?;
            Ok((name, descriptor))
        },
        _ => Err(Error::ConstantPoolTypeMismatch),
    }
}

fn ref_indices(e: &ConstantPoolEntry, kind: RefKind) -> (res: Option<(u16, u16)>)
    ensures
        res == spec_ref_indices(e@, kind),
{
    match (e, kind) {
        (ConstantPoolEntry::FieldRef { class_idx, name_and_type_idx }, RefKind::Field) => Some((*class_idx, *name_and_type_idx)),
        (ConstantPoolEntry::MethodRef { class_idx, name_and_type_idx }, RefKind::Method) => Some((*class_idx, *name_and_type_idx)),
        (ConstantPoolEntry::InterfaceMethodRef { class_idx, name_and_type_idx }, RefKind::InterfaceMethod) => Some((*class_idx, *name_and_type_idx)),
        (ConstantPoolEntry::MethodRef { class_idx, name_and_type_idx }, RefKind::AnyMethod) => Some((*class_idx, *name_and_type_idx)),
        (ConstantPoolEntry::InterfaceMethodRef { class_idx, name_and_type_idx }, RefKind::AnyMethod) => Some((*class_idx, *name_and_type_idx)),
        _ => None,
    }
}

fn get_ref_in(es: &Vec<ConstantPoolEntry>, index: u16, kind: RefKind) -> (res: Result<(JvmString, JvmString, JvmString), Error>)
    requires
        spec_get_ref(entries_view(es@), index, kind) is Some,
    ensures
        match res {
            Ok((c, n, d)) => spec_get_ref(entries_view(es@), index, kind) == Some(Ok::<(Seq<char>, Seq<char>, Seq<char>), Error>((c@, n@, d@))),
            Err(e) => spec_get_ref(entries_view(es@), index, kind) == Some(Err::<(Seq<char>, Seq<char>, Seq<char>), Error>(e)),
        },
{
    let entry = entry_ref(es, index)?;
    match ref_indices(entry, kind) {
        Some((class_idx, name_and_type_idx)) => {
            let class = get_class_in(es, class_idx)?;
            let (name, descriptor) = get_name_and_type_in(es, name_and_type_idx)?;
            Ok((class, name, descriptor))
        },
        None => Err(Error::ConstantPoolTypeMismatch),
    }
}

fn ensure_entry_type_in(es: &Vec<ConstantPoolEntry>, index: u16, tag: u8) -> (res: Result<(), Error>)
    requires
        spec_ensure_type(entries_view(es@), index, tag) is Some,
    ensures
        spec_ensure_type(entries_view(es@), index, tag) == Some(res),
{
    if entry_ref(es, index)?.tag() != tag {
        Err(Error::ConstantPoolTypeMismatch)
    } else {
        Ok(())
    }
}

fn check_target_name(
    target: Result<(JvmString, JvmString, JvmString), Error>,
    must_be_init: bool,
    Ghost(spec): Ghost<Option<Result<(Seq<char>, Seq<char>, Seq<char>), Error>>>,
) -> (res: Result<(), Error>)
    requires
        match target {
            Ok((c, n, d)) => spec == Some(Ok::<(Seq<char>, Seq<char>, Seq<char>), Error>((c@, n@, d@))),
            Err(e) => false,
        },
    ensures
        spec_check_target_name(spec, must_be_init) == Some(res),
{
    let method_name = match target {
        Ok((_, name, _)) => name,
        Err(_) => vstd::pervasive::unreached(),
    };
    proof {
        reveal_strlit("<init>");
        reveal_strlit("<clinit>");
        assert("<init>"@ =~= init_chars());
        assert("<clinit>"@ =~= clinit_chars());
    }
    let is_init = method_name.eq_str("<init>");
    let is_clinit = method_name.eq_str("<clinit>");
    assert(is_init == (method_name@ == init_chars()));
    assert(is_clinit == (method_name@ == clinit_chars()));
    if must_be_init {
        if !is_init {
            return Err(Error::ConstantPoolVerifyError);
        }
    } else if is_init || is_clinit {
        return Err(Error::ConstantPoolVerifyError);
    }
    Ok(())
}

fn check_entry_in(es: &Vec<ConstantPoolEntry>, entry: &ConstantPoolEntry) -> (res: Result<(), Error>)
    requires
        spec_check_entry(entries_view(es@), entry@) is Some,
    ensures
        spec_check_entry(entries_view(es@), entry@) == Some(res),
{
    let ghost v = entries_view(es@);
    match entry {
        ConstantPoolEntry::Class { name_idx } => ensure_entry_type_in(es, *name_idx, UTF8),
        ConstantPoolEntry::String { string_idx } => ensure_entry_type_in(es, *string_idx, UTF8),
        ConstantPoolEntry::FieldRef { class_idx, name_and_type_idx }
        | ConstantPoolEntry::MethodRef { class_idx, name_and_type_idx }
        | ConstantPoolEntry::InterfaceMethodRef { class_idx, name_and_type_idx } => {
            ensure_entry_type_in(es, *class_idx, CLASS)?;
            ensure_entry_type_in(es, *name_and_type_idx, NAME_AND_TYPE)
        },
        ConstantPoolEntry::NameAndType { name_idx, descriptor_idx } => {
            ensure_entry_type_in(es, *name_idx, UTF8)?;
            ensure_entry_type_in(es, *descriptor_idx, UTF8)
        },
        ConstantPoolEntry::MethodHandle { method_handle } => match *method_handle {
            MethodHandle::GetField(i)
            | MethodHandle::GetStatic(i)
            | MethodHandle::PutField(i)
            | MethodHandle::PutStatic(i) => ensure_entry_type_in(es, i, FIELD_REF),
            MethodHandle::InvokeVirtual(i) => {
                ensure_entry_type_in(es, i, METHOD_REF)?;
                let target = get_ref_in(es, i, RefKind::Method);
                check_target_name(target, false, Ghost(spec_get_ref(v, i, RefKind::Method)))
            },
            MethodHandle::InvokeStatic(i) | MethodHandle::InvokeSpecial(i) => {
                let tag = entry_ref(es, i)?.tag();
                if tag != METHOD_REF && tag != INTERFACE_METHOD_REF {
                    return Err(Error::ConstantPoolTypeMismatch);
                }
                let target = get_ref_in(es, i, RefKind::AnyMethod);
                check_target_name(target, false, Ghost(spec_get_ref(v, i, RefKind::AnyMethod)))
            },
            MethodHandle::NewInvokeSpecial(i) => {
                ensure_entry_type_in(es, i, METHOD_REF)?;
                let target = get_ref_in(es, i, RefKind::Method);
                check_target_name(target, true, Ghost(spec_get_ref(v, i, RefKind::Method)))
            },
            MethodHandle::InvokeInterface(i) => {
                ensure_entry_type_in(es, i, INTERFACE_METHOD_REF)?;
                let target = get_ref_in(es, i, RefKind::InterfaceMethod);
                check_target_name(target, false, Ghost(spec_get_ref(v, i, RefKind::InterfaceMethod)))
            },
        },
        ConstantPoolEntry::MethodType { descriptor_idx } => ensure_entry_type_in(es, *descriptor_idx, UTF8),
        ConstantPoolEntry::InvokeDynamic { name_and_type_idx, .. } => ensure_entry_type_in(es, *name_and_type_idx, NAME_AND_TYPE),
        _ => Ok(()),
    }
}

fn validate_in(es: &Vec<ConstantPoolEntry>) -> (res: Result<(), Error>)
    requires
        spec_validate(entries_view(es@)) is Some,
    ensures
        spec_validate(entries_view(es@)) == Some(res),
{
    let ghost v = entries_view(es@);
    let mut i: usize = 0;
    while i < es.len()
        invariant
            v == entries_view(es@),
            spec_validate(v) is Some,
            0 <= i <= es@.len(),
            spec_validate(v) == spec_validate_from(v, i as int),
        decreases es@.len() - i,
    {
        assert(v[i as int] == es@[i as int]@);
        check_entry_in(es, &es[i])?;
        i = i + 1;
    }
    Ok(())
}

/// Whether the class entry at `index` names a UTF-8 entry.
fn class_ok(es: &Vec<ConstantPoolEntry>, index: u16) -> (res: bool)
    ensures
        res == spec_get_class(entries_view(es@), index) matches Some(Ok(_)),
{
    match entry_ref(es, index) {
        Ok(ConstantPoolEntry::Class { name_idx }) => match entry_ref(es, *name_idx) {
            Ok(ConstantPoolEntry::Utf8 { .. }) => true,
            _ => false,
        },
        _ => false,
    }
}

/// Whether the name-and-type entry at `index` names two UTF-8 entries.
fn name_and_type_ok(es: &Vec<ConstantPoolEntry>, index: u16) -> (res: bool)
    ensures
        res == spec_get_name_and_type(entries_view(es@), index) matches Some(Ok(_)),
{
    match entry_ref(es, index) {
        Ok(ConstantPoolEntry::NameAndType { name_idx, descriptor_idx }) => {
            let name = match entry_ref(es, *name_idx) {
                Ok(ConstantPoolEntry::Utf8 { .. }) => true,
                _ => false,
            };
            let descriptor = match entry_ref(es, *descriptor_idx) {
                Ok(ConstantPoolEntry::Utf8 { .. }) => true,
                _ => false,
            };
            name && descriptor
        },
        _ => false,
    }
}

/// Whether the reference of kind `kind` at `index` names a class, a name
/// and a descriptor.
fn ref_ok(es: &Vec<ConstantPoolEntry>, index: u16, kind: RefKind) -> (res: bool)
    ensures
        res == spec_get_ref(entries_view(es@), index, kind) matches Some(Ok(_)),
{
    match entry_ref(es, index) {
        Ok(e) => match ref_indices(e, kind) {
            Some((c, n)) => class_ok(es, c) && name_and_type_ok(es, n),
            None => false,
        },
        Err(_) => false,
    }
}

/// Whether checking `entry` has a defined outcome: a method handle that
/// names an initializer-checked reference needs that reference whole.
fn entry_check_defined(es: &Vec<ConstantPoolEntry>, entry: &ConstantPoolEntry) -> (res: bool)
    ensures
        res == spec_check_entry(entries_view(es@), entry@) is Some,
{
    let ghost v = entries_view(es@);
    match entry {
        ConstantPoolEntry::MethodHandle { method_handle } => match *method_handle {
            MethodHandle::InvokeVirtual(i) | MethodHandle::NewInvokeSpecial(i) => {
                ensure_entry_type_in(es, i, METHOD_REF).is_err() || ref_ok(es, i, RefKind::Method)
            },
            MethodHandle::InvokeInterface(i) => {
                ensure_entry_type_in(es, i, INTERFACE_METHOD_REF).is_err() || ref_ok(es, i, RefKind::InterfaceMethod)
            },
            MethodHandle::InvokeStatic(i) | MethodHandle::InvokeSpecial(i) => match entry_ref(es, i) {
                Err(_) => true,
                Ok(e) => {
                    let tag = e.tag();
                    (tag != METHOD_REF && tag != INTERFACE_METHOD_REF) || ref_ok(es, i, RefKind::AnyMethod)
                },
            },
            _ => true,
        },
        _ => true,
    }
}

/// Whether checking every entry, in order, has a defined outcome.
fn validation_defined(es: &Vec<ConstantPoolEntry>) -> (res: bool)
    ensures
        res == spec_validate(entries_view(es@)) is Some,
{
    let ghost v = entries_view(es@);
    let mut i: usize = 0;
    while i < es.len()
        invariant
            v == entries_view(es@),
            0 <= i <= es@.len(),
            spec_validate(v) == spec_validate_from(v, i as int),
        decreases es@.len() - i,
    {
        assert(v[i as int] == es@[i as int]@);
        if !entry_check_defined(es, &es[i]) {
            return false;
        }
        if check_entry_in(es, &es[i]).is_err() {
            return true;
        }
        i = i + 1;
    }
    true
}

/// A pool whose checks all pass, entry by entry.
pub proof fn lemma_validate_from(es: Seq<SpecEntry>, i: int)
    requires
        0 <= i,
        spec_validate_from(es, i) == Some(Ok::<(), Error>(())),
    ensures
        forall|j: int| i <= j < es.len() ==> #[trigger] spec_check_entry(es, es[j]) == Some(
            Ok::<(), Error>(()),
        ),
    decreases es.len() - i,
{
    if i < es.len() {
        lemma_validate_from(es, i + 1);
    }
}

/// In a checked pool, a class entry's name lookup has a defined result.
pub(crate) proof fn lemma_valid_class(es: Seq<SpecEntry>, idx: u16)
    requires
        spec_pool_valid(es),
    ensures
        spec_get_class(es, idx) is Some,
{
    if 0 < idx <= es.len() {
        assert(spec_check_entry(es, es[idx - 1]) == Some(Ok::<(), Error>(())));
    }
}

/// In a checked pool, a name-and-type lookup has a defined result.
proof fn lemma_valid_name_and_type(es: Seq<SpecEntry>, idx: u16)
    requires
        spec_pool_valid(es),
    ensures
        spec_get_name_and_type(es, idx) is Some,
{
    if 0 < idx <= es.len() {
        assert(spec_check_entry(es, es[idx - 1]) == Some(Ok::<(), Error>(())));
    }
}

/// In a checked pool, a member-reference lookup has a defined result.
proof fn lemma_valid_ref(es: Seq<SpecEntry>, idx: u16, kind: RefKind)
    requires
        spec_pool_valid(es),
    ensures
        spec_get_ref(es, idx, kind) is Some,
{
    if 0 < idx <= es.len() {
        let e = es[idx - 1];
        assert(spec_check_entry(es, e) == Some(Ok::<(), Error>(())));
        match spec_ref_indices(e, kind) {
            Some((c, n)) => {
                lemma_valid_class(es, c);
                lemma_valid_name_and_type(es, n);
            },
            None => {},
        }
    }
}

/// A checked constant pool.
#[derive(Debug)]
pub struct ConstantPool {
    entries: Vec<ConstantPoolEntry>,
}

impl View for ConstantPool {
    type V = Seq<SpecEntry>;

    closed spec fn view(&self) -> Seq<SpecEntry> {
        entries_view(self.entries@)
    }
}

impl ConstantPool {
    #[verifier::type_invariant]
    closed spec fn checked(self) -> bool {
        spec_pool_valid(entries_view(self.entries@))
    }

    /// The number of slots in the pool.
    pub fn len(&self) -> (res: usize)
        ensures
            res == self@.len(),
    {
        self.entries.len()
    }

    /// The entry at 1-based index `index`; index 0 and indices past the end
    /// of the pool are errors.
    pub fn entry(&self, index: u16) -> (res: Result<ConstantPoolEntry, Error>)
        ensures
            match res {
                Ok(e) => spec_entry(self@, index) == Some(Ok::<SpecEntry, Error>(e@)),
                Err(e) => spec_entry(self@, index) == Some(Err::<SpecEntry, Error>(e)),
            },
    {
        let e = entry_ref(&self.entries, index)?;
        Ok(e.duplicate())
    }

    /// The string of the UTF-8 entry at `index`.
    pub fn get_utf8(&self, index: u16) -> (res: Result<JvmString, Error>)
        ensures
            match res {
                Ok(s) => spec_get_utf8(self@, index) == Some(Ok::<Seq<char>, Error>(s@)),
                Err(e) => spec_get_utf8(self@, index) == Some(Err::<Seq<char>, Error>(e)),
            },
    {
        get_utf8_in(&self.entries, index)
    }

    /// The name of the class entry at `index`.
    pub fn get_class(&self, index: u16) -> (res: Result<JvmString, Error>)
        ensures
            match res {
                Ok(s) => spec_get_class(self@, index) == Some(Ok::<Seq<char>, Error>(s@)),
                Err(e) => spec_get_class(self@, index) == Some(Err::<Seq<char>, Error>(e)),
            },
    {
        proof {
            use_type_invariant(self);
            lemma_valid_class(self@, index);
        }
        get_class_in(&self.entries, index)
    }

    /// The name and descriptor of the name-and-type entry at `index`.
    pub fn get_name_and_type(&self, index: u16) -> (res: Result<(JvmString, JvmString), Error>)
        ensures
            match res {
                Ok((n, d)) => spec_get_name_and_type(self@, index) == Some(
                    Ok::<(Seq<char>, Seq<char>), Error>((n@, d@)),
                ),
                Err(e) => spec_get_name_and_type(self@, index) == Some(
                    Err::<(Seq<char>, Seq<char>), Error>(e),
                ),
            },
    {
        proof {
            use_type_invariant(self);
            lemma_valid_name_and_type(self@, index);
        }
        get_name_and_type_in(&self.entries, index)
    }

    fn get_ref(&self, index: u16, kind: RefKind) -> (res: Result<(JvmString, JvmString, JvmString), Error>)
        ensures
            match res {
                Ok((c, n, d)) => spec_get_ref(self@, index, kind) == Some(
                    Ok::<(Seq<char>, Seq<char>, Seq<char>), Error>((c@, n@, d@)),
                ),
                Err(e) => spec_get_ref(self@, index, kind) == Some(
                    Err::<(Seq<char>, Seq<char>, Seq<char>), Error>(e),
                ),
            },
    {
        proof {
            use_type_invariant(self);
            lemma_valid_ref(self@, index, kind);
        }
        get_ref_in(&self.entries, index, kind)
    }

    /// The class name, field name and descriptor of the field reference at `index`.
    pub fn get_field_ref(&self, index: u16) -> (res: Result<(JvmString, JvmString, JvmString), Error>)
        ensures
            match res {
                Ok((c, n, d)) => spec_get_ref(self@, index, RefKind::Field) == Some(
                    Ok::<(Seq<char>, Seq<char>, Seq<char>), Error>((c@, n@, d@)),
                ),
                Err(e) => spec_get_ref(self@, index, RefKind::Field) == Some(
                    Err::<(Seq<char>, Seq<char>, Seq<char>), Error>(e),
                ),
            },
    {
        self.get_ref(index, RefKind::Field)
    }

    /// The class name, method name and descriptor of the method reference at `index`.
    pub fn get_method_ref(&self, index: u16) -> (res: Result<(JvmString, JvmString, JvmString), Error>)
        ensures
            match res {
                Ok((c, n, d)) => spec_get_ref(self@, index, RefKind::Method) == Some(
                    Ok::<(Seq<char>, Seq<char>, Seq<char>), Error>((c@, n@, d@)),
                ),
                Err(e) => spec_get_ref(self@, index, RefKind::Method) == Some(
                    Err::<(Seq<char>, Seq<char>, Seq<char>), Error>(e),
                ),
            },
    {
        self.get_ref(index, RefKind::Method)
    }

    /// The class name, method name and descriptor of the interface-method
    /// reference at `index`.
    pub fn get_interface_method_ref(&self, index: u16) -> (res: Result<(JvmString, JvmString, JvmString), Error>)
        ensures
            match res {
                Ok((c, n, d)) => spec_get_ref(self@, index, RefKind::InterfaceMethod) == Some(
                    Ok::<(Seq<char>, Seq<char>, Seq<char>), Error>((c@, n@, d@)),
                ),
                Err(e) => spec_get_ref(self@, index, RefKind::InterfaceMethod) == Some(
                    Err::<(Seq<char>, Seq<char>, Seq<char>), Error>(e),
                ),
            },
    {
        self.get_ref(index, RefKind::InterfaceMethod)
    }

    /// The class name, method name and descriptor of the method or
    /// interface-method reference at `index`.
    pub fn get_any_method_ref(&self, index: u16) -> (res: Result<(JvmString, JvmString, JvmString), Error>)
        ensures
            match res {
                Ok((c, n, d)) => spec_get_ref(self@, index, RefKind::AnyMethod) == Some(
                    Ok::<(Seq<char>, Seq<char>, Seq<char>), Error>((c@, n@, d@)),
                ),
                Err(e) => spec_get_ref(self@, index, RefKind::AnyMethod) == Some(
                    Err::<(Seq<char>, Seq<char>, Seq<char>), Error>(e),
                ),
            },
    {
        self.get_ref(index, RefKind::AnyMethod)
    }
}

/// Reads the entries of a constant pool: its entry count, then its entries
/// (a long or a double takes two slots), unchecked.
fn read_pool_entries(data: &mut FileData) -> (res: Result<Vec<ConstantPoolEntry>, Error>)
    requires
        cursor_ok(old(data)),
    ensures
        final(data).bytes() == old(data).bytes(),
        res is Ok ==> cursor_ok(final(data)),
        match res {
            Ok(es) => spec_read_pool(old(data).bytes(), old(data).pos()) == Ok::<(Seq<SpecEntry>, int), Error>(
                (entries_view(es@), final(data).pos()),
            ),
            Err(e) => spec_read_pool(old(data).bytes(), old(data).pos()) == Err::<(Seq<SpecEntry>, int), Error>(e),
        },
{
    let ghost d = data.bytes();
    let count = lift(data.read_u16_be())?;
    if count == 0 {
        return Err(Error::ExpectedNonZero);
    }
    let entry_count = count - 1;
    let ghost p1 = data.pos();
    let mut entries: Vec<ConstantPoolEntry> = Vec::new();
    assert(entries_view(entries@) =~= Seq::<SpecEntry>::empty());
    while entries.len() < entry_count as usize
        invariant
            data.bytes() == d,
            d == old(data).bytes(),
            spec_read_pool(d, old(data).pos()) == spec_read_entries(d, p1, entry_count as int, Seq::empty()),
            cursor_ok(data),
            entries@.len() <= entry_count + 1,
            spec_read_entries(d, p1, entry_count as int, Seq::empty()) == spec_read_entries(
                d,
                data.pos(),
                entry_count as int,
                entries_view(entries@),
            ),
        decreases entry_count + 1 - entries@.len(),
    {
        let entry = read_constant_pool_entry(data)?;
        let wide = entry.is_wide();
        let ghost ev = entry@;
        let ghost before = entries_view(entries@);
        entries.push(entry);
        if wide {
            entries.push(ConstantPoolEntry::Placeholder);
            assert(entries_view(entries@) =~= before.push(ev).push(SpecEntry::Placeholder));
        } else {
            assert(entries_view(entries@) =~= before.push(ev));
        }
    }
    Ok(entries)
}

/// Reads a constant pool: its entry count, its entries (a long or a double
/// takes two slots), and then checks every reference inside it.
pub fn read_constant_pool(data: &mut FileData) -> (res: Result<ConstantPool, Error>)
    requires
        cursor_ok(old(data)),
        spec_constant_pool(old(data).bytes(), old(data).pos()) is Some,
    ensures
        final(data).bytes() == old(data).bytes(),
        res is Ok ==> cursor_ok(final(data)),
        match res {
            Ok(pool) => spec_constant_pool(old(data).bytes(), old(data).pos()) == Some(
                Ok::<(Seq<SpecEntry>, int), Error>((pool@, final(data).pos())),
            ),
            Err(e) => spec_constant_pool(old(data).bytes(), old(data).pos()) == Some(
                Err::<(Seq<SpecEntry>, int), Error>(e),
            ),
        },
{
    let entries = read_pool_entries(data)?;
    let ghost es = entries_view(entries@);
    validate_in(&entries)?;
    proof {
        lemma_validate_from(es, 0);
    }
    Ok(ConstantPool { entries })
}

/// Whether reading and checking the constant pool at the cursor has a
/// defined outcome (see `spec_constant_pool`): no method handle's target
/// reference is itself broken. `read_constant_pool` may be called where it
/// has; the cursor is left where that call would leave it.
pub fn constant_pool_checkable(data: &mut FileData) -> (res: bool)
    requires
        cursor_ok(old(data)),
    ensures
        final(data).bytes() == old(data).bytes(),
        res == spec_constant_pool(old(data).bytes(), old(data).pos()) is Some,
        spec_constant_pool(old(data).bytes(), old(data).pos()) matches Some(Ok((_, p))) ==> cursor_ok(final(data))
            && final(data).pos() == p,
{
    let entries = match read_pool_entries(data) {
        Ok(es) => es,
        Err(_) => return true,
    };
    validation_defined(&entries)
}

} // verus!
