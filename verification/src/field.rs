//! The value a field starts with: its `ConstantValue` attribute's constant,
//! or the zero of its type.
use vstd::prelude::*;

use crate::classfile::attribute::{attributes_view, Attribute, SpecAttribute};
use crate::classfile::constant_pool::{spec_entry, spec_get_utf8, ConstantPool, ConstantPoolEntry, SpecEntry};
use crate::classfile::error::{error_of_read, Error};
use crate::classfile::member::{Field as ClassFileField, SpecMember};
use crate::descriptor::{spec_try_from_string, Descriptor, SpecDescriptor};
use crate::reader::{spec_u16_be, FileData};
use crate::string::JvmString;
use crate::value::{int_value, long_value, Value};

verus! {

/// A field's constant: a value, or a string for the runtime to make into a
/// `java.lang.String`.
#[derive(Debug)]
pub enum ConstantValue {
    Value(Value),
    String(JvmString),
}

/// A field's constant as values.
pub enum SpecConstant {
    Value(Value),
    String(Seq<char>),
}

impl View for ConstantValue {
    type V = SpecConstant;

    open spec fn view(&self) -> SpecConstant {
        match self {
            ConstantValue::Value(v) => SpecConstant::Value(*v),
            ConstantValue::String(s) => SpecConstant::String(s@),
        }
    }
}

/// The zero value of a field of type `d`: `null` for a reference, the zero
/// bits for a primitive.
pub open spec fn spec_default_value(d: SpecDescriptor) -> Value {
    match d {
        SpecDescriptor::Class(_) | SpecDescriptor::Array(_) => Value::Reference(None),
        _ => Value::Primitive(0),
    }
}

impl Descriptor {
    /// The value a field of this type starts with when it has no constant.
    /// Not asked of `void`.
    pub fn default_value(&self) -> (res: Value)
        requires
            !(self@ is Void),
        ensures
            res == spec_default_value(self@),
    {
        match self {
            Descriptor::Class(_) | Descriptor::Array(_) => Value::Object(None),
            Descriptor::Boolean | Descriptor::Byte | Descriptor::Character | Descriptor::Integer
            | Descriptor::Short => Value::Integer(0),
            Descriptor::Long => Value::Long(0),
            Descriptor::Float | Descriptor::Double => Value::Primitive(0),
            Descriptor::Void => vstd::pervasive::unreached(),
        }
    }
}

/// The name of the attribute that holds a field's constant.
pub open spec fn constant_value_name() -> Seq<char> {
    seq!['C', 'o', 'n', 's', 't', 'a', 'n', 't', 'V', 'a', 'l', 'u', 'e']
}

/// The index of the first attribute named `ConstantValue`.
pub open spec fn first_constant_attribute(attrs: Seq<SpecAttribute>) -> Option<int>
    decreases attrs.len(),
{
    if attrs.len() == 0 {
        None
    } else if attrs[0].name == constant_value_name() {
        Some(0)
    } else {
        match first_constant_attribute(attrs.drop_first()) {
            Some(i) => Some(i + 1),
            None => None,
        }
    }
}

/// The constant a `ConstantValue` attribute's payload names: a `u16` index
/// of an integer, float, long, double or string entry. `None` where the
/// index is past the pool, the entry is of another kind, or a string entry
/// does not name a UTF-8 entry: there the runtime has no defined behavior.
pub open spec fn spec_constant_of(pool: Seq<SpecEntry>, data: Seq<u8>) -> Option<Result<SpecConstant, Error>> {
    match spec_u16_be(data, 0) {
        Err(e) => Some(Err(error_of_read(e))),
        Ok((idx, _)) => match spec_entry(pool, idx) {
            None => None,
            Some(Err(e)) => Some(Err(e)),
            Some(Ok(entry)) => match entry {
                SpecEntry::Integer(v) => Some(Ok(SpecConstant::Value(int_value(v)))),
                SpecEntry::Float(bits) => Some(Ok(SpecConstant::Value(Value::Primitive(bits as u64)))),
                SpecEntry::Long(v) => Some(Ok(SpecConstant::Value(long_value(v)))),
                SpecEntry::Double(bits) => Some(Ok(SpecConstant::Value(Value::Primitive(bits)))),
                SpecEntry::String(si) => match spec_get_utf8(pool, si) {
                    Some(Ok(s)) => Some(Ok(SpecConstant::String(s))),
                    _ => None,
                },
                _ => None,
            },
        },
    }
}

/// A field's constant: that of its first `ConstantValue` attribute, if it
/// has one.
pub open spec fn spec_field_constant(pool: Seq<SpecEntry>, attrs: Seq<SpecAttribute>) -> Option<Result<Option<SpecConstant>, Error>> {
    match first_constant_attribute(attrs) {
        None => Some(Ok(None)),
        Some(i) => match spec_constant_of(pool, attrs[i].data) {
            None => None,
            Some(Err(e)) => Some(Err(e)),
            Some(Ok(c)) => Some(Ok(Some(c))),
        },
    }
}

/// Reads the constant a `ConstantValue` payload names.
fn constant_of(constant_pool: &ConstantPool, data: &[u8]) -> (res: Result<ConstantValue, Error>)
    requires
        spec_constant_of(constant_pool@, data@) is Some,
    ensures
        match res {
            Ok(c) => spec_constant_of(constant_pool@, data@) == Some(Ok::<SpecConstant, Error>(c@)),
            Err(e) => spec_constant_of(constant_pool@, data@) == Some(Err::<SpecConstant, Error>(e)),
        },
{
    let mut reader = FileData::new(data);
    let index = match reader.read_u16_be() {
        Ok(v) => v,
        Err(e) => return Err(Error::from(e)),
    };
    let entry = constant_pool.entry(index)?;
    match entry {
        ConstantPoolEntry::Integer { value } => Ok(ConstantValue::Value(Value::Integer(value))),
        ConstantPoolEntry::Float { bits } => Ok(ConstantValue::Value(Value::Primitive(bits as u64))),
        ConstantPoolEntry::Long { value } => Ok(ConstantValue::Value(Value::Long(value))),
        ConstantPoolEntry::Double { bits } => Ok(ConstantValue::Value(Value::Primitive(bits))),
        ConstantPoolEntry::String { string_idx } => match constant_pool.get_utf8(string_idx) {
            Ok(s) => Ok(ConstantValue::String(s)),
            Err(_) => vstd::pervasive::unreached(),
        },
        _ => vstd::pervasive::unreached(),
    }
}

/// The constant a field starts with, from the first of its `attributes`
/// named `ConstantValue`; `None` when it has none.
pub fn field_constant_value(constant_pool: &ConstantPool, attributes: &[Attribute]) -> (res: Result<Option<ConstantValue>, Error>)
    requires
        spec_field_constant(constant_pool@, attributes_view(attributes@)) is Some,
    ensures
        match res {
            Ok(Some(c)) => spec_field_constant(constant_pool@, attributes_view(attributes@)) == Some(
                Ok::<Option<SpecConstant>, Error>(Some(c@)),
            ),
            Ok(None) => spec_field_constant(constant_pool@, attributes_view(attributes@)) == Some(
                Ok::<Option<SpecConstant>, Error>(None),
            ),
            Err(e) => spec_field_constant(constant_pool@, attributes_view(attributes@)) == Some(
                Err::<Option<SpecConstant>, Error>(e),
            ),
        },
{
    let ghost all = attributes_view(attributes@);
    let mut i: usize = 0;
    proof {
        reveal_strlit("ConstantValue");
    }
    assert("ConstantValue"@ =~= constant_value_name());
    assert(all.skip(0) =~= all);
    while i < attributes.len()
        invariant
            all == attributes_view(attributes@),
            spec_field_constant(constant_pool@, all) is Some,
            i <= all.len(),
            "ConstantValue"@ == constant_value_name(),
            first_constant_attribute(all) == (match first_constant_attribute(all.skip(i as int)) {
                Some(j) => Some(j + i),
                None => None,
            }),
        decreases all.len() - i,
    {
        assert(all.skip(i as int).drop_first() =~= all.skip(i + 1));
        assert(all.skip(i as int)[0] == attributes@[i as int]@);
        if attributes[i].name().eq_str("ConstantValue") {
            assert(first_constant_attribute(all) == Some(i as int));
            return match constant_of(constant_pool, attributes[i].data()) {
                Ok(c) => Ok(Some(c)),
                Err(e) => Err(e),
            };
        }
        i = i + 1;
    }
    assert(all.skip(i as int) =~= Seq::<SpecAttribute>::empty());
    Ok(None)
}

// ---------------------------------------------------------------------------
// The fields of a loaded class
// ---------------------------------------------------------------------------

/// Why a field of a class file cannot be loaded.
#[derive(Clone, Copy, Debug, PartialEq, Eq, Structural)]
pub enum FieldError {
    /// Its descriptor is not a field descriptor (a `ClassFormatError`).
    IllegalFieldSignature,
    /// Its constant cannot be read.
    ClassFile(Error),
}

/// A field of a loaded class: its type, access flags, name and value.
#[derive(Debug)]
pub struct Field {
    descriptor: Descriptor,
    flags: u16,
    name: JvmString,
    value: ConstantValue,
}

/// The value of a field of a loaded class.
pub struct SpecField {
    pub descriptor: SpecDescriptor,
    pub flags: u16,
    pub name: Seq<char>,
    pub value: SpecConstant,
}

impl View for Field {
    type V = SpecField;

    closed spec fn view(&self) -> SpecField {
        SpecField { descriptor: self.descriptor@, flags: self.flags, name: self.name@, value: self.value@ }
    }
}

/// Loading field `m` of a class file whose pool is `pool`: its descriptor
/// must parse (else `IllegalFieldSignature`); its value is its constant, or
/// the zero of its type where it has none. `None` where reading the
/// constant has no defined outcome.
pub open spec fn spec_load_field(pool: Seq<SpecEntry>, m: SpecMember) -> Option<Result<SpecField, FieldError>> {
    match spec_try_from_string(m.descriptor) {
        None => Some(Err(FieldError::IllegalFieldSignature)),
        Some(d) => match spec_field_constant(pool, m.attributes) {
            None => None,
            Some(Err(e)) => Some(Err(FieldError::ClassFile(e))),
            Some(Ok(c)) => Some(
                Ok(
                    SpecField {
                        descriptor: d,
                        flags: m.flags,
                        name: m.name,
                        value: match c {
                            Some(c) => c,
                            None => SpecConstant::Value(spec_default_value(d)),
                        },
                    },
                ),
            ),
        },
    }
}

impl Field {
    /// Loads `field` of a class file whose constant pool is
    /// `constant_pool` (see `spec_load_field`).
    pub fn from_field(constant_pool: &ConstantPool, field: &ClassFileField) -> (res: Result<Field, FieldError>)
        requires
            spec_load_field(constant_pool@, field@) is Some,
        ensures
            match res {
                Ok(f) => spec_load_field(constant_pool@, field@) == Some(Ok::<SpecField, FieldError>(f@)),
                Err(e) => spec_load_field(constant_pool@, field@) == Some(Err::<SpecField, FieldError>(e)),
            },
    {
        let descriptor = match Descriptor::try_from_string(&field.descriptor()) {
            Some(d) => d,
            None => return Err(FieldError::IllegalFieldSignature),
        };
        let value = match field_constant_value(constant_pool, field.attributes()) {
            Ok(Some(c)) => c,
            Ok(None) => ConstantValue::Value(descriptor.default_value()),
            Err(e) => return Err(FieldError::ClassFile(e)),
        };
        Ok(Field { descriptor, flags: field.flags(), name: field.name(), value })
    }

    /// The field's type.
    pub fn descriptor(&self) -> (res: &Descriptor)
        ensures
            res@ == self@.descriptor,
    {
        &self.descriptor
    }

    /// The field's access flags.
    pub fn flags(&self) -> (res: u16)
        ensures
            res == self@.flags,
    {
        self.flags
    }

    /// The field's name.
    pub fn name(&self) -> (res: &JvmString)
        ensures
            res@ == self@.name,
    {
        &self.name
    }

    /// The field's value.
    pub fn value(&self) -> (res: &ConstantValue)
        ensures
            res@ == self@.value,
    {
        &self.value
    }

    /// Sets the field's value.
    pub fn set_value(&mut self, value: Value)
        ensures
            final(self)@ == (SpecField { value: SpecConstant::Value(value), ..old(self)@ }),
    {
        self.value = ConstantValue::Value(value);
    }
}

// ---------------------------------------------------------------------------
// The instance fields of a class
// ---------------------------------------------------------------------------

/// The access flag of a static field.
pub const ACC_STATIC: u16 = 0x0008;

impl ConstantValue {
    /// A copy of this constant.
    pub fn duplicate(&self) -> (res: ConstantValue)
        ensures
            res@ == self@,
    {
        match self {
            ConstantValue::Value(v) => ConstantValue::Value(*v),
            ConstantValue::String(s) => ConstantValue::String(s.duplicate()),
        }
    }
}

impl Field {
    /// A copy of this field, with its current value.
    pub fn duplicate(&self) -> (res: Field)
        ensures
            res@ == self@,
    {
        Field {
            descriptor: self.descriptor.duplicate(),
            flags: self.flags,
            name: self.name.duplicate(),
            value: self.value.duplicate(),
        }
    }
}

/// The values of a list of loaded fields.
pub open spec fn loaded_view(fs: Seq<Field>) -> Seq<SpecField> {
    fs.map_values(|f: Field| f@)
}

/// Loading the fields of `ms` that are not static, in order: the first
/// error, if one of them fails to load. `None` where loading one has no
/// defined outcome.
pub open spec fn spec_own_instance_fields(pool: Seq<SpecEntry>, ms: Seq<SpecMember>) -> Option<Result<Seq<SpecField>, FieldError>>
    decreases ms.len(),
{
    if ms.len() == 0 {
        Some(Ok(Seq::empty()))
    } else {
        match spec_own_instance_fields(pool, ms.drop_last()) {
            None => None,
            Some(Err(e)) => Some(Err(e)),
            Some(Ok(fs)) => if ms.last().flags & ACC_STATIC != 0 {
                Some(Ok(fs))
            } else {
                match spec_load_field(pool, ms.last()) {
                    None => None,
                    Some(Err(e)) => Some(Err(e)),
                    Some(Ok(f)) => Some(Ok(fs.push(f))),
                }
            },
        }
    }
}

/// The keys of the field table for fields `fs`: name and type.
pub open spec fn field_keys(fs: Seq<SpecField>) -> Seq<(Seq<char>, SpecDescriptor)> {
    fs.map_values(|f: SpecField| (f.name, f.descriptor))
}

/// The instance fields of a class whose superclass has the instance fields
/// `parent` and whose class file has the fields `fields`: the superclass's,
/// then the class file's fields that are not static, in order; with the
/// keys (name and type) of the latter, for the class's field table. The
/// first field that fails to load gives the error.
pub fn load_instance_fields(constant_pool: &ConstantPool, fields: &[ClassFileField], parent: &[Field]) -> (res: Result<
    (Vec<Field>, Vec<(JvmString, Descriptor)>),
    FieldError,
>)
    requires
        spec_own_instance_fields(constant_pool@, crate::classfile::class::fields_view(fields@)) is Some,
    ensures
        match spec_own_instance_fields(constant_pool@, crate::classfile::class::fields_view(fields@)) {
            Some(Ok(own)) => match res {
                Ok((all, keys)) => {
                    &&& loaded_view(all@) == loaded_view(parent@) + own
                    &&& keys@.map_values(|k: (JvmString, Descriptor)| (k.0@, k.1@)) == field_keys(own)
                },
                Err(_) => false,
            },
            Some(Err(e)) => res == Err::<(Vec<Field>, Vec<(JvmString, Descriptor)>), FieldError>(e),
            None => false,
        },
{
    let ghost ms = crate::classfile::class::fields_view(fields@);
    let mut all: Vec<Field> = Vec::new();
    let mut i: usize = 0;
    while i < parent.len()
        invariant
            i <= parent@.len(),
            loaded_view(all@) =~= loaded_view(parent@).take(i as int),
        decreases parent@.len() - i,
    {
        let ghost before = all@;
        let f = parent[i].duplicate();
        all.push(f);
        assert(loaded_view(all@) =~= loaded_view(before).push(parent@[i as int]@));
        assert(loaded_view(parent@).take(i + 1) =~= loaded_view(parent@).take(i as int).push(parent@[i as int]@));
        i = i + 1;
    }
    assert(loaded_view(parent@).take(parent@.len() as int) =~= loaded_view(parent@));
    let mut keys: Vec<(JvmString, Descriptor)> = Vec::new();
    let mut k: usize = 0;
    assert(ms.take(0) =~= Seq::<SpecMember>::empty());
    while k < fields.len()
        invariant
            ms == crate::classfile::class::fields_view(fields@),
            ms.len() == fields@.len(),
            k <= fields@.len(),
            spec_own_instance_fields(constant_pool@, ms) is Some,
            spec_own_instance_fields(constant_pool@, ms.take(k as int)) matches Some(Ok(own)) && {
                &&& loaded_view(all@) == loaded_view(parent@) + own
                &&& keys@.map_values(|kk: (JvmString, Descriptor)| (kk.0@, kk.1@)) == field_keys(own)
            },
        decreases fields@.len() - k,
    {
        let ghost before = spec_own_instance_fields(constant_pool@, ms.take(k as int));
        assert(ms.take(k + 1).drop_last() =~= ms.take(k as int));
        assert(ms.take(k + 1).last() == fields@[k as int]@);
        proof {
            lemma_own_fields_prefix(constant_pool@, ms, k + 1);
        }
        let m = &fields[k];
        if m.flags() & ACC_STATIC == 0 {
            match Field::from_field(constant_pool, m) {
                Ok(f) => {
                    let ghost fv = f@;
                    let ghost all_before = all@;
                    let ghost keys_before = keys@;
                    keys.push((f.name().duplicate(), f.descriptor().duplicate()));
                    all.push(f);
                    proof {
                        let own = before->Some_0->Ok_0;
                        assert(loaded_view(all@) =~= loaded_view(all_before).push(fv));
                        assert(keys@.map_values(|kk: (JvmString, Descriptor)| (kk.0@, kk.1@)) =~= keys_before.map_values(
                            |kk: (JvmString, Descriptor)| (kk.0@, kk.1@),
                        ).push((fv.name, fv.descriptor)));
                        assert(field_keys(own.push(fv)) =~= field_keys(own).push((fv.name, fv.descriptor)));
                        assert(loaded_view(all@) =~= loaded_view(parent@) + own.push(fv));
                        assert(keys@.map_values(|kk: (JvmString, Descriptor)| (kk.0@, kk.1@)) =~= field_keys(own.push(fv)));
                    }
                },
                Err(e) => {
                    return Err(e);
                },
            }
        }
        k = k + 1;
    }
    assert(ms.take(fields@.len() as int) =~= ms);
    Ok((all, keys))
}

/// Where the fields of the whole list load, so do those of each prefix.
proof fn lemma_own_fields_prefix(pool: Seq<SpecEntry>, ms: Seq<SpecMember>, k: int)
    requires
        0 <= k <= ms.len(),
        spec_own_instance_fields(pool, ms) is Some,
    ensures
        spec_own_instance_fields(pool, ms.take(k)) is Some,
        spec_own_instance_fields(pool, ms.take(k)) matches Some(Err(e)) ==> spec_own_instance_fields(pool, ms) == Some(
            Err::<Seq<SpecField>, FieldError>(e),
        ),
    decreases ms.len() - k,
{
    if k < ms.len() {
        lemma_own_fields_prefix(pool, ms, k + 1);
        assert(ms.take(k + 1).drop_last() =~= ms.take(k));
    } else {
        assert(ms.take(k) =~= ms);
    }
}

} // verus!
