//! A whole class file: magic number, versions, constant pool, access flags,
//! class names, interfaces, fields, methods and attributes.
use vstd::prelude::*;

use super::attribute::{attribute_step, attributes_view, read_attributes, Attribute, SpecAttribute};
use super::constant_pool::{
    constant_pool_checkable, cursor_ok, lemma_valid_class, lemma_validate_from, read_constant_pool,
    spec_constant_pool, spec_get_class, spec_pool_valid, spec_read_pool, spec_validate, spec_validate_from, ConstantPool, SpecEntry,
};
use super::error::{lift, lift_read, Error};
use super::member::{member_step, Field, Method, SpecMember};
use super::outcome::{spec_repeat, Outcome};
use crate::reader::{spec_u16_be, spec_u32_be, FileData};
use crate::string::JvmString;

verus! {

/// The magic number every class file starts with.
pub const CLASS_MAGIC: u32 = 0xCAFEBABE;

/// The value of a class file.
pub struct SpecClassFile {
    pub constant_pool: Seq<SpecEntry>,
    pub flags: u16,
    pub this_class: Seq<char>,
    pub super_class: Option<Seq<char>>,
    pub interfaces: Seq<Seq<char>>,
    pub fields: Seq<SpecMember>,
    pub methods: Seq<SpecMember>,
    pub attributes: Seq<SpecAttribute>,
}

/// Reading a class index at `p` and looking up the class's name.
pub open spec fn spec_read_class_name(pool: Seq<SpecEntry>, d: Seq<u8>, p: int) -> Outcome<Seq<char>> {
    match lift_read(spec_u16_be(d, p)) {
        Err(e) => Some(Err(e)),
        Ok((idx, p1)) => match spec_get_class(pool, idx) {
            None => None,
            Some(Err(e)) => Some(Err(e)),
            Some(Ok(name)) => Some(Ok((name, p1))),
        },
    }
}

/// The interface-reading step over a given pool.
pub open spec fn interface_step(pool: Seq<SpecEntry>) -> spec_fn(Seq<u8>, int) -> Outcome<Seq<char>> {
    |d: Seq<u8>, p: int| spec_read_class_name(pool, d, p)
}

/// Reading the superclass index at `p`: 0 stands for no superclass.
pub open spec fn spec_read_super_class(pool: Seq<SpecEntry>, d: Seq<u8>, p: int) -> Outcome<Option<Seq<char>>> {
    match lift_read(spec_u16_be(d, p)) {
        Err(e) => Some(Err(e)),
        Ok((idx, p1)) => if idx == 0 {
            Some(Ok((None, p1)))
        } else {
            match spec_get_class(pool, idx) {
                None => None,
                Some(Err(e)) => Some(Err(e)),
                Some(Ok(name)) => Some(Ok((Some(name), p1))),
            }
        },
    }
}

/// Reading a `u16` count at `p` and then that many items with `step`.
pub open spec fn spec_counted<T>(d: Seq<u8>, p: int, step: spec_fn(Seq<u8>, int) -> Outcome<T>) -> Outcome<Seq<T>> {
    match lift_read(spec_u16_be(d, p)) {
        Err(e) => Some(Err(e)),
        Ok((count, p1)) => spec_repeat(count as nat, d, p1, Seq::empty(), step),
    }
}

/// Reading the part of a class file that follows its constant pool.
pub open spec fn spec_class_body(pool: Seq<SpecEntry>, d: Seq<u8>, p: int) -> Option<Result<SpecClassFile, Error>> {
    match lift_read(spec_u16_be(d, p)) {
        Err(e) => Some(Err(e)),
        Ok((flags, p1)) => match spec_read_class_name(pool, d, p1) {
            None => None,
            Some(Err(e)) => Some(Err(e)),
            Some(Ok((this_class, p2))) => match spec_read_super_class(pool, d, p2) {
                None => None,
                Some(Err(e)) => Some(Err(e)),
                Some(Ok((super_class, p3))) => match spec_counted(d, p3, interface_step(pool)) {
                    None => None,
                    Some(Err(e)) => Some(Err(e)),
                    Some(Ok((interfaces, p4))) => match spec_counted(d, p4, member_step(pool)) {
                        None => None,
                        Some(Err(e)) => Some(Err(e)),
                        Some(Ok((fields, p5))) => match spec_counted(d, p5, member_step(pool)) {
                            None => None,
                            Some(Err(e)) => Some(Err(e)),
                            Some(Ok((methods, p6))) => match spec_counted(d, p6, attribute_step(pool)) {
                                None => None,
                                Some(Err(e)) => Some(Err(e)),
                                Some(Ok((attributes, _))) => Some(Ok(SpecClassFile {
                                    constant_pool: pool,
                                    flags,
                                    this_class,
                                    super_class,
                                    interfaces,
                                    fields,
                                    methods,
                                    attributes,
                                })),
                            },
                        },
                    },
                },
            },
        },
    }
}

/// Reading a class file from the start of `d`: the magic number, the minor
/// and major versions, the constant pool, and the body. Bytes after the last
/// attribute are ignored. `None` stands for a file whose constant pool
/// holds a method handle whose target reference is itself broken, where
/// checking the pool has no defined outcome.
pub open spec fn spec_class_file(d: Seq<u8>) -> Option<Result<SpecClassFile, Error>> {
    match lift_read(spec_u32_be(d, 0)) {
        Err(e) => Some(Err(e)),
        Ok((magic, p1)) => if magic != CLASS_MAGIC {
            Some(Err(Error::InvalidMagic))
        } else {
            match lift_read(spec_u16_be(d, p1)) {
                Err(e) => Some(Err(e)),
                Ok((_minor, p2)) => match lift_read(spec_u16_be(d, p2)) {
                    Err(e) => Some(Err(e)),
                    Ok((_major, p3)) => match spec_constant_pool(d, p3) {
                        None => None,
                        Some(Err(e)) => Some(Err(e)),
                        Some(Ok((pool, p4))) => spec_class_body(pool, d, p4),
                    },
                },
            }
        },
    }
}

/// The values of a list of strings.
pub open spec fn strings_view(strings: Seq<JvmString>) -> Seq<Seq<char>> {
    strings.map_values(|s: JvmString| s@)
}

/// The values of a list of fields.
pub open spec fn fields_view(fields: Seq<Field>) -> Seq<SpecMember> {
    fields.map_values(|f: Field| f@)
}

/// The values of a list of methods.
pub open spec fn methods_view(methods: Seq<Method>) -> Seq<SpecMember> {
    methods.map_values(|m: Method| m@)
}

fn read_class_name(data: &mut FileData<'_>, constant_pool: &ConstantPool) -> (res: Result<JvmString, Error>)
    requires
        cursor_ok(old(data)),
        spec_read_class_name(constant_pool@, old(data).bytes(), old(data).pos()) is Some,
    ensures
        final(data).bytes() == old(data).bytes(),
        res is Ok ==> cursor_ok(final(data)),
        match res {
            Ok(s) => spec_read_class_name(constant_pool@, old(data).bytes(), old(data).pos()) == Some(
                Ok::<(Seq<char>, int), Error>((s@, final(data).pos())),
            ),
            Err(e) => spec_read_class_name(constant_pool@, old(data).bytes(), old(data).pos()) == Some(
                Err::<(Seq<char>, int), Error>(e),
            ),
        },
{
    let idx = lift(data.read_u16_be())?;
    constant_pool.get_class(idx)
}

fn read_interfaces(data: &mut FileData<'_>, constant_pool: &ConstantPool) -> (res: Result<Vec<JvmString>, Error>)
    requires
        cursor_ok(old(data)),
        spec_counted(old(data).bytes(), old(data).pos(), interface_step(constant_pool@)) is Some,
    ensures
        final(data).bytes() == old(data).bytes(),
        res is Ok ==> cursor_ok(final(data)),
        match res {
            Ok(v) => spec_counted(old(data).bytes(), old(data).pos(), interface_step(constant_pool@)) == Some(
                Ok::<(Seq<Seq<char>>, int), Error>((strings_view(v@), final(data).pos())),
            ),
            Err(e) => spec_counted(old(data).bytes(), old(data).pos(), interface_step(constant_pool@)) == Some(
                Err::<(Seq<Seq<char>>, int), Error>(e),
            ),
        },
{
    let ghost d = data.bytes();
    let ghost step = interface_step(constant_pool@);
    let ghost whole = spec_counted(d, data.pos(), step);
    let count = lift(data.read_u16_be())?;
    let mut list: Vec<JvmString> = Vec::new();
    let mut i: u16 = 0;
    assert(strings_view(list@) =~= Seq::<Seq<char>>::empty());
    while i < count
        invariant
            data.bytes() == d,
            d == old(data).bytes(),
            step == interface_step(constant_pool@),
            whole == spec_counted(d, old(data).pos(), step),
            whole is Some,
            cursor_ok(data),
            0 <= i <= count,
            whole == spec_repeat((count - i) as nat, d, data.pos(), strings_view(list@), step),
        decreases count - i,
    {
        assert(step(d, data.pos()) == spec_read_class_name(constant_pool@, d, data.pos()));
        let s = read_class_name(data, constant_pool)?;
        let ghost before = strings_view(list@);
        let ghost sv = s@;
        list.push(s);
        assert(strings_view(list@) =~= before.push(sv));
        i = i + 1;
    }
    Ok(list)
}

fn read_fields(data: &mut FileData<'_>, constant_pool: &ConstantPool) -> (res: Result<Vec<Field>, Error>)
    requires
        cursor_ok(old(data)),
        spec_counted(old(data).bytes(), old(data).pos(), member_step(constant_pool@)) is Some,
    ensures
        final(data).bytes() == old(data).bytes(),
        res is Ok ==> cursor_ok(final(data)),
        match res {
            Ok(v) => spec_counted(old(data).bytes(), old(data).pos(), member_step(constant_pool@)) == Some(
                Ok::<(Seq<SpecMember>, int), Error>((fields_view(v@), final(data).pos())),
            ),
            Err(e) => spec_counted(old(data).bytes(), old(data).pos(), member_step(constant_pool@)) == Some(
                Err::<(Seq<SpecMember>, int), Error>(e),
            ),
        },
{
    let ghost d = data.bytes();
    let ghost step = member_step(constant_pool@);
    let ghost whole = spec_counted(d, data.pos(), step);
    let count = lift(data.read_u16_be())?;
    let mut list: Vec<Field> = Vec::new();
    let mut i: u16 = 0;
    assert(fields_view(list@) =~= Seq::<SpecMember>::empty());
    while i < count
        invariant
            data.bytes() == d,
            d == old(data).bytes(),
            step == member_step(constant_pool@),
            whole == spec_counted(d, old(data).pos(), step),
            whole is Some,
            cursor_ok(data),
            0 <= i <= count,
            whole == spec_repeat((count - i) as nat, d, data.pos(), fields_view(list@), step),
        decreases count - i,
    {
        assert(step(d, data.pos()) == super::member::spec_read_member(constant_pool@, d, data.pos()));
        let f = Field::read_from(data, constant_pool)?;
        let ghost before = fields_view(list@);
        let ghost fv = f@;
        list.push(f);
        assert(fields_view(list@) =~= before.push(fv));
        i = i + 1;
    }
    Ok(list)
}

fn read_methods(data: &mut FileData<'_>, constant_pool: &ConstantPool) -> (res: Result<Vec<Method>, Error>)
    requires
        cursor_ok(old(data)),
        spec_counted(old(data).bytes(), old(data).pos(), member_step(constant_pool@)) is Some,
    ensures
        final(data).bytes() == old(data).bytes(),
        res is Ok ==> cursor_ok(final(data)),
        match res {
            Ok(v) => spec_counted(old(data).bytes(), old(data).pos(), member_step(constant_pool@)) == Some(
                Ok::<(Seq<SpecMember>, int), Error>((methods_view(v@), final(data).pos())),
            ),
            Err(e) => spec_counted(old(data).bytes(), old(data).pos(), member_step(constant_pool@)) == Some(
                Err::<(Seq<SpecMember>, int), Error>(e),
            ),
        },
{
    let ghost d = data.bytes();
    let ghost step = member_step(constant_pool@);
    let ghost whole = spec_counted(d, data.pos(), step);
    let count = lift(data.read_u16_be())?;
    let mut list: Vec<Method> = Vec::new();
    let mut i: u16 = 0;
    assert(methods_view(list@) =~= Seq::<SpecMember>::empty());
    while i < count
        invariant
            data.bytes() == d,
            d == old(data).bytes(),
            step == member_step(constant_pool@),
            whole == spec_counted(d, old(data).pos(), step),
            whole is Some,
            cursor_ok(data),
            0 <= i <= count,
            whole == spec_repeat((count - i) as nat, d, data.pos(), methods_view(list@), step),
        decreases count - i,
    {
        assert(step(d, data.pos()) == super::member::spec_read_member(constant_pool@, d, data.pos()));
        let m = Method::read_from(data, constant_pool)?;
        let ghost before = methods_view(list@);
        let ghost mv = m@;
        list.push(m);
        assert(methods_view(list@) =~= before.push(mv));
        i = i + 1;
    }
    Ok(list)
}

/// A parsed class file.
#[derive(Debug)]
pub struct ClassFile {
    constant_pool: ConstantPool,
    flags: u16,
    this_class: JvmString,
    super_class: Option<JvmString>,
    interfaces: Vec<JvmString>,
    fields: Vec<Field>,
    methods: Vec<Method>,
    attributes: Vec<Attribute>,
}

impl View for ClassFile {
    type V = SpecClassFile;

    closed spec fn view(&self) -> SpecClassFile {
        SpecClassFile {
            constant_pool: self.constant_pool@,
            flags: self.flags,
            this_class: self.this_class@,
            super_class: match self.super_class {
                Some(s) => Some(s@),
                None => None,
            },
            interfaces: strings_view(self.interfaces@),
            fields: fields_view(self.fields@),
            methods: methods_view(self.methods@),
            attributes: attributes_view(self.attributes@),
        }
    }
}

/// Repeating a step whose outcome is always defined has a defined outcome.
proof fn lemma_repeat_defined<T>(n: nat, d: Seq<u8>, p: int, acc: Seq<T>, step: spec_fn(Seq<u8>, int) -> Outcome<T>)
    requires
        forall|q: int| #[trigger] step(d, q) is Some,
    ensures
        spec_repeat(n, d, p, acc, step) is Some,
    decreases n,
{
    if n > 0 {
        if let Some(Ok((x, p1))) = step(d, p) {
            lemma_repeat_defined((n - 1) as nat, d, p1, acc.push(x), step);
        }
    }
}

/// Reading a counted list with a step whose outcome is always defined has a
/// defined outcome.
proof fn lemma_counted_defined<T>(d: Seq<u8>, p: int, step: spec_fn(Seq<u8>, int) -> Outcome<T>)
    requires
        forall|q: int| #[trigger] step(d, q) is Some,
    ensures
        spec_counted(d, p, step) is Some,
{
    if let Ok((count, p1)) = lift_read(spec_u16_be(d, p)) {
        lemma_repeat_defined(count as nat, d, p1, Seq::empty(), step);
    }
}

/// Over a checked pool, reading the body of a class file has a defined
/// outcome.
proof fn lemma_class_body_defined(pool: Seq<SpecEntry>, d: Seq<u8>, p: int)
    requires
        spec_pool_valid(pool),
    ensures
        spec_class_body(pool, d, p) is Some,
{
    assert forall|idx: u16| #[trigger] spec_get_class(pool, idx) is Some by {
        lemma_valid_class(pool, idx);
    }
    assert forall|q: int| #[trigger] attribute_step(pool)(d, q) is Some by {}
    assert forall|q: int| #[trigger] member_step(pool)(d, q) is Some by {
        assert forall|n: nat, p4: int| #[trigger] spec_repeat(n, d, p4, Seq::empty(), attribute_step(pool)) is Some by {
            lemma_repeat_defined(n, d, p4, Seq::empty(), attribute_step(pool));
        }
    }
    assert forall|q: int| #[trigger] interface_step(pool)(d, q) is Some by {}
    assert forall|q: int| #[trigger] spec_counted(d, q, interface_step(pool)) is Some by {
        lemma_counted_defined(d, q, interface_step(pool));
    }
    assert forall|q: int| #[trigger] spec_counted(d, q, member_step(pool)) is Some by {
        lemma_counted_defined(d, q, member_step(pool));
    }
    assert forall|q: int| #[trigger] spec_counted(d, q, attribute_step(pool)) is Some by {
        lemma_counted_defined(d, q, attribute_step(pool));
    }
}

/// Where a class file's constant pool starts: after the magic number and the
/// two version numbers, where they read and the magic number is right.
pub open spec fn spec_pool_start(d: Seq<u8>) -> Option<int> {
    match lift_read(spec_u32_be(d, 0)) {
        Err(_) => None,
        Ok((magic, p1)) => if magic != CLASS_MAGIC {
            None
        } else {
            match lift_read(spec_u16_be(d, p1)) {
                Err(_) => None,
                Ok((_minor, p2)) => match lift_read(spec_u16_be(d, p2)) {
                    Err(_) => None,
                    Ok((_major, p3)) => Some(p3),
                },
            }
        },
    }
}

/// Parsing a class file has a defined outcome except where its constant
/// pool is reached and checking the pool has none.
proof fn lemma_class_file_defined(d: Seq<u8>)
    ensures
        (spec_class_file(d) is Some) == (match spec_pool_start(d) {
            Some(p3) => spec_constant_pool(d, p3) is Some,
            None => true,
        }),
{
    if let Some(p3) = spec_pool_start(d) {
        if let Ok((es, q)) = spec_read_pool(d, p3) {
            if spec_validate(es) matches Some(Ok(_)) {
                assert(spec_constant_pool(d, p3) == Some(Ok::<(Seq<SpecEntry>, int), Error>((es, q))));
                assert(spec_validate(es) == spec_validate_from(es, 0));
                let r = spec_validate_from(es, 0);
                let u = r.unwrap().unwrap();
                assert(u == ());
                assert(r == Some(Ok::<(), Error>(())));
                lemma_validate_from(es, 0);
                lemma_class_body_defined(es, d, q);
            }
        }
    }
}

impl ClassFile {
    /// Whether parsing `data` as a class file has a defined outcome (see
    /// `spec_class_file`): no method handle in its constant pool has a
    /// broken target reference. `from_data` may be called where it has.
    pub fn can_parse(data: &[u8]) -> (res: bool)
        requires
            data@.len() + 4 <= usize::MAX,
        ensures
            res == spec_class_file(data@) is Some,
    {
        proof {
            lemma_class_file_defined(data@);
        }
        let mut reader = FileData::new(data);
        let magic = match lift(reader.read_u32_be()) {
            Ok(m) => m,
            Err(_) => return true,
        };
        if magic != CLASS_MAGIC {
            return true;
        }
        if lift(reader.read_u16_be()).is_err() {
            return true;
        }
        if lift(reader.read_u16_be()).is_err() {
            return true;
        }
        constant_pool_checkable(&mut reader)
    }

    /// Parses a class file. Bytes after the last attribute are ignored.
    pub fn from_data(data: Vec<u8>) -> (res: Result<Self, Error>)
        requires
            data@.len() + 4 <= usize::MAX,
            spec_class_file(data@) is Some,
        ensures
            match res {
                Ok(c) => spec_class_file(data@) == Some(Ok::<SpecClassFile, Error>(c@)),
                Err(e) => spec_class_file(data@) == Some(Err::<SpecClassFile, Error>(e)),
            },
    {
        let mut reader = FileData::new(data.as_slice());
        let magic = lift(reader.read_u32_be())?;
        if magic != CLASS_MAGIC {
            return Err(Error::InvalidMagic);
        }
        let _minor_version = lift(reader.read_u16_be())?;
        let _major_version = lift(reader.read_u16_be())?;
        let constant_pool = read_constant_pool(&mut reader)?;
        let flags = lift(reader.read_u16_be())?;
        let this_class = read_class_name(&mut reader, &constant_pool)?;
        let super_class_idx = lift(reader.read_u16_be())?;
        let super_class = if super_class_idx == 0 {
            None
        } else {
            Some(constant_pool.get_class(super_class_idx)?)
        };
        let interfaces = read_interfaces(&mut reader, &constant_pool)?;
        let fields = read_fields(&mut reader, &constant_pool)?;
        let methods = read_methods(&mut reader, &constant_pool)?;
        let attribute_count = lift(reader.read_u16_be())?;
        let attributes = read_attributes(&mut reader, &constant_pool, attribute_count)?;
        Ok(ClassFile {
            constant_pool,
            flags,
            this_class,
            super_class,
            interfaces,
            fields,
            methods,
            attributes,
        })
    }

    /// The constant pool.
    pub fn constant_pool(&self) -> (res: &ConstantPool)
        ensures
            res@ == self@.constant_pool,
    {
        &self.constant_pool
    }

    /// The access flags, as read.
    pub fn flags(&self) -> (res: u16)
        ensures
            res == self@.flags,
    {
        self.flags
    }

    /// The name of this class.
    pub fn this_class(&self) -> (res: JvmString)
        ensures
            res@ == self@.this_class,
    {
        self.this_class.duplicate()
    }

    /// The name of the superclass, if there is one.
    pub fn super_class(&self) -> (res: Option<JvmString>)
        ensures
            match res {
                Some(s) => self@.super_class == Some(s@),
                None => self@.super_class is None,
            },
    {
        match &self.super_class {
            Some(s) => Some(s.duplicate()),
            None => None,
        }
    }

    /// The names of the interfaces this class implements.
    pub fn interfaces(&self) -> (res: &[JvmString])
        ensures
            strings_view(res@) == self@.interfaces,
    {
        self.interfaces.as_slice()
    }

    /// The fields.
    pub fn fields(&self) -> (res: &[Field])
        ensures
            fields_view(res@) == self@.fields,
    {
        self.fields.as_slice()
    }

    /// The methods.
    pub fn methods(&self) -> (res: &[Method])
        ensures
            methods_view(res@) == self@.methods,
    {
        self.methods.as_slice()
    }

    /// The attributes.
    pub fn attributes(&self) -> (res: &[Attribute])
        ensures
            attributes_view(res@) == self@.attributes,
    {
        self.attributes.as_slice()
    }
}

} // verus!
