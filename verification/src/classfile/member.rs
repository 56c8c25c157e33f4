//! Fields and methods of a class file. Both are laid out the same way: access
//! flags, a name, a descriptor, and a list of attributes.
use vstd::prelude::*;

use super::attribute::{attribute_step, attributes_view, read_attributes, Attribute, SpecAttribute};
use super::constant_pool::{cursor_ok, spec_get_utf8, ConstantPool, SpecEntry};
use super::error::{lift, lift_read, Error};
use super::outcome::{spec_repeat, Outcome};
use crate::reader::{spec_u16_be, FileData};
use crate::string::JvmString;

verus! {

/// The value of a field or method.
pub struct SpecMember {
    pub flags: u16,
    pub name: Seq<char>,
    pub descriptor: Seq<char>,
    pub attributes: Seq<SpecAttribute>,
}

/// Reading a field or method at `p`: access flags, name index, descriptor
/// index, attribute count, attributes.
pub open spec fn spec_read_member(pool: Seq<SpecEntry>, d: Seq<u8>, p: int) -> Outcome<SpecMember> {
    match lift_read(spec_u16_be(d, p)) {
        Err(e) => Some(Err(e)),
        Ok((flags, p1)) => match lift_read(spec_u16_be(d, p1)) {
            Err(e) => Some(Err(e)),
            Ok((name_idx, p2)) => match spec_get_utf8(pool, name_idx) {
                None => None,
                Some(Err(e)) => Some(Err(e)),
                Some(Ok(name)) => match lift_read(spec_u16_be(d, p2)) {
                    Err(e) => Some(Err(e)),
                    Ok((desc_idx, p3)) => match spec_get_utf8(pool, desc_idx) {
                        None => None,
                        Some(Err(e)) => Some(Err(e)),
                        Some(Ok(descriptor)) => match lift_read(spec_u16_be(d, p3)) {
                            Err(e) => Some(Err(e)),
                            Ok((count, p4)) => match spec_repeat(count as nat, d, p4, Seq::empty(), attribute_step(pool)) {
                                None => None,
                                Some(Err(e)) => Some(Err(e)),
                                Some(Ok((attributes, p5))) => Some(
                                    Ok((SpecMember { flags, name, descriptor, attributes }, p5)),
                                ),
                            },
                        },
                    },
                },
            },
        },
    }
}

/// The member-reading step over a given pool.
pub open spec fn member_step(pool: Seq<SpecEntry>) -> spec_fn(Seq<u8>, int) -> Outcome<SpecMember> {
    |d: Seq<u8>, p: int| spec_read_member(pool, d, p)
}

/// The parts that fields and methods share.
#[derive(Debug)]
struct MemberData {
    flags: u16,
    name: JvmString,
    descriptor: JvmString,
    attributes: Vec<Attribute>,
}

impl MemberData {
    closed spec fn spec_value(&self) -> SpecMember {
        SpecMember {
            flags: self.flags,
            name: self.name@,
            descriptor: self.descriptor@,
            attributes: attributes_view(self.attributes@),
        }
    }

    fn read_from(data: &mut FileData<'_>, constant_pool: &ConstantPool) -> (res: Result<Self, Error>)
        requires
            cursor_ok(old(data)),
            spec_read_member(constant_pool@, old(data).bytes(), old(data).pos()) is Some,
        ensures
            final(data).bytes() == old(data).bytes(),
            res is Ok ==> cursor_ok(final(data)),
            match res {
                Ok(m) => spec_read_member(constant_pool@, old(data).bytes(), old(data).pos()) == Some(
                    Ok::<(SpecMember, int), Error>((m.spec_value(), final(data).pos())),
                ),
                Err(e) => spec_read_member(constant_pool@, old(data).bytes(), old(data).pos()) == Some(
                    Err::<(SpecMember, int), Error>(e),
                ),
            },
    {
        let flags = lift(data.read_u16_be())?;
        let name_idx = lift(data.read_u16_be())?;
        let name = constant_pool.get_utf8(name_idx)?;
        let descriptor_idx = lift(data.read_u16_be())?;
        let descriptor = constant_pool.get_utf8(descriptor_idx)?;
        let attribute_count = lift(data.read_u16_be())?;
        let attributes = read_attributes(data, constant_pool, attribute_count)?;
        Ok(MemberData { flags, name, descriptor, attributes })
    }
}

/// A method of a class file.
#[derive(Debug)]
pub struct Method {
    data: MemberData,
}

/// A field of a class file.
#[derive(Debug)]
pub struct Field {
    data: MemberData,
}

impl View for Method {
    type V = SpecMember;

    closed spec fn view(&self) -> SpecMember {
        self.data.spec_value()
    }
}

impl View for Field {
    type V = SpecMember;

    closed spec fn view(&self) -> SpecMember {
        self.data.spec_value()
    }
}

impl Method {
    /// Reads a method whose names are looked up in `constant_pool`.
    pub fn read_from(data: &mut FileData<'_>, constant_pool: &ConstantPool) -> (res: Result<Self, Error>)
        requires
            cursor_ok(old(data)),
            spec_read_member(constant_pool@, old(data).bytes(), old(data).pos()) is Some,
        ensures
            final(data).bytes() == old(data).bytes(),
            res is Ok ==> cursor_ok(final(data)),
            match res {
                Ok(m) => spec_read_member(constant_pool@, old(data).bytes(), old(data).pos()) == Some(
                    Ok::<(SpecMember, int), Error>((m@, final(data).pos())),
                ),
                Err(e) => spec_read_member(constant_pool@, old(data).bytes(), old(data).pos()) == Some(
                    Err::<(SpecMember, int), Error>(e),
                ),
            },
    {
        let data = MemberData::read_from(data, constant_pool)?;
        Ok(Method { data })
    }

    /// The method's access flags, as read.
    pub fn flags(&self) -> (res: u16)
        ensures
            res == self@.flags,
    {
        self.data.flags
    }

    /// The method's name.
    pub fn name(&self) -> (res: JvmString)
        ensures
            res@ == self@.name,
    {
        self.data.name.duplicate()
    }

    /// The method's descriptor.
    pub fn descriptor(&self) -> (res: JvmString)
        ensures
            res@ == self@.descriptor,
    {
        self.data.descriptor.duplicate()
    }

    /// The method's attributes.
    pub fn attributes(&self) -> (res: &[Attribute])
        ensures
            attributes_view(res@) == self@.attributes,
    {
        self.data.attributes.as_slice()
    }
}

impl Field {
    /// Reads a field whose names are looked up in `constant_pool`.
    pub fn read_from(data: &mut FileData<'_>, constant_pool: &ConstantPool) -> (res: Result<Self, Error>)
        requires
            cursor_ok(old(data)),
            spec_read_member(constant_pool@, old(data).bytes(), old(data).pos()) is Some,
        ensures
            final(data).bytes() == old(data).bytes(),
            res is Ok ==> cursor_ok(final(data)),
            match res {
                Ok(m) => spec_read_member(constant_pool@, old(data).bytes(), old(data).pos()) == Some(
                    Ok::<(SpecMember, int), Error>((m@, final(data).pos())),
                ),
                Err(e) => spec_read_member(constant_pool@, old(data).bytes(), old(data).pos()) == Some(
                    Err::<(SpecMember, int), Error>(e),
                ),
            },
    {
        let data = MemberData::read_from(data, constant_pool)?;
        Ok(Field { data })
    }

    /// The field's access flags, as read.
    pub fn flags(&self) -> (res: u16)
        ensures
            res == self@.flags,
    {
        self.data.flags
    }

    /// The field's name.
    pub fn name(&self) -> (res: JvmString)
        ensures
            res@ == self@.name,
    {
        self.data.name.duplicate()
    }

    /// The field's descriptor.
    pub fn descriptor(&self) -> (res: JvmString)
        ensures
            res@ == self@.descriptor,
    {
        self.data.descriptor.duplicate()
    }

    /// The field's attributes.
    pub fn attributes(&self) -> (res: &[Attribute])
        ensures
            attributes_view(res@) == self@.attributes,
    {
        self.data.attributes.as_slice()
    }
}

} // verus!
