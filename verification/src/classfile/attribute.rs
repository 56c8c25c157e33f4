//! Attributes: a name from the constant pool and an uninterpreted payload.
use vstd::prelude::*;

use super::constant_pool::{cursor_ok, spec_get_utf8, ConstantPool, SpecEntry};
use super::error::{lift, lift_read, Error};
use super::outcome::Outcome;
use crate::reader::{spec_bytes, spec_u16_be, spec_u32_be, FileData};
use crate::string::JvmString;

verus! {

/// The value of an attribute.
pub struct SpecAttribute {
    pub name: Seq<char>,
    pub data: Seq<u8>,
}

/// Reading an attribute at `p`: the index of its name in the pool, its
/// length as a `u32`, then that many bytes.
pub open spec fn spec_read_attribute(pool: Seq<SpecEntry>, d: Seq<u8>, p: int) -> Outcome<SpecAttribute> {
    match lift_read(spec_u16_be(d, p)) {
        Err(e) => Some(Err(e)),
        Ok((name_idx, p1)) => match spec_get_utf8(pool, name_idx) {
            None => None,
            Some(Err(e)) => Some(Err(e)),
            Some(Ok(name)) => match lift_read(spec_u32_be(d, p1)) {
                Err(e) => Some(Err(e)),
                Ok((length, p2)) => match lift_read(spec_bytes(d, p2, length as int)) {
                    Err(e) => Some(Err(e)),
                    Ok((bytes, p3)) => Some(Ok((SpecAttribute { name, data: bytes }, p3))),
                },
            },
        },
    }
}

/// The attribute-reading step over a given pool.
pub open spec fn attribute_step(pool: Seq<SpecEntry>) -> spec_fn(Seq<u8>, int) -> Outcome<SpecAttribute> {
    |d: Seq<u8>, p: int| spec_read_attribute(pool, d, p)
}

/// An attribute of a class, field or method.
#[derive(Debug)]
pub struct Attribute {
    name: JvmString,
    data: Vec<u8>,
}

impl View for Attribute {
    type V = SpecAttribute;

    closed spec fn view(&self) -> SpecAttribute {
        SpecAttribute { name: self.name@, data: self.data@ }
    }
}

/// The values of a list of attributes.
pub open spec fn attributes_view(attrs: Seq<Attribute>) -> Seq<SpecAttribute> {
    attrs.map_values(|a: Attribute| a@)
}

impl Attribute {
    /// Reads an attribute whose name is looked up in `constant_pool`.
    pub fn read_from(data: &mut FileData<'_>, constant_pool: &ConstantPool) -> (res: Result<Self, Error>)
        requires
            cursor_ok(old(data)),
            spec_read_attribute(constant_pool@, old(data).bytes(), old(data).pos()) is Some,
        ensures
            final(data).bytes() == old(data).bytes(),
            res is Ok ==> cursor_ok(final(data)),
            match res {
                Ok(a) => spec_read_attribute(constant_pool@, old(data).bytes(), old(data).pos()) == Some(
                    Ok::<(SpecAttribute, int), Error>((a@, final(data).pos())),
                ),
                Err(e) => spec_read_attribute(constant_pool@, old(data).bytes(), old(data).pos()) == Some(
                    Err::<(SpecAttribute, int), Error>(e),
                ),
            },
    {
        let name_idx = lift(data.read_u16_be())?;
        let name = constant_pool.get_utf8(name_idx)?;
        let length = lift(data.read_u32_be())?;
        let bytes = lift(data.read_bytes(length as usize))?;
        Ok(Attribute { name, data: bytes })
    }

    /// The attribute's name.
    pub fn name(&self) -> (res: JvmString)
        ensures
            res@ == self@.name,
    {
        self.name.duplicate()
    }

    /// The attribute's payload.
    pub fn data(&self) -> (res: &[u8])
        ensures
            res@ == self@.data,
    {
        self.data.as_slice()
    }

    /// A second attribute equal to this one.
    pub fn duplicate(&self) -> (res: Self)
        ensures
            res@ == self@,
    {
        Attribute { name: self.name.duplicate(), data: self.data.clone() }
    }
}

impl Clone for Attribute {
    fn clone(&self) -> (res: Self)
        ensures
            res@ == self@,
    {
        self.duplicate()
    }
}

/// Reads `count` attributes in a row.
pub fn read_attributes(data: &mut FileData<'_>, constant_pool: &ConstantPool, count: u16) -> (res: Result<Vec<Attribute>, Error>)
    requires
        cursor_ok(old(data)),
        super::outcome::spec_repeat(count as nat, old(data).bytes(), old(data).pos(), Seq::empty(), attribute_step(constant_pool@)) is Some,
    ensures
        final(data).bytes() == old(data).bytes(),
        res is Ok ==> cursor_ok(final(data)),
        match res {
            Ok(v) => super::outcome::spec_repeat(count as nat, old(data).bytes(), old(data).pos(), Seq::empty(), attribute_step(constant_pool@)) == Some(
                Ok::<(Seq<SpecAttribute>, int), Error>((attributes_view(v@), final(data).pos())),
            ),
            Err(e) => super::outcome::spec_repeat(count as nat, old(data).bytes(), old(data).pos(), Seq::empty(), attribute_step(constant_pool@)) == Some(
                Err::<(Seq<SpecAttribute>, int), Error>(e),
            ),
        },
{
    let ghost d = data.bytes();
    let ghost step = attribute_step(constant_pool@);
    let ghost whole = super::outcome::spec_repeat(count as nat, d, data.pos(), Seq::empty(), step);
    let mut list: Vec<Attribute> = Vec::new();
    let mut i: u16 = 0;
    assert(attributes_view(list@) =~= Seq::<SpecAttribute>::empty());
    while i < count
        invariant
            data.bytes() == d,
            d == old(data).bytes(),
            step == attribute_step(constant_pool@),
            whole == super::outcome::spec_repeat(count as nat, d, old(data).pos(), Seq::empty(), step),
            whole is Some,
            cursor_ok(data),
            0 <= i <= count,
            whole == super::outcome::spec_repeat((count - i) as nat, d, data.pos(), attributes_view(list@), step),
        decreases count - i,
    {
        assert(step(d, data.pos()) == spec_read_attribute(constant_pool@, d, data.pos()));
        let a = Attribute::read_from(data, constant_pool)?;
        let ghost before = attributes_view(list@);
        let ghost av = a@;
        list.push(a);
        assert(attributes_view(list@) =~= before.push(av));
        i = i + 1;
    }
    Ok(list)
}

} // verus!
