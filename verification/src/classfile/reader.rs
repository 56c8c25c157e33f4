//! A big-endian read cursor that reports class-file errors.
use vstd::prelude::*;
use vstd::utf8::{decode_utf8, valid_utf8};

use super::error::Error;
use crate::reader::{be_u16_at, be_u32_at};
use crate::string::string_from_utf8;

verus! {

/// A read cursor over the bytes of a class file.
pub struct FileData<'a> {
    data: &'a [u8],
    position: usize,
}

impl<'a> FileData<'a> {
    /// The bytes being read.
    pub closed spec fn bytes(&self) -> Seq<u8> {
        self.data@
    }

    /// The cursor position.
    pub closed spec fn pos(&self) -> int {
        self.position as int
    }

    /// A cursor at the start of `data`.
    pub fn new(data: &'a [u8]) -> (res: Self)
        ensures
            res.bytes() == data@,
            res.pos() == 0,
    {
        FileData { data, position: 0 }
    }

    /// The cursor position.
    pub fn position(&self) -> (res: usize)
        ensures
            res == self.pos(),
    {
        self.position
    }

    /// Reads one byte; the cursor moves by one either way.
    pub fn read_u8(&mut self) -> (res: Result<u8, Error>)
        requires
            old(self).pos() + 1 <= usize::MAX,
        ensures
            final(self).bytes() == old(self).bytes(),
            final(self).pos() == old(self).pos() + 1,
            old(self).pos() < old(self).bytes().len() ==> res == Ok::<u8, Error>(
                old(self).bytes()[old(self).pos()],
            ),
            old(self).pos() >= old(self).bytes().len() ==> res == Err::<u8, Error>(
                Error::EndOfFile,
            ),
    {
        let pos = self.position;
        self.position = self.position + 1;
        if self.position > self.data.len() {
            Err(Error::EndOfFile)
        } else {
            Ok(self.data[pos])
        }
    }

    /// Reads a big-endian `u16`.
    pub fn read_u16(&mut self) -> (res: Result<u16, Error>)
        requires
            old(self).pos() + 2 <= usize::MAX,
        ensures
            final(self).bytes() == old(self).bytes(),
            old(self).pos() + 2 <= old(self).bytes().len() ==> res == Ok::<u16, Error>(
                be_u16_at(old(self).bytes(), old(self).pos()),
            ) && final(self).pos() == old(self).pos() + 2,
            old(self).pos() + 2 > old(self).bytes().len() ==> res == Err::<u16, Error>(
                Error::EndOfFile,
            ),
    {
        let a = self.read_u8()?;
        let b = self.read_u8()?;
        Ok((a as u16) * 0x100 + (b as u16))
    }

    /// Reads a big-endian `u32`.
    pub fn read_u32(&mut self) -> (res: Result<u32, Error>)
        requires
            old(self).pos() + 4 <= usize::MAX,
        ensures
            final(self).bytes() == old(self).bytes(),
            old(self).pos() + 4 <= old(self).bytes().len() ==> res == Ok::<u32, Error>(
                be_u32_at(old(self).bytes(), old(self).pos()),
            ) && final(self).pos() == old(self).pos() + 4,
            old(self).pos() + 4 > old(self).bytes().len() ==> res == Err::<u32, Error>(
                Error::EndOfFile,
            ),
    {
        let a = self.read_u8()?;
        let b = self.read_u8()?;
        let c = self.read_u8()?;
        let d = self.read_u8()?;
        Ok((a as u32) * 0x1000000 + (b as u32) * 0x10000 + (c as u32) * 0x100 + (d as u32))
    }

    /// Reads `count` bytes.
    pub fn read_bytes(&mut self, count: usize) -> (res: Result<Vec<u8>, Error>)
        requires
            old(self).pos() + 1 <= usize::MAX,
            old(self).pos() <= old(self).bytes().len(),
        ensures
            final(self).bytes() == old(self).bytes(),
            old(self).pos() + count <= old(self).bytes().len() ==> (res matches Ok(v) && v@
                == old(self).bytes().subrange(old(self).pos(), old(self).pos() + count)
                && final(self).pos() == old(self).pos() + count),
            old(self).pos() + count > old(self).bytes().len() ==> res == Err::<Vec<u8>, Error>(
                Error::EndOfFile,
            ) && final(self).pos() == old(self).bytes().len(),
    {
        let mut bytes: Vec<u8> = Vec::new();
        let ghost start = self.position as int;
        let mut i: usize = 0;
        while i < count
            invariant
                self.bytes() == old(self).bytes(),
                start == old(self).pos(),
                0 <= i <= count,
                self.pos() == start + i,
                start + i <= self.bytes().len(),
                bytes@ == self.bytes().subrange(start, start + i),
            decreases count - i,
        {
            if self.position == self.data.len() {
                return Err(Error::EndOfFile);
            }
            let b = self.read_u8()?;
            bytes.push(b);
            i = i + 1;
            assert(bytes@ =~= self.bytes().subrange(start, start + i));
        }
        Ok(bytes)
    }

    /// Reads `length` bytes and decodes them as UTF-8.
    pub fn read_string(&mut self, length: usize) -> (res: Result<String, Error>)
        requires
            old(self).pos() + 1 <= usize::MAX,
            old(self).pos() <= old(self).bytes().len(),
        ensures
            final(self).bytes() == old(self).bytes(),
            old(self).pos() + length > old(self).bytes().len() ==> res == Err::<String, Error>(
                Error::EndOfFile,
            ),
            old(self).pos() + length <= old(self).bytes().len() ==> {
                let bytes = old(self).bytes().subrange(old(self).pos(), old(self).pos() + length);
                &&& valid_utf8(bytes) ==> (res matches Ok(s) && s@ == decode_utf8(bytes))
                &&& !valid_utf8(bytes) ==> res == Err::<String, Error>(Error::InvalidString)
            },
    {
        let bytes = self.read_bytes(length)?;
        match string_from_utf8(bytes) {
            Some(s) => Ok(s),
            None => Err(Error::InvalidString),
        }
    }
}

} // verus!
