//! A cursor over a byte slice that reads big- and little-endian integers.
use vstd::prelude::*;
use vstd::utf8::{decode_utf8, valid_utf8};

use crate::string::string_from_utf8;

verus! {

/// Big-endian `u16` stored at `data[pos..pos + 2]`.
pub open spec fn be_u16_at(data: Seq<u8>, pos: int) -> u16 {
    (data[pos] * 0x100 + data[pos + 1]) as u16
}

/// Big-endian `u32` stored at `data[pos..pos + 4]`.
pub open spec fn be_u32_at(data: Seq<u8>, pos: int) -> u32 {
    (data[pos] * 0x1000000 + data[pos + 1] * 0x10000 + data[pos + 2] * 0x100 + data[pos + 3]) as u32
}

/// Little-endian `u16` stored at `data[pos..pos + 2]`.
pub open spec fn le_u16_at(data: Seq<u8>, pos: int) -> u16 {
    (data[pos] + data[pos + 1] * 0x100) as u16
}

/// Little-endian `u32` stored at `data[pos..pos + 4]`.
pub open spec fn le_u32_at(data: Seq<u8>, pos: int) -> u32 {
    (data[pos] + data[pos + 1] * 0x100 + data[pos + 2] * 0x10000 + data[pos + 3] * 0x1000000) as u32
}

/// Where the cursor stands after a fixed-width read ran out of data: every
/// byte read moves it by one, and the read stops at the first byte that is
/// missing.
pub open spec fn failed_read_pos(len: int, pos: int) -> int {
    if pos >= len {
        pos + 1
    } else {
        len + 1
    }
}

/// What reading one byte at `pos` gives: the byte and the next position.
pub open spec fn spec_u8(data: Seq<u8>, pos: int) -> Result<(u8, int), ReadError> {
    if 0 <= pos < data.len() {
        Ok((data[pos], pos + 1))
    } else {
        Err(ReadError::EndOfFile)
    }
}

/// What reading a big-endian `u16` at `pos` gives.
pub open spec fn spec_u16_be(data: Seq<u8>, pos: int) -> Result<(u16, int), ReadError> {
    if 0 <= pos && pos + 2 <= data.len() {
        Ok((be_u16_at(data, pos), pos + 2))
    } else {
        Err(ReadError::EndOfFile)
    }
}

/// What reading a big-endian `u32` at `pos` gives.
pub open spec fn spec_u32_be(data: Seq<u8>, pos: int) -> Result<(u32, int), ReadError> {
    if 0 <= pos && pos + 4 <= data.len() {
        Ok((be_u32_at(data, pos), pos + 4))
    } else {
        Err(ReadError::EndOfFile)
    }
}

/// What reading a little-endian `u16` at `pos` gives.
pub open spec fn spec_u16_le(data: Seq<u8>, pos: int) -> Result<(u16, int), ReadError> {
    if 0 <= pos && pos + 2 <= data.len() {
        Ok((le_u16_at(data, pos), pos + 2))
    } else {
        Err(ReadError::EndOfFile)
    }
}

/// What reading a little-endian `u32` at `pos` gives.
pub open spec fn spec_u32_le(data: Seq<u8>, pos: int) -> Result<(u32, int), ReadError> {
    if 0 <= pos && pos + 4 <= data.len() {
        Ok((le_u32_at(data, pos), pos + 4))
    } else {
        Err(ReadError::EndOfFile)
    }
}

/// What reading `count` bytes at `pos` gives.
pub open spec fn spec_bytes(data: Seq<u8>, pos: int, count: int) -> Result<(Seq<u8>, int), ReadError> {
    if 0 <= pos && 0 <= count && pos + count <= data.len() {
        Ok((data.subrange(pos, pos + count), pos + count))
    } else {
        Err(ReadError::EndOfFile)
    }
}

/// What reading a UTF-8 string of `length` bytes at `pos` gives.
pub open spec fn spec_string(data: Seq<u8>, pos: int, length: int) -> Result<(Seq<char>, int), ReadError> {
    match spec_bytes(data, pos, length) {
        Ok((bytes, next)) => if valid_utf8(bytes) {
            Ok((decode_utf8(bytes), next))
        } else {
            Err(ReadError::InvalidString)
        },
        Err(e) => Err(e),
    }
}

/// A read's result and the cursor's new position agree with what the
/// specification of the read gives.
pub open spec fn read_agrees<T>(res: Result<T, ReadError>, new_pos: int, spec: Result<(T, int), ReadError>) -> bool {
    match res {
        Ok(v) => spec == Ok::<(T, int), ReadError>((v, new_pos)),
        Err(e) => spec == Err::<(T, int), ReadError>(e),
    }
}

/// The errors a read can end in.
#[derive(Debug, Clone, Copy, PartialEq, Eq, Structural)]
pub enum ReadError {
    EndOfFile,
    InvalidMagic,
    InvalidString,
}

/// A read cursor over borrowed bytes.
pub struct FileData<'a> {
    data: &'a [u8],
    position: usize,
}

impl<'a> FileData<'a> {
    /// The bytes being read.
    pub closed spec fn bytes(&self) -> Seq<u8> {
        self.data@
    }

    /// The cursor position.
    pub closed spec fn pos(&self) -> int {
        self.position as int
    }

    /// A cursor at the start of `data`.
    pub fn new(data: &'a [u8]) -> (res: Self)
        ensures
            res.bytes() == data@,
            res.pos() == 0,
    {
        FileData { data, position: 0 }
    }

    /// The number of bytes being read.
    pub fn len(&self) -> (res: usize)
        ensures
            res == self.bytes().len(),
    {
        self.data.len()
    }

    /// The cursor position.
    pub fn position(&self) -> (res: usize)
        ensures
            res == self.pos(),
    {
        self.position
    }

    /// Reads one byte. The cursor moves by one whether or not a byte was there.
    pub fn read_u8(&mut self) -> (res: Result<u8, ReadError>)
        requires
            old(self).pos() + 1 <= usize::MAX,
        ensures
            read_agrees(res, final(self).pos(), spec_u8(old(self).bytes(), old(self).pos())),
            final(self).bytes() == old(self).bytes(),
            final(self).pos() == old(self).pos() + 1,
            old(self).pos() < old(self).bytes().len() ==> res == Ok::<u8, ReadError>(
                old(self).bytes()[old(self).pos()],
            ),
            old(self).pos() >= old(self).bytes().len() ==> res == Err::<u8, ReadError>(
                ReadError::EndOfFile,
            ),
    {
        let pos = self.position;
        self.position = self.position + 1;
        if self.position > self.data.len() {
            Err(ReadError::EndOfFile)
        } else {
            Ok(self.data[pos])
        }
    }

    /// Reads a big-endian `u16`.
    pub fn read_u16_be(&mut self) -> (res: Result<u16, ReadError>)
        requires
            old(self).pos() + 2 <= usize::MAX,
        ensures
            read_agrees(res, final(self).pos(), spec_u16_be(old(self).bytes(), old(self).pos())),
            final(self).bytes() == old(self).bytes(),
            old(self).pos() + 2 <= old(self).bytes().len() ==> res == Ok::<u16, ReadError>(
                be_u16_at(old(self).bytes(), old(self).pos()),
            ) && final(self).pos() == old(self).pos() + 2,
            old(self).pos() + 2 > old(self).bytes().len() ==> res == Err::<u16, ReadError>(
                ReadError::EndOfFile,
            ) && final(self).pos() == failed_read_pos(old(self).bytes().len() as int, old(self).pos()),
    {
        let a = self.read_u8()?;
        let b = self.read_u8()?;
        Ok((a as u16) * 0x100 + (b as u16))
    }

    /// Reads a big-endian `u32`.
    pub fn read_u32_be(&mut self) -> (res: Result<u32, ReadError>)
        requires
            old(self).pos() + 4 <= usize::MAX,
        ensures
            read_agrees(res, final(self).pos(), spec_u32_be(old(self).bytes(), old(self).pos())),
            final(self).bytes() == old(self).bytes(),
            old(self).pos() + 4 <= old(self).bytes().len() ==> res == Ok::<u32, ReadError>(
                be_u32_at(old(self).bytes(), old(self).pos()),
            ) && final(self).pos() == old(self).pos() + 4,
            old(self).pos() + 4 > old(self).bytes().len() ==> res == Err::<u32, ReadError>(
                ReadError::EndOfFile,
            ) && final(self).pos() == failed_read_pos(old(self).bytes().len() as int, old(self).pos()),
    {
        let a = self.read_u8()?;
        let b = self.read_u8()?;
        let c = self.read_u8()?;
        let d = self.read_u8()?;
        Ok((a as u32) * 0x1000000 + (b as u32) * 0x10000 + (c as u32) * 0x100 + (d as u32))
    }

    /// Reads a little-endian `u16`.
    pub fn read_u16_le(&mut self) -> (res: Result<u16, ReadError>)
        requires
            old(self).pos() + 2 <= usize::MAX,
        ensures
            read_agrees(res, final(self).pos(), spec_u16_le(old(self).bytes(), old(self).pos())),
            final(self).bytes() == old(self).bytes(),
            old(self).pos() + 2 <= old(self).bytes().len() ==> res == Ok::<u16, ReadError>(
                le_u16_at(old(self).bytes(), old(self).pos()),
            ) && final(self).pos() == old(self).pos() + 2,
            old(self).pos() + 2 > old(self).bytes().len() ==> res == Err::<u16, ReadError>(
                ReadError::EndOfFile,
            ) && final(self).pos() == failed_read_pos(old(self).bytes().len() as int, old(self).pos()),
    {
        let a = self.read_u8()?;
        let b = self.read_u8()?;
        Ok((a as u16) + (b as u16) * 0x100)
    }

    /// Reads a little-endian `u32`.
    pub fn read_u32_le(&mut self) -> (res: Result<u32, ReadError>)
        requires
            old(self).pos() + 4 <= usize::MAX,
        ensures
            read_agrees(res, final(self).pos(), spec_u32_le(old(self).bytes(), old(self).pos())),
            final(self).bytes() == old(self).bytes(),
            old(self).pos() + 4 <= old(self).bytes().len() ==> res == Ok::<u32, ReadError>(
                le_u32_at(old(self).bytes(), old(self).pos()),
            ) && final(self).pos() == old(self).pos() + 4,
            old(self).pos() + 4 > old(self).bytes().len() ==> res == Err::<u32, ReadError>(
                ReadError::EndOfFile,
            ) && final(self).pos() == failed_read_pos(old(self).bytes().len() as int, old(self).pos()),
    {
        let a = self.read_u8()?;
        let b = self.read_u8()?;
        let c = self.read_u8()?;
        let d = self.read_u8()?;
        Ok((a as u32) + (b as u32) * 0x100 + (c as u32) * 0x10000 + (d as u32) * 0x1000000)
    }

    /// Reads `count` bytes. When fewer remain, the cursor stops at the end of
    /// the data (or one past where it stood, if it already stood past it).
    /// Reading no bytes always succeeds.
    pub fn read_bytes(&mut self, count: usize) -> (res: Result<Vec<u8>, ReadError>)
        requires
            old(self).pos() + 1 <= usize::MAX,
        ensures
            old(self).pos() <= old(self).bytes().len() ==> match res {
                Ok(v) => spec_bytes(old(self).bytes(), old(self).pos(), count as int) == Ok::<
                    (Seq<u8>, int),
                    ReadError,
                >((v@, final(self).pos())),
                Err(e) => spec_bytes(old(self).bytes(), old(self).pos(), count as int) == Err::<
                    (Seq<u8>, int),
                    ReadError,
                >(e),
            },
            final(self).bytes() == old(self).bytes(),
            ({
                let len = old(self).bytes().len() as int;
                let pos = old(self).pos();
                if count == 0 {
                    res matches Ok(v) && v@.len() == 0 && final(self).pos() == pos
                } else if pos + count <= len {
                    res matches Ok(v) && v@ == old(self).bytes().subrange(pos, pos + count)
                        && final(self).pos() == pos + count
                } else {
                    res == Err::<Vec<u8>, ReadError>(ReadError::EndOfFile) && final(self).pos()
                        == (if pos <= len { len } else { pos + 1 })
                }
            }),
    {
        let mut bytes: Vec<u8> = Vec::new();
        let ghost start = self.position as int;
        let mut i: usize = 0;
        while i < count
            invariant
                self.bytes() == old(self).bytes(),
                start == old(self).pos(),
                start + 1 <= usize::MAX,
                0 <= i <= count,
                bytes@.len() == i,
                start <= self.bytes().len() ==> self.pos() == start + i && start + i
                    <= self.bytes().len() && bytes@ == self.bytes().subrange(start, start + i),
                start > self.bytes().len() ==> i == 0 && self.pos() == start,
            decreases count - i,
        {
            if self.position == self.data.len() {
                return Err(ReadError::EndOfFile);
            }
            let b = self.read_u8()?;
            bytes.push(b);
            i = i + 1;
            assert(bytes@ =~= self.bytes().subrange(start, start + i));
        }
        Ok(bytes)
    }

    /// Reads `length` bytes and decodes them as UTF-8.
    pub fn read_string(&mut self, length: usize) -> (res: Result<String, ReadError>)
        requires
            old(self).pos() + 1 <= usize::MAX,
            old(self).pos() <= old(self).bytes().len(),
        ensures
            final(self).bytes() == old(self).bytes(),
            match res {
                Ok(s) => spec_string(old(self).bytes(), old(self).pos(), length as int) == Ok::<
                    (Seq<char>, int),
                    ReadError,
                >((s@, final(self).pos())),
                Err(e) => spec_string(old(self).bytes(), old(self).pos(), length as int) == Err::<
                    (Seq<char>, int),
                    ReadError,
                >(e),
            },
    {
        let bytes = self.read_bytes(length)?;
        match string_from_utf8(bytes) {
            Some(s) => Ok(s),
            None => Err(ReadError::InvalidString),
        }
    }

    /// Moves the cursor to `position`, which must lie inside the data.
    pub fn seek(&mut self, position: usize) -> (res: Result<(), ReadError>)
        ensures
            final(self).bytes() == old(self).bytes(),
            position < old(self).bytes().len() ==> res == Ok::<(), ReadError>(()) && final(self).pos() == position,
            position >= old(self).bytes().len() ==> res == Err::<(), ReadError>(
                ReadError::EndOfFile,
            ) && final(self).pos() == old(self).pos(),
    {
        if position >= self.data.len() {
            return Err(ReadError::EndOfFile);
        }
        self.position = position;
        Ok(())
    }
}

} // verus!
