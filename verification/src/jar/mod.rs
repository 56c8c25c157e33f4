//! JAR archives: zip files holding classes and resources.
pub mod read_zip;

use vstd::prelude::*;
use vstd::utf8::encode_utf8;

use crate::reader::ReadError;
use read_zip::{spec_read_file, spec_zip_records, FileRecord, SpecZipFile, ZipFile};

verus! {

/// A JAR file. Only stored and deflate-compressed entries can be read.
pub struct Jar {
    jar_file: ZipFile,
}

impl View for Jar {
    type V = SpecZipFile;

    closed spec fn view(&self) -> SpecZipFile {
        self.jar_file@
    }
}

impl Jar {
    /// Reads the central directory of the JAR in `bytes`.
    pub fn from_bytes(bytes: Vec<u8>) -> (res: Result<Self, ReadError>)
        requires
            bytes@.len() >= 0x16,
            bytes@.len() + 0x10000 <= usize::MAX,
            spec_zip_records(bytes@) is Some,
        ensures
            match res {
                Ok(j) => j@.data == bytes@ && spec_zip_records(bytes@) == Some(
                    Ok::<Map<Seq<u8>, FileRecord>, ReadError>(j@.records),
                ),
                Err(e) => spec_zip_records(bytes@) == Some(Err::<Map<Seq<u8>, FileRecord>, ReadError>(e)),
            },
    {
        let jar_file = ZipFile::new(bytes)?;
        Ok(Jar { jar_file })
    }

    /// Whether the JAR holds a file named `file_name`.
    pub fn has_file(&self, file_name: &String) -> (res: bool)
        ensures
            res == self@.records.contains_key(encode_utf8(file_name@)),
    {
        self.jar_file.has_file(file_name)
    }

    /// Whether reading the file named `file_name` has a defined outcome (see
    /// `ZipFile::can_read_file`); `read_file` may be called where it has.
    pub fn can_read_file(&self, file_name: &String) -> (res: bool)
        ensures
            res == spec_read_file(self@, encode_utf8(file_name@)) is Some,
    {
        self.jar_file.can_read_file(file_name)
    }

    /// Reads the file named `file_name`. The name is used as given, with no
    /// normalization as a path.
    pub fn read_file(&self, file_name: String) -> (res: Result<Vec<u8>, ()>)
        requires
            spec_read_file(self@, encode_utf8(file_name@)) is Some,
        ensures
            match res {
                Ok(v) => spec_read_file(self@, encode_utf8(file_name@)) == Some(Ok::<Seq<u8>, ()>(v@)),
                Err(_) => spec_read_file(self@, encode_utf8(file_name@)) == Some(Err::<Seq<u8>, ()>(())),
            },
    {
        self.jar_file.read_file(&file_name)
    }
}

} // verus!
