//! Reading the central directory of a zip archive and the files it lists.
use vstd::prelude::*;
use vstd::utf8::encode_utf8;

use crate::reader::{le_u16_at, le_u32_at, FileData, ReadError};

verus! {

/// End-of-central-directory magic.
pub const EOCD_MAGIC: u32 = 0x06054b50;

/// Central-directory file-header magic.
pub const CDFH_MAGIC: u32 = 0x02014b50;

/// Local file-header magic.
pub const LFH_MAGIC: u32 = 0x04034b50;

/// What the central directory says of one file.
#[derive(Debug, Clone, Copy, PartialEq, Eq, Structural)]
pub struct FileRecord {
    /// Which compression method the file's data uses.
    pub compression_method: usize,
    /// The size of the file's data as stored.
    pub compressed_size: usize,
    /// Where the file's local header starts.
    pub header_position: usize,
    /// The size of the file's local header.
    pub local_file_header_size: usize,
}

// ---------------------------------------------------------------------------
// The record table: a hash map from file names to records
// ---------------------------------------------------------------------------

/// The central-directory records of an archive, by file name.
#[verifier::external_body]
pub struct RecordTable {
    map: hashbrown::HashMap<Vec<u8>, FileRecord>,
}

/// The records a table holds, by file name.
pub uninterp spec fn table_contents(table: RecordTable) -> Map<Seq<u8>, FileRecord>;

/// No records.
pub open spec fn empty_records() -> Map<Seq<u8>, FileRecord> {
    Map::empty()
}

/// An empty table with room for `capacity` records.
///
/// Trusted: calls `hashbrown::HashMap::with_capacity`, which creates an empty
/// map.
#[verifier::external_body]
fn table_with_capacity(capacity: usize) -> (res: RecordTable)
    ensures
        table_contents(res) == empty_records(),
{
    RecordTable { map: hashbrown::HashMap::with_capacity(capacity) }
}

/// Maps `name` to `record`, replacing any record the name had.
///
/// Trusted: calls `hashbrown::HashMap::insert`, which stores the value under
/// the key and replaces the value of an equal key already present.
#[verifier::external_body]
fn table_insert(table: &mut RecordTable, name: Vec<u8>, record: FileRecord)
    ensures
        table_contents(*final(table)) == table_contents(*old(table)).insert(name@, record),
{
    table.map.insert(name, record);
}

/// The record of `name`, if the table holds one.
///
/// Trusted: calls `hashbrown::HashMap::get`, which returns the value stored
/// under a key equal to `name` (byte-wise equal, for byte vectors).
#[verifier::external_body]
fn table_get(table: &RecordTable, name: &[u8]) -> (res: Option<FileRecord>)
    ensures
        res == (if table_contents(*table).contains_key(name@) {
            Some(table_contents(*table)[name@])
        } else {
            None
        }),
{
    table.map.get(name).copied()
}

/// Whether the table holds a record for `name`.
///
/// Trusted: calls `hashbrown::HashMap::contains_key`, which reports whether a
/// key equal to `name` is stored.
#[verifier::external_body]
fn table_contains(table: &RecordTable, name: &[u8]) -> (res: bool)
    ensures
        res == table_contents(*table).contains_key(name@),
{
    table.map.contains_key(name)
}

// ---------------------------------------------------------------------------
// Decompression
// ---------------------------------------------------------------------------

/// What inflating raw DEFLATE data gives: the decompressed bytes, or `None`
/// for data that is not a valid DEFLATE stream.
pub uninterp spec fn inflate_result(data: Seq<u8>) -> Option<Seq<u8>>;

/// Inflates raw DEFLATE data.
///
/// Trusted: calls `miniz_oxide::inflate::decompress_to_vec`, whose result
/// depends on its input alone; its error is turned into `None`.
#[verifier::external_body]
fn inflate(data: &[u8]) -> (res: Option<Vec<u8>>)
    ensures
        match res {
            Some(v) => inflate_result(data@) == Some(v@),
            None => inflate_result(data@) is None,
        },
{
    miniz_oxide::inflate::decompress_to_vec(data).ok()
}

// ---------------------------------------------------------------------------
// The format
// ---------------------------------------------------------------------------

/// Reading the end-of-central-directory record, which is taken to be the
/// last 22 bytes (no archive comment): the number of records and the
/// offset of the first.
pub open spec fn spec_read_eocd(d: Seq<u8>) -> Result<(usize, usize), ReadError> {
    let p = d.len() - 0x16;
    if le_u32_at(d, p) != EOCD_MAGIC {
        Err(ReadError::InvalidMagic)
    } else {
        Ok((le_u16_at(d, p + 10) as usize, le_u32_at(d, p + 16) as usize))
    }
}

/// Reading one central-directory record at `p`: the name, the record, and
/// the position after it. `None` stands for a record whose name and extra
/// field are together longer than 65505 bytes, where the local header size
/// does not fit in 16 bits.
pub open spec fn spec_read_record(d: Seq<u8>, p: int) -> Option<Result<(Seq<u8>, FileRecord, int), ReadError>> {
    if p + 4 > d.len() {
        Some(Err(ReadError::EndOfFile))
    } else if le_u32_at(d, p) != CDFH_MAGIC {
        Some(Err(ReadError::InvalidMagic))
    } else if p + 46 > d.len() {
        Some(Err(ReadError::EndOfFile))
    } else {
        let name_len = le_u16_at(d, p + 28) as int;
        let extra_len = le_u16_at(d, p + 30) as int;
        let comment_len = le_u16_at(d, p + 32) as int;
        let q = p + 46;
        if q + name_len > d.len() || q + name_len + extra_len > d.len() || q + name_len + extra_len
            + comment_len > d.len() {
            Some(Err(ReadError::EndOfFile))
        } else if 0x1e + name_len + extra_len > 0xffff {
            None
        } else {
            Some(
                Ok(
                    (
                        d.subrange(q, q + name_len),
                        FileRecord {
                            compression_method: le_u16_at(d, p + 10) as usize,
                            compressed_size: le_u32_at(d, p + 20) as usize,
                            header_position: le_u32_at(d, p + 42) as usize,
                            local_file_header_size: (0x1e + name_len + extra_len) as usize,
                        },
                        q + name_len + extra_len + comment_len,
                    ),
                ),
            )
        }
    }
}

/// Reading `n` records in a row at `p`, inserting each into `acc` by name
/// (a later record replaces an earlier one of the same name).
pub open spec fn spec_read_records_from(d: Seq<u8>, p: int, n: nat, acc: Map<Seq<u8>, FileRecord>) -> Option<
    Result<Map<Seq<u8>, FileRecord>, ReadError>,
>
    decreases n,
{
    if n == 0 {
        Some(Ok(acc))
    } else {
        match spec_read_record(d, p) {
            None => None,
            Some(Err(e)) => Some(Err(e)),
            Some(Ok((name, record, p1))) => spec_read_records_from(d, p1, (n - 1) as nat, acc.insert(name, record)),
        }
    }
}

/// Reading `count` records starting at `offset`.
pub open spec fn spec_read_records(d: Seq<u8>, count: usize, offset: usize) -> Option<
    Result<Map<Seq<u8>, FileRecord>, ReadError>,
> {
    if offset >= d.len() {
        Some(Err(ReadError::EndOfFile))
    } else {
        spec_read_records_from(d, offset as int, count as nat, Map::empty())
    }
}

/// Reading a whole archive's central directory.
pub open spec fn spec_zip_records(d: Seq<u8>) -> Option<Result<Map<Seq<u8>, FileRecord>, ReadError>> {
    match spec_read_eocd(d) {
        Err(e) => Some(Err(e)),
        Ok((count, offset)) => spec_read_records(d, count, offset),
    }
}

/// Reading the file that `record` describes: its local header must start
/// with the local-header magic, and its data follows the header.
/// Compression method 0 stores the data as is, 8 deflates it; for any
/// other method the outcome is `None` (not defined).
pub open spec fn spec_read_record_data(d: Seq<u8>, r: FileRecord) -> Option<Result<Seq<u8>, ()>> {
    let h = r.header_position as int;
    if h >= d.len() || h + 4 > d.len() {
        Some(Err(()))
    } else if le_u32_at(d, h) != LFH_MAGIC {
        Some(Err(()))
    } else {
        let s = h + r.local_file_header_size;
        if s >= d.len() || s + r.compressed_size > d.len() {
            Some(Err(()))
        } else {
            let raw = d.subrange(s, s + r.compressed_size);
            if r.compression_method == 0 {
                Some(Ok(raw))
            } else if r.compression_method == 8 {
                match inflate_result(raw) {
                    Some(v) => Some(Ok(v)),
                    None => Some(Err(())),
                }
            } else {
                None
            }
        }
    }
}

/// The value of an archive: its bytes and its records by name.
pub struct SpecZipFile {
    pub data: Seq<u8>,
    pub records: Map<Seq<u8>, FileRecord>,
}

/// Reading the file named `name` (as UTF-8 bytes) from an archive.
pub open spec fn spec_read_file(z: SpecZipFile, name: Seq<u8>) -> Option<Result<Seq<u8>, ()>> {
    if !z.records.contains_key(name) {
        Some(Err(()))
    } else {
        spec_read_record_data(z.data, z.records[name])
    }
}

// ---------------------------------------------------------------------------
// Reading, executably
// ---------------------------------------------------------------------------

/// Reads the end-of-central-directory record, taken to be the last 22 bytes.
pub fn read_eocd(reader: &mut FileData<'_>) -> (res: Result<(usize, usize), ReadError>)
    requires
        old(reader).bytes().len() >= 0x16,
        old(reader).bytes().len() + 4 <= usize::MAX,
    ensures
        final(reader).bytes() == old(reader).bytes(),
        res == spec_read_eocd(old(reader).bytes()),
        res is Ok ==> final(reader).pos() <= final(reader).bytes().len(),
{
    let len = reader.len();
    reader.seek(len - 0x16)?;
    let magic = reader.read_u32_le()?;
    if magic != EOCD_MAGIC {
        return Err(ReadError::InvalidMagic);
    }
    reader.read_u16_le()?;
    reader.read_u16_le()?;
    reader.read_u16_le()?;
    let records_count = reader.read_u16_le()?;
    reader.read_u32_le()?;
    let first_record_offset = reader.read_u32_le()?;
    Ok((records_count as usize, first_record_offset as usize))
}

/// Reads one central-directory record: the file's name and its record.
fn read_record(reader: &mut FileData<'_>) -> (res: Result<(Vec<u8>, FileRecord), ReadError>)
    requires
        old(reader).pos() <= old(reader).bytes().len(),
        old(reader).bytes().len() + 4 <= usize::MAX,
        spec_read_record(old(reader).bytes(), old(reader).pos()) is Some,
    ensures
        final(reader).bytes() == old(reader).bytes(),
        res is Ok ==> final(reader).pos() <= final(reader).bytes().len(),
        match res {
            Ok((name, record)) => spec_read_record(old(reader).bytes(), old(reader).pos()) == Some(
                Ok::<(Seq<u8>, FileRecord, int), ReadError>((name@, record, final(reader).pos())),
            ) && record.local_file_header_size <= 0xffff,
            Err(e) => spec_read_record(old(reader).bytes(), old(reader).pos()) == Some(
                Err::<(Seq<u8>, FileRecord, int), ReadError>(e),
            ),
        },
{
    let magic = reader.read_u32_le()?;
    if magic != CDFH_MAGIC {
        return Err(ReadError::InvalidMagic);
    }
    // Version made by, version needed to extract, flags
    reader.read_u16_le()?;
    reader.read_u16_le()?;
    reader.read_u16_le()?;
    let compression_method = reader.read_u16_le()?;
    // Last modification time and date, CRC-32
    reader.read_u16_le()?;
    reader.read_u16_le()?;
    reader.read_u32_le()?;
    let compressed_size = reader.read_u32_le()?;
    // Uncompressed size
    reader.read_u32_le()?;
    let name_length = reader.read_u16_le()?;
    let extra_field_length = reader.read_u16_le()?;
    let comment_length = reader.read_u16_le()?;
    // Disk number, internal and external file attributes
    reader.read_u16_le()?;
    reader.read_u16_le()?;
    reader.read_u32_le()?;
    let header_position = reader.read_u32_le()?;
    let file_name = reader.read_bytes(name_length as usize)?;
    reader.read_bytes(extra_field_length as usize)?;
    reader.read_bytes(comment_length as usize)?;
    let local_file_header_size: usize = 0x1e + name_length as usize + extra_field_length as usize;
    Ok(
        (
            file_name,
            FileRecord {
                compression_method: compression_method as usize,
                compressed_size: compressed_size as usize,
                header_position: header_position as usize,
                local_file_header_size,
            },
        ),
    )
}

/// Reads past one central-directory record: `Ok(true)` where it reads,
/// `Ok(false)` where reading it has no defined outcome (its local header
/// size does not fit in 16 bits), the error where it fails.
fn skip_record(reader: &mut FileData<'_>) -> (res: Result<bool, ReadError>)
    requires
        old(reader).pos() <= old(reader).bytes().len(),
        old(reader).bytes().len() + 4 <= usize::MAX,
    ensures
        final(reader).bytes() == old(reader).bytes(),
        res is Ok ==> final(reader).pos() <= final(reader).bytes().len(),
        match res {
            Ok(true) => spec_read_record(old(reader).bytes(), old(reader).pos()) matches Some(Ok((_, _, q)))
                && final(reader).pos() == q,
            Ok(false) => spec_read_record(old(reader).bytes(), old(reader).pos()) is None,
            Err(e) => spec_read_record(old(reader).bytes(), old(reader).pos()) == Some(
                Err::<(Seq<u8>, FileRecord, int), ReadError>(e),
            ),
        },
{
    let magic = reader.read_u32_le()?;
    if magic != CDFH_MAGIC {
        return Err(ReadError::InvalidMagic);
    }
    reader.read_u16_le()?;
    reader.read_u16_le()?;
    reader.read_u16_le()?;
    reader.read_u16_le()?;
    reader.read_u16_le()?;
    reader.read_u16_le()?;
    reader.read_u32_le()?;
    reader.read_u32_le()?;
    reader.read_u32_le()?;
    let name_length = reader.read_u16_le()?;
    let extra_field_length = reader.read_u16_le()?;
    let comment_length = reader.read_u16_le()?;
    reader.read_u16_le()?;
    reader.read_u16_le()?;
    reader.read_u32_le()?;
    reader.read_u32_le()?;
    reader.read_bytes(name_length as usize)?;
    reader.read_bytes(extra_field_length as usize)?;
    reader.read_bytes(comment_length as usize)?;
    Ok(0x1e + name_length as usize + extra_field_length as usize <= 0xffff)
}

/// Whether reading `n` records has a defined outcome does not depend on the
/// records already read.
proof fn lemma_records_defined(d: Seq<u8>, p: int, n: nat, a: Map<Seq<u8>, FileRecord>, b: Map<Seq<u8>, FileRecord>)
    ensures
        (spec_read_records_from(d, p, n, a) is Some) == (spec_read_records_from(d, p, n, b) is Some),
    decreases n,
{
    if n > 0 {
        if let Some(Ok((name, record, p1))) = spec_read_record(d, p) {
            lemma_records_defined(d, p1, (n - 1) as nat, a.insert(name, record), b.insert(name, record));
        }
    }
}

/// Reading `n + 1` records from `p` has a defined outcome when the first
/// fails, none when the first has none, and else as reading `n` from where
/// the first ends.
proof fn lemma_records_defined_step(d: Seq<u8>, p: int, n: nat)
    ensures
        spec_read_record(d, p) matches Some(Err(_)) ==> spec_read_records_from(d, p, n + 1, Map::empty()) is Some,
        spec_read_record(d, p) is None ==> spec_read_records_from(d, p, n + 1, Map::empty()) is None,
        spec_read_record(d, p) matches Some(Ok((_, _, q))) ==> (spec_read_records_from(d, p, n + 1, Map::empty()) is Some)
            == (spec_read_records_from(d, q, n, Map::empty()) is Some),
{
    if let Some(Ok((name, record, q))) = spec_read_record(d, p) {
        lemma_records_defined(d, q, n, Map::empty().insert(name, record), Map::empty());
    }
}

/// Reads past one of `n + 1` records still to read: `Ok(true)` where
/// reading all of them has a defined outcome just when reading the other `n`
/// does, `Ok(false)` where it has none, an error where it is defined.
fn skip_one_of(reader: &mut FileData<'_>, Ghost(n): Ghost<nat>) -> (res: Result<bool, ReadError>)
    requires
        old(reader).pos() <= old(reader).bytes().len(),
        old(reader).bytes().len() + 4 <= usize::MAX,
    ensures
        final(reader).bytes() == old(reader).bytes(),
        res is Ok ==> final(reader).pos() <= final(reader).bytes().len(),
        match res {
            Ok(true) => (spec_read_records_from(old(reader).bytes(), old(reader).pos(), n + 1, Map::empty()) is Some)
                == (spec_read_records_from(final(reader).bytes(), final(reader).pos(), n, Map::empty()) is Some),
            Ok(false) => spec_read_records_from(old(reader).bytes(), old(reader).pos(), n + 1, Map::empty()) is None,
            Err(_) => spec_read_records_from(old(reader).bytes(), old(reader).pos(), n + 1, Map::empty()) is Some,
        },
{
    proof {
        lemma_records_defined_step(reader.bytes(), reader.pos(), n);
    }
    skip_record(reader)
}

/// Whether reading the central directory of `data` has a defined outcome
/// (see `spec_zip_records`): no record's name and extra field are together
/// too long for the 16 bits of its local header size. `ZipFile::new` and
/// `Jar::from_bytes` may be called where it has.
pub fn records_readable(data: &[u8]) -> (res: bool)
    requires
        data@.len() >= 0x16,
        data@.len() + 4 <= usize::MAX,
    ensures
        res == spec_zip_records(data@) is Some,
{
    let ghost d = data@;
    let mut reader = FileData::new(data);
    let (count, offset) = match read_eocd(&mut reader) {
        Ok(v) => v,
        Err(_) => return true,
    };
    if reader.seek(offset).is_err() {
        return true;
    }
    let ghost defined = spec_zip_records(d) is Some;
    assert(defined == (spec_read_records_from(d, offset as int, count as nat, Map::empty()) is Some));
    let mut readable = true;
    let mut done = false;
    let mut i: usize = 0;
    while i < count && !done
        invariant
            reader.bytes() == d,
            d.len() + 4 <= usize::MAX,
            i <= count,
            done ==> readable == defined,
            !done ==> readable && reader.pos() <= d.len() && defined == (spec_read_records_from(
                d,
                reader.pos(),
                (count - i) as nat,
                Map::empty(),
            ) is Some),
        decreases count - i,
    {
        match skip_one_of(&mut reader, Ghost((count - i - 1) as nat)) {
            Ok(true) => {},
            Ok(false) => {
                readable = false;
                done = true;
            },
            Err(_) => {
                done = true;
            },
        }
        i = i + 1;
    }
    readable
}

/// Whether every record in a map has a local header size that fits in 16 bits.
pub open spec fn headers_fit(m: Map<Seq<u8>, FileRecord>) -> bool {
    forall|k: Seq<u8>| #[trigger] m.contains_key(k) ==> m[k].local_file_header_size <= 0xffff
}

/// Reads `records_count` central-directory records starting at
/// `first_record_offset`.
pub fn read_records(reader: &mut FileData<'_>, records_count: usize, first_record_offset: usize) -> (res: Result<RecordTable, ReadError>)
    requires
        old(reader).bytes().len() + 4 <= usize::MAX,
        spec_read_records(old(reader).bytes(), records_count, first_record_offset) is Some,
    ensures
        final(reader).bytes() == old(reader).bytes(),
        match res {
            Ok(t) => spec_read_records(old(reader).bytes(), records_count, first_record_offset) == Some(
                Ok::<Map<Seq<u8>, FileRecord>, ReadError>(table_contents(t)),
            ) && headers_fit(table_contents(t)),
            Err(e) => spec_read_records(old(reader).bytes(), records_count, first_record_offset) == Some(
                Err::<Map<Seq<u8>, FileRecord>, ReadError>(e),
            ),
        },
{
    let ghost d = reader.bytes();
    reader.seek(first_record_offset)?;
    let mut map = table_with_capacity(records_count);
    let mut i: usize = 0;
    while i < records_count
        invariant
            reader.bytes() == d,
            d == old(reader).bytes(),
            d.len() + 4 <= usize::MAX,
            reader.pos() <= d.len(),
            0 <= i <= records_count,
            first_record_offset < d.len(),
            spec_read_records(d, records_count, first_record_offset) is Some,
            spec_read_records(d, records_count, first_record_offset) == spec_read_records_from(
                d,
                reader.pos(),
                (records_count - i) as nat,
                table_contents(map),
            ),
            headers_fit(table_contents(map)),
        decreases records_count - i,
    {
        let (file_name, record) = read_record(reader)?;
        let ghost before = table_contents(map);
        table_insert(&mut map, file_name, record);
        assert forall|k: Seq<u8>| #[trigger] table_contents(map).contains_key(k) implies table_contents(map)[k].local_file_header_size <= 0xffff by {
            if k != file_name@ {
                assert(before.contains_key(k));
            }
        }
        i = i + 1;
    }
    Ok(map)
}

/// A zip archive with its central directory read.
pub struct ZipFile {
    data: Vec<u8>,
    records: RecordTable,
}

impl View for ZipFile {
    type V = SpecZipFile;

    closed spec fn view(&self) -> SpecZipFile {
        SpecZipFile { data: self.data@, records: table_contents(self.records) }
    }
}

impl ZipFile {
    #[verifier::type_invariant]
    closed spec fn sizes_fit(self) -> bool {
        &&& self.data@.len() + 0x10000 <= usize::MAX
        &&& headers_fit(table_contents(self.records))
    }

    /// Reads the central directory of the archive in `data`.
    pub fn new(data: Vec<u8>) -> (res: Result<Self, ReadError>)
        requires
            data@.len() >= 0x16,
            data@.len() + 0x10000 <= usize::MAX,
            spec_zip_records(data@) is Some,
        ensures
            match res {
                Ok(z) => z@.data == data@ && spec_zip_records(data@) == Some(
                    Ok::<Map<Seq<u8>, FileRecord>, ReadError>(z@.records),
                ),
                Err(e) => spec_zip_records(data@) == Some(Err::<Map<Seq<u8>, FileRecord>, ReadError>(e)),
            },
    {
        let records = {
            let mut reader = FileData::new(data.as_slice());
            let (records_count, first_record_offset) = read_eocd(&mut reader)?;
            read_records(&mut reader, records_count, first_record_offset)?
        };
        Ok(ZipFile { data, records })
    }

    /// Whether the archive lists a file named `file_name`.
    pub fn has_file(&self, file_name: &String) -> (res: bool)
        ensures
            res == self@.records.contains_key(encode_utf8(file_name@)),
    {
        table_contains(&self.records, file_name.as_str().as_bytes())
    }

    /// Whether reading the file named `file_name` has a defined outcome:
    /// the archive does not list it, or its local header or data cannot be
    /// read, or it is stored or deflated (the two compression methods the
    /// reader knows).
    pub fn can_read_file(&self, file_name: &String) -> (res: bool)
        ensures
            res == spec_read_file(self@, encode_utf8(file_name@)) is Some,
    {
        proof {
            use_type_invariant(self);
        }
        let record = match table_get(&self.records, file_name.as_str().as_bytes()) {
            Some(r) => r,
            None => return true,
        };
        let mut reader = FileData::new(self.data.as_slice());
        if reader.seek(record.header_position).is_err() {
            return true;
        }
        match reader.read_u32_le() {
            Ok(magic) => if magic != LFH_MAGIC {
                return true;
            },
            Err(_) => return true,
        }
        let seek_pos = record.header_position + record.local_file_header_size;
        if reader.seek(seek_pos).is_err() {
            return true;
        }
        if reader.read_bytes(record.compressed_size).is_err() {
            return true;
        }
        record.compression_method == 0 || record.compression_method == 8
    }

    /// Reads the file named `file_name`, inflating it if it is deflated.
    pub fn read_file(&self, file_name: &String) -> (res: Result<Vec<u8>, ()>)
        requires
            spec_read_file(self@, encode_utf8(file_name@)) is Some,
        ensures
            match res {
                Ok(v) => spec_read_file(self@, encode_utf8(file_name@)) == Some(Ok::<Seq<u8>, ()>(v@)),
                Err(e) => spec_read_file(self@, encode_utf8(file_name@)) == Some(Err::<Seq<u8>, ()>(())),
            },
    {
        proof {
            use_type_invariant(self);
        }
        let record = match table_get(&self.records, file_name.as_str().as_bytes()) {
            Some(r) => r,
            None => return Err(()),
        };
        let mut reader = FileData::new(self.data.as_slice());
        if reader.seek(record.header_position).is_err() {
            return Err(());
        }
        match reader.read_u32_le() {
            Ok(magic) => if magic != LFH_MAGIC {
                return Err(());
            },
            Err(_) => return Err(()),
        }
        let seek_pos = record.header_position + record.local_file_header_size;
        if reader.seek(seek_pos).is_err() {
            return Err(());
        }
        let raw_bytes = match reader.read_bytes(record.compressed_size) {
            Ok(b) => b,
            Err(_) => return Err(()),
        };
        if record.compression_method == 0 {
            Ok(raw_bytes)
        } else if record.compression_method == 8 {
            match inflate(raw_bytes.as_slice()) {
                Some(v) => Ok(v),
                None => Err(()),
            }
        } else {
            vstd::pervasive::unreached()
        }
    }
}

} // verus!
