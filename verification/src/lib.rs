//! Decoder for the binary layout of ROOT container files: the file header,
//! the directory of key records, and the compressed payload of each key.

use vstd::prelude::*;

pub mod endian;
pub mod entry;
pub mod inflate;
pub mod layout;
pub mod stream;
pub mod text;

use crate::endian::{be32, be_offset, offset_width};
use crate::entry::RootKey;
use crate::layout::{
    file_is_wide, file_offsets_wide, file_status, follows, header_len, header_status,
    key_advances, key_nbytes, lemma_scan_chain, lemma_scan_order, lemma_scan_reaches_end,
    scan_gap, scan_offsets, scan_status, MAGIC_0, MAGIC_1, MAGIC_2, MAGIC_3, UUID_LEN,
    VER_THRESHOLD,
};
use crate::stream::ByteStream;
use crate::text::{pascal_bytes, pascal_end, pascal_fits, text_of, utf8_lossy};

verus! {

/// The I/O error type of the standard library, carried through unopened.
#[verifier::external_type_specification]
#[verifier::external_body]
pub struct ExIoError(std::io::Error);

/// Why an operation of this crate failed.
#[derive(Debug)]
pub enum RootIoError {
    /// The bytes are not a consistent file of this format.
    InvalidFormatError,
    /// The data is understood, but no decoder for it exists here.
    Unimplemented(String),
    /// The byte stream ended early, or a decoder fed from it failed.
    IOError(std::io::Error),
}

impl From<std::io::Error> for RootIoError {
    /// An I/O error of the standard library is an I/O failure here.
    fn from(e: std::io::Error) -> (r: RootIoError) {
        RootIoError::IOError(e)
    }
}

impl vstd::std_specs::convert::FromSpecImpl<std::io::Error> for RootIoError {
    open spec fn obeys_from_spec() -> bool {
        true
    }

    open spec fn from_spec(e: std::io::Error) -> RootIoError {
        RootIoError::IOError(e)
    }
}

/// How an operation ended, without the payload of success or failure.
pub enum Outcome {
    Accepted,
    BadFormat,
    Io,
    NotImplemented,
}

/// The `Outcome` that a result stands for.
pub open spec fn outcome_of<T>(r: Result<T, RootIoError>) -> Outcome {
    match r {
        Ok(_) => Outcome::Accepted,
        Err(RootIoError::InvalidFormatError) => Outcome::BadFormat,
        Err(RootIoError::IOError(_)) => Outcome::Io,
        Err(RootIoError::Unimplemented(_)) => Outcome::NotImplemented,
    }
}

/// Reads a seek offset: eight bytes when `cond`, else four bytes extended
/// with zeros. Either way the bytes are big-endian.
pub fn read_as_u64(cond: bool, reader: &mut ByteStream) -> (r: Result<u64, RootIoError>)
    ensures
        final(reader).bytes() == old(reader).bytes(),
        match r {
            Ok(v) => {
                &&& crate::endian::offset_width(cond) <= old(reader).remaining()
                &&& v == be_offset(old(reader).bytes(), old(reader).offset() as int, cond)
                &&& final(reader).offset() == old(reader).offset() + crate::endian::offset_width(cond)
            },
            Err(e) => {
                &&& crate::endian::offset_width(cond) > old(reader).remaining()
                &&& e is IOError
                &&& final(reader).offset() == old(reader).offset()
            },
        },
{
    if cond {
        reader.read_u64()
    } else {
        let v = reader.read_u32()?;
        Ok(v as u64)
    }
}

/// Reads a text field: one length byte, then that many bytes, decoded as
/// UTF-8 with a replacement character for each malformed sequence.
///
/// Fails only when the stream ends before the field does.
pub fn read_string(reader: &mut ByteStream) -> (r: Result<String, RootIoError>)
    ensures
        final(reader).bytes() == old(reader).bytes(),
        match r {
            Ok(s) => {
                &&& pascal_fits(old(reader).bytes(), old(reader).offset() as int)
                &&& s@ == text_of(pascal_bytes(old(reader).bytes(), old(reader).offset() as int))
                &&& final(reader).offset() == pascal_end(old(reader).bytes(), old(reader).offset() as int)
            },
            Err(e) => {
                &&& !pascal_fits(old(reader).bytes(), old(reader).offset() as int)
                &&& e is IOError
            },
        },
{
    let len = reader.read_u8()?;
    let vec = reader.read_exact(len as usize)?;
    Ok(utf8_lossy(vec.as_slice()))
}

/// The fixed fields that open a file.
#[derive(Debug)]
pub struct FileHeader {
    /// Version of the file format; it decides the width of the seek offsets.
    pub version: u32,
    /// Offset of the first key record.
    pub begin: u64,
    /// Offset at which the key records end.
    pub end: u64,
    /// Offset of the list of free segments.
    pub seek_free: u64,
    /// Size in bytes of the list of free segments.
    pub nbytes_free: u32,
    /// Number of free segments.
    pub nfree: u32,
    /// Size in bytes of the name section.
    pub nbytes_name: u32,
    /// The units byte.
    pub units: u8,
    /// Code of the compression mode.
    pub compress: u32,
    /// Offset of the streamer information.
    pub seek_info: u64,
    /// Size in bytes of the streamer information.
    pub nbytes_info: u32,
    /// Identifier of the file.
    pub uuid: [u8; 18],
}

impl FileHeader {
    /// Whether this header is the one that `data` encodes at offset `at`.
    pub open spec fn decodes(&self, data: Seq<u8>, at: int) -> bool {
        let wide = file_is_wide(data, at);
        let w = offset_width(wide);
        &&& self.version == be32(data, at + 4)
        &&& self.begin == be32(data, at + 8)
        &&& self.end == be_offset(data, at + 12, wide)
        &&& self.seek_free == be_offset(data, at + 12 + w, wide)
        &&& self.nbytes_free == be32(data, at + 12 + 2 * w)
        &&& self.nfree == be32(data, at + 16 + 2 * w)
        &&& self.nbytes_name == be32(data, at + 20 + 2 * w)
        &&& self.units == data[at + 24 + 2 * w]
        &&& self.compress == be32(data, at + 25 + 2 * w)
        &&& self.seek_info == be_offset(data, at + 29 + 2 * w, wide)
        &&& self.nbytes_info == be32(data, at + 29 + 3 * w)
        &&& self.uuid@ == data.subrange(at + 33 + 3 * w, at + header_len(wide))
    }

    /// Parses the header that starts where the stream stands.
    ///
    /// The first four bytes must be the magic tag. The version that follows
    /// them decides whether `end`, `seek_free` and `seek_info` take four bytes
    /// or eight. On success the stream stands behind the header.
    pub fn read(reader: &mut ByteStream) -> (r: Result<FileHeader, RootIoError>)
        ensures
            final(reader).bytes() == old(reader).bytes(),
            outcome_of(r) == header_status(old(reader).bytes(), old(reader).offset() as int),
            r matches Ok(header) ==> {
                &&& header.decodes(old(reader).bytes(), old(reader).offset() as int)
                &&& final(reader).offset() == old(reader).offset() + header_len(
                    header.version >= VER_THRESHOLD,
                )
            },
    {
        let magic = reader.read_exact(4)?;
        if magic[0] != MAGIC_0 || magic[1] != MAGIC_1 || magic[2] != MAGIC_2 || magic[3]
            != MAGIC_3 {
            return Err(RootIoError::InvalidFormatError);
        }
        let version = reader.read_u32()?;
        let begin = reader.read_u32()?;
        let wide = file_offsets_wide(version);
        let end = read_as_u64(wide, reader)?;
        let seek_free = read_as_u64(wide, reader)?;
        let nbytes_free = reader.read_u32()?;
        let nfree = reader.read_u32()?;
        let nbytes_name = reader.read_u32()?;
        let units = reader.read_u8()?;
        let compress = reader.read_u32()?;
        let seek_info = read_as_u64(wide, reader)?;
        let nbytes_info = reader.read_u32()?;
        let id = reader.read_exact(UUID_LEN)?;
        let mut uuid = [0u8;18];
        let mut i: usize = 0;
        while i < UUID_LEN
            invariant
                i <= UUID_LEN,
                id@.len() == UUID_LEN,
                forall|j: int| 0 <= j < i ==> uuid@[j] == id@[j],
            decreases UUID_LEN - i,
        {
            uuid[i] = id[i];
            i = i + 1;
        }
        assert(uuid@ =~= id@);
        Ok(
            FileHeader {
                version,
                begin: begin as u64,
                end,
                seek_free,
                nbytes_free,
                nfree,
                nbytes_name,
                units,
                compress,
                seek_info,
                nbytes_info,
                uuid,
            },
        )
    }
}

/// The offsets at which the records of `keys` begin, in order.
pub open spec fn begins(keys: Seq<RootKey>) -> Seq<int> {
    Seq::new(keys.len(), |i: int| keys[i].begin as int)
}

/// Whether `keys` is the directory that `data` holds between `begin` and
/// `end`: one record for each step of the walk, in the order of the walk,
/// each decoded from the bytes at its offset.
pub open spec fn lists(keys: Seq<RootKey>, data: Seq<u8>, begin: int, end: int) -> bool {
    &&& begins(keys) == scan_offsets(data, begin, end)
    &&& all_decode(keys, data)
}

/// Whether each record of `keys` is the one that `data` encodes at the
/// record's own offset.
pub open spec fn all_decode(keys: Seq<RootKey>, data: Seq<u8>) -> bool {
    forall|i: int|
        0 <= i < keys.len() ==> (#[trigger] keys[i]).decodes(data, keys[i].begin as int)
            && keys[i].valid()
}

/// One step of the walk: a record appended to the directory so far.
proof fn lemma_walk_step(
    keys: Seq<RootKey>,
    key: RootKey,
    data: Seq<u8>,
    begin: int,
    end: int,
    step: int,
)
    requires
        key.begin < end,
        key_advances(data, key.begin as int),
        key.nbytes == key_nbytes(data, key.begin as int),
        key.decodes(data, key.begin as int),
        key.valid(),
        all_decode(keys, data),
        scan_offsets(data, begin, end) == begins(keys) + scan_offsets(data, key.begin as int, end),
        step == key.begin + key.nbytes || (step >= end && key.begin + key.nbytes >= end),
    ensures
        all_decode(keys.push(key), data),
        scan_status(data, key.begin as int, end) == scan_status(data, step, end),
        scan_offsets(data, begin, end) == begins(keys.push(key)) + scan_offsets(data, step, end),
{
    let next = key.begin + key.nbytes;
    assert(scan_offsets(data, key.begin as int, end) == seq![key.begin as int] + scan_offsets(
        data,
        next,
        end,
    ));
    assert(scan_offsets(data, step, end) == scan_offsets(data, next, end));
    assert(scan_status(data, step, end) == scan_status(data, next, end));
    assert(begins(keys.push(key)) =~= begins(keys) + seq![key.begin as int]);
    assert(begins(keys.push(key)) + scan_offsets(data, step, end) =~= begins(keys) + scan_offsets(
        data,
        key.begin as int,
        end,
    ));
    assert forall|i: int| 0 <= i < keys.push(key).len() implies (#[trigger] keys.push(
        key,
    )[i]).decodes(data, keys.push(key)[i].begin as int) && keys.push(key)[i].valid() by {
        if i < keys.len() {
            assert(keys.push(key)[i] == keys[i]);
        }
    }
}

/// In a directory scanned from `begin` up to `end`, the records begin at
/// strictly increasing offsets from `begin` on, all before `end`, and each
/// begins where the one before it ends. Where the scan succeeds, the last
/// record is the first whose end reaches `end`.
pub proof fn lemma_directory_order(keys: Seq<RootKey>, data: Seq<u8>, begin: int, end: int)
    requires
        lists(keys, data, begin, end),
    ensures
        keys.len() > 0 ==> keys[0].begin == begin,
        forall|i: int| 0 <= i < keys.len() ==> begin <= (#[trigger] keys[i]).begin < end,
        forall|i: int|
            0 <= i < keys.len() - 1 ==> (#[trigger] keys[i]).begin + keys[i].nbytes == keys[i
                + 1].begin,
        forall|i: int, j: int|
            0 <= i < j < keys.len() ==> (#[trigger] keys[i]).begin < (#[trigger] keys[j]).begin,
        scan_status(data, begin, end) == Outcome::Accepted ==> {
            &&& begin < end ==> keys.len() > 0
            &&& keys.len() > 0 ==> keys.last().begin + keys.last().nbytes >= end
        },
{
    let offsets = scan_offsets(data, begin, end);
    lemma_scan_order(data, begin, end);
    lemma_scan_chain(data, begin, end);
    assert forall|i: int| 0 <= i < keys.len() implies (#[trigger] keys[i]).begin == offsets[i]
        && keys[i].nbytes == key_nbytes(data, offsets[i]) by {
        assert(begins(keys)[i] == keys[i].begin);
    }
    assert forall|i: int| 0 <= i < keys.len() - 1 implies (#[trigger] keys[i]).begin
        + keys[i].nbytes == keys[i + 1].begin by {
        assert(follows(data, offsets, i));
        assert(begins(keys)[i + 1] == keys[i + 1].begin);
    }
    if scan_status(data, begin, end) == Outcome::Accepted {
        lemma_scan_reaches_end(data, begin, end);
    }
}

/// Walks the directory from `begin` up to `end` and returns its records in
/// the order of the walk.
///
/// While the walk is before `end`, the record at its place is parsed and
/// appended, and the walk moves on by the size that the record reports. A
/// record of size zero would hold the walk in place and is malformed. The
/// first record that fails to parse fails the walk in the same way.
pub fn scan_keys(reader: &mut ByteStream, begin: u64, end: u64) -> (r: Result<
    Vec<RootKey>,
    RootIoError,
>)
    ensures
        final(reader).bytes() == old(reader).bytes(),
        outcome_of(r) == scan_status(old(reader).bytes(), begin as int, end as int),
        r matches Ok(keys) ==> lists(keys@, old(reader).bytes(), begin as int, end as int),
{
    let ghost data = reader.bytes();
    let mut pointer = begin;
    let mut keys: Vec<RootKey> = Vec::new();
    assert(begins(keys@) + scan_offsets(data, pointer as int, end as int) =~= scan_offsets(
        data,
        begin as int,
        end as int,
    ));
    while pointer < end
        invariant
            old(reader).bytes() == data,
            reader.bytes() == data,
            scan_status(data, begin as int, end as int) == scan_status(
                data,
                pointer as int,
                end as int,
            ),
            scan_offsets(data, begin as int, end as int) == begins(keys@) + scan_offsets(
                data,
                pointer as int,
                end as int,
            ),
            all_decode(keys@, data),
        decreases scan_gap(pointer as int, end as int),
    {
        let key = RootKey::new(reader, pointer)?;
        assert(key.begin == pointer);
        if key.nbytes == 0 {
            return Err(RootIoError::InvalidFormatError);
        }
        // A record that reaches past the last offset there is ends the walk.
        let step = if key.begin > u64::MAX - key.nbytes as u64 {
            end
        } else {
            key.next_position()
        };
        let ghost grown = keys@.push(key);
        proof {
            lemma_walk_step(keys@, key, data, begin as int, end as int, step as int);
        }
        keys.push(key);
        assert(keys@ == grown);
        pointer = step;
    }
    assert(begins(keys@) =~= scan_offsets(data, begin as int, end as int));
    Ok(keys)
}

/// An open file: its header, its directory, and the stream they were read
/// from.
#[derive(Debug)]
pub struct RootFile {
    reader: ByteStream,
    header: FileHeader,
    keys: Vec<RootKey>,
}

impl RootFile {
    /// The directory is the one that the stream holds between the header's
    /// `begin` and `end`.
    #[verifier::type_invariant]
    spec fn inv(&self) -> bool {
        lists(self.keys@, self.reader.bytes(), self.header.begin as int, self.header.end as int)
    }

    /// Whether the directory is the one that the stream holds between the
    /// header's `begin` and `end`. This holds of every file.
    pub open spec fn wf(&self) -> bool {
        lists(
            self.entries(),
            self.source().bytes(),
            self.head().begin as int,
            self.head().end as int,
        )
    }

    /// The stream that the file was opened on.
    pub closed spec fn source(&self) -> ByteStream {
        self.reader
    }

    /// The header of the file.
    pub closed spec fn head(&self) -> FileHeader {
        self.header
    }

    /// The directory of the file, in the order of the scan.
    pub closed spec fn entries(&self) -> Seq<RootKey> {
        self.keys@
    }

    /// Opens the file whose header starts where `reader` stands.
    ///
    /// After the header, the directory is walked from the header's `begin`:
    /// while the walk is before `end`, the record at its place is parsed and
    /// appended, and the walk moves on by the size that the record reports. A
    /// record of size zero would hold the walk in place and is malformed.
    /// The first failure, of the header or of any record, fails the whole
    /// call.
    pub fn new(reader: ByteStream) -> (r: Result<RootFile, RootIoError>)
        ensures
            outcome_of(r) == file_status(reader.bytes(), reader.offset() as int),
            r matches Ok(file) ==> {
                &&& file.source().bytes() == reader.bytes()
                &&& file.head().decodes(reader.bytes(), reader.offset() as int)
                &&& file.wf()
            },
    {
        let mut reader = reader;
        let header = FileHeader::read(&mut reader)?;
        let keys = scan_keys(&mut reader, header.begin, header.end)?;
        Ok(RootFile { reader, header, keys })
    }

    /// Whether the file stores its seek offsets in 64 bits.
    pub fn is_large_file(&self) -> (large: bool)
        ensures
            large == (self.head().version >= VER_THRESHOLD),
    {
        self.header.version >= VER_THRESHOLD
    }

    /// The header of the file.
    pub fn header(&self) -> (header: &FileHeader)
        ensures
            *header == self.head(),
    {
        &self.header
    }

    /// The directory of the file, in the order of the scan.
    pub fn keys(&self) -> (keys: &Vec<RootKey>)
        ensures
            keys@ == self.entries(),
            self.wf(),
    {
        proof {
            use_type_invariant(self);
        }
        &self.keys
    }

    /// Gives up the file for its parts, so that payloads can be read: the
    /// stream, the header and the directory.
    pub fn into_parts(self) -> (parts: (ByteStream, FileHeader, Vec<RootKey>))
        ensures
            parts.0 == self.source(),
            parts.1 == self.head(),
            parts.2@ == self.entries(),
            self.wf(),
    {
        proof {
            use_type_invariant(&self);
        }
        (self.reader, self.header, self.keys)
    }
}

} // verus!
