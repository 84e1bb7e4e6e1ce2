//! Key records: the directory entries of a file, and access to their payloads.

use vstd::prelude::*;
use crate::endian::{be16, be32, be_offset, offset_width};
use crate::layout::{
    key_class_at, key_is_wide, key_meta_at, key_name_at, key_offsets_wide, key_status,
    key_title_at, KEY_FIXED_LEN,
};
use crate::inflate::{decoded, inflate, inflated};
use crate::stream::{left_at, window, ByteStream};
use crate::text::{pascal_bytes, text_of};
use crate::{outcome_of, read_as_u64, read_string, Outcome, RootIoError};
use vstd::string::StringExecFns;

verus! {

/// How the payload of a key is stored.
#[derive(Debug, PartialEq, Eq, Structural)]
pub enum StreamKind {
    /// As it is, byte for byte.
    Uncompressed,
    /// DEFLATE behind the current framing, tagged `ZL`.
    ZlibNew,
    /// DEFLATE behind the older framing, tagged `CS`.
    ZlibOld,
    /// LZMA, tagged `XZ`.
    Lzma,
    /// Zstandard, tagged `ZS`.
    Zstd,
}

/// The bytes that open every compressed payload: two of magic, one version
/// tag, six more.
pub const HEADER_SIZE: usize = 9;

/// The letters of the codec tags, in ASCII.
pub const TAG_C: u8 = 0x43;

pub const TAG_L: u8 = 0x4c;

pub const TAG_S: u8 = 0x53;

pub const TAG_X: u8 = 0x58;

pub const TAG_Z: u8 = 0x5a;

/// The codec that a compression header announces, if it is one of the known
/// four: its first two bytes name the codec, and the third must carry the
/// version tag that belongs to it.
pub open spec fn header_kind(header: Seq<u8>) -> Option<StreamKind> {
    if header.len() < 3 {
        None
    } else if header[0] == TAG_Z && header[1] == TAG_L && header[2] == 8 {
        Some(StreamKind::ZlibNew)
    } else if header[0] == TAG_C && header[1] == TAG_S && header[2] == 8 {
        Some(StreamKind::ZlibOld)
    } else if header[0] == TAG_X && header[1] == TAG_Z && header[2] == 0 {
        Some(StreamKind::Lzma)
    } else if header[0] == TAG_Z && header[1] == TAG_S && header[2] == 0 {
        Some(StreamKind::Zstd)
    } else {
        None
    }
}

/// Names the codec of a compressed payload from its header.
///
/// `ZL` and `CS` must be followed by tag 8, `XZ` and `ZS` by tag 0. Any other
/// magic, a known magic with another tag, and a header of fewer than three
/// bytes are all malformed.
pub fn classify_header(header: &[u8]) -> (r: Result<StreamKind, RootIoError>)
    ensures
        match r {
            Ok(kind) => header_kind(header@) == Some(kind),
            Err(e) => header_kind(header@) is None && e is InvalidFormatError,
        },
{
    if header.len() < 3 {
        return Err(RootIoError::InvalidFormatError);
    }
    let magic = (header[0], header[1]);
    let tag = header[2];
    if magic.0 == TAG_Z && magic.1 == TAG_L {
        if tag != 8 {
            Err(RootIoError::InvalidFormatError)
        } else {
            Ok(StreamKind::ZlibNew)
        }
    } else if magic.0 == TAG_C && magic.1 == TAG_S {
        if tag != 8 {
            Err(RootIoError::InvalidFormatError)
        } else {
            Ok(StreamKind::ZlibOld)
        }
    } else if magic.0 == TAG_X && magic.1 == TAG_Z {
        if tag != 0 {
            Err(RootIoError::InvalidFormatError)
        } else {
            Ok(StreamKind::Lzma)
        }
    } else if magic.0 == TAG_Z && magic.1 == TAG_S {
        if tag != 0 {
            Err(RootIoError::InvalidFormatError)
        } else {
            Ok(StreamKind::Zstd)
        }
    } else {
        Err(RootIoError::InvalidFormatError)
    }
}

/// The bytes between a compression header and the DEFLATE stream proper.
pub open spec fn zlib_skip(kind: StreamKind) -> int {
    if kind is ZlibNew {
        2
    } else {
        0
    }
}

/// One directory entry: where a payload lies, how large it is, and what it
/// is called.
#[derive(Debug)]
pub struct RootKey {
    /// Offset of the first byte of this record.
    pub begin: u64,
    /// The bytes between the title and the payload, kept uninterpreted.
    pub meta_data: Vec<u8>,
    /// Offset of the first byte of the payload.
    pub obj_begin: u64,
    /// Size on disk of the whole record, metadata and payload.
    pub nbytes: u32,
    /// Version of the key format.
    pub version: u16,
    /// Size of the payload once decompressed.
    pub obj_len: u32,
    /// Time of the last modification.
    pub datime: u32,
    /// Size of the metadata block that precedes the payload.
    pub key_len: u16,
    /// Revision counter among keys of one name.
    pub cycle: u16,
    /// The offset that the record reports for itself.
    pub seek_key: u64,
    /// Offset of the parent directory's record.
    pub seek_pdir: u64,
    pub class_name: String,
    pub name: String,
    pub title: String,
}

impl RootKey {
    /// What every parsed record satisfies: it reports its own offset, and its
    /// payload follows its metadata block.
    pub open spec fn valid(&self) -> bool {
        &&& self.seek_key == self.begin
        &&& self.obj_begin == self.begin + self.key_len
    }

    /// Whether this record is the one that `data` encodes at offset `begin`.
    pub open spec fn decodes(&self, data: Seq<u8>, begin: int) -> bool {
        let wide = key_is_wide(data, begin);
        &&& self.begin == begin
        &&& self.nbytes == be32(data, begin)
        &&& self.version == be16(data, begin + 4)
        &&& self.obj_len == be32(data, begin + 6)
        &&& self.datime == be32(data, begin + 10)
        &&& self.key_len == be16(data, begin + 14)
        &&& self.cycle == be16(data, begin + 16)
        &&& self.seek_key == be_offset(data, begin + KEY_FIXED_LEN, wide)
        &&& self.seek_pdir == be_offset(data, begin + KEY_FIXED_LEN + offset_width(wide), wide)
        &&& self.class_name@ == text_of(pascal_bytes(data, key_class_at(data, begin)))
        &&& self.name@ == text_of(pascal_bytes(data, key_name_at(data, begin)))
        &&& self.title@ == text_of(pascal_bytes(data, key_title_at(data, begin)))
        &&& self.obj_begin == begin + self.key_len
        &&& self.meta_data@ == data.subrange(key_meta_at(data, begin), self.obj_begin as int)
    }

    /// Parses the key record that starts at offset `begin` of the stream.
    ///
    /// The record must report `begin` as its own offset, and its metadata
    /// block must be long enough for the fields found in it; otherwise the
    /// bytes are rejected as malformed. A stream that ends inside the block is
    /// an I/O failure. On success the stream stands at the payload.
    pub fn new(reader: &mut ByteStream, begin: u64) -> (r: Result<RootKey, RootIoError>)
        ensures
            final(reader).bytes() == old(reader).bytes(),
            outcome_of(r) == key_status(old(reader).bytes(), begin as int),
            r matches Ok(k) ==> {
                &&& k.decodes(old(reader).bytes(), begin as int)
                &&& k.valid()
                &&& final(reader).offset() == k.obj_begin
            },
    {
        reader.seek(begin);
        let nbytes = reader.read_u32()?;
        let version = reader.read_u16()?;
        let obj_len = reader.read_u32()?;
        let datime = reader.read_u32()?;
        let key_len = reader.read_u16()?;
        let cycle = reader.read_u16()?;
        let wide = key_offsets_wide(version, begin);
        let seek_key = read_as_u64(wide, reader)?;
        let seek_pdir = read_as_u64(wide, reader)?;
        if begin != seek_key {
            return Err(RootIoError::InvalidFormatError);
        }
        let class_name = read_string(reader)?;
        let name = read_string(reader)?;
        let title = read_string(reader)?;
        let meta_begin = reader.position();
        let used = meta_begin - begin;
        if (key_len as u64) < used {
            return Err(RootIoError::InvalidFormatError);
        }
        let meta_data = reader.read_exact((key_len as u64 - used) as usize)?;
        let obj_begin = reader.position();
        Ok(
            RootKey {
                begin,
                meta_data,
                obj_begin,
                nbytes,
                version,
                obj_len,
                datime,
                key_len,
                cycle,
                seek_key,
                seek_pdir,
                class_name,
                name,
                title,
            },
        )
    }

    /// Whether the payload is stored as it is: the record is then exactly as
    /// large as its metadata block and its payload together.
    pub open spec fn is_uncompressed(&self) -> bool {
        self.nbytes == self.obj_len + self.key_len
    }

    /// The compression header of the payload, where `data` holds all of it.
    pub open spec fn codec_header(&self, data: Seq<u8>) -> Seq<u8> {
        data.subrange(self.obj_begin as int, self.obj_begin + HEADER_SIZE)
    }

    /// How naming the codec of this key's payload ends.
    pub open spec fn codec_status(&self, data: Seq<u8>) -> Outcome {
        if self.is_uncompressed() {
            Outcome::Accepted
        } else if left_at(data, self.obj_begin as int) < HEADER_SIZE {
            Outcome::Io
        } else if header_kind(self.codec_header(data)) is None {
            Outcome::BadFormat
        } else {
            Outcome::Accepted
        }
    }

    /// The codec of this key's payload, where `codec_status` accepts it.
    pub open spec fn codec_kind(&self, data: Seq<u8>) -> StreamKind {
        if self.is_uncompressed() {
            StreamKind::Uncompressed
        } else {
            header_kind(self.codec_header(data)).unwrap()
        }
    }

    /// The number of compressed bytes that the record leaves for a DEFLATE
    /// stream of the given framing. Negative when the record is too small to
    /// hold even the header.
    pub open spec fn compressed_len(&self, kind: StreamKind) -> int {
        self.nbytes - self.key_len - HEADER_SIZE - zlib_skip(kind)
    }

    /// The bytes handed to the DEFLATE decoder: those after header and skip,
    /// up to the record's compressed length or the end of `data`.
    pub open spec fn compressed_input(&self, data: Seq<u8>, kind: StreamKind) -> Seq<u8> {
        window(data, self.obj_begin + HEADER_SIZE + zlib_skip(kind), self.compressed_len(kind))
    }

    /// How decoding this key's payload ends.
    pub open spec fn decode_status(&self, data: Seq<u8>) -> Outcome {
        if self.codec_status(data) != Outcome::Accepted {
            self.codec_status(data)
        } else {
            match self.codec_kind(data) {
                StreamKind::Uncompressed => Outcome::Accepted,
                StreamKind::Lzma | StreamKind::Zstd => Outcome::NotImplemented,
                kind => if self.compressed_len(kind) < 0 {
                    Outcome::BadFormat
                } else if inflated(self.compressed_input(data, kind)) is None {
                    Outcome::Io
                } else {
                    Outcome::Accepted
                },
            }
        }
    }

    /// The decoded payload of this key, where `decode_status` accepts it. A
    /// payload stored as it is yields at most `obj_len` bytes: fewer when
    /// `data` ends before that.
    pub open spec fn decoded_payload(&self, data: Seq<u8>) -> Seq<u8> {
        match self.codec_kind(data) {
            StreamKind::Uncompressed => window(data, self.obj_begin as int, self.obj_len as int),
            kind => inflated(self.compressed_input(data, kind)).unwrap(),
        }
    }

    /// Reads the `obj_len` bytes that start at the payload's offset, as they
    /// are on disk, whether or not the payload is compressed.
    ///
    /// Fails with an I/O error exactly when the stream holds fewer bytes
    /// there; the stream then stands at the payload's offset.
    pub fn read_raw_buffer(&self, reader: &mut ByteStream) -> (r: Result<Vec<u8>, RootIoError>)
        ensures
            final(reader).bytes() == old(reader).bytes(),
            match r {
                Ok(buf) => {
                    &&& self.obj_len <= left_at(old(reader).bytes(), self.obj_begin as int)
                    &&& buf@.len() == self.obj_len
                    &&& buf@ == window(
                        old(reader).bytes(),
                        self.obj_begin as int,
                        self.obj_len as int,
                    )
                    &&& final(reader).offset() == self.obj_begin + self.obj_len
                },
                Err(e) => {
                    &&& self.obj_len > left_at(old(reader).bytes(), self.obj_begin as int)
                    &&& e is IOError
                    &&& final(reader).offset() == self.obj_begin
                },
            },
    {
        reader.seek(self.obj_begin);
        reader.read_exact(self.obj_len as usize)
    }

    /// Names the codec of this key's payload.
    ///
    /// A record exactly as large as its metadata block and its payload
    /// together is stored as it is, and nothing is read. Otherwise the nine
    /// bytes at the payload's offset are read and classified by
    /// `classify_header`.
    ///
    /// The outcome depends on the key and on the bytes of the stream, never on
    /// where the stream stood. Whatever the outcome, the bytes are untouched
    /// and the stream stands at a known place: past the header if one was
    /// read, else at the payload's offset.
    pub fn detect_stream_kind(&self, reader: &mut ByteStream) -> (r: Result<
        StreamKind,
        RootIoError,
    >)
        ensures
            final(reader).bytes() == old(reader).bytes(),
            outcome_of(r) == self.codec_status(old(reader).bytes()),
            r matches Ok(kind) ==> kind == self.codec_kind(old(reader).bytes()),
            final(reader).offset() == if self.is_uncompressed() || left_at(
                old(reader).bytes(),
                self.obj_begin as int,
            ) < HEADER_SIZE {
                self.obj_begin as int
            } else {
                self.obj_begin + HEADER_SIZE
            },
    {
        reader.seek(self.obj_begin);
        if self.nbytes as u64 == self.obj_len as u64 + self.key_len as u64 {
            return Ok(StreamKind::Uncompressed);
        }
        let header = reader.read_exact(HEADER_SIZE)?;
        classify_header(header.as_slice())
    }

    /// Decodes the payload of this key.
    ///
    /// - Stored as it is: the bytes at the payload's offset, at most `obj_len`
    ///   of them.
    /// - DEFLATE in either framing: the compressed bytes start after the
    ///   header, and after two more bytes in the current framing; there are
    ///   `nbytes - key_len - 9` of them, less the two skipped. A record too
    ///   small for that is malformed. What the decoder makes of those bytes
    ///   is returned, whatever its length; a decoder error is an I/O failure.
    /// - LZMA and Zstandard are recognised, and reported as not implemented.
    pub fn decompress(&self, reader: &mut ByteStream) -> (r: Result<Vec<u8>, RootIoError>)
        ensures
            final(reader).bytes() == old(reader).bytes(),
            outcome_of(r) == self.decode_status(old(reader).bytes()),
            r matches Ok(out) ==> out@ == self.decoded_payload(old(reader).bytes()),
            r matches Err(RootIoError::Unimplemented(what)) ==> what@ == (if self.codec_kind(
                old(reader).bytes(),
            ) is Lzma {
                "Compression format Lzma"@
            } else {
                "Compression format Zstd"@
            }),
    {
        let kind = self.detect_stream_kind(reader)?;
        match kind {
            StreamKind::Uncompressed => {
                reader.seek(self.obj_begin);
                Ok(reader.take(self.obj_len as u64))
            },
            StreamKind::ZlibNew | StreamKind::ZlibOld => {
                let zlib_offset: u64 = match kind {
                    StreamKind::ZlibNew => 2,
                    _ => 0,
                };
                let framing = self.key_len as u64 + HEADER_SIZE as u64 + zlib_offset;
                if (self.nbytes as u64) < framing {
                    return Err(RootIoError::InvalidFormatError);
                }
                proof {
                    reader.lemma_len_fits();
                }
                let start = reader.position().saturating_add(zlib_offset);
                reader.seek(start);
                let content = reader.take(self.nbytes as u64 - framing);
                decoded(inflate(content.as_slice()))
            },
            StreamKind::Lzma => Err(
                RootIoError::Unimplemented(String::from_str("Compression format Lzma")),
            ),
            StreamKind::Zstd => Err(
                RootIoError::Unimplemented(String::from_str("Compression format Zstd")),
            ),
        }
    }

    /// Offset of the record that follows this one in the directory.
    pub fn next_position(&self) -> (next: u64)
        requires
            self.begin + self.nbytes <= u64::MAX,
        ensures
            next == self.begin + self.nbytes,
    {
        self.begin + self.nbytes as u64
    }
}

/// The table of codecs is closed: a header names a codec exactly when it
/// opens with one of the four tags followed by the version that belongs to
/// that tag. No header names a payload as stored as it is.
pub proof fn lemma_codec_table(header: Seq<u8>)
    ensures
        header_kind(header) == Some(StreamKind::ZlibNew) <==> header.len() >= 3 && header[0]
            == TAG_Z && header[1] == TAG_L && header[2] == 8,
        header_kind(header) == Some(StreamKind::ZlibOld) <==> header.len() >= 3 && header[0]
            == TAG_C && header[1] == TAG_S && header[2] == 8,
        header_kind(header) == Some(StreamKind::Lzma) <==> header.len() >= 3 && header[0]
            == TAG_X && header[1] == TAG_Z && header[2] == 0,
        header_kind(header) == Some(StreamKind::Zstd) <==> header.len() >= 3 && header[0]
            == TAG_Z && header[1] == TAG_S && header[2] == 0,
        header_kind(header) != Some(StreamKind::Uncompressed),
{
}

/// A key whose payload is found stored as it is has a record exactly as
/// large as its metadata block and its payload together; and where the
/// stream holds the whole payload, the raw bytes and the decoded bytes are
/// the same `obj_len` bytes.
pub proof fn lemma_stored_payload(key: RootKey, data: Seq<u8>)
    requires
        key.codec_status(data) == Outcome::Accepted,
        key.codec_kind(data) == StreamKind::Uncompressed,
    ensures
        key.nbytes == key.obj_len + key.key_len,
        key.decode_status(data) == Outcome::Accepted,
        key.obj_len <= left_at(data, key.obj_begin as int) ==> {
            &&& key.decoded_payload(data).len() == key.obj_len
            &&& key.decoded_payload(data) == window(
                data,
                key.obj_begin as int,
                key.obj_len as int,
            )
        },
{
    lemma_codec_table(key.codec_header(data));
}

} // verus!
