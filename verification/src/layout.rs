//! The on-disk layout, stated over the bytes of a file: where each field of a
//! key record and of the file header lies, and when a record, a header or a
//! whole directory is well formed.

use vstd::prelude::*;
use crate::endian::{be16, be32, be_offset, offset_width};
use crate::stream::left_at;
use crate::text::{pascal_end, pascal_fits};
use crate::Outcome;

verus! {

/// File versions from this one on store their seek offsets in 64 bits.
pub const VER_THRESHOLD: u32 = 1000000;

/// Key versions above this one store their seek offsets in 64 bits.
pub const VER_THRESHOLD_KEY: u16 = 1000;

/// Keys that begin at or after this offset store their seek offsets in 64 bits.
pub const LARGE_OFFSET: u64 = 0x8000_0000;

/// The bytes of a key record that precede its two seek offsets.
pub const KEY_FIXED_LEN: u64 = 18;

/// Whether a file of this version stores seek offsets in 64 bits.
pub fn file_offsets_wide(version: u32) -> (wide: bool)
    ensures
        wide == (version >= VER_THRESHOLD),
{
    version >= VER_THRESHOLD
}

/// Whether a key of this version, beginning at `begin`, stores its seek
/// offsets in 64 bits: either the version or the position alone forces it.
pub fn key_offsets_wide(version: u16, begin: u64) -> (wide: bool)
    ensures
        wide == (version > VER_THRESHOLD_KEY || begin >= LARGE_OFFSET),
{
    version > VER_THRESHOLD_KEY || begin >= LARGE_OFFSET
}

/// The total size that the record at `begin` reports for itself.
pub open spec fn key_nbytes(data: Seq<u8>, begin: int) -> int {
    be32(data, begin)
}

/// The version that the record at `begin` reports.
pub open spec fn key_version(data: Seq<u8>, begin: int) -> int {
    be16(data, begin + 4)
}

/// The size of the metadata block that the record at `begin` reports.
pub open spec fn key_len(data: Seq<u8>, begin: int) -> int {
    be16(data, begin + 14)
}

/// Whether the record at `begin` stores its seek offsets in 64 bits.
pub open spec fn key_is_wide(data: Seq<u8>, begin: int) -> bool {
    key_version(data, begin) > VER_THRESHOLD_KEY || begin >= LARGE_OFFSET
}

/// Where the class name of the record at `begin` starts.
pub open spec fn key_class_at(data: Seq<u8>, begin: int) -> int {
    begin + KEY_FIXED_LEN + 2 * offset_width(key_is_wide(data, begin))
}

/// Where the name of the record at `begin` starts.
pub open spec fn key_name_at(data: Seq<u8>, begin: int) -> int {
    pascal_end(data, key_class_at(data, begin))
}

/// Where the title of the record at `begin` starts.
pub open spec fn key_title_at(data: Seq<u8>, begin: int) -> int {
    pascal_end(data, key_name_at(data, begin))
}

/// Where the uninterpreted tail of the metadata block starts.
pub open spec fn key_meta_at(data: Seq<u8>, begin: int) -> int {
    pascal_end(data, key_title_at(data, begin))
}

/// Where the payload of the record at `begin` starts.
pub open spec fn key_obj_begin(data: Seq<u8>, begin: int) -> int {
    begin + key_len(data, begin)
}

/// How parsing the key record at `begin` ends. Fields are taken in their
/// order on disk, so the first one that is cut off or inconsistent decides.
pub open spec fn key_status(data: Seq<u8>, begin: int) -> Outcome {
    if begin + KEY_FIXED_LEN > data.len() || key_class_at(data, begin) > data.len() {
        Outcome::Io
    } else if be_offset(data, begin + KEY_FIXED_LEN, key_is_wide(data, begin))
        != begin {
        Outcome::BadFormat
    } else if !pascal_fits(data, key_class_at(data, begin)) || !pascal_fits(
        data,
        key_name_at(data, begin),
    ) || !pascal_fits(data, key_title_at(data, begin)) {
        Outcome::Io
    } else if key_obj_begin(data, begin) < key_meta_at(data, begin) {
        Outcome::BadFormat
    } else if key_obj_begin(data, begin) > data.len() {
        Outcome::Io
    } else {
        Outcome::Accepted
    }
}

/// The four bytes that open a file: `root` in ASCII.
pub const MAGIC_0: u8 = 0x72;

pub const MAGIC_1: u8 = 0x6f;

pub const MAGIC_2: u8 = 0x6f;

pub const MAGIC_3: u8 = 0x74;

/// The size of the file identifier that closes the header.
pub const UUID_LEN: usize = 18;

/// Whether the four bytes of `data` at `at` are the magic tag.
pub open spec fn has_magic(data: Seq<u8>, at: int) -> bool {
    &&& data[at] == MAGIC_0
    &&& data[at + 1] == MAGIC_1
    &&& data[at + 2] == MAGIC_2
    &&& data[at + 3] == MAGIC_3
}

/// The version that the header at `at` reports.
pub open spec fn file_version(data: Seq<u8>, at: int) -> int {
    be32(data, at + 4)
}

/// Whether the header at `at` stores its seek offsets in 64 bits.
pub open spec fn file_is_wide(data: Seq<u8>, at: int) -> bool {
    file_version(data, at) >= VER_THRESHOLD
}

/// The size of a whole header: 51 bytes of fixed fields and three seek
/// offsets.
pub open spec fn header_len(wide: bool) -> int {
    51 + 3 * offset_width(wide)
}

/// Where the body starts, by the header at `at`.
pub open spec fn file_begin(data: Seq<u8>, at: int) -> int {
    be32(data, at + 8)
}

/// Where the body ends, by the header at `at`.
pub open spec fn file_end(data: Seq<u8>, at: int) -> int {
    be_offset(data, at + 12, file_is_wide(data, at))
}

/// How parsing the header at `at` ends: too few bytes for the magic tag or
/// for the fields after it are an I/O failure, a wrong tag is malformed.
pub open spec fn header_status(data: Seq<u8>, at: int) -> Outcome {
    if left_at(data, at) < 4 {
        Outcome::Io
    } else if !has_magic(data, at) {
        Outcome::BadFormat
    } else if left_at(data, at) < 12 || left_at(data, at) < header_len(file_is_wide(data, at)) {
        Outcome::Io
    } else {
        Outcome::Accepted
    }
}

/// Whether the directory walk can step over the record at `pointer`: the
/// record parses and reports a size that moves the walk forward.
pub open spec fn key_advances(data: Seq<u8>, pointer: int) -> bool {
    key_status(data, pointer) == Outcome::Accepted && key_nbytes(data, pointer) > 0
}

/// How far the walk at `pointer` is from `end`; zero once it is there or past.
pub open spec fn scan_gap(pointer: int, end: int) -> nat {
    if pointer < end {
        (end - pointer) as nat
    } else {
        0
    }
}

/// How walking the directory from `pointer` up to `end` ends. Each record
/// names the offset of the next by its own size; a record that does not parse
/// ends the walk with its failure, and one of size zero is malformed.
pub open spec fn scan_status(data: Seq<u8>, pointer: int, end: int) -> Outcome
    decreases scan_gap(pointer, end),
{
    if pointer >= end {
        Outcome::Accepted
    } else if key_status(data, pointer) != Outcome::Accepted {
        key_status(data, pointer)
    } else if key_nbytes(data, pointer) <= 0 {
        Outcome::BadFormat
    } else {
        scan_status(data, pointer + key_nbytes(data, pointer), end)
    }
}

/// The offsets of the records that the walk from `pointer` up to `end` steps
/// over, in the order of the walk.
pub open spec fn scan_offsets(data: Seq<u8>, pointer: int, end: int) -> Seq<int>
    decreases scan_gap(pointer, end),
{
    if pointer >= end || !key_advances(data, pointer) {
        Seq::empty()
    } else {
        seq![pointer] + scan_offsets(data, pointer + key_nbytes(data, pointer), end)
    }
}

/// How opening the file whose header starts at `at` ends.
pub open spec fn file_status(data: Seq<u8>, at: int) -> Outcome {
    if header_status(data, at) != Outcome::Accepted {
        header_status(data, at)
    } else {
        scan_status(data, file_begin(data, at), file_end(data, at))
    }
}

/// A record that reports an offset other than its own never parses: where
/// its fixed fields and both seek offsets are all there, it is malformed.
/// So a record that parses reports its own offset.
pub proof fn lemma_seek_key_gate(data: Seq<u8>, begin: int)
    ensures
        key_status(data, begin) == Outcome::Accepted ==> be_offset(
            data,
            begin + KEY_FIXED_LEN,
            key_is_wide(data, begin),
        ) == begin,
        key_class_at(data, begin) <= data.len() && be_offset(
            data,
            begin + KEY_FIXED_LEN,
            key_is_wide(data, begin),
        ) != begin ==> key_status(data, begin) == Outcome::BadFormat,
{
}

/// Whether entry `i + 1` of `offsets` is where the record at entry `i` ends.
pub open spec fn follows(data: Seq<u8>, offsets: Seq<int>, i: int) -> bool {
    offsets[i + 1] == offsets[i] + key_nbytes(data, offsets[i])
}

/// The walk from `begin` up to `end` visits offsets that start at `begin`,
/// stay before `end` and strictly increase; the record at each of them parses
/// and has a size above zero.
pub proof fn lemma_scan_order(data: Seq<u8>, begin: int, end: int)
    ensures
        scan_offsets(data, begin, end).len() > 0 ==> scan_offsets(data, begin, end)[0] == begin,
        forall|i: int|
            0 <= i < scan_offsets(data, begin, end).len() ==> begin <= #[trigger] scan_offsets(
                data,
                begin,
                end,
            )[i] < end && key_advances(data, scan_offsets(data, begin, end)[i]),
        forall|i: int, j: int|
            0 <= i < j < scan_offsets(data, begin, end).len() ==> #[trigger] scan_offsets(
                data,
                begin,
                end,
            )[i] < #[trigger] scan_offsets(data, begin, end)[j],
    decreases scan_gap(begin, end),
{
    let offsets = scan_offsets(data, begin, end);
    if begin < end && key_advances(data, begin) {
        let next = begin + key_nbytes(data, begin);
        let rest = scan_offsets(data, next, end);
        lemma_scan_order(data, next, end);
        assert(offsets == seq![begin] + rest);
        assert forall|i: int| 0 <= i < offsets.len() implies begin <= #[trigger] offsets[i] < end
            && key_advances(data, offsets[i]) by {
            if i > 0 {
                assert(offsets[i] == rest[i - 1]);
            }
        }
        assert forall|i: int, j: int| 0 <= i < j < offsets.len() implies #[trigger] offsets[i]
            < #[trigger] offsets[j] by {
            assert(offsets[j] == rest[j - 1]);
            if i > 0 {
                assert(offsets[i] == rest[i - 1]);
            }
        }
    }
}

/// In the walk from `begin` up to `end`, each offset after the first is
/// where the record before it ends.
pub proof fn lemma_scan_chain(data: Seq<u8>, begin: int, end: int)
    ensures
        forall|i: int|
            0 <= i < scan_offsets(data, begin, end).len() - 1 ==> #[trigger] follows(
                data,
                scan_offsets(data, begin, end),
                i,
            ),
    decreases scan_gap(begin, end),
{
    let offsets = scan_offsets(data, begin, end);
    if begin < end && key_advances(data, begin) {
        let next = begin + key_nbytes(data, begin);
        let rest = scan_offsets(data, next, end);
        lemma_scan_chain(data, next, end);
        lemma_scan_order(data, next, end);
        assert(offsets == seq![begin] + rest);
        assert forall|i: int| 0 <= i < offsets.len() - 1 implies #[trigger] follows(
            data,
            offsets,
            i,
        ) by {
            assert(offsets[i + 1] == rest[i]);
            if i > 0 {
                assert(offsets[i] == rest[i - 1]);
                assert(follows(data, rest, i - 1));
            }
        }
    }
}

/// Where the walk from `begin` up to `end` succeeds, it visits a record
/// unless `begin` is at `end` already, and the record visited last ends at
/// `end` or after it.
pub proof fn lemma_scan_reaches_end(data: Seq<u8>, begin: int, end: int)
    requires
        scan_status(data, begin, end) == Outcome::Accepted,
    ensures
        begin < end ==> scan_offsets(data, begin, end).len() > 0,
        scan_offsets(data, begin, end).len() > 0 ==> scan_offsets(data, begin, end).last()
            + key_nbytes(data, scan_offsets(data, begin, end).last()) >= end,
    decreases scan_gap(begin, end),
{
    let offsets = scan_offsets(data, begin, end);
    if begin < end {
        let next = begin + key_nbytes(data, begin);
        let rest = scan_offsets(data, next, end);
        lemma_scan_reaches_end(data, next, end);
        assert(offsets == seq![begin] + rest);
        if rest.len() > 0 {
            assert(offsets.last() == rest.last());
        } else {
            assert(offsets.last() == begin);
        }
    }
}

} // verus!
