use root_io::stream::ByteStream;
use root_io::{FileHeader, RootFile, RootIoError};

fn header(version: u32, begin: u32, end: u64, wide: bool) -> Vec<u8> {
    let mut out = b"root".to_vec();
    out.extend_from_slice(&version.to_be_bytes());
    out.extend_from_slice(&begin.to_be_bytes());
    let put = |out: &mut Vec<u8>, v: u64| {
        if wide {
            out.extend_from_slice(&v.to_be_bytes());
        } else {
            out.extend_from_slice(&(v as u32).to_be_bytes());
        }
    };
    put(&mut out, end);
    put(&mut out, 0x0a0b_0c0d);
    out.extend_from_slice(&11u32.to_be_bytes());
    out.extend_from_slice(&22u32.to_be_bytes());
    out.extend_from_slice(&33u32.to_be_bytes());
    out.push(4);
    out.extend_from_slice(&101u32.to_be_bytes());
    put(&mut out, 0x0102_0304);
    out.extend_from_slice(&44u32.to_be_bytes());
    out.extend((1..=18u8).collect::<Vec<u8>>());
    out
}

/// A narrow key record with its payload; `nbytes` is what the record claims.
fn record(begin: u64, nbytes: u32, name: &[u8], payload: &[u8]) -> Vec<u8> {
    let key_len = (18 + 8 + 2 + 1 + name.len() + 1) as u16;
    let mut out = Vec::new();
    out.extend_from_slice(&nbytes.to_be_bytes());
    out.extend_from_slice(&4u16.to_be_bytes());
    out.extend_from_slice(&(payload.len() as u32).to_be_bytes());
    out.extend_from_slice(&0u32.to_be_bytes());
    out.extend_from_slice(&key_len.to_be_bytes());
    out.extend_from_slice(&1u16.to_be_bytes());
    out.extend_from_slice(&(begin as u32).to_be_bytes());
    out.extend_from_slice(&0u32.to_be_bytes());
    out.push(1);
    out.push(b'X');
    out.push(name.len() as u8);
    out.extend_from_slice(name);
    out.push(0);
    out.extend_from_slice(payload);
    out
}

fn pad_to(data: &mut Vec<u8>, len: usize) {
    while data.len() < len {
        data.push(0);
    }
}

#[test]
fn one_uncompressed_key_end_to_end() {
    let payload = b"ten bytes!";
    let rec = record(64, 0, b"Y", payload);
    let k = rec.len() as u32;
    let rec = record(64, k, b"Y", payload);
    let mut data = header(1, 64, 64 + k as u64, false);
    pad_to(&mut data, 64);
    data.extend_from_slice(&rec);
    let file = RootFile::new(ByteStream::new(data)).unwrap();
    assert!(!file.is_large_file());
    assert_eq!(file.header().version, 1);
    assert_eq!(file.header().begin, 64);
    assert_eq!(file.header().end, 64 + k as u64);
    assert_eq!(file.keys().len(), 1);
    assert_eq!(file.keys()[0].name, "Y");
    assert_eq!(file.keys()[0].class_name, "X");
    assert_eq!(file.keys()[0].title, "");
    assert_eq!(file.keys()[0].obj_len, 10);
    assert_eq!(file.keys()[0].key_len, 31);
    assert_eq!(k, 41);
    let (mut stream, _, keys) = file.into_parts();
    assert_eq!(keys[0].read_raw_buffer(&mut stream).unwrap(), payload.to_vec());
    assert_eq!(keys[0].decompress(&mut stream).unwrap(), payload.to_vec());
}

#[test]
fn narrow_header_fields() {
    let data = header(999_999, 63, 63, false);
    assert_eq!(data.len(), 63);
    let file = RootFile::new(ByteStream::new(data)).unwrap();
    let h = file.header();
    assert!(!file.is_large_file());
    assert_eq!(h.version, 999_999);
    assert_eq!(h.begin, 63);
    assert_eq!(h.end, 63);
    assert_eq!(h.seek_free, 0x0a0b_0c0d);
    assert_eq!(h.nbytes_free, 11);
    assert_eq!(h.nfree, 22);
    assert_eq!(h.nbytes_name, 33);
    assert_eq!(h.units, 4);
    assert_eq!(h.compress, 101);
    assert_eq!(h.seek_info, 0x0102_0304);
    assert_eq!(h.nbytes_info, 44);
    assert_eq!(h.uuid.to_vec(), (1..=18u8).collect::<Vec<u8>>());
    assert_eq!(file.keys().len(), 0);
}

#[test]
fn wide_header_fields() {
    let data = header(1_000_000, 75, 0x0000_0001_0000_0000, true);
    assert_eq!(data.len(), 75);
    let mut stream = ByteStream::new(data);
    let h = FileHeader::read(&mut stream).unwrap();
    assert_eq!(stream.position(), 75);
    assert_eq!(h.version, 1_000_000);
    assert_eq!(h.begin, 75);
    assert_eq!(h.end, 0x0000_0001_0000_0000);
    assert_eq!(h.seek_free, 0x0a0b_0c0d);
    assert_eq!(h.nbytes_free, 11);
    assert_eq!(h.nfree, 22);
    assert_eq!(h.nbytes_name, 33);
    assert_eq!(h.units, 4);
    assert_eq!(h.compress, 101);
    assert_eq!(h.seek_info, 0x0102_0304);
    assert_eq!(h.nbytes_info, 44);
    assert_eq!(h.uuid.to_vec(), (1..=18u8).collect::<Vec<u8>>());
}

#[test]
fn open_large_file() {
    let data = header(1_000_000, 75, 75, true);
    let root = RootFile::new(ByteStream::new(data));
    assert!(root.is_ok());
    let root = root.unwrap();
    assert!(root.is_large_file());
}

#[test]
fn version_below_threshold_reads_wide_bytes_as_narrow() {
    // Written wide, announced narrow: `end` is then the upper half of the
    // eight bytes written for it.
    let mut data = header(1_000_000, 75, 0x0000_0007_0000_0009, true);
    data[4..8].copy_from_slice(&999_999u32.to_be_bytes());
    let mut stream = ByteStream::new(data);
    let h = FileHeader::read(&mut stream).unwrap();
    assert_eq!(h.end, 7);
    assert_eq!(h.seek_free, 9);
    assert_eq!(stream.position(), 63);
}

#[test]
fn header_is_read_from_where_the_stream_stands() {
    let mut data = vec![0xeeu8; 5];
    data.extend_from_slice(&header(1, 5, 5, false));
    let mut stream = ByteStream::new(data);
    stream.seek(5);
    let file = RootFile::new(stream).unwrap();
    assert_eq!(file.header().version, 1);
    assert_eq!(file.keys().len(), 0);
}

#[test]
fn wrong_magic_is_a_format_error() {
    let mut data = header(1, 64, 64, false);
    data[3] = b'T';
    assert!(matches!(RootFile::new(ByteStream::new(data)), Err(RootIoError::InvalidFormatError)));
    let zeros = vec![0u8; 100];
    assert!(matches!(RootFile::new(ByteStream::new(zeros)), Err(RootIoError::InvalidFormatError)));
}

#[test]
fn short_magic_is_an_io_error() {
    for n in 0..4 {
        let data = b"root"[..n].to_vec();
        assert!(matches!(RootFile::new(ByteStream::new(data)), Err(RootIoError::IOError(_))));
    }
}

#[test]
fn truncated_header_is_an_io_error() {
    let full = header(1, 64, 64, false);
    for n in 4..full.len() {
        let data = full[..n].to_vec();
        assert!(matches!(RootFile::new(ByteStream::new(data)), Err(RootIoError::IOError(_))));
    }
    let full = header(1_000_000, 64, 64, true);
    for n in [63, 74] {
        let data = full[..n].to_vec();
        assert!(matches!(RootFile::new(ByteStream::new(data)), Err(RootIoError::IOError(_))));
    }
}

fn three_keys() -> (Vec<u8>, Vec<u64>) {
    let mut data = header(1, 100, 0, false);
    pad_to(&mut data, 100);
    let mut begins = Vec::new();
    for (name, payload, gap) in
        [(&b"first"[..], &b"aaaa"[..], 0usize), (&b"second"[..], &b""[..], 7), (&b"third"[..], &b"cc"[..], 0)]
    {
        let begin = data.len() as u64;
        begins.push(begin);
        let len = record(begin, 0, name, payload).len() + gap;
        data.extend_from_slice(&record(begin, len as u32, name, payload));
        pad_to(&mut data, begin as usize + len);
    }
    let end = data.len() as u32;
    data[12..16].copy_from_slice(&end.to_be_bytes());
    (data, begins)
}

#[test]
fn directory_is_walked_in_order() {
    let (data, begins) = three_keys();
    let end = data.len() as u64;
    let file = RootFile::new(ByteStream::new(data)).unwrap();
    let keys = file.keys();
    assert_eq!(keys.len(), 3);
    assert_eq!(keys[0].name, "first");
    assert_eq!(keys[1].name, "second");
    assert_eq!(keys[2].name, "third");
    assert_eq!(keys[0].begin, 100);
    for i in 0..3 {
        assert_eq!(keys[i].begin, begins[i]);
        assert_eq!(keys[i].seek_key, keys[i].begin);
        assert!(keys[i].begin < end);
    }
    for i in 0..2 {
        assert!(keys[i].begin < keys[i + 1].begin);
        assert_eq!(keys[i].next_position(), keys[i + 1].begin);
        assert!(keys[i].next_position() < end);
    }
    assert!(keys[2].next_position() >= end);
}

#[test]
fn walk_stops_at_the_first_record_that_reaches_end() {
    let (mut data, _) = three_keys();
    // Let the body end inside the second record.
    let end = 100 + record(100, 0, b"first", b"aaaa").len() as u32 + 1;
    data[12..16].copy_from_slice(&end.to_be_bytes());
    let file = RootFile::new(ByteStream::new(data)).unwrap();
    assert_eq!(file.keys().len(), 2);
    assert!(file.keys()[1].next_position() >= end as u64);
    assert!(file.keys()[0].next_position() < end as u64);
}

#[test]
fn empty_body_has_no_keys() {
    let mut data = header(1, 200, 200, false);
    pad_to(&mut data, 300);
    assert_eq!(RootFile::new(ByteStream::new(data)).unwrap().keys().len(), 0);
    let mut data = header(1, 200, 100, false);
    pad_to(&mut data, 300);
    assert_eq!(RootFile::new(ByteStream::new(data)).unwrap().keys().len(), 0);
}

#[test]
fn record_of_size_zero_is_a_format_error() {
    let mut data = header(1, 64, 200, false);
    pad_to(&mut data, 64);
    data.extend_from_slice(&record(64, 0, b"Y", b"0123456789"));
    pad_to(&mut data, 200);
    assert!(matches!(RootFile::new(ByteStream::new(data)), Err(RootIoError::InvalidFormatError)));
}

#[test]
fn corrupt_record_fails_the_whole_open() {
    let (mut data, begins) = three_keys();
    // The third record reports another offset than its own.
    let at = begins[2] as usize + 18;
    data[at..at + 4].copy_from_slice(&1u32.to_be_bytes());
    assert!(matches!(RootFile::new(ByteStream::new(data)), Err(RootIoError::InvalidFormatError)));
}

#[test]
fn truncated_directory_is_an_io_error() {
    let (data, begins) = three_keys();
    let cut = begins[2] as usize + 20;
    assert!(matches!(
        RootFile::new(ByteStream::new(data[..cut].to_vec())),
        Err(RootIoError::IOError(_))
    ));
}

#[test]
fn body_beyond_the_stream_is_an_io_error() {
    let data = header(1, 64, 1000, false);
    assert!(matches!(RootFile::new(ByteStream::new(data)), Err(RootIoError::IOError(_))));
}

#[test]
fn parts_hold_what_was_opened() {
    let (data, _) = three_keys();
    let file = RootFile::new(ByteStream::new(data.clone())).unwrap();
    let (mut stream, head, keys) = file.into_parts();
    assert_eq!(head.begin, 100);
    assert_eq!(head.end, data.len() as u64);
    assert_eq!(keys.len(), 3);
    assert_eq!(keys[0].read_raw_buffer(&mut stream).unwrap(), b"aaaa".to_vec());
    assert_eq!(keys[2].read_raw_buffer(&mut stream).unwrap(), b"cc".to_vec());
    assert_eq!(keys[1].read_raw_buffer(&mut stream).unwrap(), Vec::<u8>::new());
}
