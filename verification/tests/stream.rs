use root_io::stream::ByteStream;
use root_io::{read_as_u64, read_string, RootIoError};

#[test]
fn new_stream_starts_at_zero() {
    let s = ByteStream::new(vec![1, 2, 3]);
    assert_eq!(s.position(), 0);
    assert_eq!(s.left(), 3);
}

#[test]
fn seek_moves_anywhere() {
    let mut s = ByteStream::new(vec![1, 2, 3]);
    s.seek(2);
    assert_eq!(s.position(), 2);
    assert_eq!(s.left(), 1);
    s.seek(1 << 40);
    assert_eq!(s.position(), 1 << 40);
    assert_eq!(s.left(), 0);
}

#[test]
fn read_exact_returns_the_bytes_and_advances() {
    let mut s = ByteStream::new(vec![10, 11, 12, 13, 14]);
    s.seek(1);
    assert_eq!(s.read_exact(3).unwrap(), vec![11, 12, 13]);
    assert_eq!(s.position(), 4);
    assert_eq!(s.read_exact(1).unwrap(), vec![14]);
    assert_eq!(s.position(), 5);
}

#[test]
fn read_exact_fails_on_short_stream_and_stays() {
    let mut s = ByteStream::new(vec![10, 11, 12]);
    s.seek(1);
    let r = s.read_exact(3);
    assert!(matches!(r, Err(RootIoError::IOError(_))));
    assert_eq!(s.position(), 1);
    assert_eq!(s.read_exact(2).unwrap(), vec![11, 12]);
}

#[test]
fn read_exact_of_nothing_succeeds_past_the_end() {
    let mut s = ByteStream::new(vec![1]);
    s.seek(9);
    assert_eq!(s.read_exact(0).unwrap(), Vec::<u8>::new());
    assert_eq!(s.position(), 9);
}

#[test]
fn take_is_bounded_by_limit_and_by_end() {
    let mut s = ByteStream::new(vec![1, 2, 3, 4, 5]);
    s.seek(1);
    assert_eq!(s.take(2), vec![2, 3]);
    assert_eq!(s.position(), 3);
    assert_eq!(s.take(10), vec![4, 5]);
    assert_eq!(s.position(), 5);
    assert_eq!(s.take(10), Vec::<u8>::new());
    s.seek(100);
    assert_eq!(s.take(u64::MAX), Vec::<u8>::new());
    assert_eq!(s.position(), 100);
}

#[test]
fn read_u8_reads_one_byte() {
    let mut s = ByteStream::new(vec![0xab, 0xcd]);
    assert_eq!(s.read_u8().unwrap(), 0xab);
    assert_eq!(s.read_u8().unwrap(), 0xcd);
    assert!(matches!(s.read_u8(), Err(RootIoError::IOError(_))));
}

#[test]
fn read_u16_is_big_endian() {
    let mut s = ByteStream::new(vec![0x12, 0x34, 0xff]);
    assert_eq!(s.read_u16().unwrap(), 0x1234);
    assert_eq!(s.position(), 2);
    assert!(matches!(s.read_u16(), Err(RootIoError::IOError(_))));
    assert_eq!(s.position(), 2);
}

#[test]
fn read_u32_is_big_endian() {
    let mut s = ByteStream::new(vec![0x12, 0x34, 0x56, 0x78, 0, 0, 0]);
    assert_eq!(s.read_u32().unwrap(), 0x1234_5678);
    assert_eq!(s.position(), 4);
    assert!(matches!(s.read_u32(), Err(RootIoError::IOError(_))));
}

#[test]
fn read_u64_is_big_endian() {
    let mut s = ByteStream::new(vec![0x01, 0x23, 0x45, 0x67, 0x89, 0xab, 0xcd, 0xef, 9]);
    assert_eq!(s.read_u64().unwrap(), 0x0123_4567_89ab_cdef);
    assert_eq!(s.position(), 8);
    assert!(matches!(s.read_u64(), Err(RootIoError::IOError(_))));
}

#[test]
fn read_as_u64_narrow_reads_four_bytes() {
    let mut s = ByteStream::new(vec![0xff, 0xee, 0xdd, 0xcc, 1, 2, 3, 4]);
    assert_eq!(read_as_u64(false, &mut s).unwrap(), 0xffee_ddcc);
    assert_eq!(s.position(), 4);
}

#[test]
fn read_as_u64_wide_reads_eight_bytes() {
    let mut s = ByteStream::new(vec![0xff, 0xee, 0xdd, 0xcc, 1, 2, 3, 4]);
    assert_eq!(read_as_u64(true, &mut s).unwrap(), 0xffee_ddcc_0102_0304);
    assert_eq!(s.position(), 8);
}

#[test]
fn read_as_u64_fails_when_too_few_bytes_remain() {
    let mut s = ByteStream::new(vec![1, 2, 3, 4, 5, 6, 7]);
    assert!(matches!(read_as_u64(true, &mut s), Err(RootIoError::IOError(_))));
    assert_eq!(s.position(), 0);
    assert_eq!(read_as_u64(false, &mut s).unwrap(), 0x0102_0304);
    assert!(matches!(read_as_u64(false, &mut s), Err(RootIoError::IOError(_))));
}

#[test]
fn read_string_reads_length_then_text() {
    let mut s = ByteStream::new(vec![5, b'T', b'T', b'r', b'e', b'e', 0, 9]);
    assert_eq!(read_string(&mut s).unwrap(), "TTree");
    assert_eq!(s.position(), 6);
    assert_eq!(read_string(&mut s).unwrap(), "");
    assert_eq!(s.position(), 7);
}

#[test]
fn read_string_decodes_multibyte_utf8() {
    let mut s = ByteStream::new(vec![3, 0xe2, 0x82, 0xac]);
    assert_eq!(read_string(&mut s).unwrap(), "\u{20ac}");
}

#[test]
fn read_string_replaces_malformed_bytes() {
    let mut s = ByteStream::new(vec![3, b'a', 0xff, b'b']);
    assert_eq!(read_string(&mut s).unwrap(), "a\u{fffd}b");
    assert_eq!(s.position(), 4);
}

#[test]
fn read_string_fails_only_on_short_read() {
    let mut s = ByteStream::new(vec![4, b'a', b'b', b'c']);
    assert!(matches!(read_string(&mut s), Err(RootIoError::IOError(_))));
    let mut e = ByteStream::new(vec![]);
    assert!(matches!(read_string(&mut e), Err(RootIoError::IOError(_))));
}

#[test]
fn read_string_takes_the_longest_field() {
    let mut bytes = vec![255u8];
    bytes.extend(std::iter::repeat(b'z').take(255));
    let mut s = ByteStream::new(bytes);
    let text = read_string(&mut s).unwrap();
    assert_eq!(text.len(), 255);
    assert_eq!(s.position(), 256);
}
