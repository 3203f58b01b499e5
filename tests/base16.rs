use moo3d::{decode_texture_line, Base16Reader};

#[test]
fn reader_reads_pairs() {
    let mut r = Base16Reader::new("0AFF10");
    assert!(r.has_next());
    assert_eq!(r.read_u8(), Some(10));
    assert_eq!(r.read_u8(), Some(255));
    assert!(r.has_next());
    assert_eq!(r.read_u8(), Some(16));
    assert!(!r.has_next());
    assert_eq!(r.read_u8(), None);
}

#[test]
fn reader_reads_big_endian_u16() {
    let mut r = Base16Reader::new("0102FFFF");
    assert_eq!(r.read_u16(), Some(258));
    assert_eq!(r.read_u16(), Some(65535));
    assert_eq!(r.read_u16(), None);
    let mut short = Base16Reader::new("01");
    assert_eq!(short.read_u16(), None);
}

#[test]
fn reader_ignores_lone_last_digit() {
    let mut r = Base16Reader::new("ABC");
    assert_eq!(r.read_u8(), Some(171));
    assert!(!r.has_next());
    assert_eq!(r.read_u8(), None);
}

#[test]
fn decode_short_runs() {
    let out = decode_texture_line("0001FF0000800300").unwrap();
    assert_eq!(out, vec![255, 0, 0, 128, 255, 0, 0, 128, 255, 0, 0, 128]);
    let two = decode_texture_line("0002010203040506070801010200").unwrap();
    assert_eq!(two, vec![5, 6, 7, 8, 1, 2, 3, 4, 1, 2, 3, 4]);
}

#[test]
fn decode_long_run() {
    let out = decode_texture_line("00010A0B0C0DFF010100").unwrap();
    assert_eq!(out.len(), 4 * 257);
    assert_eq!(&out[4 * 256..], &[10, 11, 12, 13]);
}

#[test]
fn decode_edge_lines() {
    assert_eq!(decode_texture_line("0000"), Some(vec![]));
    assert_eq!(decode_texture_line("0001FF0000800100"), Some(vec![255, 0, 0, 128]));
    assert_eq!(decode_texture_line("0001FF00008001007"), Some(vec![255, 0, 0, 128]));
}

#[test]
fn decode_rejects_bad_lines() {
    assert_eq!(decode_texture_line(""), None);
    assert_eq!(decode_texture_line("00"), None);
    assert_eq!(decode_texture_line("00G1"), None);
    assert_eq!(decode_texture_line("000a"), None);
    assert_eq!(decode_texture_line("0002FF000080"), None);
    assert_eq!(decode_texture_line("0001FF0000800101"), None);
    assert_eq!(decode_texture_line("0001FF000080FF01"), None);
    assert_eq!(decode_texture_line("0001FF00008003"), None);
}
