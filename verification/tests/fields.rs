use isobmff::endian::BigEndian;
use isobmff::header::decode_box_header;
use isobmff::header::decode_large_size;
use isobmff::header::BoxHeader;
use isobmff::BoxSplitter;
use isobmff::Cursor;
use isobmff::Error;
use isobmff::IoError;

#[test]
fn big_endian_loads() {
    let buf = b"\x00\x01\x02\x03\x04\x05\x06\x07\x08";
    assert_eq!(BigEndian::loadu16(buf, 1), 0x0102);
    assert_eq!(BigEndian::loadu32(buf, 5), 0x05060708);
    assert_eq!(BigEndian::loadu64(buf, 1), 0x0102030405060708);
    assert_eq!(BigEndian::loadu64(b"\xff\xff\xff\xff\xff\xff\xff\xff", 0), u64::MAX);
}

#[test]
fn sizes_of_four_and_eight_bytes() {
    let buf = b"\0\0\0\x01\0\0\0\x02\0\0\0\x03rest";
    let mut boxp = BoxSplitter::new(buf);
    assert_eq!(boxp.size048(0), Ok(Some(0)));
    assert_eq!(boxp.size048(4), Ok(Some(1)));
    assert_eq!(boxp.size048(8), Ok(Some(0x200000003)));
    assert_eq!(boxp.size048(1), Ok(None));
    assert_eq!(boxp.size048(8), Err(Error::InvalidFormat("Box too small")));
    assert_eq!(boxp.len(), 4);
    assert!(!boxp.is_empty());
    assert_eq!(boxp.slice(4), Ok(&b"rest"[..]));
    assert!(boxp.is_empty());
}

#[test]
fn full_box_header() {
    let mut boxp = BoxSplitter::new(b"\x01\x02\x03\x04\x05");
    assert_eq!(boxp.fullbox_header(), Ok((1, 0x020304)));
    assert_eq!(boxp.fullbox_header(), Err(Error::InvalidFormat("Box too small")));
    assert_eq!(boxp.len(), 1);
}

fn child(buf: &[u8]) -> (Result<(Vec<u8>, Vec<u8>), Error>, usize) {
    let mut boxp = BoxSplitter::new(buf);
    let child = boxp.child_box().map(|(boxtype, mut body)| {
        let len = body.len();
        (boxtype.to_vec(), body.slice(len).unwrap().to_vec())
    });
    (child, boxp.len())
}

#[test]
fn child_boxes() {
    let found = |body: &[u8]| Ok((b"abcd".to_vec(), body.to_vec()));
    let invalid = |message| Err(Error::InvalidFormat(message));
    assert_eq!(child(b"\0\0\0\x0aabcd1234"), (found(b"12"), 2));
    assert_eq!(child(b"\0\0\0\0abcd1234"), (found(b"1234"), 0));
    assert_eq!(child(b"\0\0\0\x01abcd\0\0\0\0\0\0\0\x121234"), (found(b"12"), 2));
    assert_eq!(child(b"\0\0\0"), (invalid("Box too small"), 3));
    assert_eq!(child(b"\0\0\0\x08abc"), (invalid("Box too small"), 3));
    assert_eq!(child(b"\0\0\0\x01abcd\0\0"), (invalid("Box too small"), 2));
    assert_eq!(child(b"\0\0\0\x07abcd1"), (invalid("Invalid box size"), 1));
    assert_eq!(child(b"\0\0\0\x01abcd\0\0\0\0\0\0\0\x0f12"), (invalid("Invalid box size"), 2));
    assert_eq!(child(b"\0\0\0\x0aabcd1"), (invalid("Box too small"), 1));
    assert_eq!(
        child(b"\0\0\0\x01abcd\xff\xff\xff\xff\xff\xff\xff\xff12"),
        (invalid("Box too small"), 2)
    );
}

#[test]
fn box_headers() {
    assert!(matches!(decode_box_header(b""), Ok(BoxHeader::EndOfFile)));
    assert!(matches!(
        decode_box_header(b"\0\0\0\x01abcd"),
        Ok(BoxHeader::LargeSize([b'a', b'b', b'c', b'd']))
    ));
    assert!(matches!(
        decode_box_header(b"\0\0\0\x09abcd"),
        Ok(BoxHeader::Sized(1, [b'a', b'b', b'c', b'd']))
    ));
    assert!(matches!(
        decode_box_header(b"\0"),
        Err(Error::Io(IoError::UnexpectedEof("truncated box")))
    ));
    assert_eq!(decode_large_size(b"\0\0\0\0\0\0\x01\0"), Ok(0xf0));
    assert_eq!(
        decode_large_size(b"\0\0\0\0\0\0\x01"),
        Err(Error::Io(IoError::UnexpectedEof("failed to fill whole buffer")))
    );
    assert_eq!(
        decode_large_size(b"\0\0\0\0\0\0\0\x0f"),
        Err(Error::InvalidFormat("Invalid box size"))
    );
    // No byte is left.
    assert_eq!(Cursor::new(b"").read_box_header(), Ok(None));
}

#[test]
fn errors_from_messages() {
    assert_eq!(Error::from("message"), Error::InvalidFormat("message"));
}

#[test]
fn headers_inside_and_at_top_level() {
    for buf in [
        &b"\0\0\0\x0aabcd1234"[..],
        &b"\0\0\0\x01abcd\0\0\0\0\0\0\0\x121234"[..],
    ] {
        let (boxtype, body) = child(buf).0.unwrap();
        let header = Cursor::new(buf).read_box_header().unwrap().unwrap();
        assert_eq!(header.0, body.len() as u64);
        assert_eq!(header.1.to_vec(), boxtype);
    }
}

#[test]
fn integers_in_parts() {
    let buf = b"\x12\x34\x56\x78\x9a\xbc\xde\xf0";
    let mut boxp = BoxSplitter::new(buf);
    let high = boxp.uint32().unwrap();
    let low = boxp.uint32().unwrap();
    let mut boxp = BoxSplitter::new(buf);
    assert_eq!(boxp.uint64(), Ok((u64::from(high) << 32) + u64::from(low)));
    assert_eq!(BigEndian::loadu64(&0x0102030405060708u64.to_be_bytes(), 0), 0x0102030405060708);
}
