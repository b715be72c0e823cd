use isobmff::BoxSplitter;
use isobmff::Cursor;
use isobmff::Error;

#[test]
fn parser_box_header() {
    // size
    let mut p = Cursor::new(b"\0\0\0\x08abcd");
    assert_eq!(p.read_box_header().unwrap(), Some((0, *b"abcd")));
    let mut p = Cursor::new(b"\0\0\0\x08abc");
    assert!(matches!(p.read_box_header(), Err(Error::Io(_))));
    let mut p = Cursor::new(b"\0\0\0\x07abcd");
    assert!(matches!(p.read_box_header(), Err(Error::InvalidFormat(_))));
    // max size
    let mut p = Cursor::new(b"\xff\xff\xff\xffabcd");
    assert_eq!(p.read_box_header().unwrap(), Some((0xffffffff - 8, *b"abcd")));
    // to the end of the file
    let mut p = Cursor::new(b"\0\0\0\0abcd");
    assert_eq!(p.read_box_header().unwrap(), Some((std::u64::MAX, *b"abcd")));
    // largesize
    let mut p = Cursor::new(b"\0\0\0\x01abcd\0\0\0\0\0\0\0\x10");
    assert_eq!(p.read_box_header().unwrap(), Some((0, *b"abcd")));
    let mut p = Cursor::new(b"\0\0\0\x01abcd\0\0\0\0\0\0\0");
    assert!(matches!(p.read_box_header(), Err(Error::Io(_))));
    let mut p = Cursor::new(b"\0\0\0\x01abcd\0\0\0\0\0\0\0\x0f");
    assert!(matches!(p.read_box_header(), Err(Error::InvalidFormat(_))));
    // max largesize
    let mut p = Cursor::new(b"\0\0\0\x01abcd\xff\xff\xff\xff\xff\xff\xff\xff");
    assert_eq!(p.read_box_header().unwrap(), Some((std::u64::MAX.wrapping_sub(16), *b"abcd")));
}

#[test]
fn is_heif() {
    assert!(isobmff::is_heif(b"\0\0\0\x0cftypmif1"));
    assert!(!isobmff::is_heif(b"\0\0\0\x0bftypmif1"));
    assert!(!isobmff::is_heif(b"\0\0\0\x0cftypmif"));
}

#[test]
fn box_splitter() {
    let buf = b"0123456789abcdef";
    let mut boxp = BoxSplitter::new(buf);
    assert!(matches!(boxp.slice(17), Err(Error::InvalidFormat(_))));
    assert_eq!(boxp.slice(16).unwrap(), buf);
    assert!(matches!(boxp.slice(std::usize::MAX), Err(Error::InvalidFormat(_))));

    let mut boxp = BoxSplitter::new(buf);
    assert_eq!(boxp.slice(1).unwrap(), b"0");
    assert_eq!(boxp.uint16().unwrap(), 0x3132);
    assert_eq!(boxp.uint32().unwrap(), 0x33343536);
    assert_eq!(boxp.uint64().unwrap(), 0x3738396162636465);
}
