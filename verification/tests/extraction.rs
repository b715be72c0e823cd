use isobmff::get_exif_attr;
use isobmff::is_heif;
use isobmff::item::parse_iinf;
use isobmff::item::parse_iloc;
use isobmff::item::parse_infe;
use isobmff::unwrap_exif_attr;
use isobmff::BoxSplitter;
use isobmff::Cursor;
use isobmff::Error;
use isobmff::IoError;
use isobmff::Parser;
use isobmff::Reply;
use isobmff::Request;
use isobmff::Step;

const TIFF: &[u8] = b"MM\0\x2a\0\0\0\x08exif";

fn cat(parts: &[&[u8]]) -> Vec<u8> {
    parts.concat()
}

fn small_box(boxtype: &[u8], body: &[u8]) -> Vec<u8> {
    cat(&[&(8 + body.len() as u32).to_be_bytes(), boxtype, body])
}

fn large_box(boxtype: &[u8], body: &[u8]) -> Vec<u8> {
    cat(&[b"\0\0\0\x01", boxtype, &(16 + body.len() as u64).to_be_bytes(), body])
}

fn open_box(boxtype: &[u8], body: &[u8]) -> Vec<u8> {
    cat(&[b"\0\0\0\0", boxtype, body])
}

fn ftyp() -> Vec<u8> {
    small_box(b"ftyp", b"heic\0\0\0\0heicmif1")
}

fn infe(id: u16, item_type: &[u8]) -> Vec<u8> {
    small_box(b"infe", &cat(&[b"\x02\0\0\0", &id.to_be_bytes(), b"\0\0", item_type, b"\0"]))
}

fn iinf(entries: &[Vec<u8>]) -> Vec<u8> {
    let mut body = cat(&[b"\0\0\0\0", &(entries.len() as u16).to_be_bytes()]);
    for entry in entries {
        body.extend_from_slice(entry);
    }
    small_box(b"iinf", &body)
}

// Version 1, with four-byte offsets and lengths and no base offset.
fn iloc(id: u16, method: u8, extents: &[(u32, u32)]) -> Vec<u8> {
    let mut body = cat(&[
        b"\x01\0\0\0\x44\0\0\x01",
        &id.to_be_bytes(),
        &[0, method],
        b"\0\0",
        &(extents.len() as u16).to_be_bytes(),
    ]);
    for (offset, length) in extents {
        body.extend_from_slice(&offset.to_be_bytes());
        body.extend_from_slice(&length.to_be_bytes());
    }
    small_box(b"iloc", &body)
}

fn meta(children: &[Vec<u8>]) -> Vec<u8> {
    let mut body = b"\0\0\0\0".to_vec();
    for child in children {
        body.extend_from_slice(child);
    }
    small_box(b"meta", &body)
}

fn exif_entry() -> Vec<u8> {
    iinf(&[infe(1, b"hvc1"), infe(2, b"Exif")])
}

fn block() -> Vec<u8> {
    cat(&[b"\0\0\0\x06", b"Exif\0\0", TIFF])
}

// A file with the Exif block in its item data box.
fn idat_file(extents: &[(u32, u32)]) -> Vec<u8> {
    cat(&[
        &ftyp(),
        &meta(&[exif_entry(), iloc(2, 1, extents), small_box(b"idat", &block())]),
        b"trailing",
    ])
}

// A file with the Exif block in its media data box.
fn mdat_file(length: impl Fn(usize) -> u32) -> Vec<u8> {
    let front = cat(&[&ftyp(), &meta(&[exif_entry(), iloc(2, 0, &[(0, 0)])])]).len();
    let extent = (front as u32 + 8, length(block().len()));
    cat(&[
        &ftyp(),
        &meta(&[exif_entry(), iloc(2, 0, &[extent])]),
        &small_box(b"mdat", &block()),
    ])
}

fn attr(file: &[u8]) -> Result<Vec<u8>, Error> {
    get_exif_attr(&mut Cursor::new(file))
}

fn invalid(message: &'static str) -> Result<Vec<u8>, Error> {
    Err(Error::InvalidFormat(message))
}

#[test]
fn exif_in_item_data_box() {
    let len = block().len() as u32;
    assert_eq!(attr(&idat_file(&[(0, len)])), Ok(TIFF.to_vec()));
    // A length of 0 means up to the end of the box.
    assert_eq!(attr(&idat_file(&[(0, 0)])), Ok(TIFF.to_vec()));
    // Extents are put together in order.
    assert_eq!(attr(&idat_file(&[(0, 4), (4, 7), (11, len - 11)])), Ok(TIFF.to_vec()));
    assert_eq!(
        attr(&idat_file(&[(0, 4), (4, 6), (12, 2), (10, 2)])),
        Ok(b"\0\x2aMM".to_vec())
    );
}

#[test]
fn exif_in_media_data_box() {
    assert_eq!(attr(&mdat_file(|len| len as u32)), Ok(TIFF.to_vec()));
    // A length of 0 means up to the end of the file.
    assert_eq!(attr(&mdat_file(|_| 0)), Ok(TIFF.to_vec()));
}

#[test]
fn extents_are_joined() {
    let front = cat(&[&ftyp(), &meta(&[exif_entry(), iloc(2, 0, &[(0, 0), (0, 0), (0, 0)])])]);
    let at = front.len() as u32;
    // The pieces lie in another order than they are read in.
    let data = b"EFG\0\0\0\0ABCD";
    let extents = [(at + 3, 4), (at + 7, 4), (at, 3)];
    let file = cat(&[&ftyp(), &meta(&[exif_entry(), iloc(2, 0, &extents)]), data]);
    assert_eq!(attr(&file), Ok(b"ABCDEFG".to_vec()));
    let extents = [(at + 3, 4), (at + 7, 5), (at, 3)];
    let file = cat(&[&ftyp(), &meta(&[exif_entry(), iloc(2, 0, &extents)]), data]);
    assert_eq!(attr(&file), invalid("Broken HEIF file"));
}

#[test]
fn extent_past_end_of_file() {
    assert_eq!(attr(&mdat_file(|len| len as u32 + 1)), invalid("Broken HEIF file"));
    let file = cat(&[&ftyp(), &meta(&[exif_entry(), iloc(2, 0, &[(0x1000, 4)])])]);
    assert_eq!(attr(&file), invalid("Broken HEIF file"));
    let file = cat(&[&ftyp(), &meta(&[exif_entry(), iloc(2, 0, &[(0x1000, 0)])])]);
    assert_eq!(attr(&file), invalid("Broken HEIF file"));
}

#[test]
fn open_extent_at_end_of_file() {
    let of = |extents: &[(u32, u32)]| {
        cat(&[&ftyp(), &meta(&[exif_entry(), iloc(2, 0, extents)]), &block()])
    };
    let one = of(&[(0, 0)]).len() as u32;
    // One that starts where the file ends is empty, one that starts later is refused.
    assert_eq!(requests(&of(&[(one, 0)])).1, Ok(vec![]));
    assert_eq!(attr(&of(&[(one, 0)])), invalid("ExifDataBlock too small"));
    assert_eq!(requests(&of(&[(one - 1, 0)])).1, Ok(b"f".to_vec()));
    assert_eq!(
        requests(&of(&[(one + 1, 0)])).1,
        Err(Error::Io(IoError::UnexpectedEof("truncated extent")))
    );
    assert_eq!(attr(&of(&[(one + 1, 0)])), invalid("Broken HEIF file"));
    // The same holds behind another extent.
    let len = block().len() as u32;
    let two = of(&[(0, 0), (0, 0)]).len() as u32;
    assert_eq!(attr(&of(&[(two - len, len), (two, 0)])), Ok(TIFF.to_vec()));
    assert_eq!(attr(&of(&[(two - len, len), (two + 1, 0)])), invalid("Broken HEIF file"));
    assert_eq!(attr(&of(&[(two + 1, 0), (two - len, len)])), invalid("Broken HEIF file"));

    let file = of(&[(one + 7, 0)]);
    let mut cursor = Cursor::new(&file);
    assert_eq!(get_exif_attr(&mut cursor), invalid("Broken HEIF file"));
    assert_eq!(cursor.position(), one as u64 + 7);
}

#[test]
fn position_after_extraction() {
    let file = mdat_file(|len| len as u32);
    let mut cursor = Cursor::new(&file);
    assert!(get_exif_attr(&mut cursor).is_ok());
    assert_eq!(cursor.position(), file.len() as u64);

    let len = block().len() as u32;
    let file = idat_file(&[(0, len)]);
    let mut cursor = Cursor::new(&file);
    assert!(get_exif_attr(&mut cursor).is_ok());
    assert_eq!(cursor.position(), file.len() as u64 - 8);
}

#[test]
fn extraction_from_a_position() {
    let file = cat(&[b"junk", &idat_file(&[(0, 0)])]);
    let mut cursor = Cursor::new(&file);
    assert!(matches!(cursor.answer(Request::SeekStart(4)), Reply::Sought));
    assert_eq!(get_exif_attr(&mut cursor), Ok(TIFF.to_vec()));
}

#[test]
fn other_boxes_are_skipped() {
    let file = idat_file(&[(0, 0)]);
    let skipped = cat(&[
        &small_box(b"free", b"12345"),
        &file[..ftyp().len()],
        &large_box(b"free", b"67"),
        &file[ftyp().len()..],
    ]);
    assert_eq!(attr(&skipped), Ok(TIFF.to_vec()));
    // A box that extends to the end of the file leaves nothing.
    let nothing = cat(&[&ftyp(), &open_box(b"mdat", b"123")]);
    assert_eq!(attr(&nothing), Err(Error::NotFound("No Exif data found")));
    // One whose end is past the end of the file is skipped as well.
    let nothing = cat(&[&ftyp(), b"\0\0\0\x20mdat123"]);
    assert_eq!(attr(&nothing), Err(Error::NotFound("No Exif data found")));
}

#[test]
fn boxes_of_other_sizes() {
    let children = cat(&[
        b"\0\0\0\0",
        &exif_entry(),
        &iloc(2, 1, &[(0, 0)]),
        &open_box(b"idat", &block()),
    ]);
    assert_eq!(attr(&cat(&[&ftyp(), &open_box(b"meta", &children)])), Ok(TIFF.to_vec()));
    assert_eq!(attr(&cat(&[&ftyp(), &large_box(b"meta", &children), b"x"])), Ok(TIFF.to_vec()));
    let too_large = cat(&[&ftyp(), b"\0\0\0\x01mdat\x80\0\0\0\0\0\0\x10"]);
    assert_eq!(attr(&too_large), invalid("Large seek not supported"));
    let largest = cat(&[&ftyp(), b"\0\0\0\x01mdat\x80\0\0\0\0\0\0\x0f"]);
    assert_eq!(attr(&largest), Err(Error::NotFound("No Exif data found")));
    let mut cursor = Cursor::new(&largest);
    assert!(matches!(cursor.answer(Request::SeekStart(u64::MAX)), Reply::Sought));
    assert_eq!(get_exif_attr(&mut cursor), Err(Error::NotFound("No Exif data found")));
    assert_eq!(cursor.position(), u64::MAX);
}

#[test]
fn no_exif_data() {
    assert_eq!(attr(b""), Err(Error::NotFound("No Exif data found")));
    assert_eq!(attr(&ftyp()), Err(Error::NotFound("No Exif data found")));
    let file = cat(&[&ftyp(), &meta(&[iinf(&[infe(1, b"hvc1")]), iloc(1, 1, &[(0, 0)])])]);
    assert_eq!(attr(&file), Err(Error::NotFound("No Exif data found")));
}

#[test]
fn truncated_file() {
    let file = idat_file(&[(0, 0)]);
    let meta_end = file.len() - 8;
    for end in 1..meta_end {
        let expected = if end == ftyp().len() {
            Err(Error::NotFound("No Exif data found"))
        } else {
            invalid("Broken HEIF file")
        };
        assert_eq!(attr(&file[..end]), expected);
    }
    assert_eq!(attr(&file[..meta_end]), Ok(TIFF.to_vec()));
}

#[test]
fn file_type() {
    let rest = meta(&[exif_entry(), iloc(2, 1, &[(0, 0)]), small_box(b"idat", &block())]);
    let with = |ftyp_body: &[u8]| attr(&cat(&[&small_box(b"ftyp", ftyp_body), &rest]));
    assert_eq!(with(b"mif1\0\0\0\0msf1"), Ok(TIFF.to_vec()));
    assert_eq!(with(b"abcd\0\0\0\0abcdefghmif1"), Ok(TIFF.to_vec()));
    assert_eq!(with(b"mif1\0\0\0\0"), invalid("Not a HEIF file"));
    assert_eq!(with(b"mif1\0\0\0\0heicmif"), invalid("Not a HEIF file"));
    assert_eq!(with(b"mif1\0\0\0\0abmif1cd"), invalid("Not a HEIF file"));
    assert_eq!(with(b"mif1\0\0\0"), invalid("Box too small"));
    assert_eq!(attr(&rest), invalid("Found MetaBox before FileTypeBox"));
}

#[test]
fn metadata_errors() {
    let with = |body: &[u8]| attr(&cat(&[&ftyp(), &small_box(b"meta", body)]));
    let of = |children: &[Vec<u8>]| attr(&cat(&[&ftyp(), &meta(children)]));
    let idat = || small_box(b"idat", &block());
    assert_eq!(with(b"\0\0\0"), invalid("Box too small"));
    assert_eq!(with(b"\x01\0\0\0"), invalid("Unsupported MetaBox"));
    assert_eq!(with(b"\0\0\0\0\0\0\0\x07abcd"), invalid("Invalid box size"));
    assert_eq!(with(b"\0\0\0\0\0\0\0\x09abcd"), invalid("Box too small"));
    assert_eq!(of(&[exif_entry()]), invalid("No ItemLocationBox"));
    assert_eq!(
        of(&[exif_entry(), iloc(3, 1, &[(0, 0)]), idat()]),
        invalid("No matching item in ItemLocationBox")
    );
    assert_eq!(of(&[exif_entry(), iloc(2, 1, &[(0, 0)])]), invalid("No ItemDataBox"));
    assert_eq!(
        of(&[exif_entry(), iloc(2, 2, &[(0, 0)])]),
        Err(Error::NotSupported("Construction by item offset is supported"))
    );
    assert_eq!(
        of(&[exif_entry(), iloc(2, 3, &[(0, 0)])]),
        invalid("Invalid construction_method")
    );
    let len = block().len() as u32;
    assert_eq!(
        of(&[exif_entry(), iloc(2, 1, &[(1, len)]), idat()]),
        invalid("Out of ItemDataBox")
    );
    assert_eq!(
        of(&[exif_entry(), iloc(2, 1, &[(len + 1, 0)]), idat()]),
        invalid("Out of ItemDataBox")
    );
    assert_eq!(
        of(&[exif_entry(), iloc(2, 1, &[(len, 0)]), idat()]),
        invalid("ExifDataBlock too small")
    );
    // The order of the children does not matter, and later ones count.
    assert_eq!(
        of(&[
            small_box(b"idat", b"other"),
            idat(),
            iloc(9, 1, &[(0, 0)]),
            iloc(2, 1, &[(0, 0)]),
            small_box(b"free", b""),
            iinf(&[infe(7, b"Exif")]),
            exif_entry(),
        ]),
        Ok(TIFF.to_vec())
    );
}

#[test]
fn offsets_that_overflow() {
    let wide = |method: u8, base: u64, offset: u64, length: u64| {
        let body = cat(&[
            b"\x01\0\0\0\x88\x80\0\x01\0\x02",
            &[0, method],
            b"\0\0",
            &base.to_be_bytes(),
            b"\0\x01",
            &offset.to_be_bytes(),
            &length.to_be_bytes(),
        ]);
        let children = [exif_entry(), small_box(b"iloc", &body), small_box(b"idat", &block())];
        attr(&cat(&[&ftyp(), &meta(&children)]))
    };
    assert_eq!(wide(1, 0, 0, 0), Ok(TIFF.to_vec()));
    assert_eq!(wide(1, u64::MAX, 1, 0), invalid("Invalid offset"));
    assert_eq!(wide(0, u64::MAX, 1, 0), invalid("Invalid offset"));
    assert_eq!(wide(1, u64::MAX, 0, 1), invalid("Invalid length"));
    assert_eq!(wide(0, u64::MAX, 0, 1), invalid("Broken HEIF file"));
    assert_eq!(wide(2, u64::MAX, 1, 0), Err(Error::NotSupported("Construction by item offset is supported")));
}

#[test]
fn item_information_entries() {
    let of = |body: &[u8]| parse_infe(BoxSplitter::new(body));
    assert_eq!(of(b"\x02\0\0\0\x01\x02\0\0Exif"), Ok(Some(0x102)));
    assert_eq!(of(b"\x03\0\0\0\x01\x02\x03\x04\0\0Exifname"), Ok(Some(0x1020304)));
    assert_eq!(of(b"\x02\0\0\0\x01\x02\0\0hvc1"), Ok(None));
    assert_eq!(of(b"\x01\0\0\0\x01\x02\0\0Exif"), Err(Error::InvalidFormat("Unsupported ItemInfoEntry")));
    assert_eq!(of(b"\x02\0\0\0\x01\x02\0\0Exi"), Err(Error::InvalidFormat("Box too small")));
    assert_eq!(of(b"\x02\0\0"), Err(Error::InvalidFormat("Box too small")));

    let all = |body: &[u8], found| parse_iinf(BoxSplitter::new(body), found);
    let entries = cat(&[&infe(5, b"Exif"), &infe(6, b"Exif"), &small_box(b"free", b""), &infe(7, b"Exif")]);
    assert_eq!(all(&cat(&[b"\0\0\0\0\0\x03", &entries]), None), Ok(Some(6)));
    assert_eq!(all(&cat(&[b"\x01\0\0\0\0\0\0\x04", &entries]), None), Ok(Some(7)));
    assert_eq!(all(b"\0\0\0\0\0\0", Some(9)), Ok(Some(9)));
    assert_eq!(all(b"\0\0\0\0\0\x01", Some(9)), Err(Error::InvalidFormat("Box too small")));
    assert_eq!(all(b"\x01\0\0\0\0\0", None), Err(Error::InvalidFormat("Box too small")));
}

#[test]
fn item_locations() {
    let of = |body: &[u8], id| parse_iloc(BoxSplitter::new(body), id);
    // Version 0: no construction method and no index.
    let location = of(b"\0\0\0\0\x44\x4f\0\x01\0\x02\0\0\0\0\0\x10\0\x01\0\0\0\x20\0\0\0\x30", 2)
        .unwrap()
        .unwrap();
    assert_eq!(location.construction_method, 0);
    assert_eq!(location.base_offset, 0x10);
    assert_eq!(location.extents, vec![(0, 0x20, 0x30)]);
    // Version 2: four-byte counts and IDs, and an index.
    let location = of(
        b"\x02\0\0\0\x04\x04\0\0\0\x01\0\0\0\x02\xff\xf1\0\x07\0\x02\0\0\0\x05\0\0\0\x06\0\0\0\x07\0\0\0\x08",
        2,
    )
    .unwrap()
    .unwrap();
    assert_eq!(location.construction_method, 1);
    assert_eq!(location.base_offset, 0);
    assert_eq!(location.extents, vec![(5, 0, 6), (7, 0, 8)]);
    // Other items are passed over, and the last entry counts.
    let body = b"\x01\0\0\0\x04\x00\0\x03\0\x01\0\x01\0\0\0\x01\0\0\0\x09\0\x02\0\x01\0\0\0\x01\0\0\0\x05\0\x02\0\x03\0\0\0\0";
    let location = of(body, 2).unwrap().unwrap();
    assert_eq!(location.construction_method, 3);
    assert!(location.extents.is_empty());
    assert!(of(body, 3).unwrap().is_none());
}

#[test]
fn item_location_errors() {
    let of = |body: &[u8]| parse_iloc(BoxSplitter::new(body), 2).map(|_| ()).unwrap_err();
    let small = Error::InvalidFormat("Box too small");
    assert_eq!(of(b"\x03\0\0\0\0"), small);
    assert_eq!(of(b"\x03\0\0\0\0\0"), Error::InvalidFormat("Unsupported ItemLocationBox"));
    assert_eq!(of(b"\x02\0\0\0\0\0\0\0"), small);
    assert_eq!(of(b"\0\0\0\0\0\0\0\x01\0\x02\0"), small);
    assert_eq!(
        of(b"\0\0\0\0\0\0\0\x01\0\x02\0\x01"),
        Error::NotSupported("External data reference is not supported")
    );
    assert_eq!(
        of(b"\0\0\0\0\0\x10\0\x01\0\x02\0\0"),
        Error::InvalidFormat("Invalid base_offset_size")
    );
    assert_eq!(of(b"\0\0\0\0\0\0\0\x01\0\x02\0\0"), small);
    assert_eq!(
        of(b"\x01\0\0\0\0\x01\0\x01\0\x02\0\x01\0\0\0\x01"),
        Error::InvalidFormat("Invalid index_size")
    );
    assert_eq!(
        of(b"\x01\0\0\0\x10\0\0\x01\0\x02\0\x01\0\0\0\x01"),
        Error::InvalidFormat("Invalid offset_size")
    );
    assert_eq!(
        of(b"\x01\0\0\0\x41\0\0\x01\0\x02\0\x01\0\0\0\x01\0\0\0\0"),
        Error::InvalidFormat("Invalid length_size")
    );
    assert_eq!(of(b"\x01\0\0\0\x41\0\0\x01\0\x02\0\x01\0\0\0\x01\0\0\0"), small);
    assert_eq!(of(b"\x01\0\0\0\x04\0\0\x01\0\x02\0\x01\0\0\0\x02\0\0\0\0\0\0\0"), small);
    // The widths of an item that is not wanted may be any.
    assert_eq!(of(b"\x01\0\0\0\xff\x0f\0\x01\0\x03\0\x01\0\0\0\x01\0\0\0"), small);
    // Without extents the widths do not matter.
    assert!(parse_iloc(BoxSplitter::new(b"\x01\0\0\0\xff\x0f\0\x01\0\x02\0\x01\0\0\0\0"), 2).is_ok());
}

#[test]
fn exif_header_offset() {
    let of = |block: &[u8]| unwrap_exif_attr(Ok(block.to_vec()));
    assert_eq!(of(b"\0\0\0\0abc"), Ok(b"abc".to_vec()));
    assert_eq!(of(b"\0\0\0\x02abc"), Ok(b"c".to_vec()));
    assert_eq!(of(b"\0\0\0\x03abc"), Ok(b"".to_vec()));
    assert_eq!(of(b"\0\0\0\x04abc"), invalid("Invalid Exif header offset"));
    assert_eq!(of(b"\xff\xff\xff\xffabc"), invalid("Invalid Exif header offset"));
    assert_eq!(of(b"\0\0\0"), invalid("ExifDataBlock too small"));
    assert_eq!(
        unwrap_exif_attr(Err(Error::Io(IoError::UnexpectedEof("any")))),
        invalid("Broken HEIF file")
    );
    assert_eq!(
        unwrap_exif_attr(Err(Error::Io(IoError::Other("any")))),
        Err(Error::Io(IoError::Other("any")))
    );
    assert_eq!(unwrap_exif_attr(Err(Error::NotFound("any"))), Err(Error::NotFound("any")));
}

// Runs a parser over `file`, and returns its requests along with the data.
fn requests(file: &[u8]) -> (Vec<Request>, Result<Vec<u8>, Error>) {
    let mut cursor = Cursor::new(file);
    let mut parser = Parser::new();
    let mut requests = Vec::new();
    loop {
        let request = parser.request();
        requests.push(request);
        match parser.parse(cursor.answer(request)) {
            Step::Continue(after) => parser = after,
            Step::Done(result) => return (requests, result),
        }
    }
}

#[test]
fn requests_of_a_parser() {
    let file = mdat_file(|len| len as u32);
    let ftyp_len = ftyp().len() as u64 - 8;
    let front = file.len() - block().len();
    let meta_len = front as u64 - 8 - 8 - ftyp_len - 8;
    let (asked, result) = requests(&file);
    assert_eq!(
        asked,
        vec![
            Request::Read(8),
            Request::Read(ftyp_len),
            Request::Read(8),
            Request::Read(meta_len),
            Request::SeekStart(front as u64),
            Request::Read(block().len() as u64),
        ]
    );
    assert_eq!(result, Ok(block()));

    let file = mdat_file(|_| 0);
    let (asked, result) = requests(&file);
    assert_eq!(asked[4..], [Request::SeekStart(front as u64), Request::ReadToEnd]);
    assert_eq!(result, Ok(block()));

    // Where there is nothing to read up to the end, the byte before is looked for.
    let front = cat(&[&ftyp(), &meta(&[exif_entry(), iloc(2, 0, &[(0, 0)])])]).len() as u32;
    let at = |off: u32| {
        requests(&cat(&[&ftyp(), &meta(&[exif_entry(), iloc(2, 0, &[(off, 0)])])])).0[4..].to_vec()
    };
    let end = front as u64;
    assert_eq!(
        at(front),
        [
            Request::SeekStart(end),
            Request::ReadToEnd,
            Request::SeekStart(end - 1),
            Request::Read(1),
        ]
    );
    assert_eq!(
        at(front + 5),
        [
            Request::SeekStart(end + 5),
            Request::ReadToEnd,
            Request::SeekStart(end + 4),
            Request::Read(1),
            Request::SeekStart(end + 5),
        ]
    );
    assert_eq!(at(0), [Request::SeekStart(0), Request::ReadToEnd]);

    let (asked, result) = requests(&cat(&[&large_box(b"free", b"12"), &open_box(b"free", b"3")]));
    assert_eq!(
        asked,
        vec![
            Request::Read(8),
            Request::Read(8),
            Request::SeekCurrent(2),
            Request::Read(8),
            Request::SeekEnd,
            Request::Read(8),
        ]
    );
    assert_eq!(result, Err(Error::NotFound("No Exif data found")));
}

#[test]
fn failure_of_the_reader() {
    let file = mdat_file(|_| 0);
    let (asked, _) = requests(&file);
    for failing in 0..asked.len() {
        let mut cursor = Cursor::new(&file);
        let mut parser = Parser::new();
        for _ in 0..failing {
            let request = parser.request();
            match parser.parse(cursor.answer(request)) {
                Step::Continue(after) => parser = after,
                Step::Done(_) => unreachable!(),
            }
        }
        match parser.parse(Reply::Failed(IoError::Other("gone"))) {
            Step::Continue(_) => unreachable!(),
            Step::Done(result) => assert_eq!(result, Err(Error::Io(IoError::Other("gone")))),
        }
    }
}

#[test]
fn extents_without_a_seek_to_the_end() {
    // A reader that refuses to be moved to the end of the file.
    let of = |file: &[u8]| {
        let mut cursor = Cursor::new(file);
        let mut parser = Parser::new();
        loop {
            let reply = match parser.request() {
                Request::SeekEnd => Reply::Failed(IoError::Other("no end")),
                request => cursor.answer(request),
            };
            match parser.parse(reply) {
                Step::Continue(after) => parser = after,
                Step::Done(result) => return result,
            }
        }
    };
    assert_eq!(of(&mdat_file(|_| 0)), Ok(block()));
    assert_eq!(of(&mdat_file(|len| len as u32)), Ok(block()));
    let file = |off: u32| cat(&[&ftyp(), &meta(&[exif_entry(), iloc(2, 0, &[(off, 0)])])]);
    let end = file(0).len() as u32;
    assert_eq!(of(&file(end)), Ok(vec![]));
    assert_eq!(
        of(&file(end + 1)),
        Err(Error::Io(IoError::UnexpectedEof("truncated extent")))
    );
    assert_eq!(of(&open_box(b"free", b"")), Err(Error::Io(IoError::Other("no end"))));
}

#[test]
fn open_extent_of_an_empty_file() {
    let file = cat(&[&ftyp(), &meta(&[exif_entry(), iloc(2, 0, &[(0, 0)])])]);
    let mut cursor = Cursor::new(&file);
    let mut parser = Parser::new();
    // The file has been emptied by the time that the extent is read.
    loop {
        let request = parser.request();
        let reply = match request {
            Request::ReadToEnd => Reply::Data(vec![]),
            _ => cursor.answer(request),
        };
        match parser.parse(reply) {
            Step::Continue(after) => parser = after,
            Step::Done(result) => {
                assert_eq!(request, Request::ReadToEnd);
                assert_eq!(result, Ok(vec![]));
                return;
            }
        }
    }
}

#[test]
fn reply_to_another_request() {
    let parser = match Parser::new().parse(Reply::Sought) {
        Step::Continue(parser) => parser,
        Step::Done(_) => unreachable!(),
    };
    assert_eq!(parser.request(), Request::Read(8));
}

#[test]
fn reader_in_memory() {
    let mut cursor = Cursor::new(b"0123456789");
    assert_eq!(cursor.read(4), b"0123");
    assert_eq!(cursor.position(), 4);
    assert!(matches!(cursor.answer(Request::SeekCurrent(-3)), Reply::Sought));
    assert_eq!(cursor.read(100), b"123456789");
    assert_eq!(cursor.read(1), b"");
    assert!(matches!(cursor.answer(Request::SeekStart(12)), Reply::Sought));
    assert_eq!(cursor.read(1), b"");
    assert_eq!(cursor.position(), 12);
    assert!(matches!(
        cursor.answer(Request::SeekCurrent(-13)),
        Reply::Failed(IoError::Other("invalid seek to a negative or overflowing position"))
    ));
    assert_eq!(cursor.position(), 12);
    assert!(matches!(cursor.answer(Request::SeekStart(u64::MAX)), Reply::Sought));
    assert!(matches!(cursor.answer(Request::SeekCurrent(1)), Reply::Failed(_)));
    assert!(matches!(cursor.answer(Request::SeekEnd), Reply::Sought));
    assert_eq!(cursor.position(), 10);
}

#[test]
fn heif_brands() {
    for brand in [
        b"mif1", b"heic", b"heix", b"heim", b"heis", b"msf1", b"hevc", b"hevx", b"hevm", b"hevs",
    ] {
        assert!(is_heif(&cat(&[&small_box(b"ftyp", brand), b"?"])));
        assert!(is_heif(&small_box(b"ftyp", &cat(&[brand, b"\0\0\0\0isom"]))));
    }
    assert!(!is_heif(&small_box(b"ftyp", b"isom\0\0\0\0mif1")));
    assert!(!is_heif(&small_box(b"ftyp", b"mif")));
    assert!(!is_heif(b""));
    assert!(!is_heif(&small_box(b"free", b"mif1")));
    assert!(is_heif(&cat(&[&small_box(b"free", b"12"), &open_box(b"ftyp", b"heic")])));
    assert!(is_heif(&cat(&[&large_box(b"free", b"12"), &large_box(b"ftyp", b"heic")])));
    // The first file type box decides.
    assert!(!is_heif(&cat(&[&small_box(b"ftyp", b"isom"), &small_box(b"ftyp", b"mif1")])));
}

#[test]
fn heif_by_prefix() {
    let file = idat_file(&[(0, 0)]);
    for end in ftyp().len()..file.len() {
        assert!(is_heif(&file[..end]));
    }
}
