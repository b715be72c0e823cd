//! Reading a file box by box.

use vstd::prelude::*;

use crate::endian::be_bytes;
use crate::endian::law_read_written_uint;
use crate::endian::lemma_be_bytes_len;
use crate::endian::lemma_uint_4;
use crate::error::Error;
use crate::error::IoError;
use crate::exif::Outcome;
use crate::exif::exif_attr;
use crate::exif::exif_item_data;
use crate::exif::file_box_body;
use crate::exif::item_data;
use crate::fourcc::fourcc;
use crate::ftyp::ftyp_check;
use crate::header::file_box_header;
use crate::laws::framing::Framing;
use crate::laws::framing::LaidBox;
use crate::laws::framing::boxes_bytes;
use crate::laws::framing::boxes_fit;
use crate::laws::framing::lemma_first_box;
use crate::laws::law_other_boxes_skipped;
use crate::layout::lemma_values;
use crate::meta::meta_exif_item;
use crate::parser::ParserView;
use crate::parser::StepView;
use crate::reader::ReplyView;
use crate::reader::Request;
use crate::reader::answer;
use crate::reader::bytes_from;
use crate::reader::window;
use crate::splitter::header_len;

verus! {

/// A reader gives what lies from its position on: as many bytes as are asked for, or
/// all that there are, and moves behind them.
pub proof fn law_reader_reads(before: Seq<u8>, block: Seq<u8>, after: Seq<u8>, n: u64)
    ensures
        n == block.len() ==> answer(before + block + after, before.len(), Request::Read(n)) == (
            ReplyView::Data(block),
            before.len() + block.len(),
        ),
        n >= block.len() ==> answer(before + block, before.len(), Request::Read(n)) == (
            ReplyView::Data(block),
            before.len() + block.len(),
        ),
        answer(before + block, before.len(), Request::ReadToEnd) == (
            ReplyView::Data(block),
            before.len() + block.len(),
        ),
{
    lemma_window(before, block, after);
    assert((before + block).skip(before.len() as int) =~= block);
}

/// What lies in the middle of a file is read there.
proof fn lemma_window(before: Seq<u8>, block: Seq<u8>, after: Seq<u8>)
    ensures
        window(before + block + after, before.len(), block.len()) == block,
{
    assert(window(before + block + after, before.len(), block.len()) =~= block);
}

/// What lies at the end of a file is read there, even if more is asked for.
proof fn lemma_window_at_end(before: Seq<u8>, rest: Seq<u8>, n: nat)
    requires
        n >= rest.len(),
    ensures
        window(before + rest, before.len(), n) == rest,
        bytes_from(before + rest, before.len()) == rest,
{
    assert((before + rest).skip(before.len() as int) =~= rest);
}

/// Beyond the end there is nothing to read, and the reader stays there.
pub proof fn law_reader_beyond_end(data: Seq<u8>, pos: nat, n: u64)
    requires
        pos >= data.len(),
    ensures
        answer(data, pos, Request::Read(n)) == (ReplyView::Data(Seq::empty()), pos),
        answer(data, pos, Request::ReadToEnd) == (ReplyView::Data(Seq::empty()), pos),
{
    assert(bytes_from(data, pos) =~= Seq::empty());
}

/// A reader moves to where it is told to. It stays where it is if that is before the
/// start or past the largest position.
pub proof fn law_reader_moves(data: Seq<u8>, pos: nat, to: u64, by: i64)
    ensures
        answer(data, pos, Request::SeekStart(to)) == (ReplyView::Sought, to as nat),
        answer(data, pos, Request::SeekEnd) == (ReplyView::Sought, data.len()),
        0 <= pos + by <= u64::MAX ==> answer(data, pos, Request::SeekCurrent(by)) == (
            ReplyView::Sought,
            (pos + by) as nat,
        ),
        !(0 <= pos + by <= u64::MAX) ==> answer(data, pos, Request::SeekCurrent(by)) == (
            ReplyView::Failed(
                IoError::Other("invalid seek to a negative or overflowing position"),
            ),
            pos,
        ),
{
}

/// A parser that has asked for bytes is not helped by a move, nor one that has asked
/// for a move by bytes: it asks again.
pub proof fn law_unfit_reply(parser: ParserView, bytes: Seq<u8>)
    ensures
        match parser.request() {
            Request::Read(_) | Request::ReadToEnd => parser.on_reply(ReplyView::Sought)
                == StepView::Continue(parser),
            _ => parser.on_reply(ReplyView::Data(bytes)) == StepView::Continue(parser),
        },
{
}

/// The header of a box with a four-byte size, anywhere in a file: the size counts the
/// eight bytes of the header too, and 0 stands for the largest body there could be.
pub proof fn law_file_header(before: Seq<u8>, size: u32, boxtype: Seq<u8>, after: Seq<u8>)
    requires
        boxtype.len() == 4,
        size != 1,
    ensures
        file_box_header(
            before + be_bytes(size as nat, 4) + boxtype + after,
            before.len(),
        ) == if size == 0 {
            (Ok::<_, Error>(Some((u64::MAX, boxtype))), before.len() + 8)
        } else if size < 8 {
            (Err(Error::InvalidFormat("Invalid box size")), before.len() + 8)
        } else {
            (Ok(Some(((size - 8) as u64, boxtype))), before.len() + 8)
        },
{
    let data = before + be_bytes(size as nat, 4) + boxtype + after;
    let head = be_bytes(size as nat, 4) + boxtype;
    lemma_values();
    law_read_written_uint(size as nat, 4);
    assert(data =~= before + head + after);
    lemma_window(before, head, after);
    assert(head.subrange(0, 4) =~= be_bytes(size as nat, 4));
    assert(head.subrange(4, 8) =~= boxtype);
}

/// The header of a box with an eight-byte size, anywhere in a file: the size counts
/// the sixteen bytes of the header too.
pub proof fn law_file_large_header(before: Seq<u8>, size: u64, boxtype: Seq<u8>, after: Seq<u8>)
    requires
        boxtype.len() == 4,
    ensures
        file_box_header(
            before + be_bytes(1, 4) + boxtype + be_bytes(size as nat, 8) + after,
            before.len(),
        ) == if size < 16 {
            (
                Err::<Option<(u64, Seq<u8>)>, _>(Error::InvalidFormat("Invalid box size")),
                before.len() + 16,
            )
        } else {
            (Ok(Some(((size - 16) as u64, boxtype))), before.len() + 16)
        },
{
    let field = be_bytes(size as nat, 8);
    let head = be_bytes(1, 4) + boxtype;
    let data = before + be_bytes(1, 4) + boxtype + field + after;
    lemma_values();
    law_read_written_uint(1, 4);
    law_read_written_uint(size as nat, 8);
    assert(data =~= before + head + (field + after));
    lemma_window(before, head, field + after);
    assert(head.subrange(0, 4) =~= be_bytes(1, 4));
    assert(head.subrange(4, 8) =~= boxtype);
    assert(data =~= (before + head) + field + after);
    lemma_window(before + head, field, after);
    assert(field.subrange(0, 8) =~= field);
}

/// A file that ends in the middle of a header is truncated there. One that ends before
/// it has no more boxes.
pub proof fn law_file_header_cut_off(before: Seq<u8>, part: Seq<u8>, boxtype: Seq<u8>)
    requires
        part.len() < 8,
        boxtype.len() == 4,
    ensures
        part.len() == 0 ==> file_box_header(before + part, before.len()) == (
            Ok::<_, Error>(None::<(u64, Seq<u8>)>),
            before.len(),
        ),
        part.len() > 0 ==> file_box_header(before + part, before.len()) == (
            Err::<Option<(u64, Seq<u8>)>, _>(Error::Io(IoError::UnexpectedEof("truncated box"))),
            before.len() + part.len(),
        ),
        file_box_header(before + be_bytes(1, 4) + boxtype + part, before.len()) == (
            Err::<Option<(u64, Seq<u8>)>, _>(
                Error::Io(IoError::UnexpectedEof("failed to fill whole buffer")),
            ),
            before.len() + 8 + part.len(),
        ),
{
    lemma_window_at_end(before, part, 8);
    let head = be_bytes(1, 4) + boxtype;
    let data = before + be_bytes(1, 4) + boxtype + part;
    lemma_values();
    law_read_written_uint(1, 4);
    assert(data =~= before + head + part);
    lemma_window(before, head, part);
    assert(head.subrange(0, 4) =~= be_bytes(1, 4));
    assert(head.subrange(4, 8) =~= boxtype);
    assert(data =~= (before + head) + part);
    lemma_window_at_end(before + head, part, 8);
}

/// The body of a box anywhere in a file is the bytes that lie there. If there are not
/// as many, the file is truncated. A body of the largest size goes up to the end.
pub proof fn law_file_body(before: Seq<u8>, body: Seq<u8>, after: Seq<u8>, size: u64)
    ensures
        size == body.len() && size != u64::MAX ==> file_box_body(
            before + body + after,
            before.len(),
            size,
        ) == (Ok::<_, Error>(body), before.len() + body.len()),
        body.len() < size < u64::MAX ==> file_box_body(before + body, before.len(), size) == (
            Err::<Seq<u8>, _>(Error::Io(IoError::UnexpectedEof("truncated box"))),
            before.len() + body.len(),
        ),
        file_box_body(before + body, before.len(), u64::MAX) == (
            Ok::<_, Error>(body),
            before.len() + body.len(),
        ),
{
    lemma_window(before, body, after);
    lemma_window_at_end(before, body, if size > body.len() {
        size as nat
    } else {
        body.len()
    });
}

/// The size of its body by the header of a box at the top level of a file.
pub open spec fn told_size(laid: LaidBox) -> u64 {
    match laid.framing {
        Framing::Open => u64::MAX,
        _ => laid.body.len() as u64,
    }
}

/// A box at the top level of a file is read back, however it is framed.
pub proof fn law_read_file_framed(before: Seq<u8>, laid: LaidBox, after: Seq<u8>)
    requires
        laid.fits(after),
        laid.body.len() + 16 <= u64::MAX,
    ensures
        ({
            let data = before + laid.bytes() + after;
            let start = (before.len() + laid.bytes().len() - laid.body.len()) as nat;
            &&& file_box_header(data, before.len()) == (
                Ok::<_, Error>(Some((told_size(laid), laid.boxtype))),
                start,
            )
            &&& file_box_body(data, start, told_size(laid)) == (
                Ok::<_, Error>(laid.body),
                before.len() + laid.bytes().len(),
            )
        }),
{
    let data = before + laid.bytes() + after;
    let (boxtype, body) = (laid.boxtype, laid.body);
    lemma_be_bytes_len(8 + body.len(), 4);
    lemma_be_bytes_len(16 + body.len(), 8);
    lemma_be_bytes_len(1, 4);
    lemma_be_bytes_len(0, 4);
    match laid.framing {
        Framing::Small => {
            let size = (8 + body.len()) as u32;
            let head = be_bytes(8 + body.len(), 4) + boxtype;
            assert(data =~= before + be_bytes(8 + body.len(), 4) + boxtype + (body + after));
            law_file_header(before, size, boxtype, body + after);
            assert(data =~= (before + head) + body + after);
            law_file_body(before + head, body, after, body.len() as u64);
        },
        Framing::Large => {
            let size = (16 + body.len()) as u64;
            let head = be_bytes(1, 4) + boxtype + be_bytes(16 + body.len(), 8);
            assert(data =~= before + be_bytes(1, 4) + boxtype + be_bytes(16 + body.len(), 8) + (body
                + after));
            law_file_large_header(before, size, boxtype, body + after);
            assert(data =~= (before + head) + body + after);
            law_file_body(before + head, body, after, body.len() as u64);
        },
        Framing::Open => {
            let head = be_bytes(0, 4) + boxtype;
            assert(after =~= Seq::empty());
            assert(data =~= before + be_bytes(0, 4) + boxtype + body);
            law_file_header(before, 0, boxtype, body);
            assert(data =~= (before + head) + body);
            law_file_body(before + head, body, after, u64::MAX);
        },
    }
}

/// An error in a header is the error of the file, and the end of the file means that
/// there is no Exif data.
pub proof fn law_header_decides(data: Seq<u8>, pos: nat, ftyp_checked: bool)
    ensures
        match file_box_header(data, pos) {
            (Err(e), next) => exif_item_data(data, pos, ftyp_checked) == (Outcome {
                result: Err(e),
                pos: next,
            }),
            (Ok(None), next) => exif_item_data(data, pos, ftyp_checked) == (Outcome {
                result: Err(Error::NotFound("No Exif data found")),
                pos: next,
            }),
            _ => true,
        },
{
}

/// A file type box that is cut off, or not that of a HEIF file, is refused, also
/// behind one that is.
pub proof fn law_ftyp_refused(data: Seq<u8>, pos: nat, ftyp_checked: bool, size: u64)
    requires
        file_box_header(data, pos).0 == Ok::<_, Error>(Some((size, fourcc('f', 't', 'y', 'p')))),
    ensures
        ({
            let (body, next) = file_box_body(data, file_box_header(data, pos).1, size);
            let read = exif_item_data(data, pos, ftyp_checked);
            match body {
                Err(e) => read == (Outcome { result: Err(e), pos: next }),
                Ok(body) => ftyp_check(body) matches Err(e) ==> read == (Outcome {
                    result: Err(e),
                    pos: next,
                }),
            }
        }),
{
}

/// A metadata box that is cut off, or in which no Exif item is found, is the end: no
/// other box is looked at.
pub proof fn law_meta_refused(data: Seq<u8>, pos: nat, size: u64)
    requires
        file_box_header(data, pos).0 == Ok::<_, Error>(Some((size, fourcc('m', 'e', 't', 'a')))),
    ensures
        ({
            let (body, next) = file_box_body(data, file_box_header(data, pos).1, size);
            let read = exif_item_data(data, pos, true);
            match body {
                Err(e) => read == (Outcome { result: Err(e), pos: next }),
                Ok(body) => meta_exif_item(body) matches Err(e) ==> read == (Outcome {
                    result: Err(e),
                    pos: next,
                }),
            }
        }),
{
    assert(fourcc('m', 'e', 't', 'a')[0] != fourcc('f', 't', 'y', 'p')[0]);
}

/// A box of another type that extends to the end of the file leaves nothing. One that
/// is too large to be skipped is an error.
pub proof fn law_other_boxes_not_skipped(
    data: Seq<u8>,
    pos: nat,
    ftyp_checked: bool,
    size: u64,
    boxtype: Seq<u8>,
)
    requires
        file_box_header(data, pos).0 == Ok::<_, Error>(Some((size, boxtype))),
        boxtype != fourcc('f', 't', 'y', 'p'),
        boxtype != fourcc('m', 'e', 't', 'a'),
    ensures
        ({
            let read = exif_item_data(data, pos, ftyp_checked);
            let next = file_box_header(data, pos).1;
            &&& size == u64::MAX ==> read == (Outcome {
                result: Err(Error::NotFound("No Exif data found")),
                pos: data.len(),
            })
            &&& i64::MAX < size < u64::MAX ==> read == (Outcome {
                result: Err(Error::InvalidFormat("Large seek not supported")),
                pos: next,
            })
            &&& size <= i64::MAX && next + size > u64::MAX ==> read == (Outcome {
                result: Err(
                    Error::Io(IoError::Other("invalid seek to a negative or overflowing position")),
                ),
                pos: next,
            })
        }),
{
    if size == u64::MAX {
        assert(window(data, data.len(), 8) =~= Seq::empty());
        law_header_decides(data, data.len(), ftyp_checked);
    }
}

/// Boxes that are skipped.
pub open spec fn are_skipped(boxes: Seq<LaidBox>) -> bool {
    forall|i: int|
        0 <= i < boxes.len() ==> (#[trigger] boxes[i]).boxtype != fourcc('f', 't', 'y', 'p')
            && boxes[i].boxtype != fourcc('m', 'e', 't', 'a') && !(boxes[i].framing is Open)
}

/// What is found from a position on, as a value that is not looked into.
#[verifier::opaque]
spec fn found_from(data: Seq<u8>, pos: nat, ftyp_checked: bool) -> Outcome {
    exif_item_data(data, pos, ftyp_checked)
}

/// What is found by a metadata box that ends at `pos`, likewise.
#[verifier::opaque]
spec fn found_by(data: Seq<u8>, pos: nat, body: Seq<u8>) -> Outcome {
    match meta_exif_item(body) {
        Ok(item) => item_data(data, pos, item),
        Err(e) => Outcome { result: Err(e), pos },
    }
}

proof fn lemma_skip_one(before: Seq<u8>, laid: LaidBox, after: Seq<u8>, ftyp_checked: bool)
    requires
        laid.fits(after),
        !(laid.framing is Open),
        laid.boxtype != fourcc('f', 't', 'y', 'p'),
        laid.boxtype != fourcc('m', 'e', 't', 'a'),
        before.len() + laid.bytes().len() <= i64::MAX,
    ensures
        found_from(before + laid.bytes() + after, before.len(), ftyp_checked) == found_from(
            before + laid.bytes() + after,
            before.len() + laid.bytes().len(),
            ftyp_checked,
        ),
{
    reveal(found_from);
    lemma_len(laid);
    law_read_file_framed(before, laid, after);
    law_other_boxes_skipped(
        before + laid.bytes() + after,
        before.len(),
        ftyp_checked,
        told_size(laid),
        laid.boxtype,
    );
}

proof fn lemma_skip_all(before: Seq<u8>, boxes: Seq<LaidBox>, after: Seq<u8>, ftyp_checked: bool)
    requires
        boxes_fit(boxes, after),
        are_skipped(boxes),
        before.len() + boxes_bytes(boxes).len() <= i64::MAX,
    ensures
        found_from(before + boxes_bytes(boxes) + after, before.len(), ftyp_checked) == found_from(
            before + boxes_bytes(boxes) + after,
            before.len() + boxes_bytes(boxes).len(),
            ftyp_checked,
        ),
    decreases boxes.len(),
{
    if boxes.len() > 0 {
        let first = boxes[0];
        let others = boxes.skip(1);
        let data = before + boxes_bytes(boxes) + after;
        let rest = boxes_bytes(others) + after;
        lemma_first_box(boxes, after);
        assert(first.fits(after) && !(first.framing is Open));
        assert(data =~= before + first.bytes() + rest);
        lemma_skip_one(before, first, rest, ftyp_checked);
        assert forall|i: int| 0 <= i < others.len() implies (#[trigger] others[i]).boxtype
            != fourcc('f', 't', 'y', 'p') && others[i].boxtype != fourcc('m', 'e', 't', 'a') && !(
        others[i].framing is Open) by {
            assert(others[i] == boxes[i + 1]);
        }
        assert(data =~= (before + first.bytes()) + boxes_bytes(others) + after);
        lemma_skip_all(before + first.bytes(), others, after, ftyp_checked);
    }
}

/// Boxes that are neither file type boxes nor metadata boxes make no difference,
/// however many there are and wherever they stand.
pub proof fn law_boxes_skipped(
    before: Seq<u8>,
    boxes: Seq<LaidBox>,
    after: Seq<u8>,
    ftyp_checked: bool,
)
    requires
        boxes_fit(boxes, after),
        are_skipped(boxes),
        before.len() + boxes_bytes(boxes).len() <= i64::MAX,
    ensures
        exif_item_data(before + boxes_bytes(boxes) + after, before.len(), ftyp_checked)
            == exif_item_data(
            before + boxes_bytes(boxes) + after,
            before.len() + boxes_bytes(boxes).len(),
            ftyp_checked,
        ),
{
    lemma_skip_all(before, boxes, after, ftyp_checked);
    reveal(found_from);
}

/// After a file type box that says that this is a HEIF file, reading goes on.
pub proof fn law_ftyp_behind(before: Seq<u8>, ftyp: LaidBox, after: Seq<u8>, ftyp_checked: bool)
    requires
        ftyp.fits(after),
        ftyp.boxtype == fourcc('f', 't', 'y', 'p'),
        ftyp_check(ftyp.body) is Ok,
        ftyp.body.len() + 16 <= u64::MAX,
    ensures
        exif_item_data(before + ftyp.bytes() + after, before.len(), ftyp_checked)
            == exif_item_data(
            before + ftyp.bytes() + after,
            before.len() + ftyp.bytes().len(),
            true,
        ),
{
    law_read_file_framed(before, ftyp, after);
}

/// After that a metadata box says what the Exif item is.
pub proof fn law_meta_behind(before: Seq<u8>, meta: LaidBox, after: Seq<u8>)
    requires
        meta.fits(after),
        meta.boxtype == fourcc('m', 'e', 't', 'a'),
        meta.body.len() + 16 <= u64::MAX,
    ensures
        exif_item_data(before + meta.bytes() + after, before.len(), true) == match meta_exif_item(
            meta.body,
        ) {
            Ok(item) => item_data(
                before + meta.bytes() + after,
                before.len() + meta.bytes().len(),
                item,
            ),
            Err(e) => Outcome { result: Err(e), pos: before.len() + meta.bytes().len() },
        },
{
    law_read_file_framed(before, meta, after);
    assert(fourcc('m', 'e', 't', 'a')[0] != fourcc('f', 't', 'y', 'p')[0]);
}

proof fn lemma_ftyp_behind(before: Seq<u8>, ftyp: LaidBox, after: Seq<u8>)
    requires
        ftyp.fits(after),
        ftyp.boxtype == fourcc('f', 't', 'y', 'p'),
        ftyp_check(ftyp.body) is Ok,
        ftyp.body.len() + 16 <= u64::MAX,
    ensures
        found_from(before + ftyp.bytes() + after, before.len(), false) == found_from(
            before + ftyp.bytes() + after,
            before.len() + ftyp.bytes().len(),
            true,
        ),
{
    reveal(found_from);
    law_ftyp_behind(before, ftyp, after, false);
}

proof fn lemma_meta_behind(before: Seq<u8>, meta: LaidBox, after: Seq<u8>)
    requires
        meta.fits(after),
        meta.boxtype == fourcc('m', 'e', 't', 'a'),
        meta.body.len() + 16 <= u64::MAX,
    ensures
        found_from(before + meta.bytes() + after, before.len(), true) == found_by(
            before + meta.bytes() + after,
            before.len() + meta.bytes().len(),
            meta.body,
        ),
{
    reveal(found_from);
    reveal(found_by);
    law_meta_behind(before, meta, after);
}

proof fn lemma_heif_file(
    others: Seq<LaidBox>,
    ftyp: LaidBox,
    more: Seq<LaidBox>,
    meta: LaidBox,
    after: Seq<u8>,
)
    requires
        boxes_fit(others, Seq::empty()),
        are_skipped(others),
        ftyp.fits(Seq::empty()),
        !(ftyp.framing is Open),
        ftyp.boxtype == fourcc('f', 't', 'y', 'p'),
        ftyp_check(ftyp.body) is Ok,
        boxes_fit(more, Seq::empty()),
        are_skipped(more),
        meta.fits(after),
        meta.boxtype == fourcc('m', 'e', 't', 'a'),
        boxes_bytes(others).len() + ftyp.bytes().len() + boxes_bytes(more).len()
            + meta.bytes().len() <= i64::MAX,
    ensures
        ({
            let front = boxes_bytes(others) + ftyp.bytes() + boxes_bytes(more) + meta.bytes();
            found_from(front + after, 0, false) == found_by(front + after, front.len(), meta.body)
        }),
{
    let (a, b, c, d) = (boxes_bytes(others), ftyp.bytes(), boxes_bytes(more), meta.bytes());
    let data = a + b + c + d + after;
    lemma_len(ftyp);
    lemma_len(meta);
    lemma_still_fit(others, b + c + d + after);
    lemma_still_fit(more, d + after);
    assert(data =~= Seq::empty() + a + (b + c + d + after));
    lemma_skip_all(Seq::empty(), others, b + c + d + after, false);
    assert(data =~= a + b + (c + d + after));
    lemma_ftyp_behind(a, ftyp, c + d + after);
    assert(data =~= (a + b) + c + (d + after));
    lemma_skip_all(a + b, more, d + after, true);
    assert(data =~= (a + b + c) + d + after);
    lemma_meta_behind(a + b + c, meta, after);
}

/// A HEIF file is a file type box that says so and a metadata box, with any other boxes
/// before and between them and anything after them, however they are framed. Its
/// metadata box says what its Exif item is.
pub proof fn law_heif_file(
    others: Seq<LaidBox>,
    ftyp: LaidBox,
    more: Seq<LaidBox>,
    meta: LaidBox,
    after: Seq<u8>,
)
    requires
        boxes_fit(others, Seq::empty()),
        are_skipped(others),
        ftyp.fits(Seq::empty()),
        !(ftyp.framing is Open),
        ftyp.boxtype == fourcc('f', 't', 'y', 'p'),
        ftyp_check(ftyp.body) is Ok,
        boxes_fit(more, Seq::empty()),
        are_skipped(more),
        meta.fits(after),
        meta.boxtype == fourcc('m', 'e', 't', 'a'),
        boxes_bytes(others).len() + ftyp.bytes().len() + boxes_bytes(more).len()
            + meta.bytes().len() <= i64::MAX,
    ensures
        ({
            let front = boxes_bytes(others) + ftyp.bytes() + boxes_bytes(more) + meta.bytes();
            exif_item_data(front + after, 0, false) == match meta_exif_item(meta.body) {
                Ok(item) => item_data(front + after, front.len(), item),
                Err(e) => Outcome { result: Err(e), pos: front.len() },
            }
        }),
{
    lemma_heif_file(others, ftyp, more, meta, after);
    reveal(found_from);
    reveal(found_by);
}

/// A box has eight bytes more than its body at least.
proof fn lemma_len(laid: LaidBox)
    requires
        laid.boxtype.len() == 4,
    ensures
        laid.bytes().len() >= laid.body.len() + 8,
{
    lemma_be_bytes_len(8 + laid.body.len(), 4);
    lemma_be_bytes_len(16 + laid.body.len(), 8);
    lemma_be_bytes_len(1, 4);
    lemma_be_bytes_len(0, 4);
}

/// Boxes of which none extends to the end fit in front of anything.
proof fn lemma_still_fit(boxes: Seq<LaidBox>, rest: Seq<u8>)
    requires
        boxes_fit(boxes, Seq::empty()),
        are_skipped(boxes),
    ensures
        boxes_fit(boxes, rest),
{
    assert forall|i: int| 0 <= i < boxes.len() implies (#[trigger] boxes[i]).fits(rest) && (
    boxes[i].framing is Open ==> i == boxes.len() - 1) by {
        assert(boxes[i].fits(Seq::empty()));
    }
}

/// The first four bytes of an item's data are the distance from there to the Exif data.
/// It has to be within the data.
pub proof fn law_exif_distance(distance: u32, rest: Seq<u8>)
    ensures
        exif_attr(Ok(be_bytes(distance as nat, 4) + rest)) == if distance <= rest.len() {
            Ok(rest.skip(distance as int))
        } else {
            Err(Error::InvalidFormat("Invalid Exif header offset"))
        },
{
    let item = be_bytes(distance as nat, 4) + rest;
    lemma_values();
    law_read_written_uint(distance as nat, 4);
    assert(item.subrange(0, 4) =~= be_bytes(distance as nat, 4));
    if distance <= rest.len() {
        assert(item.skip(4 + distance as int) =~= rest.skip(distance as int));
    }
}

/// An item's data without these four bytes is an error, and an error before that stays
/// what it is, but for a file that ends too early.
pub proof fn law_exif_errors(item: Seq<u8>, e: Error)
    ensures
        item.len() < 4 ==> exif_attr(Ok(item)) == Err::<Seq<u8>, _>(
            Error::InvalidFormat("ExifDataBlock too small"),
        ),
        !(e matches Error::Io(IoError::UnexpectedEof(_))) ==> exif_attr(Err(e)) == Err::<
            Seq<u8>,
            _,
        >(e),
{
}

/// Of what is no box, the size and the type are gone all the same, as far as they are
/// there, and the eight-byte size if there has to be one.
pub proof fn law_header_gone(s: Seq<u8>)
    ensures
        s.len() < 4 ==> header_len(s) == 0,
        4 <= s.len() < 8 ==> header_len(s) == 4,
        s.len() >= 8 ==> header_len(s) == (if s.len() >= 16 && s[0] == 0 && s[1] == 0 && s[2] == 0
            && s[3] == 1 {
            16int
        } else {
            8int
        }),
{
    if s.len() >= 4 {
        lemma_uint_4(s, 0);
    }
}

} // verus!
