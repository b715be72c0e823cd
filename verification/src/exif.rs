//! Extracting the Exif data of a file.

use vstd::prelude::*;

use crate::cut::group_cut;
use crate::endian::BigEndian;
use crate::endian::uint_at;
use crate::error::Error;
use crate::error::IoError;
use crate::fourcc::fourcc;
use crate::ftyp::ftyp_check;
use crate::header::BoxHeaderView;
use crate::header::box_header;
use crate::header::file_box_header;
use crate::header::large_body_size;
use crate::header::truncated_box;
use crate::meta::ExifItem;
use crate::meta::idat_extents;
use crate::meta::meta_exif_item;
use crate::parser::Parser;
use crate::parser::ParserView;
use crate::parser::Pieces;
use crate::parser::StateView;
use crate::parser::Step;
use crate::parser::StepView;
use crate::reader::Cursor;
use crate::reader::ReplyView;
use crate::reader::answer;
use crate::reader::bytes_from;
use crate::reader::invalid_seek;
use crate::reader::window;

verus! {

broadcast use group_cut;

/// What reading on from some position of a file comes to: the data of the Exif
/// item, or why there is none, and the position that the reader is left at.
pub ghost struct Outcome {
    pub result: Result<Seq<u8>, Error>,
    pub pos: nat,
}

/// The body of a box, `size` bytes from `pos` on, and the position behind what
/// could be read of it.
pub open spec fn file_box_body(data: Seq<u8>, pos: nat, size: u64) -> (
    Result<Seq<u8>, Error>,
    nat,
) {
    if size == u64::MAX {
        let body = bytes_from(data, pos);
        (Ok(body), pos + body.len())
    } else {
        let body = window(data, pos, size as nat);
        if body.len() == size {
            (Ok(body), pos + body.len())
        } else {
            (Err(truncated_box()), pos + body.len())
        }
    }
}

/// The data that `extents` of the file cover, one after the other, if offsets
/// count from `base`. An extent of length 0 goes up to the end of the file. None may
/// start beyond that.
pub open spec fn file_extents(
    data: Seq<u8>,
    pos: nat,
    base: u64,
    extents: Seq<(u64, u64, u64)>,
) -> Outcome
    decreases extents.len(),
{
    if extents.len() == 0 {
        Outcome { result: Ok(Seq::empty()), pos }
    } else {
        let off = (base + extents[0].1) as nat;
        let len = extents[0].2;
        let bytes = if len == 0 {
            bytes_from(data, off)
        } else {
            window(data, off, len as nat)
        };
        if off > u64::MAX {
            Outcome { result: Err(Error::InvalidFormat("Invalid offset")), pos }
        } else if len == 0 && off > data.len() {
            Outcome {
                result: Err(Error::Io(IoError::UnexpectedEof("truncated extent"))),
                pos: off,
            }
        } else if len != 0 && bytes.len() != len {
            Outcome {
                result: Err(Error::Io(IoError::UnexpectedEof("truncated extent"))),
                pos: off + bytes.len(),
            }
        } else {
            let rest = file_extents(data, off + bytes.len(), base, extents.skip(1));
            Outcome {
                result: match rest.result {
                    Ok(others) => Ok(bytes + others),
                    Err(e) => Err(e),
                },
                pos: rest.pos,
            }
        }
    }
}

/// The data of `item`, which is in the file or in the item data box.
pub open spec fn item_data(data: Seq<u8>, pos: nat, item: ExifItem) -> Outcome {
    if item.location.construction_method == 0 {
        file_extents(data, pos, item.location.base_offset, item.location.extents)
    } else {
        Outcome {
            result: if item.location.construction_method == 1 {
                match item.idat {
                    Some(idat) => idat_extents(
                        idat,
                        item.location.base_offset,
                        item.location.extents,
                    ),
                    None => Err(Error::InvalidFormat("No ItemDataBox")),
                }
            } else if item.location.construction_method == 2 {
                Err(Error::NotSupported("Construction by item offset is supported"))
            } else {
                Err(Error::InvalidFormat("Invalid construction_method"))
            },
            pos,
        }
    }
}

/// The number of bytes from `pos` on.
pub open spec fn remaining(data: Seq<u8>, pos: nat) -> nat {
    bytes_from(data, pos).len()
}

/// The data of the Exif item by the boxes from `pos` on. The metadata box tells
/// where it is, and must come after a file type box, which must be that of a HEIF
/// file.
pub open spec fn exif_item_data(data: Seq<u8>, pos: nat, ftyp_checked: bool) -> Outcome
    decreases remaining(data, pos), 0int,
{
    match file_box_header(data, pos) {
        (Err(e), next) => Outcome { result: Err(e), pos: next },
        (Ok(None), next) => Outcome {
            result: Err(Error::NotFound("No Exif data found")),
            pos: next,
        },
        (Ok(Some((size, boxtype))), next) => box_item_data(
            data,
            next,
            size,
            boxtype,
            ftyp_checked,
        ),
    }
}

/// The data of the Exif item by a box whose body, `size` bytes, starts at `pos`,
/// and the boxes after that.
pub open spec fn box_item_data(
    data: Seq<u8>,
    pos: nat,
    size: u64,
    boxtype: Seq<u8>,
    ftyp_checked: bool,
) -> Outcome
    decreases remaining(data, pos), 1int,
{
    let (body, next) = file_box_body(data, pos, size);
    if boxtype == fourcc('f', 't', 'y', 'p') {
        match body {
            Err(e) => Outcome { result: Err(e), pos: next },
            Ok(body) => match ftyp_check(body) {
                Err(e) => Outcome { result: Err(e), pos: next },
                Ok(()) => exif_item_data(data, next, true),
            },
        }
    } else if boxtype == fourcc('m', 'e', 't', 'a') {
        if !ftyp_checked {
            Outcome {
                result: Err(Error::InvalidFormat("Found MetaBox before FileTypeBox")),
                pos,
            }
        } else {
            match body {
                Err(e) => Outcome { result: Err(e), pos: next },
                Ok(body) => match meta_exif_item(body) {
                    Err(e) => Outcome { result: Err(e), pos: next },
                    Ok(item) => item_data(data, next, item),
                },
            }
        }
    } else if size == u64::MAX {
        exif_item_data(data, data.len(), ftyp_checked)
    } else if size > i64::MAX {
        Outcome { result: Err(Error::InvalidFormat("Large seek not supported")), pos }
    } else if pos + size > u64::MAX {
        Outcome { result: Err(Error::Io(invalid_seek())), pos }
    } else {
        exif_item_data(data, pos + size as nat, ftyp_checked)
    }
}

/// What the data of the Exif item comes to. Four bytes say how far the Exif data
/// proper is from the byte after them. A file that ends too early is malformed.
pub open spec fn exif_attr(item: Result<Seq<u8>, Error>) -> Result<Seq<u8>, Error> {
    match item {
        Err(Error::Io(IoError::UnexpectedEof(_))) => Err(Error::InvalidFormat("Broken HEIF file")),
        Err(e) => Err(e),
        Ok(block) => if block.len() < 4 {
            Err(Error::InvalidFormat("ExifDataBlock too small"))
        } else if block.len() - 4 < uint_at(block, 0, 4) {
            Err(Error::InvalidFormat("Invalid Exif header offset"))
        } else {
            Ok(block.skip(4 + uint_at(block, 0, 4) as int))
        },
    }
}

/// Extracts the Exif data from the data of the Exif item.
pub fn unwrap_exif_attr(item: Result<Vec<u8>, Error>) -> (attr: Result<Vec<u8>, Error>)
    ensures
        match attr {
            Ok(attr) => exif_attr(result_view(item)) == Ok::<_, Error>(attr@),
            Err(e) => exif_attr(result_view(item)) == Err::<Seq<u8>, _>(e),
        },
{
    let mut buf = match item {
        Err(Error::Io(IoError::UnexpectedEof(_))) => return Err(Error::from("Broken HEIF file")),
        Err(e) => return Err(e),
        Ok(buf) => buf,
    };
    if buf.len() < 4 {
        return Err(Error::from("ExifDataBlock too small"));
    }
    let offset = BigEndian::loadu32(&buf, 0) as usize;
    if buf.len() - 4 < offset {
        return Err(Error::from("Invalid Exif header offset"));
    }
    Ok(buf.split_off(4 + offset))
}

/// The view of bytes or of why there are none.
pub open spec fn result_view(result: Result<Vec<u8>, Error>) -> Result<Seq<u8>, Error> {
    match result {
        Ok(bytes) => Ok(bytes@),
        Err(e) => Err(e),
    }
}

/// An outcome with `buf` in front of the data.
spec fn prefixed(buf: Seq<u8>, outcome: Outcome) -> Outcome {
    Outcome {
        result: match outcome.result {
            Ok(data) => Ok(buf + data),
            Err(e) => Err(e),
        },
        pos: outcome.pos,
    }
}

/// What an extent comes to that starts beyond the end of the file, at `off`.
spec fn beyond_end(off: nat) -> Outcome {
    Outcome { result: Err(Error::Io(IoError::UnexpectedEof("truncated extent"))), pos: off }
}

/// What gathering comes to that has got as far as an extent at `off`.
spec fn extent_outcome(data: Seq<u8>, off: nat, len: u64, pieces: Pieces) -> Outcome {
    let bytes = if len == 0 {
        bytes_from(data, off)
    } else {
        window(data, off, len as nat)
    };
    if len == 0 && off > data.len() {
        beyond_end(off)
    } else if len != 0 && bytes.len() != len {
        Outcome {
            result: Err(Error::Io(IoError::UnexpectedEof("truncated extent"))),
            pos: off + bytes.len(),
        }
    } else {
        rest_outcome(data, off + bytes.len(), Pieces { buf: pieces.buf + bytes, ..pieces })
    }
}

/// What gathering comes to that goes on with the next extent.
spec fn rest_outcome(data: Seq<u8>, pos: nat, pieces: Pieces) -> Outcome {
    prefixed(pieces.buf, file_extents(data, pos, pieces.base_offset, pieces.extents))
}

/// What gathering comes to that has found nothing at `off`.
spec fn before_outcome(data: Seq<u8>, off: nat, pieces: Pieces) -> Outcome {
    if off > data.len() {
        beyond_end(off)
    } else {
        rest_outcome(data, off, pieces)
    }
}

/// What a parser comes to whose requests are answered out of `data` from `pos` on.
spec fn outcome(parser: ParserView, data: Seq<u8>, pos: nat) -> Outcome {
    match parser.state {
        StateView::Header => exif_item_data(data, pos, parser.ftyp_checked),
        StateView::LargeSize(boxtype) => {
            let field = window(data, pos, 8);
            match large_body_size(field) {
                Err(e) => Outcome { result: Err(e), pos: pos + field.len() },
                Ok(size) => box_item_data(data, pos + 8, size, boxtype, parser.ftyp_checked),
            }
        },
        StateView::Ftyp(size) => box_item_data(
            data,
            pos,
            size,
            fourcc('f', 't', 'y', 'p'),
            parser.ftyp_checked,
        ),
        StateView::Meta(size) => box_item_data(data, pos, size, fourcc('m', 'e', 't', 'a'), true),
        StateView::SkipAhead(by) => if 0 <= pos + by <= u64::MAX {
            exif_item_data(data, (pos + by) as nat, parser.ftyp_checked)
        } else {
            Outcome { result: Err(Error::Io(invalid_seek())), pos }
        },
        StateView::SkipToEnd => exif_item_data(data, data.len(), parser.ftyp_checked),
        StateView::SeekExtent(off, len, pieces) => extent_outcome(data, off as nat, len, pieces),
        StateView::ReadExtent(off, len, pieces) => extent_outcome(data, off as nat, len, pieces),
        StateView::SeekBefore(off, pieces) => before_outcome(data, off as nat, pieces),
        StateView::ReadBefore(off, pieces) => before_outcome(data, off as nat, pieces),
        StateView::SeekBeyond(off) => beyond_end(off as nat),
    }
}

/// A parser never asks to go back while it looks for the metadata box, and reads an
/// extent, or the byte before it, where that is.
spec fn on_course(parser: ParserView, pos: nat) -> bool {
    match parser.state {
        StateView::SkipAhead(by) => by >= 0,
        StateView::ReadExtent(off, _, _) => pos == off,
        StateView::SeekBefore(off, _) => off != 0,
        StateView::ReadBefore(off, _) => pos + 1 == off,
        _ => true,
    }
}

/// Whether the metadata box has yet to be read, what is left until then or of the
/// extents, and how many requests there are at most before the next header or extent.
spec fn progress(parser: ParserView, data: Seq<u8>, pos: nat) -> (nat, nat, nat) {
    match parser.state {
        StateView::Header => (1, remaining(data, pos), 0),
        StateView::SeekExtent(_, _, pieces) => (0, pieces.extents.len(), 4),
        StateView::ReadExtent(_, _, pieces) => (0, pieces.extents.len(), 3),
        StateView::SeekBefore(_, pieces) => (0, pieces.extents.len(), 2),
        StateView::ReadBefore(_, pieces) => (0, pieces.extents.len(), 1),
        StateView::SeekBeyond(_) => (0, 0, 0),
        _ => (1, remaining(data, pos), 1),
    }
}

/// A step takes the parser closer to the outcome that it had before.
spec fn advances(parser: ParserView, data: Seq<u8>, pos: nat) -> bool {
    let (reply, next) = answer(data, pos, parser.request());
    match parser.on_reply(reply) {
        StepView::Continue(after) => {
            let before = progress(parser, data, pos);
            let then = progress(after, data, next);
            &&& outcome(after, data, next) == outcome(parser, data, pos)
            &&& on_course(after, next)
            &&& decreases_to!(before.0, before.1, before.2 => then.0, then.1, then.2)
        },
        StepView::Done(result) => outcome(parser, data, pos) == (Outcome { result, pos: next }),
    }
}

proof fn lemma_at_box(parser: ParserView, data: Seq<u8>, pos: nat, size: u64, boxtype: Seq<u8>)
    ensures
        match parser.at_box(size, boxtype) {
            StepView::Continue(after) => {
                &&& outcome(after, data, pos) == box_item_data(
                    data,
                    pos,
                    size,
                    boxtype,
                    parser.ftyp_checked,
                )
                &&& on_course(after, pos)
                &&& progress(after, data, pos) == (1nat, remaining(data, pos), 1nat)
            },
            StepView::Done(result) => box_item_data(
                data,
                pos,
                size,
                boxtype,
                parser.ftyp_checked,
            ) == (Outcome { result, pos }),
        },
{
    if boxtype == fourcc('f', 't', 'y', 'p') {
    } else if boxtype == fourcc('m', 'e', 't', 'a') {
    } else if size == u64::MAX {
    } else if size > i64::MAX {
    } else {
    }
}

proof fn lemma_at_extent(parser: ParserView, data: Seq<u8>, pos: nat, pieces: Pieces)
    ensures
        ({
            let all = file_extents(data, pos, pieces.base_offset, pieces.extents);
            match parser.at_extent(pieces) {
                StepView::Continue(after) => {
                    &&& outcome(after, data, pos) == prefixed(pieces.buf, all)
                    &&& on_course(after, pos)
                    &&& pieces.extents.len() > 0
                    &&& progress(after, data, pos).0 == 0
                    &&& progress(after, data, pos).1 == pieces.extents.len() - 1
                },
                StepView::Done(result) => prefixed(pieces.buf, all) == (Outcome { result, pos }),
            }
        }),
{
    if pieces.extents.len() == 0 {
        assert(pieces.buf + Seq::<u8>::empty() =~= pieces.buf);
    } else if pieces.base_offset + pieces.extents[0].1 <= u64::MAX {
        let off = (pieces.base_offset + pieces.extents[0].1) as nat;
        let len = pieces.extents[0].2;
        let bytes = if len == 0 {
            bytes_from(data, off)
        } else {
            window(data, off, len as nat)
        };
        let rest = file_extents(
            data,
            off + bytes.len(),
            pieces.base_offset,
            pieces.extents.skip(1),
        );
        if let Ok(others) = rest.result {
            assert(pieces.buf + (bytes + others) =~= pieces.buf + bytes + others);
        }
    }
}

proof fn lemma_at_item(parser: ParserView, data: Seq<u8>, pos: nat, item: ExifItem)
    ensures
        match parser.at_item(item) {
            StepView::Continue(after) => {
                &&& outcome(after, data, pos) == item_data(data, pos, item)
                &&& on_course(after, pos)
                &&& progress(after, data, pos).0 == 0
            },
            StepView::Done(result) => item_data(data, pos, item) == (Outcome { result, pos }),
        },
{
    let pieces = Pieces {
        base_offset: item.location.base_offset,
        extents: item.location.extents,
        buf: Seq::empty(),
    };
    lemma_at_extent(parser, data, pos, pieces);
    let all = file_extents(data, pos, pieces.base_offset, pieces.extents);
    if let Ok(bytes) = all.result {
        assert(Seq::<u8>::empty() + bytes =~= bytes);
    }
}

proof fn lemma_step_header(parser: ParserView, data: Seq<u8>, pos: nat)
    requires
        parser.state is Header,
        data.len() <= u64::MAX,
    ensures
        advances(parser, data, pos),
{
    if let Ok(BoxHeaderView::Sized(size, boxtype)) = box_header(window(data, pos, 8)) {
        lemma_at_box(parser, data, pos + 8, size, boxtype);
    }
}

proof fn lemma_step_large_size(parser: ParserView, data: Seq<u8>, pos: nat)
    requires
        parser.state is LargeSize,
        data.len() <= u64::MAX,
    ensures
        advances(parser, data, pos),
{
    if let Ok(size) = large_body_size(window(data, pos, 8)) {
        lemma_at_box(parser, data, pos + 8, size, parser.state->LargeSize_0);
    }
}

proof fn lemma_step_ftyp(parser: ParserView, data: Seq<u8>, pos: nat)
    requires
        parser.state is Ftyp,
        data.len() <= u64::MAX,
    ensures
        advances(parser, data, pos),
{
}

proof fn lemma_step_meta(parser: ParserView, data: Seq<u8>, pos: nat)
    requires
        parser.state is Meta,
        data.len() <= u64::MAX,
    ensures
        advances(parser, data, pos),
{
    assert(fourcc('m', 'e', 't', 'a')[0] != fourcc('f', 't', 'y', 'p')[0]);
    let (body, next) = file_box_body(data, pos, parser.state->Meta_0);
    if let Ok(body) = body {
        if let Ok(item) = meta_exif_item(body) {
            lemma_at_item(parser, data, next, item);
        }
    }
}

proof fn lemma_step_skip_ahead(parser: ParserView, data: Seq<u8>, pos: nat)
    requires
        parser.state is SkipAhead,
        on_course(parser, pos),
    ensures
        advances(parser, data, pos),
{
    let by = parser.state->SkipAhead_0;
    let (reply, next) = answer(data, pos, parser.request());
    if pos + by <= u64::MAX {
        assert(reply == ReplyView::Sought);
        assert(next == pos + by);
        assert(parser.on_reply(reply) == parser.to(StateView::Header));
        assert(remaining(data, next) <= remaining(data, pos));
    } else {
        assert(reply == ReplyView::Failed(invalid_seek()));
        assert(next == pos);
        assert(parser.on_reply(reply) == StepView::Done(Err(Error::Io(invalid_seek()))));
    }
}

proof fn lemma_step_skip_to_end(parser: ParserView, data: Seq<u8>, pos: nat)
    requires
        parser.state is SkipToEnd,
    ensures
        advances(parser, data, pos),
{
    let (reply, next) = answer(data, pos, parser.request());
    assert(reply == ReplyView::Sought);
    assert(next == data.len());
    assert(parser.on_reply(reply) == parser.to(StateView::Header));
    assert(remaining(data, next) == 0);
}

proof fn lemma_step_seek_extent(parser: ParserView, data: Seq<u8>, pos: nat)
    requires
        parser.state is SeekExtent,
    ensures
        advances(parser, data, pos),
{
    let off = parser.state->SeekExtent_0;
    assert(answer(data, pos, parser.request()) == (ReplyView::Sought, off as nat));
}

proof fn lemma_step_read_extent(parser: ParserView, data: Seq<u8>, pos: nat)
    requires
        parser.state is ReadExtent,
        on_course(parser, pos),
    ensures
        advances(parser, data, pos),
{
    let (len, pieces) = (parser.state->ReadExtent_1, parser.state->ReadExtent_2);
    let bytes = if len == 0 {
        bytes_from(data, pos)
    } else {
        window(data, pos, len as nat)
    };
    assert(answer(data, pos, parser.request()) == (ReplyView::Data(bytes), pos + bytes.len()));
    if bytes.len() == 0 {
        assert(pieces.buf + bytes =~= pieces.buf);
    }
    lemma_at_extent(
        parser,
        data,
        pos + bytes.len(),
        Pieces { buf: pieces.buf + bytes, ..pieces },
    );
}

proof fn lemma_step_seek_before(parser: ParserView, data: Seq<u8>, pos: nat)
    requires
        parser.state is SeekBefore,
        on_course(parser, pos),
    ensures
        advances(parser, data, pos),
{
    let off = parser.state->SeekBefore_0;
    assert(answer(data, pos, parser.request()) == (ReplyView::Sought, (off - 1) as nat));
}

proof fn lemma_step_read_before(parser: ParserView, data: Seq<u8>, pos: nat)
    requires
        parser.state is ReadBefore,
        on_course(parser, pos),
    ensures
        advances(parser, data, pos),
{
    let (off, pieces) = (parser.state->ReadBefore_0, parser.state->ReadBefore_1);
    let byte = window(data, pos, 1);
    assert(answer(data, pos, parser.request()) == (ReplyView::Data(byte), pos + byte.len()));
    if off > data.len() {
        assert(byte.len() == 0);
    } else {
        assert(byte.len() == 1);
        lemma_at_extent(parser, data, off as nat, pieces);
    }
}

proof fn lemma_step_seek_beyond(parser: ParserView, data: Seq<u8>, pos: nat)
    requires
        parser.state is SeekBeyond,
    ensures
        advances(parser, data, pos),
{
    let off = parser.state->SeekBeyond_0;
    assert(answer(data, pos, parser.request()) == (ReplyView::Sought, off as nat));
}

proof fn lemma_step(parser: ParserView, data: Seq<u8>, pos: nat)
    requires
        on_course(parser, pos),
        data.len() <= u64::MAX,
    ensures
        advances(parser, data, pos),
{
    match parser.state {
        StateView::Header => lemma_step_header(parser, data, pos),
        StateView::LargeSize(_) => lemma_step_large_size(parser, data, pos),
        StateView::Ftyp(_) => lemma_step_ftyp(parser, data, pos),
        StateView::Meta(_) => lemma_step_meta(parser, data, pos),
        StateView::SkipAhead(_) => lemma_step_skip_ahead(parser, data, pos),
        StateView::SkipToEnd => lemma_step_skip_to_end(parser, data, pos),
        StateView::SeekExtent(_, _, _) => lemma_step_seek_extent(parser, data, pos),
        StateView::ReadExtent(_, _, _) => lemma_step_read_extent(parser, data, pos),
        StateView::SeekBefore(_, _) => lemma_step_seek_before(parser, data, pos),
        StateView::ReadBefore(_, _) => lemma_step_read_before(parser, data, pos),
        StateView::SeekBeyond(_) => lemma_step_seek_beyond(parser, data, pos),
    }
}

/// Extracts the Exif data of a HEIF file, reading on from where `reader` is.
pub fn get_exif_attr(reader: &mut Cursor) -> (attr: Result<Vec<u8>, Error>)
    ensures
        final(reader).bytes() == old(reader).bytes(),
        final(reader).at() == exif_item_data(old(reader).bytes(), old(reader).at(), false).pos,
        result_view(attr) == exif_attr(
            exif_item_data(old(reader).bytes(), old(reader).at(), false).result,
        ),
{
    let ghost data = reader.bytes();
    let ghost expected = exif_item_data(data, reader.at(), false);
    let mut parser = Parser::new();
    proof {
        reader.lemma_len();
    }
    loop
        invariant
            data.len() <= u64::MAX,
            data == old(reader).bytes(),
            expected == exif_item_data(data, old(reader).at(), false),
            reader.bytes() == data,
            outcome(parser@, data, reader.at()) == expected,
            on_course(parser@, reader.at()),
        decreases
            progress(parser@, data, reader.at()).0,
            progress(parser@, data, reader.at()).1,
            progress(parser@, data, reader.at()).2,
    {
        proof {
            lemma_step(parser@, data, reader.at());
        }
        let reply = reader.answer(parser.request());
        match parser.parse(reply) {
            Step::Continue(after) => {
                parser = after;
            },
            Step::Done(item) => return unwrap_exif_attr(item),
        }
    }
}

/// What a parser comes to after at most `steps` more requests, if they are
/// answered out of `data` from `pos` on.
pub open spec fn run(parser: ParserView, data: Seq<u8>, pos: nat, steps: nat) -> Option<Outcome>
    decreases steps,
{
    if steps == 0 {
        None
    } else {
        let (reply, next) = answer(data, pos, parser.request());
        match parser.on_reply(reply) {
            StepView::Continue(after) => run(after, data, next, (steps - 1) as nat),
            StepView::Done(result) => Some(Outcome { result, pos: next }),
        }
    }
}

proof fn lemma_run_ends(parser: ParserView, data: Seq<u8>, pos: nat)
    requires
        on_course(parser, pos),
        data.len() <= u64::MAX,
    ensures
        exists|steps: nat| #[trigger] run(parser, data, pos, steps) is Some,
    decreases
        progress(parser, data, pos).0,
        progress(parser, data, pos).1,
        progress(parser, data, pos).2,
{
    lemma_step(parser, data, pos);
    let (reply, next) = answer(data, pos, parser.request());
    match parser.on_reply(reply) {
        StepView::Continue(after) => {
            lemma_run_ends(after, data, next);
            let steps = choose|steps: nat| #[trigger] run(after, data, next, steps) is Some;
            assert(run(parser, data, pos, steps + 1) is Some);
        },
        StepView::Done(result) => {
            assert(run(parser, data, pos, 1) is Some);
        },
    }
}

proof fn lemma_run_outcome(parser: ParserView, data: Seq<u8>, pos: nat, steps: nat)
    requires
        on_course(parser, pos),
        data.len() <= u64::MAX,
    ensures
        run(parser, data, pos, steps) matches Some(end) ==> end == outcome(parser, data, pos),
    decreases steps,
{
    if steps > 0 {
        lemma_step(parser, data, pos);
        let (reply, next) = answer(data, pos, parser.request());
        if let StepView::Continue(after) = parser.on_reply(reply) {
            lemma_run_outcome(after, data, next, (steps - 1) as nat);
        }
    }
}

/// A new parser whose requests are answered out of a file comes to an end, and
/// there it has the data that the boxes of the file locate.
pub proof fn law_parser_outcome(data: Seq<u8>, pos: nat)
    requires
        data.len() <= u64::MAX,
    ensures
        ({
            let parser = ParserView { ftyp_checked: false, state: StateView::Header };
            &&& exists|steps: nat| #[trigger] run(parser, data, pos, steps) is Some
            &&& forall|steps: nat|
                (#[trigger] run(parser, data, pos, steps)) is Some ==> run(
                    parser,
                    data,
                    pos,
                    steps,
                ) == Some(exif_item_data(data, pos, false))
        }),
{
    let parser = ParserView { ftyp_checked: false, state: StateView::Header };
    lemma_run_ends(parser, data, pos);
    assert forall|steps: nat| (#[trigger] run(parser, data, pos, steps)) is Some implies run(
        parser,
        data,
        pos,
        steps,
    ) == Some(exif_item_data(data, pos, false)) by {
        lemma_run_outcome(parser, data, pos, steps);
    }
}

} // verus!
