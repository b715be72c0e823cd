//! What holds of the extraction as a whole.

use vstd::prelude::*;

use crate::endian::be_bytes;
use crate::endian::law_read_written_uint;
use crate::endian::lemma_be_bytes_len;
use crate::endian::lemma_uint_4;
use crate::endian::uint_at;
use crate::error::Error;
use crate::error::IoError;
use crate::exif::Outcome;
use crate::exif::exif_attr;
use crate::exif::exif_item_data;
use crate::exif::file_box_body;
use crate::exif::file_extents;
use crate::exif::item_data;
use crate::exif::remaining;
use crate::fourcc::fourcc;
use crate::ftyp::declares_heif;
use crate::ftyp::ftyp_check;
use crate::ftyp::is_heif_brand;
use crate::ftyp::lists_structural_brand;
use crate::header::file_box_header;
use crate::laws::framing::Framing;
use crate::laws::framing::LaidBox;
use crate::laws::framing::boxes_bytes;
use crate::laws::reading::law_heif_file;
use crate::layout::box_bytes;
use crate::layout::law_read_box;
use crate::layout::law_read_meta;
use crate::layout::lemma_meta_len;
use crate::layout::lemma_values;
use crate::layout::meta_bytes;
use crate::layout::one_extent_item;
use crate::meta::ExifItem;
use crate::meta::idat_extent;
use crate::meta::idat_extents;
use crate::meta::meta_exif_item;
use crate::parser::ParserView;
use crate::parser::StepView;
use crate::reader::ReplyView;
use crate::reader::bytes_from;
use crate::reader::window;
use crate::splitter::child_box;

pub mod brands;
pub mod children;
pub mod entries;
pub mod extents;
pub mod framing;
pub mod locations;
pub mod reading;

verus! {

/// A file that ends too early is reported as malformed, never as a failure of the
/// reader.
pub proof fn law_no_unexpected_eof(item: Result<Seq<u8>, Error>, message: &'static str)
    ensures
        exif_attr(item) != Err::<Seq<u8>, Error>(Error::Io(IoError::UnexpectedEof(message))),
        item == Err::<Seq<u8>, Error>(Error::Io(IoError::UnexpectedEof(message))) ==> exif_attr(
            item,
        ) == Err::<Seq<u8>, Error>(Error::InvalidFormat("Broken HEIF file")),
{
}

/// The Exif data is the end of the item's data: what it holds is four bytes that
/// give a distance, as many bytes as that, and the Exif data.
pub proof fn law_exif_is_end_of_item(item: Seq<u8>)
    ensures
        exif_attr(Ok(item)) matches Ok(attr) ==> item.len() == 4 + uint_at(item, 0, 4) + attr.len()
            && item == item.take(item.len() - attr.len()) + attr,
{
    if let Ok(attr) = exif_attr(Ok(item)) {
        assert(item =~= item.take(item.len() - attr.len()) + attr);
    }
}

/// Whatever a parser has asked for, a failure of the reader ends it, and that
/// failure is the error.
pub proof fn law_reader_failure_ends(parser: ParserView, e: IoError)
    ensures
        parser.on_reply(ReplyView::Failed(e)) == StepView::Done(Err(Error::Io(e))),
{
}

/// A box is the same at the top level of a file and inside another box.
pub proof fn law_headers_agree(s: Seq<u8>)
    ensures
        child_box(s) matches Ok(child) ==> {
            let (header, next) = file_box_header(s, 0);
            &&& header matches Ok(Some((size, boxtype)))
            &&& boxtype == child.boxtype
            &&& file_box_body(s, next, size) == (
                Ok::<_, Error>(child.body),
                (s.len() - child.rest.len()) as nat,
            )
        },
{
    if let Ok(child) = child_box(s) {
        let head = window(s, 0, 8);
        lemma_uint_4(s, 0);
        assert(s.skip(0) =~= s);
        assert(head.subrange(0, 4) =~= s.subrange(0, 4));
        assert(head.subrange(4, 8) =~= s.subrange(4, 8));
        if uint_at(s, 0, 4) == 1 {
            let field = window(s, 8, 8);
            assert(field.subrange(0, 8) =~= s.subrange(8, 16));
            assert(window(s, 16, child.body.len()) =~= child.body);
        } else if uint_at(s, 0, 4) == 0 {
            assert(bytes_from(s, 8) =~= child.body);
        } else {
            assert(window(s, 8, child.body.len()) =~= child.body);
        }
    }
}

/// A box that is neither a file type box nor a metadata box makes no difference.
pub proof fn law_other_boxes_skipped(
    data: Seq<u8>,
    pos: nat,
    ftyp_checked: bool,
    size: u64,
    boxtype: Seq<u8>,
)
    requires
        file_box_header(data, pos).0 == Ok::<_, Error>(Some((size, boxtype))),
        boxtype != fourcc('f', 't', 'y', 'p'),
        boxtype != fourcc('m', 'e', 't', 'a'),
        size <= i64::MAX,
        file_box_header(data, pos).1 + size <= u64::MAX,
    ensures
        exif_item_data(data, pos, ftyp_checked) == exif_item_data(
            data,
            file_box_header(data, pos).1 + size as nat,
            ftyp_checked,
        ),
{
}

/// A metadata box is refused unless a file type box has come before it.
pub proof fn law_meta_needs_ftyp(data: Seq<u8>, pos: nat, size: u64)
    requires
        file_box_header(data, pos).0 == Ok::<_, Error>(Some((size, fourcc('m', 'e', 't', 'a')))),
    ensures
        exif_item_data(data, pos, false) == (Outcome {
            result: Err(Error::InvalidFormat("Found MetaBox before FileTypeBox")),
            pos: file_box_header(data, pos).1,
        }),
{
    assert(fourcc('m', 'e', 't', 'a')[0] != fourcc('f', 't', 'y', 'p')[0]);
}

/// After the file type box of a HEIF file a metadata box is read.
pub proof fn law_ftyp_read(data: Seq<u8>, pos: nat, ftyp_checked: bool, size: u64, body: Seq<u8>)
    requires
        file_box_header(data, pos).0 == Ok::<_, Error>(Some((size, fourcc('f', 't', 'y', 'p')))),
        file_box_body(data, file_box_header(data, pos).1, size).0 == Ok::<_, Error>(body),
        ftyp_check(body) == Ok::<_, Error>(()),
    ensures
        exif_item_data(data, pos, ftyp_checked) == exif_item_data(
            data,
            file_box_body(data, file_box_header(data, pos).1, size).1,
            true,
        ),
{
}

/// The metadata box decides where the data is.
pub proof fn law_meta_read(data: Seq<u8>, pos: nat, size: u64, body: Seq<u8>, item: ExifItem)
    requires
        file_box_header(data, pos).0 == Ok::<_, Error>(Some((size, fourcc('m', 'e', 't', 'a')))),
        file_box_body(data, file_box_header(data, pos).1, size).0 == Ok::<_, Error>(body),
        meta_exif_item(body) == Ok::<_, Error>(item),
    ensures
        exif_item_data(data, pos, true) == item_data(
            data,
            file_box_body(data, file_box_header(data, pos).1, size).1,
            item,
        ),
{
    assert(fourcc('m', 'e', 't', 'a')[0] != fourcc('f', 't', 'y', 'p')[0]);
}

/// Nothing but the end of the file: there is no Exif data.
pub proof fn law_empty_file(data: Seq<u8>, pos: nat, ftyp_checked: bool)
    requires
        pos >= data.len(),
    ensures
        exif_item_data(data, pos, ftyp_checked) == (Outcome {
            result: Err(Error::NotFound("No Exif data found")),
            pos,
        }),
{
}

/// Whether the box at `pos` is of the type `boxtype` and all there.
pub open spec fn whole_box_at(data: Seq<u8>, pos: nat, boxtype: Seq<u8>) -> bool {
    match file_box_header(data, pos) {
        (Ok(Some((size, found))), next) => found == boxtype && file_box_body(data, next, size).0
            is Ok,
        _ => false,
    }
}

/// The body of the box at `pos`.
pub open spec fn box_body_at(data: Seq<u8>, pos: nat) -> Seq<u8> {
    file_box_body(
        data,
        file_box_header(data, pos).1,
        file_box_header(data, pos).0->Ok_0->Some_0.0,
    ).0->Ok_0
}

/// Whether the box at `pos` is the file type box of a HEIF file.
pub open spec fn heif_ftyp_at(data: Seq<u8>, pos: nat) -> bool {
    whole_box_at(data, pos, fourcc('f', 't', 'y', 'p')) && lists_structural_brand(
        box_body_at(data, pos),
    )
}

/// Whether the box at `pos` is a metadata box that locates an Exif item.
pub open spec fn exif_meta_at(data: Seq<u8>, pos: nat) -> bool {
    whole_box_at(data, pos, fourcc('m', 'e', 't', 'a')) && meta_exif_item(
        box_body_at(data, pos),
    ) is Ok
}

/// Data is found only by a metadata box that locates an Exif item.
pub proof fn law_data_needs_meta(data: Seq<u8>, pos: nat, ftyp_checked: bool)
    requires
        exif_item_data(data, pos, ftyp_checked).result is Ok,
    ensures
        exists|meta: nat| pos <= meta && #[trigger] exif_meta_at(data, meta),
    decreases remaining(data, pos),
{
    let (header, next) = file_box_header(data, pos);
    let (size, boxtype) = header->Ok_0->Some_0;
    let (body, after) = file_box_body(data, next, size);
    if boxtype == fourcc('f', 't', 'y', 'p') {
        law_data_needs_meta(data, after, true);
    } else if boxtype == fourcc('m', 'e', 't', 'a') {
        assert(exif_meta_at(data, pos));
    } else if size == u64::MAX {
        law_data_needs_meta(data, data.len(), ftyp_checked);
    } else {
        law_data_needs_meta(data, next + size as nat, ftyp_checked);
    }
}

/// Data is found only in a HEIF file: a file type box that says so comes before
/// the metadata box.
pub proof fn law_data_needs_heif(data: Seq<u8>, pos: nat)
    requires
        exif_item_data(data, pos, false).result is Ok,
    ensures
        exists|ftyp: nat, meta: nat|
            pos <= ftyp < meta && #[trigger] heif_ftyp_at(data, ftyp) && #[trigger] exif_meta_at(
                data,
                meta,
            ),
    decreases remaining(data, pos),
{
    let (header, next) = file_box_header(data, pos);
    let (size, boxtype) = header->Ok_0->Some_0;
    let (body, after) = file_box_body(data, next, size);
    if boxtype == fourcc('f', 't', 'y', 'p') {
        assert(heif_ftyp_at(data, pos));
        law_data_needs_meta(data, after, true);
        let meta = choose|meta: nat| after <= meta && #[trigger] exif_meta_at(data, meta);
        assert(heif_ftyp_at(data, pos) && exif_meta_at(data, meta));
    } else if boxtype == fourcc('m', 'e', 't', 'a') {
    } else if size == u64::MAX {
        law_data_needs_heif(data, data.len());
    } else {
        law_data_needs_heif(data, next + size as nat);
    }
}

/// An extent that the file does not hold to its end is refused, as is one that
/// starts past the end of the file.
pub proof fn law_extent_past_end(data: Seq<u8>, pos: nat, base: u64, extents: Seq<(u64, u64, u64)>)
    requires
        extents.len() > 0,
        base + extents[0].1 <= u64::MAX,
        base + extents[0].1 + extents[0].2 > data.len(),
    ensures
        file_extents(data, pos, base, extents).result == Err::<Seq<u8>, Error>(
            Error::Io(IoError::UnexpectedEof("truncated extent")),
        ),
{
}

/// Whether the file holds an extent to its end. One of length 0, which goes up to the
/// end of the file, is held unless it starts beyond that.
pub open spec fn extent_held(data: Seq<u8>, base: u64, extent: (u64, u64, u64)) -> bool {
    base + extent.1 <= u64::MAX && base + extent.1 + extent.2 <= data.len()
}

/// What the file holds of an extent, if it holds that to its end.
pub open spec fn extent_bytes(data: Seq<u8>, base: u64, extent: (u64, u64, u64)) -> Seq<u8> {
    if extent.2 == 0 {
        data.skip(base + extent.1)
    } else {
        data.subrange(base + extent.1, base + extent.1 + extent.2)
    }
}

/// An item in the file has data if and only if the file holds all its extents, and
/// the data is what they cover, joined in order.
pub proof fn law_file_extents_joined(
    data: Seq<u8>,
    pos: nat,
    base: u64,
    extents: Seq<(u64, u64, u64)>,
)
    ensures
        file_extents(data, pos, base, extents).result is Ok <==> forall|i: int|
            0 <= i < extents.len() ==> extent_held(data, base, #[trigger] extents[i]),
        file_extents(data, pos, base, extents).result matches Ok(joined) ==> joined
            == extents.map_values(|extent| extent_bytes(data, base, extent)).flatten(),
    decreases extents.len(),
{
    let pieces = extents.map_values(|extent| extent_bytes(data, base, extent));
    if extents.len() > 0 {
        let extent = extents[0];
        let rest = extents.skip(1);
        let off = (base + extent.1) as nat;
        let bytes = if extent.2 == 0 {
            bytes_from(data, off)
        } else {
            window(data, off, extent.2 as nat)
        };
        law_file_extents_joined(data, off + bytes.len(), base, rest);
        assert(forall|i: int| 0 <= i < rest.len() ==> #[trigger] rest[i] == extents[i + 1]);
        assert forall|i: int| 1 <= i < extents.len() implies #[trigger] extents[i] == rest[i
            - 1] by {}
        assert(pieces.drop_first() =~= rest.map_values(
            |extent| extent_bytes(data, base, extent),
        ));
        if extent_held(data, base, extent) {
            assert(bytes =~= extent_bytes(data, base, extent));
        }
    }
}

/// An item in the item data box has data if and only if each of its extents does, and
/// the data is what they cover, joined in order.
pub proof fn law_idat_extents_joined(idat: Seq<u8>, base: u64, extents: Seq<(u64, u64, u64)>)
    ensures
        idat_extents(idat, base, extents) is Ok <==> forall|i: int|
            0 <= i < extents.len() ==> idat_extent(idat, base, #[trigger] extents[i]) is Ok,
        idat_extents(idat, base, extents) matches Ok(joined) ==> joined == extents.map_values(
            |extent| idat_extent(idat, base, extent)->Ok_0,
        ).flatten(),
    decreases extents.len(),
{
    let pieces = extents.map_values(|extent| idat_extent(idat, base, extent)->Ok_0);
    if extents.len() > 0 {
        let rest = extents.skip(1);
        law_idat_extents_joined(idat, base, rest);
        assert(forall|i: int| 0 <= i < rest.len() ==> #[trigger] rest[i] == extents[i + 1]);
        assert forall|i: int| 1 <= i < extents.len() implies #[trigger] extents[i] == rest[i
            - 1] by {}
        assert(pieces.drop_first() =~= rest.map_values(
            |extent| idat_extent(idat, base, extent)->Ok_0,
        ));
    }
}

/// A file whose first box is a file type box with room for a brand declares itself
/// a HEIF file if and only if that brand is one of HEIF. What comes after that
/// brand makes no difference.
pub proof fn law_major_brand_decides(brand: Seq<u8>, others: Seq<u8>, rest: Seq<u8>)
    requires
        brand.len() == 4,
        12 + others.len() < 0x1_0000_0000,
    ensures
        declares_heif(box_bytes(fourcc('f', 't', 'y', 'p'), brand + others) + rest)
            == is_heif_brand(brand),
{
    law_read_box(fourcc('f', 't', 'y', 'p'), brand + others, rest);
    assert((brand + others).take(4) =~= brand);
}

/// Boxes in front of the file type box make no difference to what a file declares.
pub proof fn law_boxes_before_ftyp(boxtype: Seq<u8>, body: Seq<u8>, rest: Seq<u8>)
    requires
        boxtype.len() == 4,
        boxtype != fourcc('f', 't', 'y', 'p'),
        8 + body.len() < 0x1_0000_0000,
    ensures
        declares_heif(box_bytes(boxtype, body) + rest) == declares_heif(rest),
{
    law_read_box(boxtype, body, rest);
}

/// What the start of a file declares, the whole file declares.
pub proof fn law_declared_by_prefix(s: Seq<u8>, more: Seq<u8>)
    requires
        declares_heif(s),
    ensures
        declares_heif(s + more),
    decreases s.len(),
{
    let child = child_box(s)->Ok_0;
    let t = s + more;
    assert(t.subrange(0, 4) =~= s.subrange(0, 4));
    assert(t.subrange(4, 8) =~= s.subrange(4, 8));
    if uint_at(s, 0, 4) == 1 {
        assert(t.subrange(8, 16) =~= s.subrange(8, 16));
    }
    let longer = child_box(t)->Ok_0;
    if uint_at(s, 0, 4) == 0 {
        assert(longer.body =~= child.body + more);
        assert(longer.body.take(4) =~= child.body.take(4));
    } else {
        assert(longer.body =~= child.body);
        assert(longer.rest =~= child.rest + more);
    }
    if child.boxtype != fourcc('f', 't', 'y', 'p') {
        law_declared_by_prefix(child.rest, more);
    }
}

/// A box that was laid out at the top level of a file is read back.
pub proof fn law_read_file_box(before: Seq<u8>, boxtype: Seq<u8>, body: Seq<u8>, after: Seq<u8>)
    requires
        boxtype.len() == 4,
        8 + body.len() < 0x1_0000_0000,
    ensures
        ({
            let data = before + box_bytes(boxtype, body) + after;
            let size = body.len() as u64;
            &&& file_box_header(data, before.len()) == (
                Ok::<_, Error>(Some((size, boxtype))),
                before.len() + 8,
            )
            &&& file_box_body(data, before.len() + 8, size) == (
                Ok::<_, Error>(body),
                before.len() + 8 + body.len(),
            )
        }),
{
    let data = before + box_bytes(boxtype, body) + after;
    lemma_values();
    law_read_written_uint(8 + body.len(), 4);
    let rest = data.skip(before.len() as int);
    assert(rest.subrange(0, 4) =~= be_bytes(8 + body.len(), 4));
    assert(rest.subrange(4, 8) =~= boxtype);
    let head = window(data, before.len(), 8);
    assert(head.subrange(0, 4) =~= rest.subrange(0, 4));
    assert(head.subrange(4, 8) =~= rest.subrange(4, 8));
    assert(window(data, before.len() + 8, body.len()) =~= body);
}

/// In a file that starts with the file type box of a HEIF file and a metadata box,
/// the metadata box decides.
pub proof fn law_read_front(ftyp: Seq<u8>, meta: Seq<u8>, item: ExifItem, after: Seq<u8>)
    requires
        8 + ftyp.len() < 0x1_0000_0000,
        8 + meta.len() < 0x1_0000_0000,
        ftyp.len() >= 8,
        lists_structural_brand(ftyp),
        meta_exif_item(meta) == Ok::<_, Error>(item),
    ensures
        ({
            let front = box_bytes(fourcc('f', 't', 'y', 'p'), ftyp) + box_bytes(
                fourcc('m', 'e', 't', 'a'),
                meta,
            );
            exif_item_data(front + after, 0, false) == item_data(front + after, front.len(), item)
        }),
{
    let none = Seq::<LaidBox>::empty();
    let first = LaidBox {
        framing: Framing::Small,
        boxtype: fourcc('f', 't', 'y', 'p'),
        body: ftyp,
    };
    let second = LaidBox {
        framing: Framing::Small,
        boxtype: fourcc('m', 'e', 't', 'a'),
        body: meta,
    };
    lemma_be_bytes_len(8 + ftyp.len(), 4);
    lemma_be_bytes_len(8 + meta.len(), 4);
    law_heif_file(none, first, none, second, after);
    assert(boxes_bytes(none) + first.bytes() + boxes_bytes(none) + second.bytes()
        =~= first.bytes() + second.bytes());
}

/// The data of an Exif item: the distance to the Exif data, what lies in between,
/// and the Exif data.
pub open spec fn exif_block(gap: Seq<u8>, exif: Seq<u8>) -> Seq<u8> {
    be_bytes(gap.len(), 4) + gap + exif
}

/// The Exif data is found behind the gap.
pub proof fn law_read_exif_block(gap: Seq<u8>, exif: Seq<u8>)
    requires
        gap.len() < 0x1_0000_0000,
    ensures
        exif_attr(Ok(exif_block(gap, exif))) == Ok::<_, Error>(exif),
{
    lemma_values();
    law_read_written_uint(gap.len(), 4);
    let block = exif_block(gap, exif);
    assert(block.subrange(0, 4) =~= be_bytes(gap.len(), 4));
    assert(block.skip(4 + gap.len() as int) =~= exif);
}

/// What was put in the middle of a file is read there.
proof fn lemma_window(before: Seq<u8>, block: Seq<u8>, after: Seq<u8>)
    ensures
        window(before + block + after, before.len(), block.len()) == block,
{
    assert(window(before + block + after, before.len(), block.len()) =~= block);
}

/// An item with one extent in the file is what lies there.
proof fn lemma_one_file_extent(data: Seq<u8>, pos: nat, off: u64, len: u64, block: Seq<u8>)
    requires
        0 < len,
        len == block.len(),
        window(data, off as nat, len as nat) == block,
    ensures
        file_extents(data, pos, 0, seq![(0u64, off, len)]).result == Ok::<_, Error>(block),
{
    let extents = seq![(0u64, off, len)];
    let end = (off + len) as nat;
    assert(extents.skip(1) =~= Seq::empty());
    assert(file_extents(data, end, 0, extents.skip(1)).result == Ok::<_, Error>(
        Seq::<u8>::empty(),
    ));
    assert(block + Seq::<u8>::empty() =~= block);
}

/// An item with one extent that covers the item data box is what that holds.
proof fn lemma_one_idat_extent(idat: Seq<u8>, len: u64)
    requires
        0 < len <= usize::MAX,
        len == idat.len(),
    ensures
        idat_extents(idat, 0, seq![(0u64, 0u64, len)]) == Ok::<_, Error>(idat),
{
    let extents = seq![(0u64, 0u64, len)];
    assert(extents.skip(1) =~= Seq::empty());
    assert(idat_extents(idat, 0, extents.skip(1)) == Ok::<_, Error>(Seq::<u8>::empty()));
    assert(idat.subrange(0, len as int) + Seq::<u8>::empty() =~= idat);
}

/// Exif data that was put in the item data box of a HEIF file is extracted from it,
/// whatever follows in the file.
pub proof fn law_extract_from_idat(
    ftyp: Seq<u8>,
    id: u16,
    name: Seq<u8>,
    gap: Seq<u8>,
    exif: Seq<u8>,
    after: Seq<u8>,
)
    requires
        8 <= ftyp.len() < 0x1_0000_0000 - 8,
        lists_structural_brand(ftyp),
        90 + name.len() + gap.len() + exif.len() < 0x1_0000_0000,
    ensures
        ({
            let block = exif_block(gap, exif);
            let meta = meta_bytes(1, id, name, 0, block.len() as u32, block);
            let data = box_bytes(fourcc('f', 't', 'y', 'p'), ftyp) + box_bytes(
                fourcc('m', 'e', 't', 'a'),
                meta,
            ) + after;
            exif_attr(exif_item_data(data, 0, false).result) == Ok::<_, Error>(exif)
        }),
{
    let block = exif_block(gap, exif);
    let len = block.len() as u32;
    let meta = meta_bytes(1, id, name, 0, len, block);
    let item = one_extent_item(1, 0, len, block);
    assert(block.len() == 4 + gap.len() + exif.len()) by {
        lemma_be_bytes_len(gap.len(), 4);
    }
    assert(8 + meta.len() < 0x1_0000_0000) by {
        lemma_meta_len(1, id, name, 0, len, block);
    }
    law_read_meta(1, id, name, 0, len, block);
    law_read_front(ftyp, meta, item, after);
    lemma_one_idat_extent(block, len as u64);
    law_read_exif_block(gap, exif);
}

/// Exif data that was put anywhere behind the metadata box of a HEIF file is
/// extracted from there, whatever else is in the file.
pub proof fn law_extract_from_file(
    ftyp: Seq<u8>,
    id: u16,
    name: Seq<u8>,
    offset: u32,
    between: Seq<u8>,
    gap: Seq<u8>,
    exif: Seq<u8>,
    after: Seq<u8>,
)
    requires
        8 <= ftyp.len() < 0x1_0000_0000 - 8,
        lists_structural_brand(ftyp),
        86 + name.len() < 0x1_0000_0000,
        4 + gap.len() + exif.len() < 0x1_0000_0000,
        offset == ftyp.len() + name.len() + 94 + between.len(),
    ensures
        ({
            let block = exif_block(gap, exif);
            let meta = meta_bytes(0, id, name, offset, block.len() as u32, Seq::empty());
            let data = box_bytes(fourcc('f', 't', 'y', 'p'), ftyp) + box_bytes(
                fourcc('m', 'e', 't', 'a'),
                meta,
            ) + (between + block + after);
            exif_attr(exif_item_data(data, 0, false).result) == Ok::<_, Error>(exif)
        }),
{
    let block = exif_block(gap, exif);
    let len = block.len() as u32;
    let meta = meta_bytes(0, id, name, offset, len, Seq::empty());
    let item = one_extent_item(0, offset, len, Seq::empty());
    let front = box_bytes(fourcc('f', 't', 'y', 'p'), ftyp) + box_bytes(
        fourcc('m', 'e', 't', 'a'),
        meta,
    );
    let data = front + (between + block + after);
    assert(block.len() == 4 + gap.len() + exif.len()) by {
        lemma_be_bytes_len(gap.len(), 4);
    }
    assert(meta.len() == 78 + name.len()) by {
        lemma_meta_len(0, id, name, offset, len, Seq::empty());
    }
    assert((front + between).len() == offset) by {
        lemma_be_bytes_len(8 + ftyp.len(), 4);
        lemma_be_bytes_len(8 + meta.len(), 4);
    }
    assert(window(data, offset as nat, len as nat) == block) by {
        lemma_window(front + between, block, after);
        assert(data =~= (front + between) + block + after);
    }
    law_read_meta(0, id, name, offset, len, Seq::empty());
    law_read_front(ftyp, meta, item, between + block + after);
    lemma_one_file_extent(data, front.len(), offset as u64, len as u64, block);
    law_read_exif_block(gap, exif);
}

} // verus!
