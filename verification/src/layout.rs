//! How boxes are laid out in bytes, and that reading gives back what was laid out.

use vstd::prelude::*;

use crate::cut::group_cut;
use crate::endian::be_bytes;
use crate::endian::law_read_written_uint;
use crate::endian::lemma_be_bytes_len;
use crate::endian::lemma_uint_1_3;
use crate::endian::uint_at;
use crate::endian::values_of;
use crate::error::Error;
use crate::fourcc::fourcc;
use crate::item::IlocLayout;
use crate::item::LocationView;
use crate::item::iinf_entries;
use crate::item::iinf_exif_id;
use crate::item::iloc_extent;
use crate::item::iloc_extents;
use crate::item::iloc_item;
use crate::item::iloc_items;
use crate::item::iloc_location;
use crate::item::infe_exif_id;
use crate::meta::ExifItem;
use crate::meta::MetaContents;
use crate::meta::meta_children;
use crate::meta::meta_exif_item;
use crate::splitter::ChildBox;
use crate::splitter::child_box;

verus! {

/// A box with a four-byte size.
pub open spec fn box_bytes(boxtype: Seq<u8>, body: Seq<u8>) -> Seq<u8> {
    be_bytes(8 + body.len(), 4) + boxtype + body
}

/// A box with an eight-byte size.
pub open spec fn large_box_bytes(boxtype: Seq<u8>, body: Seq<u8>) -> Seq<u8> {
    be_bytes(1, 4) + boxtype + be_bytes(16 + body.len(), 8) + body
}

/// A box that extends to the end of what holds it.
pub open spec fn open_box_bytes(boxtype: Seq<u8>, body: Seq<u8>) -> Seq<u8> {
    be_bytes(0, 4) + boxtype + body
}

/// A number that stands in the middle of a sequence is found there.
proof fn lemma_uint_in(before: Seq<u8>, value: nat, n: nat, after: Seq<u8>)
    requires
        value < values_of(n),
    ensures
        uint_at(before + be_bytes(value, n) + after, before.len() as int, n as int) == value,
{
    law_read_written_uint(value, n);
    assert((before + be_bytes(value, n) + after).subrange(
        before.len() as int,
        (before.len() + n) as int,
    ) =~= be_bytes(value, n));
}

/// The numbers that two, four and eight bytes can hold.
pub proof fn lemma_values()
    ensures
        values_of(2) == 0x1_0000,
        values_of(4) == 0x1_0000_0000,
        values_of(8) == 0x1_0000_0000_0000_0000,
{
    reveal_with_fuel(values_of, 9);
}

/// A box with a four-byte size is read back.
pub proof fn law_read_box(boxtype: Seq<u8>, body: Seq<u8>, rest: Seq<u8>)
    requires
        boxtype.len() == 4,
        8 + body.len() < 0x1_0000_0000,
    ensures
        child_box(box_bytes(boxtype, body) + rest) == Ok::<_, Error>(
            (ChildBox { boxtype, body, rest }),
        ),
{
    lemma_values();
    let s = box_bytes(boxtype, body) + rest;
    law_read_written_uint(8 + body.len(), 4);
    lemma_uint_in(Seq::empty(), 8 + body.len(), 4, boxtype + body + rest);
    assert(s =~= Seq::empty() + be_bytes(8 + body.len(), 4) + (boxtype + body + rest));
    assert(s.subrange(4, 8) =~= boxtype);
    assert(s.subrange(8, 8 + body.len() as int) =~= body);
    assert(s.skip(8 + body.len() as int) =~= rest);
}

/// A box with an eight-byte size is read back, as far as sizes go in memory.
pub proof fn law_read_large_box(boxtype: Seq<u8>, body: Seq<u8>, rest: Seq<u8>)
    requires
        boxtype.len() == 4,
        16 + body.len() <= usize::MAX,
    ensures
        child_box(large_box_bytes(boxtype, body) + rest) == Ok::<_, Error>(
            (ChildBox { boxtype, body, rest }),
        ),
{
    lemma_values();
    let s = large_box_bytes(boxtype, body) + rest;
    let size = be_bytes(16 + body.len(), 8);
    law_read_written_uint(1, 4);
    law_read_written_uint(16 + body.len(), 8);
    lemma_uint_in(Seq::empty(), 1, 4, boxtype + size + body + rest);
    assert(s =~= Seq::empty() + be_bytes(1, 4) + (boxtype + size + body + rest));
    lemma_uint_in(be_bytes(1, 4) + boxtype, 16 + body.len(), 8, body + rest);
    assert(s =~= (be_bytes(1, 4) + boxtype) + size + (body + rest));
    assert(s.subrange(4, 8) =~= boxtype);
    assert(s.subrange(16, 16 + body.len() as int) =~= body);
    assert(s.skip(16 + body.len() as int) =~= rest);
}

/// A box that extends to the end is read back.
pub proof fn law_read_open_box(boxtype: Seq<u8>, body: Seq<u8>)
    requires
        boxtype.len() == 4,
    ensures
        child_box(open_box_bytes(boxtype, body)) == Ok::<_, Error>(
            (ChildBox { boxtype, body, rest: Seq::empty() }),
        ),
{
    lemma_values();
    let s = open_box_bytes(boxtype, body);
    law_read_written_uint(0, 4);
    lemma_uint_in(Seq::empty(), 0, 4, boxtype + body);
    assert(s =~= Seq::empty() + be_bytes(0, 4) + (boxtype + body));
    assert(s.subrange(4, 8) =~= boxtype);
    assert(s.subrange(8, s.len() as int) =~= body);
    assert(s.skip(s.len() as int) =~= Seq::<u8>::empty());
}

/// A box that is read is cut out of the bytes whole: header, body and rest make
/// them up again.
pub proof fn law_box_partition(s: Seq<u8>)
    ensures
        child_box(s) matches Ok(child) ==> {
            let header = s.len() - child.body.len() - child.rest.len();
            &&& header == 8 || header == 16
            &&& child.boxtype == s.subrange(4, 8)
            &&& s == s.take(header) + child.body + child.rest
        },
{
    if let Ok(child) = child_box(s) {
        let header = s.len() - child.body.len() - child.rest.len();
        assert(s =~= s.take(header) + child.body + child.rest);
    }
}

/// The version and the flags of a full box.
pub open spec fn fullbox_bytes(version: u8) -> Seq<u8> {
    seq![version, 0, 0, 0]
}

/// The body of the item information entry of an Exif item, with whatever comes
/// after the item type.
pub open spec fn infe_bytes(id: u16, name: Seq<u8>) -> Seq<u8> {
    fullbox_bytes(2) + be_bytes(id as nat, 2) + seq![0u8, 0u8] + fourcc('E', 'x', 'i', 'f') + name
}

/// The body of an item information box with that entry alone.
pub open spec fn iinf_bytes(id: u16, name: Seq<u8>) -> Seq<u8> {
    fullbox_bytes(0) + be_bytes(1, 2) + box_bytes(
        fourcc('i', 'n', 'f', 'e'),
        infe_bytes(id, name),
    )
}

/// The body of an item location box that places one item in one extent: in the
/// file with method 0, in the item data box with method 1.
pub open spec fn iloc_bytes(method: u8, id: u16, offset: u32, length: u32) -> Seq<u8> {
    fullbox_bytes(1) + seq![0x44u8, 0x00u8] + be_bytes(1, 2) + be_bytes(id as nat, 2) + seq![
        0u8,
        method,
    ] + be_bytes(0, 2) + be_bytes(1, 2) + be_bytes(offset as nat, 4) + be_bytes(length as nat, 4)
}

/// The body of a metadata box for that item.
pub open spec fn meta_bytes(
    method: u8,
    id: u16,
    name: Seq<u8>,
    offset: u32,
    length: u32,
    idat: Seq<u8>,
) -> Seq<u8> {
    fullbox_bytes(0) + (box_bytes(fourcc('i', 'i', 'n', 'f'), iinf_bytes(id, name)) + (box_bytes(
        fourcc('i', 'l', 'o', 'c'),
        iloc_bytes(method, id, offset, length),
    ) + box_bytes(fourcc('i', 'd', 'a', 't'), idat)))
}

/// The location that this gives.
pub open spec fn one_extent_location(method: u8, offset: u32, length: u32) -> LocationView {
    LocationView {
        construction_method: method,
        extents: seq![(0u64, offset as u64, length as u64)],
        base_offset: 0,
    }
}

/// What that metadata box says of the Exif item.
pub open spec fn one_extent_item(method: u8, offset: u32, length: u32, idat: Seq<u8>) -> ExifItem {
    ExifItem { location: one_extent_location(method, offset, length), idat: Some(idat) }
}

/// An entry that was laid out names its item.
pub proof fn law_read_infe(id: u16, name: Seq<u8>)
    ensures
        infe_exif_id(infe_bytes(id, name)) == Ok::<_, Error>(Some(id as u32)),
{
    lemma_values();
    let s = infe_bytes(id, name);
    law_read_written_uint(id as nat, 2);
    lemma_uint_1_3(s, 0);
    lemma_uint_in(
        fullbox_bytes(2),
        id as nat,
        2,
        seq![0u8, 0u8] + fourcc('E', 'x', 'i', 'f') + name,
    );
    assert(s =~= fullbox_bytes(2) + be_bytes(id as nat, 2) + (seq![0u8, 0u8] + fourcc(
        'E',
        'x',
        'i',
        'f',
    ) + name));
    assert(s.subrange(8, 12) =~= fourcc('E', 'x', 'i', 'f'));
}

/// An item information box of version 0 with one entry names the item of that.
proof fn lemma_one_entry(s: Seq<u8>, child: ChildBox, id: u32, found: Option<u32>)
    requires
        s.len() >= 6,
        uint_at(s, 0, 1) == 0,
        uint_at(s, 4, 2) == 1,
        child_box(s.skip(6)) == Ok::<_, Error>(child),
        child.boxtype == fourcc('i', 'n', 'f', 'e'),
        infe_exif_id(child.body) == Ok::<_, Error>(Some(id)),
    ensures
        iinf_exif_id(s, found) == Ok::<_, Error>(Some(id)),
{
    assert(iinf_entries(child.rest, 0, Some(id)) == Ok::<_, Error>(Some(id)));
    assert(iinf_entries(s.skip(6), 1, found) == Ok::<_, Error>(Some(id)));
}

/// An item information box that was laid out names the item of its entry.
pub proof fn law_read_iinf(id: u16, name: Seq<u8>, found: Option<u32>)
    requires
        20 + name.len() < 0x1_0000_0000,
    ensures
        iinf_exif_id(iinf_bytes(id, name), found) == Ok::<_, Error>(Some(id as u32)),
{
    let s = iinf_bytes(id, name);
    let body = infe_bytes(id, name);
    let entry = box_bytes(fourcc('i', 'n', 'f', 'e'), body);
    let child = ChildBox { boxtype: fourcc('i', 'n', 'f', 'e'), body, rest: Seq::empty() };
    assert(s.len() >= 6 && uint_at(s, 0, 1) == 0 && uint_at(s, 4, 2) == 1) by {
        lemma_values();
        law_read_written_uint(1, 2);
        lemma_uint_1_3(s, 0);
        lemma_uint_in(fullbox_bytes(0), 1, 2, entry);
    }
    assert(child_box(s.skip(6)) == Ok::<_, Error>(child)) by {
        lemma_be_bytes_len(1, 2);
        lemma_be_bytes_len(id as nat, 2);
        assert(s.skip(6) =~= entry + Seq::empty());
        law_read_box(fourcc('i', 'n', 'f', 'e'), body, Seq::empty());
    }
    law_read_infe(id, name);
    lemma_one_entry(s, child, id as u32, found);
}

/// An item location box of version 1 with one entry, four-byte offsets and lengths
/// and one extent places the item there.
proof fn lemma_one_location(s: Seq<u8>, method: u8, id: u32, offset: u32, length: u32)
    requires
        s.len() == 24,
        uint_at(s, 0, 1) == 1,
        s[4] == 0x44,
        s[5] == 0,
        uint_at(s, 6, 2) == 1,
        uint_at(s, 8, 2) == id,
        s[11] == method,
        method < 16,
        uint_at(s, 12, 2) == 0,
        uint_at(s, 14, 2) == 1,
        uint_at(s, 16, 4) == offset,
        uint_at(s, 20, 4) == length,
    ensures
        iloc_location(s, id) == Ok::<_, Error>(
            Some(one_extent_location(method, offset, length)),
        ),
{
    broadcast use group_cut;

    let layout = IlocLayout::of(s);
    let item = s.skip(8);
    let extents = s.skip(16);
    assert(layout.version == 1 && layout.id_len() == 2 && layout.extent_len() == 8);
    assert(0 * layout.extent_len() == 0 && 1 * layout.extent_len() == 8) by (nonlinear_arith)
        requires
            layout.extent_len() == 8,
    ;
    assert(s.subrange(14, 14) =~= Seq::<u8>::empty());
    assert(s.subrange(16, 16) =~= Seq::<u8>::empty());
    assert(item.skip(8) == extents);
    assert(iloc_extent(extents, 0, layout) == (0u64, offset as u64, length as u64));
    assert(iloc_extents(extents, 1, layout) is Ok);
    assert(iloc_extents(extents, 1, layout)->Ok_0 =~= seq![(0u64, offset as u64, length as u64)]);
    let location = Some(one_extent_location(method, offset, length));
    assert(iloc_item(item, layout, id) == Ok::<_, Error>((location, item.skip(16))));
    assert(iloc_items(item.skip(16), 0, layout, id, location) == Ok::<_, Error>(location));
    assert(iloc_items(item, 1, layout, id, None) == Ok::<_, Error>(location));
}

/// An item location box that was laid out places its item.
pub proof fn law_read_iloc(method: u8, id: u16, offset: u32, length: u32)
    requires
        method < 16,
    ensures
        iloc_location(iloc_bytes(method, id, offset, length), id as u32) == Ok::<_, Error>(
            Some(one_extent_location(method, offset, length)),
        ),
{
    lemma_values();
    let s = iloc_bytes(method, id, offset, length);
    law_read_written_uint(1, 2);
    law_read_written_uint(0, 2);
    law_read_written_uint(id as nat, 2);
    law_read_written_uint(offset as nat, 4);
    law_read_written_uint(length as nat, 4);
    lemma_uint_1_3(s, 0);
    assert(s.subrange(6, 8) =~= be_bytes(1, 2));
    assert(s.subrange(8, 10) =~= be_bytes(id as nat, 2));
    assert(s.subrange(12, 14) =~= be_bytes(0, 2));
    assert(s.subrange(14, 16) =~= be_bytes(1, 2));
    assert(s.subrange(16, 20) =~= be_bytes(offset as nat, 4));
    assert(s.subrange(20, 24) =~= be_bytes(length as nat, 4));
    lemma_one_location(s, method, id as u32, offset, length);
}

proof fn lemma_layout_lens(method: u8, id: u16, name: Seq<u8>, offset: u32, length: u32)
    ensures
        iinf_bytes(id, name).len() == 26 + name.len(),
        iloc_bytes(method, id, offset, length).len() == 24,
{
    lemma_values();
    law_read_written_uint(1, 2);
    law_read_written_uint(0, 2);
    law_read_written_uint(id as nat, 2);
    law_read_written_uint(offset as nat, 4);
    law_read_written_uint(length as nat, 4);
    assert(be_bytes(8 + infe_bytes(id, name).len(), 4).len() == 4) by {
        lemma_be_bytes_len(8 + infe_bytes(id, name).len(), 4);
    }
}

/// The length of a metadata box that was laid out.
pub proof fn lemma_meta_len(
    method: u8,
    id: u16,
    name: Seq<u8>,
    offset: u32,
    length: u32,
    idat: Seq<u8>,
)
    ensures
        meta_bytes(method, id, name, offset, length, idat).len() == 78 + name.len() + idat.len(),
{
    lemma_layout_lens(method, id, name, offset, length);
    lemma_be_bytes_len(8 + iinf_bytes(id, name).len(), 4);
    lemma_be_bytes_len(8 + iloc_bytes(method, id, offset, length).len(), 4);
    lemma_be_bytes_len(8 + idat.len(), 4);
}

/// An item information box, an item location box and an item data box tell what
/// each of them holds.
proof fn lemma_three_children(s: Seq<u8>, iinf: ChildBox, iloc: ChildBox, idat: ChildBox, id: u32)
    requires
        child_box(s) == Ok::<_, Error>(iinf),
        iinf.boxtype == fourcc('i', 'i', 'n', 'f'),
        iinf_exif_id(iinf.body, None) == Ok::<_, Error>(Some(id)),
        child_box(iinf.rest) == Ok::<_, Error>(iloc),
        iloc.boxtype == fourcc('i', 'l', 'o', 'c'),
        child_box(iloc.rest) == Ok::<_, Error>(idat),
        idat.boxtype == fourcc('i', 'd', 'a', 't'),
        idat.rest.len() == 0,
    ensures
        meta_children(s, MetaContents { item_id: None, idat: None, iloc: None }) == Ok::<
            _,
            Error,
        >(
            (MetaContents {
                item_id: Some(id),
                idat: Some(idat.body),
                iloc: Some(iloc.body),
            }),
        ),
{
    let nothing = MetaContents { item_id: None, idat: None, iloc: None };
    let named = MetaContents { item_id: Some(id), ..nothing };
    let placed = MetaContents { iloc: Some(iloc.body), ..named };
    let all = MetaContents { idat: Some(idat.body), ..placed };
    assert(fourcc('i', 'i', 'n', 'f')[1] != fourcc('i', 'd', 'a', 't')[1]);
    assert(fourcc('i', 'l', 'o', 'c')[1] != fourcc('i', 'd', 'a', 't')[1]);
    assert(fourcc('i', 'l', 'o', 'c')[1] != fourcc('i', 'i', 'n', 'f')[1]);
    assert(meta_children(idat.rest, all) == Ok::<_, Error>(all));
    assert(meta_children(iloc.rest, placed) == Ok::<_, Error>(all));
    assert(meta_children(iinf.rest, named) == Ok::<_, Error>(all));
}

/// A metadata box that was laid out places its Exif item.
#[verifier::rlimit(40)]
pub proof fn law_read_meta(
    method: u8,
    id: u16,
    name: Seq<u8>,
    offset: u32,
    length: u32,
    idat: Seq<u8>,
)
    requires
        method < 16,
        34 + name.len() < 0x1_0000_0000,
        8 + idat.len() < 0x1_0000_0000,
    ensures
        meta_exif_item(meta_bytes(method, id, name, offset, length, idat)) == Ok::<_, Error>(
            one_extent_item(method, offset, length, idat),
        ),
{
    let s = meta_bytes(method, id, name, offset, length, idat);
    let iinf = iinf_bytes(id, name);
    let iloc = iloc_bytes(method, id, offset, length);
    let third = box_bytes(fourcc('i', 'd', 'a', 't'), idat);
    let second = box_bytes(fourcc('i', 'l', 'o', 'c'), iloc) + third;
    let first = box_bytes(fourcc('i', 'i', 'n', 'f'), iinf) + second;
    lemma_layout_lens(method, id, name, offset, length);
    assert(uint_at(s, 0, 1) == 0) by {
        lemma_uint_1_3(s, 0);
    }
    assert(s.skip(4) =~= first);
    law_read_box(fourcc('i', 'i', 'n', 'f'), iinf, second);
    law_read_box(fourcc('i', 'l', 'o', 'c'), iloc, third);
    law_read_box(fourcc('i', 'd', 'a', 't'), idat, Seq::empty());
    assert(third + Seq::empty() =~= third);
    law_read_iinf(id, name, None);
    law_read_iloc(method, id, offset, length);
    lemma_three_children(
        first,
        ChildBox { boxtype: fourcc('i', 'i', 'n', 'f'), body: iinf, rest: second },
        ChildBox { boxtype: fourcc('i', 'l', 'o', 'c'), body: iloc, rest: third },
        ChildBox { boxtype: fourcc('i', 'd', 'a', 't'), body: idat, rest: Seq::empty() },
        id as u32,
    );
}

} // verus!
