//! Item entries: which item holds the Exif data, and where the item lies.

use vstd::prelude::*;

use crate::cut::group_cut;
use crate::endian::uint_at;
use crate::error::Error;
use crate::fourcc::fourcc;
use crate::fourcc::is_fourcc;
use crate::splitter::BoxSplitter;
use crate::splitter::box_too_small;
use crate::splitter::child_box;

verus! {

broadcast use group_cut;

/// What the body `s` of an item information entry says: the item's ID, if it is
/// an Exif item. Version 2 has two-byte IDs and version 3 four-byte IDs; a
/// protection index of two bytes stands between the ID and the item type.
pub open spec fn infe_exif_id(s: Seq<u8>) -> Result<Option<u32>, Error> {
    let version = uint_at(s, 0, 1);
    let id_len: int = if version == 2 { 2 } else { 4 };
    if s.len() < 4 {
        Err(box_too_small())
    } else if version != 2 && version != 3 {
        Err(Error::InvalidFormat("Unsupported ItemInfoEntry"))
    } else if s.len() < 4 + id_len + 6 {
        Err(box_too_small())
    } else if s.subrange(4 + id_len + 2, 4 + id_len + 6) == fourcc('E', 'x', 'i', 'f') {
        Ok(Some(uint_at(s, 4, id_len) as u32))
    } else {
        Ok(None)
    }
}

/// The ID of the last Exif item among the first `count` boxes of `s`, or `found`
/// if none of them is the entry of one.
pub open spec fn iinf_entries(s: Seq<u8>, count: nat, found: Option<u32>) -> Result<
    Option<u32>,
    Error,
>
    decreases count,
{
    if count == 0 {
        Ok(found)
    } else {
        match child_box(s) {
            Err(e) => Err(e),
            Ok(child) => if child.boxtype == fourcc('i', 'n', 'f', 'e') {
                match infe_exif_id(child.body) {
                    Err(e) => Err(e),
                    Ok(Some(id)) => iinf_entries(child.rest, (count - 1) as nat, Some(id)),
                    Ok(None) => iinf_entries(child.rest, (count - 1) as nat, found),
                }
            } else {
                iinf_entries(child.rest, (count - 1) as nat, found)
            },
        }
    }
}

/// The ID of the last Exif item in the body `s` of an item information box, or
/// `found` if it lists none. The entry count has two bytes in version 0 and four
/// in any other.
pub open spec fn iinf_exif_id(s: Seq<u8>, found: Option<u32>) -> Result<Option<u32>, Error> {
    let count_len: int = if uint_at(s, 0, 1) == 0 { 2 } else { 4 };
    if s.len() < 4 || s.len() < 4 + count_len {
        Err(box_too_small())
    } else {
        iinf_entries(s.skip(4 + count_len), uint_at(s, 4, count_len), found)
    }
}

/// Reads the body of an item information entry.
pub fn parse_infe(boxp: BoxSplitter) -> (item_id: Result<Option<u32>, Error>)
    ensures
        item_id == infe_exif_id(boxp@),
{
    let mut fields = boxp;
    let (version, _flags) = fields.fullbox_header()?;
    let item_id = match version {
        2 => u32::from(fields.uint16()?),
        3 => fields.uint32()?,
        _ => return Err(Error::from("Unsupported ItemInfoEntry")),
    };
    let _item_protection_index = fields.slice(2)?;
    let item_type = fields.slice(4)?;
    if is_fourcc(item_type, 'E', 'x', 'i', 'f') {
        Ok(Some(item_id))
    } else {
        Ok(None)
    }
}

/// Reads the body of an item information box, given the Exif item `found` so far.
pub fn parse_iinf(boxp: BoxSplitter, found: Option<u32>) -> (item_id: Result<Option<u32>, Error>)
    ensures
        item_id == iinf_exif_id(boxp@, found),
{
    let mut fields = boxp;
    let mut item_id = found;
    let (version, _flags) = fields.fullbox_header()?;
    let entry_count = match version {
        0 => u32::from(fields.uint16()?),
        _ => fields.uint32()?,
    };
    for i in 0..entry_count
        invariant
            iinf_exif_id(boxp@, found) == iinf_entries(fields@, (entry_count - i) as nat, item_id),
    {
        let (boxtype, body) = fields.child_box()?;
        if is_fourcc(boxtype, 'i', 'n', 'f', 'e') {
            if let Some(id) = parse_infe(body)? {
                item_id = Some(id);
            }
        }
    }
    Ok(item_id)
}

/// Where the data of an item lies.
#[derive(Debug)]
pub struct Location {
    /// Where offsets count from: 0 for the file, 1 for the item data box, 2 for
    /// another item.
    pub construction_method: u8,
    /// The pieces of the data, in order: index, offset, length.
    pub extents: Vec<(u64, u64, u64)>,
    /// What is added to each offset.
    pub base_offset: u64,
}

/// A `Location` with its extents as a sequence.
pub ghost struct LocationView {
    pub construction_method: u8,
    pub extents: Seq<(u64, u64, u64)>,
    pub base_offset: u64,
}

impl View for Location {
    type V = LocationView;

    open spec fn view(&self) -> LocationView {
        LocationView {
            construction_method: self.construction_method,
            extents: self.extents@,
            base_offset: self.base_offset,
        }
    }
}

/// The view of a location that may be missing.
pub open spec fn location_view(location: Option<Location>) -> Option<LocationView> {
    match location {
        Some(location) => Some(location@),
        None => None,
    }
}

/// The version of an item location box and the field widths that it declares, in
/// bytes.
#[derive(Debug, Clone, Copy)]
pub struct IlocLayout {
    pub version: u32,
    pub offset_size: usize,
    pub length_size: usize,
    pub base_offset_size: usize,
    pub index_size: usize,
}

impl IlocLayout {
    /// The layout that the body `s` of an item location box declares: four bits
    /// for each width, in the two bytes after the version and the flags. Only
    /// versions 1 and 2 have an index.
    pub open spec fn of(s: Seq<u8>) -> IlocLayout {
        IlocLayout {
            version: uint_at(s, 0, 1) as u32,
            offset_size: (s[4] / 16) as usize,
            length_size: (s[4] % 16) as usize,
            base_offset_size: (s[5] / 16) as usize,
            index_size: if uint_at(s, 0, 1) == 1 || uint_at(s, 0, 1) == 2 {
                (s[5] % 16) as usize
            } else {
                0
            },
        }
    }

    /// Whether each width fits in four bits.
    pub open spec fn wf(self) -> bool {
        &&& self.offset_size < 16
        &&& self.length_size < 16
        &&& self.base_offset_size < 16
        &&& self.index_size < 16
    }

    /// The width of an item ID and of the item count.
    pub open spec fn id_len(self) -> int {
        if self.version == 2 { 4 } else { 2 }
    }

    /// The width of the construction method.
    pub open spec fn method_len(self) -> int {
        if self.version == 0 { 0 } else { 2 }
    }

    /// The width of one extent.
    pub open spec fn extent_len(self) -> int {
        self.index_size + self.offset_size + self.length_size
    }
}

/// The widths that an offset, a length or an index may have.
pub open spec fn is_size048(size: int) -> bool {
    size == 0 || size == 4 || size == 8
}

/// The `i`th extent in `s`: index, offset, length.
pub open spec fn iloc_extent(s: Seq<u8>, i: int, layout: IlocLayout) -> (u64, u64, u64) {
    let at = i * layout.extent_len();
    (
        uint_at(s, at, layout.index_size as int) as u64,
        uint_at(s, at + layout.index_size, layout.offset_size as int) as u64,
        uint_at(s, at + layout.index_size + layout.offset_size, layout.length_size as int) as u64,
    )
}

/// The `count` extents at the front of `s`. A width is looked at when the first
/// field of that width comes up.
pub open spec fn iloc_extents(s: Seq<u8>, count: nat, layout: IlocLayout) -> Result<
    Seq<(u64, u64, u64)>,
    Error,
> {
    if count == 0 {
        Ok(Seq::empty())
    } else if !is_size048(layout.index_size as int) {
        Err(Error::InvalidFormat("Invalid index_size"))
    } else if s.len() < layout.index_size {
        Err(box_too_small())
    } else if !is_size048(layout.offset_size as int) {
        Err(Error::InvalidFormat("Invalid offset_size"))
    } else if s.len() < layout.index_size + layout.offset_size {
        Err(box_too_small())
    } else if !is_size048(layout.length_size as int) {
        Err(Error::InvalidFormat("Invalid length_size"))
    } else if s.len() < count * layout.extent_len() {
        Err(box_too_small())
    } else {
        Ok(Seq::new(count, |i: int| iloc_extent(s, i, layout)))
    }
}

/// The item entry at the front of `s`: the location, if it is that of the item
/// `wanted`, and the bytes after the entry. The entry holds the item's ID, the
/// construction method, a data reference index, the base offset, the number of
/// extents and the extents. Of other items the extents are not looked at.
pub open spec fn iloc_item(s: Seq<u8>, layout: IlocLayout, wanted: u32) -> Result<
    (Option<LocationView>, Seq<u8>),
    Error,
> {
    let base = layout.id_len() + layout.method_len() + 2;
    let head = base + layout.base_offset_size + 2;
    let method: int = if layout.version == 0 {
        0
    } else {
        s[layout.id_len() + 1] as int % 16
    };
    if s.len() < base {
        Err(box_too_small())
    } else if method == 0 && uint_at(s, base - 2, 2) != 0 {
        Err(Error::NotSupported("External data reference is not supported"))
    } else if !is_size048(layout.base_offset_size as int) {
        Err(Error::InvalidFormat("Invalid base_offset_size"))
    } else if s.len() < head {
        Err(box_too_small())
    } else {
        let count = uint_at(s, head - 2, 2);
        let extents_len = count * layout.extent_len();
        if uint_at(s, 0, layout.id_len()) == wanted {
            match iloc_extents(s.skip(head), count, layout) {
                Err(e) => Err(e),
                Ok(extents) => Ok(
                    (
                        Some(
                            LocationView {
                                construction_method: method as u8,
                                extents,
                                base_offset: uint_at(s, base, layout.base_offset_size as int) as u64,
                            },
                        ),
                        s.skip(head + extents_len),
                    ),
                ),
            }
        } else if s.len() < head + extents_len {
            Err(box_too_small())
        } else {
            Ok((None, s.skip(head + extents_len)))
        }
    }
}

/// The location of the item `wanted` in the last of the `count` entries in `s`
/// that are its own, or `found` if there is none.
pub open spec fn iloc_items(
    s: Seq<u8>,
    count: nat,
    layout: IlocLayout,
    wanted: u32,
    found: Option<LocationView>,
) -> Result<Option<LocationView>, Error>
    decreases count,
{
    if count == 0 {
        Ok(found)
    } else {
        match iloc_item(s, layout, wanted) {
            Err(e) => Err(e),
            Ok((Some(location), rest)) => iloc_items(
                rest,
                (count - 1) as nat,
                layout,
                wanted,
                Some(location),
            ),
            Ok((None, rest)) => iloc_items(rest, (count - 1) as nat, layout, wanted, found),
        }
    }
}

/// The location of the item `wanted` in the body `s` of an item location box.
pub open spec fn iloc_location(s: Seq<u8>, wanted: u32) -> Result<Option<LocationView>, Error> {
    let layout = IlocLayout::of(s);
    if s.len() < 6 {
        Err(box_too_small())
    } else if layout.version > 2 {
        Err(Error::InvalidFormat("Unsupported ItemLocationBox"))
    } else if s.len() < 6 + layout.id_len() {
        Err(box_too_small())
    } else {
        iloc_items(
            s.skip(6 + layout.id_len()),
            uint_at(s, 6, layout.id_len()),
            layout,
            wanted,
            None,
        )
    }
}

/// Takes `count` extents off the front of `boxp`, and returns what is left with them.
fn parse_extents<'a>(boxp: BoxSplitter<'a>, count: u16, layout: IlocLayout) -> (extents: Result<
    (Vec<(u64, u64, u64)>, BoxSplitter<'a>),
    Error,
>)
    requires
        layout.wf(),
    ensures
        match extents {
            Ok((extents, rest)) => iloc_extents(boxp@, count as nat, layout) == Ok::<_, Error>(
                extents@,
            ) && count * layout.extent_len() <= boxp@.len() && rest@ == boxp@.skip(
                count * layout.extent_len(),
            ),
            Err(e) => iloc_extents(boxp@, count as nat, layout) == Err::<
                Seq<(u64, u64, u64)>,
                _,
            >(e),
        },
{
    let ghost s = boxp@;
    let ghost len = layout.extent_len();
    assert(0 * len == 0) by (nonlinear_arith);
    let mut fields = boxp;
    let mut extents: Vec<(u64, u64, u64)> = Vec::with_capacity(count as usize);
    for i in 0..count
        invariant
            s == boxp@,
            len == layout.extent_len(),
            0 <= i * len <= s.len(),
            fields@ == s.skip(i * len),
            i > 0 ==> is_size048(layout.index_size as int) && is_size048(layout.offset_size as int)
                && is_size048(layout.length_size as int),
            extents@ =~= Seq::new(i as nat, |k: int| iloc_extent(s, k, layout)),
    {
        assert(i * len + len == (i + 1) * len) by (nonlinear_arith);
        assert((i + 1) * len <= count * len) by (nonlinear_arith)
            requires
                i < count,
                0 <= len,
        ;
        let index = fields.size048(layout.index_size)?.ok_or(Error::from("Invalid index_size"))?;
        let offset = fields.size048(layout.offset_size)?.ok_or(
            Error::from("Invalid offset_size"),
        )?;
        let length = fields.size048(layout.length_size)?.ok_or(
            Error::from("Invalid length_size"),
        )?;
        assert((index, offset, length) == iloc_extent(s, i as int, layout));
        extents.push((index, offset, length));
    }
    proof {
        let all = Seq::new(count as nat, |i: int| iloc_extent(s, i, layout));
        assert(extents@ =~= all);
        assert(count == 0 ==> all =~= Seq::empty());
        assert(count > 0 ==> len <= count * len) by (nonlinear_arith)
            requires
                0 <= len,
        ;
    }
    Ok((extents, fields))
}

/// Takes the item entry at the front of `boxp`, and returns the location, if it is
/// that of the item `wanted`, and what is left.
#[verifier::rlimit(30)]
fn parse_item<'a>(boxp: BoxSplitter<'a>, layout: IlocLayout, wanted: u32) -> (item: Result<
    (Option<Location>, BoxSplitter<'a>),
    Error,
>)
    requires
        layout.wf(),
        layout.version <= 2,
    ensures
        match item {
            Ok((location, rest)) => iloc_item(boxp@, layout, wanted) == Ok::<_, Error>(
                (location_view(location), rest@),
            ),
            Err(e) => iloc_item(boxp@, layout, wanted) == Err::<
                (Option<LocationView>, Seq<u8>),
                _,
            >(e),
        },
{
    let mut fields = boxp;
    let item_id = match layout.version {
        2 => fields.uint32()?,
        _ => u32::from(fields.uint16()?),
    };
    let construction_method = match layout.version {
        0 => 0u8,
        _ => {
            let method = fields.slice(2)?[1];
            assert(method & 0xf == method % 16) by (bit_vector);
            method & 0xf
        },
    };
    let data_ref_index = fields.uint16()?;
    if construction_method == 0 && data_ref_index != 0 {
        return Err(Error::NotSupported("External data reference is not supported"));
    }
    let base_offset = fields.size048(layout.base_offset_size)?.ok_or(
        Error::from("Invalid base_offset_size"),
    )?;
    let extent_count = fields.uint16()?;
    if item_id == wanted {
        let (extents, rest) = parse_extents(fields, extent_count, layout)?;
        Ok((Some(Location { construction_method, extents, base_offset }), rest))
    } else {
        let extent_len = layout.index_size + layout.offset_size + layout.length_size;
        // (15 + 15 + 15) * u16::MAX never overflows.
        assert(0 <= extent_count * extent_len <= 0xffff * 45) by (nonlinear_arith)
            requires
                extent_len <= 45,
                extent_count <= 0xffff,
        ;
        fields.slice(extent_count as usize * extent_len)?;
        Ok((None, fields))
    }
}

/// Reads the body of an item location box.
pub fn parse_iloc(boxp: BoxSplitter, item_id: u32) -> (location: Result<Option<Location>, Error>)
    ensures
        match location {
            Ok(location) => iloc_location(boxp@, item_id) == Ok::<_, Error>(
                location_view(location),
            ),
            Err(e) => iloc_location(boxp@, item_id) == Err::<Option<LocationView>, _>(e),
        },
{
    let mut fields = boxp;
    let (version, _flags) = fields.fullbox_header()?;
    let sizes = fields.slice(2)?;
    let layout = IlocLayout {
        version,
        offset_size: (sizes[0] >> 4) as usize,
        length_size: (sizes[0] & 0xf) as usize,
        base_offset_size: (sizes[1] >> 4) as usize,
        index_size: match version {
            1 | 2 => (sizes[1] & 0xf) as usize,
            _ => 0,
        },
    };
    proof {
        let (a, b) = (sizes[0], sizes[1]);
        assert(a >> 4 == a / 16 && a & 0xf == a % 16) by (bit_vector);
        assert(b >> 4 == b / 16 && b & 0xf == b % 16) by (bit_vector);
        assert(layout == IlocLayout::of(boxp@));
    }
    let item_count = match version {
        0 | 1 => u32::from(fields.uint16()?),
        2 => fields.uint32()?,
        _ => return Err(Error::from("Unsupported ItemLocationBox")),
    };
    let mut location: Option<Location> = None;
    for i in 0..item_count
        invariant
            layout.wf(),
            layout.version <= 2,
            iloc_location(boxp@, item_id) == iloc_items(
                fields@,
                (item_count - i) as nat,
                layout,
                item_id,
                location_view(location),
            ),
    {
        let (found, rest) = parse_item(fields, layout, item_id)?;
        fields = rest;
        if let Some(found) = found {
            location = Some(found);
        }
    }
    Ok(location)
}

} // verus!
