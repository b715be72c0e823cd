//! The metadata box: finding the Exif item, and gathering what it holds inside the box.

use vstd::prelude::*;
use vstd::slice::slice_subrange;

use crate::cut::group_cut;
use crate::endian::uint_at;
use crate::error::Error;
use crate::fourcc::fourcc;
use crate::fourcc::is_fourcc;
use crate::item::Location;
use crate::item::LocationView;
use crate::item::iinf_exif_id;
use crate::item::iloc_location;
use crate::item::parse_iinf;
use crate::item::parse_iloc;
use crate::splitter::BoxSplitter;
use crate::splitter::box_too_small;
use crate::splitter::child_box;

verus! {

broadcast use group_cut;

/// What the children of a metadata box have told of the Exif item.
pub ghost struct MetaContents {
    /// The ID of the Exif item.
    pub item_id: Option<u32>,
    /// The body of the item data box.
    pub idat: Option<Seq<u8>>,
    /// The body of the item location box.
    pub iloc: Option<Seq<u8>>,
}

/// What the boxes in `s` tell, on top of `found`. Of two boxes of one type the
/// later one counts.
pub open spec fn meta_children(s: Seq<u8>, found: MetaContents) -> Result<MetaContents, Error>
    decreases s.len(),
{
    if s.len() == 0 {
        Ok(found)
    } else {
        match child_box(s) {
            Err(e) => Err(e),
            Ok(child) => if child.boxtype == fourcc('i', 'd', 'a', 't') {
                meta_children(child.rest, MetaContents { idat: Some(child.body), ..found })
            } else if child.boxtype == fourcc('i', 'i', 'n', 'f') {
                match iinf_exif_id(child.body, found.item_id) {
                    Err(e) => Err(e),
                    Ok(item_id) => meta_children(child.rest, MetaContents { item_id, ..found }),
                }
            } else if child.boxtype == fourcc('i', 'l', 'o', 'c') {
                meta_children(child.rest, MetaContents { iloc: Some(child.body), ..found })
            } else {
                meta_children(child.rest, found)
            },
        }
    }
}

/// Where the Exif item of a metadata box lies.
pub ghost struct ExifItem {
    pub location: LocationView,
    /// The body of the item data box.
    pub idat: Option<Seq<u8>>,
}

/// Where the Exif item lies, by the body `s` of a metadata box.
pub open spec fn meta_exif_item(s: Seq<u8>) -> Result<ExifItem, Error> {
    if s.len() < 4 {
        Err(box_too_small())
    } else if uint_at(s, 0, 1) != 0 {
        Err(Error::InvalidFormat("Unsupported MetaBox"))
    } else {
        match meta_children(s.skip(4), MetaContents { item_id: None, idat: None, iloc: None }) {
            Err(e) => Err(e),
            Ok(MetaContents { item_id: None, .. }) => Err(Error::NotFound("No Exif data found")),
            Ok(MetaContents { iloc: None, .. }) => Err(
                Error::InvalidFormat("No ItemLocationBox"),
            ),
            Ok(MetaContents { item_id: Some(item_id), idat, iloc: Some(iloc) }) => {
                match iloc_location(iloc, item_id) {
                    Err(e) => Err(e),
                    Ok(None) => Err(
                        Error::InvalidFormat("No matching item in ItemLocationBox"),
                    ),
                    Ok(Some(location)) => Ok(ExifItem { location, idat }),
                }
            },
        }
    }
}

/// The view of bytes that may be missing.
pub open spec fn bytes_view(bytes: Option<&[u8]>) -> Option<Seq<u8>> {
    match bytes {
        Some(bytes) => Some(bytes@),
        None => None,
    }
}

/// Finds the Exif item in the body of a metadata box, and returns its location
/// and the body of the item data box.
pub fn locate_exif<'a>(boxp: BoxSplitter<'a>) -> (item: Result<
    (Location, Option<&'a [u8]>),
    Error,
>)
    ensures
        match item {
            Ok((location, idat)) => meta_exif_item(boxp@) == Ok::<_, Error>(
                (ExifItem { location: location@, idat: bytes_view(idat) }),
            ),
            Err(e) => meta_exif_item(boxp@) == Err::<ExifItem, _>(e),
        },
{
    let mut children = boxp;
    let (version, _flags) = children.fullbox_header()?;
    if version != 0 {
        return Err(Error::from("Unsupported MetaBox"));
    }
    let mut item_id: Option<u32> = None;
    let mut idat: Option<&'a [u8]> = None;
    let mut iloc: Option<BoxSplitter<'a>> = None;
    while !children.is_empty()
        invariant
            boxp@.len() >= 4,
            uint_at(boxp@, 0, 1) == 0,
            meta_children(
                boxp@.skip(4),
                MetaContents { item_id: None, idat: None, iloc: None },
            ) == meta_children(
                children@,
                MetaContents {
                    item_id,
                    idat: bytes_view(idat),
                    iloc: match iloc {
                        Some(body) => Some(body@),
                        None => None,
                    },
                },
            ),
        decreases children@.len(),
    {
        let (boxtype, body) = children.child_box()?;
        if is_fourcc(boxtype, 'i', 'd', 'a', 't') {
            let mut body = body;
            assert(body@.take(body@.len() as int) =~= body@);
            idat = Some(body.slice(body.len())?);
        } else if is_fourcc(boxtype, 'i', 'i', 'n', 'f') {
            item_id = parse_iinf(body, item_id)?;
        } else if is_fourcc(boxtype, 'i', 'l', 'o', 'c') {
            iloc = Some(body);
        }
    }
    let item_id = item_id.ok_or(Error::NotFound("No Exif data found"))?;
    let iloc = iloc.ok_or(Error::from("No ItemLocationBox"))?;
    let location = parse_iloc(iloc, item_id)?.ok_or(
        Error::from("No matching item in ItemLocationBox"),
    )?;
    Ok((location, idat))
}

/// The bytes of the item data box `idat` that an extent covers, if its offset
/// counts from `base`. An extent of length 0 goes up to the end of the box.
pub open spec fn idat_extent(idat: Seq<u8>, base: u64, extent: (u64, u64, u64)) -> Result<
    Seq<u8>,
    Error,
> {
    let off = base + extent.1;
    let end = off + extent.2;
    if off > u64::MAX {
        Err(Error::InvalidFormat("Invalid offset"))
    } else if end > u64::MAX {
        Err(Error::InvalidFormat("Invalid length"))
    } else if off > usize::MAX {
        Err(Error::InvalidFormat("Offset too large"))
    } else if end > usize::MAX {
        Err(Error::InvalidFormat("Length too large"))
    } else if end > idat.len() {
        Err(Error::InvalidFormat("Out of ItemDataBox"))
    } else if extent.2 == 0 {
        Ok(idat.skip(off))
    } else {
        Ok(idat.subrange(off, end))
    }
}

/// The bytes that `extents` cover, one after the other.
pub open spec fn idat_extents(idat: Seq<u8>, base: u64, extents: Seq<(u64, u64, u64)>) -> Result<
    Seq<u8>,
    Error,
>
    decreases extents.len(),
{
    if extents.len() == 0 {
        Ok(Seq::empty())
    } else {
        match idat_extent(idat, base, extents[0]) {
            Err(e) => Err(e),
            Ok(bytes) => match idat_extents(idat, base, extents.skip(1)) {
                Err(e) => Err(e),
                Ok(rest) => Ok(bytes + rest),
            },
        }
    }
}

/// Gathers the data of an item out of the item data box `idat`.
pub fn read_idat(idat: &[u8], location: &Location) -> (data: Result<Vec<u8>, Error>)
    ensures
        match data {
            Ok(data) => idat_extents(idat@, location.base_offset, location.extents@) == Ok::<
                _,
                Error,
            >(data@),
            Err(e) => idat_extents(idat@, location.base_offset, location.extents@) == Err::<
                Seq<u8>,
                _,
            >(e),
        },
{
    let ghost extents = location.extents@;
    let mut buf: Vec<u8> = Vec::new();
    let mut i: usize = 0;
    assert(extents.skip(0) =~= extents);
    while i < location.extents.len()
        invariant
            extents == location.extents@,
            i <= extents.len(),
            idat_extents(idat@, location.base_offset, extents) == match idat_extents(
                idat@,
                location.base_offset,
                extents.skip(i as int),
            ) {
                Ok(rest) => Ok(buf@ + rest),
                Err(e) => Err(e),
            },
        decreases extents.len() - i,
    {
        let ghost before = buf@;
        let ghost extent = extents[i as int];
        assert(extents.skip(i as int).skip(1) =~= extents.skip(i + 1));
        let (_, off, len) = location.extents[i];
        let off = location.base_offset.checked_add(off).ok_or(Error::from("Invalid offset"))?;
        let end = off.checked_add(len).ok_or(Error::from("Invalid length"))?;
        let off = match usize::try_from(off) {
            Ok(off) => off,
            Err(_) => return Err(Error::from("Offset too large")),
        };
        let end = match usize::try_from(end) {
            Ok(end) => end,
            Err(_) => return Err(Error::from("Length too large")),
        };
        if end > idat.len() {
            return Err(Error::from("Out of ItemDataBox"));
        }
        let bytes = if len == 0 {
            slice_subrange(idat, off, idat.len())
        } else {
            slice_subrange(idat, off, end)
        };
        buf.extend_from_slice(bytes);
        proof {
            assert(buf@ =~= before + bytes@);
            assert(idat_extent(idat@, location.base_offset, extent) == Ok::<_, Error>(bytes@));
            if let Ok(rest) = idat_extents(idat@, location.base_offset, extents.skip(i + 1)) {
                assert(before + (bytes@ + rest) =~= buf@ + rest);
            }
        }
        i = i + 1;
    }
    Ok(buf)
}

} // verus!
