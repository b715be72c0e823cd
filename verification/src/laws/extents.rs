//! Extents: which bytes make up the data of an item.

use vstd::prelude::*;

use crate::error::Error;
use crate::error::IoError;
use crate::exif::Outcome;
use crate::exif::file_extents;
use crate::exif::item_data;
use crate::meta::ExifItem;
use crate::meta::idat_extent;
use crate::meta::idat_extents;
use crate::reader::bytes_from;
use crate::reader::window;

verus! {

/// An extent of the item data box is the bytes that lie there, counted from the base
/// offset and the offset together.
pub proof fn law_idat_extent_in_place(
    before: Seq<u8>,
    block: Seq<u8>,
    after: Seq<u8>,
    base: u64,
    extent: (u64, u64, u64),
)
    requires
        before.len() == base + extent.1,
        block.len() == extent.2,
        block.len() > 0,
        before.len() + block.len() + after.len() <= usize::MAX,
    ensures
        idat_extent(before + block + after, base, extent) == Ok::<_, Error>(block),
{
    let idat = before + block + after;
    let off = before.len() as int;
    assert(idat.subrange(off, off + block.len()) =~= block);
}

/// An extent of length 0 is all the bytes from there on.
pub proof fn law_idat_extent_to_end(
    before: Seq<u8>,
    rest: Seq<u8>,
    base: u64,
    extent: (u64, u64, u64),
)
    requires
        before.len() == base + extent.1,
        extent.2 == 0,
        before.len() + rest.len() <= usize::MAX,
    ensures
        idat_extent(before + rest, base, extent) == Ok::<_, Error>(rest),
{
    assert((before + rest).skip(before.len() as int) =~= rest);
}

/// Why an extent of the item data box can be refused: a position that does not fit in
/// eight bytes or in memory, or one that is not in the box.
pub proof fn law_idat_extent_errors(idat: Seq<u8>, base: u64, extent: (u64, u64, u64))
    ensures
        ({
            let read = idat_extent(idat, base, extent);
            let off = base + extent.1;
            let end = base + extent.1 + extent.2;
            &&& off > u64::MAX ==> read == Err::<Seq<u8>, _>(Error::InvalidFormat("Invalid offset"))
            &&& off <= u64::MAX < end ==> read == Err::<Seq<u8>, _>(
                Error::InvalidFormat("Invalid length"),
            )
            &&& usize::MAX < off && end <= u64::MAX ==> read == Err::<Seq<u8>, _>(
                Error::InvalidFormat("Offset too large"),
            )
            &&& off <= usize::MAX < end <= u64::MAX ==> read == Err::<Seq<u8>, _>(
                Error::InvalidFormat("Length too large"),
            )
            &&& idat.len() < end <= usize::MAX ==> read == Err::<Seq<u8>, _>(
                Error::InvalidFormat("Out of ItemDataBox"),
            )
        }),
{
}

/// The data of an item in the item data box, if that holds all of its extents, is what
/// lies there, joined in order.
pub proof fn law_idat_data(idat: Seq<u8>, base: u64, extents: Seq<(u64, u64, u64)>)
    requires
        idat.len() <= usize::MAX,
    ensures
        idat_extents(idat, base, extents) is Ok <==> forall|i: int|
            0 <= i < extents.len() ==> base + (#[trigger] extents[i]).1 + extents[i].2
                <= idat.len(),
        idat_extents(idat, base, extents) matches Ok(joined) ==> joined == extents.map_values(
            |extent: (u64, u64, u64)|
                if extent.2 == 0 {
                    idat.skip(base + extent.1)
                } else {
                    idat.subrange(base + extent.1, base + extent.1 + extent.2)
                },
        ).flatten(),
    decreases extents.len(),
{
    let bytes_of = |extent: (u64, u64, u64)|
        if extent.2 == 0 {
            idat.skip(base + extent.1)
        } else {
            idat.subrange(base + extent.1, base + extent.1 + extent.2)
        };
    let pieces = extents.map_values(bytes_of);
    if extents.len() > 0 {
        let rest = extents.skip(1);
        law_idat_data(idat, base, rest);
        assert(forall|i: int| 0 <= i < rest.len() ==> #[trigger] rest[i] == extents[i + 1]);
        assert forall|i: int| 1 <= i < extents.len() implies #[trigger] extents[i] == rest[i
            - 1] by {}
        assert(pieces.drop_first() =~= rest.map_values(bytes_of));
    }
}

/// Extents of the item data box that are gathered in two parts give the same as at
/// once. If one of the first part is refused, none of the second matters.
pub proof fn law_idat_in_parts(
    idat: Seq<u8>,
    base: u64,
    left: Seq<(u64, u64, u64)>,
    right: Seq<(u64, u64, u64)>,
)
    ensures
        idat_extents(idat, base, left + right) == match (
            idat_extents(idat, base, left),
            idat_extents(idat, base, right),
        ) {
            (Err(e), _) => Err(e),
            (_, Err(e)) => Err(e),
            (Ok(first), Ok(second)) => Ok(first + second),
        },
    decreases left.len(),
{
    let all = left + right;
    if left.len() == 0 {
        assert(all =~= right);
        if let Ok(second) = idat_extents(idat, base, right) {
            assert(Seq::<u8>::empty() + second =~= second);
        }
    } else {
        assert(all.skip(1) =~= left.skip(1) + right);
        assert(all[0] == left[0]);
        law_idat_in_parts(idat, base, left.skip(1), right);
        if let (Ok(bytes), Ok(first), Ok(second)) = (
            idat_extent(idat, base, left[0]),
            idat_extents(idat, base, left.skip(1)),
            idat_extents(idat, base, right),
        ) {
            assert(bytes + (first + second) =~= bytes + first + second);
        }
    }
}

/// A single extent of the item data box is all the data.
pub proof fn law_idat_alone(idat: Seq<u8>, base: u64, extent: (u64, u64, u64))
    ensures
        idat_extents(idat, base, seq![extent]) == idat_extent(idat, base, extent),
{
    let rest = seq![extent].skip(1);
    assert(rest =~= Seq::empty());
    assert(idat_extents(idat, base, rest) == Ok::<_, Error>(Seq::<u8>::empty()));
    if let Ok(bytes) = idat_extent(idat, base, extent) {
        assert(bytes + Seq::<u8>::empty() =~= bytes);
    }
}

/// What a single extent of the file comes to, and where that leaves the reader.
pub proof fn law_file_extent_alone(data: Seq<u8>, pos: nat, base: u64, extent: (u64, u64, u64))
    ensures
        ({
            let off = base + extent.1;
            let end = base + extent.1 + extent.2;
            file_extents(data, pos, base, seq![extent]) == if off > u64::MAX {
                Outcome { result: Err(Error::InvalidFormat("Invalid offset")), pos }
            } else if off > data.len() {
                Outcome {
                    result: Err(Error::Io(IoError::UnexpectedEof("truncated extent"))),
                    pos: off as nat,
                }
            } else if end > data.len() {
                Outcome {
                    result: Err(Error::Io(IoError::UnexpectedEof("truncated extent"))),
                    pos: data.len(),
                }
            } else if extent.2 == 0 {
                Outcome { result: Ok(data.skip(off)), pos: data.len() }
            } else {
                Outcome { result: Ok(data.subrange(off, end)), pos: end as nat }
            }
        }),
{
    let extents = seq![extent];
    let off = (base + extent.1) as nat;
    let len = extent.2 as nat;
    assert(extents.skip(1) =~= Seq::empty());
    if off <= data.len() {
        let bytes = if len == 0 {
            bytes_from(data, off)
        } else {
            window(data, off, len)
        };
        assert(file_extents(data, off + bytes.len(), base, extents.skip(1)) == (Outcome {
            result: Ok(Seq::empty()),
            pos: off + bytes.len(),
        }));
        assert(bytes + Seq::<u8>::empty() =~= bytes);
        if len != 0 && off + len <= data.len() {
            assert(bytes =~= data.subrange(off as int, (off + len) as int));
        }
    }
}

/// Extents of the file that are gathered in two parts give the same as at once. If one
/// of the first part is refused, that is all.
pub proof fn law_file_in_parts(
    data: Seq<u8>,
    pos: nat,
    base: u64,
    left: Seq<(u64, u64, u64)>,
    right: Seq<(u64, u64, u64)>,
)
    ensures
        ({
            let first = file_extents(data, pos, base, left);
            let second = file_extents(data, first.pos, base, right);
            file_extents(data, pos, base, left + right) == match (first.result, second.result) {
                (Err(_), _) => first,
                (Ok(_), Err(_)) => second,
                (Ok(a), Ok(b)) => Outcome { result: Ok(a + b), pos: second.pos },
            }
        }),
    decreases left.len(),
{
    let all = left + right;
    if left.len() == 0 {
        assert(all =~= right);
        if let Ok(b) = file_extents(data, pos, base, right).result {
            assert(Seq::<u8>::empty() + b =~= b);
        }
    } else {
        let off = (base + left[0].1) as nat;
        let len = left[0].2;
        let bytes = if len == 0 {
            bytes_from(data, off)
        } else {
            window(data, off, len as nat)
        };
        let then = off + bytes.len();
        assert(all.skip(1) =~= left.skip(1) + right);
        assert(all[0] == left[0]);
        law_file_in_parts(data, then, base, left.skip(1), right);
        let first = file_extents(data, then, base, left.skip(1));
        if let (Ok(a), Ok(b)) = (
            first.result,
            file_extents(data, first.pos, base, right).result,
        ) {
            assert(bytes + (a + b) =~= bytes + a + b);
        }
    }
}

/// Without extents there are no bytes, and the reader stays where it is.
pub proof fn law_no_extents(data: Seq<u8>, pos: nat, base: u64)
    ensures
        file_extents(data, pos, base, Seq::empty()) == (Outcome {
            result: Ok(Seq::empty()),
            pos,
        }),
        idat_extents(data, base, Seq::empty()) == Ok::<_, Error>(Seq::<u8>::empty()),
{
}

/// The construction method says where the extents of an item lie: 0 in the file, 1 in
/// the item data box, which there has to be then. No other is supported. Only extents
/// in the file have the reader moved.
pub proof fn law_construction_methods(data: Seq<u8>, pos: nat, item: ExifItem)
    ensures
        ({
            let base = item.location.base_offset;
            let extents = item.location.extents;
            let read = item_data(data, pos, item);
            match item.location.construction_method {
                0 => read == file_extents(data, pos, base, extents),
                1 => read.pos == pos && match item.idat {
                    Some(idat) => read.result == idat_extents(idat, base, extents),
                    None => read.result == Err::<Seq<u8>, _>(
                        Error::InvalidFormat("No ItemDataBox"),
                    ),
                },
                2 => read.pos == pos && read.result == Err::<Seq<u8>, _>(
                    Error::NotSupported("Construction by item offset is supported"),
                ),
                _ => read.pos == pos && read.result == Err::<Seq<u8>, _>(
                    Error::InvalidFormat("Invalid construction_method"),
                ),
            }
        }),
{
}

} // verus!
