//! The metadata box: what its children tell together.

use vstd::prelude::*;

use crate::endian::lemma_uint_1_3;
use crate::endian::uint_at;
use crate::error::Error;
use crate::fourcc::fourcc;
use crate::item::iinf_exif_id;
use crate::item::iloc_location;
use crate::laws::entries::law_found_before;
use crate::laws::framing::LaidBox;
use crate::laws::framing::boxes_bytes;
use crate::laws::framing::boxes_fit;
use crate::laws::framing::law_read_framed;
use crate::laws::framing::lemma_first_box;
use crate::laws::framing::lemma_front_fits;
use crate::meta::ExifItem;
use crate::meta::MetaContents;
use crate::meta::meta_children;
use crate::meta::meta_exif_item;
use crate::splitter::child_box;

verus! {

/// The body of a metadata box: version 0, flags and the children.
pub open spec fn metadata_bytes(flags: Seq<u8>, children: Seq<u8>) -> Seq<u8> {
    seq![0u8] + flags + children
}

/// The type of an item data box.
pub open spec fn idat_type() -> Seq<u8> {
    seq![0x69u8, 0x64u8, 0x61u8, 0x74u8]
}

/// The type of an item information box.
pub open spec fn iinf_type() -> Seq<u8> {
    seq![0x69u8, 0x69u8, 0x6eu8, 0x66u8]
}

/// The type of an item location box.
pub open spec fn iloc_type() -> Seq<u8> {
    seq![0x69u8, 0x6cu8, 0x6fu8, 0x63u8]
}

proof fn lemma_types()
    ensures
        fourcc('i', 'd', 'a', 't') == idat_type(),
        fourcc('i', 'i', 'n', 'f') == iinf_type(),
        fourcc('i', 'l', 'o', 'c') == iloc_type(),
        idat_type() != iinf_type(),
        idat_type() != iloc_type(),
        iinf_type() != iloc_type(),
{
    assert(fourcc('i', 'd', 'a', 't') =~= idat_type());
    assert(fourcc('i', 'i', 'n', 'f') =~= iinf_type());
    assert(fourcc('i', 'l', 'o', 'c') =~= iloc_type());
    assert(idat_type()[1] != iinf_type()[1]);
    assert(idat_type()[1] != iloc_type()[1]);
    assert(iinf_type()[1] != iloc_type()[1]);
}

spec fn nothing_found() -> MetaContents {
    MetaContents { item_id: None, idat: None, iloc: None }
}

proof fn lemma_metadata(flags: Seq<u8>, children: Seq<u8>)
    requires
        flags.len() == 3,
    ensures
        metadata_bytes(flags, children).len() >= 4,
        uint_at(metadata_bytes(flags, children), 0, 1) == 0,
        metadata_bytes(flags, children).skip(4) == children,
{
    let s = metadata_bytes(flags, children);
    lemma_uint_1_3(s, 0);
    assert(s[0] == 0);
    assert(s.skip(4) =~= children);
}

/// What is found after one more child.
#[verifier::opaque]
spec fn after_child(child: LaidBox, found: MetaContents) -> Result<MetaContents, Error> {
    if child.boxtype == idat_type() {
        Ok(MetaContents { idat: Some(child.body), ..found })
    } else if child.boxtype == iloc_type() {
        Ok(MetaContents { iloc: Some(child.body), ..found })
    } else if child.boxtype == iinf_type() {
        match iinf_exif_id(child.body, None) {
            Ok(Some(id)) => Ok(MetaContents { item_id: Some(id), ..found }),
            Ok(None) => Ok(found),
            Err(e) => Err(e),
        }
    } else {
        Ok(found)
    }
}

/// The children of a metadata box are read one after the other.
proof fn lemma_one_child(child: LaidBox, rest: Seq<u8>, found: MetaContents)
    requires
        child.fits(rest),
    ensures
        meta_children(child.bytes() + rest, found) == match after_child(child, found) {
            Ok(then) => meta_children(rest, then),
            Err(e) => Err(e),
        },
{
    reveal(after_child);
    lemma_types();
    law_read_framed(child, rest);
    law_found_before(child.body, found.item_id);
}

/// Whether the `k`th child is the last one of that type.
pub open spec fn is_last(children: Seq<LaidBox>, k: int, boxtype: Seq<u8>) -> bool {
    &&& 0 <= k < children.len()
    &&& children[k].boxtype == boxtype
    &&& forall|i: int| k < i < children.len() ==> (#[trigger] children[i]).boxtype != boxtype
}

/// Whether there is no child of that type.
pub open spec fn is_absent(children: Seq<LaidBox>, boxtype: Seq<u8>) -> bool {
    forall|i: int| 0 <= i < children.len() ==> (#[trigger] children[i]).boxtype != boxtype
}

/// Whether the `k`th child is the last item information box that names an Exif item,
/// and names this one.
pub open spec fn names_last(children: Seq<LaidBox>, k: int, id: u32) -> bool {
    &&& 0 <= k < children.len()
    &&& children[k].boxtype == iinf_type()
    &&& iinf_exif_id(children[k].body, None) == Ok::<_, Error>(Some(id))
    &&& forall|i: int|
        k < i < children.len() && (#[trigger] children[i]).boxtype == iinf_type()
            ==> iinf_exif_id(children[i].body, None) == Ok::<_, Error>(None::<u32>)
}

/// Whether no item information box names an Exif item.
pub open spec fn names_none(children: Seq<LaidBox>) -> bool {
    forall|i: int|
        0 <= i < children.len() && (#[trigger] children[i]).boxtype == iinf_type()
            ==> iinf_exif_id(children[i].body, None) == Ok::<_, Error>(None::<u32>)
}

/// Whether all item information boxes can be read.
pub open spec fn are_readable(children: Seq<LaidBox>) -> bool {
    forall|i: int|
        0 <= i < children.len() && (#[trigger] children[i]).boxtype == iinf_type()
            ==> iinf_exif_id(children[i].body, None) is Ok
}

/// What children tell, on top of what was found, and with more behind them.
spec fn tells(children: Seq<LaidBox>, found: MetaContents, then: MetaContents) -> bool {
    &&& forall|k: int|
        #[trigger] is_last(children, k, idat_type()) ==> then.idat == Some(children[k].body)
    &&& is_absent(children, idat_type()) ==> then.idat == found.idat
    &&& forall|k: int|
        #[trigger] is_last(children, k, iloc_type()) ==> then.iloc == Some(children[k].body)
    &&& is_absent(children, iloc_type()) ==> then.iloc == found.iloc
    &&& forall|k: int, id: u32| #[trigger] names_last(children, k, id) ==> then.item_id == Some(id)
    &&& names_none(children) ==> then.item_id == found.item_id
}

proof fn lemma_tells(children: Seq<LaidBox>, rest: Seq<u8>, found: MetaContents)
    requires
        boxes_fit(children, rest),
        are_readable(children),
    ensures
        exists|then: MetaContents|
            #[trigger] tells(children, found, then) && meta_children(
                boxes_bytes(children) + rest,
                found,
            ) == meta_children(rest, then),
    decreases children.len(),
{
    if children.len() == 0 {
        assert(boxes_bytes(children) + rest =~= rest);
        assert(tells(children, found, found));
    } else {
        let first = children[0];
        let others = children.skip(1);
        lemma_first_box(children, rest);
        lemma_front_fits(children, rest);
        assert(boxes_bytes(children) + rest =~= first.bytes() + (boxes_bytes(others) + rest));
        lemma_one_child(first, boxes_bytes(others) + rest, found);
        let after = after_child(first, found)->Ok_0;
        assert(after_child(first, found) == Ok::<_, Error>(after)) by {
            reveal(after_child);
        }
        assert(forall|i: int| 0 <= i < others.len() ==> #[trigger] others[i] == children[i + 1]);
        lemma_tells(others, rest, after);
        let then = choose|then: MetaContents|
            #[trigger] tells(others, after, then) && meta_children(
                boxes_bytes(others) + rest,
                after,
            ) == meta_children(rest, then);
        lemma_tells_more(children, found, after, then);
        assert(tells(children, found, then));
    }
}

proof fn lemma_tells_more(
    children: Seq<LaidBox>,
    found: MetaContents,
    after: MetaContents,
    then: MetaContents,
)
    requires
        children.len() > 0,
        are_readable(children),
        tells(children.skip(1), after, then),
        after_child(children[0], found) == Ok::<_, Error>(after),
    ensures
        tells(children, found, then),
{
    let others = children.skip(1);
    reveal(after_child);
    lemma_types();
    assert forall|i: int| 1 <= i < children.len() implies #[trigger] children[i] == others[i
        - 1] by {}
    assert(forall|i: int| 0 <= i < others.len() ==> #[trigger] others[i] == children[i + 1]);
    assert forall|k: int| #[trigger] is_last(children, k, idat_type()) implies then.idat == Some(
        children[k].body,
    ) by {
        if k == 0 {
            assert(is_absent(others, idat_type()));
        } else {
            assert(is_last(others, k - 1, idat_type()));
        }
    }
    assert forall|k: int| #[trigger] is_last(children, k, iloc_type()) implies then.iloc == Some(
        children[k].body,
    ) by {
        if k == 0 {
            assert(is_absent(others, iloc_type()));
        } else {
            assert(is_last(others, k - 1, iloc_type()));
        }
    }
    assert forall|k: int, id: u32| #[trigger] names_last(children, k, id) implies then.item_id
        == Some(id) by {
        if k == 0 {
            assert(names_none(others));
        } else {
            assert(names_last(others, k - 1, id));
        }
    }
    if is_absent(children, idat_type()) {
        assert(is_absent(others, idat_type()));
        assert(children[0].boxtype != idat_type());
    }
    if is_absent(children, iloc_type()) {
        assert(is_absent(others, iloc_type()));
        assert(children[0].boxtype != iloc_type());
    }
    if names_none(children) {
        assert(names_none(others));
    }
}

/// The children of a metadata box in any order, with any others among them, tell where
/// the Exif item lies: the last item information box that names one says which item it
/// is, the last item location box says where that lies, and the last item data box
/// holds the data.
pub proof fn law_children_locate(
    flags: Seq<u8>,
    children: Seq<LaidBox>,
    iinf: int,
    iloc: int,
    idat: Option<int>,
    id: u32,
)
    requires
        flags.len() == 3,
        boxes_fit(children, Seq::empty()),
        are_readable(children),
        names_last(children, iinf, id),
        is_last(children, iloc, iloc_type()),
        match idat {
            Some(k) => is_last(children, k, idat_type()),
            None => is_absent(children, idat_type()),
        },
    ensures
        meta_exif_item(metadata_bytes(flags, boxes_bytes(children))) == match iloc_location(
            children[iloc].body,
            id,
        ) {
            Ok(Some(location)) => Ok(
                ExifItem {
                    location,
                    idat: match idat {
                        Some(k) => Some(children[k].body),
                        None => None,
                    },
                },
            ),
            Ok(None) => Err(Error::InvalidFormat("No matching item in ItemLocationBox")),
            Err(e) => Err(e),
        },
{
    lemma_metadata(flags, boxes_bytes(children));
    lemma_tells(children, Seq::empty(), nothing_found());
    assert(boxes_bytes(children) + Seq::<u8>::empty() =~= boxes_bytes(children));
}

/// Where no item information box names an Exif item, there is no Exif data, whatever
/// the other children are.
pub proof fn law_children_without_exif(flags: Seq<u8>, children: Seq<LaidBox>)
    requires
        flags.len() == 3,
        boxes_fit(children, Seq::empty()),
        names_none(children),
    ensures
        meta_exif_item(metadata_bytes(flags, boxes_bytes(children))) == Err::<ExifItem, _>(
            Error::NotFound("No Exif data found"),
        ),
{
    lemma_metadata(flags, boxes_bytes(children));
    lemma_tells(children, Seq::empty(), nothing_found());
    assert(boxes_bytes(children) + Seq::<u8>::empty() =~= boxes_bytes(children));
}

/// Where an item information box names an Exif item, there has to be an item location
/// box.
pub proof fn law_children_without_location(
    flags: Seq<u8>,
    children: Seq<LaidBox>,
    iinf: int,
    id: u32,
)
    requires
        flags.len() == 3,
        boxes_fit(children, Seq::empty()),
        are_readable(children),
        names_last(children, iinf, id),
        is_absent(children, iloc_type()),
    ensures
        meta_exif_item(metadata_bytes(flags, boxes_bytes(children))) == Err::<ExifItem, _>(
            Error::InvalidFormat("No ItemLocationBox"),
        ),
{
    lemma_metadata(flags, boxes_bytes(children));
    lemma_tells(children, Seq::empty(), nothing_found());
    assert(boxes_bytes(children) + Seq::<u8>::empty() =~= boxes_bytes(children));
}

/// The first child that is no whole box, or an item information box with an error, is
/// the error of the metadata box, whatever the children before it are.
pub proof fn law_child_error(flags: Seq<u8>, before: Seq<LaidBox>, rest: Seq<u8>)
    requires
        flags.len() == 3,
        boxes_fit(before, rest),
        are_readable(before),
        rest.len() > 0,
    ensures
        ({
            let read = meta_exif_item(metadata_bytes(flags, boxes_bytes(before) + rest));
            match child_box(rest) {
                Err(e) => read == Err::<ExifItem, _>(e),
                Ok(child) => child.boxtype == iinf_type() ==> (iinf_exif_id(
                    child.body,
                    None,
                ) matches Err(e) ==> read == Err::<ExifItem, _>(e)),
            }
        }),
{
    lemma_metadata(flags, boxes_bytes(before) + rest);
    lemma_tells(before, rest, nothing_found());
    let then = choose|then: MetaContents|
        #[trigger] tells(before, nothing_found(), then) && meta_children(
            boxes_bytes(before) + rest,
            nothing_found(),
        ) == meta_children(rest, then);
    lemma_types();
    if let Ok(child) = child_box(rest) {
        law_found_before(child.body, then.item_id);
    }
}

/// A child that is neither an item data box nor an item information box nor an item
/// location box makes no difference, wherever it stands and whatever else there is.
pub proof fn law_other_child_ignored(
    flags: Seq<u8>,
    before: Seq<LaidBox>,
    other: LaidBox,
    rest: Seq<u8>,
)
    requires
        flags.len() == 3,
        boxes_fit(before.push(other), rest),
        other.boxtype != idat_type(),
        other.boxtype != iinf_type(),
        other.boxtype != iloc_type(),
    ensures
        meta_exif_item(metadata_bytes(flags, boxes_bytes(before) + other.bytes() + rest))
            == meta_exif_item(metadata_bytes(flags, boxes_bytes(before) + rest)),
{
    lemma_metadata(flags, boxes_bytes(before) + other.bytes() + rest);
    lemma_metadata(flags, boxes_bytes(before) + rest);
    lemma_other_ignored(before, other, rest, nothing_found());
    reveal(told);
}

/// What children tell, as a value that is not looked into.
#[verifier::opaque]
spec fn told(s: Seq<u8>, found: MetaContents) -> Result<MetaContents, Error> {
    meta_children(s, found)
}

proof fn lemma_one_told(child: LaidBox, rest: Seq<u8>, found: MetaContents)
    requires
        child.fits(rest),
    ensures
        told(child.bytes() + rest, found) == match after_child(child, found) {
            Ok(then) => told(rest, then),
            Err(e) => Err(e),
        },
{
    reveal(told);
    lemma_one_child(child, rest, found);
}

proof fn lemma_other_ignored(
    before: Seq<LaidBox>,
    other: LaidBox,
    rest: Seq<u8>,
    found: MetaContents,
)
    requires
        boxes_fit(before.push(other), rest),
        other.boxtype != idat_type(),
        other.boxtype != iinf_type(),
        other.boxtype != iloc_type(),
    ensures
        told(boxes_bytes(before) + other.bytes() + rest, found) == told(
            boxes_bytes(before) + rest,
            found,
        ),
    decreases before.len(),
{
    let all = before.push(other);
    assert(boxes_fit(all, rest) && all.last() == other);
    if before.len() == 0 {
        lemma_one_told(other, rest, found);
        assert(after_child(other, found) == Ok::<_, Error>(found)) by {
            reveal(after_child);
        }
        assert(boxes_bytes(before) + other.bytes() + rest =~= other.bytes() + rest);
        assert(boxes_bytes(before) + rest =~= rest);
    } else {
        let first = before[0];
        let others = before.skip(1);
        let with = boxes_bytes(others) + other.bytes() + rest;
        let without = boxes_bytes(others) + rest;
        assert(all[0] == first);
        assert(first.fits(with) && first.fits(without));
        lemma_one_told(first, with, found);
        lemma_one_told(first, without, found);
        assert(boxes_bytes(before) + other.bytes() + rest =~= first.bytes() + with);
        assert(boxes_bytes(before) + rest =~= first.bytes() + without);
        let others_all = others.push(other);
        assert forall|i: int| 0 <= i < others_all.len() implies (#[trigger] others_all[i]).fits(
            rest,
        ) && (others_all[i].framing is Open ==> i == others_all.len() - 1) by {
            assert(others_all[i] == all[i + 1]);
        }
        if let Ok(after) = after_child(first, found) {
            lemma_other_ignored(others, other, rest, after);
        }
    }
}

/// A metadata box that ends before its children is too small, and one of another
/// version than 0 is not supported.
pub proof fn law_metadata_errors(s: Seq<u8>)
    ensures
        s.len() < 4 ==> meta_exif_item(s) == Err::<ExifItem, _>(
            Error::InvalidFormat("Box too small"),
        ),
        s.len() >= 4 && s[0] != 0 ==> meta_exif_item(s) == Err::<ExifItem, _>(
            Error::InvalidFormat("Unsupported MetaBox"),
        ),
{
    if s.len() >= 4 {
        lemma_uint_1_3(s, 0);
    }
}

} // verus!
