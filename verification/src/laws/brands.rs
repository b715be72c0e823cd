//! Brands: which files are HEIF files.

use vstd::prelude::*;

use crate::error::Error;
use crate::fourcc::fourcc;
use crate::ftyp::compatible_brand;
use crate::ftyp::declares_heif;
use crate::ftyp::ftyp_check;
use crate::ftyp::is_heif_brand;
use crate::ftyp::is_structural_brand;
use crate::ftyp::lists_structural_brand;
use crate::laws::framing::LaidBox;
use crate::laws::framing::boxes_bytes;
use crate::laws::framing::boxes_fit;
use crate::laws::framing::law_box_is_framed;
use crate::laws::framing::law_read_framed;
use crate::laws::framing::lemma_first_box;
use crate::splitter::child_box;

verus! {

/// The brands of HEIF are `mif1`, `msf1`, and `hei` or `hev` followed by one of `c`,
/// `x`, `m`, `s`. There are no others.
pub proof fn law_heif_brands(brand: Seq<u8>)
    ensures
        is_heif_brand(brand) <==> brand.len() == 4 && {
            ||| brand[0] == 0x6d && brand[1] == 0x69 && brand[2] == 0x66 && brand[3] == 0x31
            ||| brand[0] == 0x6d && brand[1] == 0x73 && brand[2] == 0x66 && brand[3] == 0x31
            ||| brand[0] == 0x68 && brand[1] == 0x65 && (brand[2] == 0x69 || brand[2] == 0x76) && (
            brand[3] == 0x63 || brand[3] == 0x78 || brand[3] == 0x6d || brand[3] == 0x73)
        },
{
    if brand.len() == 4 {
        assert(brand =~= seq![brand[0], brand[1], brand[2], brand[3]]);
    }
}

/// The body of a file type box is that of a HEIF file if and only if one of the brands
/// from the ninth byte on, four bytes each, is `mif1` or `msf1`.
pub proof fn law_ftyp_accepts(s: Seq<u8>)
    ensures
        ftyp_check(s) == Ok::<_, Error>(()) <==> exists|k: int|
            8 <= k && k % 4 == 0 && k + 4 <= s.len() && #[trigger] s[k] == 0x6d && (s[k + 1] == 0x69
                || s[k + 1] == 0x73) && s[k + 2] == 0x66 && s[k + 3] == 0x31,
        s.len() < 8 ==> ftyp_check(s) == Err::<(), _>(Error::InvalidFormat("Box too small")),
        s.len() >= 8 && ftyp_check(s) is Err ==> ftyp_check(s) == Err::<(), _>(
            Error::InvalidFormat("Not a HEIF file"),
        ),
{
    if lists_structural_brand(s) {
        let i = choose|i: int|
            0 <= i && 12 + 4 * i <= s.len() && is_structural_brand(#[trigger] compatible_brand(s, i));
        let k = 8 + 4 * i;
        let brand = compatible_brand(s, i);
        assert(brand[0] == s[k] && brand[1] == s[k + 1] && brand[2] == s[k + 2] && brand[3] == s[k
            + 3]);
        assert(s[k] == 0x6d);
    }
    if exists|k: int|
        8 <= k && k % 4 == 0 && k + 4 <= s.len() && #[trigger] s[k] == 0x6d && (s[k + 1] == 0x69
            || s[k + 1] == 0x73) && s[k + 2] == 0x66 && s[k + 3] == 0x31 {
        let k = choose|k: int|
            8 <= k && k % 4 == 0 && k + 4 <= s.len() && #[trigger] s[k] == 0x6d && (s[k + 1] == 0x69
                || s[k + 1] == 0x73) && s[k + 2] == 0x66 && s[k + 3] == 0x31;
        let i = k / 4 - 2;
        let brand = compatible_brand(s, i);
        assert(brand =~= seq![s[k], s[k + 1], s[k + 2], s[k + 3]]);
        if s[k + 1] == 0x69 {
            assert(brand =~= fourcc('m', 'i', 'f', '1'));
        } else {
            assert(brand =~= fourcc('m', 's', 'f', '1'));
        }
        assert(is_structural_brand(brand));
    }
}

/// The type of a file type box.
pub open spec fn ftyp_type() -> Seq<u8> {
    seq![0x66u8, 0x74u8, 0x79u8, 0x70u8]
}

/// Whether `first` is the first file type box, behind the others in `before`.
pub open spec fn is_first_ftyp(before: Seq<LaidBox>, first: LaidBox, rest: Seq<u8>) -> bool {
    &&& boxes_fit(before.push(first), rest)
    &&& forall|i: int| 0 <= i < before.len() ==> (#[trigger] before[i]).boxtype != ftyp_type()
    &&& first.boxtype == ftyp_type()
}

/// The first file type box of a file decides, by the first four bytes in it, whatever
/// comes before it, after these bytes, or after it, and however the boxes are framed.
/// One that has no four bytes says no.
pub proof fn law_first_ftyp_decides(before: Seq<LaidBox>, first: LaidBox, rest: Seq<u8>)
    requires
        is_first_ftyp(before, first, rest),
    ensures
        declares_heif(boxes_bytes(before) + first.bytes() + rest) == (first.body.len() >= 4
            && is_heif_brand(first.body.take(4))),
    decreases before.len(),
{
    let all = before.push(first);
    assert(all.last() == first);
    assert(first.fits(rest));
    assert(fourcc('f', 't', 'y', 'p') =~= ftyp_type());
    if before.len() == 0 {
        law_read_framed(first, rest);
        assert(boxes_bytes(before) + first.bytes() + rest =~= first.bytes() + rest);
    } else {
        let others = before.skip(1);
        let after = boxes_bytes(others) + first.bytes() + rest;
        assert(boxes_fit(all, rest) && all[0] == before[0]);
        assert(before[0].fits(rest) && !(before[0].framing is Open));
        law_read_framed(before[0], after);
        assert(boxes_bytes(before) + first.bytes() + rest =~= before[0].bytes() + after);
        let others_all = others.push(first);
        assert forall|i: int| 0 <= i < others_all.len() implies (#[trigger] others_all[i]).fits(
            rest,
        ) && (others_all[i].framing is Open ==> i == others_all.len() - 1) by {
            assert(others_all[i] == all[i + 1]);
        }
        assert(forall|i: int| 0 <= i < others.len() ==> #[trigger] others[i] == before[i + 1]);
        law_first_ftyp_decides(others, first, rest);
    }
}

/// Nothing else is a HEIF file: there are whole boxes up to a file type box, and that
/// is whole too.
pub proof fn law_heif_has_ftyp(s: Seq<u8>)
    requires
        declares_heif(s),
    ensures
        exists|before: Seq<LaidBox>, first: LaidBox, rest: Seq<u8>| #[trigger]
            is_first_ftyp(before, first, rest) && s == boxes_bytes(before) + first.bytes() + rest
                && first.body.len() >= 4,
    decreases s.len(),
{
    assert(fourcc('f', 't', 'y', 'p') =~= ftyp_type());
    let child = child_box(s)->Ok_0;
    law_box_is_framed(s);
    let laid = choose|laid: LaidBox| #[trigger]
        laid.fits(child.rest) && laid.boxtype == child.boxtype && laid.body == child.body && s
            == laid.bytes() + child.rest;
    if child.boxtype == ftyp_type() {
        let before = Seq::<LaidBox>::empty();
        assert(before.push(laid) =~= seq![laid]);
        assert(is_first_ftyp(before, laid, child.rest));
        assert(s =~= boxes_bytes(before) + laid.bytes() + child.rest);
    } else {
        law_heif_has_ftyp(child.rest);
        let (others, first, rest) = choose|others: Seq<LaidBox>, first: LaidBox, rest: Seq<u8>|
         #[trigger]
            is_first_ftyp(others, first, rest) && child.rest == boxes_bytes(others) + first.bytes()
                + rest && first.body.len() >= 4;
        let before = seq![laid] + others;
        let all = before.push(first);
        let others_all = others.push(first);
        assert(others_all.last() == first && first.fits(rest));
        law_read_framed(first, rest);
        assert(child.rest.len() > 0);
        assert(!(laid.framing is Open));
        assert forall|i: int| 0 <= i < all.len() implies (#[trigger] all[i]).fits(rest) && (
        all[i].framing is Open ==> i == all.len() - 1) by {
            if i > 0 {
                assert(all[i] == others_all[i - 1]);
            }
        }
        assert forall|i: int| 0 <= i < before.len() implies (#[trigger] before[i]).boxtype
            != ftyp_type() by {
            if i > 0 {
                assert(before[i] == others[i - 1]);
            }
        }
        assert(before.skip(1) =~= others);
        assert(boxes_bytes(before) == laid.bytes() + boxes_bytes(others));
        assert(s =~= boxes_bytes(before) + first.bytes() + rest);
        assert(is_first_ftyp(before, first, rest));
    }
}

/// A file type box that is not whole does not count, nor does a file without one.
pub proof fn law_no_ftyp(before: Seq<LaidBox>, rest: Seq<u8>)
    requires
        boxes_fit(before, rest),
        forall|i: int| 0 <= i < before.len() ==> (#[trigger] before[i]).boxtype != ftyp_type(),
        child_box(rest) is Err,
    ensures
        !declares_heif(boxes_bytes(before) + rest),
    decreases before.len(),
{
    assert(fourcc('f', 't', 'y', 'p') =~= ftyp_type());
    if before.len() == 0 {
        assert(boxes_bytes(before) + rest =~= rest);
    } else {
        let others = before.skip(1);
        lemma_first_box(before, rest);
        assert(before[0].boxtype != ftyp_type());
        assert(forall|i: int| 0 <= i < others.len() ==> #[trigger] others[i] == before[i + 1]);
        law_no_ftyp(others, rest);
    }
}

} // verus!
