//! The file type box and the brands in it.

use vstd::prelude::*;

use crate::cut::group_cut;
use crate::error::Error;
use crate::fourcc::fourcc;
use crate::fourcc::is_fourcc;
use crate::splitter::BoxSplitter;
use crate::splitter::box_too_small;
use crate::splitter::child_box;

verus! {

broadcast use group_cut;

/// A compatible brand that every HEIF file lists, whatever its major brand: images
/// list `mif1`, image sequences `msf1`.
pub open spec fn is_structural_brand(brand: Seq<u8>) -> bool {
    brand == fourcc('m', 'i', 'f', '1') || brand == fourcc('m', 's', 'f', '1')
}

/// The `i`th compatible brand in the body `s` of a file type box, after the
/// major brand and the minor version.
pub open spec fn compatible_brand(s: Seq<u8>, i: int) -> Seq<u8> {
    s.subrange(8 + 4 * i, 12 + 4 * i)
}

/// Whether the body `s` of a file type box lists a compatible brand of HEIF.
pub open spec fn lists_structural_brand(s: Seq<u8>) -> bool {
    exists|i: int|
        0 <= i && 12 + 4 * i <= s.len() && is_structural_brand(#[trigger] compatible_brand(s, i))
}

/// What a check of the body `s` of a file type box says.
pub open spec fn ftyp_check(s: Seq<u8>) -> Result<(), Error> {
    if s.len() < 8 {
        Err(box_too_small())
    } else if lists_structural_brand(s) {
        Ok(())
    } else {
        Err(Error::InvalidFormat("Not a HEIF file"))
    }
}

/// Checks the body of a file type box: a HEIF file has `mif1` or `msf1` among
/// its compatible brands.
pub fn parse_ftyp(boxp: BoxSplitter) -> (checked: Result<(), Error>)
    ensures
        checked == ftyp_check(boxp@),
{
    let ghost s = boxp@;
    let mut fields = boxp;
    let _head = fields.slice(8)?;
    let ghost mut i: int = 0;
    loop
        invariant
            s == boxp@,
            0 <= i,
            8 + 4 * i <= s.len(),
            fields@ == s.skip(8 + 4 * i),
            forall|j: int| 0 <= j < i ==> !is_structural_brand(#[trigger] compatible_brand(s, j)),
        decreases fields@.len(),
    {
        let brand = match fields.slice(4) {
            Ok(brand) => brand,
            Err(_) => return Err(Error::from("Not a HEIF file")),
        };
        assert(brand@ == compatible_brand(s, i));
        if is_fourcc(brand, 'm', 'i', 'f', '1') || is_fourcc(brand, 'm', 's', 'f', '1') {
            return Ok(());
        }
        proof {
            i = i + 1;
        }
    }
}

/// The brands of HEIF images and image sequences.
pub open spec fn is_heif_brand(brand: Seq<u8>) -> bool {
    ||| brand == fourcc('m', 'i', 'f', '1')
    ||| brand == fourcc('h', 'e', 'i', 'c')
    ||| brand == fourcc('h', 'e', 'i', 'x')
    ||| brand == fourcc('h', 'e', 'i', 'm')
    ||| brand == fourcc('h', 'e', 'i', 's')
    ||| brand == fourcc('m', 's', 'f', '1')
    ||| brand == fourcc('h', 'e', 'v', 'c')
    ||| brand == fourcc('h', 'e', 'v', 'x')
    ||| brand == fourcc('h', 'e', 'v', 'm')
    ||| brand == fourcc('h', 'e', 'v', 's')
}

/// The major brand of the file `s`: the first four bytes in its first file type
/// box, if the boxes up to that one can be told apart and it has that many.
pub open spec fn major_brand(s: Seq<u8>) -> Option<Seq<u8>>
    decreases s.len(),
{
    match child_box(s) {
        Err(_) => None,
        Ok(child) => if child.boxtype == fourcc('f', 't', 'y', 'p') {
            if child.body.len() >= 4 {
                Some(child.body.take(4))
            } else {
                None
            }
        } else {
            major_brand(child.rest)
        },
    }
}

/// Whether the file `s` declares itself a HEIF file.
pub open spec fn declares_heif(s: Seq<u8>) -> bool {
    match major_brand(s) {
        Some(brand) => is_heif_brand(brand),
        None => false,
    }
}

/// Whether `buf` starts like a HEIF file: the major brand is one of HEIF.
pub fn is_heif(buf: &[u8]) -> (yes: bool)
    ensures
        yes == declares_heif(buf@),
{
    let mut boxp = BoxSplitter::new(buf);
    loop
        invariant
            declares_heif(buf@) == declares_heif(boxp@),
        decreases boxp@.len(),
    {
        let (boxtype, body) = match boxp.child_box() {
            Ok(child) => child,
            Err(_) => return false,
        };
        if is_fourcc(boxtype, 'f', 't', 'y', 'p') {
            let mut body = body;
            return match body.slice(4) {
                Ok(brand) => is_fourcc(brand, 'm', 'i', 'f', '1') || is_fourcc(
                    brand,
                    'h',
                    'e',
                    'i',
                    'c',
                ) || is_fourcc(brand, 'h', 'e', 'i', 'x') || is_fourcc(brand, 'h', 'e', 'i', 'm')
                    || is_fourcc(brand, 'h', 'e', 'i', 's') || is_fourcc(brand, 'm', 's', 'f', '1')
                    || is_fourcc(brand, 'h', 'e', 'v', 'c') || is_fourcc(brand, 'h', 'e', 'v', 'x')
                    || is_fourcc(brand, 'h', 'e', 'v', 'm') || is_fourcc(brand, 'h', 'e', 'v', 's'),
                Err(_) => false,
            };
        }
    }
}

} // verus!
