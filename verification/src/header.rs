//! The headers of the boxes at the top level of a file.

use vstd::prelude::*;

use crate::cut::group_cut;
use crate::endian::BigEndian;
use crate::endian::uint_at;
use crate::error::Error;
use crate::error::IoError;
use crate::reader::Cursor;
use crate::reader::window;

verus! {

broadcast use group_cut;

/// What the first eight bytes of a box tell.
#[derive(Debug)]
pub enum BoxHeader {
    /// There is no box: the file ends here.
    EndOfFile,
    /// The size follows in eight more bytes; the type is known.
    LargeSize([u8; 4]),
    /// The size of the body and the type.
    Sized(u64, [u8; 4]),
}

/// A `BoxHeader` with the type as a sequence.
pub ghost enum BoxHeaderView {
    EndOfFile,
    LargeSize(Seq<u8>),
    Sized(u64, Seq<u8>),
}

impl View for BoxHeader {
    type V = BoxHeaderView;

    open spec fn view(&self) -> BoxHeaderView {
        match self {
            BoxHeader::EndOfFile => BoxHeaderView::EndOfFile,
            BoxHeader::LargeSize(boxtype) => BoxHeaderView::LargeSize(boxtype@),
            BoxHeader::Sized(size, boxtype) => BoxHeaderView::Sized(*size, boxtype@),
        }
    }
}

/// The error for a box that the file ends in the middle of.
pub open spec fn truncated_box() -> Error {
    Error::Io(IoError::UnexpectedEof("truncated box"))
}

/// The error for a box size that does not even cover the header.
pub open spec fn invalid_box_size() -> Error {
    Error::InvalidFormat("Invalid box size")
}

/// What `head` tells, the first bytes of a box, eight if there are that many: a
/// size and a type. A size of 0 means that the box extends to the end of the
/// file; the size of the body is then given as `u64::MAX`.
pub open spec fn box_header(head: Seq<u8>) -> Result<BoxHeaderView, Error> {
    let size = uint_at(head, 0, 4);
    let boxtype = head.subrange(4, 8);
    if head.len() == 0 {
        Ok(BoxHeaderView::EndOfFile)
    } else if head.len() < 8 {
        Err(truncated_box())
    } else if size == 0 {
        Ok(BoxHeaderView::Sized(u64::MAX, boxtype))
    } else if size == 1 {
        Ok(BoxHeaderView::LargeSize(boxtype))
    } else if size < 8 {
        Err(invalid_box_size())
    } else {
        Ok(BoxHeaderView::Sized((size - 8) as u64, boxtype))
    }
}

/// The size of the body by `field`, the bytes of the large size.
pub open spec fn large_body_size(field: Seq<u8>) -> Result<u64, Error> {
    if field.len() < 8 {
        Err(Error::Io(IoError::UnexpectedEof("failed to fill whole buffer")))
    } else if uint_at(field, 0, 8) < 16 {
        Err(invalid_box_size())
    } else {
        Ok((uint_at(field, 0, 8) - 16) as u64)
    }
}

/// Decodes the first bytes of a box.
pub fn decode_box_header(head: &[u8]) -> (header: Result<BoxHeader, Error>)
    ensures
        match header {
            Ok(header) => box_header(head@) == Ok::<_, Error>(header@),
            Err(e) => box_header(head@) == Err::<BoxHeaderView, _>(e),
        },
{
    if head.len() == 0 {
        return Ok(BoxHeader::EndOfFile);
    }
    if head.len() < 8 {
        return Err(Error::Io(IoError::UnexpectedEof("truncated box")));
    }
    let boxtype = [head[4], head[5], head[6], head[7]];
    assert(boxtype@ =~= head@.subrange(4, 8));
    match BigEndian::loadu32(head, 0) {
        0 => Ok(BoxHeader::Sized(u64::MAX, boxtype)),
        1 => Ok(BoxHeader::LargeSize(boxtype)),
        size => {
            let body = u64::from(size).checked_sub(8).ok_or(Error::from("Invalid box size"))?;
            Ok(BoxHeader::Sized(body, boxtype))
        },
    }
}

/// Decodes the large size of a box.
pub fn decode_large_size(field: &[u8]) -> (size: Result<u64, Error>)
    ensures
        size == large_body_size(field@),
{
    if field.len() < 8 {
        return Err(Error::Io(IoError::UnexpectedEof("failed to fill whole buffer")));
    }
    BigEndian::loadu64(field, 0).checked_sub(16).ok_or(Error::from("Invalid box size"))
}

/// The size of the body and the type of the box at `pos` in `data`, or `None` at
/// the end, and the position behind what was read for that.
pub open spec fn file_box_header(data: Seq<u8>, pos: nat) -> (
    Result<Option<(u64, Seq<u8>)>, Error>,
    nat,
) {
    let head = window(data, pos, 8);
    match box_header(head) {
        Err(e) => (Err(e), pos + head.len()),
        Ok(BoxHeaderView::EndOfFile) => (Ok(None), pos),
        Ok(BoxHeaderView::LargeSize(boxtype)) => {
            let field = window(data, pos + 8, 8);
            match large_body_size(field) {
                Err(e) => (Err(e), pos + 8 + field.len()),
                Ok(size) => (Ok(Some((size, boxtype))), pos + 16),
            }
        },
        Ok(BoxHeaderView::Sized(size, boxtype)) => (Ok(Some((size, boxtype))), pos + 8),
    }
}

impl<'a> Cursor<'a> {
    /// Reads the header of a box, and returns the size of the body and the type,
    /// or `None` if no byte is left.
    pub fn read_box_header(&mut self) -> (header: Result<Option<(u64, [u8; 4])>, Error>)
        ensures
            final(self).bytes() == old(self).bytes(),
            final(self).at() == file_box_header(old(self).bytes(), old(self).at()).1,
            match header {
                Ok(Some((size, boxtype))) => file_box_header(old(self).bytes(), old(self).at()).0
                    == Ok::<_, Error>(Some((size, boxtype@))),
                Ok(None) => file_box_header(old(self).bytes(), old(self).at()).0 == Ok::<
                    Option<(u64, Seq<u8>)>,
                    Error,
                >(None),
                Err(e) => file_box_header(old(self).bytes(), old(self).at()).0 == Err::<
                    Option<(u64, Seq<u8>)>,
                    _,
                >(e),
            },
    {
        let head = self.read(8);
        match decode_box_header(&head)? {
            BoxHeader::EndOfFile => Ok(None),
            BoxHeader::LargeSize(boxtype) => {
                let field = self.read(8);
                let size = decode_large_size(&field)?;
                Ok(Some((size, boxtype)))
            },
            BoxHeader::Sized(size, boxtype) => Ok(Some((size, boxtype))),
        }
    }
}

} // verus!
