//! Cutting a box body into its fields and child boxes.

use vstd::prelude::*;

use crate::cut::group_cut;
use crate::endian::BigEndian;
use crate::endian::lemma_uint_1_3;
use crate::endian::uint_at;
use crate::error::Error;

verus! {

broadcast use group_cut;

/// The error for a box that ends before a field in it does.
pub open spec fn box_too_small() -> Error {
    Error::InvalidFormat("Box too small")
}

/// A box found at the front of a byte sequence.
pub ghost struct ChildBox {
    /// The four-character type.
    pub boxtype: Seq<u8>,
    /// The bytes after the header, up to the end of the box.
    pub body: Seq<u8>,
    /// The bytes after the box.
    pub rest: Seq<u8>,
}

/// The number of bytes at the front of `s` that make up the size and type
/// fields of a box, as far as `s` holds whole fields.
pub open spec fn header_len(s: Seq<u8>) -> int {
    if s.len() < 4 {
        0
    } else if s.len() < 8 {
        4
    } else if uint_at(s, 0, 4) == 1 && s.len() >= 16 {
        16
    } else {
        8
    }
}

/// The box at the front of `s`. A size of 0 means that it extends to the end,
/// and a size of 1 that an eight-byte size follows the type.
pub open spec fn child_box(s: Seq<u8>) -> Result<ChildBox, Error> {
    let size = uint_at(s, 0, 4);
    let header: int = if size == 1 { 16 } else { 8 };
    if s.len() < 8 || s.len() < header {
        Err(box_too_small())
    } else if size == 1 && uint_at(s, 8, 8) > usize::MAX {
        Err(Error::InvalidFormat("Box is larger than the address space"))
    } else {
        let end: int = if size == 0 {
            s.len() as int
        } else if size == 1 {
            uint_at(s, 8, 8) as int
        } else {
            size as int
        };
        if end < header {
            Err(Error::InvalidFormat("Invalid box size"))
        } else if end > s.len() {
            Err(box_too_small())
        } else {
            Ok(
                ChildBox {
                    boxtype: s.subrange(4, 8),
                    body: s.subrange(header, end),
                    rest: s.skip(end),
                },
            )
        }
    }
}

/// The unread rest of a box body.
pub struct BoxSplitter<'a> {
    inner: &'a [u8],
}

impl<'a> View for BoxSplitter<'a> {
    type V = Seq<u8>;

    closed spec fn view(&self) -> Seq<u8> {
        self.inner@
    }
}

impl<'a> BoxSplitter<'a> {
    /// A splitter that has read nothing of `slice` yet.
    pub fn new(slice: &'a [u8]) -> (boxp: BoxSplitter<'a>)
        ensures
            boxp@ == slice@,
    {
        Self { inner: slice }
    }

    /// Whether nothing is left.
    pub fn is_empty(&self) -> (empty: bool)
        ensures
            empty == (self@.len() == 0),
    {
        self.inner.len() == 0
    }

    /// The number of bytes left.
    pub fn len(&self) -> (len: usize)
        ensures
            len == self@.len(),
    {
        self.inner.len()
    }

    /// Takes the child box at the front and returns its type and body. After an
    /// error the header fields that were there are taken all the same.
    pub fn child_box(&mut self) -> (child: Result<(&'a [u8], BoxSplitter<'a>), Error>)
        ensures
            match child {
                Ok((boxtype, body)) => child_box(old(self)@) == Ok::<_, Error>(
                    (ChildBox { boxtype: boxtype@, body: body@, rest: final(self)@ }),
                ),
                Err(e) => child_box(old(self)@) == Err::<ChildBox, _>(e) && final(self)@ == old(
                    self,
                )@.skip(header_len(old(self)@)),
            },
    {
        let size = self.uint32()?;
        let boxtype = self.slice(4)?;
        let body_len = match size {
            0 => self.len(),
            1 => {
                let largesize = match usize::try_from(self.uint64()?) {
                    Ok(largesize) => largesize,
                    Err(_) => return Err(Error::from("Box is larger than the address space")),
                };
                largesize.checked_sub(16).ok_or(Error::from("Invalid box size"))?
            },
            _ => (size as usize).checked_sub(8).ok_or(Error::from("Invalid box size"))?,
        };
        let body = self.slice(body_len)?;
        Ok((boxtype, BoxSplitter::new(body)))
    }

    /// Takes a 0-, 4-, or 8-byte unsigned integer, or nothing if `size` is none of these.
    pub fn size048(&mut self, size: usize) -> (value: Result<Option<u64>, Error>)
        ensures
            match value {
                Ok(Some(v)) => (size == 0 || size == 4 || size == 8) && size <= old(self)@.len()
                    && v == uint_at(old(self)@, 0, size as int) && final(self)@ == old(self)@.skip(
                    size as int,
                ),
                Ok(None) => size != 0 && size != 4 && size != 8 && final(self)@ == old(self)@,
                Err(e) => (size == 4 || size == 8) && size > old(self)@.len() && e
                    == box_too_small() && final(self)@ == old(self)@,
            },
    {
        match size {
            0 => {
                assert(self@.subrange(0, 0) =~= Seq::<u8>::empty());
                Ok(Some(0))
            },
            4 => Ok(Some(u64::from(self.uint32()?))),
            8 => Ok(Some(self.uint64()?)),
            _ => Ok(None),
        }
    }

    /// Takes the version and the flags of a full box.
    pub fn fullbox_header(&mut self) -> (header: Result<(u32, u32), Error>)
        ensures
            match header {
                Ok((version, flags)) => 4 <= old(self)@.len() && version == uint_at(
                    old(self)@,
                    0,
                    1,
                ) && flags == uint_at(old(self)@, 1, 3) && final(self)@ == old(self)@.skip(4),
                Err(e) => 4 > old(self)@.len() && e == box_too_small() && final(self)@ == old(
                    self,
                )@,
            },
    {
        let ghost s = self@;
        let tmp = self.uint32()?;
        proof {
            lemma_uint_1_3(s, 0);
            assert(tmp >> 24 == tmp / 0x100_0000) by (bit_vector);
            assert(tmp & 0xffffff == tmp % 0x100_0000) by (bit_vector);
        }
        Ok((tmp >> 24, tmp & 0xffffff))
    }

    /// Takes a two-byte integer.
    pub fn uint16(&mut self) -> (value: Result<u16, Error>)
        ensures
            match value {
                Ok(v) => 2 <= old(self)@.len() && v == uint_at(old(self)@, 0, 2) && final(self)@
                    == old(self)@.skip(2),
                Err(e) => 2 > old(self)@.len() && e == box_too_small() && final(self)@ == old(
                    self,
                )@,
            },
    {
        let ghost s = self@;
        let num = self.slice(2)?;
        assert(num@.subrange(0, 2) =~= s.subrange(0, 2));
        Ok(BigEndian::loadu16(num, 0))
    }

    /// Takes a four-byte integer.
    pub fn uint32(&mut self) -> (value: Result<u32, Error>)
        ensures
            match value {
                Ok(v) => 4 <= old(self)@.len() && v == uint_at(old(self)@, 0, 4) && final(self)@
                    == old(self)@.skip(4),
                Err(e) => 4 > old(self)@.len() && e == box_too_small() && final(self)@ == old(
                    self,
                )@,
            },
    {
        let ghost s = self@;
        let num = self.slice(4)?;
        assert(num@.subrange(0, 4) =~= s.subrange(0, 4));
        Ok(BigEndian::loadu32(num, 0))
    }

    /// Takes an eight-byte integer.
    pub fn uint64(&mut self) -> (value: Result<u64, Error>)
        ensures
            match value {
                Ok(v) => 8 <= old(self)@.len() && v == uint_at(old(self)@, 0, 8) && final(self)@
                    == old(self)@.skip(8),
                Err(e) => 8 > old(self)@.len() && e == box_too_small() && final(self)@ == old(
                    self,
                )@,
            },
    {
        let ghost s = self@;
        let num = self.slice(8)?;
        assert(num@.subrange(0, 8) =~= s.subrange(0, 8));
        Ok(BigEndian::loadu64(num, 0))
    }

    /// Takes the next `at` bytes, or nothing if fewer are left.
    pub fn slice(&mut self, at: usize) -> (taken: Result<&'a [u8], Error>)
        ensures
            match taken {
                Ok(slice) => at <= old(self)@.len() && slice@ == old(self)@.take(at as int)
                    && final(self)@ == old(self)@.skip(at as int),
                Err(e) => at > old(self)@.len() && e == box_too_small() && final(self)@ == old(
                    self,
                )@,
            },
    {
        if at > self.inner.len() {
            return Err(Error::from("Box too small"));
        }
        let (slice, rest) = self.inner.split_at(at);
        self.inner = rest;
        Ok(slice)
    }
}

} // verus!
