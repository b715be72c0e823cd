//! The three ways to frame a box in bytes, and that boxes are read out of these alone.

use vstd::prelude::*;

use crate::endian::be_bytes;
use crate::endian::law_read_written_uint;
use crate::endian::law_write_read_uint;
use crate::endian::lemma_be_bytes_len;
use crate::endian::uint_at;
use crate::error::Error;
use crate::layout::box_bytes;
use crate::layout::large_box_bytes;
use crate::layout::law_read_box;
use crate::layout::law_read_large_box;
use crate::layout::law_read_open_box;
use crate::layout::lemma_values;
use crate::layout::open_box_bytes;
use crate::splitter::ChildBox;
use crate::splitter::child_box;

verus! {

/// How the size of a box is given.
pub ghost enum Framing {
    /// In four bytes.
    Small,
    /// In eight bytes.
    Large,
    /// Not at all: the box extends to the end of what holds it.
    Open,
}

/// A box, before it is laid out in bytes.
pub ghost struct LaidBox {
    pub framing: Framing,
    pub boxtype: Seq<u8>,
    pub body: Seq<u8>,
}

impl LaidBox {
    /// The bytes of the box.
    pub open spec fn bytes(self) -> Seq<u8> {
        match self.framing {
            Framing::Small => box_bytes(self.boxtype, self.body),
            Framing::Large => large_box_bytes(self.boxtype, self.body),
            Framing::Open => open_box_bytes(self.boxtype, self.body),
        }
    }

    /// Whether the size can be given that way if as many bytes follow as `rest` has.
    pub open spec fn fits(self, rest: Seq<u8>) -> bool {
        self.boxtype.len() == 4 && match self.framing {
            Framing::Small => 8 + self.body.len() < 0x1_0000_0000,
            Framing::Large => 16 + self.body.len() <= usize::MAX,
            Framing::Open => rest.len() == 0,
        }
    }
}

/// Boxes one after the other.
pub open spec fn boxes_bytes(boxes: Seq<LaidBox>) -> Seq<u8>
    decreases boxes.len(),
{
    if boxes.len() == 0 {
        Seq::empty()
    } else {
        boxes[0].bytes() + boxes_bytes(boxes.skip(1))
    }
}

/// Whether boxes can be laid out one after the other in front of `rest`: only the
/// last one may extend to the end, and only if nothing follows.
pub open spec fn boxes_fit(boxes: Seq<LaidBox>, rest: Seq<u8>) -> bool {
    forall|i: int|
        0 <= i < boxes.len() ==> (#[trigger] boxes[i]).fits(rest) && (boxes[i].framing is Open
            ==> i == boxes.len() - 1)
}

/// A box is read back, however its size is given.
pub proof fn law_read_framed(laid: LaidBox, rest: Seq<u8>)
    requires
        laid.fits(rest),
    ensures
        child_box(laid.bytes() + rest) == Ok::<_, Error>(
            (ChildBox { boxtype: laid.boxtype, body: laid.body, rest }),
        ),
        laid.bytes().len() >= 8,
{
    lemma_be_bytes_len(8 + laid.body.len(), 4);
    lemma_be_bytes_len(16 + laid.body.len(), 8);
    lemma_be_bytes_len(1, 4);
    lemma_be_bytes_len(0, 4);
    match laid.framing {
        Framing::Small => law_read_box(laid.boxtype, laid.body, rest),
        Framing::Large => law_read_large_box(laid.boxtype, laid.body, rest),
        Framing::Open => {
            law_read_open_box(laid.boxtype, laid.body);
            assert(laid.bytes() + rest =~= laid.bytes());
            assert(rest =~= Seq::empty());
        },
    }
}

/// Whatever is read as a box is one that was framed in one of the three ways.
pub proof fn law_box_is_framed(s: Seq<u8>)
    ensures
        child_box(s) matches Ok(child) ==> exists|laid: LaidBox| #[trigger]
            laid.fits(child.rest) && laid.boxtype == child.boxtype && laid.body == child.body && s
                == laid.bytes() + child.rest,
{
    if let Ok(child) = child_box(s) {
        let size = uint_at(s, 0, 4);
        let framing = if size == 0 {
            Framing::Open
        } else if size == 1 {
            Framing::Large
        } else {
            Framing::Small
        };
        let laid = LaidBox { framing, boxtype: child.boxtype, body: child.body };
        lemma_values();
        law_write_read_uint(s.subrange(0, 4));
        if size == 0 {
            assert(s =~= s.subrange(0, 4) + child.boxtype + child.body + child.rest);
        } else if size == 1 {
            law_write_read_uint(s.subrange(8, 16));
            assert(s =~= s.subrange(0, 4) + child.boxtype + s.subrange(8, 16) + child.body
                + child.rest);
        } else {
            assert(s =~= s.subrange(0, 4) + child.boxtype + child.body + child.rest);
        }
        assert(laid.fits(child.rest) && s == laid.bytes() + child.rest);
    }
}

/// Of a box with a four-byte size, one that does not cover the eight bytes of the
/// header is invalid, and one that promises more than is there is too large.
pub proof fn law_box_size_errors(size: u32, boxtype: Seq<u8>, rest: Seq<u8>)
    requires
        boxtype.len() == 4,
    ensures
        2 <= size < 8 ==> child_box(be_bytes(size as nat, 4) + boxtype + rest) == Err::<
            ChildBox,
            _,
        >(Error::InvalidFormat("Invalid box size")),
        8 + rest.len() < size ==> child_box(be_bytes(size as nat, 4) + boxtype + rest) == Err::<
            ChildBox,
            _,
        >(Error::InvalidFormat("Box too small")),
        rest.len() < 8 ==> child_box(be_bytes(1, 4) + boxtype + rest) == Err::<ChildBox, _>(
            Error::InvalidFormat("Box too small"),
        ),
{
    lemma_values();
    let s = be_bytes(size as nat, 4) + boxtype + rest;
    law_read_written_uint(size as nat, 4);
    assert(s.subrange(0, 4) =~= be_bytes(size as nat, 4));
    let t = be_bytes(1, 4) + boxtype + rest;
    law_read_written_uint(1, 4);
    assert(t.subrange(0, 4) =~= be_bytes(1, 4));
}

/// The same of a box with an eight-byte size, whose header has sixteen bytes. A
/// size that memory cannot hold is an error of its own.
pub proof fn law_large_box_size_errors(size: u64, boxtype: Seq<u8>, rest: Seq<u8>)
    requires
        boxtype.len() == 4,
    ensures
        ({
            let s = be_bytes(1, 4) + boxtype + be_bytes(size as nat, 8) + rest;
            &&& size < 16 ==> child_box(s) == Err::<ChildBox, _>(
                Error::InvalidFormat("Invalid box size"),
            )
            &&& 16 + rest.len() < size <= usize::MAX ==> child_box(s) == Err::<ChildBox, _>(
                Error::InvalidFormat("Box too small"),
            )
            &&& size > usize::MAX ==> child_box(s) == Err::<ChildBox, _>(
                Error::InvalidFormat("Box is larger than the address space"),
            )
        }),
{
    lemma_values();
    let s = be_bytes(1, 4) + boxtype + be_bytes(size as nat, 8) + rest;
    law_read_written_uint(1, 4);
    law_read_written_uint(size as nat, 8);
    assert(s.subrange(0, 4) =~= be_bytes(1, 4));
    assert(s.subrange(8, 16) =~= be_bytes(size as nat, 8));
}

/// Where there is no room for a size and a type, there is no box.
pub proof fn law_no_room_for_box(s: Seq<u8>)
    requires
        s.len() < 8,
    ensures
        child_box(s) == Err::<ChildBox, _>(Error::InvalidFormat("Box too small")),
{
}

/// The box at the front of several is read back, and leaves the others.
pub proof fn lemma_first_box(boxes: Seq<LaidBox>, rest: Seq<u8>)
    requires
        boxes.len() > 0,
        boxes_fit(boxes, rest),
    ensures
        boxes_fit(boxes.skip(1), rest),
        child_box(boxes_bytes(boxes) + rest) == Ok::<_, Error>(
            (ChildBox {
                boxtype: boxes[0].boxtype,
                body: boxes[0].body,
                rest: boxes_bytes(boxes.skip(1)) + rest,
            }),
        ),
        boxes_bytes(boxes).len() >= 8,
{
    let others = boxes.skip(1);
    let after = boxes_bytes(others) + rest;
    assert forall|i: int| 0 <= i < others.len() implies (#[trigger] others[i]).fits(rest) && (
    others[i].framing is Open ==> i == others.len() - 1) by {
        assert(others[i] == boxes[i + 1]);
    }
    lemma_front_fits(boxes, rest);
    law_read_framed(boxes[0], after);
    assert(boxes_bytes(boxes) + rest =~= boxes[0].bytes() + after);
}

/// What can be laid out at once can be laid out in two parts.
pub proof fn lemma_split(front: Seq<LaidBox>, behind: Seq<LaidBox>, rest: Seq<u8>)
    requires
        boxes_fit(front + behind, rest),
    ensures
        boxes_bytes(front + behind) == boxes_bytes(front) + boxes_bytes(behind),
        boxes_fit(front, boxes_bytes(behind) + rest),
        boxes_fit(behind, rest),
{
    lemma_concat(front, behind);
    let all = front + behind;
    assert forall|i: int| 0 <= i < behind.len() implies (#[trigger] behind[i]).fits(rest) && (
    behind[i].framing is Open ==> i == behind.len() - 1) by {
        assert(behind[i] == all[front.len() + i]);
    }
    let after = boxes_bytes(behind) + rest;
    assert forall|i: int| 0 <= i < front.len() implies (#[trigger] front[i]).fits(after) && (
    front[i].framing is Open ==> i == front.len() - 1) by {
        assert(front[i] == all[i]);
        if front[i].framing is Open {
            assert(behind.len() == 0);
            assert(after =~= rest);
        }
    }
}

/// Boxes one after the other are those at the front and those behind.
pub proof fn lemma_concat(front: Seq<LaidBox>, behind: Seq<LaidBox>)
    ensures
        boxes_bytes(front + behind) == boxes_bytes(front) + boxes_bytes(behind),
    decreases front.len(),
{
    let all = front + behind;
    if front.len() == 0 {
        assert(all =~= behind);
        assert(boxes_bytes(front) + boxes_bytes(behind) =~= boxes_bytes(behind));
    } else {
        assert(all.skip(1) =~= front.skip(1) + behind);
        assert(all[0] == front[0]);
        lemma_concat(front.skip(1), behind);
        assert(boxes_bytes(all) =~= boxes_bytes(front) + boxes_bytes(behind));
    }
}

/// The first of several boxes can be laid out in front of the others.
pub proof fn lemma_front_fits(boxes: Seq<LaidBox>, rest: Seq<u8>)
    requires
        boxes.len() > 0,
        boxes_fit(boxes, rest),
    ensures
        boxes[0].fits(boxes_bytes(boxes.skip(1)) + rest),
{
    assert(boxes[0].fits(rest));
    if boxes[0].framing is Open {
        assert(boxes.skip(1).len() == 0);
    }
}

} // verus!
