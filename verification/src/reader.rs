//! What a parser asks of a reader, what a reader answers, and a reader of bytes in memory.

use vstd::prelude::*;
use vstd::slice::slice_subrange;
use vstd::slice::slice_to_vec;

use crate::error::IoError;

verus! {

/// What a parser asks of the reader.
#[derive(Debug, Clone, Copy, PartialEq, Eq)]
pub enum Request {
    /// Read this many bytes, or as many as there are up to the end.
    Read(u64),
    /// Read up to the end.
    ReadToEnd,
    /// Move to this position.
    SeekStart(u64),
    /// Move by this many bytes.
    SeekCurrent(i64),
    /// Move to the end.
    SeekEnd,
}

/// What the reader answers.
#[derive(Debug)]
pub enum Reply {
    /// The bytes that were read.
    Data(Vec<u8>),
    /// The reader has moved.
    Sought,
    /// The reader could not do it.
    Failed(IoError),
}

/// A `Reply` with its bytes as a sequence.
pub ghost enum ReplyView {
    Data(Seq<u8>),
    Sought,
    Failed(IoError),
}

impl View for Reply {
    type V = ReplyView;

    open spec fn view(&self) -> ReplyView {
        match self {
            Reply::Data(bytes) => ReplyView::Data(bytes@),
            Reply::Sought => ReplyView::Sought,
            Reply::Failed(e) => ReplyView::Failed(*e),
        }
    }
}

/// The bytes of `data` from `pos` on: none if `pos` is past the end.
pub open spec fn bytes_from(data: Seq<u8>, pos: nat) -> Seq<u8> {
    if pos <= data.len() {
        data.skip(pos as int)
    } else {
        Seq::empty()
    }
}

/// The `n` bytes of `data` from `pos` on, or as many as there are.
pub open spec fn window(data: Seq<u8>, pos: nat, n: nat) -> Seq<u8> {
    let rest = bytes_from(data, pos);
    if rest.len() <= n {
        rest
    } else {
        rest.take(n as int)
    }
}

/// The failure of a seek to before the start or past the largest position.
pub open spec fn invalid_seek() -> IoError {
    IoError::Other("invalid seek to a negative or overflowing position")
}

/// How a reader of `data` at `pos` answers, and where that leaves it.
pub open spec fn answer(data: Seq<u8>, pos: nat, request: Request) -> (ReplyView, nat) {
    match request {
        Request::Read(n) => {
            let bytes = window(data, pos, n as nat);
            (ReplyView::Data(bytes), pos + bytes.len())
        },
        Request::ReadToEnd => {
            let bytes = bytes_from(data, pos);
            (ReplyView::Data(bytes), pos + bytes.len())
        },
        Request::SeekStart(to) => (ReplyView::Sought, to as nat),
        Request::SeekCurrent(by) => if 0 <= pos + by <= u64::MAX {
            (ReplyView::Sought, (pos + by) as nat)
        } else {
            (ReplyView::Failed(invalid_seek()), pos)
        },
        Request::SeekEnd => (ReplyView::Sought, data.len()),
    }
}

/// A reader of bytes in memory. It may be moved past their end.
#[derive(Debug)]
pub struct Cursor<'a> {
    inner: &'a [u8],
    pos: u64,
}

impl<'a> Cursor<'a> {
    /// The bytes.
    pub closed spec fn bytes(&self) -> Seq<u8> {
        self.inner@
    }

    /// The position.
    pub closed spec fn at(&self) -> nat {
        self.pos as nat
    }

    /// There are no more bytes than a position can count.
    pub proof fn lemma_len(&self)
        ensures
            self.bytes().len() <= u64::MAX,
    {
        assert(self.inner.len() <= u64::MAX);
    }

    /// A reader at the start of `inner`.
    pub fn new(inner: &'a [u8]) -> (cursor: Cursor<'a>)
        ensures
            cursor.bytes() == inner@,
            cursor.at() == 0,
    {
        Cursor { inner, pos: 0 }
    }

    /// The position.
    pub fn position(&self) -> (pos: u64)
        ensures
            pos == self.at(),
    {
        self.pos
    }

    /// Reads up to `n` bytes.
    pub fn read(&mut self, n: u64) -> (bytes: Vec<u8>)
        ensures
            final(self).bytes() == old(self).bytes(),
            bytes@ == window(old(self).bytes(), old(self).at(), n as nat),
            final(self).at() == old(self).at() + bytes@.len(),
    {
        let len = self.inner.len();
        if self.pos >= len as u64 {
            return Vec::new();
        }
        let start = self.pos as usize;
        let end = if n < (len - start) as u64 {
            start + n as usize
        } else {
            len
        };
        let bytes = slice_subrange(self.inner, start, end);
        self.pos = end as u64;
        assert(bytes@ =~= window(old(self).bytes(), old(self).at(), n as nat));
        slice_to_vec(bytes)
    }

    /// Does what `request` asks for.
    pub fn answer(&mut self, request: Request) -> (reply: Reply)
        ensures
            final(self).bytes() == old(self).bytes(),
            (reply@, final(self).at()) == answer(old(self).bytes(), old(self).at(), request),
    {
        match request {
            Request::Read(n) => Reply::Data(self.read(n)),
            Request::ReadToEnd => {
                assert(self.inner.len() <= u64::MAX);
                Reply::Data(self.read(u64::MAX))
            },
            Request::SeekStart(to) => {
                self.pos = to;
                Reply::Sought
            },
            Request::SeekCurrent(by) => match self.pos.checked_add_signed(by) {
                Some(to) => {
                    self.pos = to;
                    Reply::Sought
                },
                None => Reply::Failed(
                    IoError::Other("invalid seek to a negative or overflowing position"),
                ),
            },
            Request::SeekEnd => {
                self.pos = self.inner.len() as u64;
                Reply::Sought
            },
        }
    }
}

} // verus!
