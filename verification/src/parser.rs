//! The parser of a whole file, as a machine that leaves the reading to its caller.

use vstd::prelude::*;

use crate::error::Error;
use crate::error::IoError;
use crate::fourcc::fourcc;
use crate::fourcc::is_fourcc;
use crate::ftyp::ftyp_check;
use crate::ftyp::parse_ftyp;
use crate::header::BoxHeader;
use crate::header::BoxHeaderView;
use crate::header::box_header;
use crate::header::decode_box_header;
use crate::header::decode_large_size;
use crate::header::large_body_size;
use crate::header::truncated_box;
use crate::item::Location;
use crate::meta::ExifItem;
use crate::meta::idat_extents;
use crate::meta::locate_exif;
use crate::meta::meta_exif_item;
use crate::meta::read_idat;
use crate::reader::Reply;
use crate::reader::ReplyView;
use crate::reader::Request;
use crate::splitter::BoxSplitter;

verus! {

/// The pieces of an item that lies in the file itself, while they are gathered.
#[derive(Debug)]
struct Gather {
    base_offset: u64,
    extents: Vec<(u64, u64, u64)>,
    // The number of extents that have been dealt with.
    done: usize,
    // The bytes of the extents that have been read.
    buf: Vec<u8>,
}

impl Gather {
    #[verifier::type_invariant]
    spec fn inv(self) -> bool {
        self.done <= self.extents@.len()
    }

    spec fn pieces(self) -> Pieces {
        Pieces {
            base_offset: self.base_offset,
            extents: self.extents@.skip(self.done as int),
            buf: self.buf@,
        }
    }
}

/// The reply that the parser waits for.
#[derive(Debug)]
enum State {
    /// To read the header of a box.
    Header,
    /// To read the large size of a box of this type.
    LargeSize([u8; 4]),
    /// To read the body of a file type box of this size.
    Ftyp(u64),
    /// To read the body of a metadata box of this size.
    Meta(u64),
    /// To skip the body of a box of this size.
    SkipAhead(i64),
    /// To skip the body of a box that extends to the end of the file.
    SkipToEnd,
    /// To seek to an extent at this offset, of this length.
    SeekExtent(u64, u64, Gather),
    /// To read an extent at this offset, of this length.
    ReadExtent(u64, u64, Gather),
    /// To seek to the byte before an extent at this offset, which had no bytes.
    SeekBefore(u64, Gather),
    /// To read the byte before an extent at this offset, which had no bytes.
    ReadBefore(u64, Gather),
    /// To seek to an extent at this offset, which is beyond the end of the file.
    SeekBeyond(u64),
}

/// A parser of a HEIF file, between two requests to its reader.
#[derive(Debug)]
pub struct Parser {
    // Whether the file type box has been checked.
    ftyp_checked: bool,
    state: State,
}

/// What a parser does on a reply.
#[derive(Debug)]
pub enum Step {
    /// It has another request.
    Continue(Parser),
    /// It is done: the data of the Exif item, or why there is none.
    Done(Result<Vec<u8>, Error>),
}

/// The extents of an item that are still to be read, and the bytes of the others.
pub ghost struct Pieces {
    pub base_offset: u64,
    pub extents: Seq<(u64, u64, u64)>,
    pub buf: Seq<u8>,
}

/// What a parser waits for.
pub ghost enum StateView {
    Header,
    LargeSize(Seq<u8>),
    Ftyp(u64),
    Meta(u64),
    SkipAhead(i64),
    SkipToEnd,
    SeekExtent(u64, u64, Pieces),
    ReadExtent(u64, u64, Pieces),
    SeekBefore(u64, Pieces),
    ReadBefore(u64, Pieces),
    SeekBeyond(u64),
}

/// A `Parser` with its buffers as sequences.
pub ghost struct ParserView {
    pub ftyp_checked: bool,
    pub state: StateView,
}

/// A `Step` with its buffers as sequences.
pub ghost enum StepView {
    Continue(ParserView),
    Done(Result<Seq<u8>, Error>),
}

impl View for Parser {
    type V = ParserView;

    closed spec fn view(&self) -> ParserView {
        ParserView {
            ftyp_checked: self.ftyp_checked,
            state: match self.state {
                State::Header => StateView::Header,
                State::LargeSize(boxtype) => StateView::LargeSize(boxtype@),
                State::Ftyp(size) => StateView::Ftyp(size),
                State::Meta(size) => StateView::Meta(size),
                State::SkipAhead(by) => StateView::SkipAhead(by),
                State::SkipToEnd => StateView::SkipToEnd,
                State::SeekExtent(off, len, gather) => StateView::SeekExtent(
                    off,
                    len,
                    gather.pieces(),
                ),
                State::ReadExtent(off, len, gather) => StateView::ReadExtent(
                    off,
                    len,
                    gather.pieces(),
                ),
                State::SeekBefore(off, gather) => StateView::SeekBefore(off, gather.pieces()),
                State::ReadBefore(off, gather) => StateView::ReadBefore(off, gather.pieces()),
                State::SeekBeyond(off) => StateView::SeekBeyond(off),
            },
        }
    }
}

impl View for Step {
    type V = StepView;

    open spec fn view(&self) -> StepView {
        match self {
            Step::Continue(parser) => StepView::Continue(parser@),
            Step::Done(Ok(data)) => StepView::Done(Ok(data@)),
            Step::Done(Err(e)) => StepView::Done(Err(*e)),
        }
    }
}

/// The request for the body of a box of this size.
pub open spec fn body_request(size: u64) -> Request {
    if size == u64::MAX {
        Request::ReadToEnd
    } else {
        Request::Read(size)
    }
}

/// The position before `off`, or 0 if there is none.
pub open spec fn position_before(off: u64) -> u64 {
    if off == 0 {
        0
    } else {
        (off - 1) as u64
    }
}

impl ParserView {
    /// The request that the parser has.
    pub open spec fn request(self) -> Request {
        match self.state {
            StateView::Header | StateView::LargeSize(_) => Request::Read(8),
            StateView::Ftyp(size) | StateView::Meta(size) => body_request(size),
            StateView::SkipAhead(by) => Request::SeekCurrent(by),
            StateView::SkipToEnd => Request::SeekEnd,
            StateView::SeekExtent(off, _, _) => Request::SeekStart(off),
            StateView::ReadExtent(_, len, _) => if len == 0 {
                Request::ReadToEnd
            } else {
                Request::Read(len)
            },
            StateView::SeekBefore(off, _) => Request::SeekStart(position_before(off)),
            StateView::ReadBefore(_, _) => Request::Read(1),
            StateView::SeekBeyond(off) => Request::SeekStart(off),
        }
    }

    /// This parser in another state.
    pub open spec fn to(self, state: StateView) -> StepView {
        StepView::Continue(ParserView { state, ..self })
    }

    /// What to do with a box of this type whose body has this size: file type and
    /// metadata boxes are read, others skipped.
    pub open spec fn at_box(self, size: u64, boxtype: Seq<u8>) -> StepView {
        if boxtype == fourcc('f', 't', 'y', 'p') {
            self.to(StateView::Ftyp(size))
        } else if boxtype == fourcc('m', 'e', 't', 'a') {
            if self.ftyp_checked {
                self.to(StateView::Meta(size))
            } else {
                StepView::Done(Err(Error::InvalidFormat("Found MetaBox before FileTypeBox")))
            }
        } else if size == u64::MAX {
            self.to(StateView::SkipToEnd)
        } else if size > i64::MAX {
            StepView::Done(Err(Error::InvalidFormat("Large seek not supported")))
        } else {
            self.to(StateView::SkipAhead(size as i64))
        }
    }

    /// What to do with the item, once it is found.
    pub open spec fn at_item(self, item: ExifItem) -> StepView {
        if item.location.construction_method == 0 {
            self.at_extent(
                Pieces {
                    base_offset: item.location.base_offset,
                    extents: item.location.extents,
                    buf: Seq::empty(),
                },
            )
        } else if item.location.construction_method == 1 {
            match item.idat {
                Some(idat) => StepView::Done(
                    idat_extents(idat, item.location.base_offset, item.location.extents),
                ),
                None => StepView::Done(Err(Error::InvalidFormat("No ItemDataBox"))),
            }
        } else if item.location.construction_method == 2 {
            StepView::Done(Err(Error::NotSupported("Construction by item offset is supported")))
        } else {
            StepView::Done(Err(Error::InvalidFormat("Invalid construction_method")))
        }
    }

    /// What to do next with an item in the file.
    pub open spec fn at_extent(self, pieces: Pieces) -> StepView {
        if pieces.extents.len() == 0 {
            StepView::Done(Ok(pieces.buf))
        } else if pieces.base_offset + pieces.extents[0].1 > u64::MAX {
            StepView::Done(Err(Error::InvalidFormat("Invalid offset")))
        } else {
            self.to(
                StateView::SeekExtent(
                    (pieces.base_offset + pieces.extents[0].1) as u64,
                    pieces.extents[0].2,
                    Pieces { extents: pieces.extents.skip(1), ..pieces },
                ),
            )
        }
    }

    /// What to do on `bytes`, the ones that were asked for or as many of them as
    /// there are.
    pub open spec fn on_data(self, bytes: Seq<u8>) -> StepView {
        match self.state {
            StateView::Header => match box_header(bytes) {
                Err(e) => StepView::Done(Err(e)),
                Ok(BoxHeaderView::EndOfFile) => StepView::Done(
                    Err(Error::NotFound("No Exif data found")),
                ),
                Ok(BoxHeaderView::LargeSize(boxtype)) => self.to(StateView::LargeSize(boxtype)),
                Ok(BoxHeaderView::Sized(size, boxtype)) => self.at_box(size, boxtype),
            },
            StateView::LargeSize(boxtype) => match large_body_size(bytes) {
                Err(e) => StepView::Done(Err(e)),
                Ok(size) => self.at_box(size, boxtype),
            },
            StateView::Ftyp(size) => if size != u64::MAX && bytes.len() != size {
                StepView::Done(Err(truncated_box()))
            } else {
                match ftyp_check(bytes) {
                    Err(e) => StepView::Done(Err(e)),
                    Ok(()) => StepView::Continue(
                        ParserView { ftyp_checked: true, state: StateView::Header },
                    ),
                }
            },
            StateView::Meta(size) => if size != u64::MAX && bytes.len() != size {
                StepView::Done(Err(truncated_box()))
            } else {
                match meta_exif_item(bytes) {
                    Err(e) => StepView::Done(Err(e)),
                    Ok(item) => self.at_item(item),
                }
            },
            StateView::ReadExtent(off, len, pieces) => if len != 0 && bytes.len() != len {
                StepView::Done(Err(Error::Io(IoError::UnexpectedEof("truncated extent"))))
            } else if bytes.len() == 0 && off != 0 {
                self.to(StateView::SeekBefore(off, pieces))
            } else {
                self.at_extent(Pieces { buf: pieces.buf + bytes, ..pieces })
            },
            StateView::ReadBefore(off, pieces) => if bytes.len() == 0 {
                self.to(StateView::SeekBeyond(off))
            } else {
                self.at_extent(pieces)
            },
            _ => StepView::Continue(self),
        }
    }

    /// What to do after a seek.
    pub open spec fn on_sought(self) -> StepView {
        match self.state {
            StateView::SkipAhead(_) | StateView::SkipToEnd => self.to(StateView::Header),
            StateView::SeekExtent(off, len, pieces) => self.to(
                StateView::ReadExtent(off, len, pieces),
            ),
            StateView::SeekBefore(off, pieces) => self.to(StateView::ReadBefore(off, pieces)),
            StateView::SeekBeyond(_) => StepView::Done(
                Err(Error::Io(IoError::UnexpectedEof("truncated extent"))),
            ),
            _ => StepView::Continue(self),
        }
    }

    /// What to do on `reply`. A failure of the reader is passed on. A reply that
    /// does not fit the request leaves it standing.
    pub open spec fn on_reply(self, reply: ReplyView) -> StepView {
        match reply {
            ReplyView::Data(bytes) => self.on_data(bytes),
            ReplyView::Sought => self.on_sought(),
            ReplyView::Failed(e) => StepView::Done(Err(Error::Io(e))),
        }
    }
}

impl Parser {
    /// A parser of a file that has not been looked into yet.
    pub fn new() -> (parser: Parser)
        ensures
            parser@ == (ParserView { ftyp_checked: false, state: StateView::Header }),
    {
        Parser { ftyp_checked: false, state: State::Header }
    }

    /// What the reader is to do next.
    pub fn request(&self) -> (request: Request)
        ensures
            request == self@.request(),
    {
        match &self.state {
            State::Header | State::LargeSize(_) => Request::Read(8),
            State::Ftyp(size) | State::Meta(size) => if *size == u64::MAX {
                Request::ReadToEnd
            } else {
                Request::Read(*size)
            },
            State::SkipAhead(by) => Request::SeekCurrent(*by),
            State::SkipToEnd => Request::SeekEnd,
            State::SeekExtent(off, _, _) => Request::SeekStart(*off),
            State::ReadExtent(_, len, _) => if *len == 0 {
                Request::ReadToEnd
            } else {
                Request::Read(*len)
            },
            State::SeekBefore(off, _) => Request::SeekStart(off.saturating_sub(1)),
            State::ReadBefore(_, _) => Request::Read(1),
            State::SeekBeyond(off) => Request::SeekStart(*off),
        }
    }

    /// Takes the reader's reply to the request.
    pub fn parse(self, reply: Reply) -> (step: Step)
        ensures
            step@ == self@.on_reply(reply@),
    {
        match reply {
            Reply::Data(buf) => match self.parse_data(buf) {
                Ok(step) => step,
                Err(e) => Step::Done(Err(e)),
            },
            Reply::Sought => self.parse_sought(),
            Reply::Failed(e) => Step::Done(Err(Error::Io(e))),
        }
    }

    /// Goes on with bytes that were read.
    fn parse_data(self, buf: Vec<u8>) -> (step: Result<Step, Error>)
        ensures
            match step {
                Ok(step) => self@.on_data(buf@) == step@,
                Err(e) => self@.on_data(buf@) == StepView::Done(Err(e)),
            },
    {
        let ftyp_checked = self.ftyp_checked;
        match self.state {
            State::Header => match decode_box_header(&buf)? {
                BoxHeader::EndOfFile => Err(Error::NotFound("No Exif data found")),
                BoxHeader::LargeSize(boxtype) => Ok(
                    Step::Continue(Parser { ftyp_checked, state: State::LargeSize(boxtype) }),
                ),
                BoxHeader::Sized(size, boxtype) => self.parse_box(size, &boxtype),
            },
            State::LargeSize(boxtype) => {
                let size = decode_large_size(&buf)?;
                self.parse_box(size, &boxtype)
            },
            State::Ftyp(size) => {
                Parser::check_file_level_box(size, &buf)?;
                parse_ftyp(BoxSplitter::new(&buf))?;
                Ok(Step::Continue(Parser { ftyp_checked: true, state: State::Header }))
            },
            State::Meta(size) => {
                Parser::check_file_level_box(size, &buf)?;
                self.parse_meta(&buf)
            },
            State::ReadExtent(off, len, gather) => {
                if len != 0 && buf.len() as u64 != len {
                    return Err(Error::Io(IoError::UnexpectedEof("truncated extent")));
                }
                // Seeking beyond the end may be allowed, but the read after it is to fail.
                // One up to the end finds nothing there and succeeds, as it does at the
                // end. The byte before tells the two apart.
                if buf.len() == 0 && off != 0 {
                    return Ok(
                        Step::Continue(
                            Parser { ftyp_checked, state: State::SeekBefore(off, gather) },
                        ),
                    );
                }
                proof {
                    use_type_invariant(&gather);
                }
                let Gather { base_offset, extents, done, buf: mut data } = gather;
                let mut buf = buf;
                data.append(&mut buf);
                let gather = Gather { base_offset, extents, done, buf: data };
                Parser::parse_extent(ftyp_checked, gather)
            },
            State::ReadBefore(off, gather) => {
                if buf.len() == 0 {
                    return Ok(
                        Step::Continue(Parser { ftyp_checked, state: State::SeekBeyond(off) }),
                    );
                }
                Parser::parse_extent(ftyp_checked, gather)
            },
            _ => Ok(Step::Continue(self)),
        }
    }

    /// Goes on after a seek.
    fn parse_sought(self) -> (step: Step)
        ensures
            step@ == self@.on_sought(),
    {
        let ftyp_checked = self.ftyp_checked;
        match self.state {
            State::SkipAhead(_) | State::SkipToEnd => Step::Continue(
                Parser { ftyp_checked, state: State::Header },
            ),
            State::SeekExtent(off, len, gather) => Step::Continue(
                Parser { ftyp_checked, state: State::ReadExtent(off, len, gather) },
            ),
            State::SeekBefore(off, gather) => Step::Continue(
                Parser { ftyp_checked, state: State::ReadBefore(off, gather) },
            ),
            State::SeekBeyond(_) => Step::Done(
                Err(Error::Io(IoError::UnexpectedEof("truncated extent"))),
            ),
            _ => Step::Continue(self),
        }
    }

    /// Goes on with a box at the top level, given the size of its body.
    fn parse_box(self, size: u64, boxtype: &[u8]) -> (step: Result<Step, Error>)
        ensures
            match step {
                Ok(step) => self@.at_box(size, boxtype@) == step@,
                Err(e) => self@.at_box(size, boxtype@) == StepView::Done(Err(e)),
            },
    {
        let ftyp_checked = self.ftyp_checked;
        let state = if is_fourcc(boxtype, 'f', 't', 'y', 'p') {
            State::Ftyp(size)
        } else if is_fourcc(boxtype, 'm', 'e', 't', 'a') {
            if !ftyp_checked {
                return Err(Error::from("Found MetaBox before FileTypeBox"));
            }
            State::Meta(size)
        } else if size == u64::MAX {
            State::SkipToEnd
        } else if size > i64::MAX as u64 {
            return Err(Error::from("Large seek not supported"));
        } else {
            State::SkipAhead(size as i64)
        };
        Ok(Step::Continue(Parser { ftyp_checked, state }))
    }

    /// Checks that the whole body of a box was there to be read.
    fn check_file_level_box(size: u64, buf: &[u8]) -> (checked: Result<(), Error>)
        ensures
            checked == if size != u64::MAX && buf@.len() != size {
                Err(truncated_box())
            } else {
                Ok(())
            },
    {
        if size != u64::MAX && buf.len() as u64 != size {
            return Err(Error::Io(IoError::UnexpectedEof("truncated box")));
        }
        Ok(())
    }

    /// Goes on with the body of the metadata box.
    fn parse_meta(self, buf: &[u8]) -> (step: Result<Step, Error>)
        ensures
            match step {
                Ok(step) => match meta_exif_item(buf@) {
                    Ok(item) => self@.at_item(item) == step@,
                    Err(_) => false,
                },
                Err(e) => match meta_exif_item(buf@) {
                    Ok(item) => self@.at_item(item) == StepView::Done(Err(e)),
                    Err(e0) => e == e0,
                },
            },
    {
        let (location, idat) = locate_exif(BoxSplitter::new(buf))?;
        match location.construction_method {
            0 => {
                let Location { base_offset, extents, .. } = location;
                assert(extents@.skip(0) =~= extents@);
                Parser::parse_extent(
                    self.ftyp_checked,
                    Gather { base_offset, extents, done: 0, buf: Vec::new() },
                )
            },
            1 => {
                let idat = idat.ok_or(Error::from("No ItemDataBox"))?;
                let data = read_idat(idat, &location)?;
                Ok(Step::Done(Ok(data)))
            },
            2 => Err(Error::NotSupported("Construction by item offset is supported")),
            _ => Err(Error::from("Invalid construction_method")),
        }
    }

    /// Goes on with the next extent of an item that lies in the file itself.
    fn parse_extent(ftyp_checked: bool, gather: Gather) -> (step: Result<Step, Error>)
        ensures
            match step {
                Ok(step) => (ParserView { ftyp_checked, state: StateView::Header }).at_extent(
                    gather.pieces(),
                ) == step@,
                Err(e) => (ParserView { ftyp_checked, state: StateView::Header }).at_extent(
                    gather.pieces(),
                ) == StepView::Done(Err(e)),
            },
    {
        proof {
            use_type_invariant(&gather);
        }
        let Gather { base_offset, extents, done, buf } = gather;
        if done == extents.len() {
            return Ok(Step::Done(Ok(buf)));
        }
        let (_, off, len) = extents[done];
        let off = base_offset.checked_add(off).ok_or(Error::from("Invalid offset"))?;
        assert(extents@.skip(done as int).skip(1) =~= extents@.skip(done + 1));
        let rest = Gather { base_offset, extents, done: done + 1, buf };
        Ok(Step::Continue(Parser { ftyp_checked, state: State::SeekExtent(off, len, rest) }))
    }
}

} // verus!
