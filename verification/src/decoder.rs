//! The decoder: a reader of plain bytes out of one gzip member, or out of
//! all the members of a stream.

use vstd::prelude::*;
use vstd::slice::slice_subrange;
use crate::crc::crc32;
use crate::crc::wrapped_len;
use crate::crc::Crc;
use crate::deflate::inflate_reset_result;
use crate::deflate::moved_on;
use crate::deflate::read_outcome;
use crate::deflate::DeflateDecoder;
use crate::error::corrupt;
use crate::error::GzError;
use crate::header::lemma_complete_len;
use crate::header::parse_header;
use crate::header::parse_reach;
use crate::header::u32_of_le;
use crate::header::GzHeader;
use crate::header::HeaderView;
use crate::header::Parsed;
use crate::parse::read_gz_header;
use crate::replay::Buffer;
use crate::source::Source;
use crate::source::SourceEnd;

verus! {

/// Where a decoder stands in a member.
#[derive(Debug)]
pub enum GzState {
    /// In the header. The bytes are those that earlier attempts to parse it
    /// have taken from the source.
    Header(Vec<u8>),
    /// In the compressed body.
    Body,
    /// Behind the body: so many bytes of the trailer are in, and these are
    /// they.
    Finished(usize, [u8; 8]),
    /// Failed before the first read; the error is still to be reported.
    Failed(GzError),
    /// Done, or failed: every read gives zero.
    End,
}

/// [`GzState`] as mathematics sees it.
pub ghost enum StateView {
    /// In the header, with these bytes kept.
    Header(Seq<u8>),
    /// In the body.
    Body,
    /// Behind the body, with so many bytes of this trailer in.
    Finished(nat, Seq<u8>),
    /// Failed before the first read, with this error.
    Failed(GzError),
    /// At the end.
    End,
}

impl View for GzState {
    type V = StateView;

    open spec fn view(&self) -> StateView {
        match *self {
            GzState::Header(buf) => StateView::Header(buf@),
            GzState::Body => StateView::Body,
            GzState::Finished(pos, trailer) => StateView::Finished(pos as nat, trailer@),
            GzState::Failed(e) => StateView::Failed(e),
            GzState::End => StateView::End,
        }
    }
}

/// The checksum that a trailer records.
pub open spec fn trailer_crc(t: Seq<u8>) -> u32 {
    u32_of_le(t[0], t[1], t[2], t[3])
}

/// The length that a trailer records.
pub open spec fn trailer_len(t: Seq<u8>) -> u32 {
    u32_of_le(t[4], t[5], t[6], t[7])
}

/// Whether `t` is the trailer of a member whose plain bytes are `plain`.
pub open spec fn trailer_matches(t: Seq<u8>, plain: Seq<u8>) -> bool {
    trailer_crc(t) == crc32(plain) && trailer_len(t) == wrapped_len(plain)
}

/// The checksum and the length that a trailer records.
pub fn finish(buf: &[u8; 8]) -> (r: (u32, u32))
    ensures
        r.0 == trailer_crc(buf@),
        r.1 == trailer_len(buf@),
{
    let crc: u32 = (buf[0] as u32) | ((buf[1] as u32) << 8) | ((buf[2] as u32) << 16) | ((
    buf[3] as u32) << 24);
    let amt: u32 = (buf[4] as u32) | ((buf[5] as u32) << 8) | ((buf[6] as u32) << 16) | ((
    buf[7] as u32) << 24);
    (crc, amt)
}

/// A weight for each state. Sixteen times the number of bytes that the
/// source has ready, plus this weight, falls with every step of a read that
/// has no answer: so a read ends.
pub open spec fn weight(state: StateView) -> nat {
    match state {
        StateView::Header(buf) => if buf.len() == 0 {
            0
        } else {
            200
        },
        StateView::Body => 100,
        StateView::Finished(pos, _) => if pos <= 8 {
            (50 - pos) as nat
        } else {
            0
        },
        StateView::Failed(_) => 0,
        StateView::End => 0,
    }
}

/// A reader of the plain bytes of the first member of a gzip stream.
pub struct GzDecoder {
    inner: GzState,
    header: Option<GzHeader>,
    crc: Crc,
    reader: DeflateDecoder,
    multi: bool,
    completed: Ghost<nat>,
}

/// The kind of a state, and for a trailer whether it is full.
#[derive(Clone, Copy, Debug, PartialEq, Eq, Structural)]
enum Phase {
    /// In a header.
    Header,
    /// In a body.
    Body,
    /// In a trailer that is not full.
    Trailer,
    /// On a full trailer, which is to be checked.
    Check,
    /// Failed before the first read.
    Failed,
    /// At the end.
    End,
}

impl GzDecoder {
    /// Where the decoder stands.
    pub closed spec fn state(&self) -> StateView {
        self.inner@
    }

    /// The header of the member that the decoder is in or has left last.
    pub closed spec fn header_view(&self) -> Option<HeaderView> {
        match self.header {
            Some(header) => Some(header@),
            None => None,
        }
    }

    /// The plain bytes of the current member that reads have yielded.
    pub closed spec fn delivered(&self) -> Seq<u8> {
        self.crc.seen()
    }

    /// How many members the decoder has seen through to a trailer that
    /// matched.
    pub closed spec fn completed(&self) -> nat {
        self.completed@
    }

    /// The reader of the deflate stream, with the decompressor in it.
    pub closed spec fn inflater(&self) -> DeflateDecoder {
        self.reader
    }

    /// Whether the decoder goes on to a next member.
    pub closed spec fn is_multi(&self) -> bool {
        self.multi
    }

    /// The checksum over the delivered bytes is sound.
    pub closed spec fn sound(&self) -> bool {
        self.crc.wf()
    }

    /// The decoder is sound; in a header it has no header record and has
    /// delivered nothing; in a body and behind it, it has the record; a
    /// trailer is never more than full; and an error kept for the first
    /// read is never would-block.
    pub open spec fn wf(&self) -> bool {
        &&& self.sound()
        &&& match self.state() {
            StateView::Header(_) => self.header_view() is None && self.delivered().len() == 0,
            StateView::Body => self.header_view() is Some,
            StateView::Finished(pos, trailer) => self.header_view() is Some && pos <= 8
                && trailer.len() == 8,
            StateView::Failed(e) => self.header_view() is None && e != GzError::WouldBlock,
            StateView::End => true,
        }
    }

    /// What a new decoder is, given what parsing the first header gave.
    pub open spec fn started(&self, multi: bool, before: &Source<'_>, after: &Source<'_>) -> bool {
        &&& self.wf()
        &&& self.is_multi() == multi
        &&& self.delivered() == Seq::<u8>::empty()
        &&& self.completed() == 0
        &&& self.inflater().calls().len() == 0
        &&& moved_on(before, after)
        &&& after.taken() == before.taken() + parse_reach(before.remaining())
        &&& match parse_header(before.remaining()) {
            Parsed::Complete(header, len) => {
                &&& self.state() == StateView::Body
                &&& self.header_view() == Some(header)
                &&& after.taken() == before.taken() + len
            },
            Parsed::Invalid(e) => self.state() == StateView::Failed(e),
            Parsed::Short => {
                &&& after.remaining().len() == 0
                &&& self.state() == if before.end() == SourceEnd::Failed {
                    StateView::Failed(GzError::Source)
                } else {
                    StateView::Header(before.remaining())
                }
            },
        }
    }

    /// A decoder for the first member of the stream that `reader` has the
    /// start of. The header is parsed at once, as far as the source has it.
    ///
    /// A whole header puts the decoder into the body. A header that cannot
    /// be one, or a source that has failed, puts it into a state whose
    /// error the first read reports. Where the source has only part of the
    /// header, the decoder keeps that part and parses on in the first read.
    pub fn new(reader: &mut Source<'_>) -> (decoder: GzDecoder)
        requires
            old(reader).wf(),
        ensures
            decoder.started(false, old(reader), final(reader)),
    {
        let mut replay = Buffer::new(Vec::new());
        let ghost s = replay.stream(reader);
        assert(s =~= reader.remaining());
        let result = read_gz_header(&mut replay, reader);
        proof {
            replay.lemma_offset_in_log();
            lemma_complete_len(s);
            assert(replay.log().len() + reader.remaining().len() == s.len());
        }
        let crc = Crc::new();
        let inflater = DeflateDecoder::new();
        match result {
            Ok(hdr) => GzDecoder {
                inner: GzState::Body,
                header: Some(hdr),
                crc,
                reader: inflater,
                multi: false,
                completed: Ghost(0),
            },
            Err(e) => match e {
                GzError::WouldBlock | GzError::UnexpectedEof => {
                    let buf = replay.into_inner();
                    assert(buf@ =~= s);
                    GzDecoder {
                        inner: GzState::Header(buf),
                        header: None,
                        crc,
                        reader: inflater,
                        multi: false,
                        completed: Ghost(0),
                    }
                },
                _ => GzDecoder {
                    inner: GzState::Failed(e),
                    header: None,
                    crc,
                    reader: inflater,
                    multi: false,
                completed: Ghost(0),
                },
            },
        }
    }

    /// The same decoder, going on to further members or not.
    fn multi(self, flag: bool) -> (decoder: GzDecoder)
        ensures
            decoder.wf() == self.wf(),
            decoder.state() == self.state(),
            decoder.header_view() == self.header_view(),
            decoder.delivered() == self.delivered(),
            decoder.sound() == self.sound(),
            decoder.completed() == self.completed(),
            decoder.inflater() == self.inflater(),
            decoder.is_multi() == flag,
    {
        let mut decoder = self;
        decoder.multi = flag;
        decoder
    }

    /// The header of the member that the decoder is in or has left last;
    /// none while no header of the current member has been parsed.
    pub fn header(&self) -> (header: Option<&GzHeader>)
        ensures
            header is Some <==> self.header_view() is Some,
            header is Some ==> header->Some_0@ == self.header_view()->Some_0,
    {
        self.header.as_ref()
    }

    /// The kind of state that the decoder is in.
    fn phase(&self) -> (phase: Phase)
        ensures
            phase == match self.state() {
                StateView::Header(_) => Phase::Header,
                StateView::Body => Phase::Body,
                StateView::Finished(pos, _) => if pos < 8 {
                    Phase::Trailer
                } else {
                    Phase::Check
                },
                StateView::Failed(_) => Phase::Failed,
                StateView::End => Phase::End,
            },
    {
        match &self.inner {
            GzState::Header(_) => Phase::Header,
            GzState::Body => Phase::Body,
            GzState::Finished(pos, _) => if *pos < 8 {
                Phase::Trailer
            } else {
                Phase::Check
            },
            GzState::Failed(_) => Phase::Failed,
            GzState::End => Phase::End,
        }
    }

    /// Whether the decoder is at its end: every read gives zero.
    pub fn is_done(&self) -> (done: bool)
        ensures
            done == (self.state() == StateView::End),
    {
        match &self.inner {
            GzState::End => true,
            _ => false,
        }
    }
}


/// What a step gives back: an answer for the caller of the read, or
/// nothing where the read goes on with the next step.
pub type Turn = Option<Result<usize, GzError>>;

impl GzDecoder {
    /// A step in a header.
    ///
    /// The bytes kept from earlier attempts and the bytes that the source
    /// has ready are parsed as one. A whole header leads into the body, and
    /// the source has given what the header needed beyond the bytes kept.
    /// A header that cannot be one ends the decoder with its error. Where
    /// the bytes end too early, all of them are kept, and the answer is
    /// would-block, also at the end of the source; only a failed source
    /// ends the decoder. In each case the source has given what the parse
    /// read beyond the bytes kept ([`parse_reach`]).
    pub open spec fn header_step(
        &self,
        reader: &Source<'_>,
        after: &GzDecoder,
        reader_after: &Source<'_>,
        ret: Turn,
    ) -> bool {
        let buf = self.state()->Header_0;
        let s = buf + reader.remaining();
        &&& after.delivered() == self.delivered()
        &&& after.completed() == self.completed()
        &&& reader_after.taken() == reader.taken() + if parse_reach(s) > buf.len() {
            parse_reach(s) - buf.len()
        } else {
            0
        }
        &&& match parse_header(s) {
            Parsed::Complete(header, len) => {
                &&& ret is None
                &&& after.state() == StateView::Body
                &&& after.header_view() == Some(header)
                &&& reader_after.taken() == reader.taken() + if len > buf.len() {
                    len - buf.len()
                } else {
                    0
                }
            },
            Parsed::Invalid(e) => {
                &&& ret == Some(Err::<usize, GzError>(e))
                &&& after.state() == StateView::End
            },
            Parsed::Short => {
                &&& reader_after.remaining().len() == 0
                &&& if reader.end() == SourceEnd::Failed {
                    &&& ret == Some(Err::<usize, GzError>(GzError::Source))
                    &&& after.state() == StateView::End
                } else {
                    &&& ret == Some(Err::<usize, GzError>(GzError::WouldBlock))
                    &&& after.state() == StateView::Header(s)
                    &&& after.header_view() is None
                }
            },
        }
    }

    /// What a step in the body makes of the answer of the decompressor,
    /// where `out` is the output that it wrote into.
    ///
    /// Bytes are passed on, and they count as delivered. A count of zero
    /// is the end of the body and leads behind it, to an empty trailer.
    /// Would-block is passed on and changes nothing; any other error is
    /// passed on and ends the decoder.
    pub open spec fn settled(
        &self,
        answer: Result<usize, GzError>,
        out: Seq<u8>,
        after: &GzDecoder,
        ret: Turn,
    ) -> bool {
        &&& after.header_view() == self.header_view()
        &&& after.completed() == self.completed()
        &&& match answer {
            Ok(n) => if n == 0 {
                &&& ret is None
                &&& after.state() == StateView::Finished(0, Seq::new(8, |i: int| 0u8))
                &&& after.delivered() == self.delivered()
            } else {
                &&& ret == Some(Ok::<usize, GzError>(n))
                &&& after.state() == StateView::Body
                &&& after.delivered() == self.delivered() + out.take(n as int)
            },
            Err(e) => {
                &&& ret == Some(Err::<usize, GzError>(e))
                &&& after.delivered() == self.delivered()
                &&& after.state() == if e == GzError::WouldBlock {
                    StateView::Body
                } else {
                    StateView::End
                }
            },
        }
    }

    /// A step in the body, where `out_before` is the content of the output
    /// buffer before and `out` its content afterwards.
    ///
    /// Without room nothing happens and the answer is zero. With room, the
    /// reader of the deflate stream reads into the output buffer, as
    /// [`DeflateDecoder::was_read`] says: it calls the decompressor with
    /// what the source has ready, and its answer follows from the answers
    /// of the decompressor. The step is what [`GzDecoder::settled`] makes
    /// of the answer of that read.
    pub open spec fn body_step(
        &self,
        reader: &Source<'_>,
        out_before: Seq<u8>,
        after: &GzDecoder,
        reader_after: &Source<'_>,
        out: Seq<u8>,
        ret: Turn,
    ) -> bool {
        if out_before.len() == 0 {
            &&& ret == Some(Ok::<usize, GzError>(0))
            &&& after.state() == StateView::Body
            &&& after.delivered() == self.delivered()
            &&& after.header_view() == self.header_view()
            &&& after.completed() == self.completed()
            &&& after.inflater() == self.inflater()
            &&& out == out_before
            &&& *reader_after == *reader
        } else {
            let answer = match ret {
                None => Ok::<usize, GzError>(0),
                Some(r) => r,
            };
            &&& read_outcome(reader, reader_after, out_before.len(), answer)
            &&& self.inflater().was_read(
                reader,
                out_before,
                &after.inflater(),
                reader_after,
                out,
                answer,
            )
            &&& self.settled(answer, out, after, ret)
        }
    }

    /// A step in a trailer that is not full.
    ///
    /// The source gives as many of the missing bytes as it has ready. Where
    /// it has none: would-block is passed on and changes nothing; the end
    /// of the source is an end too early, which ends the decoder, as every
    /// failure of the source does.
    pub open spec fn trailer_step(
        &self,
        reader: &Source<'_>,
        after: &GzDecoder,
        reader_after: &Source<'_>,
        ret: Turn,
    ) -> bool {
        let pos = self.state()->Finished_0 as int;
        let t = self.state()->Finished_1;
        let rem = reader.remaining();
        &&& after.delivered() == self.delivered()
        &&& after.header_view() == self.header_view()
        &&& after.completed() == self.completed()
        &&& if rem.len() > 0 {
            let k = if 8 - pos <= rem.len() {
                8 - pos
            } else {
                rem.len() as int
            };
            &&& ret is None
            &&& after.state() == StateView::Finished(
                (pos + k) as nat,
                t.take(pos) + rem.take(k) + t.skip(pos + k),
            )
            &&& reader_after.taken() == reader.taken() + k
        } else {
            &&& *reader_after == *reader
            &&& match reader.end() {
                SourceEnd::WouldBlock => {
                    &&& ret == Some(Err::<usize, GzError>(GzError::WouldBlock))
                    &&& after.state() == self.state()
                },
                SourceEnd::Eof => {
                    &&& ret == Some(Err::<usize, GzError>(GzError::UnexpectedEof))
                    &&& after.state() == StateView::End
                },
                SourceEnd::UnexpectedEof => {
                    &&& ret == Some(Err::<usize, GzError>(GzError::UnexpectedEof))
                    &&& after.state() == StateView::End
                },
                SourceEnd::Failed => {
                    &&& ret == Some(Err::<usize, GzError>(GzError::Source))
                    &&& after.state() == StateView::End
                },
            }
        }
    }

    /// A step on a full trailer.
    ///
    /// A trailer that does not match the delivered bytes ends the decoder
    /// with the error for corrupt data. One that matches ends a decoder of
    /// one member. A decoder of all members looks at the source: bytes
    /// ready start a new member, with nothing delivered and no header
    /// record; the end of the source ends the decoder; would-block is
    /// passed on and changes nothing; a failure ends the decoder. Only
    /// where a new member starts is the decompressor touched: it is made
    /// as new.
    pub open spec fn check_step(
        &self,
        reader: &Source<'_>,
        after: &GzDecoder,
        reader_after: &Source<'_>,
        ret: Turn,
    ) -> bool {
        let t = self.state()->Finished_1;
        &&& *reader_after == *reader
        &&& !(after.state() is Header) ==> after.inflater() == self.inflater()
        &&& if !trailer_matches(t, self.delivered()) {
            &&& ret == Some(Err::<usize, GzError>(GzError::Corrupt))
            &&& after.state() == StateView::End
            &&& after.delivered() == self.delivered()
            &&& after.completed() == self.completed()
        } else if !self.is_multi() {
            &&& ret is None
            &&& after.state() == StateView::End
            &&& after.delivered() == self.delivered()
            &&& after.header_view() == self.header_view()
            &&& after.completed() == self.completed() + 1
        } else if reader.remaining().len() > 0 {
            &&& ret is None
            &&& after.state() == StateView::Header(Seq::<u8>::empty())
            &&& after.header_view() is None
            &&& after.delivered() == Seq::<u8>::empty()
            &&& after.completed() == self.completed() + 1
            &&& after.inflater().state() == inflate_reset_result(self.inflater().state())
            &&& after.inflater().calls().len() == 0
        } else {
            &&& after.delivered() == self.delivered()
            &&& match reader.end() {
                SourceEnd::Eof => {
                    &&& ret is None
                    &&& after.state() == StateView::End
                    &&& after.header_view() == self.header_view()
                    &&& after.completed() == self.completed() + 1
                },
                SourceEnd::WouldBlock => {
                    &&& ret == Some(Err::<usize, GzError>(GzError::WouldBlock))
                    &&& after.state() == self.state()
                    &&& after.header_view() == self.header_view()
                    &&& after.completed() == self.completed()
                },
                SourceEnd::UnexpectedEof => {
                    &&& ret == Some(Err::<usize, GzError>(GzError::UnexpectedEof))
                    &&& after.state() == StateView::End
                    &&& after.completed() == self.completed()
                },
                SourceEnd::Failed => {
                    &&& ret == Some(Err::<usize, GzError>(GzError::Source))
                    &&& after.state() == StateView::End
                    &&& after.completed() == self.completed()
                },
            }
        }
    }

    /// What one step does, state by state, where `out_before` is the
    /// content of the output buffer before and `out` its content
    /// afterwards. A decoder that failed before its first read reports the
    /// error and ends. A decoder at its end answers zero and stays there.
    /// Only a step in the body writes into the output buffer and asks the
    /// decompressor.
    pub open spec fn stepped(
        &self,
        reader: &Source<'_>,
        out_before: Seq<u8>,
        after: &GzDecoder,
        reader_after: &Source<'_>,
        out: Seq<u8>,
        ret: Turn,
    ) -> bool {
        match self.state() {
            StateView::Header(_) => {
                &&& self.header_step(reader, after, reader_after, ret)
                &&& after.inflater() == self.inflater()
                &&& out == out_before
            },
            StateView::Body => self.body_step(reader, out_before, after, reader_after, out, ret),
            StateView::Finished(pos, _) => if pos < 8 {
                &&& self.trailer_step(reader, after, reader_after, ret)
                &&& after.inflater() == self.inflater()
                &&& out == out_before
            } else {
                &&& self.check_step(reader, after, reader_after, ret)
                &&& out == out_before
            },
            StateView::Failed(e) => {
                &&& ret == Some(Err::<usize, GzError>(e))
                &&& after.state() == StateView::End
                &&& after.delivered() == self.delivered()
                &&& after.completed() == self.completed()
                &&& after.inflater() == self.inflater()
                &&& out == out_before
                &&& *reader_after == *reader
            },
            StateView::End => {
                &&& ret == Some(Ok::<usize, GzError>(0))
                &&& after.state() == StateView::End
                &&& after.delivered() == self.delivered()
                &&& after.header_view() == self.header_view()
                &&& after.completed() == self.completed()
                &&& after.inflater() == self.inflater()
                &&& out == out_before
                &&& *reader_after == *reader
            },
        }
    }

    fn on_header(&mut self, reader: &mut Source<'_>) -> (ret: Turn)
        requires
            old(self).wf(),
            old(self).state() is Header,
            old(reader).wf(),
        ensures
            final(self).wf(),
            final(self).is_multi() == old(self).is_multi(),
            moved_on(old(reader), final(reader)),
            final(self).inflater() == old(self).inflater(),
            old(self).header_step(old(reader), final(self), final(reader), ret),
    {
        let ghost buf0 = self.state()->Header_0;
        let ghost s = buf0 + reader.remaining();
        let res = match &mut self.inner {
            GzState::Header(buf) => {
                let mut log: Vec<u8> = Vec::new();
                core::mem::swap(buf, &mut log);
                let mut replay = Buffer::new(log);
                let res = read_gz_header(&mut replay, reader);
                proof {
                    replay.lemma_offset_in_log();
                    lemma_complete_len(s);
                    assert(replay.log().len() + reader.remaining().len() == s.len());
                    if reader.remaining().len() == 0 {
                        assert(replay.log() =~= s);
                    }
                }
                *buf = replay.into_inner();
                res
            },
            _ => Err(GzError::BadHeader),
        };
        match res {
            Ok(hdr) => {
                self.header = Some(hdr);
                self.inner = GzState::Body;
                None
            },
            Err(e) => match e {
                GzError::WouldBlock | GzError::UnexpectedEof => Some(Err(GzError::WouldBlock)),
                _ => {
                    self.inner = GzState::End;
                    Some(Err(e))
                },
            },
        }
    }

    /// Does what a step in the body does with the answer of the
    /// decompressor, which wrote into `out`.
    pub fn settle(&mut self, answer: Result<usize, GzError>, out: &[u8]) -> (ret: Turn)
        requires
            old(self).wf(),
            old(self).state() is Body,
            answer is Ok ==> answer->Ok_0 <= out@.len(),
        ensures
            final(self).wf(),
            final(self).is_multi() == old(self).is_multi(),
            final(self).inflater() == old(self).inflater(),
            old(self).settled(answer, out@, final(self), ret),
    {
        match answer {
            Err(e) => match e {
                GzError::WouldBlock => Some(Err(e)),
                _ => {
                    self.inner = GzState::End;
                    Some(Err(e))
                },
            },
            Ok(n) => {
                let fresh = slice_subrange(out, 0, n);
                self.crc.update(fresh);
                assert(fresh@ =~= out@.take(n as int));
                if n == 0 {
                    assert(old(self).delivered() + fresh@ =~= old(self).delivered());
                    let zeros: [u8; 8] = [0u8; 8];
                    assert(zeros@ =~= Seq::new(8, |i: int| 0u8));
                    self.inner = GzState::Finished(0, zeros);
                    None
                } else {
                    Some(Ok(n))
                }
            },
        }
    }

    fn on_body(&mut self, reader: &mut Source<'_>, into: &mut [u8]) -> (ret: Turn)
        requires
            old(self).wf(),
            old(self).state() is Body,
            old(reader).wf(),
        ensures
            final(self).wf(),
            final(self).is_multi() == old(self).is_multi(),
            final(into)@.len() == old(into)@.len(),
            moved_on(old(reader), final(reader)),
            old(self).body_step(
                old(reader),
                old(into)@,
                final(self),
                final(reader),
                final(into)@,
                ret,
            ),
    {
        if into.len() == 0 {
            return Some(Ok(0));
        }
        let answer = self.reader.read(reader, into);
        self.settle(answer, into)
    }

    fn on_trailer(&mut self, reader: &mut Source<'_>) -> (ret: Turn)
        requires
            old(self).wf(),
            old(self).state() is Finished,
            old(self).state()->Finished_0 < 8,
            old(reader).wf(),
        ensures
            final(self).wf(),
            final(self).is_multi() == old(self).is_multi(),
            moved_on(old(reader), final(reader)),
            final(self).inflater() == old(self).inflater(),
            old(self).trailer_step(old(reader), final(self), final(reader), ret),
    {
        let ghost pos0 = self.state()->Finished_0 as int;
        let ghost t = self.state()->Finished_1;
        let res = match &mut self.inner {
            GzState::Finished(pos, buf) => {
                let (head, rest) = buf.split_at_mut(*pos);
                let res = reader.read(rest);
                proof {
                    if res is Ok {
                        let k = res->Ok_0 as int;
                        assert(head@ + rest@ =~= t.take(pos0) + old(reader).remaining().take(k)
                            + t.skip(pos0 + k));
                    } else {
                        assert(head@ + rest@ =~= t);
                    }
                }
                match res {
                    Ok(n) => {
                        *pos = *pos + n;
                    },
                    Err(_) => {},
                }
                res
            },
            _ => Ok(0),
        };
        match res {
            Ok(n) => {
                if n == 0 {
                    self.inner = GzState::End;
                    Some(Err(GzError::UnexpectedEof))
                } else {
                    None
                }
            },
            Err(e) => match e {
                GzError::WouldBlock => Some(Err(e)),
                _ => {
                    self.inner = GzState::End;
                    Some(Err(e))
                },
            },
        }
    }

    fn on_check(&mut self, reader: &mut Source<'_>) -> (ret: Turn)
        requires
            old(self).wf(),
            old(self).state() is Finished,
            old(self).state()->Finished_0 >= 8,
            old(reader).wf(),
        ensures
            final(self).wf(),
            final(self).is_multi() == old(self).is_multi(),
            moved_on(old(reader), final(reader)),
            old(self).check_step(old(reader), final(self), final(reader), ret),
    {
        let (crc, amt) = match &self.inner {
            GzState::Finished(_, buf) => finish(buf),
            _ => (0, 0),
        };
        if crc != self.crc.sum() {
            self.inner = GzState::End;
            Some(Err(corrupt()))
        } else if amt != self.crc.amount() {
            self.inner = GzState::End;
            Some(Err(corrupt()))
        } else if !self.multi {
            self.inner = GzState::End;
            proof {
                self.completed@ = self.completed@ + 1;
            }
            None
        } else {
            match reader.fill_buf() {
                Ok(ready) => {
                    proof {
                        self.completed@ = self.completed@ + 1;
                    }
                    if ready.len() == 0 {
                        self.inner = GzState::End;
                        None
                    } else {
                        self.crc.reset();
                        self.reader.reset_data();
                        self.header = None;
                        self.inner = GzState::Header(Vec::new());
                        None
                    }
                },
                Err(e) => match e {
                    GzError::WouldBlock => Some(Err(e)),
                    _ => {
                        self.inner = GzState::End;
                        Some(Err(e))
                    },
                },
            }
        }
    }

    /// One step of a read: what the decoder does in the state that it is
    /// in, once. See [`GzDecoder::stepped`].
    pub fn step(&mut self, reader: &mut Source<'_>, into: &mut [u8]) -> (ret: Turn)
        requires
            old(self).wf(),
            old(reader).wf(),
        ensures
            final(self).wf(),
            final(self).is_multi() == old(self).is_multi(),
            final(into)@.len() == old(into)@.len(),
            moved_on(old(reader), final(reader)),
            old(self).stepped(
                old(reader),
                old(into)@,
                final(self),
                final(reader),
                final(into)@,
                ret,
            ),
    {
        match self.phase() {
            Phase::Header => self.on_header(reader),
            Phase::Body => self.on_body(reader, into),
            Phase::Trailer => self.on_trailer(reader),
            Phase::Check => self.on_check(reader),
            Phase::Failed => {
                let e = match &self.inner {
                    GzState::Failed(e) => *e,
                    _ => GzError::Source,
                };
                self.inner = GzState::End;
                Some(Err(e))
            },
            Phase::End => Some(Ok(0)),
        }
    }
}


impl GzDecoder {
    /// What holds after a read, whatever the decompressor answered.
    ///
    /// A decoder at its end answers zero and stays as it is. An answer of
    /// zero with room in the output means that the decoder is at its end.
    /// Bytes are given only in a body, and they are the end of what has
    /// been delivered of the current member: behind what had been delivered
    /// before, where the read has not completed a member, else alone.
    /// Would-block is answered only when all that the source had ready has
    /// been taken; it leaves the decoder in a header, a body or a trailer, to
    /// be read again. Every other error puts it at its end.
    pub open spec fn read_result(
        &self,
        reader: &Source<'_>,
        out_before: Seq<u8>,
        after: &GzDecoder,
        reader_after: &Source<'_>,
        out: Seq<u8>,
        r: Result<usize, GzError>,
    ) -> bool {
        let room = out_before.len();
        &&& after.completed() >= self.completed()
        &&& !(after.state() is Failed)
        &&& self.state() == StateView::End ==> {
            &&& r == Ok::<usize, GzError>(0)
            &&& after.state() == StateView::End
            &&& after.delivered() == self.delivered()
            &&& after.header_view() == self.header_view()
            &&& after.completed() == self.completed()
            &&& after.inflater() == self.inflater()
            &&& out == out_before
            &&& *reader_after == *reader
        }
        &&& match r {
            Ok(n) => {
                &&& n <= room
                &&& n == 0 && room > 0 ==> after.state() == StateView::End
                &&& n > 0 ==> {
                    &&& after.state() == StateView::Body
                    &&& after.delivered() == if after.completed() == self.completed() {
                        self.delivered()
                    } else {
                        Seq::<u8>::empty()
                    } + out.take(n as int)
                }
            },
            Err(e) => if e == GzError::WouldBlock {
                &&& after.state() is Header || after.state() is Body || after.state() is Finished
                &&& reader_after.remaining().len() == 0
                &&& reader.end() != SourceEnd::Failed
            } else {
                after.state() == StateView::End
            },
        }
    }

    /// Reads plain bytes into the front of `into`: steps until a step has
    /// an answer.
    ///
    /// The read is a run of steps ([`is_run`]), each as
    /// [`GzDecoder::stepped`] says, and its answer is the answer of the
    /// last. See [`GzDecoder::read_result`] for what that comes to,
    /// whatever the decompressor answered on the way.
    pub fn read(&mut self, reader: &mut Source<'_>, into: &mut [u8]) -> (r: Result<usize, GzError>)
        requires
            old(self).wf(),
            old(reader).wf(),
        ensures
            final(self).wf(),
            final(self).is_multi() == old(self).is_multi(),
            final(into)@.len() == old(into)@.len(),
            moved_on(old(reader), final(reader)),
            old(self).read_result(
                old(reader),
                old(into)@,
                final(self),
                final(reader),
                final(into)@,
                r,
            ),
            exists|run: Seq<Moment>|
                {
                    &&& #[trigger] is_run(run, r)
                    &&& run.first() == moment(old(self), old(reader), old(into)@)
                    &&& run.last() == moment(final(self), final(reader), final(into)@)
                },
    {
        let ghost mut first: bool = true;
        let ghost mut run: Seq<Moment> = seq![moment(self, reader, into@)];
        loop
            invariant
                self.wf(),
                self.is_multi() == old(self).is_multi(),
                into@.len() == old(into)@.len(),
                moved_on(old(reader), reader),
                self.completed() >= old(self).completed(),
                first ==> {
                    &&& self.state() == old(self).state()
                    &&& self.delivered() == old(self).delivered()
                    &&& self.header_view() == old(self).header_view()
                    &&& self.completed() == old(self).completed()
                    &&& self.inflater() == old(self).inflater()
                    &&& into@ == old(into)@
                    &&& *reader == *old(reader)
                },
                !first ==> !(self.state() is Failed) && !(old(self).state() == StateView::End),
                self.completed() == old(self).completed() ==> self.delivered() == old(
                    self,
                ).delivered(),
                self.completed() > old(self).completed() && !(self.state() == StateView::End)
                    ==> self.delivered() == Seq::<u8>::empty(),
                run.len() >= 1,
                run.first() == moment(old(self), old(reader), old(into)@),
                run.last() == moment(self, reader, into@),
                forall|i: int|
                    0 <= i < run.len() - 1 ==> #[trigger] follows(run, i, None),
            decreases 16 * reader.remaining().len() + weight(self.state()),
        {
            proof {
                if self.state() is Header {
                    lemma_complete_len(self.state()->Header_0 + reader.remaining());
                }
            }
            let ret = self.step(reader, into);
            let ghost longer = run.push(moment(self, reader, into@));
            proof {
                assert(follows(longer, run.len() - 1, ret));
                assert forall|i: int| 0 <= i < run.len() - 1 implies #[trigger] follows(
                    longer,
                    i,
                    None,
                ) by {
                    assert(follows(run, i, None));
                }
                assert(longer.first() == run.first());
                run = longer;
            }
            match ret {
                Some(r) => {
                    assert(is_run(run, r));
                    return r;
                },
                None => {
                    proof {
                        first = false;
                    }
                },
            }
        }
    }
}

/// A decoder, the source and the output as they are between two steps of a
/// read.
pub ghost struct Moment {
    /// The decoder.
    pub decoder: GzDecoder,
    /// Every byte of the window onto the source.
    pub all: Seq<u8>,
    /// How many of them have been taken.
    pub taken: nat,
    /// The answer of the source beyond the window.
    pub end: SourceEnd,
    /// The content of the output.
    pub out: Seq<u8>,
}

/// The moment at which decoder, source and output are these.
pub open spec fn moment(decoder: &GzDecoder, reader: &Source<'_>, out: Seq<u8>) -> Moment {
    Moment { decoder: *decoder, all: reader.all(), taken: reader.taken(), end: reader.end(), out }
}

/// Moment `i + 1` of `run` follows from moment `i` by one step with the
/// answer `ret`, for some source as moment `i` has it and some source as
/// moment `i + 1` has it.
pub open spec fn follows(run: Seq<Moment>, i: int, ret: Turn) -> bool {
    exists|before: Source<'_>, after: Source<'_>|
        {
            &&& run[i] == moment(&run[i].decoder, &before, run[i].out)
            &&& run[i + 1] == moment(&run[i + 1].decoder, &after, run[i + 1].out)
            &&& #[trigger] run[i].decoder.stepped(
                &before,
                run[i].out,
                &run[i + 1].decoder,
                &after,
                run[i + 1].out,
                ret,
            )
        }
}

/// `run` is the run of a read with the answer `r`: every step but the last
/// has no answer, and the last has `r`.
pub open spec fn is_run(run: Seq<Moment>, r: Result<usize, GzError>) -> bool {
    &&& run.len() >= 2
    &&& forall|i: int| 0 <= i < run.len() - 2 ==> #[trigger] follows(run, i, None)
    &&& follows(run, run.len() - 2, Some(r))
}

/// A reader of the plain bytes of all the members of a gzip stream, one
/// after the other.
pub struct MultiGzDecoder(GzDecoder);

impl MultiGzDecoder {
    /// The decoder inside.
    pub closed spec fn inner(&self) -> GzDecoder {
        self.0
    }

    /// The decoder inside is sound and goes on from member to member.
    pub open spec fn wf(&self) -> bool {
        self.inner().wf() && self.inner().is_multi()
    }

    /// A decoder for all the members of the stream that `reader` has the
    /// start of: as [`GzDecoder::new`], but for going on behind a member.
    pub fn new(reader: &mut Source<'_>) -> (decoder: MultiGzDecoder)
        requires
            old(reader).wf(),
        ensures
            decoder.wf(),
            decoder.inner().started(true, old(reader), final(reader)),
    {
        let single = GzDecoder::new(reader);
        MultiGzDecoder(single.multi(true))
    }

    /// The header of the member that the decoder is in or has left last;
    /// none while no header of the current member has been parsed.
    pub fn header(&self) -> (header: Option<&GzHeader>)
        ensures
            header is Some <==> self.inner().header_view() is Some,
            header is Some ==> header->Some_0@ == self.inner().header_view()->Some_0,
    {
        self.0.header()
    }

    /// Whether the decoder is at its end: every read gives zero.
    pub fn is_done(&self) -> (done: bool)
        ensures
            done == (self.inner().state() == StateView::End),
    {
        self.0.is_done()
    }

    /// Reads plain bytes into the front of `into`, as [`GzDecoder::read`]
    /// does for a decoder that goes on from member to member.
    pub fn read(&mut self, reader: &mut Source<'_>, into: &mut [u8]) -> (r: Result<usize, GzError>)
        requires
            old(self).wf(),
            old(reader).wf(),
        ensures
            final(self).wf(),
            final(into)@.len() == old(into)@.len(),
            moved_on(old(reader), final(reader)),
            old(self).inner().read_result(
                old(reader),
                old(into)@,
                &final(self).inner(),
                final(reader),
                final(into)@,
                r,
            ),
            exists|run: Seq<Moment>|
                {
                    &&& #[trigger] is_run(run, r)
                    &&& run.first() == moment(&old(self).inner(), old(reader), old(into)@)
                    &&& run.last() == moment(&final(self).inner(), final(reader), final(into)@)
                },
    {
        self.0.read(reader, into)
    }
}

} // verus!
