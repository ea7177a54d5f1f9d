//! The deflate codec, which is not written here: a compressor and a
//! decompressor of the `miniz_oxide` crate, each behind a reader that feeds
//! it from a [`Source`].
//!
//! What the codec answers and what it writes is not described here. It is
//! only named ([`inflate_result`], [`deflate_result`]): all that is assumed
//! of it is that it depends on the state of the codec and on what the codec
//! is handed, and on nothing else. Each read says what it hands to the
//! codec, call by call, and how its own answer follows from the answers
//! that come back; what is proved of the readers holds for every answer
//! that the codec can give.

use vstd::prelude::*;
use vstd::slice::slice_subrange;
use miniz_oxide::inflate::stream::InflateState;
use crate::crc::Crc;
use crate::error::GzError;
use crate::level::Compression;
use crate::source::Source;
use crate::source::SourceEnd;

verus! {

/// The state of a decompressor of `miniz_oxide`. It is opaque here.
#[verifier::external_type_specification]
#[verifier::external_body]
pub struct ExInflateState(InflateState);

/// The state of a compressor of `miniz_oxide`. It is opaque here.
#[verifier::external_type_specification]
#[verifier::external_body]
pub struct ExCompressorOxide(miniz_oxide::deflate::core::CompressorOxide);

/// Whether the codec is told that its input is complete.
#[derive(Clone, Copy, Debug, PartialEq, Eq, Structural)]
pub enum Flush {
    /// More input may follow.
    More,
    /// The input given is the last.
    Finish,
}

/// The status code for "went well, not at the end".
pub const MZ_OK: i32 = 0;

/// The status code for "the stream is complete".
pub const MZ_STREAM_END: i32 = 1;

/// The status code for "no progress was possible with these buffers".
pub const MZ_BUF_ERROR: i32 = -5;

/// What one call of the codec did.
#[derive(Clone, Copy, Debug)]
pub struct Progress {
    /// How many bytes of the input it took.
    pub consumed: usize,
    /// How many bytes of the output it wrote.
    pub written: usize,
    /// Its status, as the number that the zlib family gives it.
    pub code: i32,
}

/// What `miniz_oxide::inflate::stream::inflate` does on a decompressor in
/// the state `state`, handed `input`, an output buffer of `room` bytes,
/// and told to finish or not: its answer, the bytes that it writes into the
/// front of the output buffer, and the state that it leaves the
/// decompressor in. The function reads nothing else: not the content of
/// the output buffer, and nothing outside its arguments.
pub uninterp spec fn inflate_result(state: InflateState, input: Seq<u8>, room: nat, finish: bool) -> (
    Progress,
    Seq<u8>,
    InflateState,
);

/// What `miniz_oxide::deflate::stream::deflate` does on a compressor in the
/// state `state`, handed `input`, an output buffer of `room` bytes, and
/// told to finish or not: its answer, the bytes that it writes into the
/// front of the output buffer, and the state that it leaves the compressor
/// in. The function reads nothing else: not the content of the output
/// buffer, and nothing outside its arguments.
pub uninterp spec fn deflate_result(
    state: miniz_oxide::deflate::core::CompressorOxide,
    input: Seq<u8>,
    room: nat,
    finish: bool,
) -> (Progress, Seq<u8>, miniz_oxide::deflate::core::CompressorOxide);

/// The state that `InflateState::reset(DataFormat::Raw)` leaves a
/// decompressor in that was in the state `state`.
pub uninterp spec fn inflate_reset_result(state: InflateState) -> InflateState;

/// The compressor that `CompressorOxide::default` and then
/// `set_format_and_level(DataFormat::Raw, level)` make.
pub uninterp spec fn deflate_fresh(level: u8) -> miniz_oxide::deflate::core::CompressorOxide;

/// Makes a decompressor for a raw deflate stream:
/// `InflateState::new_boxed(DataFormat::Raw)`.
#[verifier::external_body]
fn inflate_new() -> Box<InflateState> {
    InflateState::new_boxed(miniz_oxide::DataFormat::Raw)
}

/// Makes a decompressor as new, for the next raw deflate stream:
/// `InflateState::reset(DataFormat::Raw)`. Claimed: the state afterwards
/// is that of [`inflate_reset_result`]: it depends on the state before
/// alone.
#[verifier::external_body]
fn inflate_reset(state: &mut Box<InflateState>)
    ensures
        **final(state) == inflate_reset_result(**old(state)),
{
    state.reset(miniz_oxide::DataFormat::Raw)
}

/// Calls `miniz_oxide::inflate::stream::inflate`. Claimed: the two counts
/// that it reports stay within the two buffers, the output buffer keeps
/// its length, and answer, bytes written and state afterwards are those of
/// [`inflate_result`]: they depend on the state before, the input, the
/// length of the output buffer and the flush alone.
#[verifier::external_body]
fn inflate_call(
    state: &mut Box<InflateState>,
    input: &[u8],
    output: &mut [u8],
    flush: Flush,
) -> (p: Progress)
    ensures
        p.consumed <= input@.len(),
        p.written <= old(output)@.len(),
        final(output)@.len() == old(output)@.len(),
        p == inflate_result(**old(state), input@, old(output)@.len(), flush == Flush::Finish).0,
        final(output)@.take(p.written as int) == inflate_result(
            **old(state),
            input@,
            old(output)@.len(),
            flush == Flush::Finish,
        ).1,
        **final(state) == inflate_result(
            **old(state),
            input@,
            old(output)@.len(),
            flush == Flush::Finish,
        ).2,
{
    let flush = match flush {
        Flush::More => miniz_oxide::MZFlush::None,
        Flush::Finish => miniz_oxide::MZFlush::Finish,
    };
    let res = miniz_oxide::inflate::stream::inflate(state, input, output, flush);
    let code = match res.status {
        Ok(status) => status as i32,
        Err(error) => error as i32,
    };
    Progress { consumed: res.bytes_consumed, written: res.bytes_written, code }
}

/// Makes a compressor for a raw deflate stream at the given level:
/// `CompressorOxide::default` and `set_format_and_level(DataFormat::Raw, ..)`.
/// Claimed: the compressor is that of [`deflate_fresh`]: it depends on the
/// level alone.
#[verifier::external_body]
fn deflate_new(level: u8) -> (compressor: Box<miniz_oxide::deflate::core::CompressorOxide>)
    ensures
        *compressor == deflate_fresh(level),
{
    let mut compressor: Box<miniz_oxide::deflate::core::CompressorOxide> = Box::default();
    compressor.set_format_and_level(miniz_oxide::DataFormat::Raw, level);
    compressor
}

/// Calls `miniz_oxide::deflate::stream::deflate`. Claimed: the two counts
/// that it reports stay within the two buffers, the output buffer keeps
/// its length, and answer, bytes written and state afterwards are those of
/// [`deflate_result`]: they depend on the state before, the input, the
/// length of the output buffer and the flush alone.
#[verifier::external_body]
fn deflate_call(
    state: &mut Box<miniz_oxide::deflate::core::CompressorOxide>,
    input: &[u8],
    output: &mut [u8],
    flush: Flush,
) -> (p: Progress)
    ensures
        p.consumed <= input@.len(),
        p.written <= old(output)@.len(),
        final(output)@.len() == old(output)@.len(),
        p == deflate_result(**old(state), input@, old(output)@.len(), flush == Flush::Finish).0,
        final(output)@.take(p.written as int) == deflate_result(
            **old(state),
            input@,
            old(output)@.len(),
            flush == Flush::Finish,
        ).1,
        **final(state) == deflate_result(
            **old(state),
            input@,
            old(output)@.len(),
            flush == Flush::Finish,
        ).2,
{
    let flush = match flush {
        Flush::More => miniz_oxide::MZFlush::None,
        Flush::Finish => miniz_oxide::MZFlush::Finish,
    };
    let res = miniz_oxide::deflate::stream::deflate(state, input, output, flush);
    let code = match res.status {
        Ok(status) => status as i32,
        Err(error) => error as i32,
    };
    Progress { consumed: res.bytes_consumed, written: res.bytes_written, code }
}

/// What a reader does after one call of the codec.
#[derive(Clone, Copy, Debug, PartialEq, Eq, Structural)]
pub enum Followup {
    /// Nothing was written though there was room, but input was taken: the
    /// codec is to be called again with what the source has next.
    Again,
    /// The read is over, with this many bytes.
    Done(usize),
    /// The codec has failed.
    Failed,
}

/// What follows one call of the codec.
///
/// A status other than "ok", "stream end" and "no progress" is a failure.
/// A call that wrote nothing though there was room, and did not report the
/// end of the stream, is a failure at the end of the input, where the
/// stream is cut short, and a failure where it took no input, where a
/// repeat would be the same call again; where it took input, the codec is
/// called again. Every other call ends the read with what it wrote.
pub open spec fn spec_followup(p: Progress, eof: bool, room: bool) -> Followup {
    if p.code != MZ_OK && p.code != MZ_STREAM_END && p.code != MZ_BUF_ERROR {
        Followup::Failed
    } else if p.code != MZ_STREAM_END && p.written == 0 && room {
        if !eof && p.consumed > 0 {
            Followup::Again
        } else {
            Followup::Failed
        }
    } else {
        Followup::Done(p.written)
    }
}

#[verifier::when_used_as_spec(spec_followup)]
pub fn followup(p: Progress, eof: bool, room: bool) -> (v: Followup)
    ensures
        v == spec_followup(p, eof, room),
{
    if p.code != MZ_OK && p.code != MZ_STREAM_END && p.code != MZ_BUF_ERROR {
        Followup::Failed
    } else if p.code != MZ_STREAM_END && p.written == 0 && room {
        if !eof && p.consumed > 0 {
            Followup::Again
        } else {
            Followup::Failed
        }
    } else {
        Followup::Done(p.written)
    }
}

/// `after` is `before` with some bytes taken, and nothing else changed.
pub open spec fn moved_on(before: &Source<'_>, after: &Source<'_>) -> bool {
    &&& after.wf()
    &&& after.all() == before.all()
    &&& after.end() == before.end()
    &&& after.taken() >= before.taken()
}

/// What holds after a read through the codec, whatever the codec answered.
///
/// The source has only moved on. A count is within `room`, the length of
/// the output, and with room a count of zero stands for the end of the
/// stream. An error is the source's answer, given when the source had run
/// dry, or it is the failure of the codec.
pub open spec fn read_outcome(
    before: &Source<'_>,
    after: &Source<'_>,
    room: nat,
    r: Result<usize, GzError>,
) -> bool {
    &&& moved_on(before, after)
    &&& match r {
        Ok(n) => n <= room,
        Err(GzError::BadDeflate) => true,
        Err(e) => after.remaining().len() == 0 && before.end().dry() == Err::<usize, GzError>(e),
    }
}

/// One call of the codec: the state that it found the codec in, what it
/// was handed, and what came back.
pub ghost struct Call<S> {
    /// The state of the codec before the call.
    pub state: S,
    /// The input that it was handed.
    pub input: Seq<u8>,
    /// The length of the output buffer that it was handed.
    pub room: nat,
    /// What it was told of the input.
    pub flush: Flush,
    /// Its answer.
    pub progress: Progress,
    /// The content of the output buffer afterwards.
    pub output: Seq<u8>,
    /// The state of the codec after the call.
    pub after: S,
}

impl<S> Call<S> {
    /// What follows the call: the input is at its end where none was
    /// handed, and there is room where the output buffer is not empty.
    pub open spec fn followup(self) -> Followup {
        spec_followup(self.progress, self.input.len() == 0, self.room > 0)
    }
}

/// The call is a call of the decompressor: answer, bytes written and state
/// afterwards are what [`inflate_result`] gives for the state before and
/// for what was handed.
pub open spec fn inflated(call: Call<InflateState>) -> bool {
    let named = inflate_result(call.state, call.input, call.room, call.flush == Flush::Finish);
    &&& call.progress == named.0
    &&& call.output.take(call.progress.written as int) == named.1
    &&& call.after == named.2
}

/// The call is a call of the compressor: answer, bytes written and state
/// afterwards are what [`deflate_result`] gives for the state before and
/// for what was handed.
pub open spec fn deflated(call: Call<miniz_oxide::deflate::core::CompressorOxide>) -> bool {
    let named = deflate_result(call.state, call.input, call.room, call.flush == Flush::Finish);
    &&& call.progress == named.0
    &&& call.output.take(call.progress.written as int) == named.1
    &&& call.after == named.2
}

/// The number of input bytes that the calls took, all together.
pub open spec fn taken_by<S>(calls: Seq<Call<S>>) -> nat
    decreases calls.len(),
{
    if calls.len() == 0 {
        0
    } else {
        taken_by(calls.drop_last()) + calls.last().progress.consumed as nat
    }
}

/// Call `i` of `made` was handed what a read hands to the codec, where
/// `first` is the state of the codec when the read began, `rem` is what
/// the source had ready then, and `end` is the answer of the source beyond
/// that.
///
/// The call finds the codec as the call before left it. The input is all
/// that the calls before have left of `rem`, and the codec is told to
/// finish exactly where that is nothing. The call is made only where there
/// is input or the source is over. The output buffer is that of the read,
/// `room` bytes long. The counts that come back are within the two
/// buffers.
pub open spec fn handed<S>(
    made: Seq<Call<S>>,
    i: int,
    first: S,
    rem: Seq<u8>,
    end: SourceEnd,
    room: nat,
) -> bool {
    let before = taken_by(made.take(i));
    let call = made[i];
    &&& call.state == if i == 0 {
        first
    } else {
        made[i - 1].after
    }
    &&& before <= rem.len()
    &&& call.input == rem.skip(before as int)
    &&& call.flush == if call.input.len() == 0 {
        Flush::Finish
    } else {
        Flush::More
    }
    &&& call.input.len() > 0 || end == SourceEnd::Eof
    &&& call.room == room
    &&& call.output.len() == room
    &&& call.progress.consumed <= call.input.len()
    &&& call.progress.written <= room
}

/// A read through the codec that made the calls `made`, in this order, and
/// answered `r`.
///
/// Each call was handed what [`handed`] says. Every call but the last is
/// followed by a call again. The codec is left as the last call left it,
/// the source has given up what the calls took, and the output buffer is
/// as the last call left it. Where the last call is not followed by a call
/// again, it decides the answer: its count where it ends the read, else
/// the failure of the codec. Where there is no such call, the read has
/// stopped at a source that had run dry and was not over, and the answer
/// is the error of the source.
pub open spec fn pumped<S>(
    made: Seq<Call<S>>,
    state_before: S,
    state_after: S,
    before: &Source<'_>,
    after: &Source<'_>,
    out_before: Seq<u8>,
    out_after: Seq<u8>,
    r: Result<usize, GzError>,
) -> bool {
    &&& moved_on(before, after)
    &&& forall|i: int|
        0 <= i < made.len() ==> #[trigger] handed(
            made,
            i,
            state_before,
            before.remaining(),
            before.end(),
            out_before.len(),
        )
    &&& forall|i: int| 0 <= i < made.len() - 1 ==> (#[trigger] made[i]).followup() == Followup::Again
    &&& after.taken() == before.taken() + taken_by(made)
    &&& state_after == if made.len() == 0 {
        state_before
    } else {
        made.last().after
    }
    &&& out_after == if made.len() == 0 {
        out_before
    } else {
        made.last().output
    }
    &&& if made.len() > 0 && made.last().followup() != Followup::Again {
        r == match made.last().followup() {
            Followup::Done(n) => Ok::<usize, GzError>(n),
            _ => Err::<usize, GzError>(GzError::BadDeflate),
        }
    } else {
        &&& after.remaining().len() == 0
        &&& r is Err
        &&& r == before.end().dry()
    }
}

/// The calls `after` are the calls `before` and then the calls `made`.
pub open spec fn grown_by<S>(before: Seq<Call<S>>, after: Seq<Call<S>>, made: Seq<Call<S>>) -> bool {
    after == before + made
}

/// One more call at the end of calls that were handed what a read hands:
/// where the new call finds the codec as the last call left it and is
/// handed all that the calls before have left of `rem`, every call is
/// still handed what a read hands, and the new call adds what it took.
pub proof fn lemma_one_more_call<S>(
    made: Seq<Call<S>>,
    call: Call<S>,
    first: S,
    rem: Seq<u8>,
    end: SourceEnd,
    room: nat,
    left: Seq<u8>,
)
    requires
        forall|i: int| 0 <= i < made.len() ==> #[trigger] handed(made, i, first, rem, end, room),
        taken_by(made) <= rem.len(),
        left == rem.skip(taken_by(made) as int),
        call.state == if made.len() == 0 {
            first
        } else {
            made.last().after
        },
        call.input == left,
        call.flush == if call.input.len() == 0 {
            Flush::Finish
        } else {
            Flush::More
        },
        call.input.len() > 0 || end == SourceEnd::Eof,
        call.room == room,
        call.output.len() == room,
        call.progress.consumed <= call.input.len(),
        call.progress.written <= room,
    ensures
        forall|i: int|
            0 <= i < made.len() + 1 ==> #[trigger] handed(made.push(call), i, first, rem, end, room),
        taken_by(made.push(call)) == taken_by(made) + call.progress.consumed,
        made.push(call).last() == call,
{
    let more = made.push(call);
    assert(more.drop_last() =~= made);
    assert forall|i: int| 0 <= i < made.len() + 1 implies #[trigger] handed(
        more,
        i,
        first,
        rem,
        end,
        room,
    ) by {
        if i < made.len() {
            assert(handed(made, i, first, rem, end, room));
            assert(more.take(i) =~= made.take(i));
        } else {
            assert(more.take(i) =~= made);
        }
    }
}

/// A reader of plain bytes out of a deflate stream.
pub struct DeflateDecoder {
    state: Box<InflateState>,
    calls: Ghost<Seq<Call<InflateState>>>,
}

impl DeflateDecoder {
    /// The state of the decompressor.
    pub closed spec fn state(&self) -> InflateState {
        *self.state
    }

    /// Every call of the decompressor for the deflate stream that the
    /// reader is in: those made since the reader was made or last put at
    /// the start of a stream.
    pub closed spec fn calls(&self) -> Seq<Call<InflateState>> {
        self.calls@
    }

    /// What a read does to this reader, the source and the output buffer.
    ///
    /// The read makes calls of the decompressor, each with the answer that
    /// the decompressor gives in the state that it is in ([`inflated`]),
    /// and the calls, the state afterwards, the source, the output and the
    /// answer of the read hang together as [`pumped`] says.
    pub open spec fn was_read(
        &self,
        reader: &Source<'_>,
        out_before: Seq<u8>,
        after: &DeflateDecoder,
        reader_after: &Source<'_>,
        out_after: Seq<u8>,
        r: Result<usize, GzError>,
    ) -> bool {
        exists|made: Seq<Call<InflateState>>|
            {
                &&& #[trigger] grown_by(self.calls(), after.calls(), made)
                &&& forall|i: int| 0 <= i < made.len() ==> inflated(#[trigger] made[i])
                &&& pumped(
                    made,
                    self.state(),
                    after.state(),
                    reader,
                    reader_after,
                    out_before,
                    out_after,
                    r,
                )
            }
    }

    /// A reader at the start of a deflate stream: its decompressor is new
    /// and has not been called.
    pub fn new() -> (decoder: DeflateDecoder)
        ensures
            decoder.calls() == Seq::<Call<InflateState>>::empty(),
    {
        DeflateDecoder { state: inflate_new(), calls: Ghost(Seq::empty()) }
    }

    /// Puts the reader at the start of a new deflate stream: its
    /// decompressor is made as new, and the calls for the stream before
    /// are forgotten.
    pub fn reset_data(&mut self)
        ensures
            final(self).state() == inflate_reset_result(old(self).state()),
            final(self).calls() == Seq::<Call<InflateState>>::empty(),
    {
        inflate_reset(&mut self.state);
        self.calls = Ghost(Seq::empty());
    }

    /// Decompresses into the front of `into`, from what the source has
    /// ready, and takes from the source what the decompressor used and no
    /// more.
    ///
    /// The read calls the decompressor as [`DeflateDecoder::was_read`]
    /// says, and its answer follows from the answers of the decompressor
    /// as it says there. A source that has run dry and is not over is
    /// answered with its error, without a call. See [`read_outcome`] for
    /// what this comes to, whatever the decompressor answered.
    pub fn read(&mut self, reader: &mut Source<'_>, into: &mut [u8]) -> (r: Result<usize, GzError>)
        requires
            old(reader).wf(),
        ensures
            final(into)@.len() == old(into)@.len(),
            read_outcome(old(reader), final(reader), old(into)@.len(), r),
            old(self).was_read(old(reader), old(into)@, final(self), final(reader), final(into)@, r),
    {
        let ghost mut made: Seq<Call<InflateState>> = Seq::empty();
        let ghost rem = reader.remaining();
        let ghost room = into@.len();
        proof {
            assert(self.calls() =~= old(self).calls() + made);
        }
        loop
            invariant
                moved_on(old(reader), reader),
                into@.len() == old(into)@.len(),
                rem == old(reader).remaining(),
                room == old(into)@.len(),
                self.calls() == old(self).calls() + made,
                forall|i: int|
                    0 <= i < made.len() ==> #[trigger] handed(
                        made,
                        i,
                        old(self).state(),
                        rem,
                        old(reader).end(),
                        room,
                    ),
                forall|i: int| 0 <= i < made.len() ==> inflated(#[trigger] made[i]),
                forall|i: int| 0 <= i < made.len() ==> (#[trigger] made[i]).followup() == Followup::Again,
                reader.taken() == old(reader).taken() + taken_by(made),
                self.state() == if made.len() == 0 {
                    old(self).state()
                } else {
                    made.last().after
                },
                into@ == if made.len() == 0 {
                    old(into)@
                } else {
                    made.last().output
                },
            decreases reader.remaining().len(),
        {
            let input: &[u8] = match reader.fill_buf() {
                Err(e) => {
                    proof {
                        assert(grown_by(old(self).calls(), self.calls(), made));
                    }
                    return Err(e);
                },
                Ok(input) => input,
            };
            let eof: bool = input.len() == 0;
            let flush = if eof {
                Flush::Finish
            } else {
                Flush::More
            };
            let ghost found = self.state();
            let p = inflate_call(&mut self.state, input, into, flush);
            let ghost call = Call {
                state: found,
                input: input@,
                room,
                flush,
                progress: p,
                output: into@,
                after: self.state(),
            };
            proof {
                assert(input@ =~= reader.remaining());
                assert(reader.remaining() =~= rem.skip(taken_by(made) as int));
                lemma_one_more_call(
                    made,
                    call,
                    old(self).state(),
                    rem,
                    old(reader).end(),
                    room,
                    reader.remaining(),
                );
                assert(inflated(call));
                made = made.push(call);
                self.calls@ = self.calls@.push(call);
                assert(self.calls() =~= old(self).calls() + made);
            }
            reader.consume(p.consumed);
            match followup(p, eof, into.len() > 0) {
                Followup::Again => {},
                Followup::Done(n) => {
                    proof {
                        assert(grown_by(old(self).calls(), self.calls(), made));
                    }
                    return Ok(n);
                },
                Followup::Failed => {
                    proof {
                        assert(grown_by(old(self).calls(), self.calls(), made));
                    }
                    return Err(GzError::BadDeflate);
                },
            }
        }
    }
}

/// A reader of a deflate stream out of plain bytes, with a checksum over
/// the plain bytes that it has taken.
pub struct DeflateEncoder {
    state: Box<miniz_oxide::deflate::core::CompressorOxide>,
    crc: Crc,
    calls: Ghost<Seq<Call<miniz_oxide::deflate::core::CompressorOxide>>>,
}

impl DeflateEncoder {
    /// The checksum is sound.
    pub closed spec fn wf(&self) -> bool {
        self.crc.wf()
    }

    /// Every plain byte taken from the source so far.
    pub closed spec fn plain(&self) -> Seq<u8> {
        self.crc.seen()
    }

    /// The state of the compressor.
    pub closed spec fn state(&self) -> miniz_oxide::deflate::core::CompressorOxide {
        *self.state
    }

    /// Every call of the compressor since the reader was made.
    pub closed spec fn calls(&self) -> Seq<Call<miniz_oxide::deflate::core::CompressorOxide>> {
        self.calls@
    }

    /// What a read does to this reader, the source and the output buffer.
    ///
    /// The read makes calls of the compressor, each with the answer that
    /// the compressor gives in the state that it is in ([`deflated`]), and
    /// the calls, the state afterwards, the source, the output and the
    /// answer of the read hang together as [`pumped`] says. What the calls
    /// took from the source has been taken into the checksum.
    pub open spec fn was_read(
        &self,
        reader: &Source<'_>,
        out_before: Seq<u8>,
        after: &DeflateEncoder,
        reader_after: &Source<'_>,
        out_after: Seq<u8>,
        r: Result<usize, GzError>,
    ) -> bool {
        &&& after.plain() == self.plain() + reader.remaining().take(
            reader_after.taken() - reader.taken(),
        )
        &&& exists|made: Seq<Call<miniz_oxide::deflate::core::CompressorOxide>>|
            {
                &&& #[trigger] grown_by(self.calls(), after.calls(), made)
                &&& forall|i: int| 0 <= i < made.len() ==> deflated(#[trigger] made[i])
                &&& pumped(
                    made,
                    self.state(),
                    after.state(),
                    reader,
                    reader_after,
                    out_before,
                    out_after,
                    r,
                )
            }
    }

    /// A reader that compresses at `lvl`: its compressor is a new one for
    /// that level and has not been called, and no plain byte has been
    /// taken.
    pub fn new(lvl: Compression) -> (encoder: DeflateEncoder)
        ensures
            encoder.wf(),
            encoder.state() == deflate_fresh(lvl.spec_level() as u8),
            encoder.plain() == Seq::<u8>::empty(),
            encoder.calls() == Seq::<Call<miniz_oxide::deflate::core::CompressorOxide>>::empty(),
    {
        let level: u32 = lvl.level();
        DeflateEncoder {
            state: deflate_new(level as u8),
            crc: Crc::new(),
            calls: Ghost(Seq::empty()),
        }
    }

    /// The checksum over the plain bytes taken.
    pub fn crc(&self) -> (crc: &Crc)
        requires
            self.wf(),
        ensures
            crc.wf(),
            crc.seen() == self.plain(),
    {
        &self.crc
    }

    /// Compresses into the front of `into`, from what the source has
    /// ready. What the compressor used is taken from the source and into
    /// the checksum.
    ///
    /// The read calls the compressor as [`DeflateEncoder::was_read`] says,
    /// and its answer follows from the answers of the compressor as it
    /// says there. A source that has run dry and is not over is answered
    /// with its error, without a call. See [`read_outcome`] for what this
    /// comes to, whatever the compressor answered.
    pub fn read(&mut self, reader: &mut Source<'_>, into: &mut [u8]) -> (r: Result<usize, GzError>)
        requires
            old(self).wf(),
            old(reader).wf(),
        ensures
            final(self).wf(),
            final(into)@.len() == old(into)@.len(),
            read_outcome(old(reader), final(reader), old(into)@.len(), r),
            final(self).plain() == old(self).plain() + old(reader).remaining().take(
                final(reader).taken() - old(reader).taken(),
            ),
            old(self).was_read(old(reader), old(into)@, final(self), final(reader), final(into)@, r),
    {
        let ghost mut made: Seq<Call<miniz_oxide::deflate::core::CompressorOxide>> = Seq::empty();
        let ghost rem = reader.remaining();
        let ghost room = into@.len();
        proof {
            assert(old(reader).remaining().take(0) =~= Seq::<u8>::empty());
            assert(self.plain() + Seq::<u8>::empty() =~= self.plain());
            assert(self.calls() =~= old(self).calls() + made);
        }
        loop
            invariant
                self.wf(),
                moved_on(old(reader), reader),
                into@.len() == old(into)@.len(),
                self.plain() == old(self).plain() + old(reader).remaining().take(
                    reader.taken() - old(reader).taken(),
                ),
                rem == old(reader).remaining(),
                room == old(into)@.len(),
                self.calls() == old(self).calls() + made,
                forall|i: int|
                    0 <= i < made.len() ==> #[trigger] handed(
                        made,
                        i,
                        old(self).state(),
                        rem,
                        old(reader).end(),
                        room,
                    ),
                forall|i: int| 0 <= i < made.len() ==> deflated(#[trigger] made[i]),
                forall|i: int| 0 <= i < made.len() ==> (#[trigger] made[i]).followup() == Followup::Again,
                reader.taken() == old(reader).taken() + taken_by(made),
                self.state() == if made.len() == 0 {
                    old(self).state()
                } else {
                    made.last().after
                },
                into@ == if made.len() == 0 {
                    old(into)@
                } else {
                    made.last().output
                },
            decreases reader.remaining().len(),
        {
            let input: &[u8] = match reader.fill_buf() {
                Err(e) => {
                    proof {
                        assert(grown_by(old(self).calls(), self.calls(), made));
                    }
                    return Err(e);
                },
                Ok(input) => input,
            };
            let eof: bool = input.len() == 0;
            let flush = if eof {
                Flush::Finish
            } else {
                Flush::More
            };
            let ghost found = self.state();
            let p = deflate_call(&mut self.state, input, into, flush);
            let ghost call = Call {
                state: found,
                input: input@,
                room,
                flush,
                progress: p,
                output: into@,
                after: self.state(),
            };
            proof {
                assert(input@ =~= reader.remaining());
                assert(reader.remaining() =~= rem.skip(taken_by(made) as int));
                lemma_one_more_call(
                    made,
                    call,
                    old(self).state(),
                    rem,
                    old(reader).end(),
                    room,
                    reader.remaining(),
                );
                assert(deflated(call));
                made = made.push(call);
                self.calls@ = self.calls@.push(call);
                assert(self.calls() =~= old(self).calls() + made);
            }
            let used = slice_subrange(input, 0, p.consumed);
            self.crc.update(used);
            let ghost before = *reader;
            reader.consume(p.consumed);
            proof {
                let k = before.taken() - old(reader).taken();
                assert(before.remaining() =~= old(reader).remaining().skip(k));
                assert(old(reader).remaining().take(k + p.consumed) =~= old(reader).remaining().take(
                    k,
                ) + before.remaining().take(p.consumed as int));
                assert(self.plain() =~= old(self).plain() + old(reader).remaining().take(
                    reader.taken() - old(reader).taken(),
                ));
            }
            match followup(p, eof, into.len() > 0) {
                Followup::Again => {},
                Followup::Done(n) => {
                    proof {
                        assert(grown_by(old(self).calls(), self.calls(), made));
                    }
                    return Ok(n);
                },
                Followup::Failed => {
                    proof {
                        assert(grown_by(old(self).calls(), self.calls(), made));
                    }
                    return Err(GzError::BadDeflate);
                },
            }
        }
    }
}

} // verus!
