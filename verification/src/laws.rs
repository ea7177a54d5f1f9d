//! What holds between the parts of the codec: between the layout of a
//! header and its parsing, between a parse and a longer input, and between
//! the trailer that is written and the trailer that is checked.

use vstd::prelude::*;
use crate::crc::crc32;
use crate::crc::wrapped_len;
use crate::decoder::follows;
use crate::deflate::deflated;
use crate::deflate::grown_by;
use crate::deflate::handed;
use crate::deflate::inflated;
use crate::deflate::pumped;
use crate::deflate::Call;
use crate::deflate::DeflateDecoder;
use crate::encoder::GzEncoder;
use miniz_oxide::inflate::stream::InflateState;
use crate::decoder::is_run;
use crate::decoder::moment;
use crate::decoder::trailer_crc;
use crate::decoder::Moment;
use crate::decoder::GzDecoder;
use crate::decoder::StateView;
use crate::decoder::Turn;
use crate::error::GzError;
use crate::source::Source;
use crate::source::SourceEnd;
use crate::decoder::trailer_len;
use crate::decoder::trailer_matches;
use crate::encoder::trailer_of;
use crate::header::first_zero;
use crate::header::le16;
use crate::header::le32;
use crate::header::lemma_complete_len;
use crate::header::lemma_first_zero;
use crate::header::parse_extra;
use crate::header::parse_header;
use crate::header::parse_terminated;
use crate::header::terminated;
use crate::header::u16_of_le;
use crate::header::u32_of_le;
use crate::header::Field;
use crate::header::HeaderView;
use crate::header::Parsed;
use crate::header::FCOMMENT;
use crate::header::FEXTRA;
use crate::header::FHCRC;
use crate::header::FNAME;

verus! {

/// Four bytes laid out from a number stand for that number.
pub proof fn lemma_le32_round_trip(x: u32)
    ensures
        le32(x).len() == 4,
        u32_of_le(le32(x)[0], le32(x)[1], le32(x)[2], le32(x)[3]) == x,
{
    let b0 = (x & 0xff) as u8;
    let b1 = ((x >> 8) & 0xff) as u8;
    let b2 = ((x >> 16) & 0xff) as u8;
    let b3 = ((x >> 24) & 0xff) as u8;
    assert(((x & 0xff) as u8 as u32) | ((((x >> 8) & 0xff) as u8 as u32) << 8) | ((((x >> 16)
        & 0xff) as u8 as u32) << 16) | ((((x >> 24) & 0xff) as u8 as u32) << 24) == x)
        by (bit_vector);
}

/// Two bytes laid out from a number stand for that number.
pub proof fn lemma_le16_round_trip(x: u16)
    ensures
        le16(x).len() == 2,
        u16_of_le(le16(x)[0], le16(x)[1]) == x,
{
    assert(((x & 0xff) as u8 as u16) | (((x >> 8) as u8 as u16) << 8) == x) by (bit_vector);
}

/// Each flag bit of a record is set exactly where the record has the
/// field, and the bit for a checksum of the header is never set.
pub proof fn lemma_flags(h: HeaderView)
    ensures
        (h.flags() & FEXTRA != 0) == (h.extra is Some),
        (h.flags() & FNAME != 0) == (h.filename is Some),
        (h.flags() & FCOMMENT != 0) == (h.comment is Some),
        h.flags() & FHCRC == 0,
{
    let e: u8 = if h.extra is Some { 4 } else { 0 };
    let n: u8 = if h.filename is Some { 8 } else { 0 };
    let c: u8 = if h.comment is Some { 16 } else { 0 };
    assert((e == 4 || e == 0) && (n == 8 || n == 0) && (c == 16 || c == 0) ==> (((e | n | c) & 4
        != 0) == (e == 4)) && (((e | n | c) & 8 != 0) == (n == 8)) && (((e | n | c) & 16 != 0) == (c
        == 16)) && ((e | n | c) & 2 == 0)) by (bit_vector);
}

/// Where the first zero byte at or after `at` is known, `first_zero` finds
/// it.
pub proof fn lemma_first_zero_is(s: Seq<u8>, at: int, zero: int)
    requires
        0 <= at <= zero < s.len(),
        s[zero] == 0,
        forall|i: int| at <= i < zero ==> s[i] != 0,
    ensures
        first_zero(s, at) == zero,
    decreases zero - at,
{
    if at < zero {
        lemma_first_zero_is(s, at + 1, zero);
    }
}

/// A terminated field that stands at `at` in `s` is parsed as it was laid
/// out, and the parse ends where the field does.
pub proof fn lemma_terminated_round_trip(s: Seq<u8>, field: Option<Seq<u8>>, at: int)
    requires
        0 <= at,
        at + terminated(field).len() <= s.len(),
        s.subrange(at, at + terminated(field).len()) == terminated(field),
        field is Some ==> !field->Some_0.contains(0u8),
    ensures
        parse_terminated(s, field is Some, at) == Some(
            Field { value: field, next: at + terminated(field).len() },
        ),
{
    match field {
        None => {},
        Some(bytes) => {
            let part = s.subrange(at, at + bytes.len() as int + 1);
            assert(part == bytes.push(0u8));
            assert forall|i: int| at <= i < at + bytes.len() implies s[i] != 0 by {
                assert(s[i] == part[i - at]);
                assert(part[i - at] == bytes[i - at]);
                assert(bytes.contains(bytes[i - at]));
            }
            assert(s[at + bytes.len()] == part[bytes.len() as int]);
            lemma_first_zero_is(s, at, at + bytes.len() as int);
            assert(s.subrange(at, at + bytes.len() as int) =~= bytes) by {
                assert forall|i: int| 0 <= i < bytes.len() implies s[at + i] == bytes[i] by {
                    assert(s[at + i] == part[i]);
                }
            }
        },
    }
}

/// Header round trip: the layout of an encodable record, whatever follows
/// it, parses as that record, and the parse takes exactly the layout.
pub proof fn lemma_header_round_trip(h: HeaderView, xfl: u8, rest: Seq<u8>)
    requires
        h.encodable(),
    ensures
        parse_header(h.bytes(xfl) + rest) == Parsed::Complete(h, h.bytes(xfl).len() as int),
{
    let s = h.bytes(xfl) + rest;
    let fixed = h.fixed_part(xfl);
    let extra = h.extra_part();
    let name = terminated(h.filename);
    let comment = terminated(h.comment);
    assert(fixed.len() == 10);
    assert(h.bytes(xfl) == fixed + extra + name + comment);
    assert forall|i: int| 0 <= i < 10 implies s[i] == fixed[i] by {}
    lemma_flags(h);
    lemma_le32_round_trip(h.mtime);
    assert(s[4] == le32(h.mtime)[0] && s[5] == le32(h.mtime)[1] && s[6] == le32(h.mtime)[2] && s[7]
        == le32(h.mtime)[3]);
    assert(s[3] == h.flags());
    assert(s[8] == xfl && s[9] == h.operating_system);

    let a = 10 + extra.len();
    assert(s.subrange(10, a as int) =~= extra);
    match h.extra {
        None => {},
        Some(bytes) => {
            let len = bytes.len() as u16;
            lemma_le16_round_trip(len);
            assert(s[10] == extra[0] && s[11] == extra[1]);
            assert(extra[0] == le16(len)[0] && extra[1] == le16(len)[1]);
            assert(s.subrange(12, 12 + bytes.len() as int) =~= bytes) by {
                assert forall|i: int| 0 <= i < bytes.len() implies s[12 + i] == bytes[i] by {
                    assert(s[12 + i] == extra[2 + i]);
                }
            }
        },
    }
    assert(parse_extra(s, s[3], 10) == Some(Field { value: h.extra, next: a as int }));

    let b = a + name.len();
    assert(s.subrange(a as int, b as int) =~= name);
    lemma_terminated_round_trip(s, h.filename, a as int);
    let c = b + comment.len();
    assert(s.subrange(b as int, c as int) =~= comment);
    lemma_terminated_round_trip(s, h.comment, b as int);
    assert(c == h.bytes(xfl).len());
    let parsed = HeaderView {
        extra: h.extra,
        filename: h.filename,
        comment: h.comment,
        operating_system: s[9],
        mtime: u32_of_le(s[4], s[5], s[6], s[7]),
    };
    assert(parsed == h);
}

/// A zero byte found in `a` is found at the same place in `a + b`.
pub proof fn lemma_first_zero_extend(a: Seq<u8>, b: Seq<u8>, at: int)
    requires
        0 <= at <= a.len(),
        first_zero(a, at) < a.len(),
    ensures
        first_zero(a + b, at) == first_zero(a, at),
{
    lemma_first_zero(a, at);
    let zero = first_zero(a, at);
    assert forall|i: int| at <= i < zero implies (a + b)[i] != 0 by {
        assert((a + b)[i] == a[i]);
    }
    assert((a + b)[zero] == a[zero]);
    lemma_first_zero_is(a + b, at, zero);
}

/// A terminated field parsed in `a` is parsed alike in `a + b`.
pub proof fn lemma_terminated_extend(a: Seq<u8>, b: Seq<u8>, present: bool, at: int)
    requires
        0 <= at <= a.len(),
        parse_terminated(a, present, at) is Some,
    ensures
        parse_terminated(a + b, present, at) == parse_terminated(a, present, at),
        at <= parse_terminated(a, present, at)->Some_0.next <= a.len(),
{
    if present {
        lemma_first_zero(a, at);
        lemma_first_zero_extend(a, b, at);
        assert((a + b).subrange(at, first_zero(a, at)) =~= a.subrange(at, first_zero(a, at)));
    }
}

/// Parsing is settled by the bytes that it has read: an outcome other than
/// "too short" is the outcome for every longer input too.
///
/// So a header that arrives in pieces is parsed, once enough of it is
/// there, as the header of the whole stream is.
pub proof fn lemma_parse_extend(a: Seq<u8>, b: Seq<u8>)
    requires
        !(parse_header(a) is Short),
    ensures
        parse_header(a + b) == parse_header(a),
{
    let s = a + b;
    assert forall|i: int| 0 <= i < a.len() implies s[i] == a[i] by {}
    if !(a[0] != 0x1f || a[1] != 0x8b || a[2] != 8) {
        let flg = a[3];
        let extra = parse_extra(a, flg, 10)->Some_0;
        if flg & FEXTRA != 0 {
            assert(s.subrange(12, extra.next) =~= a.subrange(12, extra.next));
        }
        assert(parse_extra(s, flg, 10) == parse_extra(a, flg, 10));
        lemma_terminated_extend(a, b, flg & FNAME != 0, extra.next);
        let filename = parse_terminated(a, flg & FNAME != 0, extra.next)->Some_0;
        lemma_terminated_extend(a, b, flg & FCOMMENT != 0, filename.next);
        let comment = parse_terminated(a, flg & FCOMMENT != 0, filename.next)->Some_0;
        let end = comment.next;
        if flg & FHCRC != 0 {
            assert(s.take(end) =~= a.take(end));
        }
    }
}

/// No proper start of a header is taken for a header or refused: where
/// the bytes up to `len` are a whole header, fewer bytes are too short.
pub proof fn lemma_prefix_is_short(a: Seq<u8>, b: Seq<u8>)
    requires
        parse_header(a + b) is Complete,
        a.len() < parse_header(a + b)->Complete_1,
    ensures
        parse_header(a) is Short,
{
    if !(parse_header(a) is Short) {
        lemma_parse_extend(a, b);
        lemma_complete_len(a);
    }
}

/// The trailer that is written for plain bytes is a trailer that matches
/// them.
pub proof fn lemma_trailer_round_trip(plain: Seq<u8>)
    ensures
        trailer_of(plain).len() == 8,
        trailer_crc(trailer_of(plain)) == crc32(plain),
        trailer_len(trailer_of(plain)) == wrapped_len(plain),
        trailer_matches(trailer_of(plain), plain),
{
    let t = trailer_of(plain);
    lemma_le32_round_trip(crc32(plain));
    lemma_le32_round_trip(wrapped_len(plain));
    let lo = le32(crc32(plain));
    let hi = le32(wrapped_len(plain));
    assert(t[0] == lo[0] && t[1] == lo[1] && t[2] == lo[2] && t[3] == lo[3]);
    assert(t[4] == hi[0] && t[5] == hi[1] && t[6] == hi[2] && t[7] == hi[3]);
}

/// A trailer matches plain bytes only if it is the one that is written
/// for them.
pub proof fn lemma_trailer_is_unique(t: Seq<u8>, plain: Seq<u8>)
    requires
        t.len() == 8,
        trailer_matches(t, plain),
    ensures
        t == trailer_of(plain),
{
    let b0 = t[0];
    let b1 = t[1];
    let b2 = t[2];
    let b3 = t[3];
    let x = u32_of_le(b0, b1, b2, b3);
    assert(((x & 0xff) as u8) == b0 && (((x >> 8) & 0xff) as u8) == b1 && (((x >> 16) & 0xff) as u8)
        == b2 && (((x >> 24) & 0xff) as u8) == b3) by (bit_vector)
        requires
            x == (b0 as u32) | ((b1 as u32) << 8) | ((b2 as u32) << 16) | ((b3 as u32) << 24),
    ;
    let c0 = t[4];
    let c1 = t[5];
    let c2 = t[6];
    let c3 = t[7];
    let y = u32_of_le(c0, c1, c2, c3);
    assert(((y & 0xff) as u8) == c0 && (((y >> 8) & 0xff) as u8) == c1 && (((y >> 16) & 0xff) as u8)
        == c2 && (((y >> 24) & 0xff) as u8) == c3) by (bit_vector)
        requires
            y == (c0 as u32) | ((c1 as u32) << 8) | ((c2 as u32) << 16) | ((c3 as u32) << 24),
    ;
    assert(t =~= trailer_of(plain));
}


/// Idempotent end: once a read with room in its output has answered zero,
/// every later read answers zero, takes nothing from the source, writes
/// nothing into its output, and leaves the decoder at its end.
pub proof fn lemma_end_is_idempotent(
    first: GzDecoder,
    reader: Source<'_>,
    out_before: Seq<u8>,
    second: GzDecoder,
    reader_after: Source<'_>,
    out: Seq<u8>,
    later_reader: Source<'_>,
    later_out_before: Seq<u8>,
    third: GzDecoder,
    later_reader_after: Source<'_>,
    later_out: Seq<u8>,
    later: Result<usize, GzError>,
)
    requires
        out_before.len() > 0,
        first.read_result(&reader, out_before, &second, &reader_after, out, Ok(0)),
        second.read_result(&later_reader, later_out_before, &third, &later_reader_after, later_out, later),
    ensures
        later == Ok::<usize, GzError>(0),
        third.state() == StateView::End,
        later_reader_after == later_reader,
        later_out == later_out_before,
{
}

/// A fatal error is reported once: after a read has failed with anything
/// but would-block, every later read answers zero.
pub proof fn lemma_error_is_latched(
    first: GzDecoder,
    reader: Source<'_>,
    out_before: Seq<u8>,
    second: GzDecoder,
    reader_after: Source<'_>,
    out: Seq<u8>,
    e: GzError,
    later_reader: Source<'_>,
    later_out_before: Seq<u8>,
    third: GzDecoder,
    later_reader_after: Source<'_>,
    later_out: Seq<u8>,
    later: Result<usize, GzError>,
)
    requires
        e != GzError::WouldBlock,
        first.read_result(&reader, out_before, &second, &reader_after, out, Err(e)),
        second.read_result(&later_reader, later_out_before, &third, &later_reader_after, later_out, later),
    ensures
        later == Ok::<usize, GzError>(0),
        third.state() == StateView::End,
{
}

/// A member counts as completed only by a step on a full trailer that is
/// the trailer of what was delivered: its checksum and its length.
pub proof fn lemma_completed_is_checked(
    before: GzDecoder,
    reader: Source<'_>,
    out_before: Seq<u8>,
    after: GzDecoder,
    reader_after: Source<'_>,
    out: Seq<u8>,
    ret: Turn,
)
    requires
        before.wf(),
        before.stepped(&reader, out_before, &after, &reader_after, out, ret),
        after.completed() != before.completed(),
    ensures
        before.state() is Finished,
        before.state()->Finished_0 == 8,
        before.state()->Finished_1 == trailer_of(before.delivered()),
        after.completed() == before.completed() + 1,
{
    lemma_trailer_is_unique(before.state()->Finished_1, before.delivered());
}

/// Behind a member: a decoder of one member that has completed it is at
/// its end. A decoder of all members that has completed one is in the
/// header of a next member, with nothing kept and nothing delivered, where
/// the source has bytes ready, and at its end where the source is over.
pub proof fn lemma_behind_a_member(
    before: GzDecoder,
    reader: Source<'_>,
    out_before: Seq<u8>,
    after: GzDecoder,
    reader_after: Source<'_>,
    out: Seq<u8>,
    ret: Turn,
)
    requires
        before.wf(),
        before.stepped(&reader, out_before, &after, &reader_after, out, ret),
        after.completed() != before.completed(),
    ensures
        ret is None,
        reader_after == reader,
        after.state() == if before.is_multi() && reader.remaining().len() > 0 {
            StateView::Header(Seq::<u8>::empty())
        } else {
            StateView::End
        },
        before.is_multi() && reader.remaining().len() > 0 ==> after.delivered().len() == 0,
        before.is_multi() && reader.remaining().len() == 0 ==> reader.end() == SourceEnd::Eof,
{
}

/// A header in two pieces: where a step in a header has kept what the
/// source had and asked again, the next step decides as one step on both
/// pieces would have.
pub proof fn lemma_header_in_pieces(
    before: GzDecoder,
    first: Source<'_>,
    between: GzDecoder,
    first_after: Source<'_>,
    second: Source<'_>,
    after: GzDecoder,
    second_after: Source<'_>,
    ret: Turn,
)
    requires
        before.state() is Header,
        before.header_step(&first, &between, &first_after, Some(Err(GzError::WouldBlock))),
        between.header_step(&second, &after, &second_after, ret),
    ensures
        match parse_header(before.state()->Header_0 + (first.remaining() + second.remaining())) {
            Parsed::Complete(header, len) => {
                &&& ret is None
                &&& after.state() == StateView::Body
                &&& after.header_view() == Some(header)
            },
            Parsed::Invalid(e) => {
                &&& ret == Some(Err::<usize, GzError>(e))
                &&& after.state() == StateView::End
            },
            Parsed::Short => {
                &&& after.state() == if second.end() == SourceEnd::Failed {
                    StateView::End
                } else {
                    StateView::Header(
                        before.state()->Header_0 + (first.remaining() + second.remaining()),
                    )
                }
            },
        },
{
    let buf = before.state()->Header_0;
    assert(buf + first.remaining() + second.remaining() =~= buf + (first.remaining()
        + second.remaining()));
}

/// A trailer in two pieces: two steps that each take what the source has
/// ready leave the trailer as one step on both pieces would have.
pub proof fn lemma_trailer_in_pieces(
    before: GzDecoder,
    first: Source<'_>,
    between: GzDecoder,
    first_after: Source<'_>,
    second: Source<'_>,
    after: GzDecoder,
    second_after: Source<'_>,
)
    requires
        before.wf(),
        before.state() is Finished,
        first.remaining().len() > 0,
        second.remaining().len() > 0,
        before.state()->Finished_0 + first.remaining().len() < 8,
        before.trailer_step(&first, &between, &first_after, None),
        between.trailer_step(&second, &after, &second_after, None),
    ensures
        ({
            let pos = before.state()->Finished_0 as int;
            let t = before.state()->Finished_1;
            let rem = first.remaining() + second.remaining();
            let k = if 8 - pos <= rem.len() {
                8 - pos
            } else {
                rem.len() as int
            };
            after.state() == StateView::Finished(
                (pos + k) as nat,
                t.take(pos) + rem.take(k) + t.skip(pos + k),
            )
        }),
{
    let pos = before.state()->Finished_0 as int;
    let t = before.state()->Finished_1;
    let one = first.remaining();
    let two = second.remaining();
    let rem = one + two;
    let mid = t.take(pos) + one.take(one.len() as int) + t.skip(pos + one.len());
    let k2 = if 8 - (pos + one.len()) <= two.len() {
        8 - (pos + one.len())
    } else {
        two.len() as int
    };
    let k = one.len() + k2;
    assert(mid.take(pos + one.len()) + two.take(k2) + mid.skip(pos + one.len() + k2) =~= t.take(pos)
        + rem.take(k) + t.skip(pos + k));
}


/// The run of a read by a decoder at its end is one step long, and its
/// answer is zero.
pub proof fn lemma_run_at_end(run: Seq<Moment>, r: Result<usize, GzError>)
    requires
        is_run(run, r),
        run.first().decoder.state() == StateView::End,
    ensures
        run.len() == 2,
        r == Ok::<usize, GzError>(0),
        run.last().decoder.state() == StateView::End,
        run.last().taken == run.first().taken,
        run.last().out == run.first().out,
{
    if run.len() > 2 {
        assert(follows(run, 0, None));
    }
}

/// The run of a read by a decoder in a header that is not whole is one
/// step long. Where the bytes cannot be a header, the read answers with
/// the error of the parse and the decoder is at its end. Where they end too
/// early, the read answers would-block and the decoder keeps them all; but
/// a failed source ends the decoder.
pub proof fn lemma_run_in_header(run: Seq<Moment>, r: Result<usize, GzError>, reader: Source<'_>)
    requires
        is_run(run, r),
        run.first() == moment(&run.first().decoder, &reader, run.first().out),
        run.first().decoder.state() is Header,
        !(parse_header(run.first().decoder.state()->Header_0 + reader.remaining()) is Complete),
    ensures
        run.len() == 2,
        match parse_header(run.first().decoder.state()->Header_0 + reader.remaining()) {
            Parsed::Invalid(e) => {
                &&& r == Err::<usize, GzError>(e)
                &&& run.last().decoder.state() == StateView::End
            },
            _ => if reader.end() == SourceEnd::Failed {
                &&& r == Err::<usize, GzError>(GzError::Source)
                &&& run.last().decoder.state() == StateView::End
            } else {
                &&& r == Err::<usize, GzError>(GzError::WouldBlock)
                &&& run.last().decoder.state() == StateView::Header(
                    run.first().decoder.state()->Header_0 + reader.remaining(),
                )
            },
        },
{
    if run.len() > 2 {
        assert(follows(run, 0, None));
    }
}


/// A decoder made on the layout of an encodable record, whatever follows
/// it, is in the body, has that record for its header, and has taken the
/// layout from the source and no more.
pub proof fn lemma_decoder_takes_layout(
    h: HeaderView,
    xfl: u8,
    rest: Seq<u8>,
    decoder: GzDecoder,
    multi: bool,
    before: Source<'_>,
    after: Source<'_>,
)
    requires
        h.encodable(),
        before.remaining() == h.bytes(xfl) + rest,
        decoder.started(multi, &before, &after),
    ensures
        decoder.state() == StateView::Body,
        decoder.header_view() == Some(h),
        after.taken() == before.taken() + h.bytes(xfl).len(),
        after.remaining() == rest,
{
    lemma_header_round_trip(h, xfl, rest);
    let n = h.bytes(xfl).len() as int;
    assert(after.remaining() =~= before.remaining().skip(n));
    assert((h.bytes(xfl) + rest).skip(n) =~= rest);
}

/// A read through the decompressor on a source that has run dry and is
/// not over makes no call: its answer is the error of the source, and
/// decompressor, source and output are left as they were.
pub proof fn lemma_dry_source_is_not_asked(
    before: DeflateDecoder,
    reader: Source<'_>,
    out_before: Seq<u8>,
    after: DeflateDecoder,
    reader_after: Source<'_>,
    out: Seq<u8>,
    r: Result<usize, GzError>,
)
    requires
        reader.remaining().len() == 0,
        reader.end() != SourceEnd::Eof,
        before.was_read(&reader, out_before, &after, &reader_after, out, r),
    ensures
        r is Err,
        r == reader.end().dry(),
        after.calls() == before.calls(),
        after.state() == before.state(),
        reader_after.taken() == reader.taken(),
        out == out_before,
{
    let made = choose|made: Seq<Call<InflateState>>|
        {
            &&& #[trigger] grown_by(before.calls(), after.calls(), made)
            &&& forall|i: int| 0 <= i < made.len() ==> inflated(#[trigger] made[i])
            &&& pumped(
                made,
                before.state(),
                after.state(),
                &reader,
                &reader_after,
                out_before,
                out,
                r,
            )
        };
    if made.len() > 0 {
        assert(handed(
            made,
            0,
            before.state(),
            reader.remaining(),
            reader.end(),
            out_before.len(),
        ));
    }
    assert(before.calls() + made =~= before.calls());
}

/// Would-block in a body: a step in the body with room in the output, on
/// a source that has nothing ready for now, answers would-block and leaves
/// the decoder in the body, with nothing delivered and the decompressor
/// not asked.
pub proof fn lemma_body_would_block(
    before: GzDecoder,
    reader: Source<'_>,
    out_before: Seq<u8>,
    after: GzDecoder,
    reader_after: Source<'_>,
    out: Seq<u8>,
    ret: Turn,
)
    requires
        before.state() == StateView::Body,
        out_before.len() > 0,
        reader.remaining().len() == 0,
        reader.end() == SourceEnd::WouldBlock,
        before.stepped(&reader, out_before, &after, &reader_after, out, ret),
    ensures
        ret == Some(Err::<usize, GzError>(GzError::WouldBlock)),
        after.state() == StateView::Body,
        after.delivered() == before.delivered(),
        after.inflater().calls() == before.inflater().calls(),
        reader_after.taken() == reader.taken(),
        out == out_before,
{
    let answer = match ret {
        None => Ok::<usize, GzError>(0),
        Some(r) => r,
    };
    lemma_dry_source_is_not_asked(
        before.inflater(),
        reader,
        out_before,
        after.inflater(),
        reader_after,
        out,
        answer,
    );
}

/// Errors of the source pass through the encoder as they are: a read
/// that needs the compressor, on a source that has run dry and is not over,
/// answers with the error of the source, and nothing counts as yielded.
pub proof fn lemma_encoder_passes_source_error(
    before: GzEncoder,
    reader: Source<'_>,
    out_before: Seq<u8>,
    after: GzEncoder,
    reader_after: Source<'_>,
    out: Seq<u8>,
    r: Result<usize, GzError>,
)
    requires
        before.wf(),
        !before.body_ended(),
        out_before.len() > before.header().len() - before.cursor(),
        reader.remaining().len() == 0,
        reader.end() != SourceEnd::Eof,
        before.was_read(&reader, out_before, &after, &reader_after, out, r),
    ensures
        r is Err,
        r == reader.end().dry(),
        after.cursor() == before.cursor(),
        after.emitted() == before.emitted(),
        after.body() == before.body(),
        !after.body_ended(),
        reader_after.taken() == reader.taken(),
{
    let led = before.header().len() - before.cursor();
    before.lemma_before_trailer();
    let (answer, mid) = choose|answer: Result<usize, GzError>, mid: Seq<u8>|
        {
            &&& #[trigger] before.compressor().was_read(
                &reader,
                out_before.skip(led),
                &after.compressor(),
                &reader_after,
                mid,
                answer,
            )
            &&& before.settled(answer, mid, &after, out.skip(led), r)
        };
    let made = choose|made: Seq<Call<miniz_oxide::deflate::core::CompressorOxide>>|
        {
            &&& #[trigger] grown_by(before.compressor().calls(), after.compressor().calls(), made)
            &&& forall|i: int| 0 <= i < made.len() ==> deflated(#[trigger] made[i])
            &&& pumped(
                made,
                before.compressor().state(),
                after.compressor().state(),
                &reader,
                &reader_after,
                out_before.skip(led),
                mid,
                answer,
            )
        };
    if made.len() > 0 {
        assert(handed(
            made,
            0,
            before.compressor().state(),
            reader.remaining(),
            reader.end(),
            out_before.skip(led).len(),
        ));
    }
}

} // verus!
