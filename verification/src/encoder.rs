//! The encoder: a reader of one gzip member out of plain bytes.

use vstd::prelude::*;
use crate::crc::crc32;
use crate::crc::wrapped_len;
use crate::deflate::deflate_fresh;
use crate::deflate::read_outcome;
use crate::deflate::DeflateEncoder;
use crate::error::GzError;
use crate::header::le32;
use crate::header::xfl_of;
use crate::header::GzHeader;
use crate::header::HeaderView;
use crate::level::Compression;
use crate::source::copy;
use crate::source::Source;

verus! {

/// The eight bytes that end a member whose plain bytes are `plain`: their
/// CRC-32 and their number modulo 2^32, each lowest byte first.
pub open spec fn trailer_of(plain: Seq<u8>) -> Seq<u8> {
    le32(crc32(plain)) + le32(wrapped_len(plain))
}

/// A reader that yields, in this order, the bytes of a header, the deflate
/// stream of the plain bytes that it is fed, and the trailer.
pub struct GzEncoder {
    inner: DeflateEncoder,
    header: Vec<u8>,
    pos: usize,
    eof: bool,
    body: Ghost<Seq<u8>>,
    emitted: Ghost<Seq<u8>>,
}

/// An encoder that starts a member with the bytes `header`, which are taken
/// as they are, and compresses at `lvl`.
pub fn gz_encoder(header: Vec<u8>, lvl: Compression) -> (encoder: GzEncoder)
    ensures
        encoder.wf(),
        encoder.header() == header@,
        encoder.plain() == Seq::<u8>::empty(),
        encoder.body() == Seq::<u8>::empty(),
        encoder.emitted() == Seq::<u8>::empty(),
        encoder.cursor() == 0,
        !encoder.body_ended(),
        encoder.compressor().state() == deflate_fresh(lvl.spec_level() as u8),
        encoder.compressor().calls().len() == 0,
{
    let inner = DeflateEncoder::new(lvl);
    assert(header@.take(0) + Seq::<u8>::empty() =~= Seq::<u8>::empty());
    GzEncoder {
        inner,
        header,
        pos: 0,
        eof: false,
        body: Ghost(Seq::empty()),
        emitted: Ghost(Seq::empty()),
    }
}

impl GzEncoder {
    /// The bytes that the member starts with.
    pub closed spec fn header(&self) -> Seq<u8> {
        self.header@
    }

    /// Every plain byte taken from the source so far.
    pub closed spec fn plain(&self) -> Seq<u8> {
        self.inner.plain()
    }

    /// Every byte that the compressor has yielded so far.
    pub closed spec fn body(&self) -> Seq<u8> {
        self.body@
    }

    /// Every byte that successful reads have yielded so far.
    pub closed spec fn emitted(&self) -> Seq<u8> {
        self.emitted@
    }

    /// Whether the compressor has reported its end.
    pub closed spec fn body_ended(&self) -> bool {
        self.eof
    }

    /// How far the header has been yielded before the body has ended, and
    /// how far the trailer after.
    pub closed spec fn cursor(&self) -> nat {
        self.pos as nat
    }

    /// The reader of the deflate stream, with the compressor in it.
    pub closed spec fn compressor(&self) -> DeflateEncoder {
        self.inner
    }

    /// Whether the whole member has been yielded.
    pub open spec fn finished(&self) -> bool {
        self.body_ended() && self.cursor() == 8
    }

    /// What has been yielded is a prefix of header, body and trailer, in
    /// this order, and nothing of the body comes before the header is out.
    pub closed spec fn wf(&self) -> bool {
        &&& self.inner.wf()
        &&& !self.eof ==> {
            &&& self.pos <= self.header@.len()
            &&& self.body@.len() > 0 ==> self.pos == self.header@.len()
            &&& self.emitted@ == self.header@.take(self.pos as int) + self.body@
        }
        &&& self.eof ==> {
            &&& self.pos <= 8
            &&& self.emitted@ == self.header@ + self.body@ + trailer_of(self.inner.plain()).take(
                self.pos as int,
            )
        }
    }

    /// Once the member is complete, it is the header, the compressed body,
    /// and then the CRC-32 and the length of all the plain bytes taken.
    pub proof fn lemma_member_layout(&self)
        requires
            self.wf(),
            self.finished(),
        ensures
            self.emitted() == self.header() + self.body() + le32(crc32(self.plain())) + le32(
                wrapped_len(self.plain()),
            ),
    {
        let t = trailer_of(self.plain());
        assert(t.len() == 8);
        assert(t.take(8) =~= t);
        assert(self.header() + self.body() + t =~= self.header() + self.body() + le32(
            crc32(self.plain()),
        ) + le32(wrapped_len(self.plain())));
    }

    /// Until the body has ended, what has been yielded is the header as far
    /// as the cursor, and behind a whole header the body.
    pub proof fn lemma_before_trailer(&self)
        requires
            self.wf(),
            !self.body_ended(),
        ensures
            self.cursor() <= self.header().len(),
            self.emitted() == self.header().take(self.cursor() as int) + self.body(),
            self.body().len() > 0 ==> self.cursor() == self.header().len(),
    {
    }

    /// An encoder with the header of a member about which nothing is
    /// recorded: no optional field, no time, operating system unknown.
    pub fn new(level: Compression) -> (encoder: GzEncoder)
        ensures
            encoder.wf(),
            encoder.header() == HeaderView::unknown().bytes(xfl_of(level.spec_level())),
            encoder.plain() == Seq::<u8>::empty(),
            encoder.body() == Seq::<u8>::empty(),
            encoder.emitted() == Seq::<u8>::empty(),
            encoder.cursor() == 0,
            !encoder.body_ended(),
            encoder.compressor().state() == deflate_fresh(level.spec_level() as u8),
            encoder.compressor().calls().len() == 0,
    {
        let record = GzHeader::unknown();
        match record.encode(level) {
            Some(header) => gz_encoder(header, level),
            None => gz_encoder(Vec::new(), level),
        }
    }

    /// An encoder whose member starts with the layout of `record`. There is
    /// one exactly for an encodable record.
    pub fn with_header(record: &GzHeader, level: Compression) -> (encoder: Option<GzEncoder>)
        ensures
            encoder is Some <==> record@.encodable(),
            encoder is Some ==> {
                let e = encoder->Some_0;
                &&& e.wf()
                &&& e.header() == record@.bytes(xfl_of(level.spec_level()))
                &&& e.plain() == Seq::<u8>::empty()
                &&& e.body() == Seq::<u8>::empty()
                &&& e.emitted() == Seq::<u8>::empty()
                &&& e.cursor() == 0
                &&& !e.body_ended()
                &&& e.compressor().state() == deflate_fresh(level.spec_level() as u8)
                &&& e.compressor().calls().len() == 0
            },
    {
        match record.encode(level) {
            Some(header) => Some(gz_encoder(header, level)),
            None => None,
        }
    }

    /// Whether the whole member has been yielded: every further read gives
    /// zero.
    pub fn is_finished(&self) -> (done: bool)
        ensures
            done == self.finished(),
    {
        self.eof && self.pos == 8
    }

    /// Yields the next bytes of the trailer into the front of `into`.
    fn read_footer(&mut self, into: &mut [u8]) -> (r: Result<usize, GzError>)
        requires
            old(self).wf(),
            old(self).eof,
        ensures
            final(self).wf(),
            final(self).eof,
            final(into)@.len() == old(into)@.len(),
            final(self).inner == old(self).inner,
            final(self).header == old(self).header,
            final(self).body == old(self).body,
            r is Ok,
            r->Ok_0 as int == if old(into)@.len() <= 8 - old(self).pos {
                old(into)@.len() as int
            } else {
                8 - old(self).pos
            },
            final(self).pos == old(self).pos + r->Ok_0,
            final(self).emitted@ == old(self).emitted@ + final(into)@.take(r->Ok_0 as int),
            final(into)@.skip(r->Ok_0 as int) == old(into)@.skip(r->Ok_0 as int),
            final(into)@.take(r->Ok_0 as int) == trailer_of(old(self).inner.plain()).subrange(
                old(self).pos as int,
                old(self).pos + r->Ok_0,
            ),
    {
        if self.pos == 8 {
            assert(into@.take(0) =~= Seq::<u8>::empty());
            assert(trailer_of(self.inner.plain()).subrange(8, 8) =~= Seq::<u8>::empty());
            assert(self.emitted@ + Seq::<u8>::empty() =~= self.emitted@);
            return Ok(0);
        }
        let sum: u32 = self.inner.crc().sum();
        let amount: u32 = self.inner.crc().amount();
        let arr: [u8; 8] = [
            (sum & 0xff) as u8,
            ((sum >> 8) & 0xff) as u8,
            ((sum >> 16) & 0xff) as u8,
            ((sum >> 24) & 0xff) as u8,
            (amount & 0xff) as u8,
            ((amount >> 8) & 0xff) as u8,
            ((amount >> 16) & 0xff) as u8,
            ((amount >> 24) & 0xff) as u8,
        ];
        let ghost t = trailer_of(self.inner.plain());
        assert(arr@ =~= t);
        let ghost before = self.pos as int;
        let n = copy(into, &arr, &mut self.pos);
        proof {
            assert(into@.take(n as int) =~= t.subrange(before, before + n));
            assert(t.take(before + n) =~= t.take(before) + t.subrange(before, before + n));
            self.emitted@ = self.emitted@ + into@.take(n as int);
            assert(into@.skip(n as int) =~= old(into)@.skip(n as int));
            assert(self.emitted@ =~= self.header@ + self.body@ + t.take(before + n));
        }
        Ok(n)
    }

    /// What the encoder makes of the answer of the compressor, where the
    /// header bytes not yet yielded stand in front of the part of the
    /// output buffer that the compressor was given, `mid` is the content
    /// of that part as the compressor left it, and `rest` its content
    /// afterwards.
    ///
    /// An error is passed on as it is, and nothing counts as yielded. A
    /// count other than zero ends the read: the header bytes and so many
    /// bytes of the compressor are yielded. A count of zero is the end of
    /// the body: the header bytes are yielded, and behind them as much of
    /// the trailer as there is room for.
    pub open spec fn settled(
        &self,
        answer: Result<usize, GzError>,
        mid: Seq<u8>,
        after: &GzEncoder,
        rest: Seq<u8>,
        r: Result<usize, GzError>,
    ) -> bool {
        let led = self.header().len() - self.cursor();
        let lead = self.header().skip(self.cursor() as int);
        &&& after.header() == self.header()
        &&& match answer {
            Err(e) => {
                &&& r == Err::<usize, GzError>(e)
                &&& after.cursor() == self.cursor()
                &&& !after.body_ended()
                &&& after.body() == self.body()
                &&& after.emitted() == self.emitted()
                &&& rest == mid
            },
            Ok(n) => if n == 0 {
                let k = if mid.len() <= 8 {
                    mid.len() as int
                } else {
                    8
                };
                &&& r is Ok
                &&& r->Ok_0 == led + k
                &&& after.body_ended()
                &&& after.cursor() == k
                &&& after.body() == self.body()
                &&& after.emitted() == self.emitted() + lead + trailer_of(after.plain()).take(k)
                &&& rest == trailer_of(after.plain()).take(k) + mid.skip(k)
            } else {
                &&& r is Ok
                &&& r->Ok_0 == led + n
                &&& !after.body_ended()
                &&& after.cursor() == self.header().len()
                &&& after.body() == self.body() + mid.take(n as int)
                &&& after.emitted() == self.emitted() + lead + mid.take(n as int)
                &&& rest == mid
            },
        }
    }

    /// What a read does to the encoder, the source and the output buffer,
    /// where `out_before` is the content of the buffer before and `out`
    /// its content afterwards.
    ///
    /// Without room, and once the member is complete, the answer is zero
    /// and nothing changes. Behind the body the next bytes of the trailer
    /// are yielded. Before that, a read that the rest of the header fills
    /// is filled from it. In these three cases neither the source nor the
    /// compressor is touched. In every other read the rest of the header
    /// comes first and whole; behind it the reader of the deflate stream
    /// reads into the rest of the buffer, as [`DeflateEncoder::was_read`]
    /// says, and the read is what [`GzEncoder::settled`] makes of its
    /// answer.
    pub open spec fn was_read(
        &self,
        reader: &Source<'_>,
        out_before: Seq<u8>,
        after: &GzEncoder,
        reader_after: &Source<'_>,
        out: Seq<u8>,
        r: Result<usize, GzError>,
    ) -> bool {
        let room = out_before.len() as int;
        let led = self.header().len() - self.cursor();
        &&& after.header() == self.header()
        &&& if room == 0 || self.finished() {
            &&& r == Ok::<usize, GzError>(0)
            &&& out == out_before
            &&& after.cursor() == self.cursor()
            &&& after.body_ended() == self.body_ended()
            &&& after.body() == self.body()
            &&& after.emitted() == self.emitted()
            &&& after.compressor() == self.compressor()
            &&& *reader_after == *reader
        } else if self.body_ended() {
            let k = if room <= 8 - self.cursor() {
                room
            } else {
                8 - self.cursor()
            };
            let part = trailer_of(self.plain()).subrange(self.cursor() as int, self.cursor() + k);
            &&& r is Ok
            &&& r->Ok_0 == k
            &&& out == part + out_before.skip(k)
            &&& after.cursor() == self.cursor() + k
            &&& after.body_ended()
            &&& after.body() == self.body()
            &&& after.emitted() == self.emitted() + part
            &&& after.compressor() == self.compressor()
            &&& *reader_after == *reader
        } else if room <= led {
            let part = self.header().subrange(self.cursor() as int, self.cursor() + room);
            &&& r is Ok
            &&& r->Ok_0 == room
            &&& out == part
            &&& after.cursor() == self.cursor() + room
            &&& !after.body_ended()
            &&& after.body() == self.body()
            &&& after.emitted() == self.emitted() + part
            &&& after.compressor() == self.compressor()
            &&& *reader_after == *reader
        } else {
            &&& out.take(led) == self.header().skip(self.cursor() as int)
            &&& exists|answer: Result<usize, GzError>, mid: Seq<u8>|
                {
                    &&& #[trigger] self.compressor().was_read(
                        reader,
                        out_before.skip(led),
                        &after.compressor(),
                        reader_after,
                        mid,
                        answer,
                    )
                    &&& self.settled(answer, mid, after, out.skip(led), r)
                }
        }
    }

    /// Does what a read does with the answer of the compressor, which
    /// wrote into `rest`: the part of the output buffer behind the header
    /// bytes that were not yet yielded, which the caller has put there.
    /// See [`GzEncoder::settled`].
    pub fn settle(&mut self, answer: Result<usize, GzError>, rest: &mut [u8]) -> (r: Result<
        usize,
        GzError,
    >)
        requires
            old(self).wf(),
            !old(self).body_ended(),
            answer is Ok ==> answer->Ok_0 <= old(rest)@.len(),
            old(self).header().len() - old(self).cursor() + old(rest)@.len() <= usize::MAX,
        ensures
            final(self).wf(),
            final(rest)@.len() == old(rest)@.len(),
            final(self).compressor() == old(self).compressor(),
            old(self).settled(answer, old(rest)@, final(self), final(rest)@, r),
    {
        let ghost lead = self.header@.skip(self.pos as int);
        let ghost yielded = self.emitted@;
        let led: usize = self.header.len() - self.pos;
        match answer {
            Err(e) => Err(e),
            Ok(n) => {
                self.pos = self.header.len();
                proof {
                    assert(self.header@.take(self.pos as int) =~= self.header@);
                    assert(self.header@ =~= self.header@.take(old(self).pos as int) + lead);
                    self.emitted@ = self.emitted@ + lead;
                    assert(self.emitted@ =~= self.header@.take(self.pos as int) + self.body@);
                }
                if n == 0 {
                    self.eof = true;
                    self.pos = 0;
                    proof {
                        assert(trailer_of(self.inner.plain()).take(0) =~= Seq::<u8>::empty());
                        assert(self.emitted@ =~= self.header@ + self.body@ + trailer_of(
                            self.inner.plain(),
                        ).take(0));
                    }
                    match self.read_footer(rest) {
                        Err(e) => Err(e),
                        Ok(k) => {
                            proof {
                                let t = trailer_of(self.inner.plain());
                                assert(t.subrange(0, k as int) =~= t.take(k as int));
                                assert(rest@ =~= rest@.take(k as int) + rest@.skip(k as int));
                                assert(self.emitted@ =~= yielded + lead + t.take(k as int));
                            }
                            Ok(led + k)
                        },
                    }
                } else {
                    proof {
                        self.body@ = self.body@ + rest@.take(n as int);
                        self.emitted@ = self.emitted@ + rest@.take(n as int);
                        assert(self.emitted@ =~= self.header@.take(self.pos as int) + self.body@);
                        assert(self.emitted@ =~= yielded + lead + rest@.take(n as int));
                    }
                    Ok(led + n)
                }
            },
        }
    }

    /// Yields the next bytes of the member into the front of `into`: what
    /// is left of the header, then compressed bytes, then the trailer.
    ///
    /// With `into` empty nothing happens. A read that the header can fill
    /// alone is filled from the header, and a read behind the body from the
    /// trailer; neither touches the source. Between the two the compressor
    /// reads plain bytes from `reader`; at the end of the source it is told
    /// to finish, and when it reports its end the trailer follows in the
    /// same read. A count of zero with room in `into` means that the member
    /// is complete. An error is that of the source or of the compressor,
    /// passed on as it is, and changes nothing in what has been yielded:
    /// the same read can be made again. See [`GzEncoder::was_read`].
    pub fn read(&mut self, reader: &mut Source<'_>, into: &mut [u8]) -> (r: Result<usize, GzError>)
        requires
            old(self).wf(),
            old(reader).wf(),
        ensures
            final(self).wf(),
            final(into)@.len() == old(into)@.len(),
            read_outcome(old(reader), final(reader), old(into)@.len(), r),
            final(self).plain() == old(self).plain() + old(reader).remaining().take(
                final(reader).taken() - old(reader).taken(),
            ),
            old(self).was_read(old(reader), old(into)@, final(self), final(reader), final(into)@, r),
            old(self).body_ended() ==> final(self).body_ended(),
            r is Ok ==> {
                &&& final(self).emitted() == old(self).emitted() + final(into)@.take(r->Ok_0 as int)
                &&& old(into)@.len() > 0 && r->Ok_0 == 0 ==> old(self).finished()
            },
            r is Err ==> {
                &&& final(self).emitted() == old(self).emitted()
                &&& final(self).body() == old(self).body()
                &&& final(self).body_ended() == old(self).body_ended()
                &&& final(self).cursor() == old(self).cursor()
            },
    {
        proof {
            assert(old(reader).remaining().take(0) =~= Seq::<u8>::empty());
            assert(self.plain() + Seq::<u8>::empty() =~= self.plain());
            assert(into@.take(0) =~= Seq::<u8>::empty());
            assert(self.emitted@ + Seq::<u8>::empty() =~= self.emitted@);
        }
        if into.len() == 0 {
            return Ok(0);
        }
        if self.eof {
            if self.pos == 8 {
                return Ok(0);
            }
            let r = self.read_footer(into);
            proof {
                let k = r->Ok_0 as int;
                assert(into@ =~= into@.take(k) + into@.skip(k));
            }
            return r;
        }
        let start: usize = self.pos;
        let mut upto: usize = self.pos;
        let amt: usize = copy(into, self.header.as_slice(), &mut upto);
        if amt == into.len() {
            self.pos = upto;
            proof {
                assert(into@ =~= self.header@.subrange(start as int, start + amt));
                assert(into@.take(amt as int) =~= into@);
                assert(self.header@.take(start + amt) =~= self.header@.take(start as int)
                    + self.header@.subrange(start as int, start + amt));
                self.emitted@ = self.emitted@ + into@.take(amt as int);
            }
            return Ok(amt);
        }
        let ghost copied = into@;
        let ghost lead = self.header@.skip(start as int);
        proof {
            assert(copied.take(amt as int) =~= lead);
            assert(copied.skip(amt as int) =~= old(into)@.skip(amt as int));
        }
        let (head, rest) = into.split_at_mut(amt);
        proof {
            assert(rest@ =~= old(into)@.skip(amt as int));
            assert(head@ =~= lead);
        }
        let answer = self.inner.read(reader, rest);
        let ghost mid = rest@;
        let r = self.settle(answer, rest);
        proof {
            let out = head@ + rest@;
            assert(out.take(amt as int) =~= lead);
            assert(out.skip(amt as int) =~= rest@);
            assert(old(self).compressor().was_read(
                old(reader),
                old(into)@.skip(amt as int),
                &self.compressor(),
                reader,
                mid,
                answer,
            ));
            assert(old(self).settled(answer, mid, self, out.skip(amt as int), r));
            if r is Ok {
                let n = r->Ok_0 as int;
                if answer->Ok_0 == 0 {
                    let k = n - amt;
                    assert(out.take(n) =~= lead + trailer_of(self.plain()).take(k));
                } else {
                    assert(out.take(n) =~= lead + mid.take(n - amt));
                }
            }
        }
        r
    }
}

} // verus!
