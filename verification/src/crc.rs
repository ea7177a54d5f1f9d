//! The CRC-32 of gzip and a running accumulator over it.

use vstd::prelude::*;
use vstd::slice::slice_subrange;
use crate::error::GzError;
use crate::replay::Buffer;
use crate::source::Source;

verus! {

/// One step of the reflected CRC-32 shift register (polynomial `0xEDB88320`).
pub open spec fn crc_shift(c: u32) -> u32 {
    if c & 1 == 1 {
        (c >> 1) ^ 0xEDB8_8320u32
    } else {
        c >> 1
    }
}

/// The register after one byte has been fed into it: eight shifts.
pub open spec fn crc_absorb(c: u32, b: u8) -> u32 {
    let x: u32 = c ^ (b as u32);
    crc_shift(crc_shift(crc_shift(crc_shift(crc_shift(crc_shift(crc_shift(crc_shift(x))))))))
}

/// The register after every byte of `s` has been fed into it, first to last.
pub open spec fn crc_fold(c: u32, s: Seq<u8>) -> u32
    decreases s.len(),
{
    if s.len() == 0 {
        c
    } else {
        crc_absorb(crc_fold(c, s.drop_last()), s.last())
    }
}

/// The checksum of a stream whose first part has the checksum `prev` and
/// whose remaining part is `s`.
pub open spec fn crc32_extend(prev: u32, s: Seq<u8>) -> u32 {
    !crc_fold(!prev, s)
}

/// The CRC-32 of `s` (ISO 3309: initial value and final XOR `0xFFFFFFFF`).
pub open spec fn crc32(s: Seq<u8>) -> u32 {
    crc32_extend(0, s)
}

/// Feeding `a` and then `b` is feeding `a + b`.
pub proof fn lemma_crc_fold_concat(c: u32, a: Seq<u8>, b: Seq<u8>)
    ensures
        crc_fold(crc_fold(c, a), b) == crc_fold(c, a + b),
    decreases b.len(),
{
    if b.len() == 0 {
        assert(a + b =~= a);
    } else {
        lemma_crc_fold_concat(c, a, b.drop_last());
        assert((a + b).drop_last() =~= a + b.drop_last());
        assert((a + b).last() == b.last());
    }
}

/// A checksum can be continued: extending the checksum of `a` by `b` gives
/// the checksum of `a + b`.
pub proof fn lemma_crc32_extend_concat(prev: u32, a: Seq<u8>, b: Seq<u8>)
    ensures
        crc32_extend(crc32_extend(prev, a), b) == crc32_extend(prev, a + b),
{
    let mid: u32 = crc_fold(!prev, a);
    assert(!!mid == mid) by (bit_vector);
    lemma_crc_fold_concat(!prev, a, b);
}

/// The checksum of nothing is zero, and extending by nothing changes nothing.
pub proof fn lemma_crc32_extend_empty(prev: u32)
    ensures
        crc32_extend(prev, Seq::<u8>::empty()) == prev,
        crc32(Seq::<u8>::empty()) == 0,
{
    assert(!!prev == prev) by (bit_vector);
    assert(!!0u32 == 0u32) by (bit_vector);
}

/// The length of a stream as gzip records it: modulo 2^32.
pub open spec fn wrapped_len(s: Seq<u8>) -> u32 {
    (s.len() % 0x1_0000_0000) as u32
}

/// Lengths add up modulo 2^32.
pub proof fn lemma_wrapped_len_concat(a: Seq<u8>, b: Seq<u8>)
    ensures
        wrapped_len(a + b) as int == (wrapped_len(a) + wrapped_len(b)) % 0x1_0000_0000,
{
    let x: int = a.len() as int;
    let y: int = b.len() as int;
    assert((x + y) % 0x1_0000_0000 == ((x % 0x1_0000_0000) + (y % 0x1_0000_0000)) % 0x1_0000_0000)
        by (nonlinear_arith);
}

/// Runs `crc32fast::Hasher` over `bytes`, starting from the state `prev`
/// (`new_with_initial`, `update`, `finalize`). The claim is that of the
/// crate's documentation: the hasher computes the IEEE CRC-32, and a hasher
/// started from a finished checksum continues that checksum.
#[verifier::external_body]
fn hasher_extend(prev: u32, bytes: &[u8]) -> (sum: u32)
    ensures
        sum == crc32_extend(prev, bytes@),
{
    let mut hasher = crc32fast::Hasher::new_with_initial(prev);
    hasher.update(bytes);
    hasher.finalize()
}

/// The checksum of [`crc32_extend`], computed bit by bit as it is defined.
/// Slow; it is here so that the fast hasher can be held against the
/// definition.
pub fn crc32_bitwise(prev: u32, bytes: &[u8]) -> (sum: u32)
    ensures
        sum == crc32_extend(prev, bytes@),
{
    let mut c: u32 = !prev;
    let mut i: usize = 0;
    while i < bytes.len()
        invariant
            i <= bytes.len(),
            c == crc_fold(!prev, bytes@.take(i as int)),
        decreases bytes.len() - i,
    {
        let mut x: u32 = c ^ (bytes[i] as u32);
        let mut k: u8 = 0;
        let ghost x0 = x;
        while k < 8
            invariant
                k <= 8,
                k == 0 ==> x == x0,
                k == 1 ==> x == crc_shift(x0),
                k == 2 ==> x == crc_shift(crc_shift(x0)),
                k == 3 ==> x == crc_shift(crc_shift(crc_shift(x0))),
                k == 4 ==> x == crc_shift(crc_shift(crc_shift(crc_shift(x0)))),
                k == 5 ==> x == crc_shift(crc_shift(crc_shift(crc_shift(crc_shift(x0))))),
                k == 6 ==> x == crc_shift(
                    crc_shift(crc_shift(crc_shift(crc_shift(crc_shift(x0))))),
                ),
                k == 7 ==> x == crc_shift(
                    crc_shift(crc_shift(crc_shift(crc_shift(crc_shift(crc_shift(x0)))))),
                ),
                k == 8 ==> x == crc_shift(
                    crc_shift(crc_shift(crc_shift(crc_shift(crc_shift(crc_shift(crc_shift(x0))))))),
                ),
            decreases 8 - k,
        {
            x = if x & 1 == 1 {
                (x >> 1) ^ 0xEDB8_8320u32
            } else {
                x >> 1
            };
            k += 1;
        }
        proof {
            let next = bytes@.take(i + 1);
            assert(next.drop_last() =~= bytes@.take(i as int));
            assert(next.last() == bytes@[i as int]);
        }
        c = x;
        i += 1;
    }
    assert(bytes@.take(bytes@.len() as int) =~= bytes@);
    !c
}

/// A running CRC-32 together with the number of bytes it has taken in.
pub struct Crc {
    sum: u32,
    amount: u32,
    seen: Ghost<Seq<u8>>,
}

impl Crc {
    /// Every byte taken in since the accumulator was made or last reset.
    pub closed spec fn seen(&self) -> Seq<u8> {
        self.seen@
    }

    /// The sum and the count are those of the bytes taken in.
    pub closed spec fn wf(&self) -> bool {
        &&& self.sum == crc32(self.seen@)
        &&& self.amount == wrapped_len(self.seen@)
    }

    /// An accumulator that has seen nothing.
    pub fn new() -> (crc: Crc)
        ensures
            crc.wf(),
            crc.seen() == Seq::<u8>::empty(),
    {
        proof {
            lemma_crc32_extend_empty(0);
        }
        Crc { sum: 0, amount: 0, seen: Ghost(Seq::empty()) }
    }

    /// The CRC-32 of everything taken in.
    pub fn sum(&self) -> (sum: u32)
        requires
            self.wf(),
        ensures
            sum == crc32(self.seen()),
    {
        self.sum
    }

    /// The number of bytes taken in, modulo 2^32.
    pub fn amount(&self) -> (amount: u32)
        requires
            self.wf(),
        ensures
            amount == wrapped_len(self.seen()),
    {
        self.amount
    }

    /// Takes in `data`.
    pub fn update(&mut self, data: &[u8])
        requires
            old(self).wf(),
        ensures
            final(self).wf(),
            final(self).seen() == old(self).seen() + data@,
    {
        let len: u64 = data.len() as u64;
        let low: u32 = (len & 0xFFFF_FFFF) as u32;
        proof {
            assert((len & 0xFFFF_FFFF) == len % 0x1_0000_0000) by (bit_vector);
            lemma_crc32_extend_concat(0, self.seen@, data@);
            lemma_wrapped_len_concat(self.seen@, data@);
        }
        self.amount = self.amount.wrapping_add(low);
        self.sum = hasher_extend(self.sum, data);
        self.seen = Ghost(self.seen@ + data@);
    }

    /// Forgets everything: the accumulator is as new.
    pub fn reset(&mut self)
        ensures
            final(self).wf(),
            final(self).seen() == Seq::<u8>::empty(),
    {
        proof {
            lemma_crc32_extend_empty(0);
        }
        self.sum = 0;
        self.amount = 0;
        self.seen = Ghost(Seq::empty());
    }
}


/// A replaying reader with a checksum over every byte that it hands out.
pub struct CrcReader {
    inner: Buffer,
    crc: Crc,
}

impl CrcReader {
    /// Both parts are sound, and the checksum covers exactly the bytes
    /// handed out.
    pub closed spec fn wf(&self) -> bool {
        &&& self.inner.wf()
        &&& self.crc.wf()
        &&& self.crc.seen() == self.inner.log().take(self.inner.offset() as int)
    }

    /// The reader underneath.
    pub closed spec fn inner(&self) -> Buffer {
        self.inner
    }

    /// Every byte handed out.
    pub closed spec fn seen(&self) -> Seq<u8> {
        self.crc.seen()
    }

    /// How many bytes were handed out.
    pub open spec fn offset(&self) -> nat {
        self.inner().offset()
    }

    /// The bytes that this reader stands for.
    pub open spec fn stream(&self, reader: &Source<'_>) -> Seq<u8> {
        self.inner().stream(reader)
    }

    /// `after` and `reader_after` are this reader and `reader` with `n`
    /// more bytes of the same stream handed out.
    pub open spec fn took(
        &self,
        reader: &Source<'_>,
        after: &CrcReader,
        reader_after: &Source<'_>,
        n: int,
    ) -> bool {
        &&& after.kept(reader, self, reader_after)
        &&& after.offset() == self.offset() + n
    }

    /// This reader and `reader_after` are sound and stand for the stream
    /// that `before` and `reader` stood for.
    pub open spec fn kept(
        &self,
        reader: &Source<'_>,
        before: &CrcReader,
        reader_after: &Source<'_>,
    ) -> bool {
        &&& self.wf()
        &&& reader_after.wf()
        &&& reader_after.end() == reader.end()
        &&& reader_after.all() == reader.all()
        &&& reader_after.taken() >= reader.taken()
        &&& self.inner().floor() == before.inner().floor()
        &&& self.stream(reader_after) == before.stream(reader)
    }

    /// What was handed out is the start of the stream.
    pub proof fn lemma_seen_is_prefix(&self, reader: &Source<'_>)
        requires
            self.wf(),
        ensures
            self.offset() <= self.inner().log().len(),
            self.offset() <= self.stream(reader).len(),
            self.seen() == self.stream(reader).take(self.offset() as int),
    {
        self.inner.lemma_offset_in_log();
        assert(self.inner.log().take(self.inner.offset() as int) =~= self.stream(reader).take(
            self.offset() as int,
        ));
    }

    /// A checksum over `inner`, which has handed out nothing yet.
    pub fn new(inner: Buffer) -> (r: CrcReader)
        requires
            inner.wf(),
            inner.offset() == 0,
        ensures
            r.wf(),
            r.inner() == inner,
            r.seen() == Seq::<u8>::empty(),
    {
        let crc = Crc::new();
        assert(inner.log().take(0) =~= Seq::<u8>::empty());
        CrcReader { inner, crc }
    }

    /// The checksum so far.
    pub fn crc(&self) -> (crc: &Crc)
        requires
            self.wf(),
        ensures
            crc.wf(),
            crc.seen() == self.seen(),
    {
        &self.crc
    }

    /// The reader underneath.
    pub fn into_inner(self) -> (inner: Buffer)
        ensures
            inner == self.inner(),
            self.wf() ==> inner.wf(),
    {
        self.inner
    }

    /// Reads as the reader underneath does, and takes what was read into
    /// the checksum. A failed read changes nothing.
    pub fn read(&mut self, reader: &mut Source<'_>, into: &mut [u8]) -> (r: Result<usize, GzError>)
        requires
            old(self).wf(),
            old(reader).wf(),
        ensures
            final(into)@.len() == old(into)@.len(),
            r is Err <==> old(reader).remaining().len() == 0 && old(into)@.len() > old(self).stream(
                old(reader),
            ).len() - old(self).offset(),
            r is Err ==> {
                &&& r->Err_0 == old(reader).end().short()
                &&& *final(reader) == *old(reader)
                &&& old(self).took(old(reader), final(self), final(reader), 0)
                &&& final(self).seen() == old(self).seen()
            },
            r is Ok ==> {
                let s = old(self).stream(old(reader));
                let off = old(self).offset() as int;
                let n = r->Ok_0 as int;
                &&& n == if old(into)@.len() <= s.len() - off {
                    old(into)@.len() as int
                } else {
                    s.len() - off
                }
                &&& old(self).took(old(reader), final(self), final(reader), n)
                &&& final(into)@ == s.subrange(off, off + n) + old(into)@.skip(n)
                &&& final(self).seen() == old(self).seen() + s.subrange(off, off + n)
            },
    {
        proof {
            self.lemma_seen_is_prefix(reader);
        }
        let ghost s = self.stream(reader);
        let ghost off = self.offset() as int;
        match self.inner.read(reader, into) {
            Err(e) => Err(e),
            Ok(n) => {
                let fresh = slice_subrange(into, 0, n);
                self.crc.update(fresh);
                proof {
                    self.inner.lemma_offset_in_log();
                    assert(fresh@ =~= s.subrange(off, off + n));
                    assert(self.inner.log().take(off + n) =~= s.take(off + n));
                    assert(s.take(off + n) =~= s.take(off) + s.subrange(off, off + n));
                }
                Ok(n)
            },
        }
    }

    /// Reads until `into` is full. Where the stream has that many bytes
    /// left, they are read; where it has not, the read fails with the
    /// source's answer, and everything that the source had ready has gone
    /// into the log.
    pub fn read_exact(&mut self, reader: &mut Source<'_>, into: &mut [u8]) -> (r: Result<
        (),
        GzError,
    >)
        requires
            old(self).wf(),
            old(reader).wf(),
        ensures
            final(into)@.len() == old(into)@.len(),
            final(self).kept(old(reader), old(self), final(reader)),
            r is Ok <==> {
                let s = old(self).stream(old(reader));
                old(into)@.len() <= s.len() - old(self).offset()
            },
            r is Ok ==> {
                let s = old(self).stream(old(reader));
                let off = old(self).offset() as int;
                &&& final(self).offset() == off + old(into)@.len()
                &&& final(into)@ == s.subrange(off, off + old(into)@.len())
            },
            r is Err ==> {
                &&& r->Err_0 == old(reader).end().short()
                &&& final(reader).remaining().len() == 0
            },
    {
        proof {
            self.lemma_seen_is_prefix(reader);
        }
        let ghost s = self.stream(reader);
        let ghost off = self.offset() as int;
        let mut filled: usize = 0;
        while filled < into.len()
            invariant
                filled <= into@.len(),
                into@.len() == old(into)@.len(),
                self.kept(old(reader), old(self), reader),
                s == old(self).stream(old(reader)),
                off == old(self).offset(),
                self.offset() == off + filled,
                off + filled <= s.len(),
                into@.take(filled as int) == s.subrange(off, off + filled),
            decreases into@.len() - filled,
        {
            proof {
                self.lemma_seen_is_prefix(reader);
            }
            let (head, rest) = into.split_at_mut(filled);
            match self.read(reader, rest) {
                Err(e) => {
                    return Err(e);
                },
                Ok(n) => {
                    proof {
                        self.lemma_seen_is_prefix(reader);
                        assert((head@ + rest@).take(filled + n) =~= s.subrange(
                            off,
                            off + filled + n,
                        ));
                    }
                    filled = filled + n;
                },
            }
        }
        assert(into@.take(filled as int) =~= into@);
        Ok(())
    }
}

} // verus!
