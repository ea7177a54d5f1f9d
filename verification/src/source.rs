//! The codec's view of the byte source that it reads from.

use vstd::prelude::*;
use vstd::slice::slice_subrange;
use crate::error::GzError;

verus! {

/// How the underlying source answers once the bytes it had ready are used up.
#[derive(Clone, Copy, Debug, PartialEq, Eq, Structural)]
pub enum SourceEnd {
    /// The stream is over.
    Eof,
    /// Nothing more is ready now.
    WouldBlock,
    /// The source reports that it ended too early.
    UnexpectedEof,
    /// The source reports any other error.
    Failed,
}

impl SourceEnd {
    /// What a read gets when no byte is left: zero at the end of the stream,
    /// else the error that stands for the source's answer.
    pub open spec fn dry(self) -> Result<usize, GzError> {
        match self {
            SourceEnd::Eof => Ok(0usize),
            SourceEnd::WouldBlock => Err(GzError::WouldBlock),
            SourceEnd::UnexpectedEof => Err(GzError::UnexpectedEof),
            SourceEnd::Failed => Err(GzError::Source),
        }
    }
}

/// Copies from `from`, starting at `*pos`, into the front of `into`: as many
/// bytes as both allow. Advances `*pos` by that number and returns it.
pub fn copy(into: &mut [u8], from: &[u8], pos: &mut usize) -> (n: usize)
    requires
        *old(pos) <= from@.len(),
    ensures
        n as int == if old(into)@.len() <= from@.len() - *old(pos) {
            old(into)@.len() as int
        } else {
            from@.len() - *old(pos)
        },
        *final(pos) == *old(pos) + n,
        final(into)@ == from@.subrange(*old(pos) as int, *old(pos) + n) + old(into)@.skip(n as int),
{
    let start: usize = *pos;
    let avail: usize = from.len() - start;
    let n: usize = if into.len() <= avail { into.len() } else { avail };
    let mut i: usize = 0;
    while i < n
        invariant
            i <= n,
            n <= into.len(),
            start + n <= from.len(),
            into@.len() == old(into)@.len(),
            forall|j: int| 0 <= j < i ==> into@[j] == from@[start + j],
            forall|j: int| i <= j < old(into)@.len() ==> into@[j] == old(into)@[j],
        decreases n - i,
    {
        into[i] = from[start + i];
        i += 1;
    }
    *pos = start + n;
    assert(into@ =~= from@.subrange(start as int, start + n) + old(into)@.skip(n as int));
    n
}

/// A window onto the underlying source: the bytes that it has ready, a
/// cursor over them, and its answer for when they run out.
///
/// Whoever drives the codec makes one from what the source offers, hands it
/// to a read, and afterwards tells the source how much was taken
/// ([`Source::consumed`]).
pub struct Source<'a> {
    data: &'a [u8],
    pos: usize,
    end: SourceEnd,
}

impl<'a> Source<'a> {
    /// Every byte of the window, taken or not.
    pub closed spec fn all(&self) -> Seq<u8> {
        self.data@
    }

    /// How many bytes have been taken.
    pub closed spec fn taken(&self) -> nat {
        self.pos as nat
    }

    /// The source's answer beyond the window.
    pub closed spec fn end(&self) -> SourceEnd {
        self.end
    }

    /// The cursor is inside the window.
    pub open spec fn wf(&self) -> bool {
        self.taken() <= self.all().len()
    }

    /// The bytes not yet taken.
    pub open spec fn remaining(&self) -> Seq<u8> {
        self.all().skip(self.taken() as int)
    }

    /// The same window with `n` more bytes taken.
    pub open spec fn advanced(&self, other: &Source<'a>, n: int) -> bool {
        &&& other.wf()
        &&& other.all() == self.all()
        &&& other.end() == self.end()
        &&& other.taken() == self.taken() + n
    }

    /// A window over `data`, nothing taken yet.
    pub fn new(data: &'a [u8], end: SourceEnd) -> (src: Source<'a>)
        ensures
            src.wf(),
            src.all() == data@,
            src.taken() == 0,
            src.end() == end,
    {
        Source { data, pos: 0, end }
    }

    /// The number of bytes taken so far: what the underlying source is to
    /// be told to drop.
    pub fn consumed(&self) -> (n: usize)
        ensures
            n == self.taken(),
    {
        self.pos
    }

    /// The bytes not yet taken or, where none is left, the source's answer:
    /// an empty slice at the end of the stream, else its error.
    pub fn fill_buf(&self) -> (r: Result<&'a [u8], GzError>)
        requires
            self.wf(),
        ensures
            self.remaining().len() > 0 ==> r is Ok && r->Ok_0@ == self.remaining(),
            self.remaining().len() == 0 ==> match self.end().dry() {
                Ok(_) => r is Ok && r->Ok_0@ == Seq::<u8>::empty(),
                Err(e) => r == Err::<&[u8], GzError>(e),
            },
    {
        if self.pos < self.data.len() {
            Ok(slice_subrange(self.data, self.pos, self.data.len()))
        } else {
            match self.end {
                SourceEnd::Eof => Ok(slice_subrange(self.data, self.pos, self.data.len())),
                SourceEnd::WouldBlock => Err(GzError::WouldBlock),
                SourceEnd::UnexpectedEof => Err(GzError::UnexpectedEof),
                SourceEnd::Failed => Err(GzError::Source),
            }
        }
    }

    /// Takes `amt` bytes.
    pub fn consume(&mut self, amt: usize)
        requires
            old(self).wf(),
            amt <= old(self).remaining().len(),
        ensures
            old(self).advanced(final(self), amt as int),
            final(self).remaining() == old(self).remaining().skip(amt as int),
    {
        let total: usize = self.data.len();
        assert(self.pos + amt <= total);
        self.pos = self.pos + amt;
        assert(self.data@.skip(self.pos as int) =~= old(self).data@.skip(old(self).pos as int).skip(
            amt as int,
        ));
    }

    /// Reads into the front of `into`: as many bytes as the window and
    /// `into` allow. With `into` empty the result is zero. With nothing left
    /// in the window the result is the source's answer
    /// ([`SourceEnd::dry`]) and nothing changes.
    pub fn read(&mut self, into: &mut [u8]) -> (r: Result<usize, GzError>)
        requires
            old(self).wf(),
        ensures
            final(into)@.len() == old(into)@.len(),
            old(into)@.len() > 0 && old(self).remaining().len() == 0 ==> {
                &&& r == old(self).end().dry()
                &&& *final(self) == *old(self)
                &&& final(into)@ == old(into)@
            },
            old(into)@.len() == 0 || old(self).remaining().len() > 0 ==> {
                &&& r is Ok
                &&& r->Ok_0 as int == if old(into)@.len() <= old(self).remaining().len() {
                    old(into)@.len() as int
                } else {
                    old(self).remaining().len() as int
                }
                &&& old(self).advanced(final(self), r->Ok_0 as int)
                &&& final(self).remaining() == old(self).remaining().skip(r->Ok_0 as int)
                &&& final(into)@ == old(self).remaining().take(r->Ok_0 as int) + old(into)@.skip(
                    r->Ok_0 as int,
                )
            },
    {
        if into.len() > 0 && self.pos == self.data.len() {
            return match self.end {
                SourceEnd::Eof => Ok(0),
                SourceEnd::WouldBlock => Err(GzError::WouldBlock),
                SourceEnd::UnexpectedEof => Err(GzError::UnexpectedEof),
                SourceEnd::Failed => Err(GzError::Source),
            };
        }
        let ghost before: int = self.pos as int;
        let n = copy(into, self.data, &mut self.pos);
        proof {
            assert(self.data@.subrange(before, before + n) =~= self.data@.skip(before).take(
                n as int,
            ));
            assert(self.data@.skip(self.pos as int) =~= self.data@.skip(before).skip(n as int));
            assert(old(into)@.len() == 0 ==> final(into)@ =~= old(into)@) by {
                if old(into)@.len() == 0 {
                    assert(into@ =~= old(into)@);
                }
            }
        }
        Ok(n)
    }
}

} // verus!
