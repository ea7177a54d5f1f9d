//! A reader that remembers: bytes taken from the source while a header was
//! being parsed are kept, so that a parse cut short can be made again.

use vstd::prelude::*;
use vstd::slice::slice_subrange;
use crate::error::GzError;
use crate::header::append;
use crate::source::copy;
use crate::source::Source;
use crate::source::SourceEnd;

verus! {

impl SourceEnd {
    /// The error of a read that needs a byte where the source has none
    /// ready. The end of the stream is then an end too early.
    pub open spec fn short(self) -> GzError {
        match self {
            SourceEnd::Eof => GzError::UnexpectedEof,
            SourceEnd::WouldBlock => GzError::WouldBlock,
            SourceEnd::UnexpectedEof => GzError::UnexpectedEof,
            SourceEnd::Failed => GzError::Source,
        }
    }
}

/// A log of bytes already taken from the source, replayed from its start,
/// and then extended by whatever is read beyond it.
pub struct Buffer {
    buf: Vec<u8>,
    limit: usize,
    pos: usize,
}

impl Buffer {
    /// The cursor is inside the replayed part, and stands at its end once
    /// the log has grown.
    pub closed spec fn wf(&self) -> bool {
        &&& self.pos <= self.limit
        &&& self.limit <= self.buf@.len()
        &&& self.buf@.len() > self.limit ==> self.pos == self.limit
    }

    /// Every byte seen so far, replayed or read.
    pub closed spec fn log(&self) -> Seq<u8> {
        self.buf@
    }

    /// The length of the log that this reader was made with.
    pub closed spec fn floor(&self) -> nat {
        self.limit as nat
    }

    /// How many bytes this reader has handed out.
    pub closed spec fn offset(&self) -> nat {
        (self.pos + self.buf@.len() - self.limit) as nat
    }

    /// The bytes that this reader stands for: the log, then what the source
    /// has ready. Reading never changes it.
    pub open spec fn stream(&self, reader: &Source<'_>) -> Seq<u8> {
        self.log() + reader.remaining()
    }

    /// A reader is never further than its log, and the log grows only
    /// where the reader has gone beyond what it was made with.
    pub proof fn lemma_offset_in_log(&self)
        requires
            self.wf(),
        ensures
            self.offset() <= self.log().len(),
            self.log().len() == if self.offset() > self.floor() {
                self.offset()
            } else {
                self.floor()
            },
    {
    }

    /// A reader that replays `buf` from its start.
    pub fn new(buf: Vec<u8>) -> (buffer: Buffer)
        ensures
            buffer.wf(),
            buffer.log() == buf@,
            buffer.floor() == buf@.len(),
            buffer.offset() == 0,
    {
        let limit: usize = buf.len();
        Buffer { buf, limit, pos: 0 }
    }

    /// The log.
    pub fn into_inner(self) -> (buf: Vec<u8>)
        ensures
            buf@ == self.log(),
    {
        self.buf
    }

    /// Reads into the front of `into`: first from the log, then, where the
    /// log ends before `into` is full, from the source, and what the source
    /// gives is added to the log. The result is as many bytes as `into` and
    /// the stream allow. Where the log cannot fill `into` and the source has
    /// nothing ready, the read fails with the source's answer, and neither
    /// this reader nor the source has changed.
    pub fn read(&mut self, reader: &mut Source<'_>, into: &mut [u8]) -> (r: Result<usize, GzError>)
        requires
            old(self).wf(),
            old(reader).wf(),
        ensures
            final(self).wf(),
            final(reader).wf(),
            final(reader).end() == old(reader).end(),
            final(reader).all() == old(reader).all(),
            final(into)@.len() == old(into)@.len(),
            final(self).floor() == old(self).floor(),
            final(reader).taken() >= old(reader).taken(),
            final(self).stream(final(reader)) == old(self).stream(old(reader)),
            r is Err <==> old(reader).remaining().len() == 0 && old(into)@.len() > old(self).log().len()
                - old(self).offset(),
            r is Err ==> {
                &&& r->Err_0 == old(reader).end().short()
                &&& *final(reader) == *old(reader)
                &&& final(self).log() == old(self).log()
                &&& final(self).offset() == old(self).offset()
            },
            r is Ok ==> {
                let s = old(self).stream(old(reader));
                let off = old(self).offset() as int;
                let n = r->Ok_0 as int;
                &&& n == if old(into)@.len() <= s.len() - off {
                    old(into)@.len() as int
                } else {
                    s.len() - off
                }
                &&& final(self).offset() == off + n
                &&& final(into)@ == s.subrange(off, off + n) + old(into)@.skip(n)
            },
    {
        let start: usize = self.pos;
        let ghost s = self.stream(reader);
        let ghost off = self.offset() as int;
        let replay = slice_subrange(self.buf.as_slice(), 0, self.limit);
        let mut len: usize = copy(into, replay, &mut self.pos);
        if into.len() > len {
            let (head, rest) = into.split_at_mut(len);
            match reader.read(rest) {
                Err(e) => {
                    self.pos = start;
                    return Err(e);
                },
                Ok(len2) => {
                    if len2 == 0 {
                        self.pos = start;
                        return Err(GzError::UnexpectedEof);
                    }
                    let fresh = slice_subrange(rest, 0, len2);
                    append(&mut self.buf, fresh);
                    proof {
                        assert(self.buf@ + reader.remaining() =~= s);
                        assert(head@ + rest@ =~= s.subrange(off, off + len + len2) + old(into)@.skip(
                            len + len2,
                        ));
                    }
                    len = len + len2;
                },
            }
        } else {
            proof {
                assert(into@ =~= s.subrange(off, off + len) + old(into)@.skip(len as int));
            }
        }
        Ok(len)
    }
}

} // verus!
