//! Parsing the header of a member from a source that may run dry at any
//! byte.

use vstd::prelude::*;
use crate::crc::CrcReader;
use crate::error::bad_header;
use crate::error::corrupt;
use crate::error::GzError;
use crate::header::bytes_view;
use crate::header::first_zero;
use crate::header::parse_extra;
use crate::header::parse_header;
use crate::header::parse_reach;
use crate::header::parse_terminated;
use crate::header::u16_of_le;
use crate::header::GzHeader;
use crate::header::Parsed;
use crate::header::FCOMMENT;
use crate::header::FEXTRA;
use crate::header::FHCRC;
use crate::header::FNAME;
use crate::replay::Buffer;
use crate::source::Source;

verus! {

/// Reads a 16-bit number, low byte first.
pub fn read_le_u16(r: &mut CrcReader, reader: &mut Source<'_>) -> (res: Result<u16, GzError>)
    requires
        old(r).wf(),
        old(reader).wf(),
    ensures
        final(r).kept(old(reader), old(r), final(reader)),
        res is Ok <==> old(r).offset() + 2 <= old(r).stream(old(reader)).len(),
        res is Ok ==> {
            let s = old(r).stream(old(reader));
            let off = old(r).offset() as int;
            &&& res->Ok_0 == u16_of_le(s[off], s[off + 1])
            &&& final(r).offset() == off + 2
        },
        res is Err ==> {
            &&& res->Err_0 == old(reader).end().short()
            &&& final(reader).remaining().len() == 0
        },
{
    let mut b = [0u8;2];
    match r.read_exact(reader, &mut b) {
        Err(e) => Err(e),
        Ok(()) => Ok((b[0] as u16) | ((b[1] as u16) << 8)),
    }
}

/// Reads up to the next zero byte, takes the zero too, and returns the
/// bytes before it.
pub fn read_terminated(r: &mut CrcReader, reader: &mut Source<'_>) -> (res: Result<
    Vec<u8>,
    GzError,
>)
    requires
        old(r).wf(),
        old(reader).wf(),
    ensures
        final(r).kept(old(reader), old(r), final(reader)),
        res is Ok <==> {
            let s = old(r).stream(old(reader));
            first_zero(s, old(r).offset() as int) < s.len()
        },
        res is Ok ==> {
            let s = old(r).stream(old(reader));
            let off = old(r).offset() as int;
            &&& res->Ok_0@ == s.subrange(off, first_zero(s, off))
            &&& final(r).offset() == first_zero(s, off) + 1
        },
        res is Err ==> {
            &&& res->Err_0 == old(reader).end().short()
            &&& final(reader).remaining().len() == 0
        },
{
    let ghost s = r.stream(reader);
    let ghost off = r.offset() as int;
    let mut bytes: Vec<u8> = Vec::new();
    proof {
        r.lemma_seen_is_prefix(reader);
    }
    loop
        invariant
            r.kept(old(reader), old(r), reader),
            s == old(r).stream(old(reader)),
            off == old(r).offset(),
            r.offset() == off + bytes@.len(),
            r.offset() <= s.len(),
            bytes@ == s.subrange(off, off + bytes@.len()),
            first_zero(s, off) == first_zero(s, r.offset() as int),
        decreases s.len() - r.offset(),
    {
        let mut one = [0u8;1];
        match r.read_exact(reader, &mut one) {
            Err(e) => {
                return Err(e);
            },
            Ok(()) => {},
        }
        let byte: u8 = one[0];
        if byte == 0 {
            return Ok(bytes);
        }
        bytes.push(byte);
        proof {
            r.lemma_seen_is_prefix(reader);
            assert(bytes@ =~= s.subrange(off, off + bytes@.len()));
        }
    }
}

/// Reads the extra field, where the flag byte says that there is one.
pub fn read_extra(r: &mut CrcReader, reader: &mut Source<'_>, flg: u8) -> (res: Result<
    Option<Vec<u8>>,
    GzError,
>)
    requires
        old(r).wf(),
        old(reader).wf(),
    ensures
        final(r).kept(old(reader), old(r), final(reader)),
        match parse_extra(old(r).stream(old(reader)), flg, old(r).offset() as int) {
            Some(field) => {
                &&& res is Ok
                &&& bytes_view(res->Ok_0) == field.value
                &&& final(r).offset() == field.next
            },
            None => {
                &&& res == Err::<Option<Vec<u8>>, GzError>(old(reader).end().short())
                &&& final(reader).remaining().len() == 0
            },
        },
{
    if flg & FEXTRA != 0 {
        let xlen: u16 = match read_le_u16(r, reader) {
            Err(e) => {
                return Err(e);
            },
            Ok(xlen) => xlen,
        };
        let mut extra: Vec<u8> = vec![0u8; xlen as usize];
        match r.read_exact(reader, extra.as_mut_slice()) {
            Err(e) => {
                return Err(e);
            },
            Ok(()) => {},
        }
        Ok(Some(extra))
    } else {
        Ok(None)
    }
}

/// Reads a zero-terminated field, where `present` says that there is one.
pub fn read_field(r: &mut CrcReader, reader: &mut Source<'_>, present: bool) -> (res: Result<
    Option<Vec<u8>>,
    GzError,
>)
    requires
        old(r).wf(),
        old(reader).wf(),
    ensures
        final(r).kept(old(reader), old(r), final(reader)),
        match parse_terminated(old(r).stream(old(reader)), present, old(r).offset() as int) {
            Some(field) => {
                &&& res is Ok
                &&& bytes_view(res->Ok_0) == field.value
                &&& final(r).offset() == field.next
            },
            None => {
                &&& res == Err::<Option<Vec<u8>>, GzError>(old(reader).end().short())
                &&& final(reader).remaining().len() == 0
            },
        },
{
    if present {
        match read_terminated(r, reader) {
            Err(e) => Err(e),
            Ok(bytes) => Ok(Some(bytes)),
        }
    } else {
        Ok(None)
    }
}

/// Parses a header from a checksummed reader that has handed out nothing
/// yet.
fn parse_member(r: &mut CrcReader, reader: &mut Source<'_>) -> (res: Result<GzHeader, GzError>)
    requires
        old(r).wf(),
        old(r).offset() == 0,
        old(reader).wf(),
    ensures
        final(r).kept(old(reader), old(r), final(reader)),
        match parse_header(old(r).stream(old(reader))) {
            Parsed::Complete(header, len) => {
                &&& res is Ok
                &&& res->Ok_0@ == header
                &&& final(r).offset() == len
            },
            Parsed::Invalid(e) => {
                &&& res == Err::<GzHeader, GzError>(e)
                &&& final(r).offset() == parse_reach(old(r).stream(old(reader)))
            },
            Parsed::Short => {
                &&& res == Err::<GzHeader, GzError>(old(reader).end().short())
                &&& final(reader).remaining().len() == 0
            },
        },
{
    let ghost s = r.stream(reader);
    let mut header = [0u8;10];
    match r.read_exact(reader, &mut header) {
        Err(e) => {
            return Err(e);
        },
        Ok(()) => {},
    }
    let id1: u8 = header[0];
    let id2: u8 = header[1];
    if id1 != 0x1f || id2 != 0x8b {
        return Err(bad_header());
    }
    let cm: u8 = header[2];
    if cm != 8 {
        return Err(bad_header());
    }
    let flg: u8 = header[3];
    let mtime: u32 = (header[4] as u32) | ((header[5] as u32) << 8) | ((header[6] as u32) << 16) | (
    (header[7] as u32) << 24);
    let os: u8 = header[9];

    let extra: Option<Vec<u8>> = match read_extra(r, reader, flg) {
        Err(e) => {
            return Err(e);
        },
        Ok(extra) => extra,
    };
    let filename: Option<Vec<u8>> = match read_field(r, reader, flg & FNAME != 0) {
        Err(e) => {
            return Err(e);
        },
        Ok(filename) => filename,
    };
    let comment: Option<Vec<u8>> = match read_field(r, reader, flg & FCOMMENT != 0) {
        Err(e) => {
            return Err(e);
        },
        Ok(comment) => comment,
    };

    if flg & FHCRC != 0 {
        proof {
            r.lemma_seen_is_prefix(reader);
        }
        let calced_crc: u16 = (r.crc().sum() & 0xffff) as u16;
        let stored_crc: u16 = match read_le_u16(r, reader) {
            Err(e) => {
                return Err(e);
            },
            Ok(stored) => stored,
        };
        if calced_crc != stored_crc {
            return Err(corrupt());
        }
    }
    Ok(GzHeader { extra, filename, comment, operating_system: os, mtime })
}

/// Parses the header of a member from `r`, which replays what earlier
/// attempts took from the source and reads on in `reader`.
///
/// The outcome is that of [`parse_header`] on the bytes that `r` and
/// `reader` stand for. Where they hold a whole header, `r` has handed out
/// exactly its bytes. Where they cannot start a member, `r` has handed out
/// the ten fixed bytes and no more; where the header's checksum is wrong,
/// the header with its checksum. Where they end too early, the error is
/// the source's answer, and all that the source had ready is in the log of
/// `r`: a later attempt replays it.
pub fn read_gz_header(r: &mut Buffer, reader: &mut Source<'_>) -> (res: Result<GzHeader, GzError>)
    requires
        old(r).wf(),
        old(r).offset() == 0,
        old(reader).wf(),
    ensures
        final(r).wf(),
        final(reader).wf(),
        final(reader).end() == old(reader).end(),
        final(reader).all() == old(reader).all(),
        final(reader).taken() >= old(reader).taken(),
        final(r).floor() == old(r).floor(),
        final(r).stream(final(reader)) == old(r).stream(old(reader)),
        match parse_header(old(r).stream(old(reader))) {
            Parsed::Complete(header, len) => {
                &&& res is Ok
                &&& res->Ok_0@ == header
                &&& final(r).offset() == len
            },
            Parsed::Invalid(e) => {
                &&& res == Err::<GzHeader, GzError>(e)
                &&& final(r).offset() == parse_reach(old(r).stream(old(reader)))
            },
            Parsed::Short => {
                &&& res == Err::<GzHeader, GzError>(old(reader).end().short())
                &&& final(reader).remaining().len() == 0
            },
        },
{
    let mut inner = Buffer::new(Vec::new());
    core::mem::swap(r, &mut inner);
    let mut crc_reader = CrcReader::new(inner);
    let res = parse_member(&mut crc_reader, reader);
    *r = crc_reader.into_inner();
    res
}

} // verus!
