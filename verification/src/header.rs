//! The header of a gzip member: the record, its layout in bytes, and the
//! meaning of a parse.

use vstd::prelude::*;
use crate::crc::crc32;
use crate::error::GzError;
use crate::level::Compression;

verus! {

/// The flag bit for a CRC-16 of the header.
pub const FHCRC: u8 = 2;

/// The flag bit for an extra field.
pub const FEXTRA: u8 = 4;

/// The flag bit for a file name.
pub const FNAME: u8 = 8;

/// The flag bit for a comment.
pub const FCOMMENT: u8 = 16;

/// The operating system byte for "unknown".
pub const OS_UNKNOWN: u8 = 255;

/// What the header of a member records. All byte strings are raw bytes.
#[derive(Debug)]
pub struct GzHeader {
    /// The extra field, where there is one.
    pub extra: Option<Vec<u8>>,
    /// The file name without its terminator, where there is one.
    pub filename: Option<Vec<u8>>,
    /// The comment without its terminator, where there is one.
    pub comment: Option<Vec<u8>>,
    /// The operating system that wrote the member.
    pub operating_system: u8,
    /// The modification time in seconds since the epoch; 0 for none.
    pub mtime: u32,
}

/// A header record as mathematics sees it: the fields of [`GzHeader`],
/// with sequences for byte strings.
pub ghost struct HeaderView {
    /// The extra field.
    pub extra: Option<Seq<u8>>,
    /// The file name without its terminator.
    pub filename: Option<Seq<u8>>,
    /// The comment without its terminator.
    pub comment: Option<Seq<u8>>,
    /// The operating system.
    pub operating_system: u8,
    /// The modification time.
    pub mtime: u32,
}

/// The bytes of an optional byte string.
pub open spec fn bytes_view(field: Option<Vec<u8>>) -> Option<Seq<u8>> {
    match field {
        Some(bytes) => Some(bytes@),
        None => None,
    }
}

impl View for GzHeader {
    type V = HeaderView;

    open spec fn view(&self) -> HeaderView {
        HeaderView {
            extra: bytes_view(self.extra),
            filename: bytes_view(self.filename),
            comment: bytes_view(self.comment),
            operating_system: self.operating_system,
            mtime: self.mtime,
        }
    }
}

/// Two bytes, low byte first.
pub open spec fn le16(x: u16) -> Seq<u8> {
    seq![(x & 0xff) as u8, (x >> 8) as u8]
}

/// Four bytes, lowest byte first.
pub open spec fn le32(x: u32) -> Seq<u8> {
    seq![
        (x & 0xff) as u8,
        ((x >> 8) & 0xff) as u8,
        ((x >> 16) & 0xff) as u8,
        ((x >> 24) & 0xff) as u8,
    ]
}

/// The number that two bytes stand for, low byte first.
pub open spec fn u16_of_le(b0: u8, b1: u8) -> u16 {
    (b0 as u16) | ((b1 as u16) << 8)
}

/// The number that four bytes stand for, lowest byte first.
pub open spec fn u32_of_le(b0: u8, b1: u8, b2: u8, b3: u8) -> u32 {
    (b0 as u32) | ((b1 as u32) << 8) | ((b2 as u32) << 16) | ((b3 as u32) << 24)
}

/// The extra-flags byte that goes with a level: 2 for the highest level,
/// 4 for level 1 and below, else 0.
pub open spec fn xfl_of(level: u32) -> u8 {
    if level >= 9 {
        2
    } else if level <= 1 {
        4
    } else {
        0
    }
}

impl HeaderView {
    /// The record of a member about which nothing is known: no optional
    /// field, no time, operating system unknown.
    pub open spec fn unknown() -> HeaderView {
        HeaderView {
            extra: None,
            filename: None,
            comment: None,
            operating_system: OS_UNKNOWN,
            mtime: 0,
        }
    }

    /// The flag byte: one bit for each optional field that is there. The
    /// text bit and the header-CRC bit are never set.
    pub open spec fn flags(self) -> u8 {
        (if self.extra is Some { FEXTRA } else { 0u8 })
        | (if self.filename is Some { FNAME } else { 0u8 })
        | (if self.comment is Some { FCOMMENT } else { 0u8 })
    }

    /// Whether the record can be laid out: the extra field fits its 16-bit
    /// length, and neither name nor comment holds a zero byte, which would
    /// end it early.
    pub open spec fn encodable(self) -> bool {
        &&& self.extra is Some ==> self.extra->Some_0.len() <= 0xFFFF
        &&& self.filename is Some ==> !self.filename->Some_0.contains(0u8)
        &&& self.comment is Some ==> !self.comment->Some_0.contains(0u8)
    }

    /// The ten bytes that every header starts with.
    pub open spec fn fixed_part(self, xfl: u8) -> Seq<u8> {
        seq![0x1fu8, 0x8bu8, 8u8, self.flags()] + le32(self.mtime) + seq![
            xfl,
            self.operating_system,
        ]
    }

    /// The extra field behind its length.
    pub open spec fn extra_part(self) -> Seq<u8> {
        match self.extra {
            Some(extra) => le16(extra.len() as u16) + extra,
            None => Seq::<u8>::empty(),
        }
    }

    /// The bytes of the whole header.
    pub open spec fn bytes(self, xfl: u8) -> Seq<u8> {
        self.fixed_part(xfl) + self.extra_part() + terminated(self.filename) + terminated(
            self.comment,
        )
    }
}

/// An optional byte string with its zero terminator.
pub open spec fn terminated(field: Option<Seq<u8>>) -> Seq<u8> {
    match field {
        Some(bytes) => bytes.push(0u8),
        None => Seq::<u8>::empty(),
    }
}

/// Whether `bytes` holds a zero byte.
pub fn has_zero(bytes: &[u8]) -> (found: bool)
    ensures
        found == bytes@.contains(0u8),
{
    let mut i: usize = 0;
    while i < bytes.len()
        invariant
            i <= bytes.len(),
            forall|j: int| 0 <= j < i ==> bytes@[j] != 0u8,
        decreases bytes.len() - i,
    {
        if bytes[i] == 0 {
            return true;
        }
        i += 1;
    }
    false
}

/// Appends `bytes` to `out`.
pub fn append(out: &mut Vec<u8>, bytes: &[u8])
    ensures
        final(out)@ == old(out)@ + bytes@,
{
    let mut i: usize = 0;
    while i < bytes.len()
        invariant
            i <= bytes.len(),
            out@ == old(out)@ + bytes@.take(i as int),
        decreases bytes.len() - i,
    {
        out.push(bytes[i]);
        i += 1;
        assert(bytes@.take(i as int) =~= bytes@.take(i - 1).push(bytes@[i - 1]));
        assert(out@ =~= old(out)@ + bytes@.take(i as int));
    }
    assert(bytes@.take(bytes@.len() as int) =~= bytes@);
}

/// Appends `x` to `out`, lowest byte first.
pub fn append_le32(out: &mut Vec<u8>, x: u32)
    ensures
        final(out)@ == old(out)@ + le32(x),
{
    out.push((x & 0xff) as u8);
    out.push(((x >> 8) & 0xff) as u8);
    out.push(((x >> 16) & 0xff) as u8);
    out.push(((x >> 24) & 0xff) as u8);
    assert(out@ =~= old(out)@ + le32(x));
}

impl GzHeader {
    /// The record of a member about which nothing is known: no optional
    /// field, no time, operating system unknown.
    pub fn unknown() -> (header: GzHeader)
        ensures
            header@ == HeaderView::unknown(),
            header@.encodable(),
    {
        GzHeader {
            extra: None,
            filename: None,
            comment: None,
            operating_system: OS_UNKNOWN,
            mtime: 0,
        }
    }

    /// Lays the record out as the header of a member compressed at `lvl`.
    /// There is a layout exactly for an encodable record.
    pub fn encode(&self, lvl: Compression) -> (bytes: Option<Vec<u8>>)
        ensures
            bytes is Some <==> self@.encodable(),
            bytes is Some ==> bytes->Some_0@ == self@.bytes(xfl_of(lvl.spec_level())),
    {
        let mut flg: u8 = 0;
        match &self.extra {
            Some(extra) => {
                if extra.len() > 0xFFFF {
                    return None;
                }
                flg = flg | FEXTRA;
            },
            None => {},
        }
        match &self.filename {
            Some(name) => {
                if has_zero(name.as_slice()) {
                    return None;
                }
                flg = flg | FNAME;
            },
            None => {},
        }
        match &self.comment {
            Some(comment) => {
                if has_zero(comment.as_slice()) {
                    return None;
                }
                flg = flg | FCOMMENT;
            },
            None => {},
        }
        assert(flg == self@.flags()) by {
            assert(0u8 | 0u8 == 0u8) by (bit_vector);
            assert(forall|x: u8| #[trigger] (0u8 | x) == x) by (bit_vector);
            assert(forall|x: u8| #[trigger] (x | 0u8) == x) by (bit_vector);
        }
        let level: u32 = lvl.level();
        let xfl: u8 = if level >= 9 {
            2
        } else if level <= 1 {
            4
        } else {
            0
        };
        let mut out: Vec<u8> = Vec::new();
        out.push(0x1f);
        out.push(0x8b);
        out.push(8);
        out.push(flg);
        append_le32(&mut out, self.mtime);
        out.push(xfl);
        out.push(self.operating_system);
        assert(out@ =~= self@.fixed_part(xfl));
        match &self.extra {
            Some(extra) => {
                let len: u16 = extra.len() as u16;
                out.push((len & 0xff) as u8);
                out.push((len >> 8) as u8);
                append(&mut out, extra.as_slice());
                assert(out@ =~= self@.fixed_part(xfl) + self@.extra_part());
            },
            None => {
                assert(out@ =~= self@.fixed_part(xfl) + self@.extra_part());
            },
        }
        let ghost before_name = out@;
        match &self.filename {
            Some(name) => {
                append(&mut out, name.as_slice());
                out.push(0);
                assert(out@ =~= before_name + terminated(self@.filename));
            },
            None => {
                assert(out@ =~= before_name + terminated(self@.filename));
            },
        }
        let ghost before_comment = out@;
        match &self.comment {
            Some(comment) => {
                append(&mut out, comment.as_slice());
                out.push(0);
                assert(out@ =~= before_comment + terminated(self@.comment));
            },
            None => {
                assert(out@ =~= before_comment + terminated(self@.comment));
            },
        }
        Some(out)
    }
}


/// What a sequence of bytes is, read as the start of a member.
pub ghost enum Parsed {
    /// A whole header: the record and the number of bytes it takes.
    Complete(HeaderView, int),
    /// The bytes end before the header does.
    Short,
    /// The bytes cannot start a member, or fail the header's own checksum.
    Invalid(GzError),
}

/// An optional field as parsed, and where the next field begins.
pub ghost struct Field {
    /// The bytes of the field, where there is one.
    pub value: Option<Seq<u8>>,
    /// The place behind the field.
    pub next: int,
}

/// The place of the first zero byte of `s` at or after `at`; the length of
/// `s` where there is none.
pub open spec fn first_zero(s: Seq<u8>, at: int) -> int
    decreases s.len() - at,
{
    if at < 0 || at >= s.len() {
        s.len() as int
    } else if s[at] == 0 {
        at
    } else {
        first_zero(s, at + 1)
    }
}

/// The extra field at `at`: a 16-bit length and that many bytes, where the
/// flag says so. `None` where `s` ends before the field does.
pub open spec fn parse_extra(s: Seq<u8>, flg: u8, at: int) -> Option<Field> {
    if flg & FEXTRA == 0 {
        Some(Field { value: None, next: at })
    } else if s.len() < at + 2 {
        None
    } else {
        let xlen = u16_of_le(s[at], s[at + 1]) as int;
        if s.len() < at + 2 + xlen {
            None
        } else {
            Some(Field { value: Some(s.subrange(at + 2, at + 2 + xlen)), next: at + 2 + xlen })
        }
    }
}

/// A zero-terminated field at `at`, where `present` says that there is
/// one. `None` where `s` ends before the terminator.
pub open spec fn parse_terminated(s: Seq<u8>, present: bool, at: int) -> Option<Field> {
    if !present {
        Some(Field { value: None, next: at })
    } else {
        let zero = first_zero(s, at);
        if zero >= s.len() {
            None
        } else {
            Some(Field { value: Some(s.subrange(at, zero)), next: zero + 1 })
        }
    }
}

/// The low sixteen bits of the CRC-32 of `s`: the checksum of a header.
pub open spec fn crc16(s: Seq<u8>) -> u16 {
    (crc32(s) & 0xffff) as u16
}

/// The header at the start of `s`.
///
/// Ten fixed bytes come first, and fewer than ten are always too few. Then
/// the magic bytes and the method are checked, then the optional fields are
/// taken in their order, then the header's checksum where the flag asks
/// for it. Flag bits without a meaning here are passed over.
pub open spec fn parse_header(s: Seq<u8>) -> Parsed {
    if s.len() < 10 {
        Parsed::Short
    } else if s[0] != 0x1f || s[1] != 0x8b || s[2] != 8 {
        Parsed::Invalid(GzError::BadHeader)
    } else {
        let flg = s[3];
        match parse_extra(s, flg, 10) {
            None => Parsed::Short,
            Some(extra) => match parse_terminated(s, flg & FNAME != 0, extra.next) {
                None => Parsed::Short,
                Some(filename) => match parse_terminated(s, flg & FCOMMENT != 0, filename.next) {
                    None => Parsed::Short,
                    Some(comment) => {
                        let header = HeaderView {
                            extra: extra.value,
                            filename: filename.value,
                            comment: comment.value,
                            operating_system: s[9],
                            mtime: u32_of_le(s[4], s[5], s[6], s[7]),
                        };
                        let end = comment.next;
                        if flg & FHCRC == 0 {
                            Parsed::Complete(header, end)
                        } else if s.len() < end + 2 {
                            Parsed::Short
                        } else if u16_of_le(s[end], s[end + 1]) != crc16(s.take(end)) {
                            Parsed::Invalid(GzError::Corrupt)
                        } else {
                            Parsed::Complete(header, end + 2)
                        }
                    },
                },
            },
        }
    }
}


/// How far a parse reads into `s`: to the end of a whole header; over the
/// ten fixed bytes and no further where these cannot start a member; to
/// the end of the header's checksum where that is wrong; and over all of
/// `s` where `s` is too short.
pub open spec fn parse_reach(s: Seq<u8>) -> int {
    match parse_header(s) {
        Parsed::Complete(_, len) => len,
        Parsed::Short => s.len() as int,
        Parsed::Invalid(e) => if e == GzError::BadHeader {
            10
        } else {
            let extra = parse_extra(s, s[3], 10)->Some_0;
            let filename = parse_terminated(s, s[3] & FNAME != 0, extra.next)->Some_0;
            let comment = parse_terminated(s, s[3] & FCOMMENT != 0, filename.next)->Some_0;
            comment.next + 2
        },
    }
}

/// The first zero at or after `at` is at or after `at`, within `s`, a zero
/// where it is inside `s`, and has no zero before it.
pub proof fn lemma_first_zero(s: Seq<u8>, at: int)
    requires
        0 <= at <= s.len(),
    ensures
        at <= first_zero(s, at) <= s.len(),
        first_zero(s, at) < s.len() ==> s[first_zero(s, at)] == 0,
        forall|i: int| at <= i < first_zero(s, at) ==> s[i] != 0,
    decreases s.len() - at,
{
    if at < s.len() && s[at] != 0 {
        lemma_first_zero(s, at + 1);
    }
}

/// A whole header takes at least its ten fixed bytes and no more bytes
/// than there are.
pub proof fn lemma_complete_len(s: Seq<u8>)
    ensures
        parse_header(s) is Complete ==> 10 <= parse_header(s)->Complete_1 <= s.len(),
{
    if parse_header(s) is Complete {
        let flg = s[3];
        let extra = parse_extra(s, flg, 10)->Some_0;
        assert(10 <= extra.next <= s.len());
        lemma_first_zero(s, extra.next);
        let filename = parse_terminated(s, flg & FNAME != 0, extra.next)->Some_0;
        assert(extra.next <= filename.next <= s.len());
        lemma_first_zero(s, filename.next);
        let comment = parse_terminated(s, flg & FCOMMENT != 0, filename.next)->Some_0;
        assert(filename.next <= comment.next <= s.len());
    }
}

} // verus!
