use gzcodec::crc::Crc;
use gzcodec::crc::CrcReader;
use gzcodec::error::bad_header;
use gzcodec::error::corrupt;
use gzcodec::header::has_zero;
use gzcodec::parse::read_gz_header;
use gzcodec::parse::read_le_u16;
use gzcodec::replay::Buffer;
use gzcodec::Compression;
use gzcodec::ErrorKind;
use gzcodec::GzError;
use gzcodec::GzHeader;
use gzcodec::Source;
use gzcodec::SourceEnd;

fn parse(bytes: &[u8], end: SourceEnd) -> (Result<GzHeader, GzError>, usize, Vec<u8>) {
    let mut source = Source::new(bytes, end);
    let mut replay = Buffer::new(Vec::new());
    let res = read_gz_header(&mut replay, &mut source);
    (res, source.consumed(), replay.into_inner())
}

fn with_header_crc(mut header: Vec<u8>) -> Vec<u8> {
    let mut crc = Crc::new();
    crc.update(&header);
    let sum = crc.sum();
    header.push((sum & 0xff) as u8);
    header.push(((sum >> 8) & 0xff) as u8);
    header
}

#[test]
fn plain_header_parses() {
    let bytes = [0x1F, 0x8B, 0x08, 0x00, 0x78, 0x56, 0x34, 0x12, 0x02, 0x03, 0xAA, 0xBB];
    let (res, taken, log) = parse(&bytes, SourceEnd::Eof);
    let header = res.unwrap();
    assert_eq!(header.mtime, 0x12345678);
    assert_eq!(header.operating_system, 3);
    assert_eq!(header.extra, None);
    assert_eq!(header.filename, None);
    assert_eq!(header.comment, None);
    assert_eq!(taken, 10);
    assert_eq!(log, bytes[..10].to_vec());
}

#[test]
fn extra_of_length_zero_is_there_and_empty() {
    let bytes = [0x1F, 0x8B, 0x08, 0x04, 0, 0, 0, 0, 0, 0xFF, 0x00, 0x00, 0x55];
    let (res, taken, _) = parse(&bytes, SourceEnd::Eof);
    let header = res.unwrap();
    assert_eq!(header.extra, Some(Vec::new()));
    assert_eq!(header.filename, None);
    assert_eq!(taken, 12);
}

#[test]
fn extra_bytes_are_taken_by_length() {
    let bytes = [0x1F, 0x8B, 0x08, 0x04, 0, 0, 0, 0, 0, 0xFF, 0x03, 0x00, 9, 0, 7, 0x55];
    let (res, taken, _) = parse(&bytes, SourceEnd::Eof);
    assert_eq!(res.unwrap().extra, Some(vec![9, 0, 7]));
    assert_eq!(taken, 15);
}

#[test]
fn empty_name_and_comment_are_there_and_empty() {
    let bytes = [0x1F, 0x8B, 0x08, 0x18, 0, 0, 0, 0, 0, 0xFF, 0x00, 0x00, 0x55];
    let (res, taken, _) = parse(&bytes, SourceEnd::Eof);
    let header = res.unwrap();
    assert_eq!(header.filename, Some(Vec::new()));
    assert_eq!(header.comment, Some(Vec::new()));
    assert_eq!(header.extra, None);
    assert_eq!(taken, 12);

    let absent = [0x1F, 0x8B, 0x08, 0x00, 0, 0, 0, 0, 0, 0xFF, 0x00, 0x00];
    let (res, taken, _) = parse(&absent, SourceEnd::Eof);
    let header = res.unwrap();
    assert_eq!(header.filename, None);
    assert_eq!(header.comment, None);
    assert_eq!(taken, 10);
}

#[test]
fn all_fields_in_their_order() {
    let mut bytes = vec![0x1F, 0x8B, 0x08, 0x1C, 1, 0, 0, 0, 0, 7];
    bytes.extend_from_slice(&[2, 0, 0xA1, 0xA2]);
    bytes.extend_from_slice(b"name\0");
    bytes.extend_from_slice(b"note\0");
    bytes.extend_from_slice(b"body");
    let (res, taken, _) = parse(&bytes, SourceEnd::Eof);
    let header = res.unwrap();
    assert_eq!(header.extra, Some(vec![0xA1, 0xA2]));
    assert_eq!(header.filename, Some(b"name".to_vec()));
    assert_eq!(header.comment, Some(b"note".to_vec()));
    assert_eq!(header.mtime, 1);
    assert_eq!(header.operating_system, 7);
    assert_eq!(taken, bytes.len() - 4);
}

#[test]
fn reserved_flag_bits_are_passed_over() {
    let bytes = [0x1F, 0x8B, 0x08, 0xE1, 0, 0, 0, 0, 0, 0xFF, 0x55];
    let (res, taken, _) = parse(&bytes, SourceEnd::Eof);
    let header = res.unwrap();
    assert_eq!(header.extra, None);
    assert_eq!(header.filename, None);
    assert_eq!(header.comment, None);
    assert_eq!(taken, 10);
}

#[test]
fn header_checksum_is_checked() {
    let mut fixed = vec![0x1F, 0x8B, 0x08, 0x0A, 0, 0, 0, 0, 0, 3];
    fixed.extend_from_slice(b"file.txt\0");
    let good = with_header_crc(fixed);
    let (res, taken, _) = parse(&good, SourceEnd::Eof);
    assert_eq!(res.unwrap().filename, Some(b"file.txt".to_vec()));
    assert_eq!(taken, good.len());

    for bit in 0..16 {
        let mut bad = good.clone();
        let n = bad.len();
        bad[n - 2 + bit / 8] ^= 1 << (bit % 8);
        bad.extend_from_slice(&[9, 9, 9]);
        let (res, taken, _) = parse(&bad, SourceEnd::Eof);
        assert_eq!(res.err(), Some(GzError::Corrupt));
        assert_eq!(taken, good.len());
    }
    let mut bad = good.clone();
    bad[12] ^= 0x01;
    let (res, _, _) = parse(&bad, SourceEnd::Eof);
    assert_eq!(res.err(), Some(GzError::Corrupt));
}

#[test]
fn wrong_magic_or_method_is_a_bad_header() {
    let cases: [[u8; 10]; 3] = [
        [0x1E, 0x8B, 0x08, 0, 0, 0, 0, 0, 0, 0],
        [0x1F, 0x8C, 0x08, 0, 0, 0, 0, 0, 0, 0],
        [0x1F, 0x8B, 0x09, 0, 0, 0, 0, 0, 0, 0],
    ];
    for case in cases.iter() {
        let (res, taken, _) = parse(case, SourceEnd::Eof);
        assert_eq!(res.err(), Some(GzError::BadHeader));
        assert_eq!(taken, 10);
    }
    let (res, _, _) = parse(&[0x00, 0x00], SourceEnd::WouldBlock);
    assert_eq!(res.err(), Some(GzError::WouldBlock));
}

#[test]
fn short_input_gives_the_answer_of_the_source() {
    let whole = [0x1F, 0x8B, 0x08, 0x08, 0, 0, 0, 0, 0, 0xFF, b'a', b'b', 0];
    for cut in 0..whole.len() {
        let (res, taken, log) = parse(&whole[..cut], SourceEnd::WouldBlock);
        assert_eq!(res.err(), Some(GzError::WouldBlock));
        assert_eq!(taken, cut);
        assert_eq!(log, whole[..cut].to_vec());
        let (res, _, _) = parse(&whole[..cut], SourceEnd::Eof);
        assert_eq!(res.err(), Some(GzError::UnexpectedEof));
        let (res, _, _) = parse(&whole[..cut], SourceEnd::UnexpectedEof);
        assert_eq!(res.err(), Some(GzError::UnexpectedEof));
        let (res, _, _) = parse(&whole[..cut], SourceEnd::Failed);
        assert_eq!(res.err(), Some(GzError::Source));
    }
    let (res, taken, _) = parse(&whole, SourceEnd::WouldBlock);
    assert_eq!(res.unwrap().filename, Some(b"ab".to_vec()));
    assert_eq!(taken, whole.len());
}

#[test]
fn parse_resumes_from_the_log() {
    let whole = [0x1F, 0x8B, 0x08, 0x08, 0, 0, 0, 0, 0, 0xFF, b'a', b'b', 0, 0x77, 0x78];
    for cut in 0..13 {
        let mut first = Source::new(&whole[..cut], SourceEnd::WouldBlock);
        let mut replay = Buffer::new(Vec::new());
        assert_eq!(read_gz_header(&mut replay, &mut first).err(), Some(GzError::WouldBlock));
        let log = replay.into_inner();
        assert_eq!(log, whole[..cut].to_vec());
        let mut second = Source::new(&whole[cut..], SourceEnd::WouldBlock);
        let mut replay = Buffer::new(log);
        let header = read_gz_header(&mut replay, &mut second).unwrap();
        assert_eq!(header.filename, Some(b"ab".to_vec()));
        assert_eq!(second.consumed(), 13 - cut);
        assert_eq!(replay.into_inner(), whole[..13].to_vec());
    }
}

#[test]
fn layout_then_parse_gives_the_record_back() {
    let records = [
        GzHeader { extra: None, filename: None, comment: None, operating_system: 255, mtime: 0 },
        GzHeader {
            extra: Some(vec![]),
            filename: Some(vec![]),
            comment: Some(vec![]),
            operating_system: 0,
            mtime: 0xFFFFFFFF,
        },
        GzHeader {
            extra: Some(vec![0, 0, 1, 0]),
            filename: Some(b"\xFFname with spaces".to_vec()),
            comment: None,
            operating_system: 3,
            mtime: 0x01020304,
        },
        GzHeader {
            extra: None,
            filename: None,
            comment: Some(b"only a comment".to_vec()),
            operating_system: 11,
            mtime: 5,
        },
    ];
    for record in records.iter() {
        let mut bytes = record.encode(Compression::default()).unwrap();
        let len = bytes.len();
        bytes.extend_from_slice(&[0, 1, 2, 0, 3]);
        let (res, taken, _) = parse(&bytes, SourceEnd::Eof);
        let parsed = res.unwrap();
        assert_eq!(taken, len);
        assert_eq!(parsed.extra, record.extra);
        assert_eq!(parsed.filename, record.filename);
        assert_eq!(parsed.comment, record.comment);
        assert_eq!(parsed.operating_system, record.operating_system);
        assert_eq!(parsed.mtime, record.mtime);
    }
}

#[test]
fn unknown_record_is_the_plainest_header() {
    let bytes = GzHeader::unknown().encode(Compression::default()).unwrap();
    assert_eq!(bytes, vec![0x1F, 0x8B, 0x08, 0x00, 0x00, 0x00, 0x00, 0x00, 0x00, 0xFF]);
}

#[test]
fn le_u16_is_low_byte_first() {
    let bytes = [0x34, 0x12, 0xFF];
    let mut source = Source::new(&bytes, SourceEnd::Eof);
    let mut reader = CrcReader::new(Buffer::new(Vec::new()));
    assert_eq!(read_le_u16(&mut reader, &mut source), Ok(0x1234));
    assert_eq!(source.consumed(), 2);
    let mut sum = Crc::new();
    sum.update(&bytes[..2]);
    assert_eq!(reader.crc().sum(), sum.sum());
    assert_eq!(reader.crc().amount(), 2);
    assert_eq!(read_le_u16(&mut reader, &mut source), Err(GzError::UnexpectedEof));
    assert_eq!(reader.into_inner().into_inner(), bytes.to_vec());
}

#[test]
fn le_u16_from_log_and_source() {
    let mut source = Source::new(&[0xCD], SourceEnd::WouldBlock);
    let mut reader = CrcReader::new(Buffer::new(vec![0xAB]));
    assert_eq!(read_le_u16(&mut reader, &mut source), Ok(0xCDAB));
    assert_eq!(read_le_u16(&mut reader, &mut source), Err(GzError::WouldBlock));
}

#[test]
fn zero_bytes_are_found() {
    assert!(!has_zero(b""));
    assert!(!has_zero(b"abc"));
    assert!(has_zero(b"ab\0"));
    assert!(has_zero(b"\0ab"));
}

#[test]
fn errors_have_kinds_and_texts() {
    assert_eq!(corrupt(), GzError::Corrupt);
    assert_eq!(bad_header(), GzError::BadHeader);
    assert_eq!(corrupt().kind(), ErrorKind::InvalidInput);
    assert_eq!(bad_header().kind(), ErrorKind::InvalidInput);
    assert_eq!(GzError::BadDeflate.kind(), ErrorKind::InvalidInput);
    assert_eq!(GzError::UnexpectedEof.kind(), ErrorKind::UnexpectedEof);
    assert_eq!(GzError::WouldBlock.kind(), ErrorKind::WouldBlock);
    assert_eq!(GzError::Source.kind(), ErrorKind::Other);
    assert_eq!(corrupt().message(), "corrupt gzip stream does not have a matching checksum");
    assert_eq!(bad_header().message(), "invalid gzip header");
    assert_eq!(GzError::BadDeflate.message(), "corrupt deflate stream");
    assert!(!GzError::WouldBlock.is_fatal());
    assert!(GzError::Corrupt.is_fatal());
    assert!(GzError::UnexpectedEof.is_fatal());
}
