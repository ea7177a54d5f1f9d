use gzcodec::decoder::finish;
use gzcodec::deflate::followup;
use gzcodec::deflate::DeflateDecoder;
use gzcodec::deflate::DeflateEncoder;
use gzcodec::deflate::Progress;
use gzcodec::deflate::Followup;
use gzcodec::deflate::MZ_BUF_ERROR;
use gzcodec::deflate::MZ_OK;
use gzcodec::deflate::MZ_STREAM_END;
use gzcodec::replay::Buffer;
use gzcodec::source::copy;
use gzcodec::Compression;
use gzcodec::GzError;
use gzcodec::Source;
use gzcodec::SourceEnd;

#[test]
fn copy_is_bounded_by_both_sides() {
    let from = [1u8, 2, 3, 4, 5];
    let mut into = [0u8; 3];
    let mut pos = 1;
    assert_eq!(copy(&mut into, &from, &mut pos), 3);
    assert_eq!(into, [2, 3, 4]);
    assert_eq!(pos, 4);
    let mut into = [9u8; 3];
    assert_eq!(copy(&mut into, &from, &mut pos), 1);
    assert_eq!(into, [5, 9, 9]);
    assert_eq!(pos, 5);
    assert_eq!(copy(&mut into, &from, &mut pos), 0);
    assert_eq!(into, [5, 9, 9]);
    assert_eq!(pos, 5);
    let mut none: [u8; 0] = [];
    let mut pos = 0;
    assert_eq!(copy(&mut none, &from, &mut pos), 0);
    assert_eq!(pos, 0);
}

#[test]
fn source_reads_then_answers() {
    let mut source = Source::new(b"abcde", SourceEnd::WouldBlock);
    let mut buf = [0u8; 3];
    assert_eq!(source.read(&mut buf), Ok(3));
    assert_eq!(&buf, b"abc");
    assert_eq!(source.consumed(), 3);
    assert_eq!(source.fill_buf(), Ok(&b"de"[..]));
    assert_eq!(source.read(&mut buf), Ok(2));
    assert_eq!(&buf, b"dec");
    assert_eq!(source.consumed(), 5);
    assert_eq!(source.read(&mut buf), Err(GzError::WouldBlock));
    assert_eq!(source.fill_buf(), Err(GzError::WouldBlock));
    let mut none: [u8; 0] = [];
    assert_eq!(source.read(&mut none), Ok(0));

    let mut ended = Source::new(b"", SourceEnd::Eof);
    assert_eq!(ended.read(&mut buf), Ok(0));
    assert_eq!(ended.fill_buf(), Ok(&b""[..]));
    let mut cut = Source::new(b"", SourceEnd::UnexpectedEof);
    assert_eq!(cut.read(&mut buf), Err(GzError::UnexpectedEof));
    let mut failed = Source::new(b"", SourceEnd::Failed);
    assert_eq!(failed.read(&mut buf), Err(GzError::Source));
    assert_eq!(failed.fill_buf(), Err(GzError::Source));
}

#[test]
fn source_consume_moves_the_cursor() {
    let mut source = Source::new(b"abcde", SourceEnd::Eof);
    source.consume(2);
    assert_eq!(source.consumed(), 2);
    assert_eq!(source.fill_buf(), Ok(&b"cde"[..]));
    source.consume(3);
    assert_eq!(source.fill_buf(), Ok(&b""[..]));
}

#[test]
fn buffer_replays_then_reads_on_and_remembers() {
    let mut source = Source::new(b"cdef", SourceEnd::WouldBlock);
    let mut replay = Buffer::new(b"ab".to_vec());
    let mut one = [0u8; 1];
    assert_eq!(replay.read(&mut source, &mut one), Ok(1));
    assert_eq!(one, [b'a']);
    assert_eq!(source.consumed(), 0);
    let mut three = [0u8; 3];
    assert_eq!(replay.read(&mut source, &mut three), Ok(3));
    assert_eq!(&three, b"bcd");
    assert_eq!(source.consumed(), 2);
    assert_eq!(replay.read(&mut source, &mut three), Ok(2));
    assert_eq!(&three[..2], b"ef");
    assert_eq!(replay.read(&mut source, &mut three), Err(GzError::WouldBlock));
    assert_eq!(replay.into_inner(), b"abcdef".to_vec());
}

#[test]
fn buffer_at_the_end_of_the_source_is_cut_short() {
    let mut source = Source::new(b"", SourceEnd::Eof);
    let mut replay = Buffer::new(b"ab".to_vec());
    let mut three = [0u8; 3];
    assert_eq!(replay.read(&mut source, &mut three), Err(GzError::UnexpectedEof));
    let mut two = [0u8; 2];
    assert_eq!(replay.read(&mut source, &mut two), Ok(2));
    assert_eq!(&two, b"ab");
    assert_eq!(replay.into_inner(), b"ab".to_vec());
}

#[test]
fn trailer_numbers_are_low_byte_first() {
    let trailer = [0x56, 0xB1, 0x17, 0x4A, 0x0B, 0x00, 0x00, 0x00];
    assert_eq!(finish(&trailer), (0x4A17B156, 11));
    let trailer = [0, 0, 0, 0x80, 0xFF, 0xFF, 0xFF, 0xFF];
    assert_eq!(finish(&trailer), (0x80000000, 0xFFFFFFFF));
}

#[test]
fn followup_on_each_kind_of_call() {
    let p = |consumed, written, code| Progress { consumed, written, code };
    assert_eq!(followup(p(5, 3, MZ_OK), false, true), Followup::Done(3));
    assert_eq!(followup(p(5, 0, MZ_OK), false, true), Followup::Again);
    assert_eq!(followup(p(5, 0, MZ_BUF_ERROR), false, true), Followup::Again);
    assert_eq!(followup(p(0, 0, MZ_OK), false, true), Followup::Failed);
    assert_eq!(followup(p(0, 0, MZ_BUF_ERROR), true, true), Followup::Failed);
    assert_eq!(followup(p(0, 0, MZ_OK), true, true), Followup::Failed);
    assert_eq!(followup(p(0, 0, MZ_STREAM_END), true, true), Followup::Done(0));
    assert_eq!(followup(p(0, 4, MZ_BUF_ERROR), true, true), Followup::Done(4));
    assert_eq!(followup(p(0, 0, MZ_BUF_ERROR), true, false), Followup::Done(0));
    assert_eq!(followup(p(0, 0, MZ_OK), false, false), Followup::Done(0));
    assert_eq!(followup(p(2, 0, MZ_STREAM_END), false, true), Followup::Done(0));
    assert_eq!(followup(p(2, 7, MZ_STREAM_END), false, true), Followup::Done(7));
    assert_eq!(followup(p(2, 7, -3), false, true), Followup::Failed);
    assert_eq!(followup(p(2, 7, 2), false, true), Followup::Failed);
    assert_eq!(followup(p(0, 0, -10000), true, false), Followup::Failed);
}

#[test]
fn deflate_then_inflate() {
    let plain = b"deflate me, deflate me, deflate me, deflate me again";
    let mut encoder = DeflateEncoder::new(Compression::default());
    let mut source = Source::new(plain, SourceEnd::Eof);
    let mut packed = Vec::new();
    let mut buf = [0u8; 16];
    loop {
        let n = encoder.read(&mut source, &mut buf).unwrap();
        if n == 0 {
            break;
        }
        packed.extend_from_slice(&buf[..n]);
    }
    assert_eq!(source.consumed(), plain.len());
    assert!(packed.len() < plain.len());
    assert_eq!(encoder.crc().amount() as usize, plain.len());

    let mut tail = packed.clone();
    tail.extend_from_slice(b"TRAILING");
    let mut decoder = DeflateDecoder::new();
    let mut source = Source::new(&tail, SourceEnd::Eof);
    let mut out = Vec::new();
    loop {
        let n = decoder.read(&mut source, &mut buf).unwrap();
        if n == 0 {
            break;
        }
        out.extend_from_slice(&buf[..n]);
    }
    assert_eq!(out, plain.to_vec());
    assert_eq!(source.consumed(), packed.len());

    decoder.reset_data();
    let mut source = Source::new(&packed, SourceEnd::Eof);
    let mut again = Vec::new();
    loop {
        let n = decoder.read(&mut source, &mut buf).unwrap();
        if n == 0 {
            break;
        }
        again.extend_from_slice(&buf[..n]);
    }
    assert_eq!(again, plain.to_vec());
}

#[test]
fn inflate_waits_for_its_source() {
    let mut decoder = DeflateDecoder::new();
    let mut idle = Source::new(b"", SourceEnd::WouldBlock);
    let mut buf = [0u8; 16];
    assert_eq!(decoder.read(&mut idle, &mut buf), Err(GzError::WouldBlock));
    let mut failed = Source::new(b"", SourceEnd::Failed);
    assert_eq!(decoder.read(&mut failed, &mut buf), Err(GzError::Source));
    let mut empty_block = Source::new(&[0x03, 0x00], SourceEnd::WouldBlock);
    assert_eq!(decoder.read(&mut empty_block, &mut buf), Ok(0));
    assert_eq!(empty_block.consumed(), 2);
}
