use std::io;
use std::io::BufRead;
use std::io::BufReader;
use std::io::Cursor;
use std::io::Read;

use gzcodec::Compression;
use gzcodec::GzDecoder;
use gzcodec::GzEncoder;
use gzcodec::GzError;
use gzcodec::MultiGzDecoder;
use gzcodec::Source;
use gzcodec::SourceEnd;

fn window(bytes: &[u8]) -> Source<'_> {
    let end = if bytes.is_empty() { SourceEnd::Eof } else { SourceEnd::WouldBlock };
    Source::new(bytes, end)
}

fn read_with<R, F>(source: &mut R, into: &mut [u8], mut read: F) -> io::Result<usize>
where
    R: BufRead,
    F: FnMut(&mut Source<'_>, &mut [u8]) -> Result<usize, GzError>,
{
    let mut idle = Source::new(&[], SourceEnd::WouldBlock);
    match read(&mut idle, into) {
        Ok(n) => return Ok(n),
        Err(GzError::WouldBlock) => {},
        Err(e) => return Err(io::Error::new(io::ErrorKind::InvalidInput, e.message())),
    }
    loop {
        let (taken, at_end, res) = match source.fill_buf() {
            Ok(bytes) => {
                let mut ready = window(bytes);
                let res = read(&mut ready, into);
                (ready.consumed(), bytes.is_empty(), res)
            },
            Err(e) => return Err(e),
        };
        source.consume(taken);
        match res {
            Ok(n) => return Ok(n),
            Err(GzError::WouldBlock) if !at_end => {},
            Err(GzError::WouldBlock) => return Err(io::ErrorKind::WouldBlock.into()),
            Err(e) => return Err(io::Error::new(io::ErrorKind::InvalidInput, e.message())),
        }
    }
}

struct Encoding<R> {
    inner: R,
    codec: GzEncoder,
}

impl<R: BufRead> Read for Encoding<R> {
    fn read(&mut self, into: &mut [u8]) -> io::Result<usize> {
        let codec = &mut self.codec;
        read_with(&mut self.inner, into, |ready, into| codec.read(ready, into))
    }
}

struct Decoding<R> {
    inner: R,
    codec: MultiGzDecoder,
}

impl<R: BufRead> Decoding<R> {
    fn new(mut inner: R) -> Decoding<R> {
        let (taken, codec) = {
            let bytes = inner.fill_buf().unwrap();
            let mut ready = window(bytes);
            let codec = MultiGzDecoder::new(&mut ready);
            (ready.consumed(), codec)
        };
        inner.consume(taken);
        Decoding { inner, codec }
    }
}

impl<R: BufRead> Read for Decoding<R> {
    fn read(&mut self, into: &mut [u8]) -> io::Result<usize> {
        let codec = &mut self.codec;
        read_with(&mut self.inner, into, |ready, into| codec.read(ready, into))
    }
}

fn sample() -> Vec<u8> {
    let mut plain = Vec::new();
    for i in 0..20000u32 {
        plain.push((i * i % 253) as u8);
    }
    plain
}

#[test]
fn behind_buffered_readers_of_any_size() {
    let plain = sample();
    for capacity in [1usize, 2, 3, 7, 64, 8192] {
        let source = BufReader::with_capacity(capacity, Cursor::new(plain.clone()));
        let mut encoding =
            Encoding { inner: source, codec: GzEncoder::new(Compression::default()) };
        let mut member = Vec::new();
        encoding.read_to_end(&mut member).unwrap();

        let mut stream = member.clone();
        stream.extend_from_slice(&member);
        let source = BufReader::with_capacity(capacity, Cursor::new(stream));
        let mut decoding = Decoding::new(source);
        let mut out = Vec::new();
        decoding.read_to_end(&mut out).unwrap();
        assert_eq!(out.len(), 2 * plain.len());
        assert_eq!(&out[..plain.len()], &plain[..]);
        assert_eq!(&out[plain.len()..], &plain[..]);
    }
}

#[test]
fn single_decoder_leaves_what_follows_the_member_in_the_source() {
    let plain = sample();
    let mut encoding = Encoding {
        inner: Cursor::new(plain.clone()),
        codec: GzEncoder::new(Compression::fast()),
    };
    let mut member = Vec::new();
    encoding.read_to_end(&mut member).unwrap();
    let mut stream = member.clone();
    stream.extend_from_slice(b"what follows");

    let mut source = Cursor::new(stream);
    let (taken, mut codec) = {
        let bytes = source.fill_buf().unwrap();
        let mut ready = window(bytes);
        let codec = GzDecoder::new(&mut ready);
        (ready.consumed(), codec)
    };
    source.consume(taken);
    let mut out = Vec::new();
    let mut buf = [0u8; 512];
    loop {
        let n = read_with(&mut source, &mut buf, |ready, into| codec.read(ready, into)).unwrap();
        if n == 0 {
            break;
        }
        out.extend_from_slice(&buf[..n]);
    }
    assert_eq!(out, plain);
    let mut rest = Vec::new();
    source.read_to_end(&mut rest).unwrap();
    assert_eq!(rest, b"what follows".to_vec());
}

#[test]
fn header_cut_at_the_end_of_the_source_would_block() {
    let mut source = Cursor::new(vec![0x1F, 0x8B, 0x08]);
    let mut decoding = Decoding::new(&mut source);
    let mut buf = [0u8; 8];
    let err = decoding.read(&mut buf).unwrap_err();
    assert_eq!(err.kind(), io::ErrorKind::WouldBlock);
}
