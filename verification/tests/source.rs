use csv2parquet::source::{RewindableReader, SourceError};
use std::io::Write;

fn gzip(bytes: &[u8]) -> Vec<u8> {
    let mut encoder = flate2::write::GzEncoder::new(Vec::new(), flate2::Compression::default());
    encoder.write_all(bytes).unwrap();
    encoder.finish().unwrap()
}

fn read_all(reader: &mut RewindableReader, step: usize) -> Vec<u8> {
    let mut out = Vec::new();
    let mut buf = vec![0u8; step];
    loop {
        let n = reader.read(&mut buf).unwrap();
        if n == 0 {
            return out;
        }
        out.extend_from_slice(&buf[..n]);
    }
}

#[test]
fn a_plain_source_hands_out_its_bytes() {
    let mut r = RewindableReader::open("a.csv", b"a,b\n1,2\n".to_vec());
    assert!(!r.is_compressed());
    let mut buf = [0u8; 3];
    assert_eq!(r.read(&mut buf).unwrap(), 3);
    assert_eq!(&buf, b"a,b");
    assert_eq!(r.read(&mut buf).unwrap(), 3);
    assert_eq!(&buf, b"\n1,");
    assert_eq!(r.read(&mut buf).unwrap(), 2);
    assert_eq!(&buf, b"2\n,");
    assert_eq!(r.read(&mut buf).unwrap(), 0);
    assert_eq!(r.read(&mut buf).unwrap(), 0);
    assert_eq!(&buf, b"2\n,");
}

#[test]
fn an_empty_buffer_reads_nothing() {
    let mut r = RewindableReader::open("a.csv", b"abc".to_vec());
    let mut none: [u8; 0] = [];
    assert_eq!(r.read(&mut none).unwrap(), 0);
    assert_eq!(read_all(&mut r, 2), b"abc");
}

#[test]
fn an_empty_plain_source_is_at_its_end() {
    let mut r = RewindableReader::open("a.csv", Vec::new());
    let mut buf = [7u8; 4];
    assert_eq!(r.read(&mut buf).unwrap(), 0);
    assert_eq!(buf, [7u8; 4]);
}

#[test]
fn a_compressed_source_hands_out_the_decoded_bytes() {
    let text = b"a,b,c\n1,2,3\n4,5,6\n";
    let packed = gzip(text);
    assert_ne!(packed.as_slice(), text.as_slice());
    let mut r = RewindableReader::open("dir/a.csv.gz", packed);
    assert!(r.is_compressed());
    assert_eq!(read_all(&mut r, 5), text);
}

#[test]
fn all_members_of_a_compressed_source_are_decoded() {
    let mut packed = gzip(b"a,b\n");
    packed.extend_from_slice(&gzip(b"1,2\n"));
    let mut r = RewindableReader::open("a.csv.gz", packed);
    assert_eq!(read_all(&mut r, 64), b"a,b\n1,2\n");
}

#[test]
fn a_plain_source_reads_the_same_after_rewind() {
    let data = b"a,b\n1,2\n3,4\n".to_vec();
    let mut fresh = RewindableReader::open("a.csv", data.clone());
    let expected = read_all(&mut fresh, 4);
    let mut r = RewindableReader::open("a.csv", data.clone());
    let mut buf = [0u8; 5];
    assert_eq!(r.read(&mut buf).unwrap(), 5);
    let mut r = r.rewind();
    assert!(!r.is_compressed());
    assert_eq!(read_all(&mut r, 4), expected);
    assert_eq!(expected, data);
}

#[test]
fn a_compressed_source_reads_the_same_after_rewind() {
    let text = b"a,b\n1,2\n3,4\n".to_vec();
    let packed = gzip(&text);
    let mut fresh = RewindableReader::open("a.csv.gz", packed.clone());
    let expected = read_all(&mut fresh, 3);
    let mut r = RewindableReader::open("a.csv.gz", packed);
    let mut buf = [0u8; 7];
    assert_eq!(r.read(&mut buf).unwrap(), 7);
    assert_eq!(&buf, b"a,b\n1,2");
    let mut r = r.rewind();
    assert!(r.is_compressed());
    assert_eq!(read_all(&mut r, 3), expected);
    assert_eq!(expected, text);
}

#[test]
fn a_source_read_to_its_end_can_be_rewound() {
    let mut r = RewindableReader::open("a.csv", b"xyz".to_vec());
    assert_eq!(read_all(&mut r, 2), b"xyz");
    let mut r = r.rewind();
    assert_eq!(read_all(&mut r, 2), b"xyz");
}

#[test]
fn bytes_that_are_no_gzip_stream_fail_to_read() {
    let mut r = RewindableReader::open("a.csv.gz", b"a,b\n1,2\n".to_vec());
    let mut buf = [0u8; 4];
    assert!(matches!(r.read(&mut buf), Err(SourceError::Decode(_))));
    assert_eq!(buf, [0u8; 4]);
    assert!(matches!(r.read(&mut buf), Err(SourceError::Decode(_))));
    let mut r = r.rewind();
    assert!(matches!(r.read(&mut buf), Err(SourceError::Decode(_))));
}

#[test]
fn a_truncated_gzip_stream_fails_to_read() {
    let mut packed = gzip(b"a,b,c\n1,2,3\n4,5,6\n7,8,9\n");
    packed.truncate(packed.len() - 6);
    let mut r = RewindableReader::open("a.csv.gz", packed);
    let mut buf = [0u8; 4];
    assert!(r.read(&mut buf).is_err());
}

#[test]
fn the_name_alone_decides_how_bytes_are_read() {
    let packed = gzip(b"a,b\n");
    let mut r = RewindableReader::open("a.csv", packed.clone());
    assert_eq!(read_all(&mut r, 8), packed);
}
