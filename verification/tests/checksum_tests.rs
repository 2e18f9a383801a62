use oxyromon::checksum::{hash, to_hex, HashEngine};
use oxyromon::model::{HashAlgorithm, Header};

#[test]
fn crc_of_check_string() {
    let (size, digest) = hash(b"123456789", &None, HashAlgorithm::Crc).unwrap();
    assert_eq!(size, 9);
    assert_eq!(digest, "cbf43926");
}

#[test]
fn crc_has_eight_digits() {
    let (_, digest) = hash(&[0xff, 0xff, 0xff, 0xff], &None, HashAlgorithm::Crc).unwrap();
    assert_eq!(digest, "ffffffff");
    let (_, empty) = hash(b"", &None, HashAlgorithm::Crc).unwrap();
    assert_eq!(empty, "00000000");
    // a checksum with leading zeros: 0x0a0b0c0d would print as "a0b0c0d" without them
    let (_, one) = hash(&[0x00], &None, HashAlgorithm::Crc).unwrap();
    assert_eq!(one, "d202ef8d");
    assert_eq!(one.len(), 8);
}

#[test]
fn md5_of_known_texts() {
    let (size, digest) = hash(b"", &None, HashAlgorithm::Md5).unwrap();
    assert_eq!(size, 0);
    assert_eq!(digest, "d41d8cd98f00b204e9800998ecf8427e");
    let (_, digest) = hash(b"abcdefghijklmnopqrstuvwxyz", &None, HashAlgorithm::Md5).unwrap();
    assert_eq!(digest, "c3fcd3d76192e4007dfb496cca67e13b");
}

#[test]
fn sha1_of_known_texts() {
    let (_, digest) = hash(b"abc", &None, HashAlgorithm::Sha1).unwrap();
    assert_eq!(digest, "a9993e364706816aba3e25717850c26c9cd0d89d");
    let (_, digest) = hash(b"Hello World!", &None, HashAlgorithm::Sha1).unwrap();
    assert_eq!(digest, "2ef7bde608ce5404e97d5f042f95f89f1c232871");
}

#[test]
fn header_is_left_out_of_size_and_digest() {
    let mut stream = vec![0u8; 16];
    stream.extend_from_slice(b"123456789");
    let header = Some(Header { size: 16 });
    let (size, digest) = hash(&stream, &header, HashAlgorithm::Crc).unwrap();
    assert_eq!(size, 9);
    assert_eq!(digest, "cbf43926");
    let (whole, other) = hash(&stream, &None, HashAlgorithm::Crc).unwrap();
    assert_eq!(whole, 25);
    assert_ne!(other, "cbf43926");
}

#[test]
fn header_as_long_as_the_stream_leaves_nothing() {
    let header = Some(Header { size: 9 });
    let (size, digest) = hash(b"123456789", &header, HashAlgorithm::Crc).unwrap();
    assert_eq!(size, 0);
    assert_eq!(digest, "00000000");
}

#[test]
fn stream_shorter_than_header_leaves_nothing() {
    let header = Some(Header { size: 100 });
    let (size, digest) = hash(b"123456789", &header, HashAlgorithm::Md5).unwrap();
    assert_eq!(size, 0);
    assert_eq!(digest, "d41d8cd98f00b204e9800998ecf8427e");
}

#[test]
fn chunks_give_the_digest_of_the_whole() {
    for algorithm in [HashAlgorithm::Crc, HashAlgorithm::Md5, HashAlgorithm::Sha1] {
        let mut stream = vec![7u8; 5];
        stream.extend_from_slice(b"The quick brown fox jumps over the lazy dog");
        let header = Some(Header { size: 5 });
        let whole = hash(&stream, &header, algorithm).unwrap();
        // the header ends inside the second chunk
        let mut engine = HashEngine::new(&header, algorithm);
        assert!(engine.update(&stream[..3]));
        assert!(engine.update(&stream[3..10]));
        assert!(engine.update(&[]));
        assert!(engine.update(&stream[10..]));
        assert_eq!(engine.finish(), whole);
        let plain = hash(b"The quick brown fox jumps over the lazy dog", &None, algorithm).unwrap();
        assert_eq!(plain, whole);
    }
}

#[test]
fn fox_digests() {
    let text = b"The quick brown fox jumps over the lazy dog";
    assert_eq!(hash(text, &None, HashAlgorithm::Crc).unwrap().1, "414fa339");
    assert_eq!(hash(text, &None, HashAlgorithm::Md5).unwrap().1, "9e107d9d372bb6826bd81d3542a419d6");
    assert_eq!(
        hash(text, &None, HashAlgorithm::Sha1).unwrap().1,
        "2fd4e1c67a2d28fced849ee1bb76e7391b93eb12"
    );
}

#[test]
fn hex_is_lower_case_without_separators() {
    assert_eq!(to_hex(&[0x00, 0x0f, 0xa0, 0xff, 0x1b]), "000fa0ff1b");
    assert_eq!(to_hex(&[]), "");
}
