use rizzle::{
    obfuscate, try_read_exact, ByteSource, ChunkDecoder, MemorySource, Mp3Stream, ReadExact, CHUNK_LEN,
};

const KEY: [u8; 16] = [101, 50, 49, 57, 63, 63, 122, 110, 103, 44, 115, 54, 55, 105, 55, 50];

fn plain(len: usize) -> Vec<u8> {
    (0..len).map(|i| ((i * 7 + 3) % 256) as u8).collect()
}

fn read_all(raw: Vec<u8>, size: usize) -> (Vec<u8>, u64) {
    let mut stream = Mp3Stream::new(MemorySource::new(raw), KEY);
    let mut out = Vec::new();
    loop {
        let got = stream.read(size).unwrap();
        let short = got.len() < size;
        out.extend_from_slice(&got);
        if short {
            break;
        }
    }
    (out, stream.chunk_counter())
}

#[test]
fn obfuscation_matches_reference() {
    let data = plain(4 * CHUNK_LEN + 100);
    let raw = obfuscate(&KEY, &data);
    assert_eq!(format!("{:x}", md5::compute(&raw)), "133847db72b027c0304ed0016bd0d1cc");
    assert_eq!(&raw[..16], &[254, 222, 184, 123, 128, 0, 81, 30, 133, 8, 7, 200, 107, 68, 30, 147]);
    assert_eq!(&raw[CHUNK_LEN..2 * CHUNK_LEN], &data[CHUNK_LEN..2 * CHUNK_LEN]);
    assert_ne!(&raw[3 * CHUNK_LEN..4 * CHUNK_LEN], &data[3 * CHUNK_LEN..4 * CHUNK_LEN]);
    assert_eq!(&raw[4 * CHUNK_LEN..], &data[4 * CHUNK_LEN..]);
}

#[test]
fn round_trip_various_lengths() {
    for len in [0, 1, 100, CHUNK_LEN - 1, CHUNK_LEN, CHUNK_LEN + 1, 3 * CHUNK_LEN, 4 * CHUNK_LEN + 100, 7 * CHUNK_LEN + 5] {
        let data = plain(len);
        let raw = obfuscate(&KEY, &data);
        assert_eq!(raw.len(), len);
        let (out, _) = read_all(raw, 1000);
        assert_eq!(out, data, "length {}", len);
    }
}

#[test]
fn short_single_chunk_is_not_transformed() {
    let data = plain(100);
    assert_eq!(obfuscate(&KEY, &data), data);
}

#[test]
fn read_granularity_does_not_matter() {
    let data = plain(4 * CHUNK_LEN + 100);
    let raw = obfuscate(&KEY, &data);
    let (whole, chunks_whole) = read_all(raw.clone(), data.len() + 1);
    let (bytewise, chunks_bytewise) = read_all(raw.clone(), 1);
    let (odd, chunks_odd) = read_all(raw, 3000);
    assert_eq!(whole, data);
    assert_eq!(bytewise, data);
    assert_eq!(odd, data);
    assert_eq!(chunks_whole, 5);
    assert_eq!(chunks_bytewise, 5);
    assert_eq!(chunks_odd, 5);
}

#[test]
fn short_read_then_end_of_stream() {
    let data = plain(CHUNK_LEN + 10);
    let raw = obfuscate(&KEY, &data);
    let mut stream = Mp3Stream::new(MemorySource::new(raw), KEY);
    let first = stream.read(CHUNK_LEN).unwrap();
    assert_eq!(first, data[..CHUNK_LEN].to_vec());
    let second = stream.read(100).unwrap();
    assert_eq!(second, data[CHUNK_LEN..].to_vec());
    let third = stream.read(100).unwrap();
    assert!(third.is_empty());
    let fourth = stream.read(5).unwrap();
    assert!(fourth.is_empty());
}

#[test]
fn pending_bytes_serve_small_reads() {
    let data = plain(3 * CHUNK_LEN);
    let raw = obfuscate(&KEY, &data);
    let mut stream = Mp3Stream::new(MemorySource::new(raw), KEY);
    assert_eq!(stream.read(10).unwrap(), data[..10].to_vec());
    assert_eq!(stream.chunk_counter(), 1);
    assert_eq!(stream.read(2000).unwrap(), data[10..2010].to_vec());
    assert_eq!(stream.chunk_counter(), 1);
    assert_eq!(stream.read(0).unwrap(), Vec::<u8>::new());
    assert_eq!(stream.read(100).unwrap(), data[2010..2110].to_vec());
    assert_eq!(stream.chunk_counter(), 2);
}

#[test]
fn empty_source_reads_nothing() {
    let mut stream = Mp3Stream::new(MemorySource::new(Vec::new()), KEY);
    assert!(stream.read(10).unwrap().is_empty());
    assert_eq!(stream.chunk_counter(), 0);
}

#[test]
fn wrong_key_garbles_transformed_chunk() {
    let data = plain(CHUNK_LEN);
    let raw = obfuscate(&KEY, &data);
    let mut stream = Mp3Stream::new(MemorySource::new(raw), [0u8; 16]);
    assert_ne!(stream.read(CHUNK_LEN).unwrap(), data);
}

#[test]
fn read_exact_full_and_eof() {
    let mut source = MemorySource::new(vec![1, 2, 3, 4, 5]);
    match try_read_exact(&mut source, 3) {
        ReadExact::Full(v) => assert_eq!(v, vec![1, 2, 3]),
        _ => panic!("expected a full read"),
    }
    match try_read_exact(&mut source, 3) {
        ReadExact::Eof(v) => assert_eq!(v, vec![4, 5]),
        _ => panic!("expected the end of the source"),
    }
    match try_read_exact(&mut source, 3) {
        ReadExact::Eof(v) => assert!(v.is_empty()),
        _ => panic!("expected the end of the source"),
    }
}

#[test]
fn memory_source_reads_in_pieces() {
    let mut source = MemorySource::new(vec![9, 8, 7]);
    assert_eq!(source.read_some(2).unwrap(), vec![9, 8]);
    assert_eq!(source.read_some(0).unwrap(), Vec::<u8>::new());
    assert_eq!(source.read_some(5).unwrap(), vec![7]);
    assert_eq!(source.read_some(5).unwrap(), Vec::<u8>::new());
}

#[test]
fn read_exact_of_zero_is_full() {
    let mut source = MemorySource::new(Vec::new());
    match try_read_exact(&mut source, 0) {
        ReadExact::Full(v) => assert!(v.is_empty()),
        _ => panic!("expected a full read"),
    }
}

#[test]
fn decoder_requests_whole_chunks() {
    let decoder = ChunkDecoder::new(KEY);
    assert_eq!(decoder.request(0), None);
    assert_eq!(decoder.request(1), Some(CHUNK_LEN));
    assert_eq!(decoder.request(CHUNK_LEN), Some(CHUNK_LEN));
    assert_eq!(decoder.request(CHUNK_LEN + 1), Some(2 * CHUNK_LEN));
}

#[test]
fn decoder_steps_match_the_reader() {
    let data = plain(2 * CHUNK_LEN + 7);
    let raw = obfuscate(&KEY, &data);
    let mut decoder = ChunkDecoder::new(KEY);
    let t = decoder.request(100).unwrap();
    assert_eq!(t, CHUNK_LEN);
    let first = decoder.accept(100, raw[..t].to_vec());
    assert_eq!(first, data[..100].to_vec());
    assert_eq!(decoder.request(50), None);
    assert_eq!(decoder.take_pending(50), data[100..150].to_vec());
    let t = decoder.request(CHUNK_LEN).unwrap();
    assert_eq!(t, CHUNK_LEN);
    assert_eq!(decoder.accept(CHUNK_LEN, raw[CHUNK_LEN..2 * CHUNK_LEN].to_vec()), data[150..150 + CHUNK_LEN].to_vec());
    let t = decoder.request(CHUNK_LEN).unwrap();
    let rest = decoder.accept(CHUNK_LEN, raw[2 * CHUNK_LEN..].to_vec());
    assert!(rest.len() < CHUNK_LEN && t == CHUNK_LEN);
    assert_eq!(rest, data[150 + CHUNK_LEN..].to_vec());
    assert_eq!(decoder.request(10), None);
    assert!(decoder.take_pending(10).is_empty());
    assert_eq!(decoder.chunk_counter(), 3);
}

#[test]
fn short_final_chunk_at_transformed_index_is_verbatim() {
    let data = plain(3 * CHUNK_LEN + 77);
    let raw = obfuscate(&KEY, &data);
    assert_eq!(&raw[3 * CHUNK_LEN..], &data[3 * CHUNK_LEN..]);
    let (out, chunks) = read_all(raw, 500);
    assert_eq!(out, data);
    assert_eq!(chunks, 4);
}
