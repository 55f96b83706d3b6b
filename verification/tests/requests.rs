use quic_perf::wire::{
    decode_request, encode_request, next_chunk, request_header, Chunk, TestType, CHUNK_LEN,
};

#[test]
fn request_is_most_significant_byte_first() {
    assert_eq!(encode_request(0), [0; 8]);
    assert_eq!(encode_request(1), [0, 0, 0, 0, 0, 0, 0, 1]);
    assert_eq!(encode_request(0x0102_0304_0506_0708), [1, 2, 3, 4, 5, 6, 7, 8]);
    assert_eq!(encode_request(u64::MAX), [255; 8]);
    assert_eq!(decode_request(&[1, 2, 3, 4, 5, 6, 7, 8]), 0x0102_0304_0506_0708);
}

#[test]
fn request_is_read_back() {
    for n in [0, 1, 255, 256, 65535, 1_073_741_824, u64::MAX - 1, u64::MAX] {
        assert_eq!(decode_request(&encode_request(n)), n);
        assert_eq!(encode_request(n), n.to_be_bytes());
    }
}

#[test]
fn every_header_is_a_request() {
    for header in [[0; 8], [255; 8], [0, 0, 0, 0, 64, 0, 0, 0], [9, 8, 7, 6, 5, 4, 3, 2]] {
        assert_eq!(encode_request(decode_request(&header)), header);
    }
}

#[test]
fn test_asks_for_its_bytes() {
    assert_eq!(request_header(&TestType::Upload { bytes: 77 }), 0u64.to_be_bytes());
    assert_eq!(request_header(&TestType::Download { bytes: 77 }), 77u64.to_be_bytes());
    assert_eq!(request_header(&TestType::Latency), 1u64.to_be_bytes());
}

#[test]
fn stream_ends_with_the_last_chunk() {
    assert_eq!(next_chunk(0), Chunk { len: 0, fin: true });
    assert_eq!(next_chunk(1), Chunk { len: 1, fin: true });
    assert_eq!(next_chunk(65535), Chunk { len: 65535, fin: true });
    assert_eq!(next_chunk(65536), Chunk { len: 65535, fin: false });
    assert_eq!(next_chunk(u64::MAX), Chunk { len: 65535, fin: false });
    assert_eq!(CHUNK_LEN, 65535);
}
