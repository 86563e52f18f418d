use mempool_server::framing::TxsDataBody;
use mempool_server::framing::frame_chunk;
use mempool_server::framing::parse_txs_data_body;
use mempool_server::framing::stream_header;
use mempool_server::framing::stream_header_from;
use mempool_server::framing::txs_data_body;
use mempool_server::framing::txs_data_body_checked;
use mempool_server::framing::txs_data_from_body;
use mempool_server::framing::txs_data_from_body_checked;
use mempool_server::framing::u32_to_be_bytes;
use mempool_server::framing::u64_to_be_bytes;

#[test]
fn big_endian_words_match_std() {
    assert_eq!(u32_to_be_bytes(0), 0u32.to_be_bytes().to_vec());
    assert_eq!(u32_to_be_bytes(0x01020304), vec![1, 2, 3, 4]);
    assert_eq!(u32_to_be_bytes(u32::MAX), vec![0xff; 4]);
    assert_eq!(u64_to_be_bytes(0x0102030405060708), vec![1, 2, 3, 4, 5, 6, 7, 8]);
    assert_eq!(u64_to_be_bytes(u64::MAX), vec![0xff; 8]);
    assert_eq!(u64_to_be_bytes(29000), 29000u64.to_be_bytes().to_vec());
}

#[test]
fn frame_is_length_then_payload() {
    let data = vec![0xde, 0xad, 0xbe, 0xef, 0x99];
    let frame = frame_chunk(&data);
    assert_eq!(frame, vec![0, 0, 0, 5, 0xde, 0xad, 0xbe, 0xef, 0x99]);
}

#[test]
fn empty_pool_yields_empty_body() {
    let entries: Vec<(u64, Vec<u8>)> = vec![];
    assert!(txs_data_body(&entries, 0, 0).is_empty());
    assert!(txs_data_from_body(&entries, 7).is_empty());
}

#[test]
fn body_layout_is_magic_hint_counter_frames() {
    let entries: Vec<(u64, Vec<u8>)> = vec![(0, vec![0x11]), (2, vec![0x22, 0x33])];
    let body = txs_data_body(&entries, 2, 3);
    let mut expected: Vec<u8> = vec![0xff; 8];
    expected.extend_from_slice(&[0, 0, 0, 2]); // size hint
    expected.extend_from_slice(&[0, 0, 0, 0, 0, 0, 0, 3]); // counter snapshot
    expected.extend_from_slice(&[0, 0, 0, 1, 0x11]);
    expected.extend_from_slice(&[0, 0, 0, 2, 0x22, 0x33]);
    assert_eq!(body, expected);
    assert_eq!(&body[0..8], &[0xff; 8]);
}

#[test]
fn tail_body_has_no_size_hint() {
    let entries: Vec<(u64, Vec<u8>)> = vec![(500, vec![0x42])];
    let body = txs_data_from_body(&entries, 600);
    let mut expected: Vec<u8> = vec![0xff; 8];
    expected.extend_from_slice(&[0, 0, 0, 0, 0, 0, 2, 0x58]); // counter 600
    expected.extend_from_slice(&[0, 0, 0, 1, 0x42]);
    assert_eq!(body, expected);
}

#[test]
fn headers_match_bodies() {
    let entries: Vec<(u64, Vec<u8>)> = vec![(9, vec![7, 8])];
    let mut assembled = stream_header(1, 10);
    assembled.extend_from_slice(&frame_chunk(&entries[0].1));
    assert_eq!(assembled, txs_data_body(&entries, 1, 10));
    let mut assembled_from = stream_header_from(10);
    assembled_from.extend_from_slice(&frame_chunk(&entries[0].1));
    assert_eq!(assembled_from, txs_data_from_body(&entries, 10));
}

#[test]
fn parse_round_trip() {
    let entries: Vec<(u64, Vec<u8>)> =
        vec![(0, vec![1]), (1, vec![]), (5, vec![2, 3, 4]), (9, vec![0xff; 300])];
    let body = txs_data_body(&entries, 4, 10);
    match parse_txs_data_body(&body) {
        Some(TxsDataBody::Stream { size_hint, counter, frames }) => {
            assert_eq!(size_hint, 4);
            assert_eq!(counter, 10);
            let payloads: Vec<Vec<u8>> = entries.iter().map(|e| e.1.clone()).collect();
            assert_eq!(frames, payloads);
        }
        other => panic!("expected a stream, got {:?}", other.is_some()),
    }
}

#[test]
fn parse_empty_body_is_empty_pool() {
    let body: Vec<u8> = vec![];
    assert!(matches!(parse_txs_data_body(&body), Some(TxsDataBody::Empty)));
}

#[test]
fn parse_rejects_malformed_bodies() {
    // Too short for a header.
    assert!(parse_txs_data_body(&vec![0xff; 12]).is_none());
    // A wrong magic preamble.
    let entries: Vec<(u64, Vec<u8>)> = vec![(0, vec![1])];
    let mut body = txs_data_body(&entries, 1, 1);
    body[0] = 0x00;
    assert!(parse_txs_data_body(&body).is_none());
    // A truncated frame.
    let mut truncated = txs_data_body(&entries, 1, 1);
    truncated.pop();
    assert!(parse_txs_data_body(&truncated).is_none());
    // A header with no frames at all.
    let mut headless = txs_data_body(&entries, 1, 1);
    headless.truncate(20);
    assert!(parse_txs_data_body(&headless).is_none());
    // Trailing bytes that are no frame.
    let mut trailing = txs_data_body(&entries, 1, 1);
    trailing.extend_from_slice(&[0, 0]);
    assert!(parse_txs_data_body(&trailing).is_none());
}

#[test]
fn checked_bodies_agree_with_plain_ones() {
    let entries: Vec<(u64, Vec<u8>)> = vec![(3, vec![5, 6, 7])];
    assert_eq!(
        txs_data_body_checked(&entries, 1, 4).unwrap(),
        txs_data_body(&entries, 1, 4)
    );
    assert_eq!(
        txs_data_from_body_checked(&entries, 4).unwrap(),
        txs_data_from_body(&entries, 4)
    );
}
