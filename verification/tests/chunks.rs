use video_bard::chunks::{chunk_ends_message, frames, pad_chunk, reply_is_ok, CHUNK_SIZE};
use video_bard::files::{descends_into, is_recent_file, DAY_SECONDS};

#[test]
fn short_part_is_filled_with_zeros() {
    let chunk = pad_chunk(b"hello").unwrap();
    assert_eq!(chunk.len(), CHUNK_SIZE);
    assert_eq!(&chunk[..5], b"hello");
    assert_eq!(&chunk[5..], &[0u8; 27]);
    assert_eq!(pad_chunk(&[]), Some(vec![0u8; 32]));
}

#[test]
fn full_part_is_sent_as_it_is() {
    let part: Vec<u8> = (1..=32).collect();
    assert_eq!(pad_chunk(&part), Some(part));
}

#[test]
fn long_part_cannot_be_sent() {
    assert_eq!(pad_chunk(&[7u8; 33]), None);
    assert_eq!(pad_chunk(&[7u8; 100]), None);
}

#[test]
fn message_is_split_into_chunks_and_a_rest() {
    let message: Vec<u8> = (1..=70).collect();
    let chunks = frames(&message);
    assert_eq!(chunks.len(), 3);
    assert_eq!(chunks[0], (1..=32).collect::<Vec<u8>>());
    assert_eq!(chunks[1], (33..=64).collect::<Vec<u8>>());
    let mut rest: Vec<u8> = (65..=70).collect();
    rest.resize(32, 0);
    assert_eq!(chunks[2], rest);
}

#[test]
fn message_of_whole_chunks_ends_with_an_empty_chunk() {
    assert_eq!(frames(&[]), vec![vec![0u8; 32]]);
    let message = [9u8; 64];
    assert_eq!(frames(&message), vec![vec![9u8; 32], vec![9u8; 32], vec![0u8; 32]]);
}

#[test]
fn every_message_ends_on_a_chunk_with_a_zero() {
    for len in [0usize, 1, 31, 32, 33, 63, 64, 65, 200] {
        let message = vec![b'x'; len];
        let chunks = frames(&message);
        assert_eq!(chunks.len(), len / 32 + 1);
        for (k, chunk) in chunks.iter().enumerate() {
            assert_eq!(chunk.len(), 32);
            assert_eq!(chunk_ends_message(chunk), k + 1 == chunks.len());
        }
    }
}

#[test]
fn reply_has_to_be_ok() {
    assert!(reply_is_ok(b"ok"));
    assert!(!reply_is_ok(b"no"));
    assert!(!reply_is_ok(b"oK"));
    assert!(!reply_is_ok(b"o"));
    assert!(!reply_is_ok(b"okk"));
    assert!(!reply_is_ok(b""));
}

#[test]
fn chunk_with_a_zero_ends_a_message() {
    assert!(chunk_ends_message(&[1, 2, 0, 4]));
    assert!(chunk_ends_message(&[0]));
    assert!(!chunk_ends_message(&[1, 2, 3]));
    assert!(!chunk_ends_message(&[]));
}

#[test]
fn files_changed_within_a_day_are_listed() {
    assert_eq!(DAY_SECONDS, 24 * 3600);
    assert!(is_recent_file(0, true));
    assert!(is_recent_file(86399, true));
    assert!(!is_recent_file(86400, true));
    assert!(!is_recent_file(u64::MAX, true));
    assert!(!is_recent_file(0, false));
}

#[test]
fn listing_descends_into_looping_directories_only() {
    assert!(descends_into(true, true));
    assert!(!descends_into(true, false));
    assert!(!descends_into(false, true));
    assert!(!descends_into(false, false));
}
