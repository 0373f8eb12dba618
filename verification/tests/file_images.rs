//! Checks of the on-disk file image codecs, taken on their own.

use field_index::codec::{
    decode_forward_file, decode_inverted_file, encode_forward_file, encode_inverted_file,
};

#[test]
fn inverted_file_round_trips() {
    let entries: Vec<(Vec<u8>, Vec<u32>)> = vec![
        (b"alpha".to_vec(), vec![0, 2, 7]),
        (b"".to_vec(), vec![]),
        (b"beta".to_vec(), vec![4294967295]),
    ];
    let image = encode_inverted_file(&entries);
    assert_eq!(decode_inverted_file(&image), Some(entries));
}

#[test]
fn forward_file_round_trips() {
    let forward: Vec<Vec<Vec<u8>>> = vec![
        vec![],
        vec![b"a".to_vec(), b"bb".to_vec()],
        vec![b"".to_vec()],
    ];
    let image = encode_forward_file(&forward);
    assert_eq!(decode_forward_file(&image), Some(forward));
}

#[test]
fn empty_lists_round_trip() {
    let image = encode_inverted_file(&vec![]);
    assert_eq!(decode_inverted_file(&image), Some(vec![]));
    let image = encode_forward_file(&vec![]);
    assert_eq!(decode_forward_file(&image), Some(vec![]));
}

#[test]
fn malformed_images_are_rejected() {
    assert_eq!(decode_inverted_file(b""), None);
    assert_eq!(decode_inverted_file(b"short"), None);
    assert_eq!(decode_forward_file(b"1234567"), None);
    // a count that promises more entries than the bytes hold
    let mut image = Vec::new();
    image.extend_from_slice(&5u64.to_le_bytes());
    assert_eq!(decode_inverted_file(&image), None);
    assert_eq!(decode_forward_file(&image), None);
    // trailing garbage after a valid image
    let mut ok = encode_inverted_file(&vec![(b"k".to_vec(), vec![1])]);
    ok.push(0);
    assert_eq!(decode_inverted_file(&ok), None);
}
