use iron_voxel::messages::{decode_key_message, encode_key_message, EventType, Key};
use iron_voxel::payload::{decode_payload, encode_payload};
use iron_voxel::save::{load_terrains, save_terrains, Terrains};

#[test]
fn payload_is_lowercase_hex_without_prefix() {
    assert_eq!(encode_payload(&vec![0x4c, 0x6f, 0x00, 0xff, 0x0a]), "4c6f00ff0a");
    assert_eq!(encode_payload(&vec![]), "");
}

#[test]
fn payload_decodes_with_or_without_prefix_in_either_case() {
    assert_eq!(decode_payload("4c6f"), Some(vec![0x4c, 0x6f]));
    assert_eq!(decode_payload("0x4C6F"), Some(vec![0x4c, 0x6f]));
    assert_eq!(decode_payload("0xAbcD"), Some(vec![0xab, 0xcd]));
    assert_eq!(decode_payload(""), Some(vec![]));
    assert_eq!(decode_payload("0x"), Some(vec![]));
}

#[test]
fn payload_of_odd_length_does_not_decode() {
    assert_eq!(decode_payload("abc"), None);
    assert_eq!(decode_payload("0x1"), None);
}

#[test]
fn payload_with_a_non_digit_does_not_decode() {
    assert_eq!(decode_payload("zz"), None);
    assert_eq!(decode_payload("0x0g"), None);
    assert_eq!(decode_payload("é"), None);
    assert_eq!(decode_payload("0X12"), None);
}

#[test]
fn payload_decoder_folds_low_control_characters_onto_digits() {
    assert_eq!(decode_payload("\u{10}\u{19}"), Some(vec![0x09]));
}

#[test]
fn payload_round_trip() {
    let bytes: Vec<u8> = (0..=255u8).collect();
    assert_eq!(decode_payload(&encode_payload(&bytes)), Some(bytes));
}

#[test]
fn saved_chunks_load_back_in_order() {
    let chunks = vec![
        ([0, -5, 0], vec![1u8, 2, 3]),
        ([1, 2, -3], vec![]),
        ([-7, 0, 9], vec![0xff, 0x00]),
    ];
    let terrains = save_terrains(&chunks);
    assert_eq!(terrains.keys, vec![[0, -5, 0], [1, 2, -3], [-7, 0, 9]]);
    assert_eq!(terrains.voxels, vec!["010203".to_string(), "".to_string(), "ff00".to_string()]);
    assert_eq!(load_terrains(&terrains), chunks);
}

#[test]
fn loading_skips_entries_that_do_not_decode() {
    let terrains = Terrains {
        keys: vec![[0, 0, 0], [1, 0, 0], [2, 0, 0]],
        voxels: vec!["0a".to_string(), "xyz".to_string(), "0x0B0c".to_string()],
    };
    assert_eq!(load_terrains(&terrains), vec![([0, 0, 0], vec![0x0a]), ([2, 0, 0], vec![0x0b, 0x0c])]);
}

#[test]
fn key_request_travels_as_bincode_hex() {
    let k = Key { key: [1, -2, 3], lod: 4 };
    assert_eq!(
        encode_key_message(&k),
        "0100000000000000feffffffffffffff03000000000000000400000000000000"
    );
}

#[test]
fn key_request_round_trip() {
    let k = Key { key: [i64::MIN, 0, i64::MAX], lod: 7 };
    assert_eq!(decode_key_message(&encode_key_message(&k)), Some(k));
}

#[test]
fn key_request_ignores_trailing_bytes() {
    let text = "0100000000000000feffffffffffffff0300000000000000040000000000000000ff";
    assert_eq!(decode_key_message(text), Some(Key { key: [1, -2, 3], lod: 4 }));
}

#[test]
fn short_or_non_hex_key_request_is_refused() {
    assert_eq!(decode_key_message("0100000000000000"), None);
    assert_eq!(decode_key_message(""), None);
    assert_eq!(decode_key_message("not hex"), None);
}

#[test]
fn event_names_and_replies() {
    assert_eq!(EventType::KeySend.to_string(), "KeySend");
    assert_eq!(EventType::KeyRecv.to_string(), "KeyRecv");
    assert_eq!(EventType::ChunkSend.to_string(), "ChunkSend");
    assert_eq!(EventType::ChunkRecv.to_string(), "ChunkRecv");
    assert_eq!(EventType::SendColors.to_string(), "SendColors");
    assert_eq!(EventType::KeySend.reply(), Some(EventType::KeyRecv));
    assert_eq!(EventType::ChunkSend.reply(), Some(EventType::ChunkRecv));
    assert_eq!(EventType::KeyRecv.reply(), None);
    assert_eq!(EventType::SendColors.reply(), None);
}

#[test]
fn event_names_are_distinct() {
    let all = [
        EventType::KeySend,
        EventType::KeyRecv,
        EventType::ChunkSend,
        EventType::ChunkRecv,
        EventType::SendColors,
    ];
    for a in all.iter() {
        for b in all.iter() {
            assert_eq!(a == b, a.to_string() == b.to_string());
        }
    }
}
