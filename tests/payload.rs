use base64::engine::general_purpose;
use base64::Engine;
use flate2::read::ZlibDecoder;
use sensor_audio::frames::copy_data_and_create_audio_raw_struct;
use sensor_audio::payload::{convert_audio_raw_struct_to_base64_string, encode_audio_raw, payload_text};
use serde_cbor::Value;
use std::collections::BTreeMap;
use std::io::Read;

fn text(s: &str) -> Value {
    Value::Text(s.to_string())
}

fn field<'a>(map: &'a BTreeMap<Value, Value>, key: &str) -> &'a Value {
    map.get(&text(key)).expect("missing field")
}

fn as_map(v: &Value) -> &BTreeMap<Value, Value> {
    match v {
        Value::Map(m) => m,
        other => panic!("expected a map, got {:?}", other),
    }
}

fn ints(v: &Value) -> Vec<i128> {
    match v {
        Value::Array(items) => items
            .iter()
            .map(|i| match i {
                Value::Integer(n) => *n,
                other => panic!("expected an integer, got {:?}", other),
            })
            .collect(),
        other => panic!("expected an array, got {:?}", other),
    }
}

fn decode_text(vd: &str) -> Vec<u8> {
    let compressed = general_purpose::URL_SAFE_NO_PAD.decode(vd).expect("base64");
    let mut data = Vec::new();
    ZlibDecoder::new(&compressed[..]).read_to_end(&mut data).expect("zlib");
    data
}

#[test]
fn binary_form_of_one_frame_is_exact() {
    let ar = copy_data_and_create_audio_raw_struct(&vec![vec![1], vec![-1]], 16384);
    let bytes = encode_audio_raw(&ar);
    let expected: Vec<u8> = vec![
        0xa6, 0x61, b'r', 0xa3, 0x61, b'v', 0x01, 0x63, b'd', b'i', b'm', 0x82, 0x01, 0x02, 0x64,
        b'd', b'a', b't', b'a', 0x82, 0x01, 0x20, 0x62, b'r', b't', 0x65, b'S', b'1', b'6', b'L',
        b'E', 0x62, b'm', b'l', 0x66, b'c', b'o', b'l', b'u', b'm', b'n', 0x62, b'c', b'c', 0x02,
        0x62, b's', b'c', 0x01, 0x62, b's', b'r', 0x19, 0x40, 0x00,
    ];
    assert_eq!(bytes, expected);
}

#[test]
fn binary_form_decodes_to_the_six_fields() {
    let left: Vec<i16> = vec![0, 23, 24, 255, 256, -1, -24, -25, i16::MIN, i16::MAX];
    let right: Vec<i16> = vec![-300, 300, 7, -7, 1000, -1000, 65, -65, 12, -12];
    let ar = copy_data_and_create_audio_raw_struct(&vec![left.clone(), right.clone()], 48000);
    let bytes = encode_audio_raw(&ar);
    let value: Value = serde_cbor::from_slice(&bytes).expect("cbor");
    let top = as_map(&value);
    assert_eq!(top.len(), 6);
    assert_eq!(field(top, "rt"), &text("S16LE"));
    assert_eq!(field(top, "ml"), &text("column"));
    assert_eq!(field(top, "cc"), &Value::Integer(2));
    assert_eq!(field(top, "sc"), &Value::Integer(10));
    assert_eq!(field(top, "sr"), &Value::Integer(48000));
    let r = as_map(field(top, "r"));
    assert_eq!(field(r, "v"), &Value::Integer(1));
    assert_eq!(ints(field(r, "dim")), vec![10, 2]);
    let mut expected = Vec::new();
    for f in 0..10 {
        expected.push(left[f] as i128);
        expected.push(right[f] as i128);
    }
    assert_eq!(ints(field(r, "data")), expected);
}

#[test]
fn text_round_trips_to_the_buffer() {
    let left: Vec<i16> = (0..512).map(|i| (i * 37 % 2000 - 1000) as i16).collect();
    let right: Vec<i16> = (0..512).map(|i| (i * 91 % 4000 - 2000) as i16).collect();
    let ar = copy_data_and_create_audio_raw_struct(&vec![left.clone(), right.clone()], 16384);
    let binary = encode_audio_raw(&ar);
    let vd = convert_audio_raw_struct_to_base64_string(ar).expect("text");
    assert!(!vd.contains('=') && !vd.contains('+') && !vd.contains('/'));
    let data = decode_text(&vd);
    assert_eq!(data, binary);
    let value: Value = serde_cbor::from_slice(&data).expect("cbor");
    let top = as_map(&value);
    assert_eq!(field(top, "sc"), &Value::Integer(512));
    assert_eq!(field(top, "sr"), &Value::Integer(16384));
    let data_items = ints(field(as_map(field(top, "r")), "data"));
    assert_eq!(data_items.len(), 1024);
    assert_eq!(data_items[2 * 100], left[100] as i128);
    assert_eq!(data_items[2 * 100 + 1], right[100] as i128);
}

#[test]
fn empty_buffer_round_trips() {
    let ar = copy_data_and_create_audio_raw_struct(&vec![vec![], vec![]], 16384);
    let binary = encode_audio_raw(&ar);
    let vd = convert_audio_raw_struct_to_base64_string(ar).expect("text");
    assert_eq!(decode_text(&vd), binary);
    let value: Value = serde_cbor::from_slice(&binary).expect("cbor");
    let top = as_map(&value);
    assert_eq!(field(top, "sc"), &Value::Integer(0));
    assert_eq!(ints(field(as_map(field(top, "r")), "dim")), vec![0, 2]);
}

#[test]
fn encoding_twice_gives_the_same_text() {
    let channels = vec![vec![5, -6, 7], vec![-8, 9, -10]];
    let a = copy_data_and_create_audio_raw_struct(&channels, 16384);
    let b = copy_data_and_create_audio_raw_struct(&channels, 16384);
    let ta = convert_audio_raw_struct_to_base64_string(a).expect("text");
    let tb = convert_audio_raw_struct_to_base64_string(b).expect("text");
    assert_eq!(ta, tb);
}

#[test]
fn payload_text_uses_the_url_safe_alphabet_without_padding() {
    assert_eq!(payload_text(&vec![0xfb, 0xff]), "-_8");
    assert_eq!(payload_text(&b"Man".to_vec()), "TWFu");
    assert_eq!(payload_text(&b"Ma".to_vec()), "TWE");
    assert_eq!(payload_text(&b"M".to_vec()), "TQ");
    assert_eq!(payload_text(&Vec::new()), "");
}
