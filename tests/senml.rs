use base64::engine::general_purpose;
use base64::Engine;
use flate2::read::ZlibDecoder;
use sensor_audio::payload::payload_text;
use sensor_audio::senml::{create_sen_ml_map, decimal_text, get_topics, process_buffer};
use std::io::Read;

fn pairs(v: &[(&str, &str)]) -> Vec<(String, String)> {
    v.iter().map(|(k, x)| (k.to_string(), x.to_string())).collect()
}

fn keys(m: &[(String, String)]) -> Vec<&str> {
    m.iter().map(|(k, _)| k.as_str()).collect()
}

#[test]
fn envelope_has_the_four_entries() {
    let m = create_sen_ml_map("abc".to_string(), "sensor-1", 1700000000);
    assert_eq!(
        m,
        pairs(&[
            ("n", "sensor-1_audio"),
            ("t", "1700000000"),
            ("vd", "abc"),
            ("ct", "application/gzip"),
        ])
    );
}

#[test]
fn envelope_time_zero() {
    let m = create_sen_ml_map(String::new(), "", 0);
    assert_eq!(m, pairs(&[("n", "_audio"), ("t", "0"), ("vd", ""), ("ct", "application/gzip")]));
}

#[test]
fn empty_buffer_gives_a_full_envelope() {
    let m = process_buffer(&vec![vec![], vec![]], 16384, "dummy-1", 42).expect("envelope");
    assert_eq!(keys(&m), vec!["n", "t", "vd", "ct"]);
    assert_eq!(m[0].1, "dummy-1_audio");
    assert_eq!(m[1].1, "42");
    assert!(!m[2].1.is_empty());
}

#[test]
fn processed_buffer_carries_its_samples() {
    let m = process_buffer(&vec![vec![3, 4], vec![-3, -4]], 16384, "s", 7).expect("envelope");
    let compressed = general_purpose::URL_SAFE_NO_PAD.decode(&m[2].1).expect("base64");
    let mut data = Vec::new();
    ZlibDecoder::new(&compressed[..]).read_to_end(&mut data).expect("zlib");
    let value: serde_cbor::Value = serde_cbor::from_slice(&data).expect("cbor");
    let expected = copy_and_encode(&vec![vec![3, 4], vec![-3, -4]]);
    assert_eq!(data, expected);
    assert!(matches!(value, serde_cbor::Value::Map(_)));
}

fn copy_and_encode(channels: &Vec<Vec<i16>>) -> Vec<u8> {
    let ar = sensor_audio::frames::copy_data_and_create_audio_raw_struct(channels, 16384);
    sensor_audio::payload::encode_audio_raw(&ar)
}

#[test]
fn truncated_payload_does_not_affect_the_next_buffer() {
    let full = process_buffer(&vec![vec![1, 2, 3], vec![4, 5, 6]], 16384, "s", 1).expect("envelope");
    let compressed = general_purpose::URL_SAFE_NO_PAD.decode(&full[2].1).expect("base64");
    let cut = compressed[..compressed.len() / 2].to_vec();
    let broken = create_sen_ml_map(payload_text(&cut), "s", 1);
    assert_eq!(keys(&broken), vec!["n", "t", "vd", "ct"]);
    assert_eq!(general_purpose::URL_SAFE_NO_PAD.decode(&broken[2].1).expect("base64"), cut);
    let next = process_buffer(&vec![vec![7, 8], vec![9, 10]], 16384, "s", 2).expect("envelope");
    let compressed = general_purpose::URL_SAFE_NO_PAD.decode(&next[2].1).expect("base64");
    let mut data = Vec::new();
    ZlibDecoder::new(&compressed[..]).read_to_end(&mut data).expect("zlib");
    assert_eq!(data, copy_and_encode(&vec![vec![7, 8], vec![9, 10]]));
}

#[test]
fn topics_route_output_to_sensor_data() {
    assert_eq!(get_topics(), pairs(&[("out", "sensor/data")]));
}

#[test]
fn decimal_text_writes_all_digits() {
    assert_eq!(decimal_text(0), "0");
    assert_eq!(decimal_text(9), "9");
    assert_eq!(decimal_text(10), "10");
    assert_eq!(decimal_text(1700000000), "1700000000");
    assert_eq!(decimal_text(u64::MAX), "18446744073709551615");
}
