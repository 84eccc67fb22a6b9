use rsdrop::device::Device;
use rsdrop::digest::to_hex;
use rsdrop::discoverer::DiscoveryReq;
use rsdrop::file_meta::{FileMeta, MetaList};
use rsdrop::key_object::KeyObject;
use rsdrop::wire::{
    discovery_bytes, encode_discovery, encode_key, encode_manifest, key_bytes, manifest_bytes,
    try_decode_discovery, try_decode_key, try_decode_manifest,
};

fn sample_device() -> Device {
    Device::new("Alice".to_string(), "linux".to_string(), "100-7".to_string())
}

#[test]
fn discovery_encoding_is_exact() {
    let msg = DiscoveryReq::new(&sample_device(), 52638, true);
    let text = encode_discovery(&msg);
    assert_eq!(
        text,
        "{\"version\":1,\"device\":{\"name\":\"Alice\",\"type\":\"linux\",\"id\":\"100-7\"},\"port\":52638,\"ack\":true}"
    );
}

#[test]
fn key_encoding_is_exact() {
    let k = KeyObject::new("rsa".to_string(), "PEMDATA".to_string());
    assert_eq!(encode_key(&k), "{\"type\":\"rsa\",\"data\":\"PEMDATA\"}");
}

#[test]
fn manifest_encoding_is_exact() {
    let mut m = MetaList::new();
    m.push(FileMeta::with_digest(
        "a.txt".to_string(),
        3,
        "900150983cd24fb0d6963f7d28e17f72".to_string(),
    ));
    assert_eq!(
        encode_manifest(&m),
        "{\"files\":[{\"name\":\"a.txt\",\"size\":3,\"verity\":{\"type\":\"rsa\",\"data\":\"900150983cd24fb0d6963f7d28e17f72\"}}]}"
    );
}

#[test]
fn empty_manifest_encoding() {
    let m = MetaList::new();
    assert_eq!(encode_manifest(&m), "{\"files\":[]}");
    let bytes = manifest_bytes(&m);
    let back = try_decode_manifest(&bytes).expect("empty manifest must decode");
    assert_eq!(back.len(), 0);
}

#[test]
fn string_escaping_round_trip() {
    let tricky = "a\"b\\c\nd\te\u{1}f\u{c}g\ré€日".to_string();
    let dev = Device::new(tricky.clone(), "linux".to_string(), "i-1".to_string());
    let msg = DiscoveryReq::new(&dev, 1, false);
    let bytes = discovery_bytes(&msg);
    let back = try_decode_discovery(&bytes).expect("escaped message must decode");
    assert_eq!(back.device.name, tricky);
}

#[test]
fn escaping_matches_serde_json() {
    let tricky = "q\"uo\\te\nnew\tta\u{8}b\u{c}f\rcr\u{1f}ctl é€".to_string();
    let dev = Device::new(tricky.clone(), "macos".to_string(), "id-9".to_string());
    let msg = DiscoveryReq::new(&dev, 65535, true);
    let text = encode_discovery(&msg);
    let v: serde_json::Value = serde_json::from_str(&text).expect("serde_json must accept");
    assert_eq!(v["version"].as_u64().unwrap(), 1);
    assert_eq!(v["device"]["name"].as_str().unwrap(), tricky);
    assert_eq!(v["device"]["type"].as_str().unwrap(), "macos");
    assert_eq!(v["device"]["id"].as_str().unwrap(), "id-9");
    assert_eq!(v["port"].as_u64().unwrap(), 65535);
    assert_eq!(v["ack"].as_bool().unwrap(), true);
}

#[test]
fn manifest_matches_serde_json() {
    let mut m = MetaList::new();
    m.push(FileMeta::with_digest("x".to_string(), 0, "d41d8cd98f00b204e9800998ecf8427e".to_string()));
    m.push(FileMeta::with_digest("y y".to_string(), 18446744073709551615, "00".to_string()));
    let text = encode_manifest(&m);
    let v: serde_json::Value = serde_json::from_str(&text).expect("serde_json must accept");
    let files = v["files"].as_array().unwrap();
    assert_eq!(files.len(), 2);
    assert_eq!(files[0]["name"].as_str().unwrap(), "x");
    assert_eq!(files[0]["size"].as_u64().unwrap(), 0);
    assert_eq!(files[0]["verity"]["type"].as_str().unwrap(), "rsa");
    assert_eq!(files[1]["name"].as_str().unwrap(), "y y");
    assert_eq!(files[1]["size"].as_u64().unwrap(), 18446744073709551615);
    assert_eq!(files[1]["verity"]["data"].as_str().unwrap(), "00");
}

#[test]
fn discovery_round_trip() {
    let msg = DiscoveryReq::new(&sample_device(), 52638, false);
    let bytes = discovery_bytes(&msg);
    let back = try_decode_discovery(&bytes).expect("own encoding must decode");
    assert_eq!(back.version, 1);
    assert_eq!(back.device.name, "Alice");
    assert_eq!(back.device.kind, "linux");
    assert_eq!(back.device.id, "100-7");
    assert_eq!(back.port, 52638);
    assert_eq!(back.ack, false);
}

#[test]
fn key_round_trip() {
    let k = KeyObject::new("rsa".to_string(), "line1\nline2\n".to_string());
    let bytes = key_bytes(&k);
    let back = try_decode_key(&bytes).expect("own encoding must decode");
    assert_eq!(back.kind, "rsa");
    assert_eq!(back.data, "line1\nline2\n");
}

#[test]
fn manifest_round_trip_three_files() {
    let mut m = MetaList::new();
    m.push(FileMeta::with_digest("one".to_string(), 0, "aa".to_string()));
    m.push(FileMeta::with_digest("two".to_string(), 10240, "bb".to_string()));
    m.push(FileMeta::with_digest("three".to_string(), 10241, "cc".to_string()));
    let bytes = manifest_bytes(&m);
    let back = try_decode_manifest(&bytes).expect("own encoding must decode");
    assert_eq!(back.len(), 3);
    let names = ["one", "two", "three"];
    let sizes = [0u64, 10240, 10241];
    let digests = ["aa", "bb", "cc"];
    for i in 0..3 {
        assert_eq!(back.get(i).name, names[i]);
        assert_eq!(back.get(i).size, sizes[i]);
        assert_eq!(back.get(i).verity.kind, "rsa");
        assert_eq!(back.get(i).verity.data, digests[i]);
    }
}

#[test]
fn incomplete_buffer_does_not_decode() {
    let msg = DiscoveryReq::new(&sample_device(), 52638, true);
    let bytes = discovery_bytes(&msg);
    let partial: Vec<u8> = bytes[..bytes.len() - 1].to_vec();
    assert!(try_decode_discovery(&partial).is_none());
}

#[test]
fn trailing_garbage_does_not_decode() {
    let msg = DiscoveryReq::new(&sample_device(), 52638, true);
    let mut bytes = discovery_bytes(&msg);
    bytes.push(b'x');
    assert!(try_decode_discovery(&bytes).is_none());
}

#[test]
fn port_out_of_range_is_rejected() {
    let text = "{\"version\":1,\"device\":{\"name\":\"A\",\"type\":\"linux\",\"id\":\"1\"},\"port\":70000,\"ack\":true}";
    let bytes: Vec<u8> = text.as_bytes().to_vec();
    assert!(try_decode_discovery(&bytes).is_none());
}

#[test]
fn leading_zero_number_is_rejected() {
    let text = "{\"version\":01,\"device\":{\"name\":\"A\",\"type\":\"linux\",\"id\":\"1\"},\"port\":1,\"ack\":true}";
    let bytes: Vec<u8> = text.as_bytes().to_vec();
    assert!(try_decode_discovery(&bytes).is_none());
}

#[test]
fn handwritten_canonical_key_decodes() {
    let text = "{\"type\":\"rsa\",\"data\":\"abc\"}";
    let bytes: Vec<u8> = text.as_bytes().to_vec();
    let k = try_decode_key(&bytes).expect("canonical text must decode");
    assert_eq!(k.kind, "rsa");
    assert_eq!(k.data, "abc");
}

#[test]
fn empty_fields_round_trip() {
    let dev = Device::new(String::new(), String::new(), String::new());
    let msg = DiscoveryReq::new(&dev, 0, false);
    let bytes = discovery_bytes(&msg);
    let back = try_decode_discovery(&bytes).expect("empty fields must decode");
    assert_eq!(back.device.name, "");
    assert_eq!(back.device.kind, "");
    assert_eq!(back.device.id, "");
    assert_eq!(back.port, 0);
}

#[test]
fn only_canonical_text_is_taken() {
    // The receiver treats a buffer as complete exactly when it is one
    // canonical message; spaced or reordered JSON keeps accumulating.
    let spaced = "{ \"type\": \"rsa\", \"data\": \"abc\" }";
    assert!(try_decode_key(&spaced.as_bytes().to_vec()).is_none());
    let reordered = "{\"data\":\"abc\",\"type\":\"rsa\"}";
    assert!(try_decode_key(&reordered.as_bytes().to_vec()).is_none());
}

#[test]
fn hex_rendering() {
    let bytes: Vec<u8> = vec![0x00, 0x0f, 0xff, 0xa5];
    assert_eq!(to_hex(&bytes), "000fffa5");
}
