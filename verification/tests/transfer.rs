use rsdrop::accepter::{
    key_phase_step, manifest_phase_step, ready_ack, FileReceiver, KeyPhaseStep, CHUNK_SIZE,
};
use rsdrop::connector::{build_manifest, check_ready_ack, FileSender};
use rsdrop::file_meta::{FileMeta, MetaList};
use rsdrop::key_object::KeyObject;
use rsdrop::keys::{generate_keypair_bits, make_key_envelope};
use rsdrop::wire::{key_bytes, manifest_bytes};
use rsdrop::DropError;

fn content(n: usize) -> Vec<u8> {
    (0..n).map(|i| (i % 251) as u8).collect()
}

/// Drive a receiver with the file's bytes exactly as the wire loop would:
/// chunk by chunk, each chunk as long as the receiver asks for.
fn deliver(receiver: &mut FileReceiver, stream: &[u8]) -> usize {
    let mut consumed = 0usize;
    while !receiver.done() {
        let want = receiver.next_chunk_len() as usize;
        assert!(want > 0, "an unfinished receiver asks for bytes");
        let chunk: Vec<u8> = stream[consumed..consumed + want].to_vec();
        receiver.accept_chunk(&chunk);
        consumed += want;
    }
    consumed
}

#[test]
fn file_meta_known_digests() {
    let empty = FileMeta::new("empty".to_string(), &Vec::new());
    assert_eq!(empty.size, 0);
    assert_eq!(empty.verity.kind, "rsa");
    assert_eq!(empty.verity.data, "d41d8cd98f00b204e9800998ecf8427e");

    let abc = FileMeta::new("abc.txt".to_string(), &b"abc".to_vec());
    assert_eq!(abc.size, 3);
    assert_eq!(abc.verity.data, "900150983cd24fb0d6963f7d28e17f72");
}

#[test]
fn zero_size_descriptor_needs_no_read() {
    let meta = FileMeta::new("empty".to_string(), &Vec::new());
    let receiver = FileReceiver::new(&meta);
    assert!(receiver.done());
    let name = receiver.finish().expect("empty file matches its checksum");
    assert_eq!(name, "empty");
}

#[test]
fn byte_accounting_below_chunk() {
    let data = content(100);
    let meta = FileMeta::new("f".to_string(), &data);
    let mut receiver = FileReceiver::new(&meta);
    assert_eq!(receiver.next_chunk_len(), 100);
    assert_eq!(deliver(&mut receiver, &data), 100);
    receiver.finish().expect("checksum matches");
}

#[test]
fn byte_accounting_exact_chunk_multiple() {
    let data = content(2 * CHUNK_SIZE);
    let meta = FileMeta::new("f".to_string(), &data);
    let mut receiver = FileReceiver::new(&meta);
    assert_eq!(receiver.next_chunk_len() as usize, CHUNK_SIZE);
    assert_eq!(deliver(&mut receiver, &data), 2 * CHUNK_SIZE);
    receiver.finish().expect("checksum matches");
}

#[test]
fn byte_accounting_chunk_plus_one() {
    let data = content(CHUNK_SIZE + 1);
    let meta = FileMeta::new("f".to_string(), &data);
    let mut receiver = FileReceiver::new(&meta);
    assert_eq!(receiver.next_chunk_len() as usize, CHUNK_SIZE);
    let first: Vec<u8> = data[..CHUNK_SIZE].to_vec();
    receiver.accept_chunk(&first);
    assert!(!receiver.done());
    assert_eq!(receiver.next_chunk_len(), 1);
    let second: Vec<u8> = data[CHUNK_SIZE..].to_vec();
    receiver.accept_chunk(&second);
    assert!(receiver.done());
    receiver.finish().expect("checksum matches");
}

#[test]
fn three_files_stream_in_manifest_order() {
    // Scenario: send three files of sizes {0, 10240, 10241}; the receiver
    // consumes each file's exact byte count from one concatenated stream
    // and every checksum matches.
    let files: Vec<(String, Vec<u8>)> = vec![
        ("a".to_string(), content(0)),
        ("b".to_string(), content(10240)),
        ("c".to_string(), content(10241)),
    ];
    let manifest = build_manifest(&files);
    assert_eq!(manifest.len(), 3);

    // The manifest crosses the wire.
    let bytes = manifest_bytes(&manifest);
    let received = rsdrop::wire::try_decode_manifest(&bytes).expect("manifest decodes");

    // The sender concatenates the files with no delimiter.
    let mut stream: Vec<u8> = Vec::new();
    for (_, data) in &files {
        let mut sender = FileSender::new(data.len() as u64);
        let mut at = 0usize;
        while !sender.done() {
            let n = sender.next_chunk_len() as usize;
            let chunk: Vec<u8> = data[at..at + n].to_vec();
            stream.extend_from_slice(&chunk);
            sender.record_chunk(&chunk);
            at += n;
        }
        assert_eq!(at, data.len());
    }

    // The receiver cuts the stream by the manifest alone.
    let mut offset = 0usize;
    for i in 0..received.len() {
        let meta = received.get(i).duplicate();
        let mut receiver = FileReceiver::new(&meta);
        let consumed = deliver(&mut receiver, &stream[offset..]);
        assert_eq!(consumed as u64, meta.size);
        assert_eq!(&stream[offset..offset + consumed], &files[i].1[..]);
        let name = receiver.finish().expect("checksum matches");
        assert_eq!(name, files[i].0);
        offset += consumed;
    }
    assert_eq!(offset, stream.len());
}

#[test]
fn corrupted_bytes_are_rejected() {
    // Scenario: corrupt a file's bytes in transit after the checksum was
    // computed; the receiver must reject and never release the final name.
    let mut data = content(10240);
    let meta = FileMeta::new("precious".to_string(), &data);
    data[5000] ^= 0xff;
    let mut receiver = FileReceiver::new(&meta);
    deliver(&mut receiver, &data);
    match receiver.finish() {
        Ok(_) => panic!("corrupted content must not be accepted"),
        Err(e) => assert_eq!(e, DropError::IntegrityMismatch),
    }
}

#[test]
fn ready_ack_is_one() {
    assert_eq!(ready_ack(), 1u8);
    assert!(check_ready_ack(1).is_ok());
    assert_eq!(check_ready_ack(0), Err(DropError::ProtocolData));
    assert_eq!(check_ready_ack(2), Err(DropError::ProtocolData));
}

#[test]
fn key_exchange_accepts_real_key() {
    let (_private_key, public_key) = generate_keypair_bits(512).expect("key generation");
    let envelope = make_key_envelope(&public_key).expect("key encodes to PEM");
    assert_eq!(envelope.kind, "rsa");
    let bytes = key_bytes(&envelope);
    let cut = bytes.len() / 2;
    let mut buf: Vec<u8> = Vec::new();
    let first: Vec<u8> = bytes[..cut].to_vec();
    let second: Vec<u8> = bytes[cut..].to_vec();
    assert!(matches!(key_phase_step(&mut buf, &first), KeyPhaseStep::Incomplete));
    match key_phase_step(&mut buf, &second) {
        KeyPhaseStep::Accepted(_) => {},
        _ => panic!("a valid rsa envelope must be accepted"),
    }
}

#[test]
fn own_envelope_validates() {
    // The envelope a node sends carries the PEM of its own key, so the
    // peer's validation accepts it and hands the key back.
    let (_private_key, public_key) = generate_keypair_bits(512).expect("key generation");
    let envelope = make_key_envelope(&public_key).expect("key encodes to PEM");
    assert!(rsdrop::keys::validate_key_envelope(&envelope).is_ok());
}

#[test]
fn key_exchange_rejects_wrong_type() {
    let envelope = KeyObject::new("dsa".to_string(), "whatever".to_string());
    let bytes = key_bytes(&envelope);
    let mut buf: Vec<u8> = Vec::new();
    match key_phase_step(&mut buf, &bytes) {
        KeyPhaseStep::Rejected(e) => assert_eq!(e, DropError::ProtocolData),
        _ => panic!("a non-rsa envelope must be rejected"),
    }
}

#[test]
fn key_exchange_rejects_bad_pem() {
    let envelope = KeyObject::new("rsa".to_string(), "not a pem".to_string());
    let bytes = key_bytes(&envelope);
    let mut buf: Vec<u8> = Vec::new();
    match key_phase_step(&mut buf, &bytes) {
        KeyPhaseStep::Rejected(e) => assert_eq!(e, DropError::InvalidKey),
        _ => panic!("a bad pem must be rejected"),
    }
}

#[test]
fn manifest_phase_consumes_complete_buffer() {
    let mut m = MetaList::new();
    m.push(FileMeta::with_digest("f".to_string(), 7, "00".to_string()));
    let bytes = manifest_bytes(&m);
    let cut = bytes.len() - 3;
    let mut buf: Vec<u8> = Vec::new();
    let first: Vec<u8> = bytes[..cut].to_vec();
    let second: Vec<u8> = bytes[cut..].to_vec();
    assert!(manifest_phase_step(&mut buf, &first).is_none());
    let got = manifest_phase_step(&mut buf, &second).expect("manifest completes");
    assert_eq!(got.len(), 1);
    assert_eq!(got.get(0).name, "f");
    assert_eq!(got.get(0).size, 7);
}
