use g16core::cache::{credits_from_cache, credits_to_cache, outputs_from_cache, outputs_to_cache};
use g16core::codec::{decode_block, decode_header, encode_block, encode_header};
use g16core::gate::{EmittedGate, EmittedGateType};
use g16core::u24::U24;

fn sample_gates() -> Vec<EmittedGate> {
    vec![
        EmittedGate { in1: 2, in2: 3, out: 4, credits: 1, gate_type: EmittedGateType::And },
        EmittedGate { in1: 4, in2: 1, out: 5, credits: 2, gate_type: EmittedGateType::Xor },
        EmittedGate {
            in1: 0x0123_4567_89AB_CDEF,
            in2: 5,
            out: 0xFFFF_FFFF_FFFF_FFFE,
            credits: 0x00FF_FFFF,
            gate_type: EmittedGateType::Xor,
        },
    ]
}

#[test]
fn test_block_round_trip() {
    let gates = sample_gates();
    let bytes = encode_block(&gates);
    assert_eq!(bytes.len(), 4 + 29 * gates.len());
    let (decoded, end) = decode_block(&bytes, 0).unwrap();
    assert_eq!(end, bytes.len());
    assert_eq!(decoded, gates);
}

#[test]
fn test_block_round_trip_empty() {
    let gates: Vec<EmittedGate> = vec![];
    let bytes = encode_block(&gates);
    assert_eq!(bytes.len(), 4);
    let (decoded, end) = decode_block(&bytes, 0).unwrap();
    assert_eq!(end, 4);
    assert!(decoded.is_empty());
}

#[test]
fn test_block_rejects_truncation_and_bad_type() {
    let gates = sample_gates();
    let mut bytes = encode_block(&gates);
    bytes.pop();
    assert!(decode_block(&bytes, 0).is_none(), "a truncated block is rejected");

    let mut bytes = encode_block(&gates);
    // corrupt the first gate-type byte: only 0 and 1 name gate types
    bytes[4] = 7;
    assert!(decode_block(&bytes, 0).is_none(), "an unknown gate type is rejected");
}

#[test]
fn test_blocks_decode_in_sequence() {
    let gates = sample_gates();
    let mut bytes = encode_block(&gates);
    let more = vec![
        EmittedGate { in1: 9, in2: 8, out: 10, credits: 3, gate_type: EmittedGateType::And },
    ];
    bytes.extend(encode_block(&more));
    let (first, mid) = decode_block(&bytes, 0).unwrap();
    let (second, end) = decode_block(&bytes, mid).unwrap();
    assert_eq!(first, gates);
    assert_eq!(second, more);
    assert_eq!(end, bytes.len());
}

#[test]
fn test_header_round_trip() {
    let outputs = vec![41u64, 42, 1 << 40];
    let bytes = encode_header(7, &outputs, 123_456_789);
    assert_eq!(bytes.len(), 29 + 8 * outputs.len());
    let (pi, outs, total, end) = decode_header(&bytes).unwrap();
    assert_eq!(pi, 7);
    assert_eq!(outs, outputs);
    assert_eq!(total, 123_456_789);
    assert_eq!(end, bytes.len());
}

#[test]
fn test_header_rejects_bad_magic_or_version() {
    let outputs = vec![4u64];
    let mut bytes = encode_header(1, &outputs, 0);
    bytes[0] = b'X';
    assert!(decode_header(&bytes).is_none());

    let mut bytes = encode_header(1, &outputs, 0);
    bytes[4] = 0x59;
    assert!(decode_header(&bytes).is_none(), "the version byte must be 5a");

    let bytes = encode_header(1, &outputs, 0);
    assert!(decode_header(&bytes[..bytes.len() - 1]).is_none());
}

#[test]
fn test_credits_cache_round_trip() {
    let creds = vec![U24::from_u32(0), U24::from_u32(1), U24::from_u32(0xFFFFFF), U24::from_u32(0x1234)];
    let bytes = credits_to_cache(&creds);
    assert_eq!(bytes.len(), 3 * creds.len());
    let back = credits_from_cache(&bytes);
    assert_eq!(back, creds);

    // a trailing fragment shorter than one value is ignored
    let mut ragged = bytes.clone();
    ragged.push(0xAA);
    assert_eq!(credits_from_cache(&ragged), creds);
}

#[test]
fn test_outputs_cache_round_trip() {
    let outs = vec![4u64, 77, 1 << 50];
    let bytes = outputs_to_cache(&outs);
    assert_eq!(bytes.len(), 8 * outs.len());
    assert_eq!(outputs_from_cache(&bytes), outs);

    let mut ragged = bytes.clone();
    ragged.extend([1, 2, 3]);
    assert_eq!(outputs_from_cache(&ragged), outs);
}
