use g16core::checker::CircuitChecker;
use g16core::codec::{decode_block, decode_header};
use g16core::gate::{EmittedGate, EmittedGateType};
use g16core::writer::CircuitWriter;

// Assemble a whole file in memory through the writer, then read it
// back and run the checker over it.
#[test]
fn test_writer_file_round_trip() {
    let gates = vec![
        EmittedGate { in1: 2, in2: 3, out: 4, credits: 1, gate_type: EmittedGateType::And },
        EmittedGate { in1: 4, in2: 2, out: 5, credits: 1, gate_type: EmittedGateType::Xor },
        EmittedGate { in1: 5, in2: 3, out: 6, credits: 0, gate_type: EmittedGateType::Xor },
    ];
    let mut writer = CircuitWriter::new(2, vec![6], 2);
    let mut file: Vec<u8> = Vec::new();
    let header = writer.header_bytes();
    let header_len = header.len();
    file.extend(header);
    for g in &gates {
        if let Some(block) = writer.write_gate(*g) {
            file.extend(block);
        }
    }
    let (last, final_header) = writer.finalize();
    if let Some(block) = last {
        file.extend(block);
    }
    // patch the header with the final gate count
    file[..header_len].copy_from_slice(&final_header);

    let (pi, outs, total, mut pos) = decode_header(&file).unwrap();
    assert_eq!(pi, 2);
    assert_eq!(outs, vec![6]);
    assert_eq!(total, 3);

    let mut checker = CircuitChecker::new(pi);
    let mut seen = Vec::new();
    while pos < file.len() {
        let (block, end) = decode_block(&file, pos).unwrap();
        for g in &block {
            checker.step(g).unwrap();
            seen.push(*g);
        }
        pos = end;
    }
    assert_eq!(seen, gates, "gates come back in emission order");
    assert!(checker.accepted());
}

// S6: ten million gates through the writer with the configured block
// capacity; memory holds one block at a time and the final count is
// exact.
#[test]
fn test_streaming_bound() {
    let total: u64 = 10_000_000;
    let block_capacity = 1usize << 14;
    let mut writer = CircuitWriter::new(2, vec![2], block_capacity);
    let mut full_blocks: u64 = 0;
    let mut flushed_gates: u64 = 0;
    for i in 0..total {
        let g = EmittedGate {
            in1: 2,
            in2: 3,
            out: 4 + i,
            credits: 0,
            gate_type: EmittedGateType::Xor,
        };
        if let Some(block) = writer.write_gate(g) {
            full_blocks += 1;
            flushed_gates += ((block.len() - 4) / 29) as u64;
        }
    }
    let (last, header) = writer.finalize();
    let rest = match last {
        Some(block) => ((block.len() - 4) / 29) as u64,
        None => 0,
    };
    assert_eq!(full_blocks, total / block_capacity as u64);
    assert_eq!(flushed_gates + rest, total);

    let (_pi, _outs, counted, _pos) = decode_header(&header).unwrap();
    assert_eq!(counted, total, "the finalized header carries the exact gate count");
}
