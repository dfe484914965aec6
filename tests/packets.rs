use puzzles::bits::PacketData;
use puzzles::error::DecodeError;
use puzzles::hex::decode_hex;
use puzzles::packet::{decode, Operation, Packet};

/// Packs a string of '0' and '1' into hexadecimal text, zero-padding the
/// last nibble.
fn bits_to_hex(bits: &str) -> String {
    let mut padded = bits.to_string();
    while padded.len() % 4 != 0 {
        padded.push('0');
    }
    let mut out = String::new();
    for chunk in padded.as_bytes().chunks(4) {
        let text = std::str::from_utf8(chunk).unwrap();
        let v = u8::from_str_radix(text, 2).unwrap();
        out.push_str(&format!("{:X}", v));
    }
    out
}

fn value_of(hex: &str) -> Option<u64> {
    decode(hex.as_bytes()).unwrap().value()
}

fn version_sum_of(hex: &str) -> Option<u64> {
    decode(hex.as_bytes()).unwrap().version_sum()
}

#[test]
fn version_sum_nested_operators() {
    assert_eq!(version_sum_of("8A004A801A8002F478"), Some(16));
}

#[test]
fn version_sum_two_subtrees() {
    assert_eq!(version_sum_of("620080001611562C8802118E34"), Some(12));
}

#[test]
fn version_sum_larger_examples() {
    assert_eq!(version_sum_of("C0015000016115A2E0802F182340"), Some(23));
    assert_eq!(version_sum_of("A0016C880162017C3686B18A3D4780"), Some(31));
}

#[test]
fn value_sum() {
    assert_eq!(value_of("C200B40A82"), Some(3));
}

#[test]
fn value_product() {
    assert_eq!(value_of("04005AC33890"), Some(54));
}

#[test]
fn value_minimum() {
    assert_eq!(value_of("880086C3E88112"), Some(7));
}

#[test]
fn value_maximum() {
    assert_eq!(value_of("CE00C43D881120"), Some(9));
}

#[test]
fn value_less_than() {
    assert_eq!(value_of("D8005AC2A8F0"), Some(1));
}

#[test]
fn value_greater_than() {
    assert_eq!(value_of("F600BC2D8F"), Some(0));
}

#[test]
fn value_not_equal() {
    assert_eq!(value_of("9C005AC2F8F0"), Some(0));
}

#[test]
fn value_equal_nested() {
    assert_eq!(value_of("9C0141080250320F1802104A08"), Some(1));
}

#[test]
fn literal_three_groups() {
    let p = decode("D2FE28".as_bytes()).unwrap();
    match p {
        Packet::Literal(version, value) => {
            assert_eq!(version, 6);
            assert_eq!(value, 2021);
        }
        _ => panic!("not a literal"),
    }
}

#[test]
fn literal_single_group_takes_eleven_bits() {
    // version 6, type 4, one group 0 0101
    let mut data = PacketData::new(vec![0xD0, 0xA0]);
    let p = Packet::parse(&mut data).unwrap();
    assert_eq!(data.idx, 11);
    match p {
        Packet::Literal(version, value) => {
            assert_eq!(version, 6);
            assert_eq!(value, 5);
        }
        _ => panic!("not a literal"),
    }
}

#[test]
fn literal_round_trip_of_large_value() {
    let v: u64 = 0xFEDC_BA98_7654_3210;
    let mut bits = String::from("001100");
    for k in 0..16 {
        let nibble = (v >> (4 * (15 - k))) & 0xF;
        bits.push(if k < 15 { '1' } else { '0' });
        bits.push_str(&format!("{:04b}", nibble));
    }
    let p = decode(bits_to_hex(&bits).as_bytes()).unwrap();
    assert_eq!(p.value(), Some(v));
}

#[test]
fn literal_too_large_is_rejected() {
    let mut bits = String::from("001100");
    for k in 0..17 {
        bits.push(if k < 16 { '1' } else { '0' });
        bits.push_str("0001");
    }
    assert!(matches!(
        decode(bits_to_hex(&bits).as_bytes()),
        Err(DecodeError::LiteralOverflow)
    ));
}

#[test]
fn length_framed_children() {
    let p = decode("38006F45291200".as_bytes()).unwrap();
    match p {
        Packet::Operator(version, op, children) => {
            assert_eq!(version, 1);
            assert_eq!(op, Operation::LessThan);
            assert_eq!(children.len(), 2);
            assert_eq!(children[0].value(), Some(10));
            assert_eq!(children[1].value(), Some(20));
        }
        _ => panic!("not an operator"),
    }
}

#[test]
fn count_framed_children() {
    let p = decode("EE00D40C823060".as_bytes()).unwrap();
    match p {
        Packet::Operator(version, op, children) => {
            assert_eq!(version, 7);
            assert_eq!(op, Operation::Maximum);
            assert_eq!(children.len(), 3);
            assert_eq!(p_value(&children[2]), 3);
        }
        _ => panic!("not an operator"),
    }
}

fn p_value(p: &Packet) -> u64 {
    p.value().unwrap()
}

#[test]
fn truncated_input_fails() {
    assert!(matches!(decode("D2FE".as_bytes()), Err(DecodeError::Truncated)));
    assert!(matches!(decode("".as_bytes()), Err(DecodeError::Truncated)));
    assert!(matches!(decode("38006F452912".as_bytes()), Err(DecodeError::Truncated)));
}

#[test]
fn child_overrunning_its_length_fails() {
    // sum, length type 0, declared length 10, then an 11-bit literal
    let bits = format!("0000000{:015b}00010000001", 10);
    assert!(matches!(
        decode(bits_to_hex(&bits).as_bytes()),
        Err(DecodeError::LengthMismatch)
    ));
}

#[test]
fn comparison_with_one_child_fails() {
    // greater-than, length type 1, one child
    let bits = format!("0001011{:011b}00010000001", 1);
    assert!(matches!(
        decode(bits_to_hex(&bits).as_bytes()),
        Err(DecodeError::BadArity)
    ));
}

#[test]
fn bad_hex_digit_fails() {
    assert!(matches!(decode("D2FG28".as_bytes()), Err(DecodeError::BadHexDigit)));
}

#[test]
fn hex_decoding_pads_odd_digit() {
    assert_eq!(decode_hex("a1F".as_bytes()).unwrap(), vec![0xA1, 0xF0]);
}

#[test]
fn read_bits_msb_first() {
    let mut data = PacketData::new(vec![0b1011_0010, 0b0111_0000]);
    assert_eq!(data.read_bits(3), Some(0b101));
    assert_eq!(data.read_bits(7), Some(0b1001001));
    assert_eq!(data.read_bits(6), Some(0b110000));
    assert_eq!(data.read_bits(1), None);
    assert_eq!(data.idx, 16);
}

#[test]
fn sum_overflow_gives_none() {
    let big = format!("1111{:04b}", 0);
    let mut bits = format!("0000001{:011b}", 2);
    for _ in 0..2 {
        bits.push_str("000100");
        for k in 0..16 {
            bits.push(if k < 15 { '1' } else { '0' });
            bits.push_str(if k == 0 { &big[0..4] } else { "0000" });
        }
    }
    let p = decode(bits_to_hex(&bits).as_bytes()).unwrap();
    assert_eq!(p.value(), None);
    assert_eq!(p.version_sum(), Some(0));
}

#[test]
fn length_framing_ends_packet_at_declared_length() {
    // header 22 bits, children 11 + 16 bits = 27, the declared length
    let mut data = PacketData::new(decode_hex("38006F45291200".as_bytes()).unwrap());
    let p = Packet::parse(&mut data).unwrap();
    assert_eq!(data.idx, 22 + 27);
    assert_eq!(p.version_sum(), Some(1 + 6 + 2));
}
