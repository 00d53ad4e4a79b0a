use netsim::codec::CodecError;
use netsim::codec::RaniCommandEntry;
use netsim::codec::RaniCommandPayload;
use netsim::codec::RaniHeader;
use netsim::codec::RaniPacket;
use netsim::codec::RaniPayload;
use netsim::codec::validate_packets;

fn data_packet(src: u8, dest: u8, ttl: u8, seq_no: u16, data: &[u8]) -> RaniPacket {
    let header = RaniHeader::new(src, dest, data.len() as u8, ttl, seq_no).unwrap();
    RaniPacket::new(header, RaniPayload::Data(data.to_vec()))
}

fn command_packet(src: u8, dest: u8, ttl: u8, seq_no: u16, timestamp: u32, entries: Vec<(u8, u8)>) -> RaniPacket {
    let table: Vec<RaniCommandEntry> = entries.iter().map(|&(d, c)| RaniCommandEntry::new(d, c)).collect();
    let payload = RaniCommandPayload::new(table.len() as u8, timestamp, table).unwrap();
    let mut header = RaniHeader::new(src, dest, payload.size() as u8, ttl, seq_no).unwrap();
    header.set_command();
    RaniPacket::new(header, RaniPayload::Command(payload))
}

fn encode(packet: &RaniPacket) -> Vec<u8> {
    let mut buf = vec![0u8; packet.size()];
    packet.serialise(&mut buf).unwrap();
    buf
}

#[test]
fn round_trip_data_packet() {
    let p = data_packet(3, 7, 9, 300, b"PING");
    let buf = encode(&p);
    assert_eq!(buf.len(), 12);
    let (q, rest) = RaniPacket::deserialise(&buf).unwrap();
    assert!(rest.is_empty());
    assert!(validate_packets(&p, &q).is_ok());
    // Re-encoding reproduces every byte, the checksum included.
    let buf2 = encode(&q);
    assert_eq!(buf, buf2);
}

#[test]
fn round_trip_command_packet() {
    let p = command_packet(1, 2, 15, 4000, 86399, vec![(10, 1), (20, 3), (30, 7)]);
    let buf = encode(&p);
    assert_eq!(buf.len(), 8 + 4 + 6);
    let (q, rest) = RaniPacket::deserialise(&buf).unwrap();
    assert!(rest.is_empty());
    assert!(validate_packets(&p, &q).is_ok());
    assert_eq!(encode(&q), buf);
    match &q.payload {
        RaniPayload::Command(c) => {
            assert_eq!(c.entry_count, 3);
            assert_eq!(c.timestamp, 86399);
            assert_eq!(c.entries[1], RaniCommandEntry::new(20, 3));
        }
        _ => panic!("expected a command payload"),
    }
}

#[test]
fn round_trip_flags() {
    let mut header = RaniHeader::new(5, 6, 2, 1, 17).unwrap();
    header.set_err();
    header.set_ack();
    let p = RaniPacket::new(header, RaniPayload::Data(vec![0xAA, 0x55]));
    let buf = encode(&p);
    // TTL 1 in the low nibble, ERR at bit 4, ACK at bit 6.
    assert_eq!(buf[3], 0x51);
    let (q, _) = RaniPacket::deserialise(&buf).unwrap();
    assert!(q.header.flag_err);
    assert!(!q.header.flag_end);
    assert!(q.header.flag_ack);
    assert!(validate_packets(&p, &q).is_ok());
}

#[test]
fn sequence_number_boundary_round_trips() {
    let p = data_packet(0, 0, 0, 4095, b"x");
    let buf = encode(&p);
    let (q, _) = RaniPacket::deserialise(&buf).unwrap();
    assert_eq!(q.header.seq_no, 4095);
    assert!(validate_packets(&p, &q).is_ok());
}

#[test]
fn timestamp_boundary_round_trips() {
    let p = command_packet(0, 0, 0, 0, (1 << 20) - 1, vec![(1, 1)]);
    let buf = encode(&p);
    let (q, _) = RaniPacket::deserialise(&buf).unwrap();
    match &q.payload {
        RaniPayload::Command(c) => assert_eq!(c.timestamp, (1 << 20) - 1),
        _ => panic!("expected a command payload"),
    }
}

#[test]
fn out_of_range_fields_rejected_at_construction() {
    assert!(RaniHeader::new(0, 0, 0, 16, 0).is_none());
    assert!(RaniHeader::new(0, 0, 0, 15, 4096).is_none());
    assert!(RaniHeader::new(0, 0, 248, 0, 0).is_none());
    assert!(RaniHeader::new(0, 0, 247, 15, 4095).is_some());
    assert!(RaniCommandPayload::new(2, 0, vec![RaniCommandEntry::new(1, 1)]).is_none());
    assert!(RaniCommandPayload::new(0, 1 << 20, Vec::new()).is_none());
    assert!(RaniCommandPayload::new(0, (1 << 20) - 1, Vec::new()).is_some());
}

#[test]
fn encode_fails_on_short_buffer() {
    let p = data_packet(1, 2, 3, 4, b"abcdef");
    let mut buf = vec![0u8; p.size() - 1];
    let before = buf.clone();
    assert_eq!(p.serialise(&mut buf), Err(CodecError::BufferTooShort));
    assert_eq!(buf, before);
    let mut exact = vec![0u8; p.size()];
    assert!(p.serialise(&mut exact).is_ok());
}

#[test]
fn decode_fails_on_short_buffer() {
    let p = data_packet(1, 2, 3, 4, b"abcdef");
    let buf = encode(&p);
    // Fewer than eight bytes cannot hold a header.
    match RaniPacket::deserialise(&buf[..7]) {
        Err(CodecError::BufferTooShort) => (),
        other => panic!("unexpected result: {:?}", other.map(|_| ())),
    }
}

#[test]
fn decode_fails_on_truncated_payload() {
    // Ten bytes whose length field declares twelve: fewer bytes were
    // supplied than the declared header/payload length demands.
    let p = data_packet(1, 2, 3, 4, b"PING");
    let mut buf = encode(&p);
    buf.truncate(10);
    match RaniPacket::deserialise(&buf) {
        Err(CodecError::BufferTooShort) => (),
        other => panic!("unexpected result: {:?}", other.map(|_| ())),
    }
}

#[test]
fn command_entry_table_must_fit() {
    // Command payload whose declared entry count exceeds the bytes given.
    let p = command_packet(1, 1, 1, 1, 0, vec![(2, 2)]);
    let mut buf = encode(&p);
    let delta = 9u8.wrapping_sub(buf[8]);
    buf[8] = 9; // entry count byte, was 1
    buf[6] = buf[6].wrapping_sub(delta); // keep the checksum valid
    match RaniPacket::deserialise(&buf) {
        Err(CodecError::BufferTooShort) => (),
        other => panic!("unexpected result: {:?}", other.map(|_| ())),
    }
}

#[test]
fn checksum_catches_every_single_bit_flip() {
    let p = command_packet(9, 4, 11, 2049, 54321, vec![(7, 2), (1, 9)]);
    let buf = encode(&p);
    for i in 0..buf.len() {
        if i == 6 {
            continue; // the checksum byte itself
        }
        for bit in 0..8 {
            let mut corrupted = buf.clone();
            corrupted[i] ^= 1 << bit;
            let result = RaniPacket::deserialise(&corrupted);
            if i == 2 {
                // A flipped length byte moves the end of the checksum
                // domain itself; here every flip declares a length that
                // the buffer cannot satisfy.
                match result {
                    Err(CodecError::BufferTooShort) => (),
                    other => panic!(
                        "flip of bit {} in the length byte not caught: {:?}",
                        bit,
                        other.map(|_| ())
                    ),
                }
            } else {
                match result {
                    Err(CodecError::ChecksumMismatch) => (),
                    other => panic!(
                        "flip of bit {} in byte {} not caught: {:?}",
                        bit,
                        i,
                        other.map(|_| ())
                    ),
                }
            }
            // Restoring the bit recovers a decodable packet.
            corrupted[i] ^= 1 << bit;
            assert!(RaniPacket::deserialise(&corrupted).is_ok());
        }
    }
}

#[test]
fn unknown_type_nibble_rejected() {
    let p = data_packet(1, 2, 3, 4, b"zz");
    let mut buf = encode(&p);
    buf[4] = (buf[4] & 0x0F) | 0x50; // type nibble 5: neither 4 nor 8
    let payload = buf[8..].to_vec();
    buf[6] = RaniHeader::checksum(&buf[..6], &payload);
    match RaniPacket::deserialise(&buf) {
        Err(CodecError::UnknownPacketType) => (),
        other => panic!("unexpected result: {:?}", other.map(|_| ())),
    }
}

#[test]
fn verify_checksum_on_raw_buffers() {
    assert!(RaniHeader::verify_checksum(&[0xFF]).is_ok());
    assert!(RaniHeader::verify_checksum(&[0xFE, 0x01]).is_ok());
    assert!(RaniHeader::verify_checksum(&[0x00]).is_err());
    assert!(RaniHeader::verify_checksum(&[]).is_err());
    let p = data_packet(1, 2, 3, 4, b"PING");
    assert!(RaniHeader::verify_checksum(&encode(&p)).is_ok());
}

#[test]
fn validate_packets_reports_first_differing_field() {
    let a = data_packet(1, 2, 3, 4, b"PING");
    assert!(validate_packets(&a, &a).is_ok());

    let b = data_packet(1, 9, 3, 4, b"PING");
    assert_eq!(validate_packets(&a, &b).unwrap_err(), "dest not correct");

    let c = data_packet(8, 9, 3, 4, b"PING");
    assert_eq!(validate_packets(&a, &c).unwrap_err(), "src not correct");

    let d = data_packet(1, 2, 3, 5, b"PING");
    assert_eq!(validate_packets(&a, &d).unwrap_err(), "seq_no not correct");

    let e = data_packet(1, 2, 3, 4, b"PONG");
    assert_eq!(validate_packets(&a, &e).unwrap_err(), "payload not correct");

    let f = data_packet(1, 2, 3, 4, b"LONGER");
    assert_eq!(validate_packets(&a, &f).unwrap_err(), "length not correct");

    let mut g = data_packet(1, 2, 3, 4, b"PING");
    g.header.flag_end = true;
    assert_eq!(validate_packets(&a, &g).unwrap_err(), "flags not correct");
}

#[test]
fn header_sizes() {
    let p = data_packet(1, 2, 3, 4, b"PING");
    assert_eq!(p.header.size(), 8);
    assert_eq!(p.size(), 12);
    assert!(p.is_valid());
}

#[test]
fn declared_length_below_header_size_rejected() {
    // Eight bytes whose checksum is valid and whose type nibble is known,
    // but whose length field declares less than a header.
    let mut buf = vec![0u8, 0, 0, 0, 0x80, 0, 0, 0];
    buf[6] = RaniHeader::checksum(&buf[..6], &[]);
    assert!(RaniHeader::verify_checksum(&buf).is_ok());
    match RaniPacket::deserialise(&buf) {
        Err(CodecError::BufferTooShort) => (),
        other => panic!("unexpected result: {:?}", other.map(|_| ())),
    }
}

#[test]
fn entry_codec_reads_and_writes_two_bytes() {
    let (e, rest) = RaniCommandEntry::deserialise(&[5, 7, 9]).unwrap();
    assert_eq!(e, RaniCommandEntry::new(5, 7));
    assert_eq!(rest, &[9]);
    assert_eq!(
        RaniCommandEntry::deserialise(&[5]).unwrap_err(),
        CodecError::BufferTooShort
    );

    let mut buf = vec![0xFFu8; 4];
    RaniCommandEntry::new(3, 4).serialise(&mut buf, 1).unwrap();
    assert_eq!(buf, vec![0xFF, 3, 4, 0xFF]);
    assert_eq!(
        RaniCommandEntry::new(3, 4).serialise(&mut buf, 3).unwrap_err(),
        CodecError::BufferTooShort
    );
}

#[test]
fn payload_codec_at_offset_preserves_surroundings() {
    let payload = RaniPayload::Data(vec![1, 2, 3]);
    let mut buf = vec![9u8; 6];
    payload.serialise(&mut buf, 2).unwrap();
    assert_eq!(buf, vec![9, 9, 1, 2, 3, 9]);
    assert_eq!(payload.size(), 3);

    let header = RaniHeader::new(0, 0, 3, 0, 0).unwrap();
    let (parsed, rest) = RaniPayload::deserialise(&header, &[1, 2, 3, 4]).unwrap();
    match parsed {
        RaniPayload::Data(d) => assert_eq!(d, vec![1, 2, 3]),
        _ => panic!("expected a data payload"),
    }
    assert_eq!(rest, &[4]);
    assert_eq!(
        RaniPayload::deserialise(&header, &[1, 2]).unwrap_err(),
        CodecError::BufferTooShort
    );
}

#[test]
fn command_payload_codec_round_trips_alone() {
    let table = vec![RaniCommandEntry::new(1, 2), RaniCommandEntry::new(3, 4)];
    let payload = RaniCommandPayload::new(2, 0xABCDE, table).unwrap();
    assert_eq!(payload.size(), 8);
    let mut buf = vec![0u8; 8];
    payload.serialise(&mut buf, 0).unwrap();
    assert_eq!(buf, vec![2, 0x0A, 0xBC, 0xDE, 1, 2, 3, 4]);
    let (parsed, rest) = RaniCommandPayload::deserialise(&buf).unwrap();
    assert!(rest.is_empty());
    assert_eq!(parsed.entry_count, 2);
    assert_eq!(parsed.timestamp, 0xABCDE);
    assert_eq!(parsed.entries, vec![RaniCommandEntry::new(1, 2), RaniCommandEntry::new(3, 4)]);
}

#[test]
fn packet_serialise_preserves_buffer_tail() {
    let p = data_packet(1, 2, 3, 4, b"AB");
    let mut buf = vec![9u8; p.size() + 3];
    p.serialise(&mut buf).unwrap();
    assert_eq!(&buf[p.size()..], &[9, 9, 9]);
    let exact = encode(&p);
    assert_eq!(&buf[..p.size()], &exact[..]);
}

#[test]
fn decode_returns_trailing_bytes_as_remainder() {
    // Bytes beyond the declared length lie outside the checksum domain:
    // the packet decodes and they come back untouched as the remainder.
    let p = data_packet(1, 2, 3, 4, b"OK");
    let mut buf = encode(&p);
    buf.push(0xAB);
    buf.push(0xCD);
    let (q, rest) = RaniPacket::deserialise(&buf).unwrap();
    assert!(validate_packets(&p, &q).is_ok());
    assert_eq!(rest, &[0xAB, 0xCD]);
}

#[test]
fn decode_two_packets_back_to_back() {
    let a = data_packet(1, 2, 3, 4, b"FIRST");
    let b = command_packet(5, 6, 7, 8, 123456, vec![(9, 1)]);
    let mut buf = encode(&a);
    buf.extend_from_slice(&encode(&b));
    let (qa, rest) = RaniPacket::deserialise(&buf).unwrap();
    assert!(validate_packets(&a, &qa).is_ok());
    let (qb, rest) = RaniPacket::deserialise(rest).unwrap();
    assert!(validate_packets(&b, &qb).is_ok());
    assert!(rest.is_empty());
}
