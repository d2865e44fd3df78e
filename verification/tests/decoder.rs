use electricui_embedded::decoder::{Decoder, Error};
use electricui_embedded::message::MessageType;
use electricui_embedded::prelude;
use electricui_embedded::wire::framing::Framing;
use electricui_embedded::wire::packet;
use electricui_embedded::wire::packet::{Buffer, Packet};

const MSG_F32: [u8; 12 + 2] = [
    0x00, 0x0D, // framing
    0x04, 0x2c, 0x03, // header
    0x61, 0x62, 0x63, // msgid
    0x14, 0xAE, 0x29, 0x42, // payload
    0x8B, 0x1D, // crc
];

const FRAME_I8: [u8; 11] = [
    0x0A, 0x01, 0x14, 0x63, 0x61, 0x62, 0x63, 0x2A, 0xB8, 0xA3, 0x00,
];

fn packet_bytes(typ: MessageType, id: &[u8], payload: &[u8]) -> Vec<u8> {
    let mut p = Packet::new_unchecked(vec![0_u8; 5 + id.len() + payload.len()]);
    p.set_data_length(payload.len() as u16).unwrap();
    p.set_typ(typ);
    p.set_id_length(id.len() as u8).unwrap();
    p.msg_id_mut().unwrap().copy_from_slice(id);
    p.payload_mut().unwrap().copy_from_slice(payload);
    let sum = p.compute_checksum().unwrap();
    p.set_checksum(sum).unwrap();
    p.into_inner()
}

/// Feeds `bytes` and returns the packets handed out and the errors given.
fn feed<const N: usize>(dec: &mut Decoder<N>, bytes: &[u8]) -> (Vec<Vec<u8>>, Vec<Error>) {
    let mut packets = Vec::new();
    let mut errors = Vec::new();
    for byte in bytes {
        match dec.decode(*byte) {
            Ok(Some(p)) => packets.push(p.as_slice().to_vec()),
            Ok(None) => (),
            Err(e) => errors.push(e),
        }
    }
    (packets, errors)
}

#[test]
fn basic_decoding() {
    let mut buffer = [0_u8; 512];
    let mut dec = Decoder::new(&mut buffer);

    for _ in 0..4 {
        for (idx, byte) in MSG_F32.iter().enumerate() {
            let maybe_frame = dec.decode(*byte).unwrap();
            if idx < (MSG_F32.len() - 1) {
                assert_eq!(maybe_frame.is_some(), false);
            } else {
                assert_eq!(maybe_frame.is_some(), true);
            }
        }
    }

    assert_eq!(dec.count(), 4);
    assert_eq!(dec.invalid_count(), 0);
}

#[test]
fn decodes_the_int8_example() {
    let mut buffer = [0_u8; 16];
    let mut dec = prelude::Decoder::new(&mut buffer);
    for byte in &FRAME_I8[..9] {
        assert!(dec.decode(*byte).unwrap().is_none());
    }
    let p = dec.decode(FRAME_I8[9]).unwrap().unwrap();
    assert_eq!(p.data_length(), 1);
    assert_eq!(p.typ(), Ok(MessageType::I8));
    assert_eq!(p.acknum(), 3);
    assert_eq!(p.msg_id().unwrap(), b"abc");
    assert_eq!(p.payload().unwrap(), &[0x2A]);
    assert_eq!(p.checksum(), Ok(0xA3B8));
    assert_eq!(p.as_slice(), &FRAME_I8[1..10]);
    assert!(dec.decode(FRAME_I8[10]).unwrap().is_none());
    assert_eq!(dec.count(), 1);
    assert_eq!(dec.invalid_count(), 0);
}

#[test]
fn decodes_a_frame_again_and_again() {
    let packet = packet_bytes(MessageType::U16, b"volts", &[0, 7, 0, 0, 9, 0]);
    let frame = Framing::encode_iter(&packet);
    let mut buffer = [0_u8; 64];
    let mut dec = Decoder::new(&mut buffer);
    for n in 1..=25 {
        let (packets, errors) = feed(&mut dec, &frame);
        assert_eq!(packets, vec![packet.clone()]);
        assert!(errors.is_empty());
        assert_eq!(dec.count(), n);
        assert_eq!(dec.invalid_count(), 0);
    }
}

#[test]
fn survives_a_corrupted_frame() {
    let first = packet_bytes(MessageType::U8, b"a", &[1]);
    let second = packet_bytes(MessageType::I32, b"bc", &[0, 0, 0, 5]);
    let mut broken = packet_bytes(MessageType::Custom, b"def", &[9, 9, 9]);
    broken[7] ^= 0x10;
    let mut buffer = [0_u8; 32];
    let mut dec = Decoder::new(&mut buffer);

    let (packets, errors) = feed(&mut dec, &Framing::encode_iter(&first));
    assert_eq!(packets, vec![first]);
    assert!(errors.is_empty());
    assert_eq!((dec.count(), dec.invalid_count()), (1, 0));

    let (packets, errors) = feed(&mut dec, &Framing::encode_iter(&broken));
    assert!(packets.is_empty());
    assert_eq!(
        errors,
        vec![Error::PacketError(packet::Error::InvalidChecksum)]
    );
    assert_eq!((dec.count(), dec.invalid_count()), (1, 1));

    let (packets, errors) = feed(&mut dec, &Framing::encode_iter(&second));
    assert_eq!(packets, vec![second]);
    assert!(errors.is_empty());
    assert_eq!((dec.count(), dec.invalid_count()), (2, 1));
}

#[test]
fn a_truncated_frame_is_not_counted() {
    let packet = packet_bytes(MessageType::U8, b"a", &[1, 2, 3]);
    let frame = Framing::encode_iter(&packet);
    let mut buffer = [0_u8; 32];
    let mut dec = Decoder::new(&mut buffer);
    let (packets, errors) = feed(&mut dec, &frame[..5]);
    assert!(packets.is_empty() && errors.is_empty());
    let (packets, errors) = feed(&mut dec, &[0]);
    assert!(packets.is_empty() && errors.is_empty());
    assert_eq!((dec.count(), dec.invalid_count()), (0, 0));
    let (packets, errors) = feed(&mut dec, &frame);
    assert_eq!(packets, vec![packet]);
    assert!(errors.is_empty());
    assert_eq!((dec.count(), dec.invalid_count()), (1, 0));
}

#[test]
fn a_frame_without_an_id_is_invalid() {
    // header, one byte in place of the id, checksum
    let bytes = [0_u8, 0, 0, 0x55, 0x12, 0x34];
    let mut buffer = [0_u8; 8];
    let mut dec = Decoder::new(&mut buffer);
    let (packets, errors) = feed(&mut dec, &Framing::encode_iter(&bytes));
    assert!(packets.is_empty());
    assert_eq!(
        errors,
        vec![Error::PacketError(packet::Error::InvalidMessageIdLength)]
    );
    assert_eq!((dec.count(), dec.invalid_count()), (0, 1));
}

#[test]
fn reset_drops_the_frame() {
    let mut buffer = [0_u8; 16];
    let mut dec = Decoder::new(&mut buffer);
    let (packets, errors) = feed(&mut dec, &FRAME_I8);
    assert_eq!(packets.len(), 1);
    assert!(errors.is_empty());
    let (packets, errors) = feed(&mut dec, &FRAME_I8[..6]);
    assert!(packets.is_empty() && errors.is_empty());
    dec.reset();
    assert_eq!((dec.count(), dec.invalid_count()), (1, 0));
    let (packets, errors) = feed(&mut dec, &FRAME_I8);
    assert_eq!(packets, vec![FRAME_I8[1..10].to_vec()]);
    assert!(errors.is_empty());
    assert_eq!((dec.count(), dec.invalid_count()), (2, 0));
}

#[test]
fn a_frame_too_long_for_the_buffer() {
    let small = packet_bytes(MessageType::Callback, b"i", &[]);
    assert_eq!(small.len(), 6);
    let mut buffer = [0_u8; 6];
    let mut dec = Decoder::new(&mut buffer);
    let (packets, errors) = feed(&mut dec, &FRAME_I8[..10]);
    assert!(packets.is_empty());
    assert_eq!(errors, vec![Error::InsufficientBufferSize; 3]);
    let (packets, errors) = feed(&mut dec, &FRAME_I8[10..]);
    assert!(packets.is_empty() && errors.is_empty());
    assert_eq!((dec.count(), dec.invalid_count()), (0, 0));
    let (packets, errors) = feed(&mut dec, &Framing::encode_iter(&small));
    assert_eq!(packets, vec![small]);
    assert!(errors.is_empty());
    assert_eq!((dec.count(), dec.invalid_count()), (1, 0));
}

#[test]
fn offset_bytes_are_skipped() {
    // offset flag set, id of one byte, no payload: the checksum that the
    // packet checks stands where the decoder skips two bytes
    let mut p = Packet::new_unchecked(vec![0_u8; 8]);
    p.set_offset(true);
    p.set_id_length(1).unwrap();
    p.msg_id_mut().unwrap().copy_from_slice(b"q");
    let sum = p.compute_checksum().unwrap();
    p.set_checksum(sum).unwrap();
    let bytes = p.into_inner();
    let frame = Framing::encode_iter(&bytes);

    let mut buffer = [0_u8; 8];
    let mut dec = Decoder::new(&mut buffer);
    let (packets, errors) = feed(&mut dec, &frame[..frame.len() - 2]);
    assert!(packets.is_empty() && errors.is_empty());
    let (packets, errors) = feed(&mut dec, &frame[frame.len() - 2..]);
    assert_eq!(packets, vec![bytes]);
    assert!(errors.is_empty());
    assert_eq!((dec.count(), dec.invalid_count()), (1, 0));
}

#[test]
fn offset_bytes_come_before_the_payload() {
    // as above with a payload of three bytes: the frame has ten plus three
    // bytes, and the packet, which knows no offset bytes, has lost its
    // checksum to the payload
    let mut bytes = vec![3_u8, 0x80, 1, b'q', 1, 2, 3, 4, 5, 6, 7];
    let mut buffer = [0_u8; 16];
    let mut dec = Decoder::new(&mut buffer);
    let (packets, errors) = feed(&mut dec, &Framing::encode_iter(&bytes));
    assert!(packets.is_empty());
    assert_eq!(
        errors,
        vec![Error::PacketError(packet::Error::InvalidChecksum)]
    );
    assert_eq!((dec.count(), dec.invalid_count()), (0, 1));
    bytes.truncate(10);
    let (packets, errors) = feed(&mut dec, &Framing::encode_iter(&bytes));
    assert!(packets.is_empty() && errors.is_empty());
    assert_eq!((dec.count(), dec.invalid_count()), (0, 1));
}

#[test]
fn a_last_block_of_254_bytes_is_put_back() {
    // 3 + 3 + 246 + 2 bytes, none of them zero but the second header byte
    let mut payload = vec![0x33_u8; 246];
    let mut packet = packet_bytes(MessageType::Custom, b"abc", &payload);
    let mut salt = 1_u8;
    while packet[2..].iter().any(|b| *b == 0) {
        payload[0] = salt;
        salt += 1;
        packet = packet_bytes(MessageType::Custom, b"abc", &payload);
    }
    packet[1] |= 0x04;
    let mut p = Packet::new_unchecked(&mut packet[..]);
    let sum = p.compute_checksum().unwrap();
    p.set_checksum(sum).unwrap();
    if packet.iter().any(|b| *b == 0) {
        return;
    }
    let frame = Framing::encode_iter(&packet);
    assert_eq!(frame[0], 0xFF);
    assert_eq!(frame.len(), 254 + 2);
    let mut buffer = [0_u8; 300];
    let mut dec = Decoder::new(&mut buffer);
    let (packets, errors) = feed(&mut dec, &frame);
    assert_eq!(packets, vec![packet]);
    assert!(errors.is_empty());
}

#[test]
fn a_block_of_254_bytes_before_others_is_not_put_back() {
    let payload = vec![0x33_u8; 300];
    let mut packet = packet_bytes(MessageType::Custom, b"abc", &payload);
    assert_eq!(&packet[..3], &[0x2C, 0x05, 0x03]);
    let mut salt = 1_u8;
    while packet.iter().any(|b| *b == 0) {
        let mut payload = payload.clone();
        payload[0] = salt;
        salt += 1;
        packet = packet_bytes(MessageType::Custom, b"abc", &payload);
    }
    let frame = Framing::encode_iter(&packet);
    assert_eq!(frame[0], 0xFF);
    assert_eq!(frame.len(), packet.len() + 3);
    let mut buffer = [0_u8; 512];
    let mut dec = Decoder::new(&mut buffer);
    let (packets, errors) = feed(&mut dec, &frame);
    assert!(packets.is_empty());
    assert_eq!(
        errors,
        vec![Error::PacketError(packet::Error::InvalidChecksum)]
    );
    assert_eq!((dec.count(), dec.invalid_count()), (0, 1));
    let (packets, errors) = feed(&mut dec, &FRAME_I8);
    assert_eq!(packets.len(), 1);
    assert!(errors.is_empty());
}

#[test]
fn largest_packet_with_zeros() {
    let payload: Vec<u8> = (0..1023_usize).map(|i| (i % 200) as u8).collect();
    let id = [0_u8; 15];
    let packet = packet_bytes(MessageType::Byte, &id, &payload);
    assert_eq!(packet.len(), 1043);
    let frame = Framing::encode_iter(&packet);
    let mut buffer = [0_u8; 1044];
    let mut dec = Decoder::new(&mut buffer);
    for _ in 0..3 {
        let (packets, errors) = feed(&mut dec, &frame);
        assert_eq!(packets, vec![packet.clone()]);
        assert!(errors.is_empty());
    }
    assert_eq!((dec.count(), dec.invalid_count()), (3, 0));
}

#[test]
fn errors_convert() {
    let e: Error = packet::Error::InvalidChecksum.into();
    assert_eq!(e, Error::PacketError(packet::Error::InvalidChecksum));
    let all = electricui_embedded::Error::Decoder(e);
    assert!(matches!(
        all,
        prelude::Error::Decoder(Error::PacketError(packet::Error::InvalidChecksum))
    ));
}
