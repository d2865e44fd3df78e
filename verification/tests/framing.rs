use electricui_embedded::wire::framing::Framing;
use electricui_embedded::wire::packet::Packet;

fn encode(data: &[u8]) -> Vec<u8> {
    let mut out = vec![0xEE_u8; Framing::max_encoded_len(data.len()) + 3];
    let len = Framing::encode_buf(data, &mut out);
    assert_eq!(&out[len..], &vec![0xEE_u8; out.len() - len][..]);
    out.truncate(len);
    out
}

fn round_trip(data: &[u8]) {
    let frame = encode(data);
    assert!(frame.len() >= data.len() + 2);
    assert!(frame.len() <= Framing::max_encoded_len(data.len()));
    assert_eq!(frame.last(), Some(&Framing::ZERO));
    assert!(frame[..frame.len() - 1].iter().all(|b| *b != 0));
    assert_eq!(Framing::encode_iter(data), frame);

    let mut out = vec![0xEE_u8; data.len() + 2];
    let len = Framing::decode_buf(&frame, &mut out).unwrap();
    assert_eq!(len, data.len());
    assert_eq!(&out[..len], data);
    assert_eq!(&out[len..], &[0xEE, 0xEE]);

    let mut in_place = frame.clone();
    let len = Framing::decode_in_place(&mut in_place).unwrap();
    assert_eq!(len, data.len());
    assert_eq!(&in_place[..len], data);
    assert_eq!(in_place.len(), frame.len());
}

#[test]
fn max_encoded_len_values() {
    assert_eq!(Framing::max_encoded_len(0), 2);
    assert_eq!(Framing::max_encoded_len(1), 3);
    assert_eq!(Framing::max_encoded_len(9), 11);
    assert_eq!(Framing::max_encoded_len(253), 255);
    assert_eq!(Framing::max_encoded_len(254), 256);
    assert_eq!(Framing::max_encoded_len(255), 258);
    assert_eq!(Framing::max_encoded_len(508), 511);
    assert_eq!(Framing::max_encoded_len(509), 513);
    assert_eq!(
        Framing::max_encoded_len(Packet::<&[u8]>::MAX_PACKET_SIZE),
        1044 + 5 + 1
    );
}

#[test]
fn frames_of_small_messages() {
    assert_eq!(encode(&[]), [1, 0]);
    assert_eq!(encode(&[0]), [1, 1, 0]);
    assert_eq!(encode(&[0, 0]), [1, 1, 1, 0]);
    assert_eq!(encode(&[5]), [2, 5, 0]);
    assert_eq!(encode(&[5, 0]), [2, 5, 1, 0]);
    assert_eq!(encode(&[0, 5]), [1, 2, 5, 0]);
    assert_eq!(encode(&[1, 2, 0, 3]), [3, 1, 2, 2, 3, 0]);
    assert_eq!(encode(&[0x11, 0x22, 0x00, 0x33]), [3, 0x11, 0x22, 2, 0x33, 0]);
}

#[test]
fn frames_of_long_runs() {
    let run = vec![7_u8; 254];
    let mut expected = vec![0xFF_u8];
    expected.extend_from_slice(&run);
    expected.push(0);
    assert_eq!(encode(&run), expected);

    let mut data = run.clone();
    data.push(0);
    let mut expected = vec![0xFF_u8];
    expected.extend_from_slice(&run);
    expected.extend_from_slice(&[1, 1, 0]);
    assert_eq!(encode(&data), expected);

    let mut data = run.clone();
    data.push(9);
    let mut expected = vec![0xFF_u8];
    expected.extend_from_slice(&run);
    expected.extend_from_slice(&[2, 9, 0]);
    assert_eq!(encode(&data), expected);

    let mut data = run.clone();
    data.extend_from_slice(&[0, 9]);
    let mut expected = vec![0xFF_u8];
    expected.extend_from_slice(&run);
    expected.extend_from_slice(&[1, 2, 9, 0]);
    assert_eq!(encode(&data), expected);
}

#[test]
fn framing_round_trips() {
    round_trip(&[]);
    round_trip(&[0]);
    round_trip(&[0, 0, 0]);
    round_trip(&[1]);
    round_trip(&[1, 0]);
    round_trip(&[0, 1]);
    round_trip(&[0x01, 0x14, 0x63, 0x61, 0x62, 0x63, 0x2A, 0xB8, 0xA3]);
    for len in [253_usize, 254, 255, 256, 507, 508, 509, 1044] {
        round_trip(&vec![0xAB_u8; len]);
        round_trip(&vec![0_u8; len]);
        let mut mixed = vec![0x11_u8; len];
        mixed[len / 2] = 0;
        round_trip(&mixed);
        mixed[len - 1] = 0;
        round_trip(&mixed);
        let walk: Vec<u8> = (0..len).map(|i| (i % 7) as u8).collect();
        round_trip(&walk);
    }
}

#[test]
fn decode_buf_stops_at_the_delimiter() {
    let mut out = [0xEE_u8; 4];
    let len = Framing::decode_buf(&[3, 1, 2, 0, 9, 9, 9], &mut out).unwrap();
    assert_eq!(len, 2);
    assert_eq!(out, [1, 2, 0xEE, 0xEE]);
    let len = Framing::decode_buf(&[0, 9, 9], &mut out).unwrap();
    assert_eq!(len, 0);
    assert_eq!(out, [1, 2, 0xEE, 0xEE]);
}

#[test]
fn decode_buf_wants_a_delimiter() {
    let mut out = [0xEE_u8; 8];
    assert!(Framing::decode_buf(&[], &mut out).is_err());
    assert!(Framing::decode_buf(&[3, 1, 2], &mut out).is_err());
    assert_eq!(&out[..2], &[1, 2]);
    assert!(Framing::decode_buf(&[3, 1, 2, 4, 5], &mut out).is_err());
    assert!(Framing::decode_buf(&[5, 1, 2], &mut out).is_err());
    assert!(Framing::decode_buf(&[2, 1, 2, 1], &mut out).is_err());
}

#[test]
fn decode_in_place_takes_the_end_for_a_delimiter() {
    let mut bytes = [3_u8, 1, 2];
    assert_eq!(Framing::decode_in_place(&mut bytes).unwrap(), 2);
    assert_eq!(&bytes[..2], &[1, 2]);
    let mut bytes = [3_u8, 1, 2, 2, 7, 0, 9, 9];
    assert_eq!(Framing::decode_in_place(&mut bytes).unwrap(), 4);
    assert_eq!(&bytes[..4], &[1, 2, 0, 7]);
    assert_eq!(&bytes[5..], &[0, 9, 9]);
    let mut bytes = [5_u8, 1, 2];
    assert!(Framing::decode_in_place(&mut bytes).is_err());
    let mut bytes: [u8; 0] = [];
    assert_eq!(Framing::decode_in_place(&mut bytes).unwrap(), 0);
    let mut bytes = [0_u8, 4];
    assert_eq!(Framing::decode_in_place(&mut bytes).unwrap(), 0);
    assert_eq!(bytes, [0, 4]);
}

#[test]
fn framed_packet_round_trip() {
    let mut bytes = [0_u8; 20];
    let mut p = Packet::new_unchecked(&mut bytes[..]);
    p.set_data_length(12).unwrap();
    p.set_id_length(3).unwrap();
    p.set_acknum(7);
    p.set_response(true);
    p.msg_id_mut().unwrap().copy_from_slice(b"xyz");
    p.payload_mut()
        .unwrap()
        .copy_from_slice(&[0, 1, 0, 0, 2, 3, 0, 0xFF, 0, 0, 0, 4]);
    let sum = p.compute_checksum().unwrap();
    p.set_checksum(sum).unwrap();

    let mut frame = [0_u8; 23];
    let len = Framing::encode_buf(&bytes, &mut frame);
    let mut back = [0xEE_u8; 20];
    assert_eq!(Framing::decode_buf(&frame[..len], &mut back).unwrap(), 20);
    assert_eq!(back, bytes);
    let again = Packet::new(&back[..]).unwrap();
    let first = Packet::new(&bytes[..]).unwrap();
    assert_eq!(again.data_length(), first.data_length());
    assert_eq!(again.typ_raw(), first.typ_raw());
    assert_eq!(again.id_length(), first.id_length());
    assert_eq!(again.acknum(), 7);
    assert_eq!(again.response(), true);
    assert_eq!(again.msg_id().unwrap(), b"xyz");
    assert_eq!(again.payload(), first.payload());
    assert_eq!(again.checksum(), Ok(sum));
}

/// The frame as its definition has it: block after block.
fn blocks(data: &[u8]) -> Vec<u8> {
    let free = data.iter().take_while(|b| **b != 0).count();
    let n = free.min(254);
    let mut out = vec![(n + 1) as u8];
    out.extend_from_slice(&data[..n]);
    if n >= data.len() {
    } else if n == 254 {
        out.extend(blocks(&data[254..]));
    } else {
        out.extend(blocks(&data[n + 1..]));
    }
    out
}

/// What the blocks of a frame stand for, as the definition has it, and
/// whether they lead up to a delimiter.
fn decoded(bytes: &[u8], zero_due: bool, open_end: bool) -> (Vec<u8>, bool) {
    if bytes.is_empty() {
        return (vec![], open_end);
    }
    if bytes[0] == 0 {
        return (vec![], true);
    }
    let n = bytes[0] as usize - 1;
    let mut out = if zero_due { vec![0] } else { vec![] };
    if bytes.len() - 1 < n {
        return (out, false);
    }
    out.extend_from_slice(&bytes[1..n + 1]);
    let (rest, ok) = decoded(&bytes[n + 1..], n != 254, open_end);
    out.extend(rest);
    (out, ok)
}

fn samples() -> Vec<Vec<u8>> {
    let mut all = vec![vec![], vec![0], vec![1], vec![0, 0], vec![3, 0, 0, 4, 0]];
    for len in [10_usize, 253, 254, 255, 300, 508, 509, 600] {
        all.push(vec![0x5A; len]);
        all.push((0..len).map(|i| (i % 5) as u8).collect());
        all.push((0..len).map(|i| if i % 255 == 254 { 0 } else { 9 }).collect());
        all.push((0..len).map(|i| if i == 254 { 0 } else { 9 }).collect());
        all.push((0..len).map(|i| (i * 37 % 251) as u8).collect());
    }
    all
}

#[test]
fn frames_match_their_definition() {
    for data in samples() {
        let mut expected = blocks(&data);
        expected.push(0);
        assert_eq!(encode(&data), expected);
        assert_eq!(Framing::encode_iter(&data), expected);
    }
}

#[test]
fn decoding_matches_its_definition() {
    for data in samples() {
        // the samples read as frames, whole and cut short
        for cut in [data.len(), data.len() / 2, data.len().saturating_sub(1)] {
            let bytes = &data[..cut];
            let (expected, ok) = decoded(bytes, false, false);
            let mut out = vec![0xEE_u8; bytes.len() + 1];
            let r = Framing::decode_buf(bytes, &mut out);
            assert_eq!(r.is_ok(), ok);
            if let Ok(len) = r {
                assert_eq!(len, expected.len());
            }
            assert_eq!(&out[..expected.len()], &expected[..]);
            assert!(out[expected.len()..].iter().all(|b| *b == 0xEE));

            let (expected, ok) = decoded(bytes, false, true);
            let mut in_place = bytes.to_vec();
            let r = Framing::decode_in_place(&mut in_place);
            assert_eq!(r.is_ok(), ok);
            if let Ok(len) = r {
                assert_eq!(len, expected.len());
                assert_eq!(&in_place[..len], &expected[..]);
                if len + 1 < bytes.len() {
                    assert_eq!(&in_place[len + 1..], &bytes[len + 1..]);
                }
            }
        }
    }
}
