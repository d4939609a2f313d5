use lora_telemetry::gateway_link::{GatewayFrameAction, GatewayLinkLayer};
use lora_telemetry::link::{LinkPacket, LinkPhase};
use lora_telemetry::sensor_link::{ConnectOutcome, SensorBoardLinkLayer, SensorFrameAction};

const PAYLOAD: &[u8] = b"this is the payload";

fn valid_packet() -> Vec<u8> {
    let mut v = vec![0x96, 0x1b, 0x19, 0x98, 0xae];
    v.extend_from_slice(PAYLOAD);
    v
}

fn bad_sig_packet() -> Vec<u8> {
    let mut v = vec![0x93, 0x2b, 0x19, 0x98, 0xae];
    v.extend_from_slice(PAYLOAD);
    v
}

/// Reads frames in turn until one passes the checks, as a receive loop does.
fn first_valid(frames: &[&[u8]], key: &[u8]) -> Option<(usize, (LinkPhase, u8))> {
    frames
        .iter()
        .enumerate()
        .find_map(|(i, f)| LinkPacket::read(f, key).map(|h| (i, h)))
}

#[test]
fn test_link_packet_encoding() {
    let payload = b"this is the payload";
    let secret_key = b"secret key";
    let signature: u64 = 0x86c6662bba4d02ed & !((1u64 << 30) - 1);

    let packet = LinkPacket {
        phase: LinkPhase::Handshake,
        id: 5,
        payload: payload.to_vec(),
    };

    let encoded: Vec<u8> = packet.write(secret_key);
    assert_eq!(encoded.len(), 5 + payload.len());

    // action + id
    assert_eq!(encoded[0] & 0b11111100, 0b10_0101_00);

    let actual_sig: u64 = u64::from_be_bytes([
        encoded[0], encoded[1], encoded[2], encoded[3], encoded[4], 0, 0, 0,
    ]) << 6;

    // signature
    assert_eq!(actual_sig, signature);

    // payload
    assert_eq!(&encoded[5..], payload.as_ref());

    println!("{:x?}", actual_sig);
}

#[test]
fn test_link_packet_decoding_bad_packets() {
    let secret_key = b"secret key";
    let bad = bad_sig_packet();
    let frames: [&[u8]; 3] = [b"", b"short", &bad];
    assert!(first_valid(&frames, secret_key.as_ref()).is_none());
}

#[test]
fn test_link_packet_decoding_invalid_key() {
    let secret_key = b"not the secret key";
    let valid = valid_packet();
    let frames: [&[u8]; 1] = [&valid];
    assert!(first_valid(&frames, secret_key.as_ref()).is_none());
}

#[test]
fn test_link_packet_decoding_valid() {
    let secret_key = b"secret key";
    let bad = bad_sig_packet();
    let valid = valid_packet();
    let frames: [&[u8]; 4] = [b"", b"short", &bad, &valid];

    let Some((index, packet)) = first_valid(&frames, secret_key.as_ref()) else {
        panic!("Failed to read valid packet");
    };

    assert!(packet.0 == LinkPhase::Handshake);
    assert_eq!(packet.1, 5);
    assert_eq!(LinkPacket::get_payload(frames[index]), b"this is the payload");
}

#[test]
fn signed_frame_verifies_and_bit_flips_reject() {
    let key = b"secret key";
    for phase in [LinkPhase::Handshake, LinkPhase::Data] {
        for id in 0u8..16 {
            let frame = LinkPacket {
                phase,
                id,
                payload: PAYLOAD.to_vec(),
            }
            .write(key);
            assert_eq!(LinkPacket::read(&frame, key), Some((phase, id)));
            // every transmitted signature bit
            for bit in 0..34 {
                let byte = 4 - bit / 8;
                let mut bad = frame.clone();
                bad[byte] ^= 1 << (bit % 8);
                assert_eq!(LinkPacket::read(&bad, key), None);
            }
            // every payload bit
            for byte in 5..frame.len() {
                for bit in 0..8 {
                    let mut bad = frame.clone();
                    bad[byte] ^= 1 << bit;
                    assert_eq!(LinkPacket::read(&bad, key), None);
                }
            }
        }
    }
}

#[test]
fn id_above_four_bits_is_masked() {
    let frame = LinkPacket {
        phase: LinkPhase::Data,
        id: 0x35,
        payload: vec![1],
    }
    .write(b"k");
    assert_eq!(LinkPacket::read(&frame, b"k"), Some((LinkPhase::Data, 5)));
}

#[test]
fn frame_without_payload_is_dropped() {
    let frame = LinkPacket {
        phase: LinkPhase::Data,
        id: 1,
        payload: vec![],
    }
    .write(b"k");
    assert_eq!(frame.len(), 5);
    assert_eq!(LinkPacket::read(&frame, b"k"), None);
}

fn handshake_from(mac: &[u8], key: &[u8]) -> Vec<u8> {
    LinkPacket {
        phase: LinkPhase::Handshake,
        id: 0,
        payload: mac.to_vec(),
    }
    .write(key)
}

#[test]
fn gateway_allocates_ids_in_sequence_and_wraps() {
    let key = b"SECRET".to_vec();
    let mut gw = GatewayLinkLayer::new(key.clone());
    let mac = [1u8, 2, 3, 4, 5, 6];
    for n in 0..40u32 {
        match gw.on_frame(&handshake_from(&mac, &key)) {
            GatewayFrameAction::ReplyHandshake(reply) => {
                let expected = (n % 16) as u8;
                assert_eq!(LinkPacket::read(&reply, &key), Some((LinkPhase::Handshake, expected)));
                assert_eq!(LinkPacket::get_payload(&reply), mac.to_vec());
            }
            _ => panic!("handshake not answered"),
        }
    }
}

#[test]
fn gateway_drops_frames_of_other_sessions() {
    let key = b"SECRET".to_vec();
    let mut gw = GatewayLinkLayer::new(key.clone());
    // first handshake: session id 0
    assert!(matches!(
        gw.on_frame(&handshake_from(&[9, 9], &key)),
        GatewayFrameAction::ReplyHandshake(_)
    ));
    for id in 1u8..16 {
        let frame = LinkPacket {
            phase: LinkPhase::Data,
            id,
            payload: vec![0x02],
        }
        .write(&key);
        assert!(matches!(gw.on_frame(&frame), GatewayFrameAction::Ignored));
        assert!(gw.needs_frame());
    }
    let frame = LinkPacket {
        phase: LinkPhase::Data,
        id: 0,
        payload: vec![0x02, 0x03],
    }
    .write(&key);
    assert!(matches!(gw.on_frame(&frame), GatewayFrameAction::Payload));
    let (bytes, id) = gw.read(1);
    assert_eq!(bytes, vec![0x02]);
    assert_eq!(id.0, 0);
    let (bytes, _) = gw.read(10);
    assert_eq!(bytes, vec![0x03]);
    assert!(gw.needs_frame());
}

#[test]
fn gateway_write_splits_into_frames_of_64_bytes() {
    let key = b"SECRET".to_vec();
    let mut gw = GatewayLinkLayer::new(key.clone());
    let data: Vec<u8> = (0..100u8).collect();
    assert!(gw.write(&data[..40]).is_empty());
    let frames = gw.write(&data[40..]);
    assert_eq!(frames.len(), 1);
    assert_eq!(LinkPacket::get_payload(&frames[0]), data[..40].to_vec());
    let last = gw.flush();
    assert_eq!(LinkPacket::get_payload(&last), data[40..].to_vec());
    assert_eq!(LinkPacket::read(&last, &key), Some((LinkPhase::Data, 15)));
}

#[test]
fn sensor_connects_only_on_echoed_address() {
    let key = b"SECRET".to_vec();
    let mac = vec![0xaa, 0xbb, 0xcc, 0xdd, 0xee, 0xff];
    let mut sensor = SensorBoardLinkLayer::new(key.clone(), mac.clone());
    assert!(sensor.connected_id().is_none());
    assert!(sensor.flush().is_none());

    let mut gw = GatewayLinkLayer::new(key.clone());
    let other = handshake_from(&[1, 2, 3], &key);
    let GatewayFrameAction::ReplyHandshake(reply_other) = gw.on_frame(&other) else {
        panic!("handshake not answered");
    };
    assert!(matches!(
        sensor.on_handshake_reply(&reply_other),
        ConnectOutcome::Rejected
    ));
    assert!(matches!(
        sensor.on_handshake_reply(b"junk frame"),
        ConnectOutcome::Ignored
    ));

    let GatewayFrameAction::ReplyHandshake(reply) = gw.on_frame(&sensor.handshake_frame()) else {
        panic!("handshake not answered");
    };
    match sensor.on_handshake_reply(&reply) {
        ConnectOutcome::Connected(id) => assert_eq!(id.0, 1),
        _ => panic!("not connected"),
    }
    assert_eq!(sensor.connected_id().map(|i| i.0), Some(1));
}

#[test]
fn sensor_drops_other_ids_and_reconnects_on_handshake_frame() {
    let key = b"SECRET".to_vec();
    let mac = vec![7u8; 6];
    let mut sensor = SensorBoardLinkLayer::new(key.clone(), mac.clone());
    let mut gw = GatewayLinkLayer::new(key.clone());
    let GatewayFrameAction::ReplyHandshake(reply) = gw.on_frame(&sensor.handshake_frame()) else {
        panic!("handshake not answered");
    };
    assert!(matches!(
        sensor.on_handshake_reply(&reply),
        ConnectOutcome::Connected(_)
    ));

    let foreign = LinkPacket {
        phase: LinkPhase::Data,
        id: 3,
        payload: vec![2],
    }
    .write(&key);
    assert!(matches!(sensor.on_frame(&foreign), SensorFrameAction::Ignored));
    assert!(sensor.needs_frame());

    let ack = gw.write(&[2]);
    assert!(ack.is_empty());
    let frame = gw.flush();
    assert!(matches!(sensor.on_frame(&frame), SensorFrameAction::Payload));
    assert_eq!(sensor.read(8).0, vec![2]);

    let handshake = LinkPacket {
        phase: LinkPhase::Handshake,
        id: 0,
        payload: vec![1],
    }
    .write(&key);
    assert!(matches!(
        sensor.on_frame(&handshake),
        SensorFrameAction::Reconnect
    ));
    assert!(sensor.connected_id().is_none());
}

#[test]
fn write_keeps_each_chunk_in_one_frame() {
    let key = b"SECRET".to_vec();
    let mut gw = GatewayLinkLayer::new(key.clone());
    assert!(gw.write(&[0xaa; 10]).is_empty());
    // 10 buffered + a 100-byte write: chunk 0..64 does not fit after the
    // buffered bytes, so they go out alone; chunk 64..100 does not fit after
    // the first chunk, so it goes out whole.
    let data: Vec<u8> = (0..100u8).collect();
    let frames = gw.write(&data);
    assert_eq!(frames.len(), 2);
    assert_eq!(LinkPacket::get_payload(&frames[0]), vec![0xaa; 10]);
    assert_eq!(LinkPacket::get_payload(&frames[1]), data[..64].to_vec());
    assert_eq!(LinkPacket::get_payload(&gw.flush()), data[64..].to_vec());
}
