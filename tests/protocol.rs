use lora_telemetry::codec::Decoder;
use lora_telemetry::gateway_app::{AppLayerPhase, GatewayAppLayer, GatewayAppLayerError, GatewayStep};
use lora_telemetry::gateway_link::{GatewayFrameAction, GatewayLinkLayer};
use lora_telemetry::link::{LinkPacket, LinkPhase};
use lora_telemetry::packet::{
    encode_packet, encode_value_point, HandshakeEnd, HandshakeStart, Packet, SensorData,
    SensorValue, SensorValuePoint,
};
use lora_telemetry::sensor_app::{
    check_ack, enter_uplink, epoch_diff, handshake_end_epoch, time_offset_secs, SensorAppPhase,
    SensorBoardAppLayer, SensorBoardAppLayerError, UplinkBatch,
};
use lora_telemetry::sensor_link::{ConnectOutcome, SensorBoardLinkLayer};
use lora_telemetry::value_queue::ValueQueue;

const KEY: &[u8] = b"SECRET";
const MAC: [u8; 6] = [0x10, 0x20, 0x30, 0x40, 0x50, 0x60];

fn data_frame(id: u8, payload: &[u8]) -> Vec<u8> {
    LinkPacket {
        phase: LinkPhase::Data,
        id,
        payload: payload.to_vec(),
    }
    .write(KEY)
}

fn packet_bytes(p: &Packet) -> Vec<u8> {
    let mut out = Vec::new();
    encode_packet(&mut out, p);
    out
}

/// A gateway whose link accepted one sensor board (session id 0).
fn gateway_in_session() -> GatewayAppLayer {
    let mut app = GatewayAppLayer::new(GatewayLinkLayer::new(KEY.to_vec()));
    let hs = LinkPacket {
        phase: LinkPhase::Handshake,
        id: 0,
        payload: MAC.to_vec(),
    }
    .write(KEY);
    match app.on_frame(&hs) {
        GatewayFrameAction::ReplyHandshake(reply) => {
            assert_eq!(LinkPacket::read(&reply, KEY), Some((LinkPhase::Handshake, 0)));
        }
        _ => panic!("link handshake not answered"),
    }
    app
}

#[test]
fn gateway_handshake_then_batch_then_single_ack() {
    let mut app = gateway_in_session();
    let mut phase = AppLayerPhase::Initial;

    assert!(matches!(app.comm_cycle(&mut phase), GatewayStep::NeedInput));

    let start = packet_bytes(&Packet::HandshakeStart(HandshakeStart { major: 1, minor: 0 }));
    assert!(matches!(app.on_frame(&data_frame(0, &start)), GatewayFrameAction::Payload));
    assert!(matches!(app.comm_cycle(&mut phase), GatewayStep::HandshakeAccepted));
    assert_eq!(phase, AppLayerPhase::Uplink);

    let reply = app.handshake_reply(1744854025);
    assert_eq!(LinkPacket::read(&reply, KEY), Some((LinkPhase::Data, 0)));
    assert_eq!(
        LinkPacket::get_payload(&reply),
        vec![0x01, 0x01, 0x00, 0x05, 0x89, 0xb8, 0x81, 0xc0, 0x06]
    );

    // a batch of three values split over two frames
    let points = [
        SensorValuePoint {
            value: SensorValue::Temperature(22.3f32.to_bits()),
            time_offset: -35,
        },
        SensorValuePoint {
            value: SensorValue::Pressure(1.01f32.to_bits()),
            time_offset: 2,
        },
        SensorValuePoint {
            value: SensorValue::Unknown {
                id: 999,
                value_len: 0,
            },
            time_offset: 9,
        },
    ];
    let mut batch = packet_bytes(&Packet::SensorData(SensorData { count: 3 }));
    for p in &points {
        encode_value_point(&mut batch, p);
    }
    let (first, second) = batch.split_at(10);
    app.on_frame(&data_frame(0, first));
    assert!(matches!(app.comm_cycle(&mut phase), GatewayStep::NeedInput));
    app.on_frame(&data_frame(0, second));
    match app.comm_cycle(&mut phase) {
        GatewayStep::Batch(values, ack) => {
            assert_eq!(values, points.to_vec());
            assert_eq!(LinkPacket::read(&ack, KEY), Some((LinkPhase::Data, 0)));
            assert_eq!(LinkPacket::get_payload(&ack), vec![0x02]);
        }
        _ => panic!("batch not decoded"),
    }
    assert_eq!(app.current_offset(), start.len() + batch.len());
    assert!(matches!(app.comm_cycle(&mut phase), GatewayStep::NeedInput));
}

#[test]
fn gateway_rejects_other_major_version() {
    let mut app = gateway_in_session();
    let mut phase = AppLayerPhase::Initial;
    let start = packet_bytes(&Packet::HandshakeStart(HandshakeStart { major: 2, minor: 5 }));
    app.on_frame(&data_frame(0, &start));
    match app.comm_cycle(&mut phase) {
        GatewayStep::Failed(e) => assert_eq!(e, GatewayAppLayerError::IncompatibleProtocol(2, 5)),
        _ => panic!("incompatible handshake accepted"),
    }
    assert_eq!(phase, AppLayerPhase::Handshake);
}

#[test]
fn gateway_sensor_data_outside_uplink_is_unexpected() {
    let mut app = gateway_in_session();
    let mut phase = AppLayerPhase::Initial;
    let data = packet_bytes(&Packet::SensorData(SensorData { count: 0 }));
    app.on_frame(&data_frame(0, &data));
    match app.comm_cycle(&mut phase) {
        GatewayStep::Failed(e) => assert_eq!(e, GatewayAppLayerError::UnexpectedPacket(3)),
        _ => panic!("sensor data accepted before the handshake"),
    }
    let ack = packet_bytes(&Packet::Ack);
    app.on_frame(&data_frame(0, &ack));
    match app.comm_cycle(&mut phase) {
        GatewayStep::Failed(e) => assert_eq!(e, GatewayAppLayerError::UnexpectedPacket(2)),
        _ => panic!("ack accepted by the gateway"),
    }
    app.on_frame(&data_frame(0, &[0x77]));
    match app.comm_cycle(&mut phase) {
        GatewayStep::Failed(e) => assert_eq!(e, GatewayAppLayerError::Decoding),
        _ => panic!("bad tag accepted"),
    }
    assert_eq!(phase, AppLayerPhase::Initial);
}

#[test]
fn gateway_empty_batch_is_acked() {
    let mut app = gateway_in_session();
    let mut phase = AppLayerPhase::Uplink;
    let data = packet_bytes(&Packet::SensorData(SensorData { count: 0 }));
    app.on_frame(&data_frame(0, &data));
    match app.comm_cycle(&mut phase) {
        GatewayStep::Batch(values, ack) => {
            assert!(values.is_empty());
            assert_eq!(LinkPacket::get_payload(&ack), vec![0x02]);
        }
        _ => panic!("empty batch not acknowledged"),
    }
}

fn connected_sensor(gw: &mut GatewayLinkLayer) -> SensorBoardAppLayer {
    let mut app = SensorBoardAppLayer::new(SensorBoardLinkLayer::new(KEY.to_vec(), MAC.to_vec()));
    let GatewayFrameAction::ReplyHandshake(reply) = gw.on_frame(&app.link_handshake_frame()) else {
        panic!("link handshake not answered");
    };
    assert!(matches!(
        app.on_link_handshake_reply(&reply),
        ConnectOutcome::Connected(_)
    ));
    app
}

#[test]
fn session_restart_after_timeout() {
    let mut gw = GatewayLinkLayer::new(KEY.to_vec());
    let mut app = connected_sensor(&mut gw);
    let mut phase = SensorAppPhase::Handshake;

    let frames = app.handshake_start().expect("link in a session");
    assert_eq!(frames.len(), 1);
    assert_eq!(LinkPacket::read(&frames[0], KEY), Some((LinkPhase::Data, 0)));
    assert_eq!(LinkPacket::get_payload(&frames[0]), vec![0x00, 0x01, 0x00, 0x00]);

    // no HandshakeEnd within the deadline
    assert_eq!(app.receive(), Ok(None));
    app.on_error(&mut phase, SensorBoardAppLayerError::Timeout);
    assert_eq!(phase, SensorAppPhase::Handshake);
    assert!(app.handshake_start().is_none());

    // the board handshakes again: the gateway sees exactly one new handshake
    let GatewayFrameAction::ReplyHandshake(reply) = gw.on_frame(&app.link_handshake_frame()) else {
        panic!("link handshake not answered");
    };
    match app.on_link_handshake_reply(&reply) {
        ConnectOutcome::Connected(id) => assert_eq!(id.0, 1),
        _ => panic!("not reconnected"),
    }
    let frames = app.handshake_start().expect("link in a session");
    assert_eq!(frames.len(), 1);
    assert_eq!(LinkPacket::read(&frames[0], KEY), Some((LinkPhase::Data, 1)));

    // other errors leave the session alone
    let mut phase = SensorAppPhase::Uplink {
        sensor_epoch_us: 5,
        diff: 7,
    };
    app.on_error(&mut phase, SensorBoardAppLayerError::UnexpectedPacket(3));
    assert_eq!(
        phase,
        SensorAppPhase::Uplink {
            sensor_epoch_us: 5,
            diff: 7
        }
    );
}

#[test]
fn overflow_drops_newest_value() {
    let mut queue = ValueQueue::new();
    let values = [
        SensorValue::Temperature(1),
        SensorValue::Pressure(2),
        SensorValue::Altitude(3),
        SensorValue::AirQuality(4),
    ];
    for v in values {
        assert!(queue.enqueue(v));
    }
    assert!(!queue.enqueue(SensorValue::Temperature(5)));
    let batch = queue.drain();
    assert_eq!(batch, values.to_vec());
    assert_eq!(queue.dequeue(), None);

    let mut gw = GatewayLinkLayer::new(KEY.to_vec());
    let mut app = connected_sensor(&mut gw);
    let frames = app.send_values(&batch, 12).expect("link in a session");
    let mut payload = Vec::new();
    for f in &frames {
        assert_eq!(LinkPacket::read(f, KEY), Some((LinkPhase::Data, 0)));
        payload.extend(LinkPacket::get_payload(f));
    }
    let mut d = Decoder::new(payload);
    assert_eq!(d.read_packet(), Ok(Packet::SensorData(SensorData { count: 4 })));
    let points = d.read_value_points(4).unwrap();
    for (p, v) in points.iter().zip(values) {
        assert_eq!(p.value, v);
        assert_eq!(p.time_offset, 12);
    }
    assert_eq!(d.remaining(), 0);
}

#[test]
fn sensor_interprets_replies() {
    assert_eq!(
        handshake_end_epoch(&Packet::HandshakeEnd(HandshakeEnd {
            major: 1,
            minor: 0,
            epoch: 42
        })),
        Ok(42)
    );
    assert_eq!(
        handshake_end_epoch(&Packet::HandshakeEnd(HandshakeEnd {
            major: 1,
            minor: 1,
            epoch: 42
        })),
        Ok(42)
    );
    assert_eq!(
        handshake_end_epoch(&Packet::HandshakeEnd(HandshakeEnd {
            major: 2,
            minor: 0,
            epoch: 42
        })),
        Err(SensorBoardAppLayerError::IncompatibleProtocol(2, 0))
    );
    assert_eq!(
        enter_uplink(
            &Packet::HandshakeEnd(HandshakeEnd {
                major: 1,
                minor: 3,
                epoch: 1_500
            }),
            5_000_000
        ),
        Ok(SensorAppPhase::Uplink {
            sensor_epoch_us: 5_000_000,
            diff: 3_500_000
        })
    );
    assert_eq!(
        enter_uplink(&Packet::Ack, 5),
        Err(SensorBoardAppLayerError::UnexpectedPacket(2))
    );
    assert_eq!(
        handshake_end_epoch(&Packet::Ack),
        Err(SensorBoardAppLayerError::UnexpectedPacket(2))
    );
    assert_eq!(check_ack(&Packet::Ack), Ok(()));
    assert_eq!(
        check_ack(&Packet::ResetConnection),
        Err(SensorBoardAppLayerError::UnexpectedPacket(4))
    );
}

#[test]
fn sensor_receives_ack_from_gateway() {
    let mut gw = GatewayLinkLayer::new(KEY.to_vec());
    let mut app = connected_sensor(&mut gw);
    assert!(gw.write(&[0x02]).is_empty());
    let frame = gw.flush();
    app.on_frame(&frame);
    assert_eq!(app.receive(), Ok(Some(Packet::Ack)));
    assert_eq!(app.receive(), Ok(None));
}

#[test]
fn time_offsets() {
    // board started 3.5 s after the gateway's epoch; 10 s have passed since
    let diff = epoch_diff(5_000_000, 1_500);
    assert_eq!(diff, 3_500_000);
    assert_eq!(time_offset_secs(10_000_000, diff), 6);
    // rounds towards zero
    assert_eq!(time_offset_secs(0, 1_500_000), -1);
    assert_eq!(time_offset_secs(u64::MAX, i64::MIN), ((u64::MAX as i128 - i64::MIN as i128) / 1_000_000) as i64);
    assert_eq!(epoch_diff(0, u64::MAX), (0i64).wrapping_sub((u64::MAX.wrapping_mul(1000)) as i64));
}

#[test]
fn gateway_reset_connection_ends_session() {
    let mut app = gateway_in_session();
    let mut phase = AppLayerPhase::Uplink;
    let reset = packet_bytes(&Packet::ResetConnection);
    app.on_frame(&data_frame(0, &reset));
    assert!(matches!(app.comm_cycle(&mut phase), GatewayStep::SessionEnded));
    assert_eq!(phase, AppLayerPhase::Initial);
}

#[test]
fn uplink_batch_drains_queue_and_sends_once() {
    let mut gw = GatewayLinkLayer::new(KEY.to_vec());
    let mut queue = ValueQueue::new();

    let mut idle = SensorBoardAppLayer::new(SensorBoardLinkLayer::new(KEY.to_vec(), MAC.to_vec()));
    assert!(queue.enqueue(SensorValue::Temperature(7)));
    assert!(matches!(
        idle.uplink_batch(&mut queue, 0, 0),
        UplinkBatch::NotConnected
    ));
    assert_eq!(queue.dequeue(), Some(SensorValue::Temperature(7)));

    let mut app = connected_sensor(&mut gw);
    assert!(matches!(app.uplink_batch(&mut queue, 0, 0), UplinkBatch::Idle));
    for v in 0..5u32 {
        queue.enqueue(SensorValue::Altitude(v));
    }
    let UplinkBatch::Sent(frames) = app.uplink_batch(&mut queue, 10_000_000, 3_500_000) else {
        panic!("batch not sent");
    };
    assert_eq!(queue.dequeue(), None);
    let mut payload = Vec::new();
    for f in &frames {
        payload.extend(LinkPacket::get_payload(f));
    }
    let mut d = Decoder::new(payload);
    assert_eq!(d.read_packet(), Ok(Packet::SensorData(SensorData { count: 4 })));
    let points = d.read_value_points(4).unwrap();
    for (i, p) in points.iter().enumerate() {
        assert_eq!(p.value, SensorValue::Altitude(i as u32));
        assert_eq!(p.time_offset, 6);
    }
}
