use lora_telemetry::codec::{
    emit_f32_bits, emit_i64, emit_u32, emit_u64, DecodeError, Decoder, ToLeb128Ext,
};
use lora_telemetry::packet::{
    encode_packet, encode_value_point, HandshakeEnd, HandshakeStart, Packet, SensorData,
    SensorValue, SensorValuePoint,
};

fn encode(p: &Packet) -> Vec<u8> {
    let mut out = Vec::new();
    encode_packet(&mut out, p);
    out
}

fn encode_point(p: &SensorValuePoint) -> Vec<u8> {
    let mut out = Vec::new();
    encode_value_point(&mut out, p);
    out
}

#[test]
fn test_codec_uleb128() {
    let values: &[(u128, &[u8])] = &[
        (0, &[0]),
        (12, &[12]),
        (275, &[0x93, 0x02]),
        (71921, &[0xf1, 0xb1, 0x04]),
        (5626730, &[0xea, 0xb6, 0xd7, 0x02]),
        (3721843041, &[0xe1, 0xa2, 0xdb, 0xee, 0x0d]),
        (u32::MAX as u128, &[0xff, 0xff, 0xff, 0xff, 0x0f]),
        (41705795455, &[0xff, 0xde, 0xef, 0xae, 0x9b, 0x01]),
        (
            u64::MAX as u128,
            &[0xff, 0xff, 0xff, 0xff, 0xff, 0xff, 0xff, 0xff, 0xff, 0x01],
        ),
    ];

    let mut codec = Decoder::new(Vec::new());
    for &(to_emit, expected) in values {
        if let Ok(u32v) = u32::try_from(to_emit) {
            let mut out = Vec::new();
            emit_u32(&mut out, u32v);
            assert_eq!(&out[..], expected);
            codec.extend(&out);
            let pos = codec.current_offset();
            assert_eq!(u32v, codec.read_u32().unwrap());
            assert_eq!(codec.current_offset() - pos, expected.len());
        }
        if let Ok(u64v) = u64::try_from(to_emit) {
            let mut out = Vec::new();
            emit_u64(&mut out, u64v);
            assert_eq!(&out[..], expected);
            codec.extend(&out);
            let pos = codec.current_offset();
            assert_eq!(u64v, codec.read_u64().unwrap());
            assert_eq!(codec.current_offset() - pos, expected.len());
        }
    }
}

#[test]
fn test_codec_sleb128() {
    let values: &[(i128, &[u8])] = &[
        (0, &[0]),
        (-1, &[0x7f]),
        (-12, &[0x74]),
        (-275, &[0xed, 0x7d]),
        (-71921, &[0x8f, 0xce, 0x7b]),
        (-5626730, &[0x96, 0xc9, 0xa8, 0x7d]),
        (-3721843041, &[0x9f, 0xdd, 0xa4, 0x91, 0x72]),
        (i32::MIN as i128, &[0x80, 0x80, 0x80, 0x80, 0x78]),
        (-41705795455, &[0x81, 0xa1, 0x90, 0xd1, 0xe4, 0x7e]),
        (
            i64::MIN as i128,
            &[0x80, 0x80, 0x80, 0x80, 0x80, 0x80, 0x80, 0x80, 0x80, 0x7f],
        ),
    ];

    let mut codec = Decoder::new(Vec::new());
    for &(to_emit, expected) in values {
        if let Ok(i64v) = i64::try_from(to_emit) {
            let mut out = Vec::new();
            emit_i64(&mut out, i64v);
            assert_eq!(&out[..], expected);
            codec.extend(&out);
            let pos = codec.current_offset();
            assert_eq!(i64v, codec.read_i64().unwrap());
            assert_eq!(codec.current_offset() - pos, expected.len());
        }
    }
}

#[test]
fn test_codec_f32() {
    let mut codec = Decoder::new(Vec::new());

    let mut out = Vec::new();
    emit_f32_bits(&mut out, 123.456f32.to_bits());
    assert_eq!(&out[..], [0x79, 0xe9, 0xf6, 0x42]);
    codec.extend(&out);
    assert_eq!(f32::from_bits(codec.read_f32_bits().unwrap()), 123.456f32);
    assert_eq!(codec.current_offset(), 4);

    let mut out = Vec::new();
    emit_f32_bits(&mut out, 22.3f32.to_bits());
    assert_eq!(&out[..], [0x66, 0x66, 0xb2, 0x41]);
    codec.extend(&out);
    assert_eq!(f32::from_bits(codec.read_f32_bits().unwrap()), 22.3f32);
    assert_eq!(codec.current_offset(), 8);
}

#[test]
fn test_decode_unknown_packet() {
    let encoded = [0x99, 0x01, 0x15, 0x00];
    let mut codec = Decoder::new(encoded.to_vec());

    assert!(codec.read_packet().is_err());
    assert_eq!(codec.current_offset(), 1);
}

#[test]
fn test_codec_handshake_start_packet() {
    let packet = Packet::HandshakeStart(HandshakeStart {
        major: 1,
        minor: 21,
    });
    let encoded = [0x00, 0x01, 0x15, 0x00];

    assert_eq!(&encode(&packet)[..], encoded);
    let mut codec = Decoder::new(encode(&packet));
    assert_eq!(codec.read_packet().unwrap(), packet);
    assert_eq!(codec.current_offset(), encoded.len());
}

#[test]
fn test_decode_handshake_start_packet_trailing_bytes() {
    let packet = Packet::HandshakeStart(HandshakeStart {
        major: 1,
        minor: 21,
    });
    let encoded = [0x00, 0x01, 0x15, 0x03, 0xca, 0xfe, 0x99];

    let mut codec = Decoder::new(encoded.to_vec());
    assert_eq!(codec.read_packet().unwrap(), packet);
    assert_eq!(codec.current_offset(), encoded.len());
}

#[test]
fn test_codec_handshake_end_packet() {
    let packet = Packet::HandshakeEnd(HandshakeEnd {
        major: 1,
        minor: 0,
        epoch: 1744854025,
    });
    let encoded = [0x01, 0x01, 0x00, 0x05, 0x89, 0xb8, 0x81, 0xc0, 0x6];

    assert_eq!(&encode(&packet)[..], encoded);
    let mut codec = Decoder::new(encode(&packet));
    assert_eq!(codec.read_packet().unwrap(), packet);
    assert_eq!(codec.current_offset(), encoded.len());
}

#[test]
fn test_decode_handshake_end_packet_trailing_bytes() {
    let packet = Packet::HandshakeEnd(HandshakeEnd {
        major: 1,
        minor: 21,
        epoch: 1744854025,
    });
    let encoded = [
        0x01, 0x01, 0x15, 0x08, 0x89, 0xb8, 0x81, 0xc0, 0x6, 0x01, 0x02, 0x03,
    ];

    let mut codec = Decoder::new(encoded.to_vec());
    assert_eq!(codec.read_packet().unwrap(), packet);
    assert_eq!(codec.current_offset(), encoded.len());
}

#[test]
fn test_decode_handshake_end_from_the_future() {
    let packet = Packet::HandshakeEnd(HandshakeEnd {
        major: 2,
        minor: 3,
        epoch: 0,
    });
    let encoded = [0x01, 0x02, 0x03, 0x02, 0xba, 0xbe];

    let mut codec = Decoder::new(encoded.to_vec());
    assert_eq!(codec.read_packet().unwrap(), packet);
    assert_eq!(codec.current_offset(), encoded.len());
}

#[test]
fn test_codec_ack_packet() {
    let packet = Packet::Ack;
    let encoded = [0x02];

    assert_eq!(&encode(&packet)[..], encoded);
    let mut codec = Decoder::new(encode(&packet));
    assert_eq!(codec.read_packet().unwrap(), packet);
    assert_eq!(codec.current_offset(), encoded.len());
}

#[test]
fn test_codec_sensor_data_packet_empty() {
    let packet = Packet::SensorData(SensorData { count: 0 });
    let encoded = [0x03, 0x00];

    assert_eq!(&encode(&packet)[..], encoded);
    let mut codec = Decoder::new(encode(&packet));
    assert_eq!(codec.read_packet().unwrap(), packet);
    assert_eq!(codec.current_offset(), encoded.len());
}

#[test]
fn test_codec_sensor_data_packet_normal() {
    let values: &[(SensorValuePoint, &[u8])] = &[
        (
            SensorValuePoint {
                value: SensorValue::Temperature(22.3f32.to_bits()),
                time_offset: -35,
            },
            &[0x5d, 0x00, 0x04, 0x66, 0x66, 0xb2, 0x41],
        ),
        (
            SensorValuePoint {
                value: SensorValue::Pressure(1.01f32.to_bits()),
                time_offset: 2,
            },
            &[0x02, 0x01, 0x04, 0xae, 0x47, 0x81, 0x3f],
        ),
        (
            SensorValuePoint {
                value: SensorValue::Altitude(0.9f32.to_bits()),
                time_offset: 3,
            },
            &[0x03, 0x02, 0x04, 0x66, 0x66, 0x66, 0x3f],
        ),
        (
            SensorValuePoint {
                value: SensorValue::AirQuality(0.52f32.to_bits()),
                time_offset: 6,
            },
            &[0x06, 0x03, 0x04, 0xb8, 0x1e, 0x05, 0x3f],
        ),
        (
            SensorValuePoint {
                value: SensorValue::Unknown {
                    id: 999,
                    value_len: 0,
                },
                time_offset: 9,
            },
            &[0x09, 0xe7, 0x07, 0x00],
        ),
    ];

    let packet_header = Packet::SensorData(SensorData {
        count: values.len() as u8,
    });
    let encoded_packet_header = [0x03, 0x05];

    // Header
    assert_eq!(&encode(&packet_header)[..], &encoded_packet_header);
    let mut codec = Decoder::new(encode(&packet_header));
    assert_eq!(codec.read_packet().unwrap(), packet_header);
    assert_eq!(codec.current_offset(), encoded_packet_header.len());

    // Values
    for (value, encoded) in values {
        assert_eq!(&encode_point(value)[..], *encoded);
        codec.extend(&encode_point(value));
        let pos = codec.current_offset();
        assert_eq!(&codec.read_value_point().unwrap(), value);
        assert_eq!(codec.current_offset() - pos, encoded.len());
    }
}

#[test]
fn test_codec_sensor_data_packet_unknown_read_tail() {
    let value = SensorValuePoint {
        value: SensorValue::Unknown {
            id: 999,
            value_len: 3,
        },
        time_offset: 9,
    };
    let encoded = [0x09, 0xe7, 0x07, 0x03];

    assert_eq!(&encode_point(&value)[..], encoded);
    let mut codec = Decoder::new(encode_point(&value));
    let pos = codec.current_offset();
    // add tail data back
    codec.extend(&[0x00, 0x00, 0x00]);
    assert_eq!(codec.read_value_point().unwrap(), value);
    assert_eq!(codec.current_offset() - pos, encoded.len() + 3);
}

#[test]
fn test_codec_reset_connection_packet() {
    let packet = Packet::ResetConnection;
    let encoded = [0x04];

    assert_eq!(&encode(&packet)[..], &encoded);
    let mut codec = Decoder::new(encode(&packet));
    assert_eq!(codec.read_packet().unwrap(), packet);
    assert_eq!(codec.current_offset(), encoded.len());
}

#[test]
fn leb128_trait_matches_vector_table() {
    assert_eq!(275u32.to_leb128(), vec![0x93, 0x02]);
    assert_eq!(u64::MAX.to_leb128(), vec![0xff; 9].into_iter().chain([0x01]).collect::<Vec<u8>>());
    assert_eq!((-275i64).to_leb128(), vec![0xed, 0x7d]);
    assert_eq!((i32::MIN as i64).to_leb128(), vec![0x80, 0x80, 0x80, 0x80, 0x78]);
}

#[test]
fn uleb_encoding_is_deterministic() {
    for v in [0u64, 1, 127, 128, 275, 3721843041, u64::MAX] {
        assert_eq!(v.to_leb128(), v.to_leb128());
    }
    for v in [0i64, -1, 63, 64, -64, -65, i64::MIN, i64::MAX] {
        assert_eq!(v.to_leb128(), v.to_leb128());
    }
}

#[test]
fn overlong_uleb_is_rejected() {
    // five continuation bytes: a u32 may not take more than five bytes
    let mut codec = Decoder::new(vec![0x80, 0x80, 0x80, 0x80, 0x80, 0x00]);
    assert_eq!(codec.read_u32(), Err(DecodeError::Malformed));
    // ten continuation bytes for a u64
    let mut codec = Decoder::new(vec![0xff; 11]);
    assert_eq!(codec.read_u64(), Err(DecodeError::Malformed));
    let mut codec = Decoder::new(vec![0xff; 11]);
    assert_eq!(codec.read_i64(), Err(DecodeError::Malformed));
}

#[test]
fn truncated_input_is_end_of_input() {
    let mut codec = Decoder::new(vec![0x93]);
    assert_eq!(codec.read_u32(), Err(DecodeError::EndOfInput));
    let mut codec = Decoder::new(vec![0x00, 0x01]);
    assert_eq!(codec.read_packet(), Err(DecodeError::EndOfInput));
    let mut codec = Decoder::new(vec![0x66, 0x66]);
    assert_eq!(codec.read_f32_bits(), Err(DecodeError::EndOfInput));
}

#[test]
fn known_value_shorter_than_its_body_is_malformed() {
    // Temperature declaring a payload of 2 bytes while its body takes 4
    let mut codec = Decoder::new(vec![0x00, 0x00, 0x02, 0x66, 0x66, 0xb2, 0x41]);
    assert_eq!(codec.read_value_point(), Err(DecodeError::Malformed));
}

#[test]
fn known_value_with_longer_payload_skips_the_rest() {
    let mut codec = Decoder::new(vec![0x01, 0x00, 0x06, 0x66, 0x66, 0xb2, 0x41, 0xaa, 0xbb, 0x02]);
    let point = codec.read_value_point().unwrap();
    assert_eq!(
        point,
        SensorValuePoint {
            value: SensorValue::Temperature(22.3f32.to_bits()),
            time_offset: 1,
        }
    );
    assert_eq!(codec.current_offset(), 9);
    assert_eq!(codec.read_packet(), Ok(Packet::Ack));
}

#[test]
fn round_trip_of_every_packet_kind() {
    let packets = [
        Packet::HandshakeStart(HandshakeStart { major: 1, minor: 0 }),
        Packet::HandshakeEnd(HandshakeEnd {
            major: 1,
            minor: 0,
            epoch: u64::MAX,
        }),
        Packet::HandshakeEnd(HandshakeEnd {
            major: 7,
            minor: 2,
            epoch: 0,
        }),
        Packet::Ack,
        Packet::SensorData(SensorData { count: 255 }),
        Packet::ResetConnection,
    ];
    for p in packets {
        let bytes = encode(&p);
        let mut codec = Decoder::new(bytes.clone());
        assert_eq!(codec.read_packet().unwrap(), p);
        assert_eq!(codec.current_offset(), bytes.len());
    }
}

#[test]
fn value_points_batch_is_read_in_order() {
    let points = [
        SensorValuePoint {
            value: SensorValue::Pressure(1.01f32.to_bits()),
            time_offset: i64::MIN,
        },
        SensorValuePoint {
            value: SensorValue::Unknown {
                id: 999,
                value_len: 0,
            },
            time_offset: i64::MAX,
        },
    ];
    let mut bytes = Vec::new();
    for p in &points {
        encode_value_point(&mut bytes, p);
    }
    let mut codec = Decoder::new(bytes.clone());
    assert_eq!(codec.read_value_points(2).unwrap(), points.to_vec());
    assert_eq!(codec.current_offset(), bytes.len());
}
