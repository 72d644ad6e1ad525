use sensor_sensei::crc::crc16_ccitt;
use sensor_sensei::packet::{PacketError, SensorPacket, MSG_TYPE_SENSOR_DATA, PACKET_SIZE};

fn sample() -> SensorPacket {
    SensorPacket {
        msg_type: MSG_TYPE_SENSOR_DATA,
        node_id: 7,
        pm25_raw: 423,
        pm10_raw: 615,
        temp_raw: -512,
        humidity_raw: 5530,
        battery_mv: 4123,
    }
}

#[test]
fn round_trip_preserves_fields() {
    let pkt = SensorPacket {
        msg_type: MSG_TYPE_SENSOR_DATA,
        node_id: 7,
        pm25_raw: 423,
        pm10_raw: 615,
        temp_raw: -512,
        humidity_raw: 5530,
        battery_mv: 4123,
    };

    let decoded = SensorPacket::decode(&pkt.encode()).expect("decode");

    assert_eq!(decoded.node_id, 7);
    assert_eq!(decoded.pm25_raw, 423);
    assert_eq!(decoded.pm10_raw, 615);
    assert_eq!(decoded.temp_raw, -512);
    assert_eq!(decoded.humidity_raw, 5530);
    assert_eq!(decoded.battery_mv, 4123);
}

#[test]
fn detects_corruption() {
    let pkt = SensorPacket {
        msg_type: MSG_TYPE_SENSOR_DATA,
        node_id: 1,
        pm25_raw: 100,
        pm10_raw: 150,
        temp_raw: 2200,
        humidity_raw: 5000,
        battery_mv: 4200,
    };
    let mut buf = pkt.encode();
    buf[3] ^= 0xFF; // flip a payload byte
    assert!(SensorPacket::decode(&buf).is_err());
}

#[test]
fn rejects_unknown_msg_type() {
    let pkt = SensorPacket {
        msg_type: 0x42,
        node_id: 1,
        pm25_raw: 0,
        pm10_raw: 0,
        temp_raw: 0,
        humidity_raw: 0,
        battery_mv: 0,
    };
    // Re-CRC so it fails on type, not CRC.
    assert!(SensorPacket::decode(&pkt.encode()).is_err());
}

#[test]
fn crc_of_check_string() {
    assert_eq!(crc16_ccitt(b"123456789"), 0x29B1);
    assert_eq!(crc16_ccitt(&[]), 0xFFFF);
}

#[test]
fn encode_writes_big_endian_fields_and_crc() {
    let buf = sample().encode();
    assert_eq!(buf.len(), PACKET_SIZE);
    assert_eq!(
        buf,
        [1, 7, 1, 167, 2, 103, 254, 0, 21, 154, 16, 27, 0xE4, 0x45]
    );
}

#[test]
fn decode_gives_back_the_encoded_packet() {
    let p = sample();
    assert_eq!(SensorPacket::decode(&p.encode()), Ok(p));
}

#[test]
fn unknown_msg_type_error_names_the_type() {
    let mut p = sample();
    p.msg_type = 0x42;
    assert_eq!(
        SensorPacket::decode(&p.encode()),
        Err(PacketError::UnknownMsgType(0x42))
    );
}

#[test]
fn every_single_byte_corruption_is_detected() {
    let buf = sample().encode();
    for k in 0..PACKET_SIZE {
        for v in 0..=255u8 {
            if v == buf[k] {
                continue;
            }
            let mut bad = buf;
            bad[k] = v;
            match SensorPacket::decode(&bad) {
                Err(PacketError::CrcMismatch { .. }) => {}
                other => panic!("byte {k} set to {v}: {other:?}"),
            }
        }
    }
}

#[test]
fn crc_mismatch_reports_both_values() {
    let mut buf = sample().encode();
    buf[13] ^= 0x01;
    assert_eq!(
        SensorPacket::decode(&buf),
        Err(PacketError::CrcMismatch { expected: 0xE444, actual: 0xE445 })
    );
}

#[test]
fn crc_checked_before_msg_type() {
    let mut buf = sample().encode();
    buf[0] = 0x42;
    assert!(matches!(
        SensorPacket::decode(&buf),
        Err(PacketError::CrcMismatch { .. })
    ));
}

#[test]
fn decode_slice_checks_length_first() {
    let buf = sample().encode();
    assert_eq!(SensorPacket::decode_slice(&buf), Ok(sample()));
    assert_eq!(
        SensorPacket::decode_slice(&buf[..13]),
        Err(PacketError::WrongLength(13))
    );
    let mut long = buf.to_vec();
    long.push(0);
    assert_eq!(
        SensorPacket::decode_slice(&long),
        Err(PacketError::WrongLength(15))
    );
}

#[test]
fn extreme_values_round_trip() {
    let p = SensorPacket {
        msg_type: MSG_TYPE_SENSOR_DATA,
        node_id: 255,
        pm25_raw: u16::MAX,
        pm10_raw: 0,
        temp_raw: i16::MIN,
        humidity_raw: u16::MAX,
        battery_mv: 0,
    };
    assert_eq!(SensorPacket::decode(&p.encode()), Ok(p));
    let q = SensorPacket { temp_raw: i16::MAX, ..p };
    assert_eq!(SensorPacket::decode(&q.encode()), Ok(q));
}

#[test]
fn every_two_adjacent_byte_corruption_is_detected() {
    let buf = sample().encode();
    for k in 0..PACKET_SIZE - 1 {
        for v in 0..=u16::MAX {
            let (v1, v2) = ((v >> 8) as u8, v as u8);
            if v1 == buf[k] && v2 == buf[k + 1] {
                continue;
            }
            let mut bad = buf;
            bad[k] = v1;
            bad[k + 1] = v2;
            assert!(
                matches!(SensorPacket::decode(&bad), Err(PacketError::CrcMismatch { .. })),
                "bytes {k},{} set to {v1},{v2}",
                k + 1
            );
        }
    }
}

#[test]
fn appended_crc_leaves_zero_residue() {
    let pkt = sample();
    assert_eq!(crc16_ccitt(&pkt.encode()), 0);
    let data = b"123456789";
    let c = crc16_ccitt(data);
    assert_eq!(c, 0x29B1);
    let mut with_crc = data.to_vec();
    with_crc.extend_from_slice(&c.to_be_bytes());
    assert_eq!(crc16_ccitt(&with_crc), 0);
}
