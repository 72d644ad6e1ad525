use sensor_sensei::api::{ReadingText, SensorApi, DEFAULT_API_URL, HTTP_TIMEOUT_SECS};
use sensor_sensei::packet::{PacketError, SensorPacket, MSG_TYPE_SENSOR_DATA, PACKET_SIZE};
use sensor_sensei::source::{receive, MockSource, ReceiveError, MOCK_INTERVAL_SECS};

fn readings() -> ReadingText {
    ReadingText {
        pm25: "42.3".to_string(),
        pm10: "18.5".to_string(),
        temperature: "22.5".to_string(),
        humidity: "55.0".to_string(),
    }
}

#[test]
fn mock_first_packet_is_the_wave_minimum() {
    let mut src = MockSource::new(1);
    let d = src.receive();
    assert_eq!(d.wait_secs, 0);
    let p = d.packet;
    assert_eq!(
        p,
        SensorPacket {
            msg_type: MSG_TYPE_SENSOR_DATA,
            node_id: 1,
            pm25_raw: 120,
            pm10_raw: 200,
            temp_raw: 2000,
            humidity_raw: 4500,
            battery_mv: 4200,
        }
    );
    assert_eq!(src.cycle(), 1);
}

#[test]
fn mock_waits_the_interval_before_every_later_packet() {
    let mut src = MockSource::new(3);
    assert_eq!(src.receive().wait_secs, 0);
    for _ in 0..5 {
        assert_eq!(src.receive().wait_secs, MOCK_INTERVAL_SECS);
    }
    assert_eq!(MOCK_INTERVAL_SECS, 10);
    assert_eq!(src.cycle(), 6);
}

#[test]
fn radio_failure_is_reported_as_such() {
    let r = receive::<&str>(Err("rx timeout"));
    assert_eq!(r, Err(ReceiveError::Radio("rx timeout")));
}

#[test]
fn radio_payload_of_wrong_length_is_refused() {
    let r = receive::<&str>(Ok(&[0x01, 0x02, 0x03][..]));
    assert_eq!(r, Err(ReceiveError::Packet(PacketError::WrongLength(3))));
    let long = [0u8; PACKET_SIZE + 1];
    let r = receive::<&str>(Ok(&long[..]));
    assert_eq!(r, Err(ReceiveError::Packet(PacketError::WrongLength(PACKET_SIZE + 1))));
}

#[test]
fn radio_payload_is_decoded() {
    let p = MockSource::new(4).receive().packet;
    let bytes = p.encode();
    assert_eq!(receive::<&str>(Ok(&bytes[..])), Ok(p));
    let mut bad = bytes;
    bad[3] ^= 0x01;
    assert!(matches!(
        receive::<&str>(Ok(&bad[..])),
        Err(ReceiveError::Packet(PacketError::CrcMismatch { .. }))
    ));
}

#[test]
fn mock_wave_peaks_half_way_and_repeats() {
    let mut src = MockSource::new(9);
    let packets: Vec<SensorPacket> = (0..61).map(|_| src.receive().packet).collect();
    let peak = packets[30];
    assert_eq!(peak.pm25_raw, 250);
    assert_eq!(peak.pm10_raw, 395);
    assert_eq!(peak.temp_raw, 2500);
    assert_eq!(peak.humidity_raw, 6500);
    assert_eq!(peak.battery_mv, 4170);
    let p7 = packets[7];
    assert_eq!(p7.pm25_raw, 120 + 7 * 130 / 30);
    assert_eq!(p7.pm10_raw, p7.pm25_raw * 3 / 2 + 20);
    assert_eq!(p7.temp_raw, 2000 + 7 * 500 / 30);
    assert_eq!(p7.humidity_raw, 4500 + 7 * 2000 / 30);
    assert_eq!(packets[53].pm25_raw, packets[7].pm25_raw);
    assert_eq!(packets[60].pm25_raw, packets[0].pm25_raw);
    assert_eq!(packets[60].battery_mv, 4140);
    for p in &packets {
        assert_eq!(p.node_id, 9);
        assert!((120..=250).contains(&p.pm25_raw));
        assert!((2000..=2500).contains(&p.temp_raw));
        assert!((4500..=6500).contains(&p.humidity_raw));
    }
}

#[test]
fn mock_battery_saturates_at_zero() {
    let mut src = MockSource::new(2);
    let mut last = 0;
    for _ in 0..4300 {
        last = src.receive().packet.battery_mv;
    }
    assert_eq!(last, 0);
}

#[test]
fn api_defaults_to_sensor_community() {
    let api = SensorApi::new("esp32-a1b2c3".to_string(), None);
    assert_eq!(api.base_url(), DEFAULT_API_URL);
    assert!(api.uses_https());
    let local = SensorApi::new("esp32-a1b2c3".to_string(), Some("http://10.0.0.2:8080".to_string()));
    assert_eq!(local.base_url(), "http://10.0.0.2:8080");
    assert!(!local.uses_https());
}

#[test]
fn posts_dust_then_climate() {
    let api = SensorApi::new("esp32-a1b2c3".to_string(), None);
    let posts = api.post_sensor_data(&readings());
    assert_eq!(posts.len(), 2);

    let dust = &posts[0];
    let dust_body = r#"{"software_version":"sensor-sensei-0.1","sensordatavalues":[{"value_type":"P1","value":"18.5"},{"value_type":"P2","value":"42.3"}]}"#;
    assert_eq!(dust.body, dust_body);
    assert_eq!(dust.url, DEFAULT_API_URL);
    assert!(dust.use_https);
    assert_eq!(dust.timeout_secs, HTTP_TIMEOUT_SECS);
    let expected_headers = vec![
        ("Content-Type".to_string(), "application/json".to_string()),
        ("X-Pin".to_string(), "1".to_string()),
        ("X-Sensor".to_string(), "esp32-a1b2c3".to_string()),
        ("Content-Length".to_string(), dust_body.len().to_string()),
    ];
    assert_eq!(dust.headers, expected_headers);

    let climate = &posts[1];
    let climate_body = r#"{"software_version":"sensor-sensei-0.1","sensordatavalues":[{"value_type":"temperature","value":"22.5"},{"value_type":"humidity","value":"55.0"}]}"#;
    assert_eq!(climate.body, climate_body);
    assert_eq!(climate.headers[1], ("X-Pin".to_string(), "11".to_string()));
    assert_eq!(
        climate.headers[3],
        ("Content-Length".to_string(), climate_body.len().to_string())
    );
}

#[test]
fn content_length_counts_bytes() {
    let api = SensorApi::new("s".to_string(), Some("http://x".to_string()));
    let r = ReadingText {
        pm25: "µ".to_string(),
        pm10: "1".to_string(),
        temperature: "2".to_string(),
        humidity: "3".to_string(),
    };
    let posts = api.post_sensor_data(&r);
    let len: usize = posts[0].headers[3].1.parse().unwrap();
    assert_eq!(len, posts[0].body.len());
    assert_eq!(len, posts[0].body.chars().count() + 1);
}
