use sensor_sensei::miner::{
    extract_json_string, find_nonce, hex_decode_is_safe, hex_to_bytes, job_line_is_safe,
    parse_job, parse_pool_response, session_step, share_accepted, DucoMiner, HexError, JobError,
    PoolError, SessionAction, SessionEvent, ShareTally,
};
use sensor_sensei::text::{parse_unsigned, split, trim};

const ABC3_SHA1: &str = "99bdd81005eaa37fa71ff0787cd1d65f63d3d293";

#[test]
fn hex_decodes_digest() {
    let bytes = hex_to_bytes(ABC3_SHA1).unwrap();
    assert_eq!(bytes[0], 0x99);
    assert_eq!(bytes[1], 0xbd);
    assert_eq!(bytes[19], 0x93);
    let upper = hex_to_bytes(&ABC3_SHA1.to_uppercase()).unwrap();
    assert_eq!(upper, bytes);
}

#[test]
fn hex_errors() {
    assert_eq!(hex_to_bytes("abcd"), Err(HexError::WrongLength(4)));
    let bad = format!("zz{}", &ABC3_SHA1[2..]);
    assert_eq!(hex_to_bytes(&bad), Err(HexError::InvalidDigit));
    // `from_str_radix` accepts a leading plus sign in each group.
    let plus = format!("+9{}", &ABC3_SHA1[2..]);
    assert_eq!(hex_to_bytes(&plus).unwrap()[0], 0x09);
}

#[test]
fn hex_safety_detects_split_characters() {
    assert!(hex_decode_is_safe(ABC3_SHA1));
    // A three-byte character at offset 0: the first group would cut it.
    let cut = format!("€{}", &ABC3_SHA1[3..]);
    assert_eq!(cut.len(), 40);
    assert!(!hex_decode_is_safe(&cut));
    // A two-byte character filling the first group: no cut, just invalid.
    let whole = format!("é{}", &ABC3_SHA1[2..]);
    assert!(hex_decode_is_safe(&whole));
    assert_eq!(hex_to_bytes(&whole), Err(HexError::InvalidDigit));
}

#[test]
fn finds_smallest_nonce() {
    let expected = hex_to_bytes(ABC3_SHA1).unwrap();
    assert_eq!(find_nonce("abc", &expected, 10), Some(3));
    assert_eq!(find_nonce("abc", &expected, 3), None);
    assert_eq!(find_nonce("abd", &expected, 10), None);
}

#[test]
fn finds_multi_digit_nonce() {
    let expected = hex_to_bytes("8f365fe2267b0a4b419da260c8e8c275fe240245").unwrap();
    assert_eq!(find_nonce("deadbeef", &expected, 101), Some(17));
}

#[test]
fn parses_job_lines() {
    let line = format!("abc,{},1\n", ABC3_SHA1);
    assert!(job_line_is_safe(&line));
    let job = parse_job(&line).unwrap();
    assert_eq!(job.last_hash, "abc");
    assert_eq!(job.expected_hash, hex_to_bytes(ABC3_SHA1).unwrap());
    assert_eq!(job.difficulty, 1);
    assert_eq!(job.max_nonce(), 101);
    assert_eq!(find_nonce(&job.last_hash, &job.expected_hash, job.max_nonce()), Some(3));

    assert_eq!(parse_job("abc,def").unwrap_err(), JobError::Malformed);
    assert_eq!(parse_job(&format!("abc,{},x", ABC3_SHA1)).unwrap_err(), JobError::BadDifficulty);
    assert_eq!(
        parse_job(&format!("abc,{},4294967296", ABC3_SHA1)).unwrap_err(),
        JobError::BadDifficulty
    );
    assert_eq!(
        parse_job("abc,12,7").unwrap_err(),
        JobError::BadHash(HexError::WrongLength(2))
    );
    let extra = parse_job(&format!("  h,{},+25,extra  ", ABC3_SHA1)).unwrap();
    assert_eq!(extra.last_hash, "h");
    assert_eq!(extra.difficulty, 25);
}

#[test]
fn job_safety_check() {
    let cut = format!("abc,€{},5", &ABC3_SHA1[3..]);
    assert!(!job_line_is_safe(&cut));
    assert!(job_line_is_safe("abc,€,x"));
}

#[test]
fn miner_lines() {
    let m = DucoMiner::new("a1b2c3", "alice", "key42");
    assert_eq!(m.job_request(), "JOB,alice,ESP32,key42\n");
    assert_eq!(
        m.submit_line(1234, "57"),
        "1234,57,SensorSensei Miner,a1b2c3,DUCOIDa1b2c3\n"
    );
    assert_eq!(m.submit_line(0, "0"), "0,0,SensorSensei Miner,a1b2c3,DUCOIDa1b2c3\n");
}

#[test]
fn share_answers() {
    assert!(share_accepted("GOOD\n"));
    assert!(share_accepted(" BLOCK "));
    assert!(!share_accepted("BAD,Incorrect result\n"));
    assert!(!share_accepted("good"));
    let mut tally = ShareTally::new();
    tally.record(true);
    tally.record(false);
    tally.record(true);
    assert_eq!(tally, ShareTally { accepted: 2, rejected: 1 });
}

#[test]
fn extracts_json_values() {
    let json = r#"{"name":"node-1", "ip" : "51.15.127.80","port":2811 ,"server":"x"}"#;
    assert_eq!(extract_json_string(json, "ip").as_deref(), Some("51.15.127.80"));
    assert_eq!(extract_json_string(json, "port").as_deref(), Some("2811"));
    assert_eq!(extract_json_string(json, "name").as_deref(), Some("node-1"));
    assert_eq!(extract_json_string(json, "missing"), None);
    assert_eq!(extract_json_string(r#"{"port"=2811}"#, "port"), None);
    assert_eq!(extract_json_string(r#"{"ip":"unterminated}"#, "ip"), None);
    assert_eq!(extract_json_string(r#"{"port":42}"#, "port").as_deref(), Some("42"));
    assert_eq!(extract_json_string(r#"{"port":"#, "port").as_deref(), Some(""));
}

#[test]
fn parses_pool_answer() {
    let body = br#"{"ip":"51.15.127.80","port":2811,"name":"pool"}"#;
    assert_eq!(
        parse_pool_response(body),
        Ok(("51.15.127.80".to_string(), 2811))
    );
    assert_eq!(parse_pool_response(&[0xff, 0xfe]), Err(PoolError::NotUtf8));
    assert_eq!(parse_pool_response(br#"{"port":1}"#), Err(PoolError::MissingIp));
    assert_eq!(parse_pool_response(br#"{"ip":"a"}"#), Err(PoolError::MissingPort));
    assert_eq!(
        parse_pool_response(br#"{"ip":"a","port":70000}"#),
        Err(PoolError::BadPort)
    );
}

#[test]
fn text_helpers_follow_std() {
    for s in ["  a b\t\n", "", "\u{3000}x\u{85}", "abc", " \u{a0} "] {
        assert_eq!(trim(s), s.trim());
    }
    for s in ["a,b,,c", "", ",", "abc", "x,"] {
        let std_pieces: Vec<String> = s.split(',').map(|p| p.to_string()).collect();
        assert_eq!(split(s, ','), std_pieces);
    }
    for s in ["0", "+7", "65535", "65536", "", "+", "-1", "12a", "0007"] {
        assert_eq!(parse_unsigned(s, 65535), s.parse::<u16>().ok().map(|v| v as u64), "{s}");
    }
    assert_eq!(parse_unsigned("4294967295", u32::MAX as u64), Some(4294967295));
    assert_eq!(parse_unsigned("99999999999999999999999", u32::MAX as u64), None);
}

#[test]
fn hex_text_of_any_bytes_decodes_back() {
    let samples: [[u8; 20]; 3] = [
        [0u8; 20],
        [0xffu8; 20],
        core::array::from_fn(|i| (i as u8).wrapping_mul(37).wrapping_add(5)),
    ];
    for b in samples {
        let lower: String = b.iter().map(|x| format!("{:02x}", x)).collect();
        let upper: String = b.iter().map(|x| format!("{:02X}", x)).collect();
        assert!(hex_decode_is_safe(&lower));
        assert_eq!(hex_to_bytes(&lower), Ok(b));
        assert_eq!(hex_to_bytes(&upper), Ok(b));
    }
}

#[test]
fn session_submits_found_nonce_then_asks_for_next_job() {
    let mut tally = ShareTally::new();
    assert_eq!(session_step(&mut tally, SessionEvent::SearchDone(Some(42))), SessionAction::Submit(42));
    assert_eq!(tally, ShareTally::new());
    assert_eq!(session_step(&mut tally, SessionEvent::ShareAnswered(true)), SessionAction::RequestJob);
    assert_eq!((tally.accepted, tally.rejected), (1, 0));
    assert_eq!(session_step(&mut tally, SessionEvent::ShareAnswered(false)), SessionAction::RequestJob);
    assert_eq!((tally.accepted, tally.rejected), (1, 1));
}

#[test]
fn session_without_nonce_asks_for_next_job() {
    let mut tally = ShareTally::new();
    assert_eq!(session_step(&mut tally, SessionEvent::SearchDone(None)), SessionAction::RequestJob);
    assert_eq!((tally.accepted, tally.rejected), (0, 0));
}
