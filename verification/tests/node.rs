use sensor_sensei::dht::{decode, find_response_index, DhtError, DhtFrame, RmtSymbol};

fn sym(l0: u16, l1: u16) -> RmtSymbol {
    RmtSymbol { level0_ticks: l0, level1_ticks: l1 }
}

/// Start signal, response, then the 40 bits of `bytes`.
fn capture(bytes: [u8; 5]) -> Vec<RmtSymbol> {
    let mut v = vec![sym(20000, 30), sym(80, 80)];
    for b in bytes {
        for k in (0..8).rev() {
            v.push(if b >> k & 1 == 1 { sym(50, 70) } else { sym(50, 26) });
        }
    }
    v
}

#[test]
fn decodes_a_valid_frame() {
    let frame = capture([55, 0, 23, 4, 82]);
    assert_eq!(find_response_index(&frame), Some(1));
    assert_eq!(
        decode(&frame),
        Ok(DhtFrame { humidity_int: 55, humidity_dec: 0, temperature_int: 23, temperature_dec: 4 })
    );
}

#[test]
fn checksum_wraps_around() {
    let frame = capture([200, 100, 30, 9, 83]);
    assert_eq!(
        decode(&frame),
        Ok(DhtFrame { humidity_int: 200, humidity_dec: 100, temperature_int: 30, temperature_dec: 9 })
    );
}

#[test]
fn reports_checksum_mismatch() {
    let frame = capture([55, 0, 23, 4, 81]);
    assert_eq!(decode(&frame), Err(DhtError::ChecksumMismatch { expected: 81, actual: 82 }));
}

#[test]
fn reports_missing_symbols() {
    assert_eq!(decode(&[]), Err(DhtError::NoSymbols));
    let silent = vec![sym(20000, 30), sym(50, 70)];
    assert_eq!(find_response_index(&silent), None);
    assert_eq!(decode(&silent), Err(DhtError::NoResponse { captured: 2 }));
    let mut short = capture([1, 2, 3, 4, 10]);
    short.truncate(2 + 39);
    assert_eq!(decode(&short), Err(DhtError::TooFewBits { have: 39 }));
}

#[test]
fn threshold_values_are_exclusive() {
    // 60 µs is not a response, 50 µs is a 0 bit.
    let mut frame = vec![sym(60, 80), sym(61, 61)];
    for _ in 0..40 {
        frame.push(sym(50, 50));
    }
    assert_eq!(find_response_index(&frame), Some(1));
    assert_eq!(
        decode(&frame),
        Ok(DhtFrame { humidity_int: 0, humidity_dec: 0, temperature_int: 0, temperature_dec: 0 })
    );
}
