//! Decoding of a DHT11 frame captured by the ESP32 RMT peripheral.
//!
//! After the host's start signal the sensor answers with an 80 µs LOW +
//! 80 µs HIGH response, then 40 bits: each bit is a 50 µs LOW followed by a
//! HIGH of ~26 µs (0) or ~70 µs (1). The 40 bits form 5 bytes
//! `[humidity_int, humidity_dec, temperature_int, temperature_dec, checksum]`
//! with `checksum = (b0 + b1 + b2 + b3) & 0xFF`.

use vstd::prelude::*;

verus! {

/// Threshold (µs) on the HIGH half of a bit symbol: longer encodes a 1.
pub const BIT_THRESHOLD_US: u16 = 50;

/// Threshold (µs) that both halves of the response symbol exceed.
pub const RESPONSE_THRESHOLD_US: u16 = 60;

/// Number of data bits in a frame.
pub const DHT_FRAME_BITS: usize = 40;

/// One captured RMT symbol: the durations, in µs, of its two halves.
#[derive(Debug, Clone, Copy, PartialEq, Eq)]
pub struct RmtSymbol {
    pub level0_ticks: u16,
    pub level1_ticks: u16,
}

/// The four data bytes of a frame whose checksum verified.
#[derive(Debug, Clone, Copy, PartialEq, Eq)]
pub struct DhtFrame {
    pub humidity_int: u8,
    pub humidity_dec: u8,
    pub temperature_int: u8,
    pub temperature_dec: u8,
}

/// Why a capture could not be decoded.
#[derive(Debug, Clone, Copy, PartialEq, Eq)]
pub enum DhtError {
    /// Nothing was captured.
    NoSymbols,
    /// None of the `captured` symbols has the shape of the sensor's response.
    NoResponse { captured: usize },
    /// Fewer than 40 symbols follow the response.
    TooFewBits { have: usize },
    /// The checksum byte (`expected`) differs from the sum of the data bytes (`actual`).
    ChecksumMismatch { expected: u8, actual: u8 },
}

/// Whether both halves of a symbol are long enough to be the response.
pub open spec fn is_response(s: RmtSymbol) -> bool {
    s.level0_ticks > RESPONSE_THRESHOLD_US && s.level1_ticks > RESPONSE_THRESHOLD_US
}

/// Whether `i` is the index of the first response symbol of `s`.
pub open spec fn is_first_response(s: Seq<RmtSymbol>, i: int) -> bool {
    &&& 0 <= i < s.len()
    &&& is_response(s[i])
    &&& forall|j: int| 0 <= j < i ==> !is_response(#[trigger] s[j])
}

/// The bit a data symbol encodes.
pub open spec fn symbol_bit(s: RmtSymbol) -> nat {
    if s.level1_ticks > BIT_THRESHOLD_US {
        1
    } else {
        0
    }
}

/// The number formed by the bits of `s[start..start + k]`, most significant first.
pub open spec fn bits_value(s: Seq<RmtSymbol>, start: int, k: nat) -> nat
    decreases k,
{
    if k == 0 {
        0
    } else {
        2 * bits_value(s, start, (k - 1) as nat) + symbol_bit(s[start + k - 1])
    }
}

/// Byte `j` (0..5) of the frame whose first bit symbol is `s[start]`.
pub open spec fn frame_byte(s: Seq<RmtSymbol>, start: int, j: int) -> u8 {
    bits_value(s, start + 8 * j, 8) as u8
}

/// The checksum the four data bytes call for.
pub open spec fn dht_checksum(b0: u8, b1: u8, b2: u8, b3: u8) -> u8 {
    ((b0 + b1 + b2 + b3) % 256) as u8
}

/// What decoding the capture `s` gives, when its first response symbol is
/// at index `r`.
pub open spec fn decode_after_response(s: Seq<RmtSymbol>, r: int) -> Result<DhtFrame, DhtError> {
    let start = r + 1;
    if s.len() - start < DHT_FRAME_BITS {
        Err(DhtError::TooFewBits { have: (s.len() - start) as usize })
    } else {
        let b0 = frame_byte(s, start, 0);
        let b1 = frame_byte(s, start, 1);
        let b2 = frame_byte(s, start, 2);
        let b3 = frame_byte(s, start, 3);
        let b4 = frame_byte(s, start, 4);
        if b4 != dht_checksum(b0, b1, b2, b3) {
            Err(DhtError::ChecksumMismatch { expected: b4, actual: dht_checksum(b0, b1, b2, b3) })
        } else {
            Ok(
                DhtFrame {
                    humidity_int: b0,
                    humidity_dec: b1,
                    temperature_int: b2,
                    temperature_dec: b3,
                },
            )
        }
    }
}

/// What decoding the capture `s` gives.
pub open spec fn dht_decode_spec(s: Seq<RmtSymbol>) -> Result<DhtFrame, DhtError> {
    if s.len() == 0 {
        Err(DhtError::NoSymbols)
    } else if forall|i: int| 0 <= i < s.len() ==> !is_response(#[trigger] s[i]) {
        Err(DhtError::NoResponse { captured: s.len() as usize })
    } else {
        decode_after_response(s, choose|i: int| is_first_response(s, i))
    }
}

/// Index of the response symbol: the first symbol whose two halves both
/// exceed `RESPONSE_THRESHOLD_US`.
pub fn find_response_index(symbols: &[RmtSymbol]) -> (r: Option<usize>)
    ensures
        r matches Some(i) ==> is_first_response(symbols@, i as int),
        r is None ==> forall|j: int| 0 <= j < symbols@.len() ==> !is_response(#[trigger] symbols@[j]),
{
    let n = symbols.len();
    let mut i: usize = 0;
    while i < n
        invariant
            n == symbols@.len(),
            i <= n,
            forall|j: int| 0 <= j < i ==> !is_response(#[trigger] symbols@[j]),
        decreases n - i,
    {
        let sym = symbols[i];
        if sym.level0_ticks > RESPONSE_THRESHOLD_US && sym.level1_ticks > RESPONSE_THRESHOLD_US {
            return Some(i);
        }
        i = i + 1;
    }
    None
}

proof fn lemma_bits_value_bound(s: Seq<RmtSymbol>, start: int, k: nat)
    ensures
        bits_value(s, start, k) < vstd::arithmetic::power2::pow2(k),
    decreases k,
{
    if k > 0 {
        lemma_bits_value_bound(s, start, (k - 1) as nat);
        vstd::arithmetic::power2::lemma_pow2_unfold(k);
    } else {
        vstd::arithmetic::power2::lemma2_to64();
    }
}

/// The bit that symbol `i` of `s` carries: 1 when its HIGH half lasts more
/// than 50 µs, else 0.
pub open spec fn high_bit(s: Seq<RmtSymbol>, i: int) -> int {
    if s[i].level1_ticks > 50 {
        1
    } else {
        0
    }
}

/// The byte carried by the eight symbols `s[p..p + 8]`, first symbol the
/// most significant bit.
pub open spec fn byte_at(s: Seq<RmtSymbol>, p: int) -> int {
    128 * high_bit(s, p) + 64 * high_bit(s, p + 1) + 32 * high_bit(s, p + 2) + 16 * high_bit(s, p + 3)
        + 8 * high_bit(s, p + 4) + 4 * high_bit(s, p + 5) + 2 * high_bit(s, p + 6) + high_bit(
        s,
        p + 7,
    )
}

proof fn lemma_bits_value_8(s: Seq<RmtSymbol>, p: int)
    ensures
        bits_value(s, p, 8) == byte_at(s, p),
        0 <= byte_at(s, p) < 256,
{
    reveal_with_fuel(bits_value, 9);
}

/// With `r` the first symbol whose two halves both last more than 60 µs and
/// at least 40 symbols after it, the frame is read from the 40 symbols that
/// immediately follow `r`: byte `j` from `s[r + 1 + 8j .. r + 9 + 8j]`. The
/// four data bytes come out when the fifth is their sum modulo 256, and the
/// checksum mismatch is reported otherwise.
pub proof fn lemma_decode_reads_bits_after_response(s: Seq<RmtSymbol>, r: int)
    requires
        0 <= r,
        r + 1 + 40 <= s.len(),
        s[r].level0_ticks > 60 && s[r].level1_ticks > 60,
        forall|j: int| 0 <= j < r ==> !(s[j].level0_ticks > 60 && #[trigger] s[j].level1_ticks > 60),
    ensures
        ({
            let b0 = byte_at(s, r + 1);
            let b1 = byte_at(s, r + 9);
            let b2 = byte_at(s, r + 17);
            let b3 = byte_at(s, r + 25);
            let b4 = byte_at(s, r + 33);
            let sum = (b0 + b1 + b2 + b3) % 256;
            dht_decode_spec(s) == if b4 == sum {
                Ok::<DhtFrame, DhtError>(
                    DhtFrame {
                        humidity_int: b0 as u8,
                        humidity_dec: b1 as u8,
                        temperature_int: b2 as u8,
                        temperature_dec: b3 as u8,
                    },
                )
            } else {
                Err::<DhtFrame, DhtError>(
                    DhtError::ChecksumMismatch { expected: b4 as u8, actual: sum as u8 },
                )
            }
        }),
{
    assert(is_first_response(s, r)) by {
        assert forall|j: int| 0 <= j < r implies !is_response(#[trigger] s[j]) by {
            assert(!(s[j].level0_ticks > 60 && s[j].level1_ticks > 60));
        }
    }
    assert(!(forall|i: int| 0 <= i < s.len() ==> !is_response(#[trigger] s[i]))) by {
        assert(is_response(s[r]));
    }
    let c = choose|i: int| is_first_response(s, i);
    assert(c == r) by {
        if c < r {
            assert(!is_response(s[c]));
        } else if c > r {
            assert(!is_response(s[r]));
        }
    }
    lemma_bits_value_8(s, r + 1);
    lemma_bits_value_8(s, r + 1 + 8);
    lemma_bits_value_8(s, r + 1 + 16);
    lemma_bits_value_8(s, r + 1 + 24);
    lemma_bits_value_8(s, r + 1 + 32);
}

/// Symbols captured after the 40 bits that follow the response change
/// nothing: decoding the capture with anything appended gives the same result.
pub proof fn lemma_decode_ignores_trailing_symbols(
    s: Seq<RmtSymbol>,
    r: int,
    extra: Seq<RmtSymbol>,
)
    requires
        0 <= r,
        r + 1 + 40 <= s.len(),
        s[r].level0_ticks > 60 && s[r].level1_ticks > 60,
        forall|j: int| 0 <= j < r ==> !(s[j].level0_ticks > 60 && #[trigger] s[j].level1_ticks > 60),
    ensures
        dht_decode_spec(s + extra) == dht_decode_spec(s),
{
    let t = s + extra;
    assert forall|i: int| 0 <= i < s.len() implies #[trigger] t[i] == s[i] by {}
    assert forall|j: int| 0 <= j < r implies !(t[j].level0_ticks > 60 && #[trigger] t[j].level1_ticks
        > 60) by {
        assert(t[j] == s[j]);
        assert(!(s[j].level0_ticks > 60 && s[j].level1_ticks > 60));
    }
    assert(t[r] == s[r]);
    lemma_decode_reads_bits_after_response(s, r);
    lemma_decode_reads_bits_after_response(t, r);
    assert forall|k: int| r + 1 <= k < r + 41 implies high_bit(t, k) == high_bit(s, k) by {
        assert(t[k] == s[k]);
    }
    assert(byte_at(t, r + 1) == byte_at(s, r + 1));
    assert(byte_at(t, r + 9) == byte_at(s, r + 9));
    assert(byte_at(t, r + 17) == byte_at(s, r + 17));
    assert(byte_at(t, r + 25) == byte_at(s, r + 25));
    assert(byte_at(t, r + 33) == byte_at(s, r + 33));
}

/// Reads the byte encoded by the eight symbols starting at `start`.
fn read_byte(symbols: &[RmtSymbol], start: usize) -> (b: u8)
    requires
        start + 8 <= symbols@.len(),
    ensures
        b == bits_value(symbols@, start as int, 8),
{
    let n = symbols.len();
    let mut acc: u32 = 0;
    let mut k: usize = 0;
    while k < 8
        invariant
            n == symbols@.len(),
            start + 8 <= n,
            k <= 8,
            acc == bits_value(symbols@, start as int, k as nat),
        decreases 8 - k,
    {
        proof {
            lemma_bits_value_bound(symbols@, start as int, k as nat);
            vstd::arithmetic::power2::lemma2_to64();
        }
        let bit: u32 = if symbols[start + k].level1_ticks > BIT_THRESHOLD_US {
            1
        } else {
            0
        };
        acc = acc * 2 + bit;
        k = k + 1;
    }
    proof {
        lemma_bits_value_bound(symbols@, start as int, 8);
        vstd::arithmetic::power2::lemma2_to64();
    }
    acc as u8
}

/// Decodes the frame captured after a start signal.
pub fn decode(symbols: &[RmtSymbol]) -> (r: Result<DhtFrame, DhtError>)
    ensures
        r == dht_decode_spec(symbols@),
{
    let n = symbols.len();
    if n == 0 {
        return Err(DhtError::NoSymbols);
    }
    let response_idx = match find_response_index(symbols) {
        Some(i) => i,
        None => {
            return Err(DhtError::NoResponse { captured: n });
        },
    };
    proof {
        let c = choose|i: int| is_first_response(symbols@, i);
        assert(is_first_response(symbols@, response_idx as int));
        assert(c == response_idx as int) by {
            if c < response_idx as int {
                assert(!is_response(symbols@[c]));
            } else if c > response_idx as int {
                assert(!is_response(symbols@[response_idx as int]));
            }
        }
    }
    let bit_start = response_idx + 1;
    if n - bit_start < DHT_FRAME_BITS {
        return Err(DhtError::TooFewBits { have: n - bit_start });
    }
    let b0 = read_byte(symbols, bit_start);
    let b1 = read_byte(symbols, bit_start + 8);
    let b2 = read_byte(symbols, bit_start + 16);
    let b3 = read_byte(symbols, bit_start + 24);
    let b4 = read_byte(symbols, bit_start + 32);
    let actual = ((b0 as u16 + b1 as u16 + b2 as u16 + b3 as u16) % 256) as u8;
    if b4 != actual {
        return Err(DhtError::ChecksumMismatch { expected: b4, actual });
    }
    Ok(
        DhtFrame {
            humidity_int: b0,
            humidity_dec: b1,
            temperature_int: b2,
            temperature_dec: b3,
        },
    )
}

} // verus!
