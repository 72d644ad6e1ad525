//! The 14-byte LoRa payload exchanged by sensor nodes and the gateway.
//!
//! Wire layout (big-endian):
//! ```text
//! 0     msg_type (0x01)
//! 1     node_id
//! 2-3   pm25_raw      u16  (µg/m³ × 10)
//! 4-5   pm10_raw      u16  (µg/m³ × 10)
//! 6-7   temp_raw      i16  (°C × 100)
//! 8-9   humidity_raw  u16  (% × 100)
//! 10-11 battery_mv    u16  (mV)
//! 12-13 crc16_ccitt   u16  (over bytes 0..12)
//! ```

use vstd::prelude::*;
use crate::crc::{
    crc16, crc16_ccitt, crc_byte, lemma_crc16_appended_residue_is_zero,
    lemma_crc16_detects_single_byte_change,
    lemma_crc16_detects_two_adjacent_byte_change, lemma_crc_byte_separates_low_bytes,
};

verus! {

/// Message type of a sensor-data payload.
pub const MSG_TYPE_SENSOR_DATA: u8 = 0x01;

/// Size in bytes of an encoded payload.
pub const PACKET_SIZE: usize = 14;

/// Number of payload bytes covered by the CRC.
pub const CRC_COVERED: usize = 12;

/// Sensor reading exchanged over the LoRa link, with every quantity held as
/// a scaled integer.
#[derive(Debug, Clone, Copy, PartialEq, Eq)]
pub struct SensorPacket {
    pub msg_type: u8,
    pub node_id: u8,
    pub pm25_raw: u16,
    pub pm10_raw: u16,
    pub temp_raw: i16,
    pub humidity_raw: u16,
    pub battery_mv: u16,
}

/// Why a payload was refused.
#[derive(Debug, Clone, Copy, PartialEq, Eq)]
pub enum PacketError {
    /// The CRC stored in bytes 12-13 (`expected`) differs from the CRC of
    /// bytes 0..12 (`actual`).
    CrcMismatch { expected: u16, actual: u16 },
    /// The CRC is right but the message type is not sensor data.
    UnknownMsgType(u8),
    /// A received payload did not have `PACKET_SIZE` bytes.
    WrongLength(usize),
}

/// High byte of the big-endian encoding of `v`.
pub open spec fn hi_byte(v: u16) -> u8 {
    (v / 256) as u8
}

/// Low byte of the big-endian encoding of `v`.
pub open spec fn lo_byte(v: u16) -> u8 {
    (v % 256) as u8
}

/// The `u16` whose big-endian encoding is `[hi, lo]`.
pub open spec fn be_u16(hi: u8, lo: u8) -> u16 {
    (hi as int * 256 + lo as int) as u16
}

/// The two's-complement bit pattern of `v`.
pub open spec fn i16_bits(v: i16) -> u16 {
    v as u16
}

/// The `i16` whose two's-complement bit pattern is `v`.
pub open spec fn i16_from_bits(v: u16) -> i16 {
    v as i16
}

/// Bytes 0..12 of the payload of `p`.
pub open spec fn packet_body(p: SensorPacket) -> Seq<u8> {
    seq![
        p.msg_type,
        p.node_id,
        hi_byte(p.pm25_raw),
        lo_byte(p.pm25_raw),
        hi_byte(p.pm10_raw),
        lo_byte(p.pm10_raw),
        hi_byte(i16_bits(p.temp_raw)),
        lo_byte(i16_bits(p.temp_raw)),
        hi_byte(p.humidity_raw),
        lo_byte(p.humidity_raw),
        hi_byte(p.battery_mv),
        lo_byte(p.battery_mv),
    ]
}

/// The full 14-byte payload of `p`: its body followed by the body's CRC.
pub open spec fn encode_spec(p: SensorPacket) -> Seq<u8> {
    let body = packet_body(p);
    body + seq![hi_byte(crc16(body)), lo_byte(crc16(body))]
}

/// The CRC stored in a payload.
pub open spec fn stored_crc(b: Seq<u8>) -> u16 {
    be_u16(b[12], b[13])
}

/// The CRC computed over the covered bytes of a payload.
pub open spec fn computed_crc(b: Seq<u8>) -> u16 {
    crc16(b.take(12))
}

/// The packet whose fields are read from the payload `b`.
pub open spec fn packet_of(b: Seq<u8>) -> SensorPacket {
    SensorPacket {
        msg_type: b[0],
        node_id: b[1],
        pm25_raw: be_u16(b[2], b[3]),
        pm10_raw: be_u16(b[4], b[5]),
        temp_raw: i16_from_bits(be_u16(b[6], b[7])),
        humidity_raw: be_u16(b[8], b[9]),
        battery_mv: be_u16(b[10], b[11]),
    }
}

/// What decoding the 14-byte payload `b` gives: the CRC is checked first,
/// then the message type.
pub open spec fn decode_spec(b: Seq<u8>) -> Result<SensorPacket, PacketError> {
    if stored_crc(b) != computed_crc(b) {
        Err(PacketError::CrcMismatch { expected: stored_crc(b), actual: computed_crc(b) })
    } else if b[0] != MSG_TYPE_SENSOR_DATA {
        Err(PacketError::UnknownMsgType(b[0]))
    } else {
        Ok(packet_of(b))
    }
}

/// What decoding a received payload of any length gives.
pub open spec fn decode_slice_spec(b: Seq<u8>) -> Result<SensorPacket, PacketError> {
    if b.len() != PACKET_SIZE {
        Err(PacketError::WrongLength(b.len() as usize))
    } else {
        decode_spec(b)
    }
}

fn u16_to_be(v: u16) -> (r: (u8, u8))
    ensures
        r.0 == hi_byte(v),
        r.1 == lo_byte(v),
{
    ((v / 256) as u8, (v % 256) as u8)
}

fn u16_from_be(hi: u8, lo: u8) -> (r: u16)
    ensures
        r == be_u16(hi, lo),
{
    (hi as u16) * 256 + (lo as u16)
}

fn i16_to_bits(v: i16) -> (r: u16)
    ensures
        r == i16_bits(v),
{
    v as u16
}

fn i16_of_bits(v: u16) -> (r: i16)
    ensures
        r == i16_from_bits(v),
{
    v as i16
}

impl SensorPacket {
    /// Serialises the packet into its 14-byte payload, CRC included.
    pub fn encode(&self) -> (buf: [u8; PACKET_SIZE])
        ensures
            buf@ == encode_spec(*self),
    {
        let (pm25_hi, pm25_lo) = u16_to_be(self.pm25_raw);
        let (pm10_hi, pm10_lo) = u16_to_be(self.pm10_raw);
        let (temp_hi, temp_lo) = u16_to_be(i16_to_bits(self.temp_raw));
        let (hum_hi, hum_lo) = u16_to_be(self.humidity_raw);
        let (bat_hi, bat_lo) = u16_to_be(self.battery_mv);
        let body: [u8; CRC_COVERED] = [
            self.msg_type,
            self.node_id,
            pm25_hi,
            pm25_lo,
            pm10_hi,
            pm10_lo,
            temp_hi,
            temp_lo,
            hum_hi,
            hum_lo,
            bat_hi,
            bat_lo,
        ];
        assert(body@ =~= packet_body(*self));
        let crc = crc16_ccitt(&body);
        let (crc_hi, crc_lo) = u16_to_be(crc);
        let buf: [u8; PACKET_SIZE] = [
            body[0],
            body[1],
            body[2],
            body[3],
            body[4],
            body[5],
            body[6],
            body[7],
            body[8],
            body[9],
            body[10],
            body[11],
            crc_hi,
            crc_lo,
        ];
        assert(buf@ =~= encode_spec(*self));
        buf
    }

    /// Parses a 14-byte payload. The CRC is checked before the message type.
    pub fn decode(buf: &[u8; PACKET_SIZE]) -> (r: Result<SensorPacket, PacketError>)
        ensures
            r == decode_spec(buf@),
    {
        let expected_crc = u16_from_be(buf[12], buf[13]);
        let covered: [u8; CRC_COVERED] = [
            buf[0],
            buf[1],
            buf[2],
            buf[3],
            buf[4],
            buf[5],
            buf[6],
            buf[7],
            buf[8],
            buf[9],
            buf[10],
            buf[11],
        ];
        assert(covered@ =~= buf@.take(12));
        let actual_crc = crc16_ccitt(&covered);
        if expected_crc != actual_crc {
            return Err(PacketError::CrcMismatch { expected: expected_crc, actual: actual_crc });
        }
        let msg_type = buf[0];
        if msg_type != MSG_TYPE_SENSOR_DATA {
            return Err(PacketError::UnknownMsgType(msg_type));
        }
        Ok(SensorPacket {
            msg_type,
            node_id: buf[1],
            pm25_raw: u16_from_be(buf[2], buf[3]),
            pm10_raw: u16_from_be(buf[4], buf[5]),
            temp_raw: i16_of_bits(u16_from_be(buf[6], buf[7])),
            humidity_raw: u16_from_be(buf[8], buf[9]),
            battery_mv: u16_from_be(buf[10], buf[11]),
        })
    }

    /// Parses a received payload of any length: anything but `PACKET_SIZE`
    /// bytes is refused before the payload is looked at.
    pub fn decode_slice(payload: &[u8]) -> (r: Result<SensorPacket, PacketError>)
        ensures
            r == decode_slice_spec(payload@),
    {
        if payload.len() != PACKET_SIZE {
            return Err(PacketError::WrongLength(payload.len()));
        }
        let frame: [u8; PACKET_SIZE] = [
            payload[0],
            payload[1],
            payload[2],
            payload[3],
            payload[4],
            payload[5],
            payload[6],
            payload[7],
            payload[8],
            payload[9],
            payload[10],
            payload[11],
            payload[12],
            payload[13],
        ];
        assert(frame@ =~= payload@);
        SensorPacket::decode(&frame)
    }
}

proof fn lemma_be_u16_split(v: u16)
    ensures
        be_u16(hi_byte(v), lo_byte(v)) == v,
{
}

proof fn lemma_be_u16_join(hi: u8, lo: u8)
    ensures
        hi_byte(be_u16(hi, lo)) == hi,
        lo_byte(be_u16(hi, lo)) == lo,
{
}

proof fn lemma_i16_bits_roundtrip(v: i16, w: u16)
    ensures
        i16_from_bits(i16_bits(v)) == v,
        i16_bits(i16_from_bits(w)) == w,
{
    assert((v as u16) as i16 == v) by (bit_vector);
    assert((w as i16) as u16 == w) by (bit_vector);
}

proof fn lemma_i16_word(v: i16, w: u16)
    ensures
        i16_bits(v) as int == if v >= 0 {
            v as int
        } else {
            v + 65536
        },
        i16_from_bits(w) as int == if w < 32768 {
            w as int
        } else {
            w - 65536
        },
{
    assert(v >= 0 ==> (v as u16) as int == v as int) by (bit_vector);
    assert(v < 0 ==> (v as u16) as int == v as int + 65536) by (bit_vector);
    assert(w < 32768 ==> (w as i16) as int == w as int) by (bit_vector);
    assert(w >= 32768 ==> (w as i16) as int == w as int - 65536) by (bit_vector);
}

/// The wire layout of an encoded payload: message type, node id, then each
/// field as two big-endian bytes (the temperature as its two's-complement
/// 16-bit word), then the CRC of bytes 0..12, high byte first.
pub proof fn lemma_encoded_layout(p: SensorPacket)
    ensures
        ({
            let b = encode_spec(p);
            let t: int = if p.temp_raw >= 0 {
                p.temp_raw as int
            } else {
                p.temp_raw + 65536
            };
            &&& b.len() == 14
            &&& b[0] == p.msg_type
            &&& b[1] == p.node_id
            &&& b[2] == p.pm25_raw / 256 && b[3] == p.pm25_raw % 256
            &&& b[4] == p.pm10_raw / 256 && b[5] == p.pm10_raw % 256
            &&& b[6] == t / 256 && b[7] == t % 256
            &&& b[8] == p.humidity_raw / 256 && b[9] == p.humidity_raw % 256
            &&& b[10] == p.battery_mv / 256 && b[11] == p.battery_mv % 256
            &&& b[12] * 256 + b[13] == crc16(b.take(12))
        }),
{
    let b = encode_spec(p);
    lemma_i16_word(p.temp_raw, 0);
    assert(b.take(12) =~= packet_body(p));
    lemma_be_u16_split(crc16(packet_body(p)));
}

/// How a payload is read: it is accepted exactly when bytes 12-13, taken
/// big-endian, are the CRC of bytes 0..12 and byte 0 is the sensor-data
/// type; each field is then the big-endian value of its two bytes (the
/// temperature read as a two's-complement 16-bit word).
pub proof fn lemma_decoded_layout(b: Seq<u8>)
    requires
        b.len() == 14,
    ensures
        decode_spec(b) is Ok <==> (b[12] * 256 + b[13] == crc16(b.take(12)) && b[0] == 1),
        decode_spec(b) matches Ok(p) ==> {
            let w: int = b[6] * 256 + b[7];
            &&& p.msg_type == b[0]
            &&& p.node_id == b[1]
            &&& p.pm25_raw == b[2] * 256 + b[3]
            &&& p.pm10_raw == b[4] * 256 + b[5]
            &&& p.temp_raw == if w < 32768 {
                w
            } else {
                w - 65536
            }
            &&& p.humidity_raw == b[8] * 256 + b[9]
            &&& p.battery_mv == b[10] * 256 + b[11]
        },
{
    lemma_i16_word(0, be_u16(b[6], b[7]));
}

/// An encoded payload is always `PACKET_SIZE` bytes long and its stored CRC
/// matches the CRC of its first twelve bytes.
pub proof fn lemma_encode_has_valid_crc(p: SensorPacket)
    ensures
        encode_spec(p).len() == PACKET_SIZE,
        stored_crc(encode_spec(p)) == computed_crc(encode_spec(p)),
{
    let body = packet_body(p);
    assert(encode_spec(p).take(12) =~= body);
    lemma_be_u16_split(crc16(body));
}

/// The CRC of a whole encoded payload, its own CRC included, is zero.
pub proof fn lemma_encoded_payload_residue_is_zero(p: SensorPacket)
    ensures
        crc16(encode_spec(p)) == 0,
{
    lemma_crc16_appended_residue_is_zero(packet_body(p));
}

/// Decoding an encoded packet gives the packet back when it carries sensor
/// data, and refuses it for its message type otherwise.
pub proof fn lemma_decode_encode(p: SensorPacket)
    ensures
        decode_spec(encode_spec(p)) == (if p.msg_type == MSG_TYPE_SENSOR_DATA {
            Ok::<SensorPacket, PacketError>(p)
        } else {
            Err::<SensorPacket, PacketError>(PacketError::UnknownMsgType(p.msg_type))
        }),
{
    lemma_encode_has_valid_crc(p);
    lemma_be_u16_split(p.pm25_raw);
    lemma_be_u16_split(p.pm10_raw);
    lemma_be_u16_split(i16_bits(p.temp_raw));
    lemma_be_u16_split(p.humidity_raw);
    lemma_be_u16_split(p.battery_mv);
    lemma_i16_bits_roundtrip(p.temp_raw, 0);
    let b = encode_spec(p);
    if p.msg_type == MSG_TYPE_SENSOR_DATA {
        assert(packet_of(b) == p);
    }
}

/// A payload that decodes is exactly the encoding of the packet it decodes
/// to: every accepted payload has a single byte representation.
pub proof fn lemma_encode_decode(b: Seq<u8>)
    requires
        b.len() == PACKET_SIZE,
        decode_spec(b) is Ok,
    ensures
        encode_spec(decode_spec(b)->Ok_0) == b,
{
    let p = packet_of(b);
    lemma_be_u16_join(b[2], b[3]);
    lemma_be_u16_join(b[4], b[5]);
    lemma_be_u16_join(b[8], b[9]);
    lemma_be_u16_join(b[10], b[11]);
    lemma_i16_bits_roundtrip(0, be_u16(b[6], b[7]));
    lemma_be_u16_join(b[6], b[7]);
    lemma_be_u16_join(b[12], b[13]);
    assert(packet_body(p) =~= b.take(12));
    assert(encode_spec(p) =~= b);
}

/// Changing any one byte of a payload whose CRC checks out makes decoding
/// fail with a CRC mismatch: every single-byte corruption is detected.
pub proof fn lemma_decode_detects_single_byte_corruption(b: Seq<u8>, k: int, v: u8)
    requires
        b.len() == PACKET_SIZE,
        stored_crc(b) == computed_crc(b),
        0 <= k < PACKET_SIZE,
        v != b[k],
    ensures
        decode_spec(b.update(k, v)) is Err,
        decode_spec(b.update(k, v)) matches Err(PacketError::CrcMismatch { .. }),
{
    let c = b.update(k, v);
    if k < 12 {
        assert(c.take(12) =~= b.take(12).update(k, v));
        lemma_crc16_detects_single_byte_change(b.take(12), k, v);
        assert(stored_crc(c) == stored_crc(b));
    } else {
        assert(c.take(12) =~= b.take(12));
        lemma_be_u16_join(b[12], b[13]);
        lemma_be_u16_join(c[12], c[13]);
    }
}

/// Every single-byte corruption of an encoded packet is refused by `decode`.
pub proof fn lemma_encoded_packet_corruption_detected(p: SensorPacket, k: int, v: u8)
    requires
        0 <= k < PACKET_SIZE,
        v != encode_spec(p)[k],
    ensures
        decode_spec(encode_spec(p).update(k, v)) matches Err(PacketError::CrcMismatch { .. }),
{
    lemma_encode_has_valid_crc(p);
    lemma_decode_detects_single_byte_corruption(encode_spec(p), k, v);
}

/// Changing any two adjacent bytes of a payload whose CRC checks out (at
/// least one of them for real) makes decoding fail with a CRC mismatch:
/// every corruption confined to two consecutive bytes is detected.
pub proof fn lemma_decode_detects_two_adjacent_byte_corruption(b: Seq<u8>, k: int, v1: u8, v2: u8)
    requires
        b.len() == PACKET_SIZE,
        stored_crc(b) == computed_crc(b),
        0 <= k < PACKET_SIZE - 1,
        v1 != b[k] || v2 != b[k + 1],
    ensures
        decode_spec(b.update(k, v1).update(k + 1, v2)) matches Err(PacketError::CrcMismatch { .. }),
{
    let c = b.update(k, v1).update(k + 1, v2);
    lemma_be_u16_join(b[12], b[13]);
    lemma_be_u16_join(c[12], c[13]);
    if k + 1 < 12 {
        assert(c.take(12) =~= b.take(12).update(k, v1).update(k + 1, v2));
        lemma_crc16_detects_two_adjacent_byte_change(b.take(12), k, v1, v2);
        assert(stored_crc(c) == stored_crc(b));
    } else if k == 12 {
        assert(c.take(12) =~= b.take(12));
    } else if v1 == b[11] {
        assert(c.take(12) =~= b.take(12));
    } else {
        let prefix = b.take(11);
        assert(b.take(12).drop_last() =~= prefix);
        assert(c.take(12).drop_last() =~= prefix);
        assert(computed_crc(b) == crc_byte(crc16(prefix), b[11]));
        assert(computed_crc(c) == crc_byte(crc16(prefix), v1));
        lemma_crc_byte_separates_low_bytes(crc16(prefix), v1, b[11]);
        assert(lo_byte(stored_crc(c)) == c[13]);
        assert(c[13] == b[13]);
        assert(lo_byte(stored_crc(b)) == b[13]);
    }
}

/// Every corruption of an encoded packet confined to two adjacent bytes is
/// refused by `decode`.
pub proof fn lemma_encoded_packet_two_byte_corruption_detected(
    p: SensorPacket,
    k: int,
    v1: u8,
    v2: u8,
)
    requires
        0 <= k < PACKET_SIZE - 1,
        v1 != encode_spec(p)[k] || v2 != encode_spec(p)[k + 1],
    ensures
        decode_spec(encode_spec(p).update(k, v1).update(k + 1, v2)) matches Err(
            PacketError::CrcMismatch { .. },
        ),
{
    lemma_encode_has_valid_crc(p);
    lemma_decode_detects_two_adjacent_byte_corruption(encode_spec(p), k, v1, v2);
}

} // verus!
