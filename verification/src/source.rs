//! Where the gateway's packets come from and where the node's packets go.

use vstd::prelude::*;
use crate::packet::{decode_slice_spec, PacketError, SensorPacket, MSG_TYPE_SENSOR_DATA};

verus! {

/// A source of incoming sensor packets (a packet generator or a radio
/// receiver).
pub trait PacketSource {
    /// What a failed reception reports.
    type Error;

    /// Waits for the next packet.
    fn receive(&mut self) -> Result<SensorPacket, Self::Error>;
}

/// A sink for outgoing sensor packets (the radio transmitter).
pub trait PacketSink {
    /// What a failed transmission reports.
    type Error;

    /// Transmits one packet.
    fn send(&mut self, packet: &SensorPacket) -> Result<(), Self::Error>;
}

/// Seconds a packet generator waits between two packets.
pub const MOCK_INTERVAL_SECS: u64 = 10;

/// Generator of plausible sensor packets for running the gateway without a
/// node: every value follows a triangle wave of period 60 packets.
pub struct MockSource {
    node_id: u8,
    cycle: u32,
}

/// Position of packet number `cycle` on the triangle wave: 0 up to 30 and
/// back down to 0 over 60 packets.
pub open spec fn mock_wave(cycle: u32) -> int {
    let phase = (cycle % 60) as int;
    if phase < 30 {
        phase
    } else {
        60 - phase
    }
}

/// PM2.5 of packet number `cycle`, from 12.0 to 25.0 µg/m³ (raw 120..250).
pub open spec fn mock_pm25(cycle: u32) -> u16 {
    (120 + mock_wave(cycle) * 130 / 30) as u16
}

/// Battery voltage of packet number `cycle`: 4200 mV minus the cycle counter
/// taken modulo 2^16, never below 0.
pub open spec fn mock_battery(cycle: u32) -> u16 {
    let c = (cycle % 65536) as int;
    if c <= 4200 {
        (4200 - c) as u16
    } else {
        0
    }
}

/// Packet number `cycle` produced for node `node_id`.
pub open spec fn mock_packet(node_id: u8, cycle: u32) -> SensorPacket {
    SensorPacket {
        msg_type: MSG_TYPE_SENSOR_DATA,
        node_id,
        pm25_raw: mock_pm25(cycle),
        pm10_raw: (mock_pm25(cycle) * 3 / 2 + 20) as u16,
        temp_raw: (2000 + mock_wave(cycle) * 500 / 30) as i16,
        humidity_raw: (4500 + mock_wave(cycle) * 2000 / 30) as u16,
        battery_mv: mock_battery(cycle),
    }
}

impl View for MockSource {
    /// The node id stamped on the packets, and how many packets were produced.
    type V = (u8, u32);

    closed spec fn view(&self) -> (u8, u32) {
        (self.node_id, self.cycle)
    }
}

impl MockSource {
    /// A generator for `node_id` that has produced nothing yet.
    pub fn new(node_id: u8) -> (s: Self)
        ensures
            s@ == (node_id, 0u32),
    {
        MockSource { node_id, cycle: 0 }
    }

    /// How many packets were produced so far.
    pub fn cycle(&self) -> (c: u32)
        ensures
            c == self@.1,
    {
        self.cycle
    }

    /// The next packet, with the pause that must pass before it is handed
    /// out: `MOCK_INTERVAL_SECS` before every packet but the first, so that
    /// consecutive packets are at least that far apart. Advances the cycle
    /// counter.
    pub fn receive(&mut self) -> (d: MockDelivery)
        requires
            old(self)@.1 < u32::MAX,
        ensures
            d.wait_secs == (if old(self)@.1 > 0 {
                MOCK_INTERVAL_SECS
            } else {
                0
            }),
            d.packet == mock_packet(old(self)@.0, old(self)@.1),
            final(self)@ == (old(self)@.0, (old(self)@.1 + 1) as u32),
    {
        let wait_secs = if self.cycle > 0 {
            MOCK_INTERVAL_SECS
        } else {
            0
        };
        let phase = self.cycle % 60;
        let wave: u32 = if phase < 30 {
            phase
        } else {
            60 - phase
        };
        let pm25_raw: u16 = 120 + (wave as u16 * 130 / 30);
        let pm10_raw: u16 = pm25_raw * 3 / 2 + 20;
        let temp_raw: i16 = 2000 + (wave as i16 * 500 / 30);
        let humidity_raw: u16 = 4500 + (wave as u16 * 2000 / 30);
        let low_bits = (self.cycle % 65536) as u16;
        let battery_mv: u16 = if low_bits <= 4200 {
            4200 - low_bits
        } else {
            0
        };
        let packet = SensorPacket {
            msg_type: MSG_TYPE_SENSOR_DATA,
            node_id: self.node_id,
            pm25_raw,
            pm10_raw,
            temp_raw,
            humidity_raw,
            battery_mv,
        };
        self.cycle = self.cycle + 1;
        MockDelivery { wait_secs, packet }
    }
}

/// A generated packet and the pause, in seconds, to take before handing it out.
#[derive(Debug, Clone, Copy, PartialEq, Eq)]
pub struct MockDelivery {
    pub wait_secs: u64,
    pub packet: SensorPacket,
}

/// Why a radio reception gave no packet.
#[derive(Debug, PartialEq, Eq)]
pub enum ReceiveError<E> {
    /// The radio itself failed.
    Radio(E),
    /// The radio delivered a payload that is not a valid packet.
    Packet(PacketError),
}

/// What a radio receiver reports for one reception, given what the radio
/// delivered: its failure, or the received payload decoded (refused unless
/// it has exactly `PACKET_SIZE` bytes, a matching CRC and the sensor-data type).
pub fn receive<E>(radio: Result<&[u8], E>) -> (r: Result<SensorPacket, ReceiveError<E>>)
    ensures
        radio matches Err(e) ==> r == Err::<SensorPacket, ReceiveError<E>>(ReceiveError::Radio(e)),
        radio matches Ok(payload) ==> r == (match decode_slice_spec(payload@) {
            Ok(p) => Ok::<SensorPacket, ReceiveError<E>>(p),
            Err(pe) => Err::<SensorPacket, ReceiveError<E>>(ReceiveError::Packet(pe)),
        }),
{
    match radio {
        Err(e) => Err(ReceiveError::Radio(e)),
        Ok(payload) => match SensorPacket::decode_slice(payload) {
            Ok(p) => Ok(p),
            Err(pe) => Err(ReceiveError::Packet(pe)),
        },
    }
}

/// Every generated packet carries sensor data for the generator's node, and
/// its values stay in the documented ranges: PM2.5 12.0-25.0 µg/m³, PM10
/// 1.5 × PM2.5 + 2.0 µg/m³, temperature 20.00-25.00 °C, humidity 45.00-65.00 %,
/// battery at most 4200 mV.
pub proof fn lemma_mock_packet_ranges(node_id: u8, cycle: u32)
    ensures
        ({
            let p = mock_packet(node_id, cycle);
            &&& p.msg_type == MSG_TYPE_SENSOR_DATA
            &&& p.node_id == node_id
            &&& 120 <= p.pm25_raw <= 250
            &&& p.pm10_raw == p.pm25_raw * 3 / 2 + 20
            &&& 2000 <= p.temp_raw <= 2500
            &&& 4500 <= p.humidity_raw <= 6500
            &&& p.battery_mv <= 4200
        }),
{
    let w = mock_wave(cycle);
    assert(0 <= w <= 30);
    assert(0 <= w * 130 / 30 <= 130) by (nonlinear_arith)
        requires
            0 <= w <= 30,
    ;
    assert(0 <= w * 500 / 30 <= 500) by (nonlinear_arith)
        requires
            0 <= w <= 30,
    ;
    assert(0 <= w * 2000 / 30 <= 2000) by (nonlinear_arith)
        requires
            0 <= w <= 30,
    ;
}

/// Apart from the battery voltage, the generated values repeat every 60
/// packets, reaching their minimum at the start of each period and their
/// maximum half-way.
pub proof fn lemma_mock_packet_period(node_id: u8, cycle: u32)
    requires
        cycle + 60 <= u32::MAX,
    ensures
        ({
            let p = mock_packet(node_id, cycle);
            let q = mock_packet(node_id, (cycle + 60) as u32);
            &&& q.pm25_raw == p.pm25_raw
            &&& q.pm10_raw == p.pm10_raw
            &&& q.temp_raw == p.temp_raw
            &&& q.humidity_raw == p.humidity_raw
        }),
        cycle % 60 == 0 ==> ({
            let p = mock_packet(node_id, cycle);
            p.pm25_raw == 120 && p.temp_raw == 2000 && p.humidity_raw == 4500
        }),
        cycle % 60 == 30 ==> ({
            let p = mock_packet(node_id, cycle);
            p.pm25_raw == 250 && p.temp_raw == 2500 && p.humidity_raw == 6500
        }),
{
    assert(((cycle + 60) as u32) % 60 == cycle % 60);
}

} // verus!
