//! Verified core of the Sensor Sensei air-quality network: the LoRa wire
//! format shared by nodes and gateway, the decisions the firmware takes on
//! received data, and the text protocols the gateway and the miner speak.
//!
//! - [`crc`]: CRC-16-CCITT and its single-byte error detection.
//! - [`packet`]: the 14-byte payload, its encoding and decoding.
//! - [`source`]: packet source and sink abstractions, the packet generator.
//! - [`dht`]: decoding of a DHT11 frame captured by the RMT peripheral.
//! - [`api`]: the push requests sent to sensor.community.
//! - [`miner`]: Duino-Coin job protocol and DUCO-S1 nonce search.
//! - [`text`]: whitespace, trimming, splitting, searching, decimal numbers.

pub mod crc;
pub mod packet;
pub mod source;
pub mod dht;
pub mod text;
pub mod miner;
pub mod api;
