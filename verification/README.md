# sensor_sensei

Verified library behind the Sensor Sensei firmwares (LoRa sensor node,
WiFi gateway to sensor.community, Duino-Coin miner on ESP32).

- `src/` — the library, checked by Verus: the 14-byte LoRa payload with its
  CRC-16-CCITT (round trip, canonical encoding, the zero residue of an
  appended CRC and detection of every single-byte corruption are proved), the
  packet generator and radio reception of the gateway, DHT11 frame decoding,
  the sensor.community push requests, and the miner's job protocol (with the
  hexadecimal digest round trip), session decisions, pool lookup and DUCO-S1
  nonce search.
- `tests/` — tests of the library on concrete values.
- `app/` — the three firmwares (`SENSEI_FIRMWARE=gateway|node|miner` at build
  time): WiFi, HTTP, TCP, the SX1276 radio, the sensors, and the display of
  readings as decimal numbers.
