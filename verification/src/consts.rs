//! USB and RF protocol constants for the Lian Li wireless dongles.
//! Byte values reverse-engineered from L-Connect 3's lianli.slv3.dll.

use vstd::prelude::*;

verus! {

/// TX dongle VID:PID pairs (V1 Winbond, V2 CH340).
pub const TX_IDS: [(u16, u16); 2] = [(0x0416, 0x8040), (0x1A86, 0xE304)];

/// RX dongle VID:PID pairs (V1 Winbond, V2 CH340).
pub const RX_IDS: [(u16, u16); 2] = [(0x0416, 0x8041), (0x1A86, 0xE305)];

/// USB-level command byte: send an RF frame (first byte of each 64-byte USB packet).
pub const USB_CMD_SEND_RF: u8 = 0x10;

/// USB-level command byte: query the master MAC.
pub const USB_CMD_GET_MAC: u8 = 0x11;

/// RF-frame command byte [0]: select.
pub const RF_SELECT: u8 = 0x12;

/// RF-frame command byte [1]: fan PWM.
pub const RF_PWM_CMD: u8 = 0x10;

/// RF-frame command byte [1]: master-clock heartbeat.
pub const RF_MASTER_CLOCK: u8 = 0x14;

/// RF-frame command byte [1]: RGB upload.
pub const RF_SET_RGB: u8 = 0x20;

/// RF-frame command byte [1]: persist the current bind table to device flash.
pub const RF_SAVE_CONFIG: u8 = 0x15;

/// RF frame geometry: 240-byte frames sent as 4× 60-byte chunks
/// inside 64-byte USB packets.
pub const RF_DATA_SIZE: usize = 240;

/// Payload bytes of one RF frame carried by one USB packet.
pub const RF_CHUNK_SIZE: usize = 60;

/// USB packets per RF frame.
pub const RF_CHUNKS: usize = RF_DATA_SIZE / RF_CHUNK_SIZE;

/// Max compressed-RGB payload bytes per RF data packet
/// (240-byte frame minus the 20-byte RGB packet header).
pub const RGB_CHUNK_LEN: usize = 220;

/// A 64-byte USB command whose first four bytes are `b0..b3` and whose
/// remaining 60 bytes are zero.
pub open spec fn cmd64_spec(b0: u8, b1: u8, b2: u8, b3: u8) -> Seq<u8> {
    Seq::new(
        64,
        |i: int|
            if i == 0 {
                b0
            } else if i == 1 {
                b1
            } else if i == 2 {
                b2
            } else if i == 3 {
                b3
            } else {
                0u8
            },
    )
}

/// Build a 64-byte USB command from its four leading bytes.
pub fn cmd64(b0: u8, b1: u8, b2: u8, b3: u8) -> (c: [u8; 64])
    ensures
        c@ == cmd64_spec(b0, b1, b2, b3),
{
    let mut c = [0u8; 64];
    c[0] = b0;
    c[1] = b1;
    c[2] = b2;
    c[3] = b3;
    assert(c@ =~= cmd64_spec(b0, b1, b2, b3));
    c
}

/// TX reset — re-syncs the RF network; sent before polling.
pub fn cmd_reset() -> (c: [u8; 64])
    ensures
        c@ == cmd64_spec(0x11, 0x08, 0x00, 0x00),
{
    cmd64(0x11, 0x08, 0x00, 0x00)
}

/// GetDev poll (sent to RX): USB_CMD_SEND_RF + page 0x01.
pub fn cmd_get_dev() -> (c: [u8; 64])
    ensures
        c@ == cmd64_spec(USB_CMD_SEND_RF, 0x01, 0x00, 0x00),
{
    cmd64(USB_CMD_SEND_RF, 0x01, 0x00, 0x00)
}

} // verus!
