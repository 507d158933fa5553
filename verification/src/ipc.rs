//! The daemon's IPC vocabulary: protocol version, the status records served
//! to clients and how they are drawn from the supervisor's state, and the
//! client-side error type. (Transport and JSON framing live with the I/O.)

use vstd::prelude::*;
use vstd::string::StringExecFns;
use crate::acquisition::Link;
use crate::device_kind::display_name_of;
use crate::hex::mac_text;
use crate::record::DeviceRecord;
use crate::supervisor::{mac_str, since, AirEntry, BindOp, Bond};

verus! {

/// IPC protocol version carried in every envelope.
pub const IPC_VERSION: u32 = 1;

/// Stable marker prefixing every [`IpcError::Unreachable`] message.
pub const UNREACHABLE_PREFIX: &'static str = "daemon unreachable";

/// The pending bind/unbind op as reported in `status`.
#[derive(Debug, Clone, PartialEq)]
pub struct PendingOpStatus {
    /// "bind" or "unbind".
    pub op: String,
    pub mac: String,
    /// "converging" or "failed".
    pub state: String,
}

/// A device visible on the air (from the air inventory), including both
/// configured (Ours) and unconfigured (Foreign/Unbound) devices.
#[derive(Debug, Clone, PartialEq)]
pub struct AirDeviceStatus {
    pub mac: String,
    pub kind: String,
    /// Bond classification: "Ours", "Foreign", or "Unbound".
    pub bond: String,
    pub channel: u8,
    pub fan_count: u8,
    pub rpm: [u16; 4],
    pub last_seen_s: u64,
}

/// The link as reported in `status`.
#[derive(Debug, Clone, PartialEq)]
pub struct LinkStatus {
    pub master_mac: String,
    pub channel: u8,
}

/// A configured device as reported in `status`.
#[derive(Debug, Clone, PartialEq)]
pub struct DeviceStatus {
    pub mac: String,
    pub kind: String,
    pub channel: u8,
    pub fan_count: u8,
    pub rpm: [u16; 4],
    pub desired_pwm: [u8; 4],
    pub readback_pwm: [u8; 4],
    pub rgb_in_sync: Option<bool>,
    pub dropout_streak: u32,
}

/// Report a pending op: its kind, device and whether it failed.
pub fn pending_op_status(op: &BindOp) -> (s: PendingOpStatus)
    ensures
        s.op@ == if op.unbind {
            "unbind"@
        } else {
            "bind"@
        },
        s.mac@ == mac_text(op.mac@),
        s.state@ == if op.failed_at is Some {
            "failed"@
        } else {
            "converging"@
        },
{
    PendingOpStatus {
        op: if op.unbind {
            String::from_str("unbind")
        } else {
            String::from_str("bind")
        },
        mac: mac_str(&op.mac),
        state: if op.failed_at.is_some() {
            String::from_str("failed")
        } else {
            String::from_str("converging")
        },
    }
}

/// Report the link.
pub fn link_status(link: &Link) -> (s: LinkStatus)
    ensures
        s.master_mac@ == mac_text(link.master_mac@),
        s.channel == link.channel,
{
    LinkStatus { master_mac: mac_str(&link.master_mac), channel: link.channel }
}

/// The name of a bond as reported.
pub open spec fn bond_name(b: Bond) -> Seq<char> {
    match b {
        Bond::Ours => "Ours"@,
        Bond::Foreign => "Foreign"@,
        Bond::Unbound => "Unbound"@,
    }
}

/// Report an air-inventory entry as of `now` (time since last seen in whole
/// seconds).
pub fn air_device_status(e: &AirEntry, now: u64) -> (s: AirDeviceStatus)
    ensures
        s.mac@ == mac_text(e.record.mac@),
        s.kind@ == display_name_of(e.record.kind),
        s.bond@ == bond_name(e.bond),
        s.channel == e.record.channel,
        s.fan_count == e.record.fan_count,
        s.rpm == e.record.fan_rpms,
        s.last_seen_s == since(e.last_seen, now) / 1000,
{
    AirDeviceStatus {
        mac: mac_str(&e.record.mac),
        kind: String::from_str(e.record.kind.display_name()),
        bond: String::from_str(e.bond.as_str()),
        channel: e.record.channel,
        fan_count: e.record.fan_count,
        rpm: e.record.fan_rpms,
        last_seen_s: now.saturating_sub(e.last_seen) / 1000,
    }
}

/// Report a configured device from its runtime state and latest record (if
/// one was seen): without a record the kind is "?" and the readings zero;
/// RGB sync is known only with both an asserted and a reported index.
pub fn device_status(
    mac: &[u8; 6],
    rec: Option<&DeviceRecord>,
    desired: [u8; 4],
    expected_fx: Option<[u8; 4]>,
    dropout_streak: u32,
) -> (s: DeviceStatus)
    ensures
        s.mac@ == mac_text(mac@),
        s.desired_pwm == desired,
        s.dropout_streak == dropout_streak,
        match rec {
            Some(r) => {
                &&& s.kind@ == display_name_of(r.kind)
                &&& s.channel == r.channel
                &&& s.fan_count == r.fan_count
                &&& s.rpm == r.fan_rpms
                &&& s.readback_pwm == r.current_pwm
                &&& s.rgb_in_sync == match expected_fx {
                    Some(x) => Some(x@ == r.effect_index@),
                    None => None::<bool>,
                }
            },
            None => {
                &&& s.kind@ == "?"@
                &&& s.channel == 0
                &&& s.fan_count == 0
                &&& s.rpm@ == seq![0u16, 0u16, 0u16, 0u16]
                &&& s.readback_pwm@ == seq![0u8, 0u8, 0u8, 0u8]
                &&& s.rgb_in_sync is None
            },
        },
{
    match rec {
        Some(r) => {
            let in_sync = match expected_fx {
                Some(x) => Some(!crate::rgb_assert::drifted(&x, &r.effect_index)),
                None => None,
            };
            DeviceStatus {
                mac: mac_str(mac),
                kind: String::from_str(r.kind.display_name()),
                channel: r.channel,
                fan_count: r.fan_count,
                rpm: r.fan_rpms,
                desired_pwm: desired,
                readback_pwm: r.current_pwm,
                rgb_in_sync: in_sync,
                dropout_streak,
            }
        },
        None => {
            let rpm: [u16; 4] = [0, 0, 0, 0];
            let readback: [u8; 4] = [0, 0, 0, 0];
            assert(rpm@ =~= seq![0u16, 0u16, 0u16, 0u16]);
            assert(readback@ =~= seq![0u8, 0u8, 0u8, 0u8]);
            DeviceStatus {
            mac: mac_str(mac),
            kind: String::from_str("?"),
            channel: 0,
            fan_count: 0,
            rpm,
            desired_pwm: desired,
            readback_pwm: readback,
            rgb_in_sync: None,
            dropout_streak,
        }
        },
    }
}

/// Why an IPC request produced no usable result.
#[derive(Debug, Clone, PartialEq)]
pub enum IpcError {
    /// Connect/write/read failed, or the reply line was not valid JSON — the
    /// daemon is down or not speaking the protocol.
    Unreachable(String),
    /// The daemon replied `ok: false`; the payload is its error string,
    /// verbatim.
    Failed(String),
}

impl IpcError {
    /// The error as shown to the user: unreachability carries
    /// [`UNREACHABLE_PREFIX`], a refusal is the daemon's message verbatim.
    pub fn message(&self) -> (m: String)
        ensures
            m@ == match self {
                IpcError::Unreachable(detail) => UNREACHABLE_PREFIX@ + ": "@ + detail@,
                IpcError::Failed(msg) => msg@,
            },
    {
        match self {
            IpcError::Unreachable(detail) => String::from_str(UNREACHABLE_PREFIX).concat(": ").concat(
                detail.as_str(),
            ),
            IpcError::Failed(msg) => msg.clone(),
        }
    }
}

} // verus!
