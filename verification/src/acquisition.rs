//! Link acquisition: the devices' GetDev records are the ground truth for
//! the operating channel; GET_MAC is only consulted for the master MAC (it
//! answers on any channel byte). No scanning, no channel picking.

use vstd::prelude::*;
use crate::dongle::{
    get_mac_accepted, get_mac_exchange, get_mac_matches, getdev_exchange, report_parsed_from, Dongle,
    MasterInfo,
};
use crate::consts::{cmd64_spec, USB_CMD_GET_MAC};
use crate::io::{ProtocolError, UsbError, UsbIo, WireStep};
use crate::record::{getdev_accepted, getdev_devices, getdev_record_slots, DeviceRecord, GetDevReport};

verus! {

/// The RF link the daemon drives: the master dongle's MAC and the channel
/// the devices operate on.
#[derive(Debug, Clone, Copy, PartialEq, Eq)]
pub struct Link {
    pub master_mac: [u8; 6],
    pub channel: u8,
}

/// Why acquisition failed (as opposed to "not yet").
#[derive(Debug, Clone, Copy, PartialEq, Eq)]
pub enum AcquireError {
    /// The dongle failed.
    Protocol(ProtocolError),
    /// Devices are visible but neither their records nor GET_MAC name the
    /// master's MAC.
    MasterMacUnknown,
}

/// What a device list says about the link.
#[derive(Debug, Clone, Copy, PartialEq, Eq)]
pub enum LinkVerdict {
    /// No devices, or devices on mixed channels (network mid-transition).
    NotYet,
    /// The devices agree on a channel and name a master.
    Ready(Link),
    /// The devices agree on this channel but carry an all-zero master MAC.
    NeedMasterMac(u8),
}

/// Whether a MAC is all zero.
pub open spec fn mac_is_zero(m: Seq<u8>) -> bool {
    forall|i: int| 0 <= i < m.len() ==> m[i] == 0u8
}

/// Whether `devs` is the device list of GetDev answer `bytes`.
pub open spec fn devices_reported(devs: Seq<DeviceRecord>, bytes: Seq<u8>) -> bool {
    &&& getdev_accepted(bytes, bytes.len() as int)
    &&& getdev_devices(devs, bytes, getdev_record_slots(bytes))
}

/// Whether GET_MAC answer `bytes` is accepted and names MAC `m`.
pub open spec fn names_master(m: Seq<u8>, bytes: Seq<u8>) -> bool {
    &&& get_mac_accepted(bytes, bytes.len() as int)
    &&& m == bytes.subrange(1, 7)
}

/// The verdict on a device list.
pub open spec fn link_verdict(devs: Seq<DeviceRecord>) -> LinkVerdict {
    if devs.len() == 0 {
        LinkVerdict::NotYet
    } else if exists|i: int| 0 <= i < devs.len() && #[trigger] devs[i].channel != devs[0].channel {
        LinkVerdict::NotYet
    } else if !mac_is_zero(devs[0].master_mac@) {
        LinkVerdict::Ready(Link { master_mac: devs[0].master_mac, channel: devs[0].channel })
    } else {
        LinkVerdict::NeedMasterMac(devs[0].channel)
    }
}

/// Decide from a GetDev device list: adopt the channel the first device
/// reports when all agree on it, and the master MAC the first device names.
pub fn link_from_devices(devs: &[DeviceRecord]) -> (v: LinkVerdict)
    ensures
        v == link_verdict(devs@),
{
    if devs.len() == 0 {
        return LinkVerdict::NotYet;
    }
    let channel = devs[0].channel;
    let mut i: usize = 0;
    while i < devs.len()
        invariant
            i <= devs@.len(),
            devs@.len() > 0,
            channel == devs@[0].channel,
            forall|j: int| 0 <= j < i ==> #[trigger] devs@[j].channel == channel,
        decreases devs@.len() - i,
    {
        if devs[i].channel != channel {
            return LinkVerdict::NotYet;
        }
        i += 1;
    }
    let m = devs[0].master_mac;
    if m[0] != 0 || m[1] != 0 || m[2] != 0 || m[3] != 0 || m[4] != 0 || m[5] != 0 {
        LinkVerdict::Ready(Link { master_mac: m, channel })
    } else {
        assert(mac_is_zero(m@));
        LinkVerdict::NeedMasterMac(channel)
    }
}

/// What acquisition makes of the GetDev result `g`, taking the TX trace
/// from `t0` to `t1` and the TX answers from `a0` to `a1`: no answer or no
/// verdict yet is `Ok(None)`; other GetDev errors are returned; a ready
/// verdict is the link; a verdict that lacks the master MAC asks for it
/// with GET_MAC on the reported channel and uses what that exchange gives.
pub open spec fn acquire_outcome(
    g: Result<GetDevReport, ProtocolError>,
    t0: Seq<WireStep>,
    t1: Seq<WireStep>,
    a0: Seq<Result<Seq<u8>, ProtocolError>>,
    a1: Seq<Result<Seq<u8>, ProtocolError>>,
    r: Result<Option<(Link, Vec<DeviceRecord>)>, AcquireError>,
) -> bool {
    match g {
        Err(e) => t1 == t0 && a1 == a0 && if e is NoResponse {
            r == Ok::<Option<(Link, Vec<DeviceRecord>)>, AcquireError>(None)
        } else {
            r == Err::<Option<(Link, Vec<DeviceRecord>)>, AcquireError>(AcquireError::Protocol(e))
        },
        Ok(rep) => match link_verdict(rep.devices@) {
            LinkVerdict::NotYet => t1 == t0 && a1 == a0 && r == Ok::<
                Option<(Link, Vec<DeviceRecord>)>,
                AcquireError,
            >(None),
            LinkVerdict::Ready(l) => t1 == t0 && a1 == a0 && (r matches Ok(Some((link, devs))) && link
                == l && devs@ == rep.devices@),
            LinkVerdict::NeedMasterMac(ch) => exists|m: Result<Option<MasterInfo>, ProtocolError>|
                #[trigger] get_mac_exchange(t0, t1, a0, a1, ch, m) && match m {
                    Ok(Some(info)) => r matches Ok(Some((link, devs))) && link.master_mac == info.mac
                        && link.channel == ch && devs@ == rep.devices@,
                    Ok(None) => r == Err::<Option<(Link, Vec<DeviceRecord>)>, AcquireError>(
                        AcquireError::MasterMacUnknown,
                    ),
                    Err(e) => r == Err::<Option<(Link, Vec<DeviceRecord>)>, AcquireError>(
                        AcquireError::Protocol(e),
                    ),
                },
        },
    }
}

/// Acquire the link: one GetDev poll; adopt the channel the devices report,
/// learn the master MAC (from the records, else GET_MAC on that channel).
/// A GetDev timeout, an empty air, or mixed channels are "not yet"
/// (`Ok(None)`). This function does not sleep; the caller drives retry
/// timing.
pub fn try_acquire<T: UsbIo>(dongle: &mut Dongle<T>) -> (r: Result<
    Option<(Link, Vec<DeviceRecord>)>,
    AcquireError,
>)
    ensures
        !old(dongle).rx_present() ==> r == Err::<Option<(Link, Vec<DeviceRecord>)>, AcquireError>(
            AcquireError::Protocol(ProtocolError::RxUnavailable),
        ),
        r matches Ok(Some((link, devs))) ==> exists|bytes: Seq<u8>| #[trigger] devices_reported(
            devs@,
            bytes,
        ),
        r matches Ok(Some((link, devs))) ==> match link_verdict(devs@) {
            LinkVerdict::Ready(l) => link == l,
            LinkVerdict::NeedMasterMac(ch) => link.channel == ch && exists|bytes: Seq<u8>|
                #[trigger] names_master(link.master_mac@, bytes),
            LinkVerdict::NotYet => false,
        },
        old(dongle).rx_present() ==> exists|g: Result<GetDevReport, ProtocolError>|
            #[trigger] getdev_exchange(
                old(dongle).rx_trace(),
                final(dongle).rx_trace(),
                old(dongle).rx_answers(),
                final(dongle).rx_answers(),
                g,
            ) && acquire_outcome(
                g,
                old(dongle).tx_trace(),
                final(dongle).tx_trace(),
                old(dongle).tx_answers(),
                final(dongle).tx_answers(),
                r,
            ),
        final(dongle).rx_present() == old(dongle).rx_present(),
{
    let ghost d0 = *dongle;
    let got = dongle.get_dev();
    let ghost d1 = *dongle;
    proof {
        if d0.rx_present() {
            assert(getdev_exchange(d0.rx_trace(), d1.rx_trace(), d0.rx_answers(), d1.rx_answers(), got));
        }
    }
    let report = match got {
        Ok(r) => {
            proof {
                let bytes = choose|bytes: Seq<u8>| #[trigger] report_parsed_from(r, bytes);
                assert(devices_reported(r.devices@, bytes));
            }
            r
        },
        Err(ProtocolError::NoResponse { .. }) => return Ok(None),
        Err(e) => return Err(AcquireError::Protocol(e)),
    };
    match link_from_devices(report.devices.as_slice()) {
        LinkVerdict::NotYet => Ok(None),
        LinkVerdict::Ready(link) => {
            assert(link_verdict(report.devices@) == LinkVerdict::Ready(link));
            Ok(Some((link, report.devices)))
        },
        LinkVerdict::NeedMasterMac(channel) => {
            match dongle.get_mac(channel) {
                Ok(Some(info)) => {
                    proof {
                        let bytes = choose|bytes: Seq<u8>|
                            get_mac_accepted(bytes, bytes.len() as int) && #[trigger] get_mac_matches(
                                info,
                                bytes,
                                bytes.len() as int,
                                channel,
                            );
                        assert(names_master(info.mac@, bytes));
                    }
                    let link = Link { master_mac: info.mac, channel };
                    assert(link_verdict(report.devices@) == LinkVerdict::NeedMasterMac(channel));
                    assert(names_master(link.master_mac@, choose|bytes: Seq<u8>| names_master(info.mac@, bytes)));
                    Ok(Some((link, report.devices)))
                },
                Ok(None) => Err(AcquireError::MasterMacUnknown),
                Err(e) => Err(AcquireError::Protocol(e)),
            }
        },
    }
}

/// Law: the cases of acquisition, as `try_acquire` meets them with GetDev
/// result `g`. No answer, an empty air and devices on mixed channels are
/// "not yet"; devices that agree on a channel and name a master give that
/// link without asking anything more; devices that agree on a channel but
/// name no master cost one GET_MAC on that channel, whose valid answer names
/// the master, whose silence or invalid answer is `MasterMacUnknown`, and
/// whose failure is returned.
pub proof fn lemma_acquire_cases(
    g: Result<GetDevReport, ProtocolError>,
    t0: Seq<WireStep>,
    t1: Seq<WireStep>,
    a0: Seq<Result<Seq<u8>, ProtocolError>>,
    a1: Seq<Result<Seq<u8>, ProtocolError>>,
    r: Result<Option<(Link, Vec<DeviceRecord>)>, AcquireError>,
)
    requires
        acquire_outcome(g, t0, t1, a0, a1, r),
    ensures
        match g {
            Err(e) => e is NoResponse ==> r == Ok::<Option<(Link, Vec<DeviceRecord>)>, AcquireError>(None),
            Ok(rep) => {
                let ds = rep.devices@;
                let ch = ds[0].channel;
                let cmd = cmd64_spec(USB_CMD_GET_MAC, ch, 0, 0);
                &&& ds.len() == 0 ==> r == Ok::<Option<(Link, Vec<DeviceRecord>)>, AcquireError>(None)
                &&& (exists|i: int| 0 <= i < ds.len() && #[trigger] ds[i].channel != ds[0].channel) ==> r
                    == Ok::<Option<(Link, Vec<DeviceRecord>)>, AcquireError>(None)
                &&& link_verdict(ds) is Ready ==> (t1 == t0 && (r matches Ok(Some((link, devs)))
                    && link.channel == ch && link.master_mac == ds[0].master_mac && devs@ == ds))
                &&& link_verdict(ds) is NeedMasterMac ==> ({
                    ||| (r matches Err(AcquireError::Protocol(e)) && t1 == t0.push(WireStep::Refused(cmd, e)))
                    ||| (t1 == t0.push(WireStep::Packet(cmd)) && a1.len() == a0.len() + 1 && match a1.last() {
                        Ok(bytes) => if get_mac_accepted(bytes, bytes.len() as int) {
                            r matches Ok(Some((link, devs))) && link.channel == ch && link.master_mac@
                                == bytes.subrange(1, 7) && devs@ == ds
                        } else {
                            r == Err::<Option<(Link, Vec<DeviceRecord>)>, AcquireError>(
                                AcquireError::MasterMacUnknown,
                            )
                        },
                        Err(e) => if e == ProtocolError::Usb(UsbError::Timeout) {
                            r == Err::<Option<(Link, Vec<DeviceRecord>)>, AcquireError>(
                                AcquireError::MasterMacUnknown,
                            )
                        } else {
                            r == Err::<Option<(Link, Vec<DeviceRecord>)>, AcquireError>(
                                AcquireError::Protocol(e),
                            )
                        },
                    })
                })
            },
        },
{
    if let Ok(rep) = g {
        if link_verdict(rep.devices@) is NeedMasterMac {
            let ch = rep.devices@[0].channel;
            let m = choose|m: Result<Option<MasterInfo>, ProtocolError>|
                #[trigger] get_mac_exchange(t0, t1, a0, a1, ch, m) && match m {
                    Ok(Some(info)) => r matches Ok(Some((link, devs))) && link.master_mac == info.mac
                        && link.channel == ch && devs@ == rep.devices@,
                    Ok(None) => r == Err::<Option<(Link, Vec<DeviceRecord>)>, AcquireError>(
                        AcquireError::MasterMacUnknown,
                    ),
                    Err(e) => r == Err::<Option<(Link, Vec<DeviceRecord>)>, AcquireError>(
                        AcquireError::Protocol(e),
                    ),
                };
        }
    }
}

} // verus!
