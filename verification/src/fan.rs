//! Per-tick fan decisions: the keepalive/send policy (policy lives here,
//! not in the protocol modules — by design). Times are milliseconds on the
//! daemon's monotonic clock.

use vstd::prelude::*;

verus! {

/// Whether one slot's readback is off its desired value: by more than 5,
/// or at all when the desired value is 10 or less.
pub open spec fn slot_drifted(d: u8, r: u8) -> bool {
    (if d >= r { d - r } else { r - d }) > 5 || (d <= 10 && r != d)
}

/// The send rule: transmit when any slot drifted, or when the
/// keepalive interval elapsed since the last send (or nothing was sent yet).
pub open spec fn send_due(
    desired: Seq<u8>,
    readback: Seq<u8>,
    last_sent_ms: Option<u64>,
    now_ms: u64,
    keepalive_ms: u64,
) -> bool {
    ||| exists|i: int| 0 <= i < 4 && #[trigger] slot_drifted(desired[i], readback[i])
    ||| match last_sent_ms {
        None => true,
        Some(t) => (if now_ms >= t { now_ms - t } else { 0 }) >= keepalive_ms,
    }
}

/// The send rule: transmit when any slot drifted (|desired − readback| > 5,
/// or desired ≤ 10 and readback differs at all), or when the keepalive interval
/// elapsed. Firmware reverts to hardware default without periodic traffic.
/// Elapsed time saturates at zero when `now_ms` precedes `last_sent_ms`.
pub fn should_send(
    desired: &[u8; 4],
    readback: &[u8; 4],
    last_sent_ms: Option<u64>,
    now_ms: u64,
    keepalive_ms: u64,
) -> (b: bool)
    ensures
        b == send_due(desired@, readback@, last_sent_ms, now_ms, keepalive_ms),
{
    let mut drifted = false;
    let mut i: usize = 0;
    while i < 4
        invariant
            i <= 4,
            drifted == exists|j: int| 0 <= j < i && #[trigger] slot_drifted(desired@[j], readback@[j]),
        decreases 4 - i,
    {
        let d = desired[i];
        let r = readback[i];
        let diff = if d >= r {
            d - r
        } else {
            r - d
        };
        if diff > 5 || (d <= 10 && r != d) {
            assert(slot_drifted(desired@[i as int], readback@[i as int]));
            drifted = true;
        }
        i += 1;
    }
    let keepalive_due = match last_sent_ms {
        None => true,
        Some(t) => now_ms.saturating_sub(t) >= keepalive_ms,
    };
    drifted || keepalive_due
}

} // verus!
