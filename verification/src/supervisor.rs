//! The supervisor's decisions: bond classification, the air inventory,
//! per-tick fan and RGB choices, the step schedule with its RF-silence
//! window, and the bind/unbind state machine. The control loop itself (which
//! performs the I/O these decisions call for) runs outside the library.
//!
//! Times are milliseconds on the daemon's monotonic clock; an elapsed time
//! whose end precedes its start counts as zero.

use vstd::prelude::*;
use crate::acquisition::Link;
use crate::config::StaticColor;
use crate::dongle::{lemma_spaced_stop, rf_steps, spaced, spaced_head, Dongle};
use crate::fan::{send_due, should_send};
use crate::frames::{
    apply_pwm_constraints, constrained_slot, master_clock_frame, master_clock_frame_spec, pwm_frame,
    pwm_frame_spec,
};
use crate::hex::{mac_text, mac_to_string, parsed_mac};
use vstd::string::StringExecFns;
use crate::io::{lemma_stopped_extends, stopped_at, ProtocolError, UsbIo, WireStep};
use crate::observation::{
    dropout_threshold, streak_after, surge_step, DropoutFilter, Surge, SurgePhase, SurgeTracker,
};
use crate::record::{total_leds_of, DeviceRecord};
use crate::rgb_assert::{scaled_channel, static_frame};

verus! {

/// Transport reconnect attempts at most this often.
pub const RECONNECT_INTERVAL_MS: u64 = 10_000;

/// Air-inventory entries unseen this long are forgotten.
pub const AIR_EXPIRY_MS: u64 = 30_000;

/// Master-clock heartbeat period.
pub const HEARTBEAT_INTERVAL_MS: u64 = 1_000;

/// An RGB re-upload to one device at most this often (also after a failure).
pub const RGB_REUPLOAD_COOLDOWN_MS: u64 = 5_000;

/// After a successful RGB upload or a converged bind/unbind the supervisor
/// holds RF traffic (GetDev polls, PWM keepalives, heartbeat) this long so
/// the firmware's flash commit is not disturbed.
pub const RGB_SETTLE_MS: u64 = 3_000;

/// Surge notifications at most this often.
pub const SURGE_NOTIFY_COOLDOWN_MS: u64 = 60_000;

/// PWM frames per send while the master is reverted (readback all zero,
/// commanded nonzero) — repetition beats the RF noise that caused it.
pub const REVERT_BURST_REPEATS: u8 = 4;

/// Gap between the frames of a revert burst.
pub const REVERT_BURST_GAP_MS: u64 = 25;

/// A sensor unreadable this long (or never read) puts its curve on failsafe.
pub const SENSOR_FAILSAFE_AFTER_MS: u64 = 60_000;

/// A bind/unbind op re-bursts (once) or fails when this passes without
/// convergence.
pub const BIND_DEADLINE_MS: u64 = 5_000;

/// A failed bind/unbind op is forgotten after this long.
pub const BIND_FAIL_CLEAR_MS: u64 = 30_000;

/// Milliseconds from `then` to `now`, zero when `now` is earlier.
pub open spec fn since(then: u64, now: u64) -> int {
    if now >= then {
        now - then
    } else {
        0
    }
}

/// Whether something last done at `last` (never, if None) is due again.
pub open spec fn is_due(last: Option<u64>, now: u64, interval_ms: u64) -> bool {
    match last {
        None => true,
        Some(t) => since(t, now) >= interval_ms,
    }
}

/// Whether something last done at `last` is due again at `now`.
pub fn due(last: Option<u64>, now: u64, interval_ms: u64) -> (b: bool)
    ensures
        b == is_due(last, now, interval_ms),
{
    match last {
        None => true,
        Some(t) => now.saturating_sub(t) >= interval_ms,
    }
}

/// Bond classification for a device seen on the air.
#[derive(Debug, Clone, Copy, PartialEq, Eq, Structural)]
pub enum Bond {
    /// Bound to our master (master_mac == link.master_mac).
    Ours,
    /// Bound to a different master (nonzero master_mac != ours).
    Foreign,
    /// Not bound to any master (master_mac == [0;6]).
    Unbound,
}

impl Bond {
    pub fn as_str(&self) -> (s: &'static str)
        ensures
            s@ == match *self {
                Bond::Ours => "Ours"@,
                Bond::Foreign => "Foreign"@,
                Bond::Unbound => "Unbound"@,
            },
    {
        match self {
            Bond::Ours => "Ours",
            Bond::Foreign => "Foreign",
            Bond::Unbound => "Unbound",
        }
    }
}

/// Whether two MACs are equal.
pub fn mac_eq(a: &[u8; 6], b: &[u8; 6]) -> (r: bool)
    ensures
        r == (a@ == b@),
{
    let r = a[0] == b[0] && a[1] == b[1] && a[2] == b[2] && a[3] == b[3] && a[4] == b[4] && a[5]
        == b[5];
    if r {
        assert(a@ =~= b@);
    }
    r
}

/// The bond of a device whose record names master `master`, given our
/// master's MAC (unknown before the link is acquired).
pub open spec fn bond_of(master: Seq<u8>, ours: Option<Seq<u8>>) -> Bond {
    if master == seq![0u8, 0u8, 0u8, 0u8, 0u8, 0u8] {
        Bond::Unbound
    } else if ours == Some(master) {
        Bond::Ours
    } else {
        Bond::Foreign
    }
}

/// Classify a device record's bond based on our current master MAC.
/// Without a link (`our_master == None`) an all-zero master is Unbound and
/// any other is Foreign (our MAC is not known yet).
pub fn classify_bond(rec: &DeviceRecord, our_master: Option<&[u8; 6]>) -> (b: Bond)
    ensures
        b == bond_of(
            rec.master_mac@,
            match our_master {
                Some(m) => Some(m@),
                None => None,
            },
        ),
{
    let zero = [0u8; 6];
    if mac_eq(&rec.master_mac, &zero) {
        assert(zero@ =~= seq![0u8, 0u8, 0u8, 0u8, 0u8, 0u8]);
        return Bond::Unbound;
    }
    assert(zero@ =~= seq![0u8, 0u8, 0u8, 0u8, 0u8, 0u8]);
    match our_master {
        Some(m) => {
            if mac_eq(&rec.master_mac, m) {
                Bond::Ours
            } else {
                Bond::Foreign
            }
        },
        None => Bond::Foreign,
    }
}

/// A MAC as "aa:bb:cc:dd:ee:ff" (lowercase hex).
pub fn mac_str(mac: &[u8; 6]) -> (s: String)
    ensures
        s@ == mac_text(mac@),
{
    mac_to_string(mac)
}

/// An entry in the air inventory: a device recently seen via GetDev.
#[derive(Debug, Clone, Copy)]
pub struct AirEntry {
    pub record: DeviceRecord,
    pub last_seen: u64,
    pub bond: Bond,
}

/// Whether no MAC occurs twice among the entries.
pub open spec fn macs_unique(s: Seq<AirEntry>) -> bool {
    forall|i: int, j: int|
        0 <= i < j < s.len() ==> #[trigger] s[i].record.mac@ != #[trigger] s[j].record.mac@
}

/// The inventory after a sighting `e`: the entry of `e`'s MAC replaced in
/// place, or `e` appended for a new MAC.
pub open spec fn upserted(s: Seq<AirEntry>, e: AirEntry) -> Seq<AirEntry> {
    if exists|i: int| 0 <= i < s.len() && #[trigger] s[i].record.mac@ == e.record.mac@ {
        s.update(choose|i: int| 0 <= i < s.len() && #[trigger] s[i].record.mac@ == e.record.mac@, e)
    } else {
        s.push(e)
    }
}

/// Whether an entry was seen less than the expiry ago.
pub open spec fn fresh(e: AirEntry, now: u64) -> bool {
    since(e.last_seen, now) < AIR_EXPIRY_MS
}

/// Every device seen on the air, one entry per MAC, oldest sighting first.
pub struct AirInventory {
    entries: Vec<AirEntry>,
}

impl AirInventory {
    /// The entries, in the order their MACs were first seen.
    pub closed spec fn view(&self) -> Seq<AirEntry> {
        self.entries@
    }

    /// The inventory's invariant: one entry per MAC.
    pub open spec fn wf(&self) -> bool {
        macs_unique(self@)
    }

    /// An empty inventory.
    pub fn new() -> (a: AirInventory)
        ensures
            a.wf(),
            a@.len() == 0,
    {
        AirInventory { entries: Vec::new() }
    }

    /// Number of devices in the inventory.
    pub fn len(&self) -> (n: usize)
        ensures
            n == self@.len(),
    {
        self.entries.len()
    }

    /// Entry `i` (in first-seen order).
    pub fn entry(&self, i: usize) -> (e: &AirEntry)
        requires
            i < self@.len(),
        ensures
            *e == self@[i as int],
    {
        &self.entries[i]
    }

    /// The position of `mac`'s entry, if any.
    pub fn position(&self, mac: &[u8; 6]) -> (r: Option<usize>)
        requires
            self.wf(),
        ensures
            r matches Some(i) ==> i < self@.len() && self@[i as int].record.mac@ == mac@,
            r is None ==> forall|i: int| 0 <= i < self@.len() ==> #[trigger] self@[i].record.mac@ != mac@,
    {
        let mut i: usize = 0;
        while i < self.entries.len()
            invariant
                i <= self@.len(),
                self@ == self.entries@,
                forall|k: int| 0 <= k < i ==> #[trigger] self@[k].record.mac@ != mac@,
            decreases self@.len() - i,
        {
            if mac_eq(&self.entries[i].record.mac, mac) {
                return Some(i);
            }
            i += 1;
        }
        None
    }

    /// The entry of `mac`, if it was seen.
    pub fn get(&self, mac: &[u8; 6]) -> (r: Option<&AirEntry>)
        requires
            self.wf(),
        ensures
            r matches Some(e) ==> exists|i: int|
                0 <= i < self@.len() && self@[i] == *e && #[trigger] self@[i].record.mac@ == mac@,
            r is None ==> forall|i: int| 0 <= i < self@.len() ==> #[trigger] self@[i].record.mac@ != mac@,
    {
        match self.position(mac) {
            Some(i) => Some(&self.entries[i]),
            None => None,
        }
    }

    /// Record a sighting: replace the record, time and bond of the device's
    /// entry, or add an entry for a new device.
    pub fn upsert(&mut self, record: DeviceRecord, now: u64, bond: Bond)
        requires
            old(self).wf(),
        ensures
            final(self).wf(),
            final(self)@ == upserted(old(self)@, AirEntry { record, last_seen: now, bond }),
    {
        let entry = AirEntry { record, last_seen: now, bond };
        match self.position(&record.mac) {
            Some(i) => {
                let ghost before = self@;
                self.entries.set(i, entry);
                assert(self@ == before.update(i as int, entry));
                assert forall|a: int, b: int| 0 <= a < b < self@.len() implies #[trigger] self@[a].record.mac@
                    != #[trigger] self@[b].record.mac@ by {
                    if a == i as int {
                        assert(before[b].record.mac@ != before[a].record.mac@);
                    } else if b == i as int {
                        assert(before[a].record.mac@ != before[b].record.mac@);
                    }
                }
                proof {
                    let c = choose|c: int|
                        0 <= c < before.len() && #[trigger] before[c].record.mac@ == record.mac@;
                    if c != i as int {
                        if c < i {
                            assert(before[c].record.mac@ != before[i as int].record.mac@);
                        } else {
                            assert(before[i as int].record.mac@ != before[c].record.mac@);
                        }
                    }
                }
            },
            None => {
                self.entries.push(entry);
            },
        }
    }

    /// Forget entries unseen for the expiry period (30 s) as of `now`.
    pub fn prune(&mut self, now: u64)
        requires
            old(self).wf(),
        ensures
            final(self).wf(),
            final(self)@ == old(self)@.filter(|e: AirEntry| fresh(e, now)),
    {
        let ghost keep = |e: AirEntry| fresh(e, now);
        let mut kept: Vec<AirEntry> = Vec::new();
        let mut i: usize = 0;
        while i < self.entries.len()
            invariant
                i <= self@.len(),
                macs_unique(self@),
                kept@ == self@.take(i as int).filter(keep),
                keep == (|e: AirEntry| fresh(e, now)),
            decreases self@.len() - i,
        {
            let e = self.entries[i];
            proof {
                assert(self@.take(i + 1).drop_last() =~= self@.take(i as int));
                reveal(Seq::filter);
            }
            if now.saturating_sub(e.last_seen) < AIR_EXPIRY_MS {
                kept.push(e);
            }
            i += 1;
        }
        assert(self@.take(self@.len() as int) =~= self@);
        proof {
            lemma_filter_keeps_unique(self@, keep);
        }
        self.entries = kept;
    }
}

/// Every entry kept by a filter is an entry of the sequence.
proof fn lemma_filter_members(s: Seq<AirEntry>, keep: spec_fn(AirEntry) -> bool)
    ensures
        forall|k: int|
            0 <= k < s.filter(keep).len() ==> exists|j: int|
                0 <= j < s.len() && s[j] == #[trigger] s.filter(keep)[k],
    decreases s.len(),
{
    reveal(Seq::filter);
    if s.len() > 0 {
        let t = s.drop_last();
        lemma_filter_members(t, keep);
        let f = s.filter(keep);
        assert forall|k: int| 0 <= k < f.len() implies exists|j: int|
            0 <= j < s.len() && s[j] == #[trigger] f[k] by {
            if keep(s.last()) && k == f.len() - 1 {
                assert(s[s.len() - 1] == f[k]);
            } else {
                assert(f[k] == t.filter(keep)[k]);
                let j = choose|j: int| 0 <= j < t.len() && t[j] == t.filter(keep)[k];
                assert(s[j] == t[j]);
            }
        }
    }
}

/// Keeping some entries keeps the MACs unique.
proof fn lemma_filter_keeps_unique(s: Seq<AirEntry>, keep: spec_fn(AirEntry) -> bool)
    requires
        macs_unique(s),
    ensures
        macs_unique(s.filter(keep)),
    decreases s.len(),
{
    reveal(Seq::filter);
    if s.len() > 0 {
        let t = s.drop_last();
        assert(macs_unique(t));
        lemma_filter_keeps_unique(t, keep);
        if keep(s.last()) {
            let f = t.filter(keep);
            lemma_filter_members(t, keep);
            assert forall|k: int| 0 <= k < f.len() implies #[trigger] f[k].record.mac@
                != s.last().record.mac@ by {
                let j = choose|j: int| 0 <= j < t.len() && t[j] == f[k];
                assert(s[j] == t[j]);
                assert(s[j].record.mac@ != s[s.len() - 1].record.mac@);
            }
            let g = s.filter(keep);
            assert(g == f.push(s.last()));
            assert forall|a: int, b: int| 0 <= a < b < g.len() implies #[trigger] g[a].record.mac@
                != #[trigger] g[b].record.mac@ by {
                if b == g.len() - 1 {
                    assert(g[a] == f[a]);
                } else {
                    assert(g[a] == f[a] && g[b] == f[b]);
                }
            }
        }
    }
}

/// The last record in `rs` with MAC `m`, if any.
pub open spec fn last_sighting(rs: Seq<DeviceRecord>, m: Seq<u8>) -> Option<DeviceRecord>
    decreases rs.len(),
{
    if rs.len() == 0 {
        None
    } else if rs.last().mac@ == m {
        Some(rs.last())
    } else {
        last_sighting(rs.drop_last(), m)
    }
}

/// The air entry one poll leaves for MAC `m`: its last sighting in `records`
/// (stamped `now`, with the bond its master gives), else what `before` had.
pub open spec fn ingested_entry(
    before: Seq<AirEntry>,
    records: Seq<DeviceRecord>,
    ours: Option<Seq<u8>>,
    now: u64,
    m: Seq<u8>,
) -> Option<AirEntry> {
    match last_sighting(records, m) {
        Some(rec) => Some(AirEntry { record: rec, last_seen: now, bond: bond_of(rec.master_mac@, ours) }),
        None => air_lookup(before, m),
    }
}

/// Fold one GetDev poll into the air inventory: every record is a sighting
/// at `now`, with the bond its master gives against `our_master`. After the
/// poll each reported MAC holds its last record in the poll, and every
/// other MAC's entry is unchanged.
pub fn ingest_poll(
    air: &mut AirInventory,
    records: &[DeviceRecord],
    our_master: Option<&[u8; 6]>,
    now: u64,
)
    requires
        old(air).wf(),
    ensures
        final(air).wf(),
        forall|m: Seq<u8>|
            #[trigger] air_lookup(final(air)@, m) == ingested_entry(
                old(air)@,
                records@,
                match our_master {
                    Some(o) => Some(o@),
                    None => None,
                },
                now,
                m,
            ),
{
    let ghost ours = match our_master {
        Some(o) => Some(o@),
        None => None::<Seq<u8>>,
    };
    let mut i: usize = 0;
    while i < records.len()
        invariant
            i <= records@.len(),
            air.wf(),
            ours == match our_master {
                Some(o) => Some(o@),
                None => None::<Seq<u8>>,
            },
            forall|m: Seq<u8>|
                #[trigger] air_lookup(air@, m) == ingested_entry(
                    old(air)@,
                    records@.take(i as int),
                    ours,
                    now,
                    m,
                ),
        decreases records@.len() - i,
    {
        let rec = records[i];
        let bond = classify_bond(&rec, our_master);
        let ghost before = air@;
        air.upsert(rec, now, bond);
        proof {
            let e = AirEntry { record: rec, last_seen: now, bond };
            let rs = records@.take(i + 1);
            assert(rs.drop_last() =~= records@.take(i as int));
            assert(rs.last() == rec);
            assert forall|m: Seq<u8>|
                #[trigger] air_lookup(air@, m) == ingested_entry(old(air)@, rs, ours, now, m) by {
                lemma_upsert_then_lookup(before, e, m);
            }
        }
        i += 1;
    }
    assert(records@.take(records@.len() as int) =~= records@);
}

/// Law: after a sighting the inventory holds exactly that sighting for the
/// device's MAC, every other device's entry is unchanged, and no MAC occurs
/// twice.
pub proof fn lemma_upsert_then_lookup(s: Seq<AirEntry>, e: AirEntry, m: Seq<u8>)
    requires
        macs_unique(s),
    ensures
        macs_unique(upserted(s, e)),
        air_lookup(upserted(s, e), e.record.mac@) == Some(e),
        m != e.record.mac@ ==> air_lookup(upserted(s, e), m) == air_lookup(s, m),
{
    let t = upserted(s, e);
    if exists|i: int| 0 <= i < s.len() && #[trigger] s[i].record.mac@ == e.record.mac@ {
        let k = choose|i: int| 0 <= i < s.len() && #[trigger] s[i].record.mac@ == e.record.mac@;
        assert(t == s.update(k, e));
        assert forall|a: int, b: int| 0 <= a < b < t.len() implies #[trigger] t[a].record.mac@
            != #[trigger] t[b].record.mac@ by {
            if a == k {
                assert(s[b].record.mac@ != s[a].record.mac@);
            } else if b == k {
                assert(s[a].record.mac@ != s[b].record.mac@);
            }
        }
        assert(t[k].record.mac@ == e.record.mac@);
        let c = choose|c: int| 0 <= c < t.len() && #[trigger] t[c].record.mac@ == e.record.mac@;
        if c != k {
            if c < k {
                assert(t[c].record.mac@ != t[k].record.mac@);
            } else {
                assert(t[k].record.mac@ != t[c].record.mac@);
            }
        }
        if m != e.record.mac@ {
            if exists|i: int| 0 <= i < s.len() && #[trigger] s[i].record.mac@ == m {
                let j = choose|i: int| 0 <= i < s.len() && #[trigger] s[i].record.mac@ == m;
                assert(t[j].record.mac@ == m);
                let cj = choose|i: int| 0 <= i < t.len() && #[trigger] t[i].record.mac@ == m;
                if cj != j {
                    if cj < j {
                        assert(t[cj].record.mac@ != t[j].record.mac@);
                    } else {
                        assert(t[j].record.mac@ != t[cj].record.mac@);
                    }
                }
            } else {
                assert forall|i: int| 0 <= i < t.len() implies #[trigger] t[i].record.mac@ != m by {
                    if i != k {
                        assert(t[i] == s[i]);
                    }
                }
            }
        }
    } else {
        assert(t == s.push(e));
        assert forall|a: int, b: int| 0 <= a < b < t.len() implies #[trigger] t[a].record.mac@
            != #[trigger] t[b].record.mac@ by {
            if b == s.len() {
                assert(t[a] == s[a]);
            }
        }
        assert(t[s.len() as int].record.mac@ == e.record.mac@);
        let c = choose|c: int| 0 <= c < t.len() && #[trigger] t[c].record.mac@ == e.record.mac@;
        if c < s.len() {
            assert(t[c] == s[c]);
        }
        if m != e.record.mac@ {
            if exists|i: int| 0 <= i < s.len() && #[trigger] s[i].record.mac@ == m {
                let j = choose|i: int| 0 <= i < s.len() && #[trigger] s[i].record.mac@ == m;
                assert(t[j] == s[j]);
                let cj = choose|i: int| 0 <= i < t.len() && #[trigger] t[i].record.mac@ == m;
                if cj != j {
                    if cj < j {
                        assert(t[cj] == s[cj]);
                        assert(s[cj].record.mac@ != s[j].record.mac@);
                    } else if cj < s.len() {
                        assert(t[cj] == s[cj]);
                        assert(s[j].record.mac@ != s[cj].record.mac@);
                    }
                }
            } else {
                assert forall|i: int| 0 <= i < t.len() implies #[trigger] t[i].record.mac@ != m by {
                    if i < s.len() {
                        assert(t[i] == s[i]);
                    }
                }
            }
        }
    }
}

/// Law: pruning keeps exactly the entries seen less than 30 s ago, in order.
pub proof fn lemma_prune_keeps_fresh(s: Seq<AirEntry>, now: u64, e: AirEntry)
    ensures
        s.filter(|x: AirEntry| fresh(x, now)).contains(e) <==> s.contains(e) && fresh(e, now),
{
    let p = |x: AirEntry| fresh(x, now);
    #[allow(deprecated)]
    s.filter_lemma(p);
    if s.filter(p).contains(e) {
        lemma_filter_members(s, p);
        let k = choose|k: int| 0 <= k < s.filter(p).len() && s.filter(p)[k] == e;
        let j = choose|j: int| 0 <= j < s.len() && s[j] == #[trigger] s.filter(p)[k];
        assert(s[j] == e);
    }
    if s.contains(e) && fresh(e, now) {
        let j = choose|j: int| 0 <= j < s.len() && s[j] == e;
        assert(p(s[j]));
    }
}

// ---------------------------------------------------------------------------
// Per-record observations
// ---------------------------------------------------------------------------

/// Number of fan slots a record speaks for (fan_count, at most 4).
pub open spec fn slots_of(fan_count: u8) -> int {
    if fan_count < 4 {
        fan_count as int
    } else {
        4
    }
}

/// Whether any of the device's fans is commanded to a nonzero PWM.
pub open spec fn is_commanded(desired: Seq<u8>, fan_count: u8) -> bool {
    exists|i: int| 0 <= i < slots_of(fan_count) && #[trigger] desired[i] > 0
}

/// Whether the device has fans and every fan's readback PWM is zero.
pub open spec fn is_readback_zero(current: Seq<u8>, fan_count: u8) -> bool {
    fan_count > 0 && forall|i: int| 0 <= i < slots_of(fan_count) ==> #[trigger] current[i] == 0
}

/// Whether any of the first `fan_count` (at most 4) PWM values is nonzero.
pub fn commanded(desired: &[u8; 4], fan_count: u8) -> (b: bool)
    ensures
        b == is_commanded(desired@, fan_count),
{
    let n: usize = if fan_count < 4 {
        fan_count as usize
    } else {
        4
    };
    let mut i: usize = 0;
    while i < n
        invariant
            i <= n,
            n == slots_of(fan_count),
            forall|k: int| 0 <= k < i ==> #[trigger] desired@[k] == 0,
        decreases n - i,
    {
        if desired[i] > 0 {
            return true;
        }
        i += 1;
    }
    false
}

/// Whether a device with fans reads back zero PWM on every fan.
pub fn readback_zero(current: &[u8; 4], fan_count: u8) -> (b: bool)
    ensures
        b == is_readback_zero(current@, fan_count),
{
    if fan_count == 0 {
        return false;
    }
    let n: usize = if fan_count < 4 {
        fan_count as usize
    } else {
        4
    };
    let mut i: usize = 0;
    while i < n
        invariant
            i <= n,
            n == slots_of(fan_count),
            forall|k: int| 0 <= k < i ==> #[trigger] current@[k] == 0,
        decreases n - i,
    {
        if current[i] != 0 {
            return false;
        }
        i += 1;
    }
    true
}

/// The highest of the first `n` RPM values; 0 when there are none.
pub open spec fn rpm_max(rpms: Seq<u16>, n: int) -> u16
    decreases n,
{
    if n <= 0 {
        0
    } else {
        let m = rpm_max(rpms, n - 1);
        if rpms[n - 1] > m {
            rpms[n - 1]
        } else {
            m
        }
    }
}

/// The highest RPM among the first `fan_count` (at most 4) fans; 0 with no
/// fans.
pub fn max_rpm(rpms: &[u16; 4], fan_count: u8) -> (m: u16)
    ensures
        m == rpm_max(rpms@, slots_of(fan_count)),
        forall|i: int| 0 <= i < slots_of(fan_count) ==> #[trigger] rpms@[i] <= m,
        m == 0 || exists|i: int| 0 <= i < slots_of(fan_count) && #[trigger] rpms@[i] == m,
{
    let n: usize = if fan_count < 4 {
        fan_count as usize
    } else {
        4
    };
    let mut m: u16 = 0;
    let mut i: usize = 0;
    while i < n
        invariant
            i <= n,
            n == slots_of(fan_count),
            forall|k: int| 0 <= k < i ==> #[trigger] rpms@[k] <= m,
            m == 0 || exists|k: int| 0 <= k < i && #[trigger] rpms@[k] == m,
            m == rpm_max(rpms@, i as int),
        decreases n - i,
    {
        if rpms[i] > m {
            m = rpms[i];
        }
        i += 1;
    }
    m
}

/// The distance between two PWM values.
pub open spec fn pwm_gap(a: u8, b: u8) -> int {
    if a >= b {
        a - b
    } else {
        b - a
    }
}

/// Whether PWM command `b` differs from `a` by more than 10 on some slot.
pub open spec fn pwm_material(a: Seq<u8>, b: Seq<u8>) -> bool {
    exists|i: int| 0 <= i < 4 && #[trigger] pwm_gap(a[i], b[i]) > 10
}

/// Whether a new PWM command differs materially (by more than 10 on some
/// slot) from the previous one — RPM movement is then legitimate and any
/// surge episode in flight is aborted.
pub fn material_change(old_pwm: &[u8; 4], new_pwm: &[u8; 4]) -> (b: bool)
    ensures
        b == pwm_material(old_pwm@, new_pwm@),
{
    let mut i: usize = 0;
    while i < 4
        invariant
            i <= 4,
            forall|k: int| 0 <= k < i ==> #[trigger] pwm_gap(old_pwm@[k], new_pwm@[k]) <= 10,
        decreases 4 - i,
    {
        let a = old_pwm[i];
        let b = new_pwm[i];
        let d = if a >= b {
            a - b
        } else {
            b - a
        };
        if d > 10 {
            assert(pwm_gap(old_pwm@[i as int], new_pwm@[i as int]) > 10);
            return true;
        }
        i += 1;
    }
    false
}

/// PWM frames per send: a burst while the master has reverted (commanded
/// nonzero, every readback zero), else one.
pub open spec fn pwm_repeats_of(pwm: Seq<u8>, current: Seq<u8>, fan_count: u8) -> u8 {
    if is_commanded(pwm, fan_count) && (forall|i: int|
        0 <= i < slots_of(fan_count) ==> #[trigger] current[i] == 0) {
        REVERT_BURST_REPEATS
    } else {
        1
    }
}

/// How many times to send a PWM frame to a device in state `rec`.
pub fn pwm_repeats(pwm: &[u8; 4], rec: &DeviceRecord) -> (n: u8)
    ensures
        n == pwm_repeats_of(pwm@, rec.current_pwm@, rec.fan_count),
        n == 1 || n == REVERT_BURST_REPEATS,
        n > 1 ==> forall|i: int|
            0 <= i < (if rec.fan_count < 4 { rec.fan_count as int } else { 4 }) ==> #[trigger] rec.current_pwm@[i] == 0,
{
    let reverted = commanded(pwm, rec.fan_count) && (rec.fan_count == 0 || readback_zero(
        &rec.current_pwm,
        rec.fan_count,
    ));
    if reverted {
        REVERT_BURST_REPEATS
    } else {
        1
    }
}

/// rf[16] for PWM commands: the 1-based position of `mac` among the records
/// of our master's devices (record order), 1 when absent; kept to a byte.
pub open spec fn ours_of(records: Seq<DeviceRecord>, ours: Seq<u8>) -> Seq<DeviceRecord> {
    records.filter(|r: DeviceRecord| r.master_mac@ == ours && r.device_type != 0xFF)
}

/// The 1-based seq index of `mac` among `rs`, wrapped to a byte; 1 when absent.
pub open spec fn seq_index_in(rs: Seq<DeviceRecord>, mac: Seq<u8>) -> u8
    decreases rs.len(),
{
    if exists|i: int| 0 <= i < rs.len() && #[trigger] rs[i].mac@ == mac {
        let i = choose|i: int|
            0 <= i < rs.len() && #[trigger] rs[i].mac@ == mac && forall|j: int|
                0 <= j < i ==> #[trigger] rs[j].mac@ != mac;
        ((i + 1) % 256) as u8
    } else {
        1
    }
}

/// The PWM seq index of device `mac` in a GetDev report, as seen by master
/// `ours`: position among our devices (records of our master other than the
/// master's own) counting from 1; 1 when the device is not among them.
pub fn seq_index(records: &[DeviceRecord], ours: &[u8; 6], mac: &[u8; 6]) -> (n: u8)
    ensures
        n == seq_index_in(ours_of(records@, ours@), mac@),
{
    let ghost pred = |r: DeviceRecord| r.master_mac@ == ours@ && r.device_type != 0xFF;
    let mut pos: usize = 0;
    let mut i: usize = 0;
    while i < records.len()
        invariant
            i <= records@.len(),
            pred == (|r: DeviceRecord| r.master_mac@ == ours@ && r.device_type != 0xFF),
            pos == records@.take(i as int).filter(pred).len(),
            forall|k: int|
                0 <= k < records@.take(i as int).filter(pred).len() ==> #[trigger] records@.take(
                    i as int,
                ).filter(pred)[k].mac@ != mac@,
        decreases records@.len() - i,
    {
        let r = records[i];
        let ghost t = records@.take(i as int);
        proof {
            assert(records@.take(i + 1).drop_last() =~= t);
            reveal(Seq::filter);
        }
        if mac_eq(&r.master_mac, ours) && r.device_type != 0xFF {
            if mac_eq(&r.mac, mac) {
                proof {
                    let f = records@.take(i + 1).filter(pred);
                    assert(f == t.filter(pred).push(r));
                    lemma_filter_prefix(records@, pred, i + 1);
                    let all = ours_of(records@, ours@);
                    assert(all == records@.filter(pred));
                    assert(all.take(f.len() as int) == f);
                    assert(f[pos as int] == r);
                    assert(all.take(f.len() as int)[pos as int] == all[pos as int]);
                    assert(all[pos as int] == r);
                    assert forall|j: int| 0 <= j < pos implies #[trigger] all[j].mac@ != mac@ by {
                        assert(all[j] == f[j]);
                        assert(f[j] == t.filter(pred)[j]);
                    }
                    assert(all[pos as int].mac@ == mac@);
                    let c = choose|c: int|
                        0 <= c < all.len() && #[trigger] all[c].mac@ == mac@ && forall|j: int|
                            0 <= j < c ==> #[trigger] all[j].mac@ != mac@;
                    if c < pos {
                        assert(all[c].mac@ != mac@);
                    } else if c > pos {
                        assert(all[pos as int].mac@ != mac@);
                    }
                }
                return ((pos + 1) % 256) as u8;
            }
            proof {
                let f = records@.take(i + 1).filter(pred);
                assert(f == t.filter(pred).push(r));
            }
            pos += 1;
        } else {
            proof {
                assert(records@.take(i + 1).filter(pred) == t.filter(pred));
            }
        }
        i += 1;
    }
    proof {
        assert(records@.take(records@.len() as int) =~= records@);
        let all = ours_of(records@, ours@);
        assert(all == records@.filter(pred));
    }
    1
}

/// A filter of a prefix is a prefix of the filter.
proof fn lemma_filter_prefix(s: Seq<DeviceRecord>, p: spec_fn(DeviceRecord) -> bool, n: int)
    requires
        0 <= n <= s.len(),
    ensures
        s.take(n).filter(p).len() <= s.filter(p).len(),
        s.filter(p).take(s.take(n).filter(p).len() as int) == s.take(n).filter(p),
    decreases s.len() - n,
{
    reveal(Seq::filter);
    if n < s.len() {
        lemma_filter_prefix(s, p, n + 1);
        assert(s.take(n + 1).drop_last() =~= s.take(n));
        let a = s.take(n).filter(p);
        let b = s.take(n + 1).filter(p);
        let all = s.filter(p);
        if p(s[n]) {
            assert(b == a.push(s[n]));
            assert(all.take(a.len() as int) =~= b.take(a.len() as int));
            assert(b.take(a.len() as int) =~= a);
        } else {
            assert(b == a);
        }
    } else {
        assert(s.take(n) =~= s);
        assert(s.filter(p).take(s.filter(p).len() as int) =~= s.filter(p));
    }
}

// ---------------------------------------------------------------------------
// RF sends
// ---------------------------------------------------------------------------

/// Send one RF frame `repeats` times with the revert-burst gap (25 ms)
/// between sends (none after the last).
pub fn send_repeated<T: UsbIo>(
    dongle: &mut Dongle<T>,
    rf: &[u8; 240],
    channel: u8,
    rx_type: u8,
    repeats: u8,
) -> (r: Result<(), ProtocolError>)
    requires
        repeats >= 1,
    ensures
        r is Ok ==> final(dongle).tx_trace() == old(dongle).tx_trace() + spaced(
            rf_steps(rf@, channel, rx_type),
            repeats as nat,
            REVERT_BURST_GAP_MS,
        ),
        r matches Err(e) ==> stopped_at(
            spaced(rf_steps(rf@, channel, rx_type), repeats as nat, REVERT_BURST_GAP_MS),
            old(dongle).tx_trace(),
            final(dongle).tx_trace(),
            e,
        ),
        old(dongle).tx_trace().is_prefix_of(final(dongle).tx_trace()),
        final(dongle).rx_present() == old(dongle).rx_present(),
        final(dongle).rx_trace() == old(dongle).rx_trace(),
{
    let ghost start = dongle.tx_trace();
    let ghost p = rf_steps(rf@, channel, rx_type);
    if let Err(e) = dongle.send_rf_frame(rf, channel, rx_type) {
        proof {
            assert(start + spaced_head(p, 0, REVERT_BURST_GAP_MS) =~= start);
            lemma_spaced_stop(p, 0, repeats as nat, REVERT_BURST_GAP_MS, start, dongle.tx_trace(), e);
            lemma_stopped_extends(
                spaced(p, repeats as nat, REVERT_BURST_GAP_MS),
                start,
                dongle.tx_trace(),
                e,
            );
        }
        return Err(e);
    }
    let mut i: u8 = 1;
    while i < repeats
        invariant
            1 <= i <= repeats,
            p == rf_steps(rf@, channel, rx_type),
            dongle.tx_trace() == start + spaced(p, i as nat, REVERT_BURST_GAP_MS),
            dongle.rx_present() == old(dongle).rx_present(),
            dongle.rx_trace() == old(dongle).rx_trace(),
            start == old(dongle).tx_trace(),
        decreases repeats - i,
    {
        dongle.pause_ms(REVERT_BURST_GAP_MS);
        assert(dongle.tx_trace() =~= start + spaced(p, i as nat, REVERT_BURST_GAP_MS) + seq![
            WireStep::Pause(REVERT_BURST_GAP_MS),
        ]);
        if let Err(e) = dongle.send_rf_frame(rf, channel, rx_type) {
            proof {
                assert(start + spaced_head(p, i as nat, REVERT_BURST_GAP_MS) =~= start + spaced(
                    p,
                    i as nat,
                    REVERT_BURST_GAP_MS,
                ) + seq![WireStep::Pause(REVERT_BURST_GAP_MS)]);
                lemma_spaced_stop(p, i as nat, repeats as nat, REVERT_BURST_GAP_MS, start, dongle.tx_trace(), e);
                lemma_stopped_extends(
                    spaced(p, repeats as nat, REVERT_BURST_GAP_MS),
                    start,
                    dongle.tx_trace(),
                    e,
                );
            }
            return Err(e);
        }
        proof {
            assert(start + spaced(p, i as nat, REVERT_BURST_GAP_MS) + seq![
                WireStep::Pause(REVERT_BURST_GAP_MS),
            ] + p =~= start + spaced(p, (i + 1) as nat, REVERT_BURST_GAP_MS));
        }
        i += 1;
    }
    Ok(())
}

/// The PWM command frame for a device on our link.
pub open spec fn fan_frame(
    mac: Seq<u8>,
    link: Link,
    rec: DeviceRecord,
    seq_index: u8,
    pwm: Seq<u8>,
) -> Seq<u8> {
    pwm_frame_spec(mac, link.master_mac@, rec.rx_type, link.channel, seq_index, pwm)
}

/// Command a device's fans: its PWM frame (addressed to the device's
/// current channel and RX type), repeated as a burst while the master has
/// reverted.
pub fn send_fan_command<T: UsbIo>(
    dongle: &mut Dongle<T>,
    mac: &[u8; 6],
    link: &Link,
    rec: &DeviceRecord,
    seq_index: u8,
    pwm: &[u8; 4],
) -> (r: Result<(), ProtocolError>)
    ensures
        r is Ok ==> final(dongle).tx_trace() == old(dongle).tx_trace() + spaced(
            rf_steps(fan_frame(mac@, *link, *rec, seq_index, pwm@), rec.channel, rec.rx_type),
            pwm_repeats_of(pwm@, rec.current_pwm@, rec.fan_count) as nat,
            REVERT_BURST_GAP_MS,
        ),
        r matches Err(e) ==> stopped_at(
            spaced(
                rf_steps(fan_frame(mac@, *link, *rec, seq_index, pwm@), rec.channel, rec.rx_type),
                pwm_repeats_of(pwm@, rec.current_pwm@, rec.fan_count) as nat,
                REVERT_BURST_GAP_MS,
            ),
            old(dongle).tx_trace(),
            final(dongle).tx_trace(),
            e,
        ),
        old(dongle).tx_trace().is_prefix_of(final(dongle).tx_trace()),
        final(dongle).rx_present() == old(dongle).rx_present(),
        final(dongle).rx_trace() == old(dongle).rx_trace(),
{
    let rf = pwm_frame(mac, &link.master_mac, rec.rx_type, link.channel, seq_index, pwm);
    let repeats = pwm_repeats(pwm, rec);
    send_repeated(dongle, &rf, rec.channel, rec.rx_type, repeats)
}

// ---------------------------------------------------------------------------
// Per-device runtime
// ---------------------------------------------------------------------------

/// What the daemon keeps between polls for one configured device.
#[derive(Debug)]
pub struct DeviceRuntime {
    pub mac: [u8; 6],
    /// PWM last commanded, per slot.
    pub desired: [u8; 4],
    /// When a PWM command last went out.
    pub last_sent: Option<u64>,
    pub filter: DropoutFilter,
    pub surge: SurgeTracker,
    /// rf[16] of this device's PWM frames.
    pub seq_index: u8,
    /// The device's latest GetDev record.
    pub last_record: Option<DeviceRecord>,
    /// Effect index of the last RGB upload (what the record should echo).
    pub expected_fx: Option<[u8; 4]>,
    /// When an RGB upload was last tried.
    pub last_rgb_upload: Option<u64>,
}

impl DeviceRuntime {
    /// A device nothing has been sent to or heard from yet.
    pub fn new(mac: [u8; 6]) -> (d: DeviceRuntime)
        ensures
            d.mac == mac,
            d.desired@ == seq![0u8, 0u8, 0u8, 0u8],
            d.last_sent is None,
            d.filter.spec_streak() == 0,
            d.surge.spec_phase() == SurgePhase::Idle,
            d.surge.spec_baseline() == 0,
            d.seq_index == 1,
            d.last_record is None,
            d.expected_fx is None,
            d.last_rgb_upload is None,
    {
        let d = DeviceRuntime {
            mac,
            desired: [0; 4],
            last_sent: None,
            filter: DropoutFilter::default(),
            surge: SurgeTracker::default(),
            seq_index: 1,
            last_record: None,
            expected_fx: None,
            last_rgb_upload: None,
        };
        assert(d.desired@ =~= seq![0u8, 0u8, 0u8, 0u8]);
        d
    }
}

/// What one poll record told about a configured device.
#[derive(Debug, Clone, Copy, PartialEq, Eq, Structural)]
pub struct PollObservation {
    /// The poll is a dropout observation (report it to reliability).
    pub dropout: bool,
    /// A surge episode judged on this poll.
    pub surge: Option<Surge>,
}

/// Fold one GetDev record of a configured device into its runtime: its
/// seq index among our devices (when we hold a link to `our_master`), the
/// dropout filter and the surge watchdog (the poll is in a window when some
/// active slot is commanded nonzero and every active slot reads back 0),
/// and the record itself.
pub fn observe_poll(
    dev: &mut DeviceRuntime,
    rec: &DeviceRecord,
    records: &[DeviceRecord],
    our_master: Option<&[u8; 6]>,
    threshold: u32,
) -> (r: PollObservation)
    ensures
        final(dev).seq_index == match our_master {
            Some(m) => seq_index_in(ours_of(records@, m@), rec.mac@),
            None => old(dev).seq_index,
        },
        ({
            let in_window = is_commanded(old(dev).desired@, rec.fan_count) && is_readback_zero(
                rec.current_pwm@,
                rec.fan_count,
            );
            let (p, b, v) = surge_step(
                old(dev).surge.spec_phase(),
                old(dev).surge.spec_baseline(),
                in_window,
                rpm_max(rec.fan_rpms@, slots_of(rec.fan_count)),
            );
            &&& final(dev).filter.spec_streak() == streak_after(old(dev).filter.spec_streak(), in_window)
            &&& r.dropout == (in_window && final(dev).filter.spec_streak() >= dropout_threshold(threshold))
            &&& final(dev).surge.spec_phase() == p
            &&& final(dev).surge.spec_baseline() == b
            &&& r.surge == v
        }),
        final(dev).last_record == Some(*rec),
        final(dev).mac == old(dev).mac,
        final(dev).desired == old(dev).desired,
        final(dev).last_sent == old(dev).last_sent,
        final(dev).expected_fx == old(dev).expected_fx,
        final(dev).last_rgb_upload == old(dev).last_rgb_upload,
{
    if let Some(ours) = our_master {
        dev.seq_index = seq_index(records, ours, &rec.mac);
    }
    let cmd = commanded(&dev.desired, rec.fan_count);
    let zero = readback_zero(&rec.current_pwm, rec.fan_count);
    let dropout = dev.filter.observe(cmd, zero, threshold);
    let surge = dev.surge.observe(cmd, zero, max_rpm(&rec.fan_rpms, rec.fan_count));
    dev.last_record = Some(*rec);
    PollObservation { dropout, surge }
}

/// Fold a fan tick's PWM targets for one device into its runtime and send
/// them when due. The targets are clamped to the hardware's constraints and
/// become the desired PWM; a material change restarts the surge watchdog;
/// the command goes out (as [`send_fan_command`] sends it) when
/// [`send_due`] says so for the record's readback and the last send.
/// Returns whether a command went out.
pub fn fan_command_step<T: UsbIo>(
    dongle: &mut Dongle<T>,
    dev: &mut DeviceRuntime,
    link: &Link,
    rec: &DeviceRecord,
    targets: [u8; 4],
    now: u64,
    keepalive_ms: u64,
) -> (r: Result<bool, ProtocolError>)
    ensures
        forall|i: int|
            0 <= i < 4 ==> #[trigger] final(dev).desired@[i] == constrained_slot(
                i,
                targets@[i],
                rec.kind,
                rec.fan_count,
            ),
        pwm_material(old(dev).desired@, final(dev).desired@) ==> final(dev).surge.spec_phase()
            == SurgePhase::Idle,
        !pwm_material(old(dev).desired@, final(dev).desired@) ==> final(dev).surge.spec_phase()
            == old(dev).surge.spec_phase(),
        final(dev).surge.spec_baseline() == old(dev).surge.spec_baseline(),
        !send_due(final(dev).desired@, rec.current_pwm@, old(dev).last_sent, now, keepalive_ms) ==> (r
            == Ok::<bool, ProtocolError>(false) && final(dongle).tx_trace() == old(dongle).tx_trace()
            && final(dev).last_sent == old(dev).last_sent),
        send_due(final(dev).desired@, rec.current_pwm@, old(dev).last_sent, now, keepalive_ms) && r is Ok
            ==> (r == Ok::<bool, ProtocolError>(true) && final(dev).last_sent == Some(now)
            && final(dongle).tx_trace() == old(dongle).tx_trace() + spaced(
            rf_steps(
                fan_frame(old(dev).mac@, *link, *rec, old(dev).seq_index, final(dev).desired@),
                rec.channel,
                rec.rx_type,
            ),
            pwm_repeats_of(final(dev).desired@, rec.current_pwm@, rec.fan_count) as nat,
            REVERT_BURST_GAP_MS,
        )),
        r is Err ==> final(dev).last_sent == old(dev).last_sent,
        r matches Err(e) ==> send_due(final(dev).desired@, rec.current_pwm@, old(dev).last_sent, now, keepalive_ms)
            && stopped_at(
            spaced(
                rf_steps(
                    fan_frame(old(dev).mac@, *link, *rec, old(dev).seq_index, final(dev).desired@),
                    rec.channel,
                    rec.rx_type,
                ),
                pwm_repeats_of(final(dev).desired@, rec.current_pwm@, rec.fan_count) as nat,
                REVERT_BURST_GAP_MS,
            ),
            old(dongle).tx_trace(),
            final(dongle).tx_trace(),
            e,
        ),
        old(dongle).tx_trace().is_prefix_of(final(dongle).tx_trace()),
        final(dev).mac == old(dev).mac,
        final(dev).seq_index == old(dev).seq_index,
        final(dev).filter == old(dev).filter,
        final(dev).last_record == old(dev).last_record,
        final(dev).expected_fx == old(dev).expected_fx,
        final(dev).last_rgb_upload == old(dev).last_rgb_upload,
        final(dongle).rx_present() == old(dongle).rx_present(),
        final(dongle).rx_trace() == old(dongle).rx_trace(),
{
    let mut pwm = targets;
    apply_pwm_constraints(&mut pwm, rec.kind, rec.fan_count);
    if material_change(&dev.desired, &pwm) {
        dev.surge.reset();
    }
    dev.desired = pwm;
    if !should_send(&pwm, &rec.current_pwm, dev.last_sent, now, keepalive_ms) {
        return Ok(false);
    }
    send_fan_command(dongle, &dev.mac, link, rec, dev.seq_index, &pwm)?;
    dev.last_sent = Some(now);
    Ok(true)
}

/// Send the master-clock heartbeat on the link's channel (RX type 0xFF).
pub fn send_heartbeat<T: UsbIo>(dongle: &mut Dongle<T>, link: &Link) -> (r: Result<(), ProtocolError>)
    ensures
        r is Ok ==> final(dongle).tx_trace() == old(dongle).tx_trace() + rf_steps(
            master_clock_frame_spec(link.master_mac@),
            link.channel,
            0xFF,
        ),
        r matches Err(e) ==> stopped_at(
            rf_steps(master_clock_frame_spec(link.master_mac@), link.channel, 0xFF),
            old(dongle).tx_trace(),
            final(dongle).tx_trace(),
            e,
        ),
        final(dongle).rx_present() == old(dongle).rx_present(),
        final(dongle).rx_trace() == old(dongle).rx_trace(),
{
    let rf = master_clock_frame(&link.master_mac);
    dongle.send_rf_frame(&rf, link.channel, 0xFF)
}

// ---------------------------------------------------------------------------
// RGB assertion
// ---------------------------------------------------------------------------

/// Whether a device's lighting needs (re-)uploading now: never asserted this
/// session, or its effect index drifted — and the re-upload cooldown passed.
pub open spec fn rgb_due(
    expected_fx: Option<[u8; 4]>,
    reported: Seq<u8>,
    last_upload: Option<u64>,
    now: u64,
) -> bool {
    &&& match expected_fx {
        None => true,
        Some(e) => e@ != reported,
    }
    &&& is_due(last_upload, now, RGB_REUPLOAD_COOLDOWN_MS)
}

/// Whether to upload a device's lighting at `now`.
pub fn rgb_upload_due(
    expected_fx: Option<[u8; 4]>,
    reported: &[u8; 4],
    last_upload: Option<u64>,
    now: u64,
) -> (b: bool)
    ensures
        b == rgb_due(expected_fx, reported@, last_upload, now),
        b ==> (last_upload matches Some(t) ==> now as int >= t as int + RGB_REUPLOAD_COOLDOWN_MS),
        expected_fx matches Some(e) && e@ == reported@ ==> !b,
{
    let needs = match expected_fx {
        None => true,
        Some(e) => crate::rgb_assert::drifted(&e, reported),
    };
    needs && due(last_upload, now, RGB_REUPLOAD_COOLDOWN_MS)
}

/// The upload for a static color: one full-device frame, 5000 ms interval.
pub fn static_payload(rec: &DeviceRecord, color: &StaticColor) -> (p: (Vec<Vec<[u8; 3]>>, u16))
    ensures
        p.0@.len() == 1,
        p.0@[0]@.len() == total_leds_of(rec.kind, rec.fan_count),
        forall|i: int|
            0 <= i < p.0@[0]@.len() ==> #[trigger] p.0@[0]@[i]@ == seq![
                scaled_channel(color.rgb[0], color.brightness),
                scaled_channel(color.rgb[1], color.brightness),
                scaled_channel(color.rgb[2], color.brightness),
            ],
        p.1 == 5000,
{
    let frame = static_frame(rec, color);
    let mut frames: Vec<Vec<[u8; 3]>> = Vec::new();
    frames.push(frame);
    (frames, 5000)
}

// ---------------------------------------------------------------------------
// Step schedule and the RF-silence window
// ---------------------------------------------------------------------------

/// When each periodic duty last ran, and the end of the RF-silence window.
#[derive(Debug, Clone, Copy, PartialEq, Eq, Structural)]
pub struct Schedule {
    pub last_poll: Option<u64>,
    pub last_fan_tick: Option<u64>,
    pub last_heartbeat: Option<u64>,
    /// Set after a successful RGB upload or bind/unbind; GetDev polls, fan
    /// ticks and heartbeats are held until this instant passes.
    pub rf_settle_until: Option<u64>,
}

/// Which duties a step performs.
#[derive(Debug, Clone, Copy, PartialEq, Eq, Structural)]
pub struct StepPlan {
    pub poll: bool,
    pub fan_tick: bool,
    pub heartbeat: bool,
}

/// The settle window as of `now`: closed once its end has come.
pub open spec fn settle_at(until: Option<u64>, now: u64) -> Option<u64> {
    match until {
        Some(u) => if now >= u {
            None
        } else {
            Some(u)
        },
        None => None,
    }
}

/// The step plan for schedule `s` at `now`: outside the settle window every
/// due duty runs; inside it only a poll, and only while a bind/unbind op is
/// pending (its convergence needs fresh records).
pub open spec fn plan_of(s: Schedule, now: u64, poll_ms: u64, tick_ms: u64, pending_op: bool) -> StepPlan {
    if settle_at(s.rf_settle_until, now) is None {
        StepPlan {
            poll: is_due(s.last_poll, now, poll_ms),
            fan_tick: is_due(s.last_fan_tick, now, tick_ms),
            heartbeat: is_due(s.last_heartbeat, now, HEARTBEAT_INTERVAL_MS),
        }
    } else {
        StepPlan { poll: pending_op && is_due(s.last_poll, now, poll_ms), fan_tick: false, heartbeat: false }
    }
}

/// The schedule after planning: the settle window closed when over, and
/// each duty that runs stamped with `now`.
pub open spec fn scheduled(s: Schedule, now: u64, plan: StepPlan) -> Schedule {
    Schedule {
        last_poll: if plan.poll {
            Some(now)
        } else {
            s.last_poll
        },
        last_fan_tick: if plan.fan_tick {
            Some(now)
        } else {
            s.last_fan_tick
        },
        last_heartbeat: if plan.heartbeat {
            Some(now)
        } else {
            s.last_heartbeat
        },
        rf_settle_until: settle_at(s.rf_settle_until, now),
    }
}

impl Schedule {
    /// Nothing has run yet and no window is open.
    pub fn new() -> (s: Schedule)
        ensures
            s == (Schedule {
                last_poll: None,
                last_fan_tick: None,
                last_heartbeat: None,
                rf_settle_until: None,
            }),
    {
        Schedule { last_poll: None, last_fan_tick: None, last_heartbeat: None, rf_settle_until: None }
    }

    /// Whether the RF-silence window is open.
    pub fn settling(&self) -> (b: bool)
        ensures
            b == self.rf_settle_until is Some,
    {
        self.rf_settle_until.is_some()
    }

    /// Open the RF-silence window for RGB_SETTLE_MS from `now`.
    pub fn begin_settle(&mut self, now: u64)
        requires
            now <= u64::MAX - RGB_SETTLE_MS,
        ensures
            *final(self) == (Schedule { rf_settle_until: Some((now + RGB_SETTLE_MS) as u64), ..*old(self) }),
    {
        self.rf_settle_until = Some(now + RGB_SETTLE_MS);
    }

    /// Decide this step's duties and stamp the ones that run. Stamps of
    /// duties held by the settle window are left alone, so they fire as soon
    /// as it closes.
    pub fn plan(&mut self, now: u64, poll_ms: u64, tick_ms: u64, pending_op: bool) -> (p: StepPlan)
        ensures
            p == plan_of(*old(self), now, poll_ms, tick_ms, pending_op),
            *final(self) == scheduled(*old(self), now, p),
    {
        if let Some(u) = self.rf_settle_until {
            if now >= u {
                self.rf_settle_until = None;
            }
        }
        let mut p = StepPlan { poll: false, fan_tick: false, heartbeat: false };
        if self.rf_settle_until.is_none() {
            if due(self.last_poll, now, poll_ms) {
                self.last_poll = Some(now);
                p.poll = true;
            }
            if due(self.last_fan_tick, now, tick_ms) {
                self.last_fan_tick = Some(now);
                p.fan_tick = true;
            }
            if due(self.last_heartbeat, now, HEARTBEAT_INTERVAL_MS) {
                self.last_heartbeat = Some(now);
                p.heartbeat = true;
            }
        } else if pending_op && due(self.last_poll, now, poll_ms) {
            self.last_poll = Some(now);
            p.poll = true;
        }
        p
    }

    /// Whether a step that polled may upload RGB: never while the window is
    /// open (it may have opened during this step).
    pub fn rgb_allowed(&self, polled: bool) -> (b: bool)
        ensures
            b == (polled && self.rf_settle_until is None),
    {
        polled && self.rf_settle_until.is_none()
    }
}

/// Law: while the RF-silence window is open no PWM keepalive and no
/// heartbeat goes out, and a GetDev poll only while a bind/unbind op waits
/// for convergence.
pub proof fn lemma_settle_window_is_silent(s: Schedule, now: u64, poll_ms: u64, tick_ms: u64, pending_op: bool)
    requires
        settle_at(s.rf_settle_until, now) is Some,
    ensures
        !plan_of(s, now, poll_ms, tick_ms, pending_op).fan_tick,
        !plan_of(s, now, poll_ms, tick_ms, pending_op).heartbeat,
        plan_of(s, now, poll_ms, tick_ms, pending_op).poll ==> pending_op,
        scheduled(s, now, plan_of(s, now, poll_ms, tick_ms, pending_op)).last_fan_tick
            == s.last_fan_tick,
        scheduled(s, now, plan_of(s, now, poll_ms, tick_ms, pending_op)).last_heartbeat
            == s.last_heartbeat,
{
}

/// Law: once the window's end has come, the schedule runs every due duty
/// again, as if it had never been opened.
pub proof fn lemma_settle_window_closes(s: Schedule, now: u64, poll_ms: u64, tick_ms: u64, pending_op: bool)
    requires
        s.rf_settle_until matches Some(u) && now >= u,
    ensures
        plan_of(s, now, poll_ms, tick_ms, pending_op) == plan_of(
            Schedule { rf_settle_until: None, ..s },
            now,
            poll_ms,
            tick_ms,
            pending_op,
        ),
        scheduled(s, now, plan_of(s, now, poll_ms, tick_ms, pending_op)).rf_settle_until is None,
{
}

/// The schedule after planning a step at each time of `times` in turn.
pub open spec fn schedule_run(
    s: Schedule,
    times: Seq<u64>,
    poll_ms: u64,
    tick_ms: u64,
    pending_op: bool,
) -> Schedule
    decreases times.len(),
{
    if times.len() == 0 {
        s
    } else {
        let s0 = schedule_run(s, times.drop_last(), poll_ms, tick_ms, pending_op);
        scheduled(s0, times.last(), plan_of(s0, times.last(), poll_ms, tick_ms, pending_op))
    }
}

/// Law: the silence after an RGB upload, over a run of steps. Once the
/// window opens at `t` (`begin_settle(t)`), every step planned before
/// `t + RGB_SETTLE_MS` with no bind/unbind op pending runs no duty at all
/// (no poll, so no RGB upload either; no PWM; no heartbeat) and leaves the
/// schedule as it was; the first step at or after the window's end plans as
/// if no window had been opened — with a zero poll interval, it polls.
pub proof fn lemma_settle_window_over_a_run(
    s: Schedule,
    t: u64,
    times: Seq<u64>,
    later: u64,
    poll_ms: u64,
    tick_ms: u64,
)
    requires
        t <= u64::MAX - RGB_SETTLE_MS,
        forall|i: int| 0 <= i < times.len() ==> t <= #[trigger] times[i] < t + RGB_SETTLE_MS,
        later >= t + RGB_SETTLE_MS,
    ensures
        ({
            let s1 = Schedule { rf_settle_until: Some((t + RGB_SETTLE_MS) as u64), ..s };
            &&& forall|i: int|
                0 <= i < times.len() ==> plan_of(
                    schedule_run(s1, times.take(i), poll_ms, tick_ms, false),
                    #[trigger] times[i],
                    poll_ms,
                    tick_ms,
                    false,
                ) == (StepPlan { poll: false, fan_tick: false, heartbeat: false })
            &&& schedule_run(s1, times, poll_ms, tick_ms, false) == s1
            &&& plan_of(schedule_run(s1, times, poll_ms, tick_ms, false), later, poll_ms, tick_ms, false)
                == plan_of(Schedule { rf_settle_until: None, ..s }, later, poll_ms, tick_ms, false)
            &&& poll_ms == 0 ==> plan_of(
                schedule_run(s1, times, poll_ms, tick_ms, false),
                later,
                poll_ms,
                tick_ms,
                false,
            ).poll
        }),
    decreases times.len(),
{
    let s1 = Schedule { rf_settle_until: Some((t + RGB_SETTLE_MS) as u64), ..s };
    if times.len() > 0 {
        let d = times.drop_last();
        assert forall|i: int| 0 <= i < d.len() implies t <= #[trigger] d[i] < t + RGB_SETTLE_MS by {
            assert(d[i] == times[i]);
        }
        lemma_settle_window_over_a_run(s, t, d, later, poll_ms, tick_ms);
        assert(times[times.len() - 1] < t + RGB_SETTLE_MS);
        assert forall|i: int|
            0 <= i < times.len() implies plan_of(
                schedule_run(s1, times.take(i), poll_ms, tick_ms, false),
                #[trigger] times[i],
                poll_ms,
                tick_ms,
                false,
            ) == (StepPlan { poll: false, fan_tick: false, heartbeat: false }) by {
            if i < d.len() {
                assert(times.take(i) =~= d.take(i));
                assert(times[i] == d[i]);
            } else {
                assert(times.take(i) =~= d);
            }
        }
    }
}

// ---------------------------------------------------------------------------
// Bind / unbind
// ---------------------------------------------------------------------------

/// An in-flight bind or unbind operation (one at a time).
#[derive(Debug, Clone, Copy, PartialEq, Eq)]
pub struct BindOp {
    pub mac: [u8; 6],
    pub unbind: bool,
    /// RX type the device must report once bound (0 for an unbind).
    pub target_rx: u8,
    /// When the current burst is given up on.
    pub deadline: u64,
    /// Bursts sent so far (the first, then at most one re-burst).
    pub bursts: u8,
    /// When the op failed, if it did.
    pub failed_at: Option<u64>,
}

impl BindOp {
    /// The op right after its first burst went out at `now`.
    pub fn start(mac: [u8; 6], unbind: bool, target_rx: u8, now: u64) -> (op: BindOp)
        requires
            now <= u64::MAX - BIND_DEADLINE_MS,
        ensures
            op == (BindOp {
                mac,
                unbind,
                target_rx,
                deadline: (now + BIND_DEADLINE_MS) as u64,
                bursts: 1,
                failed_at: None,
            }),
    {
        BindOp { mac, unbind, target_rx, deadline: now + BIND_DEADLINE_MS, bursts: 1, failed_at: None }
    }
}

/// Why a bind or unbind request was refused.
#[derive(Debug, Clone, Copy, PartialEq, Eq, Structural)]
pub enum OpRefusal {
    /// The RF-silence window is open.
    Settling,
    /// No link is held.
    NoLink,
    /// The MAC does not parse.
    InvalidMac,
    /// The device is not in the air inventory.
    NotVisible,
    /// Bind: the device is bound to another controller.
    BoundElsewhere,
    /// Bind: the device is already ours.
    AlreadyBound,
    /// Unbind: the device is bound to another controller.
    NotOurs,
    /// Unbind: the device is not bound at all.
    NotBound,
    /// Another op is still converging.
    InProgress,
}

impl OpRefusal {
    /// The refusal as the daemon words it (`mac` is the request's MAC).
    pub fn message(&self, mac: &str) -> (m: String)
        ensures
            m@ == match *self {
                OpRefusal::Settling => "radio settling — retry shortly"@,
                OpRefusal::NoLink => "no link"@,
                OpRefusal::InvalidMac => "invalid MAC: "@ + mac@,
                OpRefusal::NotVisible => "not visible on air"@,
                OpRefusal::BoundElsewhere => "bound to another controller — unbind it there first"@,
                OpRefusal::AlreadyBound => "already bound"@,
                OpRefusal::NotOurs => "device is not bound to this controller"@,
                OpRefusal::NotBound => "device is not bound"@,
                OpRefusal::InProgress => "operation already in progress"@,
            },
    {
        match self {
            OpRefusal::Settling => String::from_str("radio settling — retry shortly"),
            OpRefusal::NoLink => String::from_str("no link"),
            OpRefusal::InvalidMac => String::from_str("invalid MAC: ").concat(mac),
            OpRefusal::NotVisible => String::from_str("not visible on air"),
            OpRefusal::BoundElsewhere => String::from_str(
                "bound to another controller — unbind it there first",
            ),
            OpRefusal::AlreadyBound => String::from_str("already bound"),
            OpRefusal::NotOurs => String::from_str("device is not bound to this controller"),
            OpRefusal::NotBound => String::from_str("device is not bound"),
            OpRefusal::InProgress => String::from_str("operation already in progress"),
        }
    }
}

/// The air entry of `m`, if the device was seen.
pub open spec fn air_lookup(s: Seq<AirEntry>, m: Seq<u8>) -> Option<AirEntry> {
    if exists|i: int| 0 <= i < s.len() && #[trigger] s[i].record.mac@ == m {
        Some(s[choose|i: int| 0 <= i < s.len() && #[trigger] s[i].record.mac@ == m])
    } else {
        None
    }
}

/// The bond an op requires of its device: Unbound to bind, Ours to unbind.
pub open spec fn op_bond(unbind: bool) -> Bond {
    if unbind {
        Bond::Ours
    } else {
        Bond::Unbound
    }
}

/// The refusal a bind (or unbind) request meets, checked in this order:
/// settle window, link, MAC syntax, visibility, bond, concurrent op.
pub open spec fn op_refusal(
    unbind: bool,
    settling: bool,
    link: Option<Link>,
    mac: Seq<char>,
    air: Seq<AirEntry>,
    pending: Option<BindOp>,
) -> Option<OpRefusal> {
    if settling {
        Some(OpRefusal::Settling)
    } else if link is None {
        Some(OpRefusal::NoLink)
    } else if parsed_mac(mac) is None {
        Some(OpRefusal::InvalidMac)
    } else if air_lookup(air, parsed_mac(mac).unwrap()) is None {
        Some(OpRefusal::NotVisible)
    } else if air_lookup(air, parsed_mac(mac).unwrap()).unwrap().bond != op_bond(unbind) {
        let b = air_lookup(air, parsed_mac(mac).unwrap()).unwrap().bond;
        Some(
            if unbind {
                if b is Foreign {
                    OpRefusal::NotOurs
                } else {
                    OpRefusal::NotBound
                }
            } else {
                if b is Foreign {
                    OpRefusal::BoundElsewhere
                } else {
                    OpRefusal::AlreadyBound
                }
            },
        )
    } else if pending matches Some(op) && op.failed_at is None {
        Some(OpRefusal::InProgress)
    } else {
        None
    }
}

/// Check a bind (`unbind == false`) or unbind request for `mac`: the
/// device's MAC and air entry when it may go ahead, else why not. A failed
/// op still on record does not block a new one.
pub fn check_op_request(
    unbind: bool,
    settling: bool,
    link: Option<Link>,
    mac: &str,
    air: &AirInventory,
    pending: Option<&BindOp>,
) -> (r: Result<([u8; 6], AirEntry), OpRefusal>)
    requires
        air.wf(),
    ensures
        match op_refusal(
            unbind,
            settling,
            link,
            mac@,
            air@,
            match pending {
                Some(op) => Some(*op),
                None => None,
            },
        ) {
            Some(why) => r == Err::<([u8; 6], AirEntry), OpRefusal>(why),
            None => r matches Ok((m, e)) && parsed_mac(mac@) == Some(m@) && air_lookup(air@, m@)
                == Some(e),
        },
{
    if settling {
        return Err(OpRefusal::Settling);
    }
    if link.is_none() {
        return Err(OpRefusal::NoLink);
    }
    let m = match crate::config::parse_mac(mac) {
        Ok(m) => m,
        Err(_) => return Err(OpRefusal::InvalidMac),
    };
    let e = match air.get(&m) {
        Some(e) => *e,
        None => return Err(OpRefusal::NotVisible),
    };
    proof {
        let i = choose|i: int| 0 <= i < air@.len() && air@[i] == e && #[trigger] air@[i].record.mac@ == m@;
        let c = choose|c: int| 0 <= c < air@.len() && #[trigger] air@[c].record.mac@ == m@;
        if c != i {
            if c < i {
                assert(air@[c].record.mac@ != air@[i].record.mac@);
            } else {
                assert(air@[i].record.mac@ != air@[c].record.mac@);
            }
        }
        assert(air_lookup(air@, m@) == Some(e));
    }
    if unbind {
        match e.bond {
            Bond::Ours => {},
            Bond::Foreign => return Err(OpRefusal::NotOurs),
            Bond::Unbound => return Err(OpRefusal::NotBound),
        }
    } else {
        match e.bond {
            Bond::Unbound => {},
            Bond::Foreign => return Err(OpRefusal::BoundElsewhere),
            Bond::Ours => return Err(OpRefusal::AlreadyBound),
        }
    }
    if let Some(op) = pending {
        if op.failed_at.is_none() {
            return Err(OpRefusal::InProgress);
        }
    }
    Ok((m, e))
}

/// What a pending op calls for at a step.
#[derive(Debug, Clone, Copy, PartialEq, Eq, Structural)]
pub enum BindDecision {
    /// The op failed long enough ago: forget it.
    Clear,
    /// The op failed recently: keep it on record.
    KeepFailed,
    /// The device reached the op's target: save the config and settle.
    Converged,
    /// Not converged, deadline not reached: wait.
    Wait,
    /// First deadline passed and the device still has the op's starting
    /// bond: send the burst once more.
    Reburst,
    /// Deadline passed after the re-burst, or the device lost the starting
    /// bond: the op fails.
    Fail,
}

/// Whether the device reached the op's target: for a bind, Ours with the
/// target RX type; for an unbind, Unbound (or gone from the air).
pub open spec fn op_converged(op: BindOp, entry: Option<AirEntry>) -> bool {
    if op.unbind {
        match entry {
            None => true,
            Some(e) => e.bond == Bond::Unbound,
        }
    } else {
        match entry {
            Some(e) => e.bond == Bond::Ours && e.record.rx_type == op.target_rx,
            None => false,
        }
    }
}

/// Whether the device still has the bond the op started from.
pub open spec fn op_precondition(op: BindOp, entry: Option<AirEntry>) -> bool {
    match entry {
        Some(e) => e.bond == op_bond(op.unbind),
        None => false,
    }
}

/// The decision for op `op` given its device's air entry at `now`.
pub open spec fn bind_decision_of(op: BindOp, entry: Option<AirEntry>, now: u64) -> BindDecision {
    match op.failed_at {
        Some(t) => if since(t, now) >= BIND_FAIL_CLEAR_MS {
            BindDecision::Clear
        } else {
            BindDecision::KeepFailed
        },
        None => if op_converged(op, entry) {
            BindDecision::Converged
        } else if now >= op.deadline {
            if op.bursts < 2 && op_precondition(op, entry) {
                BindDecision::Reburst
            } else {
                BindDecision::Fail
            }
        } else {
            BindDecision::Wait
        },
    }
}

/// Decide what a pending op calls for: convergence first, then the
/// deadline (one re-burst, never at a device whose bond no longer matches
/// the op's starting bond), and a failed op is cleared after 30 s.
pub fn bind_decision(op: &BindOp, entry: Option<&AirEntry>, now: u64) -> (d: BindDecision)
    ensures
        d == bind_decision_of(
            *op,
            match entry {
                Some(e) => Some(*e),
                None => None,
            },
            now,
        ),
{
    if let Some(t) = op.failed_at {
        if now.saturating_sub(t) >= BIND_FAIL_CLEAR_MS {
            return BindDecision::Clear;
        }
        return BindDecision::KeepFailed;
    }
    let converged = if op.unbind {
        match entry {
            None => true,
            Some(e) => e.bond == Bond::Unbound,
        }
    } else {
        match entry {
            Some(e) => e.bond == Bond::Ours && e.record.rx_type == op.target_rx,
            None => false,
        }
    };
    if converged {
        return BindDecision::Converged;
    }
    if now >= op.deadline {
        let precondition = match entry {
            Some(e) => if op.unbind {
                e.bond == Bond::Ours
            } else {
                e.bond == Bond::Unbound
            },
            None => false,
        };
        if op.bursts < 2 && precondition {
            BindDecision::Reburst
        } else {
            BindDecision::Fail
        }
    } else {
        BindDecision::Wait
    }
}

/// The op after a decision was carried out at `now`: a re-burst counts the
/// second burst and restarts the deadline; a failure is stamped.
pub open spec fn advanced(op: BindOp, d: BindDecision, now: u64) -> BindOp {
    match d {
        BindDecision::Reburst => BindOp { bursts: 2, deadline: (now + BIND_DEADLINE_MS) as u64, ..op },
        BindDecision::Fail => BindOp { failed_at: Some(now), ..op },
        _ => op,
    }
}

/// Carry out the bookkeeping of decision `d` on the op.
pub fn advance(op: &mut BindOp, d: BindDecision, now: u64)
    requires
        d == BindDecision::Reburst ==> now <= u64::MAX - BIND_DEADLINE_MS,
    ensures
        *final(op) == advanced(*old(op), d, now),
{
    match d {
        BindDecision::Reburst => {
            op.bursts = 2;
            op.deadline = now + BIND_DEADLINE_MS;
        },
        BindDecision::Fail => {
            op.failed_at = Some(now);
        },
        _ => {},
    }
}

/// Law: a re-burst is only ever sent at a device that still has the op's
/// starting bond (Unbound for a bind, Ours for an unbind), while the op is
/// live and has sent a single burst.
pub proof fn lemma_reburst_needs_starting_bond(op: BindOp, entry: Option<AirEntry>, now: u64)
    requires
        bind_decision_of(op, entry, now) == BindDecision::Reburst,
    ensures
        op_precondition(op, entry),
        op.failed_at is None,
        op.bursts < 2,
        !op_converged(op, entry),
{
}

/// Law: a live op that missed its deadline re-bursts once while its device
/// still has the bond it started from — Unbound for a bind, bound to our
/// master (Ours) for an unbind — whatever else the record says.
pub proof fn lemma_live_op_reburst(op: BindOp, e: AirEntry, now: u64)
    requires
        op.failed_at is None,
        op.bursts < 2,
        now >= op.deadline,
        (op.unbind && e.bond == Bond::Ours) || (!op.unbind && e.bond == Bond::Unbound),
    ensures
        bind_decision_of(op, Some(e), now) == BindDecision::Reburst,
{
}

/// Law: an op sends at most two bursts — once it has re-burst, no later
/// decision re-bursts it again.
pub proof fn lemma_at_most_one_reburst(
    op: BindOp,
    entry: Option<AirEntry>,
    now: u64,
    later: Option<AirEntry>,
    then: u64,
)
    requires
        bind_decision_of(op, entry, now) == BindDecision::Reburst,
        now <= u64::MAX - BIND_DEADLINE_MS,
    ensures
        bind_decision_of(advanced(op, BindDecision::Reburst, now), later, then)
            != BindDecision::Reburst,
{
}

/// Law: a failed op stays on record until 30 s after it failed and is
/// cleared from then on; it never converges, re-bursts or fails again.
pub proof fn lemma_failed_op_clears_after_30s(op: BindOp, entry: Option<AirEntry>, now: u64)
    requires
        op.failed_at is Some,
    ensures
        bind_decision_of(op, entry, now) == BindDecision::Clear <==> since(op.failed_at.unwrap(), now)
            >= BIND_FAIL_CLEAR_MS,
        bind_decision_of(op, entry, now) == BindDecision::Clear || bind_decision_of(op, entry, now)
            == BindDecision::KeepFailed,
{
}

/// Law: convergence is checked before the deadline — a live op whose device
/// reached the target converges at any time, even past its deadline.
pub proof fn lemma_convergence_beats_deadline(op: BindOp, entry: Option<AirEntry>, now: u64)
    requires
        op.failed_at is None,
        op_converged(op, entry),
    ensures
        bind_decision_of(op, entry, now) == BindDecision::Converged,
{
}

/// What a step did — simulation tests assert on this.
#[derive(Debug, Clone, Copy, PartialEq, Eq, Structural)]
pub struct StepOutcome {
    pub acquired: bool,
    pub polled: bool,
    pub sent_pwm: u32,
    pub sent_heartbeat: bool,
    pub uploaded_rgb: u32,
    pub tier1: bool,
    pub tier2: bool,
}

impl Default for StepOutcome {
    fn default() -> (o: StepOutcome)
        ensures
            o == (StepOutcome {
                acquired: false,
                polled: false,
                sent_pwm: 0,
                sent_heartbeat: false,
                uploaded_rgb: 0,
                tier1: false,
                tier2: false,
            }),
    {
        StepOutcome {
            acquired: false,
            polled: false,
            sent_pwm: 0,
            sent_heartbeat: false,
            uploaded_rgb: 0,
            tier1: false,
            tier2: false,
        }
    }
}

/// Law: the RGB re-upload cooldown. An upload is never due within 5 s
/// (RGB_REUPLOAD_COOLDOWN_MS) of the last upload attempt, whether that
/// attempt succeeded or not and whatever the device reports; a device whose
/// record echoes the index last uploaded is never due; a device never
/// asserted and never tried is due at once.
pub proof fn lemma_rgb_reupload_cooldown(
    expected_fx: Option<[u8; 4]>,
    reported: Seq<u8>,
    last_upload: Option<u64>,
    now: u64,
)
    ensures
        rgb_due(expected_fx, reported, last_upload, now) ==> (last_upload matches Some(t) ==> now as int
            >= t as int + 5000),
        expected_fx matches Some(e) && e@ == reported ==> !rgb_due(expected_fx, reported, last_upload, now),
        rgb_due(None, reported, None, now),
{
}

/// Law: the revert burst. A PWM command goes out once or as a burst of 4;
/// it is a burst only when some active fan is commanded to a nonzero speed
/// and every active fan (the first `min(fan_count, 4)`) reads back zero —
/// a device whose fans read back anything is never burst at.
pub proof fn lemma_revert_burst_needs_zero_readback(pwm: Seq<u8>, current: Seq<u8>, fan_count: u8)
    ensures
        pwm_repeats_of(pwm, current, fan_count) == 1 || pwm_repeats_of(pwm, current, fan_count) == 4,
        pwm_repeats_of(pwm, current, fan_count) > 1 ==> (forall|i: int|
            0 <= i < (if fan_count < 4 { fan_count as int } else { 4 }) ==> #[trigger] current[i] == 0)
            && (exists|i: int|
            0 <= i < (if fan_count < 4 { fan_count as int } else { 4 }) && #[trigger] pwm[i] > 0),
{
}

} // verus!
