//! I/O abstraction over the USB transport, enabling hardware-free tests,
//! and the protocol's error type.

use vstd::prelude::*;
use std::collections::VecDeque;

verus! {

/// A libusb failure, one variant per libusb error code.
#[derive(Debug, Clone, Copy, PartialEq, Eq, Structural)]
pub enum UsbError {
    Io,
    InvalidParam,
    Access,
    NoDevice,
    NotFound,
    Busy,
    Timeout,
    Overflow,
    Pipe,
    Interrupted,
    NoMem,
    NotSupported,
    BadDescriptor,
    Other,
}

/// Why an RGB animation was refused before upload.
#[derive(Debug, Clone, Copy, PartialEq, Eq, Structural)]
pub enum InputError {
    /// The animation has no frames.
    NoFrames,
    /// The first frame's LED count is outside 1..=255.
    LedCount(usize),
    /// More frames than a u16 can count.
    FrameCount(usize),
    /// A frame's LED count differs from the first frame's.
    Ragged { got: usize, expected: usize },
    /// The compressed payload is larger than the RGB packets can address.
    PayloadTooLarge(usize),
}

/// Why compressing an RGB payload failed.
#[derive(Debug, Clone, Copy, PartialEq, Eq, Structural)]
pub enum CompressError {
    /// There was nothing to compress.
    EmptyInput,
    /// The compressor produced no output.
    NoOutput,
}

/// Protocol-level failure.
#[derive(Debug, Clone, Copy, PartialEq, Eq)]
pub enum ProtocolError {
    /// USB error from the transport.
    Usb(UsbError),
    /// No device with this VID:PID is attached.
    DeviceNotFound { vid: u16, pid: u16 },
    /// RGB payload compression failed.
    Compression(CompressError),
    /// Caller input the protocol cannot carry.
    InvalidInput(InputError),
    /// The dongle did not answer the request `op` in time.
    NoResponse { op: &'static str },
    /// No channel answered GET_MAC.
    NoMasterFound,
    /// The RX dongle (needed for device discovery) is not open.
    RxUnavailable,
    /// The answer to `op` did not start with the expected echo byte.
    UnexpectedResponse { op: &'static str, expected: u8, got: u8 },
    /// There were no VID:PID pairs to try.
    NoIds,
}

/// One observable step of a transport: a packet that went out, a pause
/// (the firmware needs gaps between packets), or a packet whose write the
/// transport refused, with the error it gave.
pub ghost enum WireStep {
    Packet(Seq<u8>),
    Pause(u64),
    Refused(Seq<u8>, ProtocolError),
}

/// Whether a step is a write refused with error `e`.
pub open spec fn refused_with(s: WireStep, e: ProtocolError) -> bool {
    match s {
        WireStep::Refused(_, e2) => e2 == e,
        _ => false,
    }
}

/// `after` is `before` followed by the steps of `full` up to one of its
/// packets, whose write was then refused with `e`: sending `full` stopped
/// there.
pub open spec fn stopped_at(
    full: Seq<WireStep>,
    before: Seq<WireStep>,
    after: Seq<WireStep>,
    e: ProtocolError,
) -> bool {
    exists|j: int|
        0 <= j < full.len() && (#[trigger] full[j]) is Packet && after == before + full.take(j).push(
            WireStep::Refused(full[j]->Packet_0, e),
        )
}

/// A send that stopped at a refused write kept what came before and ended
/// with that refusal.
pub proof fn lemma_stopped_extends(
    full: Seq<WireStep>,
    before: Seq<WireStep>,
    after: Seq<WireStep>,
    e: ProtocolError,
)
    requires
        stopped_at(full, before, after, e),
    ensures
        before.is_prefix_of(after),
        after.len() > before.len(),
        refused_with(after.last(), e),
{
    let j = choose|j: int|
        0 <= j < full.len() && (#[trigger] full[j]) is Packet && after == before + full.take(j).push(
            WireStep::Refused(full[j]->Packet_0, e),
        );
    assert(after.subrange(0, before.len() as int) =~= before);
}

/// A send that stopped inside its first part stopped the whole send.
pub proof fn lemma_stopped_prefix(
    a: Seq<WireStep>,
    b: Seq<WireStep>,
    before: Seq<WireStep>,
    after: Seq<WireStep>,
    e: ProtocolError,
)
    requires
        stopped_at(a, before, after, e),
    ensures
        stopped_at(a + b, before, after, e),
{
    let j = choose|j: int|
        0 <= j < a.len() && (#[trigger] a[j]) is Packet && after == before + a.take(j).push(
            WireStep::Refused(a[j]->Packet_0, e),
        );
    assert((a + b)[j] == a[j]);
    assert((a + b).take(j) =~= a.take(j));
}

/// Stopping inside a stretch of a longer send is stopping inside that send:
/// when `sub` is `full` from index `i` on, and what went before `sub` was
/// `full`'s first `i` steps.
pub proof fn lemma_stopped_shift(
    full: Seq<WireStep>,
    i: int,
    sub: Seq<WireStep>,
    before: Seq<WireStep>,
    after: Seq<WireStep>,
    e: ProtocolError,
)
    requires
        0 <= i,
        i + sub.len() <= full.len(),
        full.subrange(i, i + sub.len()) == sub,
        stopped_at(sub, before + full.take(i), after, e),
    ensures
        stopped_at(full, before, after, e),
{
    let j = choose|j: int|
        0 <= j < sub.len() && (#[trigger] sub[j]) is Packet && after == (before + full.take(i)) + sub.take(
            j,
        ).push(WireStep::Refused(sub[j]->Packet_0, e));
    assert(full[i + j] == sub[j]);
    assert(full.take(i + j) =~= full.take(i) + sub.take(j));
    assert(after =~= before + full.take(i + j).push(WireStep::Refused(full[i + j]->Packet_0, e)));
}

/// The packets of a trace, oldest first.
pub open spec fn packets_of(t: Seq<WireStep>) -> Seq<Seq<u8>>
    decreases t.len(),
{
    if t.len() == 0 {
        Seq::empty()
    } else {
        match t.last() {
            WireStep::Packet(p) => packets_of(t.drop_last()).push(p),
            _ => packets_of(t.drop_last()),
        }
    }
}

/// The packets of two traces one after the other.
pub proof fn lemma_packets_of_append(a: Seq<WireStep>, b: Seq<WireStep>)
    ensures
        packets_of(a + b) == packets_of(a) + packets_of(b),
    decreases b.len(),
{
    if b.len() == 0 {
        assert(a + b =~= a);
        assert(packets_of(a) + packets_of(b) =~= packets_of(a));
    } else {
        lemma_packets_of_append(a, b.drop_last());
        assert((a + b).drop_last() =~= a + b.drop_last());
        assert((a + b).last() == b.last());
        match b.last() {
            WireStep::Packet(p) => {
                assert(packets_of(a) + packets_of(b.drop_last()).push(p) =~= (packets_of(a)
                    + packets_of(b.drop_last())).push(p));
            },
            _ => {},
        }
    }
}

/// The operations `Dongle` needs from a transport: open a device by
/// VID:PID, claim it, write a packet, read a packet, drop stale input, and
/// let time pass between packets.
pub trait UsbIo: Sized {
    /// Open the device with this VID:PID.
    fn open(vid: u16, pid: u16) -> (r: Result<Self, ProtocolError>);

    /// Detach any kernel driver and claim the interface (`label` names the
    /// dongle in logs).
    fn detach_and_configure(&mut self, label: &'static str) -> (r: Result<(), ProtocolError>);

    /// Write one packet; the number of bytes written on success.
    fn write(&mut self, data: &[u8], timeout_ms: u64) -> (r: Result<usize, ProtocolError>);

    /// Read one packet of at most `max_len` bytes.
    fn read(&mut self, max_len: usize, timeout_ms: u64) -> (r: Result<Vec<u8>, ProtocolError>)
        ensures
            r matches Ok(v) ==> v@.len() <= max_len,
    ;

    /// Drop whatever stale input is waiting.
    fn read_flush(&mut self);

    /// Let `ms` milliseconds pass.
    fn pause_ms(&mut self, ms: u64);
}

/// A step a `FakeIo` recorded.
#[derive(Debug)]
enum FakeStep {
    Write(Vec<u8>),
    Pause(u64),
}

/// What a recorded step was on the wire.
spec fn step_view(s: FakeStep) -> WireStep {
    match s {
        FakeStep::Write(v) => WireStep::Packet(v@),
        FakeStep::Pause(ms) => WireStep::Pause(ms),
    }
}

/// Scripted in-memory transport for tests and simulations.
/// Writes and pauses are recorded; reads pop from a script queue (empty
/// queue = timeout, matching real-dongle silence).
#[derive(Debug)]
pub struct FakeIo {
    log: Vec<FakeStep>,
    reads: VecDeque<Result<Vec<u8>, ProtocolError>>,
}

impl Default for FakeIo {
    fn default() -> (f: FakeIo)
        ensures
            f.trace().len() == 0,
            f.spec_script().len() == 0,
    {
        FakeIo { log: Vec::new(), reads: VecDeque::new() }
    }
}

/// The views of a sequence of byte vectors.
pub open spec fn bytes_view(v: Seq<Vec<u8>>) -> Seq<Seq<u8>> {
    Seq::new(v.len(), |i: int| v[i]@)
}

impl FakeIo {
    /// Packets written and pauses taken so far, oldest first.
    pub closed spec fn trace(&self) -> Seq<WireStep> {
        Seq::new(self.log@.len(), |i: int| step_view(self.log@[i]))
    }

    /// The scripted read results still pending, next first.
    pub closed spec fn spec_script(&self) -> Seq<Result<Vec<u8>, ProtocolError>> {
        self.reads@
    }

    /// Script one successful read.
    pub fn push_read(&mut self, data: Vec<u8>)
        ensures
            final(self).spec_script() == old(self).spec_script().push(Ok(data)),
            final(self).trace() == old(self).trace(),
    {
        self.reads.push_back(Ok(data));
    }

    /// Script one failed read.
    pub fn push_read_err(&mut self, err: ProtocolError)
        ensures
            final(self).spec_script() == old(self).spec_script().push(Err(err)),
            final(self).trace() == old(self).trace(),
    {
        self.reads.push_back(Err(err));
    }

    /// Every packet written so far, oldest first.
    pub fn written(&self) -> (w: Vec<Vec<u8>>)
        ensures
            bytes_view(w@) == packets_of(self.trace()),
    {
        let mut w: Vec<Vec<u8>> = Vec::new();
        let mut i: usize = 0;
        while i < self.log.len()
            invariant
                i <= self.log@.len(),
                bytes_view(w@) == packets_of(self.trace().take(i as int)),
            decreases self.log@.len() - i,
        {
            let ghost before = bytes_view(w@);
            let ghost t = self.trace().take(i + 1);
            assert(t.drop_last() =~= self.trace().take(i as int));
            assert(t.last() == step_view(self.log@[i as int]));
            match &self.log[i] {
                FakeStep::Write(p) => {
                    w.push(copy_bytes(p));
                    assert(bytes_view(w@) =~= before.push(p@));
                },
                FakeStep::Pause(_) => {},
            }
            i += 1;
        }
        assert(self.trace().take(self.log@.len() as int) =~= self.trace());
        w
    }

    /// Clear all scripted reads — models a real pipe drain for tests that
    /// need flush semantics.
    pub fn drain_reads(&mut self)
        ensures
            final(self).spec_script().len() == 0,
            final(self).trace() == old(self).trace(),
    {
        self.reads.clear();
    }
}

/// A copy of a byte slice.
pub fn copy_bytes(s: &[u8]) -> (r: Vec<u8>)
    ensures
        r@ == s@,
{
    let mut r: Vec<u8> = Vec::new();
    let mut i: usize = 0;
    while i < s.len()
        invariant
            i <= s@.len(),
            r@ == s@.take(i as int),
        decreases s@.len() - i,
    {
        r.push(s[i]);
        i += 1;
        assert(r@ =~= s@.take(i as int));
    }
    assert(s@.take(s@.len() as int) =~= s@);
    r
}

/// The first `n` bytes of `v`.
fn prefix_bytes(v: &Vec<u8>, n: usize) -> (r: Vec<u8>)
    requires
        n <= v@.len(),
    ensures
        r@ == v@.take(n as int),
{
    let mut r: Vec<u8> = Vec::new();
    let mut i: usize = 0;
    while i < n
        invariant
            n <= v@.len(),
            i <= n,
            r@ == v@.take(i as int),
        decreases n - i,
    {
        r.push(v[i]);
        i += 1;
        assert(r@ =~= v@.take(i as int));
    }
    r
}

impl UsbIo for FakeIo {
    /// A fake device opens on any VID:PID, with nothing recorded.
    fn open(vid: u16, pid: u16) -> (r: Result<FakeIo, ProtocolError>)
        ensures
            r is Ok,
            r matches Ok(f) ==> f.trace().len() == 0 && f.spec_script().len() == 0,
    {
        Ok(FakeIo::default())
    }

    fn detach_and_configure(&mut self, label: &'static str) -> (r: Result<(), ProtocolError>)
        ensures
            r is Ok,
            final(self).trace() == old(self).trace(),
            final(self).spec_script() == old(self).spec_script(),
    {
        Ok(())
    }

    /// Record the packet.
    fn write(&mut self, data: &[u8], timeout_ms: u64) -> (r: Result<usize, ProtocolError>)
        ensures
            r == Ok::<usize, ProtocolError>(data@.len() as usize),
            final(self).trace() == old(self).trace().push(WireStep::Packet(data@)),
            final(self).spec_script() == old(self).spec_script(),
    {
        let ghost before = self.trace();
        self.log.push(FakeStep::Write(copy_bytes(data)));
        assert(self.trace() =~= before.push(WireStep::Packet(data@)));
        Ok(data.len())
    }

    /// Pop the next scripted result (truncated to `max_len`); an empty
    /// script is a timeout.
    fn read(&mut self, max_len: usize, timeout_ms: u64) -> (r: Result<Vec<u8>, ProtocolError>)
        ensures
            final(self).trace() == old(self).trace(),
            old(self).spec_script().len() == 0 ==> r == Err::<Vec<u8>, ProtocolError>(
                ProtocolError::Usb(UsbError::Timeout),
            ) && final(self).spec_script() == old(self).spec_script(),
            old(self).spec_script().len() > 0 ==> final(self).spec_script() == old(
                self,
            ).spec_script().drop_first() && match old(self).spec_script()[0] {
                Ok(data) => r matches Ok(v) && v@ == data@.take(
                    if data@.len() < max_len {
                        data@.len() as int
                    } else {
                        max_len as int
                    },
                ),
                Err(e) => r == Err::<Vec<u8>, ProtocolError>(e),
            },
    {
        match self.reads.pop_front() {
            Some(Ok(data)) => {
                let n = if data.len() < max_len {
                    data.len()
                } else {
                    max_len
                };
                Ok(prefix_bytes(&data, n))
            },
            Some(Err(e)) => Err(e),
            None => Err(ProtocolError::Usb(UsbError::Timeout)),
        }
    }

    /// The real transport's read_flush DRAINS the pipe; this no-op keeps
    /// pre-staged request-response scripts intact. Tests that model
    /// stale-pipe scenarios call `drain_reads()` at the flush boundary.
    fn read_flush(&mut self)
        ensures
            final(self).trace() == old(self).trace(),
            final(self).spec_script() == old(self).spec_script(),
    {
    }

    /// Simulated time passes instantly; the pause is recorded.
    fn pause_ms(&mut self, ms: u64)
        ensures
            final(self).trace() == old(self).trace().push(WireStep::Pause(ms)),
            final(self).spec_script() == old(self).spec_script(),
    {
        let ghost before = self.trace();
        self.log.push(FakeStep::Pause(ms));
        assert(self.trace() =~= before.push(WireStep::Pause(ms)));
    }
}

} // verus!
