//! The decisions of the service loop that owns the store: how a read request
//! is answered, when the loop reports and sleeps, and when it stops.
use crate::layer::{Layer, SECTOR_SIZE};
use vstd::prelude::*;

verus! {

/// How many sector numbers there are.
pub const SECTOR_SPACE: u64 = 0x1_0000_0000;

/// The bytes of `count` consecutive sectors of `contents` from `first` on,
/// one sector after the other.
pub open spec fn span_bytes(contents: Seq<Seq<u8>>, first: int, count: nat) -> Seq<u8> {
    Seq::new(count * 512, |k: int| contents[first + k / 512][k % 512])
}

/// Reads `ahead` consecutive sectors from `sector` on, in order, and returns
/// their bytes one after the other. `None`, with nothing read, when the span
/// does not lie within the store's `sectors` sectors, or runs past the
/// largest sector number. Reading changes no sector.
pub fn serve_read<L: Layer>(layer: &mut L, sectors: u64, sector: u32, ahead: u8) -> (r: Option<
    Vec<u8>,
>)
    requires
        sectors == old(layer).contents().len(),
    ensures
        final(layer).contents() == old(layer).contents(),
        r is Some <==> sector + ahead <= sectors && sector + ahead <= SECTOR_SPACE,
        r matches Some(v) ==> v@ == span_bytes(old(layer).contents(), sector as int, ahead as nat),
{
    let ghost contents = layer.contents();
    let end = sector as u64 + ahead as u64;
    if end > sectors || end > SECTOR_SPACE {
        return None;
    }
    let mut bytes: Vec<u8> = Vec::new();
    let mut buffer: [u8; SECTOR_SIZE] = [0; SECTOR_SIZE];
    let mut i: u8 = 0;
    while i < ahead
        invariant
            i <= ahead,
            sector + ahead <= sectors,
            sector + ahead <= SECTOR_SPACE,
            layer.contents() == contents,
            sectors == contents.len(),
            bytes@ =~= span_bytes(contents, sector as int, i as nat),
        decreases ahead - i,
    {
        let s = sector + i as u32;
        layer.read(s, &mut buffer);
        let mut j: usize = 0;
        while j < SECTOR_SIZE
            invariant
                j <= SECTOR_SIZE,
                i < ahead,
                buffer@ == contents[s as int],
                s == sector + i,
                bytes@.len() == i * 512 + j,
                forall|k: int| 0 <= k < i * 512 ==> bytes@[k] == #[trigger] span_bytes(contents, sector as int, i as nat)[k],
                forall|k: int| 0 <= k < j ==> bytes@[i * 512 + k] == buffer@[k],
            decreases SECTOR_SIZE - j,
        {
            bytes.push(buffer[j]);
            j = j + 1;
        }
        proof {
            let next = span_bytes(contents, sector as int, (i + 1) as nat);
            assert forall|k: int| 0 <= k < (i + 1) * 512 implies bytes@[k] == #[trigger] next[k] by {
                let q = k / 512;
                let m = k % 512;
                assert(k == q * 512 + m);
                if k < i * 512 {
                    assert(bytes@[k] == span_bytes(contents, sector as int, i as nat)[k]);
                } else {
                    assert(q == i) by (nonlinear_arith)
                        requires i * 512 <= k < (i + 1) * 512, k == q * 512 + m, 0 <= m < 512;
                    assert(bytes@[i * 512 + m] == buffer@[m]);
                }
            }
        }
        i = i + 1;
    }
    Some(bytes)
}

/// Writes `data` to `sector` when it lies within the store's `sectors`
/// sectors; returns whether it did. A sector outside is not touched.
pub fn serve_write<L: Layer>(layer: &mut L, sectors: u64, sector: u32, data: &[u8; SECTOR_SIZE]) -> (r:
    bool)
    requires
        sectors == old(layer).contents().len(),
    ensures
        r == (sector < sectors),
        r ==> final(layer).contents() == old(layer).contents().update(sector as int, data@),
        !r ==> final(layer).contents() == old(layer).contents(),
{
    if (sector as u64) < sectors {
        layer.write(sector, data);
        true
    } else {
        false
    }
}

/// How far apart two status reports are, in reads, writes or sleeps.
pub const REPORT_EVERY: u64 = 1000;

/// What the service loop does at the end of a pass over its queues.
#[derive(Debug, Clone, Copy, PartialEq, Eq, Structural)]
pub struct PassEnd {
    /// Print a status line.
    pub report: bool,
    /// Nothing was served in this pass: sleep before the next.
    pub sleep: bool,
}

/// The counters of the service loop.
#[derive(Debug, Clone, Copy, PartialEq, Eq, Structural)]
pub struct ServiceStats {
    pub reads: u64,
    pub writes: u64,
    pub sleeps: u64,
    /// The counts at the end of the previous pass.
    pub prev_reads: u64,
    pub prev_writes: u64,
    /// The counts at the last status report.
    pub reported_reads: u64,
    pub reported_writes: u64,
    pub reported_sleeps: u64,
}

impl ServiceStats {
    /// No earlier mark exceeds the count it was taken of.
    pub open spec fn wf(&self) -> bool {
        &&& self.prev_reads <= self.reads
        &&& self.prev_writes <= self.writes
        &&& self.reported_reads <= self.reads
        &&& self.reported_writes <= self.writes
        &&& self.reported_sleeps <= self.sleeps
    }

    /// Whether any count has moved more than `REPORT_EVERY` past its last report.
    pub open spec fn report_due(&self) -> bool {
        self.reads - self.reported_reads > REPORT_EVERY || self.writes - self.reported_writes
            > REPORT_EVERY || self.sleeps - self.reported_sleeps > REPORT_EVERY
    }

    /// Whether nothing was read or written since the end of the previous pass.
    pub open spec fn idle(&self) -> bool {
        self.prev_reads == self.reads && self.prev_writes == self.writes
    }

    /// All counters at zero.
    pub fn new() -> (r: Self)
        ensures
            r.wf(),
            r.reads == 0 && r.writes == 0 && r.sleeps == 0,
            r.prev_reads == 0 && r.prev_writes == 0,
            r.reported_reads == 0 && r.reported_writes == 0 && r.reported_sleeps == 0,
    {
        ServiceStats {
            reads: 0,
            writes: 0,
            sleeps: 0,
            prev_reads: 0,
            prev_writes: 0,
            reported_reads: 0,
            reported_writes: 0,
            reported_sleeps: 0,
        }
    }

    /// Counts one served read request; the count stops at its largest value.
    pub fn record_read(&mut self)
        requires
            old(self).wf(),
        ensures
            final(self).wf(),
            *final(self) == (ServiceStats {
                reads: if old(self).reads < u64::MAX {
                    (old(self).reads + 1) as u64
                } else {
                    old(self).reads
                },
                ..*old(self)
            }),
    {
        self.reads = self.reads.saturating_add(1);
    }

    /// Counts one served write request; the count stops at its largest value.
    pub fn record_write(&mut self)
        requires
            old(self).wf(),
        ensures
            final(self).wf(),
            *final(self) == (ServiceStats {
                writes: if old(self).writes < u64::MAX {
                    (old(self).writes + 1) as u64
                } else {
                    old(self).writes
                },
                ..*old(self)
            }),
    {
        self.writes = self.writes.saturating_add(1);
    }

    /// Ends a pass: reports when a count moved more than `REPORT_EVERY` past
    /// the last report, sleeps when nothing was served since the previous
    /// pass, and marks the counts for the next pass.
    pub fn end_pass(&mut self) -> (r: PassEnd)
        requires
            old(self).wf(),
        ensures
            final(self).wf(),
            r == (PassEnd { report: old(self).report_due(), sleep: old(self).idle() }),
            final(self).reads == old(self).reads,
            final(self).writes == old(self).writes,
            final(self).sleeps == if r.sleep && old(self).sleeps < u64::MAX {
                (old(self).sleeps + 1) as u64
            } else {
                old(self).sleeps
            },
            final(self).prev_reads == old(self).reads,
            final(self).prev_writes == old(self).writes,
            r.report ==> final(self).reported_reads == old(self).reads
                && final(self).reported_writes == old(self).writes
                && final(self).reported_sleeps == old(self).sleeps,
            !r.report ==> final(self).reported_reads == old(self).reported_reads
                && final(self).reported_writes == old(self).reported_writes
                && final(self).reported_sleeps == old(self).reported_sleeps,
    {
        let report = self.reads - self.reported_reads > REPORT_EVERY || self.writes
            - self.reported_writes > REPORT_EVERY || self.sleeps - self.reported_sleeps
            > REPORT_EVERY;
        if report {
            self.reported_reads = self.reads;
            self.reported_writes = self.writes;
            self.reported_sleeps = self.sleeps;
        }
        let sleep = self.prev_reads == self.reads && self.prev_writes == self.writes;
        if sleep {
            self.sleeps = self.sleeps.saturating_add(1);
        }
        self.prev_reads = self.reads;
        self.prev_writes = self.writes;
        PassEnd { report, sleep }
    }
}

/// Where the service loop stands.
#[derive(Debug, Clone, Copy, PartialEq, Eq, Structural)]
pub enum Phase {
    /// Serving requests.
    Running,
    /// Asked to stop: the index is to be flushed.
    Draining,
    /// Flushed; the loop has ended.
    Stopped,
}

impl Phase {
    /// The phase after the liveness flag was read as `live`.
    pub fn on_tick(self, live: bool) -> (r: Phase)
        ensures
            r == (if self == Phase::Running && !live {
                Phase::Draining
            } else {
                self
            }),
    {
        match self {
            Phase::Running => if live {
                Phase::Running
            } else {
                Phase::Draining
            },
            _ => self,
        }
    }

    /// The phase after the index was flushed.
    pub fn on_flushed(self) -> (r: Phase)
        ensures
            r == (if self == Phase::Draining {
                Phase::Stopped
            } else {
                self
            }),
    {
        match self {
            Phase::Draining => Phase::Stopped,
            _ => self,
        }
    }
}

} // verus!
