//! The recorder: folds frames into buckets and hands out the rollups of those that are complete.

use vstd::prelude::*;
use crate::by_id::ById;
use crate::history::rollup::{Agg, ProcessRollup, ProcessRollupView, SampleAccum, SampleRollup, SampleRollupView, Tier};
use crate::history::rollup::{as_i64, as_u64, max_of, mean_of, sample_rollup};
use crate::history::rollup::law_min_mean_max;
use crate::lists::filter_map;
use crate::lists::{lemma_filter_map_source, lemma_filter_map_step};
use crate::model::{DeviceId, DynamicSample, ProcView, ProcessKind, ProcessSample};
use crate::model::{proc_views, text_view};

verus! {

/// Old rows are pruned once per this many completed 10-second buckets: about once an hour.
pub const PRUNE_EVERY_FLUSHES: u64 = 360;

/// The entry, where it speaks of process `pid`.
pub open spec fn pid_rule(pid: u32) -> spec_fn(ProcView) -> Option<ProcView> {
    |e: ProcView|
        if e.pid == pid {
            Some(e)
        } else {
            None
        }
}

/// The entries that speak of process `pid`.
pub open spec fn of_pid(es: Seq<ProcView>, pid: u32) -> Seq<ProcView> {
    filter_map(es, pid_rule(pid))
}

/// The processes that the entries speak of, in the order in which they first come.
pub open spec fn pids(es: Seq<ProcView>) -> Seq<u32>
    decreases es.len(),
{
    if es.len() == 0 {
        Seq::empty()
    } else {
        let rest = pids(es.drop_last());
        if rest.contains(es.last().pid) {
            rest
        } else {
            rest.push(es.last().pid)
        }
    }
}

pub open spec fn proc_mem_of() -> spec_fn(ProcView) -> Option<int> {
    |p: ProcView|
        match p.mem_bytes {
            Some(v) => Some(v as int),
            None => None,
        }
}

pub open spec fn proc_util_of() -> spec_fn(ProcView) -> Option<int> {
    |p: ProcView|
        match p.util_pct {
            Some(v) => Some(v as int),
            None => None,
        }
}

pub open spec fn proc_cpu_of() -> spec_fn(ProcView) -> Option<int> {
    |p: ProcView|
        match p.cpu_pct {
            Some(v) => Some(v as int),
            None => None,
        }
}

/// The rollup of the entries `es` of one process in a bucket: its last name, kind and container,
/// its peak memory, and its mean utilizations.
pub open spec fn process_rollup(
    device: Seq<char>,
    bucket_ms: u64,
    pid: u32,
    es: Seq<ProcView>,
) -> ProcessRollupView {
    ProcessRollupView {
        device_id: device,
        bucket_ms,
        pid,
        name: es.last().name,
        kind: es.last().kind,
        mem_max: as_u64(max_of(filter_map(es, proc_mem_of()))),
        util_avg: as_i64(mean_of(filter_map(es, proc_util_of()))),
        cpu_avg: as_i64(mean_of(filter_map(es, proc_cpu_of()))),
        container: es.last().container,
    }
}

/// The rollups of all the processes in a bucket.
pub open spec fn process_rollups(
    device: Seq<char>,
    bucket_ms: u64,
    es: Seq<ProcView>,
) -> Seq<ProcessRollupView> {
    Seq::new(
        pids(es).len(),
        |i: int| process_rollup(device, bucket_ms, pids(es)[i], of_pid(es, pids(es)[i])),
    )
}

pub open spec fn sample_views(v: Seq<SampleRollup>) -> Seq<SampleRollupView> {
    Seq::new(v.len(), |i: int| v[i]@)
}

pub open spec fn process_views(v: Seq<ProcessRollup>) -> Seq<ProcessRollupView> {
    Seq::new(v.len(), |i: int| v[i]@)
}

/// The entries of one process in the open bucket, folded as they come.
struct ProcAccum {
    pid: u32,
    name: String,
    kind: ProcessKind,
    mem: Agg,
    util: Agg,
    cpu: Agg,
    container: Option<String>,
    entries: Ghost<Seq<ProcView>>,
}

fn copy_text(s: &Option<String>) -> (r: Option<String>)
    ensures
        r == *s,
{
    match s {
        Some(t) => Some(t.clone()),
        None => None,
    }
}

impl ProcAccum {
    spec fn wf(self) -> bool {
        let es = self.entries@;
        &&& es.len() > 0 ==> self.name@ == es.last().name && self.kind == es.last().kind
            && text_view(self.container) == es.last().container
        &&& self.mem.wf() && self.mem.values() == filter_map(es, proc_mem_of())
        &&& self.util.wf() && self.util.values() == filter_map(es, proc_util_of())
        &&& self.cpu.wf() && self.cpu.values() == filter_map(es, proc_cpu_of())
    }

    fn new(p: &ProcessSample) -> (r: Self)
        ensures
            r.wf(),
            r.pid == p.pid,
            r.entries@ == seq![p@],
    {
        let mut r = ProcAccum {
            pid: p.pid,
            name: p.name.clone(),
            kind: p.kind,
            mem: Agg::new(),
            util: Agg::new(),
            cpu: Agg::new(),
            container: copy_text(&p.container),
            entries: Ghost(Seq::empty()),
        };
        r.take(p);
        assert(r.entries@ =~= seq![p@]);
        r
    }

    /// Takes one more entry.
    fn take(&mut self, p: &ProcessSample)
        requires
            old(self).wf(),
            old(self).entries@.len() < i64::MAX,
        ensures
            final(self).wf(),
            final(self).pid == old(self).pid,
            final(self).entries@ == old(self).entries@.push(p@),
    {
        let ghost before = self.entries@;
        let ghost after = before.push(p@);
        proof {
            assert(after.drop_last() =~= before);
            lemma_filter_map_source(before, proc_mem_of());
            lemma_filter_map_source(before, proc_util_of());
            lemma_filter_map_source(before, proc_cpu_of());
        }
        self.name = p.name.clone();
        self.kind = p.kind;
        self.mem.push(
            match p.mem_bytes {
                Some(v) => Some(v as i128),
                None => None,
            },
        );
        self.util.push(
            match p.util_pct {
                Some(v) => Some(v as i128),
                None => None,
            },
        );
        self.cpu.push(
            match p.cpu_pct {
                Some(v) => Some(v as i128),
                None => None,
            },
        );
        self.container = copy_text(&p.container);
        self.entries = Ghost(after);
    }

    fn to_rollup(&self, device_id: &DeviceId, bucket_ms: u64) -> (r: ProcessRollup)
        requires
            self.wf(),
            self.entries@.len() > 0,
        ensures
            r@ == process_rollup(device_id@, bucket_ms, self.pid, self.entries@),
    {
        proof {
            let es = self.entries@;
            lemma_values_between(es, proc_mem_of(), 0, u64::MAX as int);
            lemma_values_between(es, proc_util_of(), i64::MIN as int, i64::MAX as int);
            lemma_values_between(es, proc_cpu_of(), i64::MIN as int, i64::MAX as int);
        }
        ProcessRollup {
            device_id: device_id.clone(),
            bucket_ms,
            pid: self.pid,
            name: self.name.clone(),
            kind: self.kind,
            mem_max: match self.mem.max() {
                Some(v) => Some(v as u64),
                None => None,
            },
            util_avg: match self.util.avg() {
                Some(v) => Some(v as i64),
                None => None,
            },
            cpu_avg: match self.cpu.avg() {
                Some(v) => Some(v as i64),
                None => None,
            },
            container: copy_text(&self.container),
        }
    }
}

proof fn lemma_values_between(
    es: Seq<ProcView>,
    metric: spec_fn(ProcView) -> Option<int>,
    lo: int,
    hi: int,
)
    requires
        forall|p: ProcView| #[trigger] metric(p) matches Some(v) ==> lo <= v <= hi,
    ensures
        mean_of(filter_map(es, metric)) matches Some(v) ==> lo <= v <= hi,
        max_of(filter_map(es, metric)) matches Some(v) ==> lo <= v <= hi,
{
    let vs = filter_map(es, metric);
    lemma_filter_map_source(es, metric);
    assert forall|i: int| 0 <= i < vs.len() implies lo <= #[trigger] vs[i] <= hi by {
        let j = choose|j: int| 0 <= j < es.len() && metric(#[trigger] es[j]) == Some(vs[i]);
        assert(metric(es[j]) is Some);
    }
    if vs.len() > 0 {
        law_min_mean_max(vs, lo, hi);
    }
}

/// The processes of one device in the open 10-second bucket.
pub struct ProcBucket {
    bucket_ms: Option<u64>,
    procs: Vec<ProcAccum>,
    entries: Ghost<Seq<ProcView>>,
}

impl ProcBucket {
    pub closed spec fn bucket(self) -> Option<u64> {
        self.bucket_ms
    }

    /// The entries in the bucket.
    pub closed spec fn entries(self) -> Seq<ProcView> {
        self.entries@
    }

    pub closed spec fn wf(self) -> bool {
        &&& self.procs@.len() == pids(self.entries@).len()
        &&& forall|i: int|
            #![trigger self.procs@[i]]
            0 <= i < self.procs@.len() ==> self.procs@[i].wf() && self.procs@[i].entries@.len() > 0
                && self.procs@[i].pid == pids(self.entries@)[i] && self.procs@[i].entries@ == of_pid(self.entries@, self.procs@[i].pid)
    }

    pub fn new(bucket_ms: Option<u64>) -> (r: Self)
        ensures
            r.wf(),
            r.bucket() == bucket_ms,
            r.entries() == Seq::<ProcView>::empty(),
    {
        ProcBucket { bucket_ms, procs: Vec::new(), entries: Ghost(Seq::empty()) }
    }

    pub fn bucket_ms(&self) -> (r: Option<u64>)
        ensures
            r == self.bucket(),
    {
        self.bucket_ms
    }

    /// Starts bucket `bucket_ms` where none is open.
    pub fn open(&mut self, bucket_ms: u64)
        requires
            old(self).wf(),
        ensures
            final(self).wf(),
            final(self).entries() == old(self).entries(),
            final(self).bucket() == (match old(self).bucket() {
                Some(b) => Some(b),
                None => Some(bucket_ms),
            }),
    {
        if self.bucket_ms.is_none() {
            self.bucket_ms = Some(bucket_ms);
        }
    }

    /// Takes one more entry into the bucket.
    pub fn fold(&mut self, p: &ProcessSample)
        requires
            old(self).wf(),
            old(self).entries().len() < i64::MAX,
        ensures
            final(self).wf(),
            final(self).bucket() == old(self).bucket(),
            final(self).entries() == old(self).entries().push(p@),
    {
        let ghost before = self.entries@;
        let ghost after = before.push(p@);
        proof {
            assert(after.drop_last() =~= before);
            assert(after.last() == p@);
            lemma_pids_distinct(before);
            assert forall|pid: u32| #[trigger] of_pid(after, pid) == (if pid == p.pid {
                of_pid(before, pid).push(p@)
            } else {
                of_pid(before, pid)
            }) by {}
        }
        let mut i: usize = 0;
        while i < self.procs.len() && self.procs[i].pid != p.pid
            invariant
                i <= self.procs.len(),
                *self == *old(self),
                self.wf(),
                before == self.entries@,
                forall|k: int| 0 <= k < i ==> (#[trigger] self.procs@[k]).pid != p.pid,
            decreases self.procs.len() - i,
        {
            i = i + 1;
        }
        if i < self.procs.len() {
            proof {
                assert(self.procs@[i as int].pid == p.pid);
                assert(pids(before)[i as int] == p.pid);
                assert(pids(after) == pids(before));
                lemma_filter_map_source(before, pid_rule(p.pid));
            }
            let mut acc = ProcAccum::new(p);
            std::mem::swap(&mut acc, &mut self.procs[i]);
            acc.take(p);
            self.procs[i] = acc;
        } else {
            proof {
                assert(!pids(before).contains(p.pid)) by {
                    if pids(before).contains(p.pid) {
                        let k = choose|k: int|
                            0 <= k < pids(before).len() && pids(before)[k] == p.pid;
                        assert(self.procs@[k].pid == p.pid);
                    }
                }
                lemma_no_entries(before, p.pid);
            }
            self.procs.push(ProcAccum::new(p));
            assert(self.procs@[i as int].entries@ =~= of_pid(after, p.pid));
        }
        self.entries = Ghost(after);
    }

    /// The rollups of the processes in the bucket.
    pub fn to_rollups(&self, device_id: &DeviceId, bucket_ms: u64) -> (v: Vec<ProcessRollup>)
        requires
            self.wf(),
        ensures
            process_views(v@) == process_rollups(device_id@, bucket_ms, self.entries()),
    {
        let mut v: Vec<ProcessRollup> = Vec::new();
        let ghost want = process_rollups(device_id@, bucket_ms, self.entries@);
        let mut i: usize = 0;
        while i < self.procs.len()
            invariant
                i <= self.procs.len(),
                self.wf(),
                want == process_rollups(device_id@, bucket_ms, self.entries@),
                v@.len() == i,
                forall|k: int| 0 <= k < i ==> (#[trigger] v@[k])@ == want[k],
            decreases self.procs.len() - i,
        {
            let row = self.procs[i].to_rollup(device_id, bucket_ms);
            assert(row@ == want[i as int]);
            v.push(row);
            i = i + 1;
        }
        assert(process_views(v@) =~= want);
        v
    }
}

proof fn lemma_pids_distinct(es: Seq<ProcView>)
    ensures
        pids(es).no_duplicates(),
        pids(es).len() <= es.len(),
    decreases es.len(),
{
    if es.len() > 0 {
        lemma_pids_distinct(es.drop_last());
    }
}

proof fn lemma_no_entries(es: Seq<ProcView>, pid: u32)
    requires
        !pids(es).contains(pid),
    ensures
        of_pid(es, pid) == Seq::<ProcView>::empty(),
    decreases es.len(),
{
    if es.len() > 0 {
        let t = es.drop_last();
        assert(!pids(t).contains(pid)) by {
            if pids(t).contains(pid) {
                let k = choose|k: int| 0 <= k < pids(t).len() && pids(t)[k] == pid;
                assert(pids(es)[k] == pid);
            }
        }
        assert(es.last().pid != pid) by {
            if es.last().pid == pid {
                assert(pids(es).last() == pid);
            }
        }
        lemma_no_entries(t, pid);
    }
}

/// What is folded of one device.
pub struct DevRecord {
    s10: SampleAccum,
    s1m: SampleAccum,
    p10: ProcBucket,
}

/// The open buckets of one device and what is in them.
#[verifier::ext_equal]
pub struct RecordModel {
    pub bucket_10s: Option<u64>,
    pub frames_10s: Seq<DynamicSample>,
    pub bucket_1m: Option<u64>,
    pub frames_1m: Seq<DynamicSample>,
    /// The process entries of the 10-second bucket.
    pub entries: Seq<ProcView>,
}

impl RecordModel {
    /// No bucket is open.
    pub open spec fn fresh() -> RecordModel {
        RecordModel {
            bucket_10s: None,
            frames_10s: Seq::empty(),
            bucket_1m: None,
            frames_1m: Seq::empty(),
            entries: Seq::empty(),
        }
    }

    /// The open 10-second bucket is over at a frame of `ts_ms`.
    pub open spec fn crosses_10s(self, ts_ms: u64) -> bool {
        self.bucket_10s matches Some(b) && Tier::TenSec.bucket(ts_ms) > b
    }

    /// The open 1-minute bucket is over at a frame of `ts_ms`.
    pub open spec fn crosses_1m(self, ts_ms: u64) -> bool {
        self.bucket_1m matches Some(b) && Tier::OneMin.bucket(ts_ms) > b
    }

    /// The buckets after a frame. A frame of a later bucket starts that bucket; any other goes
    /// into the open one, or opens the first.
    pub open spec fn with_frame(self, s: DynamicSample, ps: Seq<ProcView>) -> RecordModel {
        RecordModel {
            bucket_10s: if self.bucket_10s is None || self.crosses_10s(s.ts_ms) {
                Some(Tier::TenSec.bucket(s.ts_ms))
            } else {
                self.bucket_10s
            },
            frames_10s: if self.crosses_10s(s.ts_ms) {
                seq![s]
            } else {
                self.frames_10s.push(s)
            },
            bucket_1m: if self.bucket_1m is None || self.crosses_1m(s.ts_ms) {
                Some(Tier::OneMin.bucket(s.ts_ms))
            } else {
                self.bucket_1m
            },
            frames_1m: if self.crosses_1m(s.ts_ms) {
                seq![s]
            } else {
                self.frames_1m.push(s)
            },
            entries: if self.crosses_10s(s.ts_ms) {
                ps
            } else {
                self.entries + ps
            },
        }
    }

    /// The rollup of the open 10-second bucket.
    pub open spec fn row_10s(self, device: Seq<char>) -> Option<SampleRollupView> {
        match self.bucket_10s {
            Some(b) => Some(sample_rollup(device, b, self.frames_10s)),
            None => None,
        }
    }

    /// The rollup of the open 1-minute bucket.
    pub open spec fn row_1m(self, device: Seq<char>) -> Option<SampleRollupView> {
        match self.bucket_1m {
            Some(b) => Some(sample_rollup(device, b, self.frames_1m)),
            None => None,
        }
    }

    /// The rollups of the processes of the open 10-second bucket.
    pub open spec fn process_rows(self, device: Seq<char>) -> Seq<ProcessRollupView> {
        match self.bucket_10s {
            Some(b) => process_rollups(device, b, self.entries),
            None => Seq::empty(),
        }
    }
}

/// One value where `on`, else none.
pub open spec fn only_if<T>(on: bool, v: Option<T>) -> Seq<T> {
    match v {
        Some(x) => if on {
            seq![x]
        } else {
            Seq::empty()
        },
        None => Seq::empty(),
    }
}

impl DevRecord {
    pub closed spec fn model(self) -> RecordModel {
        RecordModel {
            bucket_10s: self.s10.bucket(),
            frames_10s: self.s10.frames(),
            bucket_1m: self.s1m.bucket(),
            frames_1m: self.s1m.frames(),
            entries: self.p10.entries(),
        }
    }

    /// The accumulators hold their frames, at most `limit` process entries are folded, and the
    /// processes' bucket is the samples' bucket.
    pub closed spec fn wf(self, limit: nat) -> bool {
        &&& self.s10.wf()
        &&& self.s1m.wf()
        &&& self.p10.wf()
        &&& self.p10.bucket() == self.s10.bucket()
        &&& self.p10.entries().len() <= limit
        &&& self.s10.bucket() is Some ==> self.s10.frames().len() > 0
        &&& self.s1m.bucket() is Some ==> self.s1m.frames().len() > 0
    }

    fn new() -> (r: Self)
        ensures
            r.wf(0),
            r.model() == RecordModel::fresh(),
    {
        let r = DevRecord {
            s10: SampleAccum::new(),
            s1m: SampleAccum::new(),
            p10: ProcBucket::new(None),
        };
        assert(r.model() =~= RecordModel::fresh());
        r
    }
}

/// Rows that are due to be written, and the pruning that is due after them.
pub struct Flushed {
    pub samples_10s: Vec<SampleRollup>,
    pub samples_1m: Vec<SampleRollup>,
    pub processes_10s: Vec<ProcessRollup>,
    /// The time to prune relative to, where pruning is due.
    pub prune_at: Option<u64>,
}

/// Folds frames into buckets. Single frames are never handed out, only the rollups of buckets.
pub struct Recorder {
    devices: ById<DevRecord>,
    flushes_since_prune: u64,
    newest_ts_ms: u64,
    folded: u64,
}

/// The rollup of a device's open 10-second bucket.
pub open spec fn row_10s_rule(r: Recorder) -> spec_fn(Seq<char>) -> Option<SampleRollupView> {
    |id: Seq<char>| r.record(id).row_10s(id)
}

/// The rollup of a device's open 1-minute bucket.
pub open spec fn row_1m_rule(r: Recorder) -> spec_fn(Seq<char>) -> Option<SampleRollupView> {
    |id: Seq<char>| r.record(id).row_1m(id)
}

/// The process rollups of the devices, one after another.
pub open spec fn all_process_rows(r: Recorder, ids: Seq<Seq<char>>) -> Seq<ProcessRollupView>
    decreases ids.len(),
{
    if ids.len() == 0 {
        Seq::empty()
    } else {
        all_process_rows(r, ids.drop_last()) + r.record(ids.last()).process_rows(ids.last())
    }
}

impl Recorder {
    /// The open buckets of device `id`.
    pub closed spec fn record(self, id: Seq<char>) -> RecordModel {
        match self.devices.at(id) {
            Some(rec) => rec.model(),
            None => RecordModel::fresh(),
        }
    }

    /// The devices with open buckets, in the order of their first frames.
    pub closed spec fn devices(self) -> Seq<Seq<char>> {
        self.devices.ids()
    }

    /// Completed 10-second buckets since the last pruning.
    pub closed spec fn flushes(self) -> u64 {
        self.flushes_since_prune
    }

    /// The newest time seen.
    pub closed spec fn newest(self) -> u64 {
        self.newest_ts_ms
    }

    /// The number of process entries taken in so far.
    pub closed spec fn entries_folded(self) -> nat {
        self.folded as nat
    }

    pub closed spec fn wf(self) -> bool {
        &&& self.devices.wf()
        &&& self.flushes_since_prune < PRUNE_EVERY_FLUSHES
        &&& self.folded <= i64::MAX
        &&& forall|id: Seq<char>|
            (#[trigger] self.devices.at(id)) matches Some(rec) ==> rec.wf(self.folded as nat)
    }

    pub fn new() -> (r: Self)
        ensures
            r.wf(),
            r.devices() == Seq::<Seq<char>>::empty(),
            r.flushes() == 0,
            r.newest() == 0,
            r.entries_folded() == 0,
            forall|id: Seq<char>| #[trigger] r.record(id) == RecordModel::fresh(),
    {
        Recorder { devices: ById::new(), flushes_since_prune: 0, newest_ts_ms: 0, folded: 0 }
    }

    /// Can a frame of `dev` at `ts_ms` with `entries` process entries still be counted?
    pub fn has_room(&self, dev: &DeviceId, ts_ms: u64, entries: usize) -> (r: bool)
        requires
            self.wf(),
        ensures
            r == (self.entries_folded() + entries <= i64::MAX && (self.record(dev@).crosses_10s(
                ts_ms,
            ) || self.record(dev@).frames_10s.len() < u32::MAX) && (self.record(
                dev@,
            ).crosses_1m(ts_ms) || self.record(dev@).frames_1m.len() < u32::MAX)),
    {
        let few: bool = entries as u128 + self.folded as u128 <= i64::MAX as u128;
        let ghost id = dev@;
        match self.devices.get(dev) {
            Some(rec) => {
                let new_10s: bool = match rec.s10.bucket_ms() {
                    Some(b) => Tier::TenSec.bucket_of(ts_ms) > b,
                    None => false,
                };
                let new_1m: bool = match rec.s1m.bucket_ms() {
                    Some(b) => Tier::OneMin.bucket_of(ts_ms) > b,
                    None => false,
                };
                few && (new_10s || rec.s10.frame_count() < u32::MAX) && (new_1m
                    || rec.s1m.frame_count() < u32::MAX)
            },
            None => few,
        }
    }

    /// Folds a frame of a device. Where the frame lies in a later bucket than the open one, the
    /// rollups of the completed bucket are handed out and the frame starts the next.
    pub fn observe(&mut self, dev: &DeviceId, s: &DynamicSample, procs: &[ProcessSample]) -> (out:
        Flushed)
        requires
            old(self).wf(),
            old(self).entries_folded() + procs@.len() <= i64::MAX,
            old(self).record(dev@).crosses_10s(s.ts_ms) || old(self).record(dev@).frames_10s.len()
                < u32::MAX,
            old(self).record(dev@).crosses_1m(s.ts_ms) || old(self).record(dev@).frames_1m.len()
                < u32::MAX,
        ensures
            final(self).wf(),
            final(self).record(dev@) == old(self).record(dev@).with_frame(
                *s,
                proc_views(procs@),
            ),
            forall|d: Seq<char>|
                d != dev@ ==> #[trigger] final(self).record(d) == old(self).record(d),
            final(self).devices() == (if old(self).devices().contains(dev@) {
                old(self).devices()
            } else {
                old(self).devices().push(dev@)
            }),
            final(self).newest() == (if s.ts_ms > old(self).newest() {
                s.ts_ms
            } else {
                old(self).newest()
            }),
            final(self).entries_folded() == old(self).entries_folded() + procs@.len(),
            sample_views(out.samples_10s@) == only_if(
                old(self).record(dev@).crosses_10s(s.ts_ms),
                old(self).record(dev@).row_10s(dev@),
            ),
            sample_views(out.samples_1m@) == only_if(
                old(self).record(dev@).crosses_1m(s.ts_ms),
                old(self).record(dev@).row_1m(dev@),
            ),
            process_views(out.processes_10s@) == (if old(self).record(dev@).crosses_10s(s.ts_ms) {
                old(self).record(dev@).process_rows(dev@)
            } else {
                Seq::empty()
            }),
            ({
                let n = old(self).flushes() + if old(self).record(dev@).crosses_10s(s.ts_ms) {
                    1int
                } else {
                    0
                };
                if n >= PRUNE_EVERY_FLUSHES {
                    final(self).flushes() == 0 && out.prune_at == Some(final(self).newest())
                } else {
                    final(self).flushes() == n && out.prune_at is None
                }
            }),
    {
        let ghost m = self.record(dev@);
        if s.ts_ms > self.newest_ts_ms {
            self.newest_ts_ms = s.ts_ms;
        }
        let b10: u64 = Tier::TenSec.bucket_of(s.ts_ms);
        let b1m: u64 = Tier::OneMin.bucket_of(s.ts_ms);
        let mut rec = match self.devices.index_of(dev) {
            Some(i) => self.devices.replace_at(i, DevRecord::new()),
            None => DevRecord::new(),
        };
        assert(rec.model() == m);
        assert(rec.wf(self.folded as nat));
        proof {
            rec.s10.lemma_frames();
            rec.s1m.lemma_frames();
        }
        let mut out = Flushed {
            samples_10s: Vec::new(),
            samples_1m: Vec::new(),
            processes_10s: Vec::new(),
            prune_at: None,
        };
        let crossed_10s: bool = match rec.s10.bucket_ms() {
            Some(b) => b10 > b,
            None => false,
        };
        if crossed_10s {
            if let Some(row) = rec.s10.to_rollup(dev) {
                out.samples_10s.push(row);
            }
            if let Some(b) = rec.p10.bucket_ms() {
                out.processes_10s = rec.p10.to_rollups(dev, b);
            }
            rec.s10.reset(b10);
            rec.p10 = ProcBucket::new(Some(b10));
        } else {
            if rec.s10.bucket_ms().is_none() {
                rec.s10.reset(b10);
            }
            rec.p10.open(b10);
        }
        proof {
            assert(sample_views(out.samples_10s@) =~= only_if(m.crosses_10s(s.ts_ms), m.row_10s(dev@)));
            if !crossed_10s {
                assert(process_views(out.processes_10s@) =~= Seq::empty());
            }
        }
        assert(rec.s10.frames() =~= if m.crosses_10s(s.ts_ms) {
            Seq::empty()
        } else {
            m.frames_10s
        });
        rec.s10.fold(s);
        let crossed_1m: bool = match rec.s1m.bucket_ms() {
            Some(b) => b1m > b,
            None => false,
        };
        if crossed_1m {
            if let Some(row) = rec.s1m.to_rollup(dev) {
                out.samples_1m.push(row);
            }
            rec.s1m.reset(b1m);
        } else if rec.s1m.bucket_ms().is_none() {
            rec.s1m.reset(b1m);
        }
        assert(sample_views(out.samples_1m@) =~= only_if(m.crosses_1m(s.ts_ms), m.row_1m(dev@)));
        assert(rec.s1m.frames() =~= if m.crosses_1m(s.ts_ms) {
            Seq::empty()
        } else {
            m.frames_1m
        });
        rec.s1m.fold(s);
        let ghost folded = rec;
        let ghost es = rec.p10.entries();
        let ghost ps = proc_views(procs@);
        let mut i: usize = 0;
        assert(es =~= es + ps.take(0));
        while i < procs.len()
            invariant
                i <= procs.len(),
                ps == proc_views(procs@),
                rec.p10.wf(),
                rec.s10 == folded.s10,
                rec.s1m == folded.s1m,
                rec.p10.bucket() == folded.p10.bucket(),
                es.len() + procs@.len() <= i64::MAX,
                rec.p10.entries() == es + ps.take(i as int),
            decreases procs.len() - i,
        {
            rec.p10.fold(&procs[i]);
            assert(es + ps.take(i + 1) =~= (es + ps.take(i as int)).push(ps[i as int]));
            i = i + 1;
        }
        assert(ps.take(ps.len() as int) =~= ps);
        self.folded = self.folded + procs.len() as u64;
        if crossed_10s {
            self.flushes_since_prune = self.flushes_since_prune + 1;
            if self.flushes_since_prune >= PRUNE_EVERY_FLUSHES {
                self.flushes_since_prune = 0;
                out.prune_at = Some(self.newest_ts_ms);
            }
        }
        assert(rec.model() =~= m.with_frame(*s, ps));
        self.devices.insert(dev.clone(), rec);
        out
    }

    /// Hands out the rollups of all open buckets, complete or not, and closes them. (At shutdown:
    /// else the last window would be lost.)
    pub fn flush(&mut self) -> (out: Flushed)
        requires
            old(self).wf(),
        ensures
            final(self).wf(),
            forall|d: Seq<char>| #[trigger] final(self).record(d) == RecordModel::fresh(),
            final(self).devices() == Seq::<Seq<char>>::empty(),
            final(self).flushes() == old(self).flushes(),
            final(self).newest() == old(self).newest(),
            final(self).entries_folded() == old(self).entries_folded(),
            sample_views(out.samples_10s@) == filter_map(
                old(self).devices(),
                row_10s_rule(*old(self)),
            ),
            sample_views(out.samples_1m@) == filter_map(
                old(self).devices(),
                row_1m_rule(*old(self)),
            ),
            process_views(out.processes_10s@) == all_process_rows(
                *old(self),
                old(self).devices(),
            ),
            out.prune_at is None,
    {
        let mut out = Flushed {
            samples_10s: Vec::new(),
            samples_1m: Vec::new(),
            processes_10s: Vec::new(),
            prune_at: None,
        };
        let ghost r = *self;
        let ghost ids = self.devices();
        let ghost rule10 = row_10s_rule(r);
        let ghost rule1 = row_1m_rule(r);
        let mut i: usize = 0;
        proof {
            assert(sample_views(out.samples_10s@) =~= filter_map(ids.take(0), rule10));
            assert(sample_views(out.samples_1m@) =~= filter_map(ids.take(0), rule1));
            assert(process_views(out.processes_10s@) =~= all_process_rows(r, ids.take(0)));
        }
        while i < self.devices.len()
            invariant
                i <= ids.len(),
                *self == *old(self),
                r == *self,
                r.wf(),
                ids == r.devices(),
                rule10 == row_10s_rule(r),
                rule1 == row_1m_rule(r),
                sample_views(out.samples_10s@) == filter_map(ids.take(i as int), rule10),
                sample_views(out.samples_1m@) == filter_map(ids.take(i as int), rule1),
                process_views(out.processes_10s@) == all_process_rows(r, ids.take(i as int)),
                out.prune_at is None,
            decreases ids.len() - i,
        {
            let ghost id = ids[i as int];
            let ghost m = r.record(id);
            proof {
                lemma_filter_map_step(ids, rule10, i as int);
                lemma_filter_map_step(ids, rule1, i as int);
                assert(ids.take(i + 1).drop_last() =~= ids.take(i as int));
                assert(ids.take(i + 1).last() == id);
            }
            let rec = self.devices.value_at(i);
            let dev = self.devices.id_at(i);
            let ghost rows10 = out.samples_10s@;
            let ghost rows1 = out.samples_1m@;
            let ghost procs = out.processes_10s@;
            if let Some(row) = rec.s10.to_rollup(dev) {
                assert(sample_views(rows10.push(row)) =~= sample_views(rows10).push(row@));
                out.samples_10s.push(row);
            }
            if let Some(row) = rec.s1m.to_rollup(dev) {
                assert(sample_views(rows1.push(row)) =~= sample_views(rows1).push(row@));
                out.samples_1m.push(row);
            }
            match rec.p10.bucket_ms() {
                Some(b) => {
                    let mut rows = rec.p10.to_rollups(dev, b);
                    assert(process_views(procs + rows@) =~= process_views(procs) + process_views(
                        rows@,
                    ));
                    out.processes_10s.append(&mut rows);
                },
                None => {
                    assert(process_views(procs) =~= process_views(procs) + Seq::empty());
                },
            }
            i = i + 1;
        }
        assert(ids.take(ids.len() as int) =~= ids);
        self.devices = ById::new();
        out
    }

    /// No open bucket is empty.
    pub proof fn law_open_buckets_hold_frames(self, id: Seq<char>)
        requires
            self.wf(),
        ensures
            self.record(id).bucket_10s is Some ==> self.record(id).frames_10s.len() > 0,
            self.record(id).bucket_1m is Some ==> self.record(id).frames_1m.len() > 0,
    {
        if let Some(rec) = self.devices.at(id) {
            assert(rec.wf(self.folded as nat));
        }
    }
}

/// What is handed out at the end: of every device with open buckets the row of each tier, with the
/// bucket and the number of frames of that tier, and one after another the rows of its processes.
pub proof fn law_a_last_row_is_of_its_tier(r: Recorder, ids: Seq<Seq<char>>, id: Seq<char>)
    ensures
        row_10s_rule(r)(id) is Some <==> r.record(id).bucket_10s is Some,
        row_10s_rule(r)(id) matches Some(row) ==> row.device_id == id && Some(row.bucket_ms)
            == r.record(id).bucket_10s && (r.record(id).frames_10s.len() <= u32::MAX ==> row.n
            == r.record(id).frames_10s.len()),
        row_1m_rule(r)(id) is Some <==> r.record(id).bucket_1m is Some,
        row_1m_rule(r)(id) matches Some(row) ==> row.device_id == id && Some(row.bucket_ms)
            == r.record(id).bucket_1m && (r.record(id).frames_1m.len() <= u32::MAX ==> row.n
            == r.record(id).frames_1m.len()),
        all_process_rows(r, ids.push(id)) == all_process_rows(r, ids) + r.record(id).process_rows(id),
        all_process_rows(r, Seq::empty()) == Seq::<ProcessRollupView>::empty(),
{
    assert(ids.push(id).drop_last() =~= ids);
}

/// A row is handed out where its bucket is over, and only there; a bucket that was never opened has
/// none.
pub proof fn law_a_row_is_handed_out_once<T>(on: bool, v: Option<T>)
    ensures
        only_if(on, v).len() == (if on && v is Some {
            1nat
        } else {
            0
        }),
        only_if(on, v).len() > 0 ==> only_if(on, v)[0] == v->0,
{
}

} // verus!
