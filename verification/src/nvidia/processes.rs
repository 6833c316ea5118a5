//! The processes of a device of the NVIDIA driver.

use vstd::prelude::*;
use crate::drm::comm_text;
use crate::drm::comm_name;
use crate::model::{MilliPct, ProcView, ProcessKind, ProcessSample};
use crate::model::{pids_of, proc_views, text_view};
use crate::nvidia::UsedMemory;
use crate::nvidia::told_bytes;
use crate::nvidia::used_gpu_memory_bytes;
use crate::pid_table::PidTable;
use crate::pid_table::add_pids;
use crate::pid_table::{lemma_take_contains, rising};
use crate::proc_meta::{CpuTracker, Sighting};
use crate::proc_meta::container_of;
use crate::proc_meta::law_cpu_rate_is_cpu_time_over_elapsed_time;
use crate::proc_meta::{container_label, seen_after, stat_ticks, use_since};
use crate::scan::line_texts;
use crate::wddm::{base_name, name_by_image};
use crate::wddm::image_basename;
use crate::wddm::backend::PidImage;
use crate::wddm::backend::{counted_process, image_from};
use crate::wddm::backend::{counted_pids, counted_sample, image_name};
use crate::wddm::per_pid::{PidUtil, PidUtilView};
use crate::wddm::per_pid::{bytes_of, pid_sums_fit, size_of, util_of, util_view};
use crate::wddm::per_pid::{per_pid_bytes, per_pid_util};
use crate::wddm::snapshot::{PdhSnapshot, SnapshotView};
use crate::wddm::sums::Luid;

verus! {

/// An entry of one of the library's two lists of processes.
pub struct NvmlProcess {
    pub pid: u32,
    pub mem: UsedMemory,
}

/// What the library's lists tell of a process.
#[derive(Clone, Copy, Debug, PartialEq, Eq, Structural)]
pub struct Listed {
    pub kind: ProcessKind,
    pub mem_bytes: Option<u64>,
}

/// An entry, with the kind of its list.
pub struct Entry {
    pub pid: u32,
    pub listed: Listed,
}

/// The entries of a list.
pub open spec fn entries_of(list: Seq<NvmlProcess>, kind: ProcessKind) -> Seq<Entry> {
    Seq::new(
        list.len(),
        |i: int|
            Entry { pid: list[i].pid, listed: Listed { kind, mem_bytes: told_bytes(list[i].mem) } },
    )
}

/// The entries of the list of compute processes, and then those of graphics processes.
pub open spec fn entries(compute: Seq<NvmlProcess>, graphics: Seq<NvmlProcess>) -> Seq<Entry> {
    entries_of(compute, ProcessKind::Compute) + entries_of(graphics, ProcessKind::Graphics)
}

/// What one more entry makes of what is known of a process: that it is of both kinds, and its
/// memory where it was not told before.
pub open spec fn listed_with(before: Option<Listed>, e: Listed) -> Listed {
    match before {
        Some(b) => Listed {
            kind: ProcessKind::Both,
            mem_bytes: match b.mem_bytes {
                Some(m) => Some(m),
                None => e.mem_bytes,
            },
        },
        None => e,
    }
}

/// What the entries tell of a process; `None` where none is of it.
pub open spec fn listed_in(es: Seq<Entry>, pid: u32) -> Option<Listed>
    decreases es.len(),
{
    if es.len() == 0 {
        None
    } else if es.last().pid == pid {
        Some(listed_with(listed_in(es.drop_last(), pid), es.last().listed))
    } else {
        listed_in(es.drop_last(), pid)
    }
}

/// The process is of both kinds.
pub open spec fn is_both(l: Option<Listed>) -> bool {
    match l {
        Some(v) => v.kind == ProcessKind::Both,
        None => false,
    }
}

/// How many entries are of the process.
pub open spec fn entry_count(es: Seq<Entry>, pid: u32) -> nat
    decreases es.len(),
{
    if es.len() == 0 {
        0
    } else {
        entry_count(es.drop_last(), pid) + (if es.last().pid == pid {
            1nat
        } else {
            0
        })
    }
}

proof fn lemma_count(es: Seq<Entry>, pid: u32, i: int)
    requires
        0 <= i < es.len(),
        es[i].pid == pid,
    ensures
        entry_count(es, pid) >= 1,
        entry_count(es, pid) == 1 ==> listed_in(es, pid) == Some(es[i].listed),
    decreases es.len(),
{
    let t = es.drop_last();
    lemma_no_entry(t, pid);
    if i < t.len() {
        assert(t[i] == es[i]);
        lemma_count(t, pid, i);
    }
}

proof fn lemma_no_entry(es: Seq<Entry>, pid: u32)
    ensures
        entry_count(es, pid) == 0 <==> listed_in(es, pid) is None,
        entry_count(es, pid) >= 2 ==> is_both(listed_in(es, pid)),
    decreases es.len(),
{
    if es.len() > 0 {
        lemma_no_entry(es.drop_last(), pid);
    }
}

proof fn lemma_count_sum(a: Seq<Entry>, b: Seq<Entry>, pid: u32)
    ensures
        entry_count(a + b, pid) == entry_count(a, pid) + entry_count(b, pid),
    decreases b.len(),
{
    if b.len() == 0 {
        assert(a + b =~= a);
    } else {
        lemma_count_sum(a, b.drop_last(), pid);
        assert((a + b).drop_last() =~= a + b.drop_last());
        assert((a + b).last() == b.last());
    }
}

/// A process that both lists have is of both kinds. One that a single entry tells of is of the kind
/// of that entry's list, with the memory told there.
pub proof fn law_kinds_come_of_the_lists(
    compute: Seq<NvmlProcess>,
    graphics: Seq<NvmlProcess>,
    i: int,
    j: int,
)
    requires
        0 <= i < compute.len(),
        0 <= j < graphics.len(),
    ensures
        compute[i].pid == graphics[j].pid ==> is_both(
            listed_in(entries(compute, graphics), compute[i].pid),
        ),
        entry_count(entries(compute, graphics), compute[i].pid) == 1 ==> listed_in(
            entries(compute, graphics),
            compute[i].pid,
        ) == Some(Listed { kind: ProcessKind::Compute, mem_bytes: told_bytes(compute[i].mem) }),
        entry_count(entries(compute, graphics), graphics[j].pid) == 1 ==> listed_in(
            entries(compute, graphics),
            graphics[j].pid,
        ) == Some(Listed { kind: ProcessKind::Graphics, mem_bytes: told_bytes(graphics[j].mem) }),
{
    let a = entries_of(compute, ProcessKind::Compute);
    let b = entries_of(graphics, ProcessKind::Graphics);
    let es = entries(compute, graphics);
    assert(es[i] == a[i]);
    assert(es[a.len() + j] == b[j]);
    lemma_count(es, compute[i].pid, i);
    lemma_count(es, graphics[j].pid, a.len() + j);
    if compute[i].pid == graphics[j].pid {
        lemma_count(a, compute[i].pid, i);
        lemma_count(b, compute[i].pid, j);
        lemma_count_sum(a, b, compute[i].pid);
        lemma_no_entry(es, compute[i].pid);
    }
}

fn add_entries(t: &mut PidTable<Listed>, list: &Vec<NvmlProcess>, kind: ProcessKind, Ghost(
    before,
): Ghost<Seq<Entry>>)
    requires
        old(t).wf(),
        forall|pid: u32| #[trigger] old(t).at(pid) == listed_in(before, pid),
    ensures
        final(t).wf(),
        forall|pid: u32| #[trigger]
            final(t).at(pid) == listed_in(before + entries_of(list@, kind), pid),
{
    let ghost es = entries_of(list@, kind);
    let mut i: usize = 0;
    assert(before + es.take(0) =~= before);
    while i < list.len()
        invariant
            i <= list.len(),
            es == entries_of(list@, kind),
            t.wf(),
            forall|pid: u32| #[trigger]
                t.at(pid) == listed_in(before + es.take(i as int), pid),
        decreases list.len() - i,
    {
        let pid: u32 = list[i].pid;
        let mem: Option<u64> = used_gpu_memory_bytes(&list[i].mem);
        let next: Listed = match t.get(pid) {
            Some(b) => Listed {
                kind: ProcessKind::Both,
                mem_bytes: match b.mem_bytes {
                    Some(m) => Some(m),
                    None => mem,
                },
            },
            None => Listed { kind, mem_bytes: mem },
        };
        proof {
            let s = before + es.take(i + 1);
            assert(s.drop_last() =~= before + es.take(i as int));
            assert(s.last() == es[i as int]);
        }
        let _ = t.insert(pid, next);
        i = i + 1;
    }
    assert(es.take(i as int) =~= es);
}

/// Merges the two lists.
pub fn merge_lists(compute: &Vec<NvmlProcess>, graphics: &Vec<NvmlProcess>) -> (t: PidTable<Listed>)
    ensures
        t.wf(),
        forall|pid: u32| #[trigger] t.at(pid) == listed_in(entries(compute@, graphics@), pid),
{
    let mut t: PidTable<Listed> = PidTable::new();
    let ghost none = Seq::<Entry>::empty();
    add_entries(&mut t, compute, ProcessKind::Compute, Ghost(none));
    let ghost first = entries_of(compute@, ProcessKind::Compute);
    assert(none + first =~= first);
    add_entries(&mut t, graphics, ProcessKind::Graphics, Ghost(first));
    t
}

/// A sample of a process's utilization.
pub struct UtilSample {
    pub timestamp: u64,
    pub pid: u32,
    /// Percent.
    pub sm_util: u32,
}

/// The last sample of a process in the list.
pub open spec fn last_util(samples: Seq<UtilSample>, pid: u32) -> Option<u32>
    decreases samples.len(),
{
    if samples.len() == 0 {
        None
    } else if samples.last().pid == pid {
        Some(samples.last().sm_util)
    } else {
        last_util(samples.drop_last(), pid)
    }
}

/// The latest time among `since` and the samples.
pub open spec fn newest(samples: Seq<UtilSample>, since: u64) -> u64
    decreases samples.len(),
{
    if samples.len() == 0 {
        since
    } else {
        let rest = newest(samples.drop_last(), since);
        if samples.last().timestamp > rest {
            samples.last().timestamp
        } else {
            rest
        }
    }
}

pub fn newest_of(samples: &Vec<UtilSample>, since: u64) -> (r: u64)
    ensures
        r == newest(samples@, since),
{
    let mut r: u64 = since;
    let mut i: usize = 0;
    while i < samples.len()
        invariant
            i <= samples.len(),
            r == newest(samples@.take(i as int), since),
        decreases samples.len() - i,
    {
        assert(samples@.take(i + 1).drop_last() =~= samples@.take(i as int));
        if samples[i].timestamp > r {
            r = samples[i].timestamp;
        }
        i = i + 1;
    }
    assert(samples@.take(i as int) =~= samples@);
    r
}

fn last_util_of(samples: &Vec<UtilSample>, pid: u32) -> (r: Option<u32>)
    ensures
        r == last_util(samples@, pid),
{
    let mut n: usize = samples.len();
    assert(samples@.take(n as int) =~= samples@);
    while n > 0
        invariant
            n <= samples.len(),
            last_util(samples@.take(n as int), pid) == last_util(samples@, pid),
        decreases n,
    {
        assert(samples@.take(n as int).drop_last() =~= samples@.take(n - 1));
        if samples[n - 1].pid == pid {
            return Some(samples[n - 1].sm_util);
        }
        n = n - 1;
    }
    None
}

/// Whole percents as a sample holds them.
pub open spec fn percent(n: u32) -> MilliPct {
    (n * 1000) as MilliPct
}

/// Whole percents as a sample holds them.
pub fn to_percent(n: u32) -> (r: MilliPct)
    ensures
        r == percent(n),
{
    n as MilliPct * 1000
}

/// What is read of a process on Linux: its name as the library tells it, and its comm, stat and
/// cgroup files.
pub struct NvmlPidFiles {
    pub pid: u32,
    pub sys_name: Option<String>,
    pub comm: Option<String>,
    pub stat: Option<String>,
    pub cgroup: Option<String>,
}

#[verifier::ext_equal]
pub struct PidFacts {
    pub sys_name: Option<Seq<char>>,
    pub comm: Option<Seq<char>>,
    pub stat: Option<Seq<char>>,
    pub cgroup: Option<Seq<char>>,
}

/// What the first entry of the process from `i` on tells; nothing where there is none.
pub open spec fn facts_from(fs: Seq<NvmlPidFiles>, pid: u32, i: int) -> PidFacts
    decreases fs.len() - i,
{
    if i < 0 || i >= fs.len() {
        PidFacts { sys_name: None, comm: None, stat: None, cgroup: None }
    } else if fs[i].pid == pid {
        PidFacts {
            sys_name: text_view(fs[i].sys_name),
            comm: text_view(fs[i].comm),
            stat: text_view(fs[i].stat),
            cgroup: text_view(fs[i].cgroup),
        }
    } else {
        facts_from(fs, pid, i + 1)
    }
}

/// The place of the first entry of the process.
fn place_of(fs: &Vec<NvmlPidFiles>, pid: u32) -> (r: Option<usize>)
    ensures
        match r {
            Some(i) => i < fs@.len() && fs@[i as int].pid == pid && facts_from(fs@, pid, i as int)
                == facts_from(fs@, pid, 0),
            None => facts_from(fs@, pid, 0) == (PidFacts {
                sys_name: None,
                comm: None,
                stat: None,
                cgroup: None,
            }),
        },
{
    let mut i: usize = 0;
    while i < fs.len()
        invariant
            i <= fs.len(),
            facts_from(fs@, pid, i as int) == facts_from(fs@, pid, 0),
        decreases fs.len() - i,
    {
        if fs[i].pid == pid {
            return Some(i);
        }
        i = i + 1;
    }
    None
}

/// The name of a process: the last part of what the library tells; where it tells nothing, what the
/// system does; else its id.
pub open spec fn process_text(
    sys_name: Option<Seq<char>>,
    comm: Option<Seq<char>>,
    pid: u32,
) -> Seq<char> {
    match sys_name {
        Some(n) => base_name(n),
        None => comm_text(comm, pid),
    }
}

pub fn process_name(sys_name: &Option<String>, comm: &Option<String>, pid: u32) -> (r: String)
    ensures
        r@ == process_text(text_view(*sys_name), text_view(*comm), pid),
{
    match sys_name {
        Some(n) => image_basename(n.as_str()),
        None => comm_name(comm, pid),
    }
}

/// The last reading of a process's CPU time after one more look at its stat file.
pub open spec fn sighting_after(
    before: Option<Sighting>,
    stat: Option<Seq<char>>,
    now_ns: u64,
) -> Option<Sighting> {
    seen_after(before, stat, now_ns)
}

/// The CPU use since the last reading.
pub open spec fn cpu_since(
    before: Option<Sighting>,
    stat: Option<Seq<char>>,
    now_ns: u64,
) -> Option<MilliPct> {
    use_since(before, stat, now_ns)
}

/// A listed process on Linux.
pub open spec fn linux_process(
    pid: u32,
    l: Listed,
    samples: Option<Seq<UtilSample>>,
    facts: PidFacts,
    before: Option<Sighting>,
    now_ns: u64,
) -> ProcView {
    ProcView {
        pid,
        name: process_text(facts.sys_name, facts.comm, pid),
        kind: l.kind,
        mem_bytes: l.mem_bytes,
        util_pct: match samples {
            Some(s) => match last_util(s, pid) {
                Some(u) => Some(percent(u)),
                None => None,
            },
            None => None,
        },
        cpu_pct: cpu_since(before, facts.stat, now_ns),
        container: match facts.cgroup {
            Some(c) => container_label(line_texts(c), 0),
            None => None,
        },
    }
}

/// The samples, where the library gave them.
pub open spec fn samples_view(s: Option<Vec<UtilSample>>) -> Option<Seq<UtilSample>> {
    match s {
        Some(v) => Some(v@),
        None => None,
    }
}

/// The listed processes on Linux, by rising id. `before` gives the last readings of their CPU
/// times.
pub open spec fn lists_linux(
    out: Seq<ProcView>,
    es: Seq<Entry>,
    samples: Option<Seq<UtilSample>>,
    fs: Seq<NvmlPidFiles>,
    before: spec_fn(u32) -> Option<Sighting>,
    now_ns: u64,
) -> bool {
    &&& rising(pids_of(out))
    &&& forall|pid: u32| listed_in(es, pid) is Some <==> #[trigger] pids_of(out).contains(pid)
    &&& forall|i: int|
        0 <= i < out.len() ==> #[trigger] out[i] == linux_process(
            out[i].pid,
            listed_in(es, out[i].pid)->0,
            samples,
            facts_from(fs, out[i].pid, 0),
            before(out[i].pid),
            now_ns,
        )
}

/// Lists the processes on Linux, and takes a reading of their CPU times. Those that are no longer
/// listed, here or among those `elsewhere`, are forgotten.
pub fn list_linux(
    compute: &Vec<NvmlProcess>,
    graphics: &Vec<NvmlProcess>,
    samples: &Option<Vec<UtilSample>>,
    fs: &Vec<NvmlPidFiles>,
    cpu: &mut CpuTracker,
    elsewhere: &Vec<u32>,
    now_ns: u64,
) -> (v: Vec<ProcessSample>)
    requires
        old(cpu).seen.wf(),
    ensures
        lists_linux(
            proc_views(v@),
            entries(compute@, graphics@),
            samples_view(*samples),
            fs@,
            |pid: u32| old(cpu).seen.at(pid),
            now_ns,
        ),
        final(cpu).seen.wf(),
        forall|pid: u32| #[trigger]
            final(cpu).seen.at(pid) == (match listed_in(entries(compute@, graphics@), pid) {
                Some(_) => sighting_after(
                    old(cpu).seen.at(pid),
                    facts_from(fs@, pid, 0).stat,
                    now_ns,
                ),
                None => if elsewhere@.contains(pid) {
                    old(cpu).seen.at(pid)
                } else {
                    None
                },
            }),
{
    let table = merge_lists(compute, graphics);
    let ghost es = entries(compute@, graphics@);
    let ghost pids = table.pids();
    proof {
        table.lemma_at();
    }
    let mut out: Vec<ProcessSample> = Vec::new();
    let mut live: Vec<u32> = Vec::new();
    let mut i: usize = 0;
    assert(pids_of(proc_views(out@)) =~= pids.take(0));
    while i < table.len()
        invariant
            i <= pids.len(),
            pids == table.pids(),
            table.wf(),
            cpu.seen.wf(),
            es == entries(compute@, graphics@),
            forall|pid: u32| #[trigger] table.at(pid) == listed_in(es, pid),
            live@ == pids.take(i as int),
            pids_of(proc_views(out@)) == pids.take(i as int),
            forall|pid: u32| #[trigger]
                cpu.seen.at(pid) == (if live@.contains(pid) {
                    sighting_after(old(cpu).seen.at(pid), facts_from(fs@, pid, 0).stat, now_ns)
                } else {
                    old(cpu).seen.at(pid)
                }),
            forall|k: int|
                0 <= k < out@.len() ==> (#[trigger] proc_views(out@)[k]) == linux_process(
                    pids[k],
                    listed_in(es, pids[k])->0,
                    samples_view(*samples),
                    facts_from(fs@, pids[k], 0),
                    old(cpu).seen.at(pids[k]),
                    now_ns,
                ),
        decreases pids.len() - i,
    {
        let pid: u32 = table.pid_at(i);
        let listed: Listed = *table.value_at(i);
        proof {
            lemma_take_contains(pids, i as int);
            assert(!live@.contains(pid)) by {
                if live@.contains(pid) {
                    let k = choose|k: int| 0 <= k < live@.len() && live@[k] == pid;
                    assert(pids[k] == pid && k < i);
                }
            }
        }
        let util_pct: Option<MilliPct> = match samples {
            Some(s) => match last_util_of(s, pid) {
                Some(u) => Some(to_percent(u)),
                None => None,
            },
            None => None,
        };
        let ghost facts = facts_from(fs@, pid, 0);
        let (name, cpu_pct, container): (String, Option<MilliPct>, Option<String>) = match place_of(
            fs,
            pid,
        ) {
            Some(k) => {
                let f = &fs[k];
                let stat: Option<&str> = match &f.stat {
                    Some(s) => Some(s.as_str()),
                    None => None,
                };
                let cgroup: Option<&str> = match &f.cgroup {
                    Some(c) => Some(c.as_str()),
                    None => None,
                };
                (
                    process_name(&f.sys_name, &f.comm, pid),
                    cpu.sample(pid, stat, now_ns),
                    container_of(cgroup),
                )
            },
            None => (process_name(&None, &None, pid), None, None),
        };
        let p = ProcessSample {
            pid,
            name,
            kind: listed.kind,
            mem_bytes: listed.mem_bytes,
            util_pct,
            cpu_pct,
            container,
        };
        let ghost before = out@;
        let ghost pv = p@;
        proof {
            assert(pv =~= linux_process(
                pid,
                listed_in(es, pid)->0,
                samples_view(*samples),
                facts,
                old(cpu).seen.at(pid),
                now_ns,
            ));
        }
        out.push(p);
        live.push(pid);
        assert(pids.take(i + 1) =~= pids.take(i as int).push(pid));
        assert(proc_views(out@) =~= proc_views(before).push(pv));
        assert(pids_of(proc_views(out@)) =~= pids_of(proc_views(before)).push(pid));
        i = i + 1;
    }
    assert(pids.take(i as int) =~= pids);
    let ghost here = live@;
    let mut k: usize = 0;
    assert(elsewhere@.take(0) =~= Seq::empty());
    assert(live@ =~= here + elsewhere@.take(0));
    while k < elsewhere.len()
        invariant
            k <= elsewhere@.len(),
            live@ == here + elsewhere@.take(k as int),
        decreases elsewhere@.len() - k,
    {
        live.push(elsewhere[k]);
        assert(live@ =~= here + elsewhere@.take(k + 1));
        k = k + 1;
    }
    assert(elsewhere@.take(k as int) =~= elsewhere@);
    cpu.prune(live.as_slice());
    proof {
        assert forall|pid: u32| #[trigger] live@.contains(pid) <==> here.contains(pid)
            || elsewhere@.contains(pid) by {
            if here.contains(pid) {
                let x = choose|x: int| 0 <= x < here.len() && here[x] == pid;
                assert(live@[x] == pid);
            }
            if elsewhere@.contains(pid) {
                let x = choose|x: int| 0 <= x < elsewhere@.len() && elsewhere@[x] == pid;
                assert(live@[here.len() + x] == pid);
            }
        }
        assert forall|pid: u32| listed_in(es, pid) is Some <==> #[trigger] pids_of(
            proc_views(out@),
        ).contains(pid) by {
            assert(table.at(pid) == listed_in(es, pid));
        }
        assert forall|pid: u32| #[trigger]
            cpu.seen.at(pid) == (match listed_in(es, pid) {
                Some(_) => sighting_after(
                    old(cpu).seen.at(pid),
                    facts_from(fs@, pid, 0).stat,
                    now_ns,
                ),
                None => if elsewhere@.contains(pid) {
                    old(cpu).seen.at(pid)
                } else {
                    None
                },
            }) by {
            assert(table.at(pid) == listed_in(es, pid));
        }
    }
    out
}

/// What the system's counters tell of a process on a device: its utilization and its bytes. They
/// tell nothing where there are none, and where no adapter has the device's address.
pub open spec fn counted_util(
    snap: Option<SnapshotView>,
    luid: Option<Luid>,
    pid: u32,
) -> Option<PidUtilView> {
    match (snap, luid) {
        (Some(s), Some(l)) => util_of(s.engine_util, l, pid),
        _ => None,
    }
}

pub open spec fn counted_bytes(
    snap: Option<SnapshotView>,
    luid: Option<Luid>,
    pid: u32,
) -> Option<nat> {
    match (snap, luid) {
        (Some(s), Some(l)) => bytes_of(s.proc_dedicated, l, pid),
        _ => None,
    }
}

/// A process on Windows. The library's lists come first, as they know its kind; the counters tell
/// what the lists do not, and of processes that are not in them.
pub open spec fn windows_process(
    pid: u32,
    listed: Option<Listed>,
    sys_name: Option<Seq<char>>,
    image: Option<Seq<char>>,
    util: Option<PidUtilView>,
    bytes: Option<nat>,
) -> ProcView {
    let counted = counted_process(pid, name_by_image(image, pid), util, bytes);
    match listed {
        Some(l) => ProcView {
            name: process_text(sys_name, None, pid),
            kind: l.kind,
            mem_bytes: match l.mem_bytes {
                Some(m) => Some(m),
                None => counted.mem_bytes,
            },
            ..counted
        },
        None => counted,
    }
}

/// The processes on Windows, by rising id: those that the lists have, and those that the counters
/// tell of.
pub open spec fn lists_windows(
    out: Seq<ProcView>,
    es: Seq<Entry>,
    snap: Option<SnapshotView>,
    luid: Option<Luid>,
    fs: Seq<NvmlPidFiles>,
    images: Seq<PidImage>,
) -> bool {
    &&& rising(pids_of(out))
    &&& forall|pid: u32| #[trigger]
        pids_of(out).contains(pid) <==> listed_in(es, pid) is Some || counted_util(snap, luid, pid)
            is Some || counted_bytes(snap, luid, pid) is Some
    &&& forall|i: int|
        0 <= i < out.len() ==> #[trigger] out[i] == windows_process(
            out[i].pid,
            listed_in(es, out[i].pid),
            facts_from(fs, out[i].pid, 0).sys_name,
            image_from(images, out[i].pid, 0),
            counted_util(snap, luid, out[i].pid),
            counted_bytes(snap, luid, out[i].pid),
        )
}

/// The view of an optional collection.
pub open spec fn snap_view(snap: Option<&PdhSnapshot>) -> Option<SnapshotView> {
    match snap {
        Some(s) => Some(s@),
        None => None,
    }
}

/// The sums over the counters of a device are sizes that can be told.
pub open spec fn device_sums_fit(snap: Option<SnapshotView>, luid: Option<Luid>) -> bool {
    match (snap, luid) {
        (Some(s), Some(l)) => pid_sums_fit(s.proc_dedicated, l),
        _ => true,
    }
}

/// The tables of what the counters tell.
fn count(snap: Option<&PdhSnapshot>, luid: Option<Luid>) -> (r: (PidTable<PidUtil>, PidTable<u64>))
    requires
        device_sums_fit(snap_view(snap), luid),
    ensures
        r.0.wf(),
        r.1.wf(),
        forall|pid: u32|
            util_view(#[trigger] r.0.at(pid)) == counted_util(snap_view(snap), luid, pid),
        forall|pid: u32| #[trigger]
            r.1.at(pid) == size_of(counted_bytes(snap_view(snap), luid, pid)),
{
    match (snap, luid) {
        (Some(s), Some(l)) => (
            per_pid_util(&s.engine_util, l),
            per_pid_bytes(&s.proc_dedicated, l),
        ),
        _ => (PidTable::new(), PidTable::new()),
    }
}

/// Lists the processes on Windows.
pub fn list_windows(
    compute: &Vec<NvmlProcess>,
    graphics: &Vec<NvmlProcess>,
    snap: Option<&PdhSnapshot>,
    luid: Option<Luid>,
    fs: &Vec<NvmlPidFiles>,
    images: &Vec<PidImage>,
) -> (v: Vec<ProcessSample>)
    requires
        device_sums_fit(snap_view(snap), luid),
    ensures
        lists_windows(
            proc_views(v@),
            entries(compute@, graphics@),
            snap_view(snap),
            luid,
            fs@,
            images@,
        ),
{
    let listed = merge_lists(compute, graphics);
    let (util, mem) = count(snap, luid);
    let mut table = counted_pids(&util, &mem);
    add_pids(&mut table, &listed);
    let ghost es = entries(compute@, graphics@);
    let ghost sv = snap_view(snap);
    let ghost pids = table.pids();
    proof {
        table.lemma_at();
    }
    let mut out: Vec<ProcessSample> = Vec::new();
    let mut i: usize = 0;
    assert(pids_of(proc_views(out@)) =~= pids.take(0));
    while i < table.len()
        invariant
            i <= pids.len(),
            pids == table.pids(),
            listed.wf(),
            util.wf(),
            mem.wf(),
            es == entries(compute@, graphics@),
            sv == snap_view(snap),
            forall|pid: u32| #[trigger] listed.at(pid) == listed_in(es, pid),
            forall|pid: u32| util_view(#[trigger] util.at(pid)) == counted_util(sv, luid, pid),
            forall|pid: u32| #[trigger] mem.at(pid) == size_of(counted_bytes(sv, luid, pid)),
            pids_of(proc_views(out@)) == pids.take(i as int),
            forall|k: int|
                0 <= k < out@.len() ==> (#[trigger] proc_views(out@)[k]) == windows_process(
                    pids[k],
                    listed_in(es, pids[k]),
                    facts_from(fs@, pids[k], 0).sys_name,
                    image_from(images@, pids[k], 0),
                    counted_util(sv, luid, pids[k]),
                    counted_bytes(sv, luid, pids[k]),
                ),
        decreases pids.len() - i,
    {
        let pid: u32 = table.pid_at(i);
        let u = util.get(pid);
        let b = mem.get(pid);
        let mut p = counted_sample(pid, image_name(images, pid), u, b);
        proof {
            assert(util_view(util.at(pid)) == counted_util(sv, luid, pid));
            assert(mem.at(pid) == size_of(counted_bytes(sv, luid, pid)));
            assert(p@ =~= counted_process(
                pid,
                name_by_image(image_from(images@, pid, 0), pid),
                counted_util(sv, luid, pid),
                counted_bytes(sv, luid, pid),
            ));
        }
        if let Some(l) = listed.get(pid) {
            p.kind = l.kind;
            if l.mem_bytes.is_some() {
                p.mem_bytes = l.mem_bytes;
            }
            p.name = match place_of(fs, pid) {
                Some(k) => process_name(&fs[k].sys_name, &None, pid),
                None => process_name(&None, &None, pid),
            };
        }
        let ghost before = out@;
        let ghost pv = p@;
        proof {
            assert(pv =~= windows_process(
                pid,
                listed_in(es, pid),
                facts_from(fs@, pid, 0).sys_name,
                image_from(images@, pid, 0),
                counted_util(sv, luid, pid),
                counted_bytes(sv, luid, pid),
            ));
        }
        out.push(p);
        assert(pids.take(i + 1) =~= pids.take(i as int).push(pid));
        assert(proc_views(out@) =~= proc_views(before).push(pv));
        assert(pids_of(proc_views(out@)) =~= pids_of(proc_views(before)).push(pid));
        i = i + 1;
    }
    assert(pids.take(i as int) =~= pids);
    proof {
        assert forall|pid: u32| #[trigger]
            pids_of(proc_views(out@)).contains(pid) <==> listed_in(es, pid) is Some || counted_util(
                sv,
                luid,
                pid,
            ) is Some || counted_bytes(sv, luid, pid) is Some by {
            assert(table.at(pid) is Some <==> pids.contains(pid));
            assert(listed.at(pid) == listed_in(es, pid));
            assert(util_view(util.at(pid)) == counted_util(sv, luid, pid));
            assert(mem.at(pid) == size_of(counted_bytes(sv, luid, pid)));
        }
    }
    out
}

/// A process's utilization is that of its last sample, a thousand thousandths to the percent, and
/// missing where there is no sample of it.
pub proof fn law_the_last_sample_of_a_process_counts(samples: Seq<UtilSample>, pid: u32)
    ensures
        last_util(samples, pid) matches Some(u) ==> exists|i: int|
            0 <= i < samples.len() && (#[trigger] samples[i]).pid == pid && samples[i].sm_util == u
                && forall|j: int| i < j < samples.len() ==> (#[trigger] samples[j]).pid != pid,
        last_util(samples, pid) is None ==> forall|j: int|
            0 <= j < samples.len() ==> (#[trigger] samples[j]).pid != pid,
        last_util(samples, pid) matches Some(u) ==> percent(u) == 1000 * u,
    decreases samples.len(),
{
    if samples.len() > 0 {
        let t = samples.drop_last();
        law_the_last_sample_of_a_process_counts(t, pid);
        assert(samples[t.len() as int] == samples.last());
        if samples.last().pid != pid {
            if let Some(u) = last_util(samples, pid) {
                let i = choose|i: int|
                    0 <= i < t.len() && (#[trigger] t[i]).pid == pid && t[i].sm_util == u && forall|
                        j: int,
                    |
                        i < j < t.len() ==> (#[trigger] t[j]).pid != pid;
                assert(samples[i] == t[i]);
                assert forall|j: int| i < j < samples.len() implies (#[trigger] samples[j]).pid
                    != pid by {
                    if j < t.len() {
                        assert(samples[j] == t[j]);
                    }
                }
            } else {
                assert forall|j: int| 0 <= j < samples.len() implies (#[trigger] samples[j]).pid
                    != pid by {
                    if j < t.len() {
                        assert(samples[j] == t[j]);
                    }
                }
            }
        }
    }
}

/// A process's memory is what the first of its entries that tells any tells, those of the compute
/// list before those of the graphics list; where none tells any, it is unknown, never zero.
pub proof fn law_the_first_told_memory_counts(es: Seq<Entry>, pid: u32)
    ensures
        listed_in(es, pid) is Some <==> exists|i: int|
            0 <= i < es.len() && (#[trigger] es[i]).pid == pid,
        listed_in(es, pid) matches Some(l) ==> match l.mem_bytes {
            Some(b) => exists|i: int|
                0 <= i < es.len() && (#[trigger] es[i]).pid == pid && es[i].listed.mem_bytes == Some(
                    b,
                ) && forall|j: int|
                    0 <= j < i && (#[trigger] es[j]).pid == pid ==> es[j].listed.mem_bytes is None,
            None => forall|j: int|
                0 <= j < es.len() && (#[trigger] es[j]).pid == pid ==> es[j].listed.mem_bytes
                    is None,
        },
    decreases es.len(),
{
    if es.len() > 0 {
        let t = es.drop_last();
        let n = t.len() as int;
        law_the_first_told_memory_counts(t, pid);
        assert(es[n] == es.last());
        assert forall|j: int| 0 <= j < n implies #[trigger] es[j] == t[j] by {}
        if let Some(i) = some_index(t, pid) {
            assert(es[i] == t[i]);
        }
        if let Some(l) = listed_in(es, pid) {
            match l.mem_bytes {
                Some(b) => {
                    if listed_in(t, pid) is Some && listed_in(t, pid)->0.mem_bytes is Some {
                        let i = choose|i: int|
                            0 <= i < t.len() && (#[trigger] t[i]).pid == pid
                                && t[i].listed.mem_bytes == Some(b) && forall|j: int|
                                0 <= j < i && (#[trigger] t[j]).pid == pid
                                    ==> t[j].listed.mem_bytes is None;
                        assert(es[i] == t[i]);
                        assert forall|j: int| 0 <= j < i && (#[trigger] es[j]).pid == pid implies
                            es[j].listed.mem_bytes is None by {
                            assert(es[j] == t[j]);
                        }
                    } else {
                        assert(es[n].listed.mem_bytes == Some(b));
                        assert forall|j: int| 0 <= j < n && (#[trigger] es[j]).pid == pid implies
                            es[j].listed.mem_bytes is None by {
                            assert(es[j] == t[j]);
                        }
                    }
                },
                None => {
                    assert forall|j: int|
                        0 <= j < es.len() && (#[trigger] es[j]).pid == pid implies
                        es[j].listed.mem_bytes is None by {
                        if j < n {
                            assert(es[j] == t[j]);
                        }
                    }
                },
            }
        }
    }
}

/// An entry of the process, where there is one.
spec fn some_index(es: Seq<Entry>, pid: u32) -> Option<int> {
    if exists|i: int| 0 <= i < es.len() && (#[trigger] es[i]).pid == pid {
        Some(choose|i: int| 0 <= i < es.len() && (#[trigger] es[i]).pid == pid)
    } else {
        None
    }
}

/// A process on Linux has the kind and the memory of the driver's lists, the utilization of its last
/// sample, and the CPU use since the last time its stat file was read; what is not known is missing.
pub proof fn law_a_process_is_told_by_its_sources(
    pid: u32,
    l: Listed,
    samples: Option<Seq<UtilSample>>,
    facts: PidFacts,
    before: Option<Sighting>,
    now_ns: u64,
)
    ensures
        ({
            let p = linux_process(pid, l, samples, facts, before, now_ns);
            &&& p.pid == pid && p.kind == l.kind && p.mem_bytes == l.mem_bytes
            &&& p.util_pct is Some <==> samples is Some && last_util(samples->0, pid) is Some
            &&& p.util_pct matches Some(u) ==> u == 1000 * last_util(samples->0, pid)->0
            &&& p.cpu_pct is Some ==> before is Some && facts.stat is Some && stat_ticks(
                facts.stat->0,
            ) is Some
            &&& p.cpu_pct matches Some(c) ==> ({
                let cpu_ns = (stat_ticks(facts.stat->0)->0 - before->0.ticks) * 10_000_000;
                let elapsed_ns = now_ns - before->0.at_ns;
                elapsed_ns > 0 && 0 <= cpu_ns && (cpu_ns <= 64 * elapsed_ns ==> c * elapsed_ns
                    <= cpu_ns * 100_000 < (c + 1) * elapsed_ns)
            })
            &&& facts.sys_name is Some ==> p.name == base_name(facts.sys_name->0)
            &&& facts.sys_name is None ==> p.name == comm_text(facts.comm, pid)
            &&& facts.cgroup is None ==> p.container is None
        }),
{
    if let (Some(prev), Some(s)) = (before, facts.stat) {
        if let Some(ticks) = stat_ticks(s) {
            law_cpu_rate_is_cpu_time_over_elapsed_time(
                prev,
                Sighting { ticks: ticks as u64, at_ns: now_ns },
            );
        }
    }
}

/// A process on Windows that the driver lists has the kind that it is listed with, and the memory
/// that the driver tells, or else what Windows counts; one that only Windows counts has what it
/// counts. The utilization is always what Windows counts.
pub proof fn law_windows_counts_what_the_driver_does_not_tell(
    pid: u32,
    listed: Option<Listed>,
    sys_name: Option<Seq<char>>,
    image: Option<Seq<char>>,
    util: Option<PidUtilView>,
    bytes: Option<nat>,
)
    requires
        bytes matches Some(b) ==> b <= u64::MAX,
    ensures
        ({
            let p = windows_process(pid, listed, sys_name, image, util, bytes);
            &&& p.pid == pid && p.cpu_pct is None && p.container is None
            &&& p.util_pct is Some <==> util is Some
            &&& util matches Some(u) ==> p.util_pct == Some(u.pct)
            &&& listed matches Some(l) ==> p.kind == l.kind
            &&& listed is None ==> (p.kind is Compute <==> util is Some && util->0.compute_hint)
            &&& listed is None ==> (p.kind is Unknown <==> !(p.kind is Compute))
            &&& listed is Some && listed->0.mem_bytes is Some ==> p.mem_bytes
                == listed->0.mem_bytes
            &&& listed is None || listed->0.mem_bytes is None ==> match bytes {
                Some(b) => p.mem_bytes is Some && p.mem_bytes->0 == b,
                None => p.mem_bytes is None,
            }
        }),
{
}

/// What is told of a process comes from the first entry of it; of a process without an entry nothing
/// is told.
pub proof fn law_the_first_facts_of_a_process_count(fs: Seq<NvmlPidFiles>, pid: u32, i: int)
    requires
        0 <= i <= fs.len(),
        forall|j: int| 0 <= j < i ==> (#[trigger] fs[j]).pid != pid,
    ensures
        i < fs.len() && fs[i].pid == pid ==> {
            let facts = facts_from(fs, pid, 0);
            &&& facts.sys_name == text_view(fs[i].sys_name)
            &&& facts.comm == text_view(fs[i].comm)
            &&& facts.stat == text_view(fs[i].stat)
            &&& facts.cgroup == text_view(fs[i].cgroup)
        },
        i == fs.len() ==> {
            let facts = facts_from(fs, pid, 0);
            facts.sys_name is None && facts.comm is None && facts.stat is None && facts.cgroup
                is None
        },
{
    lemma_facts_from(fs, pid, 0, i);
}

proof fn lemma_facts_from(fs: Seq<NvmlPidFiles>, pid: u32, k: int, i: int)
    requires
        0 <= k <= i <= fs.len(),
        forall|j: int| 0 <= j < i ==> (#[trigger] fs[j]).pid != pid,
    ensures
        facts_from(fs, pid, k) == facts_from(fs, pid, i),
    decreases i - k,
{
    if k < i {
        assert(fs[k].pid != pid);
        lemma_facts_from(fs, pid, k + 1, i);
    }
}

/// Windows counts nothing of a process where nothing was collected, and where no adapter has the
/// device's address.
pub proof fn law_nothing_is_counted_without_an_adapter(
    snap: Option<SnapshotView>,
    luid: Option<Luid>,
    pid: u32,
)
    ensures
        snap is None || luid is None ==> counted_util(snap, luid, pid) is None && counted_bytes(
            snap,
            luid,
            pid,
        ) is None,
        snap is Some && luid is Some ==> counted_util(snap, luid, pid) == util_of(
            snap->0.engine_util,
            luid->0,
            pid,
        ) && counted_bytes(snap, luid, pid) == bytes_of(snap->0.proc_dedicated, luid->0, pid),
{
}

/// The list on Linux has each process that the driver's lists have, once and by rising id, and no
/// other.
pub proof fn law_the_list_has_what_the_driver_lists(
    out: Seq<ProcView>,
    es: Seq<Entry>,
    samples: Option<Seq<UtilSample>>,
    fs: Seq<NvmlPidFiles>,
    before: spec_fn(u32) -> Option<Sighting>,
    now_ns: u64,
)
    requires
        lists_linux(out, es, samples, fs, before, now_ns),
    ensures
        forall|i: int, j: int| 0 <= i < j < out.len() ==> (#[trigger] out[i]).pid < (#[trigger] out[j]).pid,
        forall|i: int| 0 <= i < es.len() ==> has_process(out, (#[trigger] es[i]).pid),
        forall|j: int|
            0 <= j < out.len() ==> exists|i: int|
                0 <= i < es.len() && (#[trigger] es[i]).pid == (#[trigger] out[j]).pid,
        forall|j: int|
            0 <= j < out.len() ==> (#[trigger] out[j]).mem_bytes == listed_in(
                es,
                out[j].pid,
            )->0.mem_bytes,
{
    let pids = pids_of(out);
    assert forall|i: int, j: int| 0 <= i < j < out.len() implies (#[trigger] out[i]).pid < (#[trigger] out[j]).pid by {
        assert(pids[i] < pids[j]);
    }
    assert forall|i: int| 0 <= i < es.len() implies has_process(out, (#[trigger] es[i]).pid) by {
        law_the_first_told_memory_counts(es, es[i].pid);
        assert(pids.contains(es[i].pid));
        let k = pids.index_of(es[i].pid);
        assert(out[k].pid == es[i].pid);
    }
    assert forall|j: int| 0 <= j < out.len() implies exists|i: int|
        0 <= i < es.len() && (#[trigger] es[i]).pid == (#[trigger] out[j]).pid by {
        assert(pids[j] == out[j].pid);
        assert(pids.contains(out[j].pid));
        law_the_first_told_memory_counts(es, out[j].pid);
    }
}

/// The list has the process.
pub open spec fn has_process(out: Seq<ProcView>, pid: u32) -> bool {
    exists|k: int| 0 <= k < out.len() && (#[trigger] out[k]).pid == pid
}

/// The list on Windows has each process that the driver's lists have or that Windows counts, once
/// and by rising id, and no other.
pub proof fn law_the_list_has_what_the_driver_lists_or_windows_counts(
    out: Seq<ProcView>,
    es: Seq<Entry>,
    snap: Option<SnapshotView>,
    luid: Option<Luid>,
    fs: Seq<NvmlPidFiles>,
    images: Seq<PidImage>,
    pid: u32,
)
    requires
        lists_windows(out, es, snap, luid, fs, images),
    ensures
        forall|i: int, j: int| 0 <= i < j < out.len() ==> (#[trigger] out[i]).pid < (#[trigger] out[j]).pid,
        has_process(out, pid) <==> (exists|i: int| 0 <= i < es.len() && (#[trigger] es[i]).pid == pid) || (snap
            is Some && luid is Some && (util_of(snap->0.engine_util, luid->0, pid) is Some || bytes_of(
            snap->0.proc_dedicated,
            luid->0,
            pid,
        ) is Some)),
{
    let pids = pids_of(out);
    assert forall|i: int, j: int| 0 <= i < j < out.len() implies (#[trigger] out[i]).pid < (#[trigger] out[j]).pid by {
        assert(pids[i] < pids[j]);
    }
    law_the_first_told_memory_counts(es, pid);
    if pids.contains(pid) {
        let k = pids.index_of(pid);
        assert(out[k].pid == pid);
    }
    if has_process(out, pid) {
        let k = choose|k: int| 0 <= k < out.len() && (#[trigger] out[k]).pid == pid;
        assert(pids[k] == pid);
    }
}

} // verus!
