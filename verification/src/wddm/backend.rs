//! The backend of display adapters of Windows.

use vstd::prelude::*;
use crate::backend::BackendError;
use crate::backend::{is_not_found, is_unavailable};
use crate::model::{DeviceId, DynamicSample, MilliPct, ProcView, ProcessKind, ProcessSample, StaticInfo};
use crate::model::{pids_of, proc_views, text_view};
use crate::pid_table::PidTable;
use crate::pid_table::add_pids;
use crate::pid_table::rising;
use crate::wddm::adapters::AdapterInfo;
use crate::wddm::adapters::vendor_by_id;
use crate::wddm::adapters::vendor_of;
use crate::wddm::name_by_image;
use crate::wddm::os_process_name;
use crate::wddm::per_pid::{PidUtil, PidUtilView};
use crate::wddm::per_pid::{adapter_bytes, per_pid_bytes, per_pid_util};
use crate::wddm::per_pid::{bytes_of, fits, pid_sums_fit, size_of, total_of, util_of, util_view};
use crate::wddm::snapshot::{PdhSnapshot, SnapshotView};
use crate::wddm::sums::{EngineKey, Luid, ReadingView};
use crate::wddm::sums::{busy_of, has_engine, is_busiest, is_busiest_of_type, is_silent, shares_fit};
use crate::wddm::sums::{device_util, engtype_util};
use crate::scan::same_but_case;

verus! {

/// The path of a process's image, where it is told.
pub struct PidImage {
    pub pid: u32,
    pub path: Option<String>,
}

/// The image of process `pid`: that of its first entry from `i` on.
pub open spec fn image_from(images: Seq<PidImage>, pid: u32, i: int) -> Option<Seq<char>>
    decreases images.len() - i,
{
    if i < 0 || i >= images.len() {
        None
    } else if images[i].pid == pid {
        text_view(images[i].path)
    } else {
        image_from(images, pid, i + 1)
    }
}

/// The name of a process by its image.
pub fn image_name(images: &Vec<PidImage>, pid: u32) -> (r: String)
    ensures
        r@ == name_by_image(image_from(images@, pid, 0), pid),
{
    let mut i: usize = 0;
    while i < images.len()
        invariant
            i <= images.len(),
            image_from(images@, pid, i as int) == image_from(images@, pid, 0),
        decreases images.len() - i,
    {
        if images[i].pid == pid {
            return os_process_name(&images[i].path, pid);
        }
        i = i + 1;
    }
    os_process_name(&None, pid)
}

/// The utilization of an adapter and its engine: those of a busiest one; missing where the adapter
/// has no reading.
pub open spec fn is_headline(
    rs: Seq<ReadingView>,
    luid: Luid,
    pct: Option<MilliPct>,
    engine: Option<Seq<char>>,
) -> bool {
    match (pct, engine) {
        (Some(p), Some(e)) => exists|k: EngineKey|
            #![trigger is_busiest(rs, luid, k)]
            is_busiest(rs, luid, k) && e == k.engtype && p == busy_of(rs, luid, k),
        (None, None) => is_silent(rs, luid),
        _ => false,
    }
}

/// The share of a busiest engine of the type; missing where the adapter has none.
pub open spec fn is_type_share(
    rs: Seq<ReadingView>,
    luid: Luid,
    engtype: Seq<char>,
    pct: Option<MilliPct>,
) -> bool {
    match pct {
        Some(p) => exists|k: EngineKey|
            #![trigger is_busiest_of_type(rs, luid, engtype, k)]
            is_busiest_of_type(rs, luid, engtype, k) && p == busy_of(rs, luid, k),
        None => forall|k: EngineKey| #[trigger]
            has_engine(rs, luid, k) ==> !same_but_case(k.engtype, engtype),
    }
}

/// What an adapter is described as.
pub open spec fn describes(info: StaticInfo, a: AdapterInfo, engines_counted: bool) -> bool {
    &&& info.id@ == a.identity()
    &&& info.vendor == vendor_by_id(a.vendor_id)
    &&& info.name@ == (if a.name@.len() > 0 {
        a.name@
    } else {
        "WDDM adapter"@
    })
    &&& info.backend@ == "wddm"@
    // No memory of its own is not memory of size zero.
    &&& info.mem_total_bytes == (if a.dedicated_video_bytes > 0 {
        Some(a.dedicated_video_bytes)
    } else {
        None
    })
    &&& info.power_limit_mw is None
    &&& info.max_sm_clock_mhz is None
    &&& info.temp_slowdown_c is None
    &&& info.driver_version is None
    &&& text_view(info.process_hint) == (if engines_counted {
        None
    } else {
        Some(
            "per-process GPU stats unavailable: no WDDM 2.0 GPU/driver (Windows exposes them via GPU performance counters)"@,
        )
    })
    &&& text_view(info.source_caveat) == Some(
        "utilization is the busiest engine's WDDM scheduler (VidSch) duty-cycle, not whole-GPU capacity; Windows exposes no public power/temperature/clock API for this GPU"@,
    )
}

/// What a collection says of an adapter at a tick.
pub open spec fn samples(s: DynamicSample, luid: Luid, ts_ms: u64, snap: SnapshotView) -> bool {
    &&& s.ts_ms == ts_ms
    &&& is_headline(snap.engine_util, luid, s.util_pct, text_view(s.util_engine))
    &&& s.mem_used_bytes == size_of(total_of(snap.adapter_dedicated, luid))
    &&& is_type_share(snap.engine_util, luid, "VideoEncode"@, s.encoder_pct)
    &&& is_type_share(snap.engine_util, luid, "VideoDecode"@, s.decoder_pct)
    &&& s.power_mw is None
    &&& s.temp_c is None
    &&& s.fan_pct is None
    &&& s.sm_clock_mhz is None
    &&& s.mem_clock_mhz is None
    &&& s.throttle is None
}

/// A process as the counters tell of it.
pub open spec fn counted_process(
    pid: u32,
    name: Seq<char>,
    util: Option<PidUtilView>,
    bytes: Option<nat>,
) -> ProcView {
    ProcView {
        pid,
        name,
        kind: match util {
            Some(u) => if u.compute_hint {
                ProcessKind::Compute
            } else {
                ProcessKind::Unknown
            },
            None => ProcessKind::Unknown,
        },
        mem_bytes: size_of(bytes),
        util_pct: match util {
            Some(u) => Some(u.pct),
            None => None,
        },
        cpu_pct: None,
        container: None,
    }
}

/// The process has a reading of a share or of device memory.
pub open spec fn is_counted(snap: SnapshotView, luid: Luid, pid: u32) -> bool {
    util_of(snap.engine_util, luid, pid) is Some || bytes_of(snap.proc_dedicated, luid, pid) is Some
}

/// The processes that have a reading, by rising id.
pub open spec fn lists_processes(
    out: Seq<ProcView>,
    luid: Luid,
    snap: SnapshotView,
    images: Seq<PidImage>,
) -> bool {
    &&& rising(pids_of(out))
    &&& forall|pid: u32| is_counted(snap, luid, pid) <==> #[trigger] pids_of(out).contains(pid)
    &&& forall|i: int|
        0 <= i < out.len() ==> #[trigger] out[i] == counted_process(
            out[i].pid,
            name_by_image(image_from(images, out[i].pid, 0), out[i].pid),
            util_of(snap.engine_util, luid, out[i].pid),
            bytes_of(snap.proc_dedicated, luid, out[i].pid),
        )
}

/// The process of a row of the two tables.
pub fn counted_sample(pid: u32, name: String, util: Option<&PidUtil>, bytes: Option<&u64>) -> (r:
    ProcessSample)
    ensures
        r.pid == pid,
        r.name@ == name@,
        r.kind == (match util {
            Some(u) => if u.compute_hint {
                ProcessKind::Compute
            } else {
                ProcessKind::Unknown
            },
            None => ProcessKind::Unknown,
        }),
        r.mem_bytes == (match bytes {
            Some(b) => Some(*b),
            None => None,
        }),
        r.util_pct == (match util {
            Some(u) => Some(u.pct),
            None => None,
        }),
        r.cpu_pct is None,
        r.container is None,
{
    ProcessSample {
        pid,
        name,
        kind: match util {
            Some(u) => if u.compute_hint {
                ProcessKind::Compute
            } else {
                ProcessKind::Unknown
            },
            None => ProcessKind::Unknown,
        },
        mem_bytes: match bytes {
            Some(b) => Some(*b),
            None => None,
        },
        util_pct: match util {
            Some(u) => Some(u.pct),
            None => None,
        },
        cpu_pct: None,
        container: None,
    }
}

/// The processes of the two tables, each once.
pub fn counted_pids(util: &PidTable<PidUtil>, mem: &PidTable<u64>) -> (t: PidTable<bool>)
    requires
        util.wf(),
        mem.wf(),
    ensures
        t.wf(),
        forall|pid: u32| (#[trigger] t.at(pid)) is Some <==> util.at(pid) is Some || mem.at(pid)
            is Some,
{
    let mut t: PidTable<bool> = PidTable::new();
    add_pids(&mut t, util);
    add_pids(&mut t, mem);
    t
}

/// Lists the processes that have a reading of the adapter.
fn list_processes(luid: Luid, snap: &PdhSnapshot, images: &Vec<PidImage>) -> (v: Vec<ProcessSample>)
    requires
        pid_sums_fit(snap@.proc_dedicated, luid),
    ensures
        lists_processes(proc_views(v@), luid, snap@, images@),
{
    let util = per_pid_util(&snap.engine_util, luid);
    let mem = per_pid_bytes(&snap.proc_dedicated, luid);
    let table = counted_pids(&util, &mem);
    let ghost pids = table.pids();
    proof {
        table.lemma_at();
    }
    let mut out: Vec<ProcessSample> = Vec::new();
    let mut i: usize = 0;
    assert(pids_of(proc_views(out@)) =~= pids.take(0));
    while i < table.len()
        invariant
            i <= pids.len(),
            pids == table.pids(),
            util.wf(),
            mem.wf(),
            forall|pid: u32|
                util_view(#[trigger] util.at(pid)) == util_of(snap@.engine_util, luid, pid),
            forall|pid: u32| #[trigger]
                mem.at(pid) == size_of(bytes_of(snap@.proc_dedicated, luid, pid)),
            pids_of(proc_views(out@)) == pids.take(i as int),
            forall|k: int|
                0 <= k < out@.len() ==> (#[trigger] proc_views(out@)[k]) == counted_process(
                    pids[k],
                    name_by_image(image_from(images@, pids[k], 0), pids[k]),
                    util_of(snap@.engine_util, luid, pids[k]),
                    bytes_of(snap@.proc_dedicated, luid, pids[k]),
                ),
        decreases pids.len() - i,
    {
        let pid: u32 = table.pid_at(i);
        let u = util.get(pid);
        let b = mem.get(pid);
        let p = counted_sample(pid, image_name(images, pid), u, b);
        let ghost listed = out@;
        let ghost pv = p@;
        proof {
            assert(util_view(util.at(pid)) == util_of(snap@.engine_util, luid, pid));
            assert(mem.at(pid) == size_of(bytes_of(snap@.proc_dedicated, luid, pid)));
            assert(pv =~= counted_process(
                pid,
                name_by_image(image_from(images@, pid, 0), pid),
                util_of(snap@.engine_util, luid, pid),
                bytes_of(snap@.proc_dedicated, luid, pid),
            ));
        }
        out.push(p);
        assert(proc_views(out@) =~= proc_views(listed).push(pv));
        assert(pids.take(i + 1) =~= pids.take(i as int).push(pid));
        assert(pids_of(proc_views(out@)) =~= pids_of(proc_views(listed)).push(pid));
        i = i + 1;
    }
    assert(pids.take(i as int) =~= pids);
    proof {
        assert forall|pid: u32| is_counted(snap@, luid, pid) <==> #[trigger] pids_of(
            proc_views(out@),
        ).contains(pid) by {
            assert(table.at(pid) is Some <==> pids.contains(pid));
            assert(util_view(util.at(pid)) == util_of(snap@.engine_util, luid, pid));
            assert(mem.at(pid) == size_of(bytes_of(snap@.proc_dedicated, luid, pid)));
        }
    }
    out
}

struct WddmDevice {
    info: AdapterInfo,
    id: DeviceId,
}

pub struct WddmBackend {
    devs: Vec<WddmDevice>,
}

/// The first adapter with the identity, from `i` on.
pub open spec fn adapter_from(devs: Seq<AdapterInfo>, id: Seq<char>, i: int) -> Option<AdapterInfo>
    decreases devs.len() - i,
{
    if i < 0 || i >= devs.len() {
        None
    } else if devs[i].identity() == id {
        Some(devs[i])
    } else {
        adapter_from(devs, id, i + 1)
    }
}

/// The identity of an adapter in this session.
pub open spec fn luid_of(a: AdapterInfo) -> Luid {
    Luid { high: a.luid_high, low: a.luid_low }
}

impl WddmBackend {
    pub closed spec fn wf(self) -> bool {
        forall|i: int|
            0 <= i < self.devs@.len() ==> (#[trigger] self.devs@[i]).id@
                == self.devs@[i].info.identity()
    }

    /// The adapters.
    pub closed spec fn adapters(self) -> Seq<AdapterInfo> {
        Seq::new(self.devs@.len(), |i: int| self.devs@[i].info)
    }

    pub open spec fn adapter_at(self, id: Seq<char>) -> Option<AdapterInfo> {
        adapter_from(self.adapters(), id, 0)
    }

    /// The backend of the adapters that were enumerated.
    pub fn init(infos: Vec<AdapterInfo>) -> (r: Result<Self, BackendError>)
        ensures
            match r {
                Ok(b) => b.wf() && infos@.len() > 0 && b.adapters() == infos@,
                Err(e) => infos@.len() == 0 && is_unavailable(
                    e,
                    "no hardware DXGI adapters (software/WARP only)"@,
                ),
            },
    {
        let ghost all = infos@;
        if infos.len() == 0 {
            let mut why: String = String::new();
            why.append("no hardware DXGI adapters (software/WARP only)");
            assert(why@ =~= "no hardware DXGI adapters (software/WARP only)"@);
            return Err(BackendError::Unavailable(why));
        }
        let mut devs: Vec<WddmDevice> = Vec::new();
        for info in it: infos
            invariant
                it.seq() == all,
                devs@.len() == it.index(),
                forall|i: int|
                    0 <= i < devs@.len() ==> (#[trigger] devs@[i]).info == all[i] && devs@[i].id@
                        == all[i].identity(),
        {
            let id = info.id();
            devs.push(WddmDevice { info, id });
        }
        let b = WddmBackend { devs };
        assert(b.adapters() =~= all);
        Ok(b)
    }

    pub fn name(&self) -> (r: &'static str)
        ensures
            r@ == "wddm"@,
    {
        "wddm"
    }

    /// The identities of the adapters.
    pub fn devices(&self) -> (v: Vec<DeviceId>)
        requires
            self.wf(),
        ensures
            v@.len() == self.adapters().len(),
            forall|i: int|
                0 <= i < v@.len() ==> (#[trigger] v@[i])@ == self.adapters()[i].identity(),
    {
        let mut v: Vec<DeviceId> = Vec::new();
        let mut i: usize = 0;
        while i < self.devs.len()
            invariant
                i <= self.devs.len(),
                self.wf(),
                v@.len() == i,
                forall|k: int| 0 <= k < i ==> (#[trigger] v@[k])@ == self.adapters()[k].identity(),
            decreases self.devs.len() - i,
        {
            v.push(self.devs[i].id.clone());
            i = i + 1;
        }
        v
    }

    fn adapter_of(&self, dev: &DeviceId) -> (r: Result<&AdapterInfo, BackendError>)
        requires
            self.wf(),
        ensures
            match r {
                Ok(a) => self.adapter_at(dev@) == Some(*a),
                Err(e) => self.adapter_at(dev@) is None && is_not_found(e, dev@),
            },
    {
        let mut i: usize = 0;
        while i < self.devs.len()
            invariant
                i <= self.devs.len(),
                self.wf(),
                adapter_from(self.adapters(), dev@, i as int) == self.adapter_at(dev@),
            decreases self.devs.len() - i,
        {
            assert(self.adapters()[i as int] == self.devs@[i as int].info);
            if self.devs[i].id.0 == dev.0 {
                return Ok(&self.devs[i].info);
            }
            i = i + 1;
        }
        Err(BackendError::DeviceNotFound(dev.clone()))
    }

    /// Describes an adapter. `engines_counted` tells whether the system counts engines at all.
    pub fn static_info(&self, dev: &DeviceId, engines_counted: bool) -> (r: Result<
        StaticInfo,
        BackendError,
    >)
        requires
            self.wf(),
        ensures
            match r {
                Ok(info) => self.adapter_at(dev@) is Some && describes(
                    info,
                    self.adapter_at(dev@)->0,
                    engines_counted,
                ),
                Err(e) => self.adapter_at(dev@) is None && is_not_found(e, dev@),
            },
    {
        let a = match self.adapter_of(dev) {
            Ok(a) => a,
            Err(e) => {
                return Err(e);
            },
        };
        let mut name: String = String::new();
        if a.name.as_str().unicode_len() > 0 {
            name.append(a.name.as_str());
            assert(name@ =~= a.name@);
        } else {
            name.append("WDDM adapter");
            assert(name@ =~= "WDDM adapter"@);
        }
        let mut backend: String = String::new();
        backend.append("wddm");
        assert(backend@ =~= "wddm"@);
        let process_hint: Option<String> = if engines_counted {
            None
        } else {
            let mut hint: String = String::new();
            hint.append(
                "per-process GPU stats unavailable: no WDDM 2.0 GPU/driver (Windows exposes them via GPU performance counters)",
            );
            assert(hint@
                =~= "per-process GPU stats unavailable: no WDDM 2.0 GPU/driver (Windows exposes them via GPU performance counters)"@);
            Some(hint)
        };
        let mut caveat: String = String::new();
        caveat.append(
            "utilization is the busiest engine's WDDM scheduler (VidSch) duty-cycle, not whole-GPU capacity; Windows exposes no public power/temperature/clock API for this GPU",
        );
        assert(caveat@
            =~= "utilization is the busiest engine's WDDM scheduler (VidSch) duty-cycle, not whole-GPU capacity; Windows exposes no public power/temperature/clock API for this GPU"@);
        Ok(
            StaticInfo {
                id: a.id(),
                vendor: vendor_of(a.vendor_id),
                name,
                backend,
                mem_total_bytes: if a.dedicated_video_bytes > 0 {
                    Some(a.dedicated_video_bytes)
                } else {
                    None
                },
                power_limit_mw: None,
                max_sm_clock_mhz: None,
                temp_slowdown_c: None,
                driver_version: None,
                process_hint,
                source_caveat: Some(caveat),
            },
        )
    }

    /// What a collection says of an adapter.
    pub fn refresh_dynamic(&self, dev: &DeviceId, ts_ms: u64, snap: &PdhSnapshot) -> (r: Result<
        DynamicSample,
        BackendError,
    >)
        requires
            self.wf(),
            self.adapter_at(dev@) matches Some(a) ==> fits(
                total_of(snap@.adapter_dedicated, luid_of(a)),
            ) && shares_fit(snap@.engine_util, luid_of(a)),
        ensures
            match r {
                Ok(s) => self.adapter_at(dev@) is Some && samples(
                    s,
                    luid_of(self.adapter_at(dev@)->0),
                    ts_ms,
                    snap@,
                ),
                Err(e) => self.adapter_at(dev@) is None && is_not_found(e, dev@),
            },
    {
        let a = match self.adapter_of(dev) {
            Ok(a) => a,
            Err(e) => {
                return Err(e);
            },
        };
        let luid = Luid { high: a.luid_high, low: a.luid_low };
        let (util_pct, util_engine): (Option<MilliPct>, Option<String>) = match device_util(
            &snap.engine_util,
            luid,
        ) {
            Some(h) => (Some(h.pct as MilliPct), Some(h.engtype)),
            None => (None, None),
        };
        let encoder_pct: Option<MilliPct> = match engtype_util(
            &snap.engine_util,
            luid,
            "VideoEncode",
        ) {
            Some(p) => Some(p as MilliPct),
            None => None,
        };
        let decoder_pct: Option<MilliPct> = match engtype_util(
            &snap.engine_util,
            luid,
            "VideoDecode",
        ) {
            Some(p) => Some(p as MilliPct),
            None => None,
        };
        Ok(
            DynamicSample {
                ts_ms,
                util_pct,
                util_engine,
                mem_used_bytes: adapter_bytes(&snap.adapter_dedicated, luid),
                power_mw: None,
                temp_c: None,
                fan_pct: None,
                sm_clock_mhz: None,
                mem_clock_mhz: None,
                encoder_pct,
                decoder_pct,
                throttle: None,
            },
        )
    }

    /// The processes that a collection counts on an adapter. `images` names them.
    pub fn refresh_processes(&self, dev: &DeviceId, snap: &PdhSnapshot, images: &Vec<PidImage>) -> (r:
        Result<Vec<ProcessSample>, BackendError>)
        requires
            self.wf(),
            self.adapter_at(dev@) matches Some(a) ==> pid_sums_fit(
                snap@.proc_dedicated,
                luid_of(a),
            ),
        ensures
            match r {
                Ok(v) => self.adapter_at(dev@) is Some && lists_processes(
                    proc_views(v@),
                    luid_of(self.adapter_at(dev@)->0),
                    snap@,
                    images@,
                ),
                Err(e) => self.adapter_at(dev@) is None && is_not_found(e, dev@),
            },
    {
        match self.adapter_of(dev) {
            Ok(a) => Ok(
                list_processes(Luid { high: a.luid_high, low: a.luid_low }, snap, images),
            ),
            Err(e) => Err(e),
        }
    }
}

/// What the readings of one engine of an adapter add up to: those that have its adapter, and the
/// same place and type as it.
pub open spec fn engine_share(rs: Seq<ReadingView>, luid: Luid, of: ReadingView) -> int {
    rs.filter(
        |r: ReadingView|
            r.is_of(luid) && r.inst.phys == of.inst.phys && r.inst.part == of.inst.part
                && r.inst.eng == of.inst.eng && r.engtype() == of.engtype(),
    ).fold_left(0int, |sum: int, r: ReadingView| sum + r.value)
}

/// An adapter's utilization is that of one of its engines, by all its processes together, and no
/// engine of it has more; the type that is told is that of this engine. An adapter without a
/// reading has none. So it is with the engines that encode and those that decode, of any spelling.
pub proof fn law_an_adapter_shows_its_busiest_engine(
    s: DynamicSample,
    luid: Luid,
    ts_ms: u64,
    snap: SnapshotView,
)
    requires
        samples(s, luid, ts_ms, snap),
    ensures
        shows_busiest(snap.engine_util, luid, s.util_pct, |r: ReadingView| true),
        shows_busiest(
            snap.engine_util,
            luid,
            s.encoder_pct,
            |r: ReadingView| same_but_case(r.engtype(), "VideoEncode"@),
        ),
        shows_busiest(
            snap.engine_util,
            luid,
            s.decoder_pct,
            |r: ReadingView| same_but_case(r.engtype(), "VideoDecode"@),
        ),
        s.util_pct is Some <==> s.util_engine is Some,
        s.util_engine matches Some(e) ==> exists|i: int|
            0 <= i < snap.engine_util.len() && (#[trigger] snap.engine_util[i]).is_of(luid)
                && snap.engine_util[i].engtype() == e@ && engine_share(
                snap.engine_util,
                luid,
                snap.engine_util[i],
            ) == s.util_pct->0,
{
    let rs = snap.engine_util;
    assert forall|i: int| 0 <= i < rs.len() implies engine_share(rs, luid, #[trigger] rs[i])
        == busy_of(rs, luid, rs[i].engine()) by {
        lemma_engine_share(rs, luid, rs[i]);
    }
    assert forall|i: int| 0 <= i < rs.len() && (#[trigger] rs[i]).is_of(luid) implies has_engine(
        rs,
        luid,
        rs[i].engine(),
    ) by {}
    if let Some(p) = s.util_pct {
        let k = choose|k: EngineKey|
            #![trigger is_busiest(rs, luid, k)]
            is_busiest(rs, luid, k) && s.util_engine->0@ == k.engtype && p == busy_of(
                rs,
                luid,
                k,
            );
        let i = choose|i: int|
            0 <= i < rs.len() && (#[trigger] rs[i]).is_of(luid) && rs[i].engine() == k;
        assert(engine_share(rs, luid, rs[i]) == p);
    }
    lemma_type_share(rs, luid, "VideoEncode"@, s.encoder_pct);
    lemma_type_share(rs, luid, "VideoDecode"@, s.decoder_pct);
}

/// `pct` is the share of one of the adapter's engines that `p` picks, and none of them has more.
pub open spec fn shows_busiest(
    rs: Seq<ReadingView>,
    luid: Luid,
    pct: Option<MilliPct>,
    p: spec_fn(ReadingView) -> bool,
) -> bool {
    &&& pct matches Some(v) ==> exists|i: int|
        0 <= i < rs.len() && (#[trigger] rs[i]).is_of(luid) && p(rs[i]) && engine_share(
            rs,
            luid,
            rs[i],
        ) == v
    &&& forall|i: int|
        0 <= i < rs.len() && (#[trigger] rs[i]).is_of(luid) && p(rs[i]) ==> pct is Some
            && engine_share(rs, luid, rs[i]) <= pct->0
}

proof fn lemma_type_share(
    rs: Seq<ReadingView>,
    luid: Luid,
    engtype: Seq<char>,
    pct: Option<MilliPct>,
)
    requires
        is_type_share(rs, luid, engtype, pct),
    ensures
        shows_busiest(
            rs,
            luid,
            pct,
            |r: ReadingView| same_but_case(r.engtype(), engtype),
        ),
{
    assert forall|i: int| 0 <= i < rs.len() implies engine_share(rs, luid, #[trigger] rs[i])
        == busy_of(rs, luid, rs[i].engine()) by {
        lemma_engine_share(rs, luid, rs[i]);
    }
    assert forall|i: int| 0 <= i < rs.len() && (#[trigger] rs[i]).is_of(luid) implies has_engine(
        rs,
        luid,
        rs[i].engine(),
    ) by {}
    if let Some(p) = pct {
        let k = choose|k: EngineKey|
            #![trigger is_busiest_of_type(rs, luid, engtype, k)]
            is_busiest_of_type(rs, luid, engtype, k) && p == busy_of(rs, luid, k);
        let i = choose|i: int|
            0 <= i < rs.len() && (#[trigger] rs[i]).is_of(luid) && rs[i].engine() == k;
        assert(engine_share(rs, luid, rs[i]) == p);
    }
}

proof fn lemma_engine_share(rs: Seq<ReadingView>, luid: Luid, of: ReadingView)
    ensures
        engine_share(rs, luid, of) == busy_of(rs, luid, of.engine()),
{
    lemma_engine_sum(
        rs,
        luid,
        of.engine(),
        |r: ReadingView|
            r.is_of(luid) && r.inst.phys == of.inst.phys && r.inst.part == of.inst.part
                && r.inst.eng == of.inst.eng && r.engtype() == of.engtype(),
    );
}

proof fn lemma_engine_sum(
    rs: Seq<ReadingView>,
    luid: Luid,
    k: EngineKey,
    p: spec_fn(ReadingView) -> bool,
)
    requires
        forall|r: ReadingView| #[trigger] p(r) == (r.is_of(luid) && r.engine() == k),
    ensures
        rs.filter(p).fold_left(0int, |sum: int, r: ReadingView| sum + r.value) == busy_of(
            rs,
            luid,
            k,
        ),
    decreases rs.len(),
{
    reveal(Seq::filter);
    if rs.len() > 0 {
        let t = rs.drop_last();
        let l = rs.last();
        lemma_engine_sum(t, luid, k, p);
        assert(p(l) == (l.is_of(luid) && l.engine() == k));
        if p(l) {
            assert(t.filter(p).push(l).drop_last() =~= t.filter(p));
        }
    }
}

/// A process that Windows counts shows the share of its busiest engine and what its memory adds up
/// to; it is of compute where one of its engines is named for it, and else of an unknown kind.
pub proof fn law_a_counted_process_shows_its_counters(
    pid: u32,
    name: Seq<char>,
    util: Option<PidUtilView>,
    bytes: Option<nat>,
)
    requires
        bytes matches Some(b) ==> b <= u64::MAX,
    ensures
        ({
            let p = counted_process(pid, name, util, bytes);
            &&& p.pid == pid && p.name == name
            &&& p.util_pct is Some <==> util is Some
            &&& util matches Some(u) ==> p.util_pct == Some(u.pct)
            &&& p.kind is Compute <==> util is Some && util->0.compute_hint
            &&& p.kind is Unknown <==> !(p.kind is Compute)
            &&& p.mem_bytes is Some <==> bytes is Some
            &&& bytes matches Some(b) ==> p.mem_bytes->0 == b
        }),
{
}

/// An adapter is found by its identity, and of several with one identity the first is; its counters
/// are those of its own identity in the session.
pub proof fn law_the_first_adapter_with_an_identity_is_found(
    devs: Seq<AdapterInfo>,
    id: Seq<char>,
    i: int,
)
    requires
        0 <= i <= devs.len(),
        forall|j: int| 0 <= j < i ==> (#[trigger] devs[j]).identity() != id,
    ensures
        i < devs.len() && devs[i].identity() == id ==> adapter_from(devs, id, 0) == Some(devs[i]),
        i == devs.len() ==> adapter_from(devs, id, 0) is None,
        i < devs.len() ==> luid_of(devs[i]).high == devs[i].luid_high && luid_of(devs[i]).low
            == devs[i].luid_low,
{
    lemma_adapter_from(devs, id, 0, i);
}

proof fn lemma_adapter_from(devs: Seq<AdapterInfo>, id: Seq<char>, k: int, i: int)
    requires
        0 <= k <= i <= devs.len(),
        forall|j: int| 0 <= j < i ==> (#[trigger] devs[j]).identity() != id,
    ensures
        i < devs.len() && devs[i].identity() == id ==> adapter_from(devs, id, k) == Some(devs[i]),
        i == devs.len() ==> adapter_from(devs, id, k) is None,
    decreases i - k,
{
    if k < i {
        assert(devs[k].identity() != id);
        lemma_adapter_from(devs, id, k + 1, i);
    }
}

/// An adapter's memory is its own, and missing where it has none; what Windows does not tell is
/// missing. That there is no list of processes is said where the engines are not counted, and where
/// the utilization comes from is always said.
pub proof fn law_an_adapter_is_described_by_what_windows_tells(
    info: StaticInfo,
    a: AdapterInfo,
    engines_counted: bool,
)
    requires
        describes(info, a, engines_counted),
    ensures
        info.id@ == a.identity() && info.backend@ == "wddm"@,
        a.name@.len() > 0 ==> info.name@ == a.name@,
        info.name@.len() > 0,
        match info.mem_total_bytes {
            Some(b) => b > 0 && b == a.dedicated_video_bytes,
            None => a.dedicated_video_bytes == 0,
        },
        info.power_limit_mw is None && info.max_sm_clock_mhz is None && info.temp_slowdown_c is None
            && info.driver_version is None,
        info.process_hint is None <==> engines_counted,
        info.source_caveat is Some,
{
    reveal_strlit("WDDM adapter");
}

} // verus!
