//! The backend of Apple GPUs: one device, and of it what the system tells publicly.

use vstd::prelude::*;
use crate::apple::PROCESS_HINT;
use crate::apple::{device_id_for, tier_a_source_caveat};
use crate::apple::{memory_caveat, slug};
use crate::backend::BackendError;
use crate::backend::{is_not_found, is_unavailable};
use crate::model::{DeviceId, DynamicSample, ProcessSample, StaticInfo, Vendor};
use crate::model::text_view;

verus! {

/// What the system tells of its default device.
pub struct MetalInfo {
    pub name: Option<String>,
    pub has_unified_memory: Option<bool>,
    pub working_set_bytes: Option<u64>,
}

/// The name of a device; one that cannot be read has a general one.
pub open spec fn metal_name(m: MetalInfo) -> Seq<char> {
    match m.name {
        Some(n) => n@,
        None => "Apple GPU"@,
    }
}

/// A budget. One of nothing is none.
pub open spec fn budget(bytes: Option<u64>) -> Option<u64> {
    if bytes == Some(0u64) {
        None
    } else {
        bytes
    }
}

pub struct AppleBackend {
    id: DeviceId,
    name: String,
    mem_total_bytes: Option<u64>,
    has_unified_memory: Option<bool>,
}

impl AppleBackend {
    pub closed spec fn id(self) -> Seq<char> {
        self.id@
    }

    pub closed spec fn shown_name(self) -> Seq<char> {
        self.name@
    }

    pub closed spec fn mem_total(self) -> Option<u64> {
        self.mem_total_bytes
    }

    pub closed spec fn unified(self) -> Option<bool> {
        self.has_unified_memory
    }

    /// The backend of the default device, where there is one.
    pub fn init(probe: Option<MetalInfo>) -> (r: Result<Self, BackendError>)
        ensures
            match (r, probe) {
                (Ok(b), Some(m)) => {
                    &&& b.shown_name() == metal_name(m)
                    &&& b.id() == "apple"@ + seq![':'] + slug(metal_name(m))
                    &&& b.mem_total() == budget(m.working_set_bytes)
                    &&& b.unified() == m.has_unified_memory
                },
                (Err(e), None) => is_unavailable(
                    e,
                    "no default Metal device (Metal is this backend's floor)"@,
                ),
                _ => false,
            },
    {
        match probe {
            Some(m) => {
                let name: String = match m.name {
                    Some(n) => n,
                    None => {
                        let mut n: String = String::new();
                        n.append("Apple GPU");
                        assert(n@ =~= "Apple GPU"@);
                        n
                    },
                };
                let mem_total_bytes: Option<u64> = match m.working_set_bytes {
                    Some(b) => if b > 0 {
                        Some(b)
                    } else {
                        None
                    },
                    None => None,
                };
                Ok(
                    AppleBackend {
                        id: device_id_for(name.as_str()),
                        name,
                        mem_total_bytes,
                        has_unified_memory: m.has_unified_memory,
                    },
                )
            },
            None => {
                let mut why: String = String::new();
                why.append("no default Metal device (Metal is this backend's floor)");
                assert(why@ =~= "no default Metal device (Metal is this backend's floor)"@);
                Err(BackendError::Unavailable(why))
            },
        }
    }

    /// Whether the device says that its memory is unified.
    pub fn unified_memory(&self) -> (r: Option<bool>)
        ensures
            r == self.unified(),
    {
        self.has_unified_memory
    }

    fn check(&self, dev: &DeviceId) -> (r: Result<(), BackendError>)
        ensures
            match r {
                Ok(_) => dev@ == self.id(),
                Err(e) => dev@ != self.id() && is_not_found(e, dev@),
            },
    {
        if dev.0 == self.id.0 {
            Ok(())
        } else {
            Err(BackendError::DeviceNotFound(dev.clone()))
        }
    }

    pub fn name(&self) -> (r: &'static str)
        ensures
            r@ == "apple"@,
    {
        "apple"
    }

    /// The identity of the one device.
    pub fn devices(&self) -> (v: Vec<DeviceId>)
        ensures
            v@.len() == 1,
            v@[0]@ == self.id(),
    {
        let mut v: Vec<DeviceId> = Vec::new();
        v.push(self.id.clone());
        v
    }

    pub fn static_info(&self, dev: &DeviceId) -> (r: Result<StaticInfo, BackendError>)
        ensures
            match r {
                Ok(info) => {
                    &&& dev@ == self.id()
                    &&& info.id@ == self.id()
                    &&& info.vendor == Vendor::Apple
                    &&& info.name@ == self.shown_name()
                    &&& info.backend@ == "apple"@
                    &&& info.mem_total_bytes == self.mem_total()
                    &&& info.power_limit_mw is None
                    &&& info.max_sm_clock_mhz is None
                    &&& info.temp_slowdown_c is None
                    &&& info.driver_version is None
                    &&& text_view(info.process_hint) == Some(PROCESS_HINT@)
                    &&& text_view(info.source_caveat) == Some(memory_caveat(self.unified()))
                },
                Err(e) => dev@ != self.id() && is_not_found(e, dev@),
            },
    {
        match self.check(dev) {
            Ok(_) => {},
            Err(e) => {
                return Err(e);
            },
        }
        let mut backend: String = String::new();
        backend.append("apple");
        assert(backend@ =~= "apple"@);
        let mut hint: String = String::new();
        hint.append(PROCESS_HINT);
        assert(hint@ =~= PROCESS_HINT@);
        let mut caveat: String = String::new();
        let said: &'static str = tier_a_source_caveat(self.has_unified_memory);
        caveat.append(said);
        assert(caveat@ =~= said@);
        Ok(
            StaticInfo {
                id: self.id.clone(),
                vendor: Vendor::Apple,
                name: self.name.clone(),
                backend,
                mem_total_bytes: self.mem_total_bytes,
                power_limit_mw: None,
                max_sm_clock_mhz: None,
                temp_slowdown_c: None,
                driver_version: None,
                process_hint: Some(hint),
                source_caveat: Some(caveat),
            },
        )
    }

    /// What is told of the device at a tick: nothing, as long as it is told by interfaces that are
    /// not documented.
    pub fn refresh_dynamic(&self, dev: &DeviceId, ts_ms: u64) -> (r: Result<
        DynamicSample,
        BackendError,
    >)
        ensures
            match r {
                Ok(s) => {
                    &&& dev@ == self.id()
                    &&& s.ts_ms == ts_ms
                    &&& s.util_pct is None && s.util_engine is None && s.mem_used_bytes is None
                    &&& s.power_mw is None && s.temp_c is None && s.fan_pct is None
                    &&& s.sm_clock_mhz is None && s.mem_clock_mhz is None
                    &&& s.encoder_pct is None && s.decoder_pct is None && s.throttle is None
                },
                Err(e) => dev@ != self.id() && is_not_found(e, dev@),
            },
    {
        match self.check(dev) {
            Ok(_) => Ok(
                DynamicSample {
                    ts_ms,
                    util_pct: None,
                    util_engine: None,
                    mem_used_bytes: None,
                    power_mw: None,
                    temp_c: None,
                    fan_pct: None,
                    sm_clock_mhz: None,
                    mem_clock_mhz: None,
                    encoder_pct: None,
                    decoder_pct: None,
                    throttle: None,
                },
            ),
            Err(e) => Err(e),
        }
    }

    /// The processes of the device: the system does not tell of any.
    pub fn refresh_processes(&self, dev: &DeviceId) -> (r: Result<Vec<ProcessSample>, BackendError>)
        ensures
            match r {
                Ok(v) => dev@ == self.id() && v@.len() == 0,
                Err(e) => dev@ != self.id() && is_not_found(e, dev@),
            },
    {
        match self.check(dev) {
            Ok(_) => Ok(Vec::new()),
            Err(e) => Err(e),
        }
    }
}

/// A budget is the working set that the system recommends; one of nothing is missing, never zero.
pub proof fn law_a_budget_of_nothing_is_missing(m: MetalInfo)
    ensures
        budget(m.working_set_bytes) matches Some(b) ==> b > 0 && m.working_set_bytes == Some(b),
        budget(m.working_set_bytes) is None ==> m.working_set_bytes is None
            || m.working_set_bytes->0 == 0,
        m.name matches Some(n) ==> metal_name(m) == n@,
        m.name is None ==> metal_name(m) == "Apple GPU"@,
        m.has_unified_memory is None ==> memory_caveat(m.has_unified_memory) == memory_caveat(
            Some(true),
        ),
{
}

} // verus!
