//! Devices of the NVIDIA driver, as its management library tells of them.
//!
//! A reading that the library refuses is missing. On Windows the system owns the memory of
//! processes and the library cannot see it; there the system's counters tell of it.

use vstd::prelude::*;
use crate::model::ThrottleReasons;
use crate::model::text_view;
use crate::pci::normalized;
use crate::pci::normalize_pci_id;
use crate::scan::has_part;
use crate::scan::contains_text;
use crate::text::ascii_lower;
use crate::text::{chars_of, is_text, to_ascii_lower};
use crate::wddm::adapters::AdapterInfo;
use crate::wddm::sums::Luid;

pub mod backend;
pub mod processes;

verus! {

/// Is the kernel that of the Windows subsystem? It says so in its release.
pub fn is_wsl(osrelease: &str) -> (r: bool)
    ensures
        r == has_part(ascii_lower(osrelease@), "microsoft"@),
{
    let low: Vec<char> = to_ascii_lower(osrelease);
    contains_text(low.as_slice(), "microsoft")
}

/// Why there is no list of processes, where there is none: the Windows subsystem tells nothing of
/// them.
pub open spec fn wsl_hint(osrelease: Option<Seq<char>>) -> Option<Seq<char>> {
    match osrelease {
        Some(rel) => if has_part(ascii_lower(rel), "microsoft"@) {
            Some(
                "per-process GPU info is unavailable under WSL2 (driver-level limitation) — device metrics are unaffected"@,
            )
        } else {
            None
        },
        None => None,
    }
}

pub fn wsl_process_hint(osrelease: &Option<String>) -> (r: Option<String>)
    ensures
        text_view(r) == wsl_hint(text_view(*osrelease)),
{
    match osrelease {
        Some(rel) => if is_wsl(rel.as_str()) {
            let mut out: String = String::new();
            out.append(
                "per-process GPU info is unavailable under WSL2 (driver-level limitation) — device metrics are unaffected",
            );
            assert(out@
                =~= "per-process GPU info is unavailable under WSL2 (driver-level limitation) — device metrics are unaffected"@);
            Some(out)
        } else {
            None
        },
        None => None,
    }
}

/// The path that the library is looked for at first, where it is not the loader's own choice: an
/// installation of the driver alone has only the versioned name.
pub fn explicit_lib_path_for(target_os: &str) -> (r: Option<&'static str>)
    ensures
        match r {
            Some(p) => target_os@ == "linux"@ && p@ == "libnvidia-ml.so.1"@,
            None => target_os@ != "linux"@,
        },
{
    let os: Vec<char> = chars_of(target_os);
    if is_text(os.as_slice(), "linux") {
        Some("libnvidia-ml.so.1")
    } else {
        None
    }
}

/// How a question to the library failed, as far as it makes a difference.
#[derive(Clone, Copy, Debug, PartialEq, Eq, Structural)]
pub enum NvmlFailure {
    /// The answer is of a kind that is not known here.
    UnexpectedVariant,
    /// The driver is too old to have the function.
    FailedToLoadSymbol,
    Other,
}

/// The driver model of a device on Windows.
#[derive(Clone, Copy, Debug, PartialEq, Eq, Structural)]
pub enum DriverModelClass {
    /// That of display devices.
    Wddm,
    /// That of devices without a display.
    Tcc,
    /// One that is not known here.
    UnknownVariant,
}

/// The driver model where the question for it failed: a model that is not known here is unknown,
/// and of any other failure the usual model is assumed.
pub open spec fn model_after(e: NvmlFailure) -> DriverModelClass {
    match e {
        NvmlFailure::UnexpectedVariant => DriverModelClass::UnknownVariant,
        _ => DriverModelClass::Wddm,
    }
}

pub fn classify_driver_model_err(e: &NvmlFailure) -> (r: DriverModelClass)
    ensures
        r == model_after(*e),
{
    match e {
        NvmlFailure::UnexpectedVariant => DriverModelClass::UnknownVariant,
        _ => DriverModelClass::Wddm,
    }
}

/// Is the older form of the question for processes to be tried? Only where the driver does not
/// have the newer one; any other failure is an answer.
pub fn should_retry_v2(e: &NvmlFailure) -> (r: bool)
    ensures
        r == (*e == NvmlFailure::FailedToLoadSymbol),
{
    match e {
        NvmlFailure::FailedToLoadSymbol => true,
        _ => false,
    }
}

/// A process's device memory as the library tells it.
#[derive(Clone, Copy, Debug, PartialEq, Eq, Structural)]
pub enum UsedMemory {
    Unavailable,
    Used(u64),
}

/// The bytes of a process's device memory. What is not told is missing, never zero.
pub open spec fn told_bytes(m: UsedMemory) -> Option<u64> {
    match m {
        UsedMemory::Used(b) => Some(b),
        UsedMemory::Unavailable => None,
    }
}

pub fn used_gpu_memory_bytes(m: &UsedMemory) -> (r: Option<u64>)
    ensures
        r == told_bytes(*m),
{
    match m {
        UsedMemory::Used(b) => Some(*b),
        UsedMemory::Unavailable => None,
    }
}

/// Whether the system's counters tell of a device's processes.
#[derive(Clone, Copy, Debug, PartialEq, Eq, Structural)]
pub enum PdhAttribution {
    /// They do.
    Available,
    /// There are counters, but no adapter has the device's address.
    NoLuidMatch,
    /// There are no counters.
    NoPdh,
}

pub open spec fn attributed(engines_counted: bool, luid: Option<Luid>) -> PdhAttribution {
    if !engines_counted {
        PdhAttribution::NoPdh
    } else if luid is Some {
        PdhAttribution::Available
    } else {
        PdhAttribution::NoLuidMatch
    }
}

/// Whether the counters tell of a device with the adapter `luid`, where one has its address.
pub fn attribution(engines_counted: bool, luid: Option<Luid>) -> (r: PdhAttribution)
    ensures
        r == attributed(engines_counted, luid),
{
    if !engines_counted {
        PdhAttribution::NoPdh
    } else if luid.is_some() {
        PdhAttribution::Available
    } else {
        PdhAttribution::NoLuidMatch
    }
}

/// Why the list of processes of a device on Windows may be incomplete. Only a source that does tell
/// is named as one.
pub open spec fn windows_hint(model: DriverModelClass, pdh: PdhAttribution) -> Option<Seq<char>> {
    match model {
        DriverModelClass::Wddm => Some(
            match pdh {
                PdhAttribution::Available => "per-process VRAM/utilization come from Windows (WDDM) GPU performance counters, not the NVIDIA driver — NVML cannot see them under WDDM"@,
                PdhAttribution::NoLuidMatch => "could not attribute per-process GPU data (LUID↔PCI match failed) — per-process VRAM/utilization unavailable; device metrics unaffected"@,
                PdhAttribution::NoPdh => "per-process GPU stats unavailable: no WDDM 2.0 GPU/driver (Windows exposes them via GPU performance counters)"@,
            },
        ),
        DriverModelClass::Tcc => None,
        DriverModelClass::UnknownVariant => Some(
            "driver reports an unknown compute driver model (newer than this build) — per-process GPU data is shown as NVML reports it and may be incomplete"@,
        ),
    }
}

pub fn windows_process_hint(model: DriverModelClass, pdh: PdhAttribution) -> (r: Option<String>)
    ensures
        text_view(r) == windows_hint(model, pdh),
{
    let hint: &'static str = match model {
        DriverModelClass::Wddm => match pdh {
            PdhAttribution::Available => "per-process VRAM/utilization come from Windows (WDDM) GPU performance counters, not the NVIDIA driver — NVML cannot see them under WDDM",
            PdhAttribution::NoLuidMatch => "could not attribute per-process GPU data (LUID↔PCI match failed) — per-process VRAM/utilization unavailable; device metrics unaffected",
            PdhAttribution::NoPdh => "per-process GPU stats unavailable: no WDDM 2.0 GPU/driver (Windows exposes them via GPU performance counters)",
        },
        DriverModelClass::Tcc => {
            return None;
        },
        DriverModelClass::UnknownVariant => "driver reports an unknown compute driver model (newer than this build) — per-process GPU data is shown as NVML reports it and may be incomplete",
    };
    let mut out: String = String::new();
    out.append(hint);
    assert(out@ =~= hint@);
    Some(out)
}

/// Where the memory in use of a device on Windows comes from.
pub open spec fn windows_caveat(pdh: PdhAttribution) -> Seq<char> {
    match pdh {
        PdhAttribution::Available => "memory used is Windows' VidMm dedicated usage (PDH), falling back to the NVIDIA driver's view of WDDM-virtualized memory when PDH has no sample"@,
        _ => "memory used is the NVIDIA driver's view of WDDM-virtualized memory and can diverge from the OS (VidMm) number"@,
    }
}

pub fn windows_source_caveat(pdh: PdhAttribution) -> (r: Option<String>)
    ensures
        text_view(r) == Some(windows_caveat(pdh)),
{
    let caveat: &'static str = match pdh {
        PdhAttribution::Available => "memory used is Windows' VidMm dedicated usage (PDH), falling back to the NVIDIA driver's view of WDDM-virtualized memory when PDH has no sample",
        _ => "memory used is the NVIDIA driver's view of WDDM-virtualized memory and can diverge from the OS (VidMm) number",
    };
    let mut out: String = String::new();
    out.append(caveat);
    assert(out@ =~= caveat@);
    Some(out)
}

/// The bits of the library's reasons for lower clocks.
pub const GPU_IDLE: u64 = 0x1;

pub const APPLICATIONS_CLOCKS_SETTING: u64 = 0x2;

pub const SW_POWER_CAP: u64 = 0x4;

pub const HW_SLOWDOWN: u64 = 0x8;

pub const SYNC_BOOST: u64 = 0x10;

pub const SW_THERMAL_SLOWDOWN: u64 = 0x20;

pub const HW_THERMAL_SLOWDOWN: u64 = 0x40;

pub const HW_POWER_BRAKE_SLOWDOWN: u64 = 0x80;

pub const DISPLAY_CLOCK_SETTING: u64 = 0x100;

/// All bits but the nine above.
pub const UNKNOWN_REASONS: u64 = 0xFFFF_FFFF_FFFF_FE00;

/// The reasons that the bits are of. A device that idles is not throttled. Settings of the clocks,
/// and reasons that are not known here, are others.
pub open spec fn reasons_of(bits: u64) -> ThrottleReasons {
    ThrottleReasons {
        thermal: bits & SW_THERMAL_SLOWDOWN != 0 || bits & HW_THERMAL_SLOWDOWN != 0,
        power_cap: bits & SW_POWER_CAP != 0,
        hw_slowdown: bits & HW_SLOWDOWN != 0 || bits & HW_POWER_BRAKE_SLOWDOWN != 0,
        sync_boost: bits & SYNC_BOOST != 0,
        other: bits & APPLICATIONS_CLOCKS_SETTING != 0 || bits & DISPLAY_CLOCK_SETTING != 0 || bits
            & UNKNOWN_REASONS != 0,
    }
}

pub fn map_throttle(bits: u64) -> (r: ThrottleReasons)
    ensures
        r == reasons_of(bits),
{
    ThrottleReasons {
        thermal: bits & SW_THERMAL_SLOWDOWN != 0 || bits & HW_THERMAL_SLOWDOWN != 0,
        power_cap: bits & SW_POWER_CAP != 0,
        hw_slowdown: bits & HW_SLOWDOWN != 0 || bits & HW_POWER_BRAKE_SLOWDOWN != 0,
        sync_boost: bits & SYNC_BOOST != 0,
        other: bits & APPLICATIONS_CLOCKS_SETTING != 0 || bits & DISPLAY_CLOCK_SETTING != 0 || bits
            & UNKNOWN_REASONS != 0,
    }
}

/// Idleness is no throttling, and no other bit is dropped: a reason shows exactly where some bit
/// but that of idleness is set.
pub proof fn law_only_idleness_is_silent(bits: u64)
    ensures
        reasons_of(bits).is_any() <==> bits != 0 && bits != GPU_IDLE,
{
    assert((bits != 0 && bits != 0x1u64) == (bits & 0x20 != 0 || bits & 0x40 != 0 || bits & 0x4 != 0
        || bits & 0x8 != 0 || bits & 0x80 != 0 || bits & 0x10 != 0 || bits & 0x2 != 0 || bits
        & 0x100 != 0 || bits & 0xFFFF_FFFF_FFFF_FE00 != 0)) by (bit_vector);
}

/// Reasons do not hide one another: those of two sets of bits together are the reasons of the one
/// and of the other.
pub proof fn law_reasons_add_up(a: u64, b: u64)
    ensures
        ({
            let x = reasons_of(a);
            let y = reasons_of(b);
            reasons_of(a | b) == ThrottleReasons {
                thermal: x.thermal || y.thermal,
                power_cap: x.power_cap || y.power_cap,
                hw_slowdown: x.hw_slowdown || y.hw_slowdown,
                sync_boost: x.sync_boost || y.sync_boost,
                other: x.other || y.other,
            }
        }),
{
    lemma_or(a, b, SW_THERMAL_SLOWDOWN);
    lemma_or(a, b, HW_THERMAL_SLOWDOWN);
    lemma_or(a, b, SW_POWER_CAP);
    lemma_or(a, b, HW_SLOWDOWN);
    lemma_or(a, b, HW_POWER_BRAKE_SLOWDOWN);
    lemma_or(a, b, SYNC_BOOST);
    lemma_or(a, b, APPLICATIONS_CLOCKS_SETTING);
    lemma_or(a, b, DISPLAY_CLOCK_SETTING);
    lemma_or(a, b, UNKNOWN_REASONS);
}

proof fn lemma_or(a: u64, b: u64, mask: u64)
    ensures
        ((a | b) & mask != 0) == (a & mask != 0 || b & mask != 0),
{
    assert(((a | b) & mask != 0) == (a & mask != 0 || b & mask != 0)) by (bit_vector);
}

/// The normal spelling of an adapter's address, where it has one.
pub open spec fn adapter_key(a: AdapterInfo) -> Option<Seq<char>> {
    match a.pci_bdf {
        Some(bdf) => normalized(bdf@),
        None => None,
    }
}

/// The first adapter with the address, from `i` on.
pub open spec fn luid_from(adapters: Seq<AdapterInfo>, key: Seq<char>, i: int) -> Option<Luid>
    decreases adapters.len() - i,
{
    if i < 0 || i >= adapters.len() {
        None
    } else if adapter_key(adapters[i]) == Some(key) {
        Some(Luid { high: adapters[i].luid_high, low: adapters[i].luid_low })
    } else {
        luid_from(adapters, key, i + 1)
    }
}

/// The adapter of a device: the first with its address. A device without an address has none, and
/// a match is never forced.
pub open spec fn matched_luid(id: Seq<char>, adapters: Seq<AdapterInfo>) -> Option<Luid> {
    match normalized(id) {
        Some(key) => luid_from(adapters, key, 0),
        None => None,
    }
}

pub fn match_luid(id: &str, adapters: &Vec<AdapterInfo>) -> (r: Option<Luid>)
    ensures
        r == matched_luid(id@, adapters@),
{
    let key: String = match normalize_pci_id(id) {
        Some(k) => k,
        None => {
            return None;
        },
    };
    let mut i: usize = 0;
    while i < adapters.len()
        invariant
            i <= adapters.len(),
            normalized(id@) == Some(key@),
            luid_from(adapters@, key@, i as int) == luid_from(adapters@, key@, 0),
        decreases adapters.len() - i,
    {
        let own: Option<String> = match &adapters[i].pci_bdf {
            Some(bdf) => normalize_pci_id(bdf.as_str()),
            None => None,
        };
        if let Some(k) = own {
            if k == key {
                return Some(Luid { high: adapters[i].luid_high, low: adapters[i].luid_low });
            }
        }
        i = i + 1;
    }
    None
}

/// The bit `i` alone of the driver's word shows one reason, or, where it is that of an idle device,
/// none: bit 2 a power cap, bits 3 and 7 a slowdown by the hardware, bit 4 sync boost, bits 5 and 6
/// heat, and every other bit another one.
pub proof fn law_each_bit_has_its_reason(i: u64)
    requires
        i < 64,
    ensures
        ({
            let t = reasons_of(1u64 << i);
            &&& t.power_cap <==> i == 2
            &&& t.hw_slowdown <==> i == 3 || i == 7
            &&& t.sync_boost <==> i == 4
            &&& t.thermal <==> i == 5 || i == 6
            &&& t.other <==> i == 1 || i >= 8
        }),
{
    assert(((1u64 << i) & 0x4 != 0 <==> i == 2) && ((1u64 << i) & 0x8 != 0 <==> i == 3) && ((1u64
        << i) & 0x10 != 0 <==> i == 4) && ((1u64 << i) & 0x20 != 0 <==> i == 5) && ((1u64 << i)
        & 0x40 != 0 <==> i == 6) && ((1u64 << i) & 0x80 != 0 <==> i == 7) && ((1u64 << i) & 0x2
        != 0 <==> i == 1) && ((1u64 << i) & 0x100 != 0 <==> i == 8) && ((1u64 << i)
        & 0xFFFF_FFFF_FFFF_FE00 != 0 <==> i >= 9)) by (bit_vector)
        requires
            i < 64,
    ;
}

/// A device is told from the adapters by its address: its key is that of the first adapter with the
/// same normal form.
pub proof fn law_an_adapter_is_found_by_its_address(
    id: Seq<char>,
    adapters: Seq<AdapterInfo>,
    i: int,
)
    requires
        0 <= i < adapters.len(),
        normalized(id) is Some,
        adapters[i].pci_bdf is Some,
        normalized(adapters[i].pci_bdf->0@) == normalized(id),
        forall|j: int|
            0 <= j < i ==> (#[trigger] adapters[j]).pci_bdf is None || normalized(
                adapters[j].pci_bdf->0@,
            ) != normalized(id),
    ensures
        matched_luid(id, adapters) == Some(
            Luid { high: adapters[i].luid_high, low: adapters[i].luid_low },
        ),
{
    lemma_luid_from(adapters, normalized(id)->0, 0, i);
}

proof fn lemma_luid_from(adapters: Seq<AdapterInfo>, key: Seq<char>, a: int, i: int)
    requires
        0 <= a <= i < adapters.len(),
        forall|j: int| a <= j < i ==> adapter_key(#[trigger] adapters[j]) != Some(key),
    ensures
        luid_from(adapters, key, a) == luid_from(adapters, key, i),
    decreases i - a,
{
    if a < i {
        lemma_luid_from(adapters, key, a + 1, i);
    }
}

/// Processes can be told apart on Windows where the engines are counted and an adapter has the
/// device's address.
pub proof fn law_counters_are_told_by_the_address(engines_counted: bool, luid: Option<Luid>)
    ensures
        attributed(engines_counted, luid) is NoPdh <==> !engines_counted,
        attributed(engines_counted, luid) is NoLuidMatch <==> engines_counted && luid is None,
        attributed(engines_counted, luid) is Available <==> engines_counted && luid is Some,
{
}

/// Only an answer that is not known here makes the driver model unknown; of any other failure the
/// usual model is assumed.
pub proof fn law_only_a_new_model_is_unknown(e: NvmlFailure)
    ensures
        model_after(e) is UnknownVariant <==> e is UnexpectedVariant,
        model_after(e) is Wddm <==> !(e is UnexpectedVariant),
{
}

/// A hint is shown on Windows unless the driver itself tells of the processes, and it says which of
/// the sources is missing.
pub proof fn law_a_hint_names_what_is_missing(model: DriverModelClass, pdh: PdhAttribution)
    ensures
        windows_hint(model, pdh) is None <==> model is Tcc,
        model is Wddm && pdh is Available ==> windows_hint(model, pdh) == Some(
            "per-process VRAM/utilization come from Windows (WDDM) GPU performance counters, not the NVIDIA driver — NVML cannot see them under WDDM"@,
        ),
        model is Wddm && pdh is NoLuidMatch ==> windows_hint(model, pdh) == Some(
            "could not attribute per-process GPU data (LUID↔PCI match failed) — per-process VRAM/utilization unavailable; device metrics unaffected"@,
        ),
        model is Wddm && pdh is NoPdh ==> windows_hint(model, pdh) == Some(
            "per-process GPU stats unavailable: no WDDM 2.0 GPU/driver (Windows exposes them via GPU performance counters)"@,
        ),
        model is UnknownVariant ==> windows_hint(model, pdh) == Some(
            "driver reports an unknown compute driver model (newer than this build) — per-process GPU data is shown as NVML reports it and may be incomplete"@,
        ),
        pdh is Available ==> windows_caveat(pdh)
            == "memory used is Windows' VidMm dedicated usage (PDH), falling back to the NVIDIA driver's view of WDDM-virtualized memory when PDH has no sample"@,
        !(pdh is Available) ==> windows_caveat(pdh)
            == "memory used is the NVIDIA driver's view of WDDM-virtualized memory and can diverge from the OS (VidMm) number"@,
{
}

/// The kernel of the Windows subsystem is told by its maker's name, wherever in the release and in
/// whatever case; without it there is nothing to say.
pub proof fn law_the_subsystem_is_told_by_its_maker(pre: Seq<char>, post: Seq<char>, rel: Seq<char>)
    ensures
        wsl_hint(Some(pre + "microsoft"@ + post)) is Some,
        wsl_hint(Some(pre + "Microsoft"@ + post)) is Some,
        wsl_hint(Some(rel)) is Some ==> exists|i: int|
            0 <= i && i + 9 <= rel.len() && ascii_lower(#[trigger] rel.subrange(i, i + 9))
                == "microsoft"@,
        wsl_hint(Some(rel)) matches Some(h) ==> h
            == "per-process GPU info is unavailable under WSL2 (driver-level limitation) — device metrics are unaffected"@,
        wsl_hint(None) is None,
{
    reveal_strlit("microsoft");
    reveal_strlit("Microsoft");
    let n = pre.len() as int;
    let a = ascii_lower(pre + "microsoft"@ + post);
    let b = ascii_lower(pre + "Microsoft"@ + post);
    assert(a.subrange(n, n + 9) =~= "microsoft"@);
    assert(b.subrange(n, n + 9) =~= "microsoft"@);
    if has_part(ascii_lower(rel), "microsoft"@) {
        let i = choose|i: int|
            0 <= i && i + 9 <= ascii_lower(rel).len() && #[trigger] ascii_lower(rel).subrange(
                i,
                i + 9,
            ) == "microsoft"@;
        assert(ascii_lower(rel.subrange(i, i + 9)) =~= ascii_lower(rel).subrange(i, i + 9));
    }
}

/// The memory of a process is what the driver tells of it; what it does not tell is missing, never
/// zero.
pub proof fn law_memory_that_is_not_told_is_missing(m: UsedMemory)
    ensures
        told_bytes(m) is None <==> m is Unavailable,
        told_bytes(m) matches Some(b) ==> m == UsedMemory::Used(b),
{
}

} // verus!
