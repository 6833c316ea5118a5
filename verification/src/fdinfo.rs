//! Client counters: what the fdinfo files of processes say of their use of a device.

use vstd::prelude::*;
use crate::lists::filter_map;
use crate::lists::lemma_filter_map_step;
use crate::model::ProcessKind;
use crate::model::text_view;
use crate::pid_table::PidTable;
use crate::scan::{before_suffix, line_texts, slice_view, slices, trimmed_text, uint_value};
use crate::scan::{lines, parse_u64, strip_suffix, trim};
use crate::scan::{end_trimmed, has_suffix, is_space, law_decimals_read_back, lemma_decimal_digits, start_trimmed};
use crate::text::{ascii_lower, dec, split_at_char};
use crate::text::{chars_of, is_text, split_once};

verus! {

/// The larger of two readings, or the only one.
pub open spec fn larger(a: Option<u64>, b: Option<u64>) -> Option<u64> {
    match (a, b) {
        (Some(x), Some(y)) => if x >= y {
            Some(x)
        } else {
            Some(y)
        },
        (Some(x), None) => Some(x),
        (None, y) => y,
    }
}

pub fn max_reading(a: Option<u64>, b: Option<u64>) -> (r: Option<u64>)
    ensures
        r == larger(a, b),
{
    match (a, b) {
        (Some(x), Some(y)) => if x >= y {
            Some(x)
        } else {
            Some(y)
        },
        (Some(x), None) => Some(x),
        (None, y) => y,
    }
}

/// Merging keeps the fullest view, in whatever order and however often the parts come: one of the
/// readings, and none is larger.
pub proof fn law_merging_keeps_the_fullest_view(
    a: Option<u64>,
    b: Option<u64>,
    c: Option<u64>,
)
    ensures
        larger(a, b) == a || larger(a, b) == b,
        a is Some ==> larger(a, b) is Some && larger(a, b)->0 >= a->0,
        b is Some ==> larger(a, b) is Some && larger(a, b)->0 >= b->0,
        larger(a, b) == larger(b, a),
        larger(larger(a, b), c) == larger(a, larger(b, c)),
        larger(a, a) == a,
        larger(a, None) == a,
{
}

/// What follows the colon on the last of the first `n` lines whose key is `k1` or `k2`.
pub open spec fn value_upto(
    ls: Seq<Seq<char>>,
    k1: Seq<char>,
    k2: Seq<char>,
    n: int,
) -> Option<Seq<char>>
    decreases n,
{
    if n <= 0 {
        None
    } else {
        match split_at_char(ls[n - 1], ':') {
            Some((key, val)) => if trimmed_text(key) == k1 || trimmed_text(key) == k2 {
                Some(trimmed_text(val))
            } else {
                value_upto(ls, k1, k2, n - 1)
            },
            None => value_upto(ls, k1, k2, n - 1),
        }
    }
}

/// The value of a key in a client's counters: that of its last line.
pub open spec fn value_of(ls: Seq<Seq<char>>, key: Seq<char>) -> Option<Seq<char>> {
    value_upto(ls, key, key, ls.len() as int)
}

/// The value of either of two keys: that of the last line with one of them.
pub open spec fn value_of_either(
    ls: Seq<Seq<char>>,
    k1: Seq<char>,
    k2: Seq<char>,
) -> Option<Seq<char>> {
    value_upto(ls, k1, k2, ls.len() as int)
}

pub fn find_either<'a>(ls: &Vec<&'a [char]>, k1: &str, k2: &str) -> (r: Option<&'a [char]>)
    ensures
        slice_view(r) == value_of_either(slices(ls@), k1@, k2@),
{
    let ghost views = slices(ls@);
    let mut n: usize = ls.len();
    while n > 0
        invariant
            n <= ls.len(),
            views == slices(ls@),
            value_upto(views, k1@, k2@, n as int) == value_of_either(views, k1@, k2@),
        decreases n,
    {
        let line = ls[n - 1];
        assert(views[n - 1] == line@);
        if let Some((key, val)) = split_once(line, ':') {
            let key = trim(key);
            if is_text(key, k1) || is_text(key, k2) {
                return Some(trim(val));
            }
        }
        n = n - 1;
    }
    None
}

pub fn find_value<'a>(ls: &Vec<&'a [char]>, key: &str) -> (r: Option<&'a [char]>)
    ensures
        slice_view(r) == value_of(slices(ls@), key@),
{
    find_either(ls, key, key)
}

/// A number with its unit: the unit is part of the format and has to be there.
pub open spec fn suffixed(val: Seq<char>, unit: Seq<char>) -> Option<nat> {
    match before_suffix(val, unit) {
        Some(n) => uint_value(trimmed_text(n), 10, u64::MAX as nat),
        None => None,
    }
}

pub fn parse_suffixed_chars(val: &[char], unit: &str) -> (r: Option<u64>)
    ensures
        match r {
            Some(v) => suffixed(val@, unit@) == Some(v as nat),
            None => suffixed(val@, unit@) is None,
        },
{
    match strip_suffix(val, unit) {
        Some(n) => parse_u64(trim(n)),
        None => None,
    }
}

pub fn parse_suffixed(val: &str, unit: &str) -> (r: Option<u64>)
    ensures
        match r {
            Some(v) => suffixed(val@, unit@) == Some(v as nat),
            None => suffixed(val@, unit@) is None,
        },
{
    let chars: Vec<char> = chars_of(val);
    parse_suffixed_chars(chars.as_slice(), unit)
}

/// What was read of one process: its comm file, and its clients' counters.
pub struct PidFiles {
    pub pid: u32,
    pub comm: Option<String>,
    pub fdinfo: Vec<String>,
}

/// A size: bytes, or what the kernel scaled to KiB or MiB. `None` where there are more bytes than
/// any memory has.
pub open spec fn mem_value(val: Seq<char>) -> Option<u64> {
    if let Some(kib) = before_suffix(val, "KiB"@) {
        scaled(uint_value(trimmed_text(kib), 10, u64::MAX as nat), 1024)
    } else if let Some(mib) = before_suffix(val, "MiB"@) {
        scaled(uint_value(trimmed_text(mib), 10, u64::MAX as nat), 0x10_0000)
    } else {
        scaled(uint_value(val, 10, u64::MAX as nat), 1)
    }
}

/// `n` times `unit`, where that fits.
pub open spec fn scaled(n: Option<nat>, unit: nat) -> Option<u64> {
    match n {
        Some(v) => if v * unit <= u64::MAX {
            Some((v * unit) as u64)
        } else {
            None
        },
        None => None,
    }
}

fn mem_bytes(val: &[char]) -> (r: Option<u64>)
    ensures
        r == mem_value(val@),
{
    if let Some(kib) = strip_suffix(val, "KiB") {
        return match parse_u64(trim(kib)) {
            Some(v) => v.checked_mul(1024),
            None => None,
        };
    }
    if let Some(mib) = strip_suffix(val, "MiB") {
        return match parse_u64(trim(mib)) {
            Some(v) => v.checked_mul(0x10_0000),
            None => None,
        };
    }
    parse_u64(val)
}

pub fn parse_mem_bytes(val: &str) -> (r: Option<u64>)
    ensures
        r == mem_value(val@),
{
    let chars: Vec<char> = chars_of(val);
    mem_bytes(chars.as_slice())
}

/// Bytes of a count of KiB; `None` where there are more than any memory has.
pub fn kib_to_bytes(kib: u64) -> (r: Option<u64>)
    ensures
        r == scaled(Some(kib as nat), 1024),
{
    kib.checked_mul(1024)
}

/// The counters of a client that are made use of, of all drivers: their keys are disjoint. What a
/// kernel or driver does not have is missing.
pub struct FdinfoDrm {
    /// The PCI address of the device.
    pub pdev: Option<String>,
    /// amdgpu: device memory.
    pub vram_kib: Option<u64>,
    /// amdgpu: busy time of the graphics engine.
    pub gfx_ns: Option<u64>,
    /// amdgpu and i915: busy time of the compute engine.
    pub compute_ns: Option<u64>,
    /// i915: busy times.
    pub render_ns: Option<u64>,
    pub video_ns: Option<u64>,
    pub venh_ns: Option<u64>,
    /// xe: busy ticks of the engines, and elapsed ticks of the render engine.
    pub rcs_cycles: Option<u64>,
    pub rcs_total_cycles: Option<u64>,
    pub vcs_cycles: Option<u64>,
    pub vecs_cycles: Option<u64>,
    pub ccs_cycles: Option<u64>,
    /// i915 and xe: memory of the device's own. (That in system memory is not the device's.)
    pub total_local_bytes: Option<u64>,
    pub resident_local_bytes: Option<u64>,
}

#[verifier::ext_equal]
pub struct FdinfoView {
    pub pdev: Option<Seq<char>>,
    pub vram_kib: Option<u64>,
    pub gfx_ns: Option<u64>,
    pub compute_ns: Option<u64>,
    pub render_ns: Option<u64>,
    pub video_ns: Option<u64>,
    pub venh_ns: Option<u64>,
    pub rcs_cycles: Option<u64>,
    pub rcs_total_cycles: Option<u64>,
    pub vcs_cycles: Option<u64>,
    pub vecs_cycles: Option<u64>,
    pub ccs_cycles: Option<u64>,
    pub total_local_bytes: Option<u64>,
    pub resident_local_bytes: Option<u64>,
}

impl View for FdinfoDrm {
    type V = FdinfoView;

    open spec fn view(&self) -> FdinfoView {
        FdinfoView {
            pdev: text_view(self.pdev),
            vram_kib: self.vram_kib,
            gfx_ns: self.gfx_ns,
            compute_ns: self.compute_ns,
            render_ns: self.render_ns,
            video_ns: self.video_ns,
            venh_ns: self.venh_ns,
            rcs_cycles: self.rcs_cycles,
            rcs_total_cycles: self.rcs_total_cycles,
            vcs_cycles: self.vcs_cycles,
            vecs_cycles: self.vecs_cycles,
            ccs_cycles: self.ccs_cycles,
            total_local_bytes: self.total_local_bytes,
            resident_local_bytes: self.resident_local_bytes,
        }
    }
}

/// The value of a key, which has to carry its unit.
pub open spec fn counter(ls: Seq<Seq<char>>, key: Seq<char>, unit: Seq<char>) -> Option<u64> {
    match value_of(ls, key) {
        Some(v) => match suffixed(v, unit) {
            Some(n) => Some(n as u64),
            None => None,
        },
        None => None,
    }
}

/// The value of a key that has no unit.
pub open spec fn ticks(ls: Seq<Seq<char>>, key: Seq<char>) -> Option<u64> {
    match value_of(ls, key) {
        Some(v) => match uint_value(v, 10, u64::MAX as nat) {
            Some(n) => Some(n as u64),
            None => None,
        },
        None => None,
    }
}

/// A size under either of two keys.
pub open spec fn size(ls: Seq<Seq<char>>, k1: Seq<char>, k2: Seq<char>) -> Option<u64> {
    match value_of_either(ls, k1, k2) {
        Some(v) => mem_value(v),
        None => None,
    }
}

/// The counters that a client's fdinfo file gives.
pub open spec fn fdinfo_of(contents: Seq<char>) -> FdinfoView {
    let ls = line_texts(contents);
    FdinfoView {
        pdev: match value_of(ls, "drm-pdev"@) {
            Some(v) => Some(ascii_lower(v)),
            None => None,
        },
        vram_kib: counter(ls, "drm-memory-vram"@, "KiB"@),
        gfx_ns: counter(ls, "drm-engine-gfx"@, "ns"@),
        compute_ns: counter(ls, "drm-engine-compute"@, "ns"@),
        render_ns: counter(ls, "drm-engine-render"@, "ns"@),
        video_ns: counter(ls, "drm-engine-video"@, "ns"@),
        venh_ns: counter(ls, "drm-engine-video-enhance"@, "ns"@),
        rcs_cycles: ticks(ls, "drm-cycles-rcs"@),
        rcs_total_cycles: ticks(ls, "drm-total-cycles-rcs"@),
        vcs_cycles: ticks(ls, "drm-cycles-vcs"@),
        vecs_cycles: ticks(ls, "drm-cycles-vecs"@),
        ccs_cycles: ticks(ls, "drm-cycles-ccs"@),
        total_local_bytes: size(ls, "drm-total-local0"@, "drm-total-vram0"@),
        resident_local_bytes: size(ls, "drm-resident-local0"@, "drm-resident-vram0"@),
    }
}

fn find_counter(ls: &Vec<&[char]>, key: &str, unit: &str) -> (r: Option<u64>)
    ensures
        r == counter(slices(ls@), key@, unit@),
{
    match find_value(ls, key) {
        Some(v) => parse_suffixed_chars(v, unit),
        None => None,
    }
}

fn find_ticks(ls: &Vec<&[char]>, key: &str) -> (r: Option<u64>)
    ensures
        r == ticks(slices(ls@), key@),
{
    match find_value(ls, key) {
        Some(v) => parse_u64(v),
        None => None,
    }
}

fn find_size(ls: &Vec<&[char]>, k1: &str, k2: &str) -> (r: Option<u64>)
    ensures
        r == size(slices(ls@), k1@, k2@),
{
    match find_either(ls, k1, k2) {
        Some(v) => mem_bytes(v),
        None => None,
    }
}

/// Reads a client's fdinfo file.
pub fn parse_fdinfo(contents: &str) -> (r: FdinfoDrm)
    ensures
        r@ == fdinfo_of(contents@),
{
    let chars: Vec<char> = chars_of(contents);
    let ls = lines(chars.as_slice());
    FdinfoDrm {
        pdev: match find_value(&ls, "drm-pdev") {
            Some(v) => Some(crate::drm::lower_text(v)),
            None => None,
        },
        vram_kib: find_counter(&ls, "drm-memory-vram", "KiB"),
        gfx_ns: find_counter(&ls, "drm-engine-gfx", "ns"),
        compute_ns: find_counter(&ls, "drm-engine-compute", "ns"),
        render_ns: find_counter(&ls, "drm-engine-render", "ns"),
        video_ns: find_counter(&ls, "drm-engine-video", "ns"),
        venh_ns: find_counter(&ls, "drm-engine-video-enhance", "ns"),
        rcs_cycles: find_ticks(&ls, "drm-cycles-rcs"),
        rcs_total_cycles: find_ticks(&ls, "drm-total-cycles-rcs"),
        vcs_cycles: find_ticks(&ls, "drm-cycles-vcs"),
        vecs_cycles: find_ticks(&ls, "drm-cycles-vecs"),
        ccs_cycles: find_ticks(&ls, "drm-cycles-ccs"),
        total_local_bytes: find_size(&ls, "drm-total-local0", "drm-total-vram0"),
        resident_local_bytes: find_size(&ls, "drm-resident-local0", "drm-resident-vram0"),
    }
}

/// Two views of one process's client, merged: the fullest of each counter. (To add them up would
/// count the same buffers twice.)
pub open spec fn merge(a: FdinfoView, b: FdinfoView) -> FdinfoView {
    FdinfoView {
        pdev: a.pdev,
        vram_kib: larger(a.vram_kib, b.vram_kib),
        gfx_ns: larger(a.gfx_ns, b.gfx_ns),
        compute_ns: larger(a.compute_ns, b.compute_ns),
        render_ns: larger(a.render_ns, b.render_ns),
        video_ns: larger(a.video_ns, b.video_ns),
        venh_ns: larger(a.venh_ns, b.venh_ns),
        rcs_cycles: larger(a.rcs_cycles, b.rcs_cycles),
        rcs_total_cycles: larger(a.rcs_total_cycles, b.rcs_total_cycles),
        vcs_cycles: larger(a.vcs_cycles, b.vcs_cycles),
        vecs_cycles: larger(a.vecs_cycles, b.vecs_cycles),
        ccs_cycles: larger(a.ccs_cycles, b.ccs_cycles),
        total_local_bytes: larger(a.total_local_bytes, b.total_local_bytes),
        resident_local_bytes: larger(a.resident_local_bytes, b.resident_local_bytes),
    }
}

/// All the views of a process's clients, merged.
pub open spec fn merge_all(s: Seq<FdinfoView>) -> FdinfoView
    decreases s.len(),
{
    if s.len() <= 1 {
        s[0]
    } else {
        merge(merge_all(s.drop_last()), s.last())
    }
}

/// Some of two counters shows activity.
pub open spec fn is_busy(v: Option<u64>) -> bool {
    match v {
        Some(n) => n > 0,
        None => false,
    }
}

fn busy(v: Option<u64>) -> (r: bool)
    ensures
        r == is_busy(v),
{
    match v {
        Some(n) => n > 0,
        None => false,
    }
}

impl FdinfoView {
    /// Memory of the device's own: all of it, or else what is resident.
    pub open spec fn local_mem(self) -> Option<u64> {
        match self.total_local_bytes {
            Some(b) => Some(b),
            None => self.resident_local_bytes,
        }
    }

    /// What an Intel client does: media work shows in the video engines and compute work in the
    /// compute engine. The render engine runs both, so it shows nothing.
    pub open spec fn intel_kind(self) -> ProcessKind {
        if is_busy(self.video_ns) || is_busy(self.venh_ns) || is_busy(self.vcs_cycles) || is_busy(
            self.vecs_cycles,
        ) {
            ProcessKind::Graphics
        } else if is_busy(self.compute_ns) || is_busy(self.ccs_cycles) {
            ProcessKind::Compute
        } else {
            ProcessKind::Unknown
        }
    }
}

impl FdinfoDrm {
    /// Takes in another view of the same process's client.
    pub fn merge_max(&mut self, other: FdinfoDrm)
        ensures
            final(self)@ == merge(old(self)@, other@),
    {
        self.vram_kib = max_reading(self.vram_kib, other.vram_kib);
        self.gfx_ns = max_reading(self.gfx_ns, other.gfx_ns);
        self.compute_ns = max_reading(self.compute_ns, other.compute_ns);
        self.render_ns = max_reading(self.render_ns, other.render_ns);
        self.video_ns = max_reading(self.video_ns, other.video_ns);
        self.venh_ns = max_reading(self.venh_ns, other.venh_ns);
        self.rcs_cycles = max_reading(self.rcs_cycles, other.rcs_cycles);
        self.rcs_total_cycles = max_reading(self.rcs_total_cycles, other.rcs_total_cycles);
        self.vcs_cycles = max_reading(self.vcs_cycles, other.vcs_cycles);
        self.vecs_cycles = max_reading(self.vecs_cycles, other.vecs_cycles);
        self.ccs_cycles = max_reading(self.ccs_cycles, other.ccs_cycles);
        self.total_local_bytes = max_reading(self.total_local_bytes, other.total_local_bytes);
        self.resident_local_bytes = max_reading(
            self.resident_local_bytes,
            other.resident_local_bytes,
        );
    }

    pub fn local_mem_bytes(&self) -> (r: Option<u64>)
        ensures
            r == self@.local_mem(),
    {
        match self.total_local_bytes {
            Some(b) => Some(b),
            None => self.resident_local_bytes,
        }
    }

    pub fn kind(&self) -> (r: ProcessKind)
        ensures
            r == self@.intel_kind(),
    {
        if busy(self.video_ns) || busy(self.venh_ns) || busy(self.vcs_cycles) || busy(
            self.vecs_cycles,
        ) {
            ProcessKind::Graphics
        } else if busy(self.compute_ns) || busy(self.ccs_cycles) {
            ProcessKind::Compute
        } else {
            ProcessKind::Unknown
        }
    }
}

#[verifier::ext_equal]
pub struct PidFilesView {
    pub pid: u32,
    pub comm: Option<Seq<char>>,
    pub fdinfo: Seq<Seq<char>>,
}

impl View for PidFiles {
    type V = PidFilesView;

    open spec fn view(&self) -> PidFilesView {
        PidFilesView {
            pid: self.pid,
            comm: text_view(self.comm),
            fdinfo: crate::drm::texts(self.fdinfo@),
        }
    }
}

pub open spec fn pid_views(v: Seq<PidFiles>) -> Seq<PidFilesView> {
    Seq::new(v.len(), |i: int| v[i]@)
}

/// The counters of a file, where it is of a client of device `pci`.
pub open spec fn client_rule(pci: Seq<char>) -> spec_fn(Seq<char>) -> Option<FdinfoView> {
    |contents: Seq<char>|
        if fdinfo_of(contents).pdev == Some(pci) {
            Some(fdinfo_of(contents))
        } else {
            None
        }
}

/// The counters of process `pid`'s clients of device `pci`, in the first `n` entries.
pub open spec fn clients_upto(
    ps: Seq<PidFilesView>,
    n: nat,
    pci: Seq<char>,
    pid: u32,
) -> Seq<FdinfoView>
    decreases n,
{
    if n == 0 {
        Seq::empty()
    } else if ps[n - 1].pid == pid {
        clients_upto(ps, (n - 1) as nat, pci, pid) + filter_map(ps[n - 1].fdinfo, client_rule(pci))
    } else {
        clients_upto(ps, (n - 1) as nat, pci, pid)
    }
}

/// The counters of process `pid`'s clients of device `pci`.
pub open spec fn clients_of(ps: Seq<PidFilesView>, pci: Seq<char>, pid: u32) -> Seq<FdinfoView> {
    clients_upto(ps, ps.len(), pci, pid)
}

/// The use that process `pid` makes of device `pci`; `None` where it has no client of it.
pub open spec fn use_of(ps: Seq<PidFilesView>, pci: Seq<char>, pid: u32) -> Option<FdinfoView> {
    some_use(clients_of(ps, pci, pid))
}

pub open spec fn some_use(s: Seq<FdinfoView>) -> Option<FdinfoView> {
    if s.len() == 0 {
        None
    } else {
        Some(merge_all(s))
    }
}

/// The view of an optional client.
pub open spec fn fdinfo_view(v: Option<FdinfoDrm>) -> Option<FdinfoView> {
    match v {
        Some(f) => Some(f@),
        None => None,
    }
}

proof fn lemma_some_use(s: Seq<FdinfoView>, f: FdinfoView)
    ensures
        some_use(s.push(f)) == Some(
            (match some_use(s) {
                Some(u) => merge(u, f),
                None => f,
            }),
        ),
{
    let t = s.push(f);
    assert(t.drop_last() =~= s);
}

/// The use that each process makes of a device.
pub fn device_clients(ps: &Vec<PidFiles>, pci: &String) -> (t: PidTable<FdinfoDrm>)
    ensures
        t.wf(),
        forall|pid: u32| fdinfo_view(#[trigger] t.at(pid)) == use_of(pid_views(ps@), pci@, pid),
{
    let ghost views = pid_views(ps@);
    let mut t: PidTable<FdinfoDrm> = PidTable::new();
    let mut i: usize = 0;
    while i < ps.len()
        invariant
            i <= ps.len(),
            views == pid_views(ps@),
            t.wf(),
            forall|pid: u32|
                fdinfo_view(#[trigger] t.at(pid)) == some_use(
                    clients_upto(views, i as nat, pci@, pid),
                ),
        decreases ps.len() - i,
    {
        let p = &ps[i];
        let ghost blobs = crate::drm::texts(p.fdinfo@);
        let ghost rule = client_rule(pci@);
        assert(views[i as int] == p@);
        let mut j: usize = 0;
        assert(filter_map(blobs.take(0), rule) =~= Seq::empty());
        assert forall|pid: u32| clients_upto(views, i as nat, pci@, pid) + Seq::empty()
            =~= clients_upto(views, i as nat, pci@, pid) by {}
        while j < p.fdinfo.len()
            invariant
                i < ps.len(),
                j <= p.fdinfo.len(),
                *p == ps@[i as int],
                blobs == crate::drm::texts(p.fdinfo@),
                rule == client_rule(pci@),
                t.wf(),
                forall|pid: u32|
                    fdinfo_view(#[trigger] t.at(pid)) == some_use(
                        if pid == p.pid {
                            clients_upto(views, i as nat, pci@, pid) + filter_map(
                                blobs.take(j as int),
                                rule,
                            )
                        } else {
                            clients_upto(views, i as nat, pci@, pid)
                        },
                    ),
            decreases p.fdinfo.len() - j,
        {
            let f = parse_fdinfo(p.fdinfo[j].as_str());
            let ghost before = clients_upto(views, i as nat, pci@, p.pid) + filter_map(
                blobs.take(j as int),
                rule,
            );
            proof {
                lemma_filter_map_step(blobs, rule, j as int);
                assert(blobs[j as int] == p.fdinfo@[j as int]@);
                lemma_some_use(before, f@);
            }
            let mine: bool = match &f.pdev {
                Some(d) => *d == *pci,
                None => false,
            };
            if mine {
                let ghost fv = f@;
                let merged = match t.remove(p.pid) {
                    Some(mut u) => {
                        u.merge_max(f);
                        u
                    },
                    None => f,
                };
                let _ = t.insert(p.pid, merged);
                assert(clients_upto(views, i as nat, pci@, p.pid) + filter_map(
                    blobs.take(j + 1),
                    rule,
                ) =~= before.push(fv));
            }
            j = j + 1;
        }
        assert(blobs.take(j as int) =~= blobs);
        i = i + 1;
    }
    t
}

/// The comm file of process `pid`: that of its first entry from `i` on.
pub open spec fn comm_from(ps: Seq<PidFilesView>, pid: u32, i: int) -> Option<Seq<char>>
    decreases ps.len() - i,
{
    if i < 0 || i >= ps.len() {
        None
    } else if ps[i].pid == pid {
        ps[i].comm
    } else {
        comm_from(ps, pid, i + 1)
    }
}

/// The name of process `pid`.
pub fn name_of(ps: &Vec<PidFiles>, pid: u32) -> (r: String)
    ensures
        r@ == crate::drm::comm_text(comm_from(pid_views(ps@), pid, 0), pid),
{
    let ghost views = pid_views(ps@);
    let mut i: usize = 0;
    while i < ps.len()
        invariant
            i <= ps.len(),
            views == pid_views(ps@),
            comm_from(views, pid, i as int) == comm_from(views, pid, 0),
        decreases ps.len() - i,
    {
        assert(views[i as int] == ps@[i as int]@);
        if ps[i].pid == pid {
            return crate::drm::comm_name(&ps[i].comm, pid);
        }
        i = i + 1;
    }
    crate::drm::comm_name(&None, pid)
}

/// `r` is one of the readings, and none is larger; it is missing where all of them are.
pub open spec fn is_fullest(r: Option<u64>, rs: Seq<Option<u64>>) -> bool {
    &&& rs.contains(r)
    &&& forall|i: int|
        0 <= i < rs.len() ==> (#[trigger] rs[i] matches Some(v) ==> r is Some && v <= r->0)
}

proof fn lemma_fullest(rs: Seq<Option<u64>>, r: Option<u64>, next: Option<u64>)
    requires
        is_fullest(r, rs),
    ensures
        is_fullest(larger(r, next), rs.push(next)),
{
    let after = rs.push(next);
    let i = choose|i: int| 0 <= i < rs.len() && rs[i] == r;
    assert(after[i] == r);
    assert(after[rs.len() as int] == next);
    assert forall|k: int| 0 <= k < after.len() implies (#[trigger] after[k] matches Some(v) ==> larger(
        r,
        next,
    ) is Some && v <= larger(r, next)->0) by {
        if k < rs.len() {
            assert(after[k] == rs[k]);
        }
    }
}

proof fn lemma_merged(s: Seq<FdinfoView>)
    requires
        s.len() > 0,
    ensures
        is_fullest(merge_all(s).vram_kib, Seq::new(s.len(), |i: int| s[i].vram_kib)),
        is_fullest(merge_all(s).gfx_ns, Seq::new(s.len(), |i: int| s[i].gfx_ns)),
        is_fullest(merge_all(s).compute_ns, Seq::new(s.len(), |i: int| s[i].compute_ns)),
        is_fullest(merge_all(s).render_ns, Seq::new(s.len(), |i: int| s[i].render_ns)),
        is_fullest(merge_all(s).video_ns, Seq::new(s.len(), |i: int| s[i].video_ns)),
        is_fullest(merge_all(s).venh_ns, Seq::new(s.len(), |i: int| s[i].venh_ns)),
        is_fullest(merge_all(s).rcs_cycles, Seq::new(s.len(), |i: int| s[i].rcs_cycles)),
        is_fullest(merge_all(s).rcs_total_cycles, Seq::new(s.len(), |i: int| s[i].rcs_total_cycles)),
        is_fullest(merge_all(s).vcs_cycles, Seq::new(s.len(), |i: int| s[i].vcs_cycles)),
        is_fullest(merge_all(s).vecs_cycles, Seq::new(s.len(), |i: int| s[i].vecs_cycles)),
        is_fullest(merge_all(s).ccs_cycles, Seq::new(s.len(), |i: int| s[i].ccs_cycles)),
        is_fullest(merge_all(s).total_local_bytes, Seq::new(s.len(), |i: int| s[i].total_local_bytes)),
        is_fullest(merge_all(s).resident_local_bytes, Seq::new(s.len(), |i: int| s[i].resident_local_bytes)),
    decreases s.len(),
{
    if s.len() == 1 {
        assert(Seq::new(s.len(), |i: int| s[i].vram_kib)[0] == s[0].vram_kib);
        assert(Seq::new(s.len(), |i: int| s[i].gfx_ns)[0] == s[0].gfx_ns);
        assert(Seq::new(s.len(), |i: int| s[i].compute_ns)[0] == s[0].compute_ns);
        assert(Seq::new(s.len(), |i: int| s[i].render_ns)[0] == s[0].render_ns);
        assert(Seq::new(s.len(), |i: int| s[i].video_ns)[0] == s[0].video_ns);
        assert(Seq::new(s.len(), |i: int| s[i].venh_ns)[0] == s[0].venh_ns);
        assert(Seq::new(s.len(), |i: int| s[i].rcs_cycles)[0] == s[0].rcs_cycles);
        assert(Seq::new(s.len(), |i: int| s[i].rcs_total_cycles)[0] == s[0].rcs_total_cycles);
        assert(Seq::new(s.len(), |i: int| s[i].vcs_cycles)[0] == s[0].vcs_cycles);
        assert(Seq::new(s.len(), |i: int| s[i].vecs_cycles)[0] == s[0].vecs_cycles);
        assert(Seq::new(s.len(), |i: int| s[i].ccs_cycles)[0] == s[0].ccs_cycles);
        assert(Seq::new(s.len(), |i: int| s[i].total_local_bytes)[0] == s[0].total_local_bytes);
        assert(Seq::new(s.len(), |i: int| s[i].resident_local_bytes)[0] == s[0].resident_local_bytes);
    } else {
        let t = s.drop_last();
        lemma_merged(t);
        lemma_fullest(
            Seq::new(t.len(), |i: int| t[i].vram_kib),
            merge_all(t).vram_kib,
            s.last().vram_kib,
        );
        assert(Seq::new(s.len(), |i: int| s[i].vram_kib) =~= Seq::new(
            t.len(),
            |i: int| t[i].vram_kib,
        ).push(s.last().vram_kib));
        lemma_fullest(
            Seq::new(t.len(), |i: int| t[i].gfx_ns),
            merge_all(t).gfx_ns,
            s.last().gfx_ns,
        );
        assert(Seq::new(s.len(), |i: int| s[i].gfx_ns) =~= Seq::new(
            t.len(),
            |i: int| t[i].gfx_ns,
        ).push(s.last().gfx_ns));
        lemma_fullest(
            Seq::new(t.len(), |i: int| t[i].compute_ns),
            merge_all(t).compute_ns,
            s.last().compute_ns,
        );
        assert(Seq::new(s.len(), |i: int| s[i].compute_ns) =~= Seq::new(
            t.len(),
            |i: int| t[i].compute_ns,
        ).push(s.last().compute_ns));
        lemma_fullest(
            Seq::new(t.len(), |i: int| t[i].render_ns),
            merge_all(t).render_ns,
            s.last().render_ns,
        );
        assert(Seq::new(s.len(), |i: int| s[i].render_ns) =~= Seq::new(
            t.len(),
            |i: int| t[i].render_ns,
        ).push(s.last().render_ns));
        lemma_fullest(
            Seq::new(t.len(), |i: int| t[i].video_ns),
            merge_all(t).video_ns,
            s.last().video_ns,
        );
        assert(Seq::new(s.len(), |i: int| s[i].video_ns) =~= Seq::new(
            t.len(),
            |i: int| t[i].video_ns,
        ).push(s.last().video_ns));
        lemma_fullest(
            Seq::new(t.len(), |i: int| t[i].venh_ns),
            merge_all(t).venh_ns,
            s.last().venh_ns,
        );
        assert(Seq::new(s.len(), |i: int| s[i].venh_ns) =~= Seq::new(
            t.len(),
            |i: int| t[i].venh_ns,
        ).push(s.last().venh_ns));
        lemma_fullest(
            Seq::new(t.len(), |i: int| t[i].rcs_cycles),
            merge_all(t).rcs_cycles,
            s.last().rcs_cycles,
        );
        assert(Seq::new(s.len(), |i: int| s[i].rcs_cycles) =~= Seq::new(
            t.len(),
            |i: int| t[i].rcs_cycles,
        ).push(s.last().rcs_cycles));
        lemma_fullest(
            Seq::new(t.len(), |i: int| t[i].rcs_total_cycles),
            merge_all(t).rcs_total_cycles,
            s.last().rcs_total_cycles,
        );
        assert(Seq::new(s.len(), |i: int| s[i].rcs_total_cycles) =~= Seq::new(
            t.len(),
            |i: int| t[i].rcs_total_cycles,
        ).push(s.last().rcs_total_cycles));
        lemma_fullest(
            Seq::new(t.len(), |i: int| t[i].vcs_cycles),
            merge_all(t).vcs_cycles,
            s.last().vcs_cycles,
        );
        assert(Seq::new(s.len(), |i: int| s[i].vcs_cycles) =~= Seq::new(
            t.len(),
            |i: int| t[i].vcs_cycles,
        ).push(s.last().vcs_cycles));
        lemma_fullest(
            Seq::new(t.len(), |i: int| t[i].vecs_cycles),
            merge_all(t).vecs_cycles,
            s.last().vecs_cycles,
        );
        assert(Seq::new(s.len(), |i: int| s[i].vecs_cycles) =~= Seq::new(
            t.len(),
            |i: int| t[i].vecs_cycles,
        ).push(s.last().vecs_cycles));
        lemma_fullest(
            Seq::new(t.len(), |i: int| t[i].ccs_cycles),
            merge_all(t).ccs_cycles,
            s.last().ccs_cycles,
        );
        assert(Seq::new(s.len(), |i: int| s[i].ccs_cycles) =~= Seq::new(
            t.len(),
            |i: int| t[i].ccs_cycles,
        ).push(s.last().ccs_cycles));
        lemma_fullest(
            Seq::new(t.len(), |i: int| t[i].total_local_bytes),
            merge_all(t).total_local_bytes,
            s.last().total_local_bytes,
        );
        assert(Seq::new(s.len(), |i: int| s[i].total_local_bytes) =~= Seq::new(
            t.len(),
            |i: int| t[i].total_local_bytes,
        ).push(s.last().total_local_bytes));
        lemma_fullest(
            Seq::new(t.len(), |i: int| t[i].resident_local_bytes),
            merge_all(t).resident_local_bytes,
            s.last().resident_local_bytes,
        );
        assert(Seq::new(s.len(), |i: int| s[i].resident_local_bytes) =~= Seq::new(
            t.len(),
            |i: int| t[i].resident_local_bytes,
        ).push(s.last().resident_local_bytes));
    }
}

/// A process shows, of each counter, the fullest of its clients of the device, and never what they
/// add up to.
pub proof fn law_a_process_shows_its_fullest_client(
    ps: Seq<PidFilesView>,
    pci: Seq<char>,
    pid: u32,
)
    ensures
        use_of(ps, pci, pid) is Some <==> clients_of(ps, pci, pid).len() > 0,
        use_of(ps, pci, pid) is Some ==> {
            let clients = clients_of(ps, pci, pid);
            &&& is_fullest(use_of(ps, pci, pid)->0.vram_kib, Seq::new(clients.len(), |i: int| clients[i].vram_kib))
            &&& is_fullest(use_of(ps, pci, pid)->0.gfx_ns, Seq::new(clients.len(), |i: int| clients[i].gfx_ns))
            &&& is_fullest(use_of(ps, pci, pid)->0.compute_ns, Seq::new(clients.len(), |i: int| clients[i].compute_ns))
            &&& is_fullest(use_of(ps, pci, pid)->0.render_ns, Seq::new(clients.len(), |i: int| clients[i].render_ns))
            &&& is_fullest(use_of(ps, pci, pid)->0.video_ns, Seq::new(clients.len(), |i: int| clients[i].video_ns))
            &&& is_fullest(use_of(ps, pci, pid)->0.venh_ns, Seq::new(clients.len(), |i: int| clients[i].venh_ns))
            &&& is_fullest(use_of(ps, pci, pid)->0.rcs_cycles, Seq::new(clients.len(), |i: int| clients[i].rcs_cycles))
            &&& is_fullest(use_of(ps, pci, pid)->0.rcs_total_cycles, Seq::new(clients.len(), |i: int| clients[i].rcs_total_cycles))
            &&& is_fullest(use_of(ps, pci, pid)->0.vcs_cycles, Seq::new(clients.len(), |i: int| clients[i].vcs_cycles))
            &&& is_fullest(use_of(ps, pci, pid)->0.vecs_cycles, Seq::new(clients.len(), |i: int| clients[i].vecs_cycles))
            &&& is_fullest(use_of(ps, pci, pid)->0.ccs_cycles, Seq::new(clients.len(), |i: int| clients[i].ccs_cycles))
            &&& is_fullest(use_of(ps, pci, pid)->0.total_local_bytes, Seq::new(clients.len(), |i: int| clients[i].total_local_bytes))
            &&& is_fullest(use_of(ps, pci, pid)->0.resident_local_bytes, Seq::new(clients.len(), |i: int| clients[i].resident_local_bytes))
        },
{
    if clients_of(ps, pci, pid).len() > 0 {
        lemma_merged(clients_of(ps, pci, pid));
    }
}

/// The clients of a process on a device are the files of its entries that name the device, all of
/// them and no others.
pub proof fn law_clients_are_the_files_that_name_the_device(
    ps: Seq<PidFilesView>,
    pci: Seq<char>,
    pid: u32,
    f: FdinfoView,
)
    ensures
        clients_of(ps, pci, pid).contains(f) <==> exists|i: int, j: int|
            0 <= i < ps.len() && 0 <= j < ps[i].fdinfo.len() && ps[i].pid == pid && f == fdinfo_of(
                #[trigger] ps[i].fdinfo[j],
            ) && f.pdev == Some(pci),
{
    lemma_clients(ps, ps.len(), pci, pid, f);
}

proof fn lemma_clients(ps: Seq<PidFilesView>, n: nat, pci: Seq<char>, pid: u32, f: FdinfoView)
    requires
        n <= ps.len(),
    ensures
        clients_upto(ps, n, pci, pid).contains(f) <==> exists|i: int, j: int|
            0 <= i < n && 0 <= j < ps[i].fdinfo.len() && ps[i].pid == pid && f == fdinfo_of(
                #[trigger] ps[i].fdinfo[j],
            ) && f.pdev == Some(pci),
    decreases n,
{
    if n > 0 {
        let k = (n - 1) as nat;
        let rest = clients_upto(ps, k, pci, pid);
        let all = clients_upto(ps, n, pci, pid);
        let rule = client_rule(pci);
        let mine = filter_map(ps[n - 1].fdinfo, rule);
        lemma_clients(ps, k, pci, pid, f);
        crate::lists::lemma_filter_map_source(ps[n - 1].fdinfo, rule);
        if ps[n - 1].pid == pid {
            assert(all == rest + mine);
            assert(all.contains(f) <==> rest.contains(f) || mine.contains(f)) by {
                if rest.contains(f) {
                    let x = choose|x: int| 0 <= x < rest.len() && rest[x] == f;
                    assert(all[x] == f);
                }
                if mine.contains(f) {
                    let x = choose|x: int| 0 <= x < mine.len() && mine[x] == f;
                    assert(all[rest.len() + x] == f);
                }
            }
            if mine.contains(f) {
                let x = choose|x: int| 0 <= x < mine.len() && mine[x] == f;
                let j = choose|j: int|
                    0 <= j < ps[n - 1].fdinfo.len() && rule(#[trigger] ps[n - 1].fdinfo[j]) == Some(
                        mine[x],
                    );
                assert(f == fdinfo_of(ps[n - 1].fdinfo[j]));
            }
            if exists|i: int, j: int|
                0 <= i < n && 0 <= j < ps[i].fdinfo.len() && ps[i].pid == pid && f == fdinfo_of(
                    #[trigger] ps[i].fdinfo[j],
                ) && f.pdev == Some(pci) {
                let (i, j) = choose|i: int, j: int|
                    0 <= i < n && 0 <= j < ps[i].fdinfo.len() && ps[i].pid == pid && f
                        == fdinfo_of(#[trigger] ps[i].fdinfo[j]) && f.pdev == Some(pci);
                if i == n - 1 {
                    assert(rule(ps[i].fdinfo[j]) == Some(f));
                    crate::lists::lemma_filter_map_contains(ps[i].fdinfo, rule, j);
                }
            }
        }
    }
}

/// Sizes are told in bytes, KiB of 1024 and MiB of 1024 times 1024 bytes.
pub proof fn law_sizes_are_scaled_to_bytes(n: nat, space: bool)
    requires
        n <= u64::MAX,
    ensures
        ({
            let gap = if space {
                " "@
            } else {
                Seq::empty()
            };
            &&& mem_value(dec(n)) == Some(n as u64)
            &&& mem_value(dec(n) + gap + "KiB"@) == (if n * 1024 <= u64::MAX {
                Some((n * 1024) as u64)
            } else {
                None
            })
            &&& mem_value(dec(n) + gap + "MiB"@) == (if n * 1_048_576 <= u64::MAX {
                Some((n * 1_048_576) as u64)
            } else {
                None
            })
        }),
{
    let gap = if space {
        " "@
    } else {
        Seq::empty()
    };
    reveal_strlit(" ");
    reveal_strlit("KiB");
    reveal_strlit("MiB");
    law_decimals_read_back(n, u64::MAX as nat);
    lemma_decimal_digits(n);
    let d = dec(n);
    let kib = d + gap + "KiB"@;
    let mib = d + gap + "MiB"@;
    assert(!has_suffix(d, "KiB"@) && !has_suffix(d, "MiB"@)) by {
        if d.len() >= 3 {
            assert(d.skip(d.len() - 3)[2] == d[d.len() - 1]);
            assert("KiB"@[2] == 'B' && "MiB"@[2] == 'B');
        }
    }
    assert(kib.skip(kib.len() - 3) =~= "KiB"@);
    assert(kib.take(kib.len() - 3) =~= d + gap);
    assert(mib.skip(mib.len() - 3) =~= "MiB"@);
    assert(mib.take(mib.len() - 3) =~= d + gap);
    assert(!has_suffix(mib, "KiB"@)) by {
        assert(mib.skip(mib.len() - 3)[0] == 'M' && "KiB"@[0] == 'K');
    }
    assert(" "@ =~= seq![' ']);
    lemma_trimmed_number(d, gap);
}

proof fn lemma_trimmed_number(d: Seq<char>, gap: Seq<char>)
    requires
        d.len() > 0,
        forall|i: int| 0 <= i < d.len() ==> '0' <= #[trigger] d[i] <= '9',
        gap == Seq::<char>::empty() || gap == seq![' '],
    ensures
        trimmed_text(d + gap) == d,
{
    let s = d + gap;
    assert(s[0] == d[0]);
    assert(!is_space(d[0]) && !is_space(d[d.len() - 1]));
    assert(start_trimmed(s) == s);
    if gap.len() == 1 {
        assert(s.last() == ' ');
        assert(s.drop_last() =~= d);
        assert(d.last() == d[d.len() - 1]);
        assert(end_trimmed(d) == d);
        assert(end_trimmed(s) == end_trimmed(d));
    } else {
        assert(s =~= d);
        assert(end_trimmed(d) == d);
    }
}

/// The line has the key, and this value behind the colon.
pub open spec fn has_value(line: Seq<char>, key: Seq<char>, val: Seq<char>) -> bool {
    split_at_char(line, ':') matches Some((k, v)) && trimmed_text(k) == key && trimmed_text(v)
        == val
}

/// The value of a key is that of the last line that has it; a key that no line has, has none.
pub proof fn law_the_last_line_of_a_key_counts(ls: Seq<Seq<char>>, key: Seq<char>)
    ensures
        value_of(ls, key) matches Some(val) ==> exists|i: int|
            0 <= i < ls.len() && has_value(#[trigger] ls[i], key, val) && forall|j: int, v: Seq<char>|
                i < j < ls.len() ==> !#[trigger] has_value(ls[j], key, v),
        value_of(ls, key) is None ==> forall|j: int, v: Seq<char>|
            0 <= j < ls.len() ==> !#[trigger] has_value(ls[j], key, v),
{
    lemma_last_line(ls, key, ls.len() as int);
}

proof fn lemma_last_line(ls: Seq<Seq<char>>, key: Seq<char>, n: int)
    requires
        0 <= n <= ls.len(),
    ensures
        value_upto(ls, key, key, n) matches Some(val) ==> exists|i: int|
            0 <= i < n && has_value(#[trigger] ls[i], key, val) && forall|j: int, v: Seq<char>|
                i < j < n ==> !#[trigger] has_value(ls[j], key, v),
        value_upto(ls, key, key, n) is None ==> forall|j: int, v: Seq<char>|
            0 <= j < n ==> !#[trigger] has_value(ls[j], key, v),
    decreases n,
{
    if n > 0 {
        lemma_last_line(ls, key, n - 1);
        let hit = match split_at_char(ls[n - 1], ':') {
            Some((k, v)) => trimmed_text(k) == key,
            None => false,
        };
        if hit {
            let val = value_upto(ls, key, key, n)->0;
            assert(has_value(ls[n - 1], key, val));
        } else if let Some(val) = value_upto(ls, key, key, n) {
            let i = choose|i: int|
                0 <= i < n - 1 && has_value(#[trigger] ls[i], key, val) && forall|
                    j: int,
                    v: Seq<char>,
                |
                    i < j < n - 1 ==> !#[trigger] has_value(ls[j], key, v);
            assert(has_value(ls[i], key, val));
            assert forall|j: int, v: Seq<char>| i < j < n implies !#[trigger] has_value(
                ls[j],
                key,
                v,
            ) by {}
        }
    }
}

} // verus!
