//! What is told, word by word, of the frames that it is told of.

use vstd::prelude::*;
use crate::events::holders::{holder_rule, holders, largest, lemma_largest};
use crate::events::laws::lemma_latest_upto;
use crate::events::process::{attached, exited, latest, listed, seen_of, superseded};
use crate::events::hang::{HANG_DEVICE_UTIL_PCT, HANG_HOLDER_MIN_BYTES, HANG_MIN_MS, HANG_PROC_UTIL_PCT};
use crate::events::idle::{IDLE_ACTIVE_MIN_MS, IDLE_ACTIVE_UTIL_PCT, IDLE_GAP_MIN_MS, IDLE_GAP_UTIL_PCT, IDLE_HOLDER_MIN_BYTES};
use crate::events::spillover::{SPILLOVER_HOLDER_MIN_BYTES, SPILLOVER_WINDOW_MS, busy, entry_of, spilled};
use crate::events::state::{HolderView, SpilloverView};
use crate::events::story::Frame;
use crate::events::story::gaps::{is_active, is_moving, is_slack, tells_of_a_gap, worked_before, worked_until};
use crate::events::story::hangs::{anchor, holds_quietly, is_dead, is_still, tells_of_a_hang};
use crate::events::story::pressures::tells_of_pressure;
use crate::events::story::spillovers::{cpu_mean, tells_of_a_spillover};
use crate::events::story::{holds, util_mean};
use crate::events::vram::{VRAM_COOLDOWN_MS, VRAM_MIN_SPAN_MS, VRAM_PRESSURE_PCT, VRAM_WINDOW_MS, climbing, cooled_down, grower_text};
use crate::events::{EventView, dur_text, since};
use crate::lists::lemma_filter_map_contains;
use crate::model::{ProcView, ProcessKind, bytes_text, double_step, nearest_double};
use crate::text::{dec, fixed0, fixed1, round_half_even, signed_fixed0, signed_fixed1};

verus! {

/// A fraction is printed as the nearest whole number, or as the nearest tenth.
pub proof fn law_fractions_are_printed_to_the_nearest(num: nat, den: nat, q: nat)
    requires
        den > 0,
    ensures
        (2 * q - 1) * den < 2 * num < (2 * q + 1) * den ==> fixed0(num, den) == dec(q),
        (2 * q - 1) * den < 20 * num < (2 * q + 1) * den ==> fixed1(num, den) == dec(q / 10)
            + "."@ + dec(q % 10),
{
    if (2 * q - 1) * den < 2 * num < (2 * q + 1) * den {
        lemma_nearest(num, den, q);
    }
    if (2 * q - 1) * den < 20 * num < (2 * q + 1) * den {
        lemma_nearest(num * 10, den, q);
    }
}

/// A fraction below zero is printed like the one above it, with its sign.
pub proof fn law_the_sign_is_printed(num: nat, den: nat)
    requires
        num > 0,
    ensures
        signed_fixed0(-(num as int), den) == "-"@ + fixed0(num, den),
        signed_fixed1(-(num as int), den) == "-"@ + fixed1(num, den),
        signed_fixed0(num as int, den) == fixed0(num, den),
        signed_fixed1(num as int, den) == fixed1(num, den),
{
}

proof fn lemma_nearest(num: nat, den: nat, q: nat)
    requires
        den > 0,
        (2 * q - 1) * den < 2 * num < (2 * q + 1) * den,
    ensures
        round_half_even(num, den) == q,
{
    let n = num as int;
    let d = den as int;
    let w = n / d;
    let r = n % d;
    let k = q as int;
    vstd::arithmetic::div_mod::lemma_fundamental_div_mod(n, d);
    assert((2 * k - 1) * d == 2 * (k * d) - d && (2 * k + 1) * d == 2 * (k * d) + d)
        by (nonlinear_arith);
    assert(n == w * d + r) by (nonlinear_arith)
        requires
            n == d * w + r,
    ;
    if 2 * r < d {
        assert(w == k) by (nonlinear_arith)
            requires
                2 * (k * d) - d < 2 * n < 2 * (k * d) + d,
                n == w * d + r,
                0 <= r,
                2 * r < d,
        ;
    } else {
        assert(2 * r != d && w + 1 == k) by (nonlinear_arith)
            requires
                2 * (k * d) - d < 2 * n < 2 * (k * d) + d,
                n == w * d + r,
                r < d,
                2 * r >= d,
        ;
    }
}

/// A duration is told in the nearest second (half a second counts up), and from a minute on in
/// minutes and seconds.
pub proof fn law_durations_are_told_in_seconds(ms: nat, minutes: nat, seconds: nat)
    requires
        seconds < 60,
        60_000 * minutes + 1000 * seconds - 500 <= ms < 60_000 * minutes + 1000 * seconds + 500,
    ensures
        dur_text(ms) == (if minutes > 0 {
            dec(minutes) + "m "@ + dec(seconds) + "s"@
        } else {
            dec(seconds) + "s"@
        }),
{
    let s = (ms + 500) / 1000;
    assert(s == 60 * minutes + seconds);
    assert(s / 60 == minutes && s % 60 == seconds);
}

/// A size is told in the nearest tenth of a GiB from one GiB on, and below in the nearest MiB. (As
/// far as every byte counts at double precision.)
pub proof fn law_sizes_are_told_in_gib_or_mib(bytes: nat, q: nat)
    requires
        bytes < 0x20_0000_0000_0000,
    ensures
        bytes >= 0x4000_0000 && (2 * q - 1) * 0x4000_0000 < 20 * bytes < (2 * q + 1) * 0x4000_0000
            ==> bytes_text(bytes) == dec(q / 10) + "."@ + dec(q % 10) + " GiB"@,
        bytes < 0x4000_0000 && (2 * q - 1) * 0x10_0000 < 2 * bytes < (2 * q + 1) * 0x10_0000
            ==> bytes_text(bytes) == dec(q) + " MiB"@,
{
    lemma_every_byte_counts(bytes);
    law_fractions_are_printed_to_the_nearest(bytes, 0x4000_0000, q);
    law_fractions_are_printed_to_the_nearest(bytes, 0x10_0000, q);
}

proof fn lemma_every_byte_counts(bytes: nat)
    requires
        bytes < 0x20_0000_0000_0000,
    ensures
        nearest_double(bytes) == bytes,
{
    let step = double_step(bytes);
    assert(step == 1);
    assert(bytes / step == bytes && bytes % step == 0);
    let r = round_half_even(bytes, step);
    assert(r * step == r) by (nonlinear_arith)
        requires
            step == 1,
    ;
}

/// What the utilizations of the frames from `k` on, before `n`, add up to.
pub open spec fn util_sum(fs: Seq<Frame>, k: int, n: int) -> int {
    fs.subrange(k, n).fold_left(
        0int,
        |sum: int, f: Frame|
            sum + match f.s.util_pct {
                Some(u) => u as int,
                None => 0,
            },
    )
}

/// How many of them have one.
pub open spec fn util_count(fs: Seq<Frame>, k: int, n: int) -> nat {
    fs.subrange(k, n).filter(|f: Frame| f.s.util_pct is Some).len()
}

proof fn lemma_util_mean(fs: Seq<Frame>, k: int, n: int)
    requires
        0 <= k <= n <= fs.len(),
    ensures
        util_mean(fs, k, n).sum == util_sum(fs, k, n),
        util_mean(fs, k, n).n == util_count(fs, k, n),
    decreases n - k,
{
    reveal(Seq::filter);
    let part = fs.subrange(k, n);
    if n > k {
        lemma_util_mean(fs, k, n - 1);
        assert(part.drop_last() =~= fs.subrange(k, n - 1));
        assert(part.last() == fs[n - 1]);
    }
}

/// What the CPU readings of process `pid` in the frames from `k` on, before `n`, add up to.
pub open spec fn cpu_sum(fs: Seq<Frame>, k: int, n: int, pid: u32) -> int {
    fs.subrange(k, n).fold_left(
        0int,
        |sum: int, f: Frame|
            sum + match entry_of(f.ps, pid) {
                Some(p) => match p.cpu_pct {
                    Some(c) => c as int,
                    None => 0,
                },
                None => 0,
            },
    )
}

/// How many of these frames have one.
pub open spec fn cpu_count(fs: Seq<Frame>, k: int, n: int, pid: u32) -> nat {
    fs.subrange(k, n).filter(
        |f: Frame| entry_of(f.ps, pid) is Some && entry_of(f.ps, pid)->0.cpu_pct is Some,
    ).len()
}

proof fn lemma_cpu_mean(fs: Seq<Frame>, k: int, n: int, pid: u32)
    requires
        0 <= k <= n <= fs.len(),
    ensures
        cpu_mean(fs, k, n, pid).sum == cpu_sum(fs, k, n, pid),
        cpu_mean(fs, k, n, pid).n == cpu_count(fs, k, n, pid),
    decreases n - k,
{
    reveal(Seq::filter);
    let part = fs.subrange(k, n);
    if n > k {
        lemma_cpu_mean(fs, k, n - 1, pid);
        assert(part.drop_last() =~= fs.subrange(k, n - 1));
        assert(part.last() == fs[n - 1]);
    }
}

/// Of several entries of a process in a list the last counts, wherever one is looked for.
pub proof fn law_the_last_entry_of_a_process_counts(ps: Seq<ProcView>, k: int)
    requires
        0 <= k < ps.len(),
        forall|j: int| k < j < ps.len() ==> (#[trigger] ps[j]).pid != ps[k].pid,
    ensures
        latest(ps).contains(ps[k]),
        entry_of(ps, ps[k].pid) == Some(ps[k]),
        forall|i: int|
            0 <= i < latest(ps).len() && (#[trigger] latest(ps)[i]).pid == ps[k].pid ==> latest(
                ps,
            )[i] == ps[k],
{
    lemma_latest_upto(ps, ps.len());
    assert(!superseded(ps, k));
    let x = choose|x: int| 0 <= x < latest(ps).len() && latest(ps)[x] == ps[k];
    assert forall|i: int|
        0 <= i < latest(ps).len() && (#[trigger] latest(ps)[i]).pid == ps[k].pid implies latest(
        ps,
    )[i] == ps[k] by {
        if i < x {
            assert(latest(ps)[i].pid != latest(ps)[x].pid);
        } else if x < i {
            assert(latest(ps)[x].pid != latest(ps)[i].pid);
        }
    }
    lemma_entry_of(ps, k);
}

proof fn lemma_entry_of(ps: Seq<ProcView>, k: int)
    requires
        0 <= k < ps.len(),
        forall|j: int| k < j < ps.len() ==> (#[trigger] ps[j]).pid != ps[k].pid,
    ensures
        entry_of(ps, ps[k].pid) == Some(ps[k]),
    decreases ps.len(),
{
    let t = ps.drop_last();
    if k < t.len() {
        assert(ps[t.len() as int].pid != ps[k].pid);
        assert forall|j: int| k < j < t.len() implies (#[trigger] t[j]).pid != t[k].pid by {
            assert(t[j] == ps[j]);
        }
        lemma_entry_of(t, k);
    }
}

/// An arrival names the process, its device and what it uses, where that is known, and what it is
/// there for.
pub proof fn law_an_arrival_is_told_in_these_words(
    device: Seq<char>,
    name: Seq<char>,
    ts_ms: u64,
    p: ProcView,
)
    ensures
        ({
            let e = attached(device, name, ts_ms, p);
            let who = p.name + " (pid "@ + dec(p.pid as nat) + ") attached to "@ + name;
            &&& e.ts_ms == ts_ms && e.device == device && e.severity is Info
            &&& e.title == (match p.mem_bytes {
                Some(b) => who + ", using "@ + bytes_text(b as nat),
                None => who,
            })
            &&& e.evidence == "new "@ + (match p.kind {
                ProcessKind::Compute => "compute"@,
                ProcessKind::Graphics => "graphics"@,
                ProcessKind::Both => "compute+graphics"@,
                ProcessKind::Unknown => "unknown-type"@,
            }) + " client in process list"@
        }),
{
    let e = attached(device, name, ts_ms, p);
    let who = p.name + " (pid "@ + dec(p.pid as nat) + ") attached to "@ + name;
    if p.mem_bytes is None {
        assert(e.title =~= who);
    }
}

/// A departure names the process, its device and what it held when it was last seen, where that is
/// known.
pub proof fn law_a_departure_is_told_in_these_words(
    device: Seq<char>,
    name: Seq<char>,
    ts_ms: u64,
    p: ProcView,
)
    ensures
        ({
            let e = exited(device, name, ts_ms, seen_of(p));
            let who = p.name + " (pid "@ + dec(p.pid as nat) + ") left "@ + name;
            let gone = "pid "@ + dec(p.pid as nat)
                + " no longer in process list; last seen holding "@;
            &&& e.ts_ms == ts_ms && e.device == device && e.severity is Info
            &&& e.title == (match p.mem_bytes {
                Some(b) => who + ", freeing "@ + bytes_text(b as nat),
                None => who,
            })
            &&& e.evidence == (match p.mem_bytes {
                Some(b) => gone + bytes_text(b as nat),
                None => gone + "unknown memory"@,
            })
        }),
{
    let e = exited(device, name, ts_ms, seen_of(p));
    let who = p.name + " (pid "@ + dec(p.pid as nat) + ") left "@ + name;
    if p.mem_bytes is None {
        assert(e.title =~= who);
    }
}

/// A stall is told of a device that showed at least 50 % for half a minute, fell below 10 % with
/// frame `k`, and stayed below 50 % for at least ten seconds, until frame `n`. It names a process
/// that held at least 256 MiB, and tells the utilization before it, the mean utilization of its
/// frames, and from when to when it lasted.
pub proof fn law_a_gap_is_told_in_these_words(
    e: EventView,
    device: Seq<char>,
    name: Seq<char>,
    fs: Seq<Frame>,
    k: int,
    n: int,
    h: HolderView,
)
    requires
        n < fs.len(),
        tells_of_a_gap(e, device, name, fs, k, n, h),
    ensures
        ({
            let dur = dur_text((fs[n].s.ts_ms - fs[k].s.ts_ms) as nat);
            let who = h.name + " (pid "@ + dec(h.pid as nat) + ")"@;
            &&& 0 < k < n
            &&& fs[n].s.ts_ms - fs[k].s.ts_ms >= 10_000
            &&& fs[n].s.util_pct matches Some(u) && u >= 50_000
            &&& fs[k].s.util_pct matches Some(u) && u < 10_000
            &&& forall|i: int|
                k <= i < n ==> ((#[trigger] fs[i]).s.util_pct matches Some(u) && u < 50_000)
            &&& h.mem >= 0x1000_0000 && holds(fs[k], h)
            &&& e.ts_ms == fs[n].s.ts_ms && e.device == device && e.severity is Info
            &&& e.title == name + " sat idle "@ + dur + " while "@ + who
                + " stayed attached — likely a dataloader or checkpoint stall"@
            &&& e.evidence == "util "@ + signed_fixed0(fs[k - 1].s.util_pct->0 as int, 1000)
                + "% → mean "@ + signed_fixed1(util_sum(fs, k, n), util_count(fs, k, n) * 1000)
                + "% over "@ + dur + " ("@ + dec(fs[k].s.ts_ms as nat) + ".."@ + dec(
                fs[n].s.ts_ms as nat,
            ) + " ms); "@ + who + " held "@ + bytes_text(h.mem as nat) + " for the whole gap"@
        }),
        exists|a: int, b: int| #[trigger]
            spans(a, b) && 0 <= a <= b < k && fs[b].s.ts_ms - fs[a].s.ts_ms >= 30_000 && (forall|
                i: int,
            |
                a <= i <= b ==> ((#[trigger] fs[i]).s.util_pct matches Some(u) && u >= 50_000)) && (
            forall|i: int|
                b < i < k ==> ((#[trigger] fs[i]).s.util_pct matches Some(u) && u >= 10_000)),
{
    lemma_util_mean(fs, k, n);
    lemma_some_counted(fs, k, n);
    assert(is_slack(fs[k]));
    assert forall|i: int| k <= i < n implies ((#[trigger] fs[i]).s.util_pct matches Some(u) && u
        < 50_000) by {
        assert(is_slack(fs[i]));
    }
    assert(worked_before(fs, k));
    let (a, b) = choose|a: int, b: int| #[trigger] worked_until(fs, a, b, k);
    assert(spans(a, b));
    assert forall|i: int| a <= i <= b implies ((#[trigger] fs[i]).s.util_pct matches Some(u) && u
        >= 50_000) by {
        assert(is_active(fs[i]));
    }
    assert forall|i: int| b < i < k implies ((#[trigger] fs[i]).s.util_pct matches Some(u) && u
        >= 10_000) by {
        assert(is_moving(fs[i]));
    }
}

/// Two places in the story, the first not after the second.
pub open spec fn spans(a: int, b: int) -> bool {
    a <= b
}

proof fn lemma_some_counted(fs: Seq<Frame>, k: int, n: int)
    requires
        0 <= k < n <= fs.len(),
        fs[k].s.util_pct is Some,
    ensures
        util_count(fs, k, n) > 0,
    decreases n,
{
    reveal(Seq::filter);
    let part = fs.subrange(k, n);
    assert(part.drop_last() =~= fs.subrange(k, n - 1));
    assert(part.last() == fs[n - 1]);
    if n - 1 > k {
        lemma_some_counted(fs, k, n - 1);
    }
}

/// A hang is told of a device that showed at most 2 % for ten minutes, from frame `k` to frame `n`,
/// and of a process that held at least 1 GiB, and showed at most 2 % itself, in all these frames;
/// at the first of them no such process held more. It tells what the process held, for how long,
/// from when to when, and the mean utilization of these frames.
pub proof fn law_a_hang_tells_of_its_frames(
    e: EventView,
    device: Seq<char>,
    name: Seq<char>,
    fs: Seq<Frame>,
    k: int,
    n: int,
    h: HolderView,
)
    requires
        n < fs.len(),
        tells_of_a_hang(e, device, name, fs, k, n, h),
    ensures
        ({
            let dur = dur_text((fs[n].s.ts_ms - fs[k].s.ts_ms) as nat);
            let who = h.name + " (pid "@ + dec(h.pid as nat) + ")"@;
            &&& 0 <= k <= n
            &&& fs[n].s.ts_ms - fs[k].s.ts_ms >= 600_000
            &&& forall|i: int|
                k <= i <= n ==> ((#[trigger] fs[i]).s.util_pct matches Some(u) && u <= 2_000)
            &&& forall|i: int| k <= i <= n ==> lies_still(#[trigger] fs[i], h.pid)
            &&& holds(fs[k], h)
            &&& forall|i: int|
                0 <= i < latest(fs[k].ps).len() && could_hang(#[trigger] latest(fs[k].ps)[i])
                    ==> latest(fs[k].ps)[i].mem_bytes->0 <= h.mem
            &&& e.ts_ms == fs[n].s.ts_ms && e.device == device && e.severity is Warning
            &&& e.title == name + ": "@ + who + " likely hung — held "@ + bytes_text(h.mem as nat)
                + " for "@ + dur + " with zero GPU activity, process still alive"@
            &&& e.evidence == "device util mean "@ + signed_fixed1(
                util_sum(fs, k, n + 1),
                util_count(fs, k, n + 1) * 1000,
            ) + "% over "@ + dur + " ("@ + dec(fs[k].s.ts_ms as nat) + ".."@ + dec(
                fs[n].s.ts_ms as nat,
            ) + " ms); "@ + who + " held "@ + bytes_text(h.mem as nat)
                + " throughout while its own engine activity stayed flat"@
        }),
{
    assert forall|i: int| k <= i <= n implies ((#[trigger] fs[i]).s.util_pct matches Some(u) && u
        <= 2_000) && lies_still(fs[i], h.pid) by {
        assert(is_dead(fs[i], h.pid));
        let x = choose|x: int|
            0 <= x < latest(fs[i].ps).len() && (#[trigger] latest(fs[i].ps)[x]).pid == h.pid
                && holds_quietly(latest(fs[i].ps)[x]);
        assert(could_hang(latest(fs[i].ps)[x]));
    }
    lemma_util_mean(fs, k, n + 1);
    lemma_some_counted(fs, k, n + 1);
    let l = latest(fs[k].ps);
    let procs = Seq::new(l.len(), |i: int| seen_of(l[i]));
    let rule = holder_rule(0x4000_0000, Some(2_000));
    let hs = holders(procs, 0x4000_0000, Some(2_000));
    assert(anchor(fs[k]) == largest(hs));
    lemma_largest(hs);
    assert forall|i: int| 0 <= i < l.len() && could_hang(#[trigger] l[i]) implies l[i].mem_bytes->0
        <= h.mem by {
        assert(procs[i] == seen_of(l[i]));
        lemma_filter_map_contains(procs, rule, i);
        let x = choose|x: int| 0 <= x < hs.len() && hs[x] == rule(procs[i])->0;
        assert(hs[x].mem <= h.mem);
    }
}

/// The process holds at least 1 GiB, and does not show that it does anything.
pub open spec fn could_hang(p: ProcView) -> bool {
    &&& p.mem_bytes matches Some(mem) && mem >= 0x4000_0000
    &&& p.util_pct matches Some(u) ==> u <= 2_000
}

/// The frame lists process `pid` as one that could hang.
pub open spec fn lies_still(f: Frame, pid: u32) -> bool {
    exists|i: int|
        0 <= i < latest(f.ps).len() && (#[trigger] latest(f.ps)[i]).pid == pid && could_hang(
            latest(f.ps)[i],
        )
}

/// A spillover is told of a process that came with frame `k`, with at least 2 GiB, and was there for
/// ninety seconds, to frame `n`, while the device never showed 30 %. Over these frames the mean
/// utilization of the device is below 15 %, and the mean of at least three CPU readings is at least
/// one core and a half. It tells both means, the number of CPU readings, and from when to when they
/// were taken.
pub proof fn law_a_spillover_is_told_in_these_words(
    e: EventView,
    device: Seq<char>,
    name: Seq<char>,
    fs: Seq<Frame>,
    k: int,
    n: int,
    h: HolderView,
)
    requires
        n < fs.len(),
        tells_of_a_spillover(e, device, name, fs, k, n, h),
    ensures
        ({
            let dur = dur_text((fs[n].s.ts_ms - fs[k].s.ts_ms) as nat);
            let who = h.name + " (pid "@ + dec(h.pid as nat) + ")"@;
            let readings = util_count(fs, k, n + 1);
            let cpu = cpu_count(fs, k, n + 1, h.pid);
            let over = if readings == 0 {
                1
            } else {
                readings
            };
            &&& 0 < k <= n
            &&& fs[n].s.ts_ms - fs[k].s.ts_ms >= 90_000
            &&& !listed(fs[k - 1].ps, h.pid)
            &&& h.mem >= 0x8000_0000
            &&& forall|i: int|
                k <= i <= n ==> listed((#[trigger] fs[i]).ps, h.pid) && (fs[i].s.util_pct matches Some(u)
                    ==> u < 30_000)
            &&& util_sum(fs, k, n + 1) < 15_000 * over
            &&& cpu >= 3 && cpu_sum(fs, k, n + 1, h.pid) >= 150_000 * cpu
            &&& e.ts_ms == fs[n].s.ts_ms && e.device == device && e.severity is Warning
            &&& e.title == who + " loaded "@ + bytes_text(h.mem as nat) + " but "@ + name
                + " is ~idle while its CPU runs hot — likely partial CPU offload (model may not fit in VRAM)"@
            &&& e.evidence == "over "@ + dur + " ("@ + dec(fs[k].s.ts_ms as nat) + ".."@ + dec(
                fs[n].s.ts_ms as nat,
            ) + " ms): "@ + name + " util mean "@ + signed_fixed1(
                util_sum(fs, k, n + 1),
                over * 1000,
            ) + "%, "@ + who + " CPU mean "@ + signed_fixed0(
                cpu_sum(fs, k, n + 1, h.pid),
                cpu * 1000,
            ) + "% of one core ("@ + dec(cpu) + " samples)"@
        }),
{
    lemma_util_mean(fs, k, n + 1);
    lemma_cpu_mean(fs, k, n + 1, h.pid);
}

/// Pressure is told of memory that is at least 85 % full at frame `n` and has climbed since frame
/// `k`, one to three minutes before, by at least 16 MiB a minute. It tells how full it is, the climb
/// per minute, in how many minutes it would be full at this rate, and the largest holder.
pub proof fn law_pressure_is_told_in_these_words(
    e: EventView,
    device: Seq<char>,
    name: Seq<char>,
    fs: Seq<Frame>,
    k: int,
    n: int,
)
    requires
        tells_of_pressure(e, device, name, fs, k, n),
    ensures
        ({
            let used = fs[n].s.mem_used_bytes->0;
            let total = fs[n].mem_total->0;
            let from = fs[k].s.mem_used_bytes->0;
            let ms = fs[n].s.ts_ms - fs[k].s.ts_ms;
            let climb = used - from;
            let rate = bytes_text((climb * 60_000 / ms) as nat);
            let left = if total >= used {
                total - used
            } else {
                0
            };
            let l = latest(fs[n].ps);
            &&& 0 <= k < n
            &&& fs[n].s.mem_used_bytes is Some && fs[n].mem_total is Some
                && fs[k].s.mem_used_bytes is Some
            &&& 100 * used >= 85 * total
            &&& 60_000 <= ms <= 180_000
            &&& climb * 60_000 >= 0x100_0000 * ms
            &&& e.ts_ms == fs[n].s.ts_ms && e.device == device && e.severity is Warning
            &&& e.title == name + " VRAM "@ + fixed0(used as nat * 100, total as nat)
                + "% and climbing ~"@ + rate + "/min — likely full in ~"@ + fixed0(
                (left * ms) as nat,
                (climb * 60_000) as nat,
            ) + " min"@ + grower_text(Seq::new(l.len(), |i: int| seen_of(l[i])))
            &&& e.evidence == "used "@ + bytes_text(used as nat) + "/"@ + bytes_text(total as nat)
                + " ("@ + fixed1(used as nat * 100, total as nat) + "%); slope +"@ + rate
                + "/min over last "@ + fixed1(ms as nat, 60_000)
                + " min (linear extrapolation)"@
        }),
{
    let used = fs[n].s.mem_used_bytes->0;
    let from = fs[k].s.mem_used_bytes->0;
    let w = seq![(fs[k].s.ts_ms, from), (fs[n].s.ts_ms, used)];
    assert(w[0] == (fs[k].s.ts_ms, from) && w.last() == (fs[n].s.ts_ms, used));
}

/// A frame is active at half utilization, and slack below, and moving at a tenth; it is still at two
/// hundredths or less, and busy at three tenths. A frame that shows no utilization is none of
/// these. Times that run backwards are no time.
pub proof fn law_the_levels_of_utilization(f: Frame, a: u64, b: u64)
    ensures
        is_active(f) <==> f.s.util_pct is Some && f.s.util_pct->0 >= 50_000,
        is_slack(f) <==> f.s.util_pct is Some && f.s.util_pct->0 < 50_000,
        is_moving(f) <==> f.s.util_pct is Some && f.s.util_pct->0 >= 10_000,
        is_still(f) <==> f.s.util_pct is Some && f.s.util_pct->0 <= 2_000,
        busy(f.s) <==> f.s.util_pct is Some && f.s.util_pct->0 >= 30_000,
        since(a, b) == (if a >= b {
            a - b
        } else {
            0
        }),
{
}

/// A process holds quietly with a gibibyte or more, at two hundredths of utilization or less where
/// it shows any. A window climbs where it spans a minute or more and rose by 16 MiB a minute or
/// more from its first reading to its last. Pressure has cooled down after ninety seconds.
pub proof fn law_the_levels_of_memory(
    p: ProcView,
    w: Seq<(u64, u64)>,
    last: Option<u64>,
    ts_ms: u64,
)
    ensures
        holds_quietly(p) <==> could_hang(p),
        w.len() > 0 && w[0].0 <= w.last().0 ==> (climbing(w) <==> w.last().0 - w[0].0 >= 60_000 && (
        w.last().1 - w[0].1) * 60_000 >= 0x100_0000 * (w.last().0 - w[0].0)),
        w.len() == 0 ==> !climbing(w),
        cooled_down(last, ts_ms) <==> last is None || ts_ms - last->0 >= 90_000,
{
}

/// The limits of what is told: half a minute of work before a gap, ten seconds of gap, and 256 MiB
/// of the process in it; ten minutes of a hang, and 1 GiB; ninety seconds of a spillover, 2 GiB, at
/// most 15 % of the device, at least one core and a half in at least three readings; a window of
/// three minutes of memory, of which one must be spanned, and 85 % of it.
pub proof fn law_the_limits_of_what_is_told(sp: SpilloverView)
    ensures
        IDLE_ACTIVE_MIN_MS == 30_000 && IDLE_GAP_MIN_MS == 10_000,
        IDLE_HOLDER_MIN_BYTES == 256 * 0x10_0000,
        IDLE_ACTIVE_UTIL_PCT == 50_000 && IDLE_GAP_UTIL_PCT == 10_000,
        HANG_MIN_MS == 600_000 && HANG_HOLDER_MIN_BYTES == 0x4000_0000,
        HANG_PROC_UTIL_PCT == 2_000 && HANG_DEVICE_UTIL_PCT == 2_000,
        SPILLOVER_WINDOW_MS == 90_000 && SPILLOVER_HOLDER_MIN_BYTES == 2 * 0x4000_0000,
        VRAM_WINDOW_MS == 180_000 && VRAM_MIN_SPAN_MS == 60_000 && VRAM_PRESSURE_PCT == 85
            && VRAM_COOLDOWN_MS == 90_000,
        spilled(sp) <==> {
            &&& sp.cpu.n >= 3 && sp.cpu.sum >= 150_000 * sp.cpu.n
            &&& if sp.util.n > 0 {
                sp.util.sum < 15_000 * sp.util.n
            } else {
                sp.util.sum < 15_000
            }
        },
{
}

} // verus!
