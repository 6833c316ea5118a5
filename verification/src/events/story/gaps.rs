//! What a told idle gap says of the frames before it.

use vstd::prelude::*;
use crate::events::hang::hang_step;
use crate::events::holders::{holders, largest};
use crate::events::holders::lemma_largest;
use crate::events::idle::{IDLE_ACTIVE_MIN_MS, IDLE_ACTIVE_UTIL_PCT, IDLE_GAP_MIN_MS, IDLE_GAP_UTIL_PCT, IDLE_HOLDER_MIN_BYTES, idle_gap, idle_gap_step, stay_rule, staying};
use crate::events::laws::none_of;
use crate::events::process::{known, latest, listed, seen_of};
use crate::events::since;
use crate::events::state::{DevModel, HolderView, IdleGapView, MeanView};
use crate::events::story::Frame;
use crate::events::story::{after, at_gap, at_hang, at_list, holds, step, told, util_mean};
use crate::events::story::{lemma_all_told, lemma_by_kind, lemma_holders_are_listed, lemma_known_is_listed, lemma_stages};
use crate::events::{EventKind, EventView, dur_text};
use crate::lists::{lemma_filter_map_contains, lemma_filter_map_source};
use crate::text::dec;

verus! {

/// The device is seen to be at work.
pub open spec fn is_active(f: Frame) -> bool {
    f.s.util_pct matches Some(u) && u >= IDLE_ACTIVE_UTIL_PCT
}

/// The device is seen not to be at work.
pub open spec fn is_slack(f: Frame) -> bool {
    f.s.util_pct matches Some(u) && u < IDLE_ACTIVE_UTIL_PCT
}

/// At work from frame `a` up to frame `b`, for half a minute at least.
pub open spec fn worked(fs: Seq<Frame>, a: int, b: int) -> bool {
    &&& 0 <= a <= b
    &&& forall|i: int| a <= i <= b ==> is_active(#[trigger] fs[i])
    &&& since(fs[b].s.ts_ms, fs[a].s.ts_ms) >= IDLE_ACTIVE_MIN_MS
}

/// The frame is neither out of sight nor below the level at which a gap opens.
pub open spec fn is_moving(f: Frame) -> bool {
    f.s.util_pct matches Some(u) && u >= IDLE_GAP_UTIL_PCT
}

/// Work began with frame `a` and went on up to frame `b`, for half a minute at least; and from then
/// on, before `k`, the device was always in sight and never idle enough for a gap to open.
pub open spec fn worked_until(fs: Seq<Frame>, a: int, b: int, k: int) -> bool {
    &&& a == 0 || !is_active(fs[a - 1])
    &&& worked(fs, a, b)
    &&& b < k
    &&& forall|i: int| b < i < k ==> is_moving(#[trigger] fs[i])
}

/// The device worked for long enough before frame `k`, and no gap lies between.
pub open spec fn worked_before(fs: Seq<Frame>, k: int) -> bool {
    exists|a: int, b: int| #[trigger] worked_until(fs, a, b, k)
}

/// The device fell idle at frame `k`, after work, and did no work since.
pub open spec fn idle_through(fs: Seq<Frame>, k: int, n: int) -> bool {
    &&& 0 < k < n
    &&& worked_before(fs, k)
    &&& fs[k].s.util_pct matches Some(u) && u < IDLE_GAP_UTIL_PCT
    &&& forall|i: int| k <= i < n ==> is_slack(#[trigger] fs[i])
}

/// The process held this memory at frame `k` and was there ever since.
pub open spec fn stayed(fs: Seq<Frame>, k: int, n: int, h: HolderView) -> bool {
    &&& h.mem >= IDLE_HOLDER_MIN_BYTES
    &&& holds(fs[k], h)
    &&& forall|i: int| k <= i < n ==> listed((#[trigger] fs[i]).ps, h.pid)
}

/// No hang was told after frame `k`, before `n`.
pub open spec fn no_hang_told(
    device: Seq<char>,
    name: Seq<char>,
    fs: Seq<Frame>,
    k: int,
    n: int,
) -> bool {
    forall|i: nat|
        k < i < n ==> none_of(#[trigger] told(device, name, fs, i), EventKind::HangSuspected)
}

/// At work ever since frame `a`, with which the work began.
spec fn active_of(fs: Seq<Frame>, a: int, n: int, t: u64) -> bool {
    &&& 0 <= a < n
    &&& a == 0 || !is_active(fs[a - 1])
    &&& fs[a].s.ts_ms == t
    &&& forall|i: int| a <= i < n ==> is_active(#[trigger] fs[i])
}

/// The gap began at frame `k` and is what the frames before `n` made it.
spec fn gap_of(
    device: Seq<char>,
    name: Seq<char>,
    fs: Seq<Frame>,
    k: int,
    n: int,
    gap: IdleGapView,
) -> bool {
    &&& idle_through(fs, k, n)
    &&& gap.start_ms == fs[k].s.ts_ms
    &&& fs[k - 1].s.util_pct == Some(gap.pre_util_pct)
    &&& gap.util == util_mean(fs, k, n)
    &&& forall|h: HolderView| #[trigger] gap.holders.contains(h) ==> stayed(fs, k, n, h)
    &&& !gap.hang_narrated ==> no_hang_told(device, name, fs, k, n)
}

/// What is remembered of activity, of eligibility and of a gap is what the frames made it.
spec fn idle_history(device: Seq<char>, name: Seq<char>, fs: Seq<Frame>, n: int, m: DevModel) -> bool {
    &&& m.active_since matches Some(t) ==> exists|a: int| #[trigger] active_of(fs, a, n, t)
    &&& m.active_since is None && n > 0 ==> !is_active(fs[n - 1])
    &&& m.idle_eligible && m.idle_gap is None ==> worked_before(fs, n)
    &&& m.idle_gap matches Some(gap) ==> exists|k: int| #[trigger]
        gap_of(device, name, fs, k, n, gap)
    &&& m.idle_gap is Some ==> m.active_since is None
}

proof fn lemma_worked_longer(fs: Seq<Frame>, n: int)
    requires
        worked_before(fs, n),
        is_moving(fs[n]),
    ensures
        worked_before(fs, n + 1),
{
    let (a, b) = choose|a: int, b: int| #[trigger] worked_until(fs, a, b, n);
    assert(worked_until(fs, a, b, n + 1));
}

/// Where no hang is told, none is among the events of the frame.
proof fn lemma_no_hang(m: DevModel, device: Seq<char>, name: Seq<char>, f: Frame)
    requires
        hang_step(at_list(m, device, name, f), device, name, f.s).1.len() == 0,
    ensures
        none_of(step(m, device, name, f).1, EventKind::HangSuspected),
{
    let es = step(m, device, name, f).1;
    assert forall|i: int| 0 <= i < es.len() implies (#[trigger] es[i]).kind
        != EventKind::HangSuspected by {
        lemma_by_kind(m, device, name, f, i);
    }
}

/// An open gap after one more frame: what `at_hang` remembers of it, with the holders that the
/// frame still lists.
proof fn lemma_gap_goes_on(
    device: Seq<char>,
    name: Seq<char>,
    fs: Seq<Frame>,
    k: int,
    n: nat,
    gap: IdleGapView,
)
    requires
        after(device, name, fs, n).idle_gap == Some(gap),
        gap_of(device, name, fs, k, n as int, gap),
    ensures
        ({
            let m = after(device, name, fs, n);
            let d = at_hang(m, device, name, fs[n as int]);
            &&& d.idle_gap matches Some(muted)
            &&& muted == (IdleGapView { hang_narrated: muted.hang_narrated, ..gap })
            &&& !muted.hang_narrated ==> no_hang_told(device, name, fs, k, n as int + 1)
            &&& forall|h: HolderView| #[trigger]
                staying(gap.holders, d.procs).contains(h) ==> stayed(fs, k, n as int + 1, h)
        }),
{
    let m = after(device, name, fs, n);
    let f = fs[n as int];
    let c = at_list(m, device, name, f);
    let d = at_hang(m, device, name, f);
    lemma_stages(m, device, name, f);
    lemma_known_is_listed(m, device, name, f);
    if !d.idle_gap->0.hang_narrated {
        lemma_no_hang(m, device, name, f);
        assert forall|i: nat| k < i < n as int + 1 implies none_of(
            #[trigger] told(device, name, fs, i),
            EventKind::HangSuspected,
        ) by {
        }
    }
    let rule = stay_rule(d.procs);
    let kept = staying(gap.holders, d.procs);
    lemma_filter_map_source(gap.holders, rule);
    assert forall|h: HolderView| #[trigger] kept.contains(h) implies stayed(
        fs,
        k,
        n as int + 1,
        h,
    ) by {
        let i = choose|i: int| 0 <= i < kept.len() && kept[i] == h;
        let j = choose|j: int| 0 <= j < gap.holders.len() && rule(#[trigger] gap.holders[j]) == Some(
            kept[i],
        );
        assert(gap.holders[j] == h);
        assert(gap.holders.contains(h));
        assert(known(c.procs, h.pid));
    }
}

proof fn lemma_idle_step(device: Seq<char>, name: Seq<char>, fs: Seq<Frame>, n: nat)
    requires
        n < fs.len(),
        idle_history(device, name, fs, n as int, after(device, name, fs, n)),
    ensures
        idle_history(device, name, fs, n as int + 1, after(device, name, fs, n + 1)),
{
    reveal(at_gap);
    let m = after(device, name, fs, n);
    let f = fs[n as int];
    let d = at_hang(m, device, name, f);
    let next = at_gap(m, device, name, f);
    let end = n as int + 1;
    assert(after(device, name, fs, n + 1) == step(m, device, name, f).0);
    lemma_stages(m, device, name, f);
    if let Some(util) = f.s.util_pct {
        if m.idle_eligible && m.idle_gap is None && is_moving(f) {
            lemma_worked_longer(fs, n as int);
        }
        match m.idle_gap {
            Some(gap) => {
                let k = choose|k: int| #[trigger] gap_of(device, name, fs, k, n as int, gap);
                lemma_gap_goes_on(device, name, fs, k, n, gap);
                if util < IDLE_ACTIVE_UTIL_PCT {
                    assert(idle_through(fs, k, end));
                    assert(gap_of(device, name, fs, k, end, next.idle_gap->0));
                } else {
                    assert(active_of(fs, n as int, end, next.active_since->0));
                }
            },
            None => {
                if util >= IDLE_ACTIVE_UTIL_PCT {
                    if let Some(t) = m.active_since {
                        let a = choose|a: int| #[trigger] active_of(fs, a, n as int, t);
                        assert(active_of(fs, a, end, next.active_since->0));
                        if since(f.s.ts_ms, t) >= IDLE_ACTIVE_MIN_MS {
                            assert(worked_until(fs, a, n as int, end));
                        }
                    } else {
                        assert(active_of(fs, n as int, end, next.active_since->0));
                    }
                } else if util < IDLE_GAP_UTIL_PCT && m.idle_eligible {
                    lemma_gap_opens(device, name, fs, n);
                }
            },
        }
    }
}

proof fn lemma_gap_opens(device: Seq<char>, name: Seq<char>, fs: Seq<Frame>, n: nat)
    requires
        n < fs.len(),
        worked_before(fs, n as int),
        after(device, name, fs, n).idle_gap is None,
        after(device, name, fs, n).idle_eligible,
        fs[n as int].s.util_pct matches Some(u) && u < IDLE_GAP_UTIL_PCT,
    ensures
        at_gap(after(device, name, fs, n), device, name, fs[n as int]).idle_gap matches Some(gap)
            && gap_of(device, name, fs, n as int, n as int + 1, gap),
{
    reveal(at_gap);
    let m = after(device, name, fs, n);
    let f = fs[n as int];
    let c = at_list(m, device, name, f);
    let d = at_hang(m, device, name, f);
    lemma_stages(m, device, name, f);
    assert(d.idle_gap is None);
    let gap = at_gap(m, device, name, f).idle_gap->0;
    let (a, b) = choose|a: int, b: int| #[trigger] worked_until(fs, a, b, n as int);
    assert(is_active(fs[b]));
    assert(fs[n - 1].s.util_pct is Some);
    lemma_stages(after(device, name, fs, (n - 1) as nat), device, name, fs[n - 1]);
    assert(util_mean(fs, n as int, n as int) == MeanView::none());
    assert(idle_through(fs, n as int, n as int + 1));
    lemma_holders_are_listed(m, device, name, f, IDLE_HOLDER_MIN_BYTES, None);
    assert forall|h: HolderView| #[trigger] gap.holders.contains(h) implies stayed(
        fs,
        n as int,
        n as int + 1,
        h,
    ) by {
    }
}

proof fn lemma_idle_history(device: Seq<char>, name: Seq<char>, fs: Seq<Frame>, n: nat)
    requires
        n <= fs.len(),
    ensures
        idle_history(device, name, fs, n as int, after(device, name, fs, n)),
    decreases n,
{
    if n > 0 {
        lemma_idle_history(device, name, fs, (n - 1) as nat);
        lemma_idle_step(device, name, fs, (n - 1) as nat);
    }
}

/// The event tells of a gap that began at frame `k` and that the work of frame `n` ended.
pub open spec fn tells_of_a_gap(
    e: EventView,
    device: Seq<char>,
    name: Seq<char>,
    fs: Seq<Frame>,
    k: int,
    n: int,
    holder: HolderView,
) -> bool {
    &&& idle_through(fs, k, n)
    &&& is_active(fs[n])
    &&& since(fs[n].s.ts_ms, fs[k].s.ts_ms) >= IDLE_GAP_MIN_MS
    &&& stayed(fs, k, n + 1, holder)
    &&& no_hang_told(device, name, fs, k, n + 1)
    &&& e == idle_gap(
        device,
        name,
        fs[n].s.ts_ms,
        IdleGapView {
            start_ms: fs[k].s.ts_ms,
            pre_util_pct: fs[k - 1].s.util_pct->0,
            util: util_mean(fs, k, n),
            holders: seq![holder],
            hang_narrated: false,
        },
        holder,
    )
}

/// An idle gap is told only of a device that worked for half a minute, then fell idle and stayed
/// below the active level for ten seconds at least, always in sight, until it works again; the
/// process that is told of was attached through all of it, no hang was told in it, and the mean
/// that is told is that of its frames.
pub proof fn law_a_gap_lies_between_work(
    device: Seq<char>,
    name: Seq<char>,
    fs: Seq<Frame>,
    n: nat,
    i: int,
)
    requires
        n < fs.len(),
        0 <= i < told(device, name, fs, n).len(),
        told(device, name, fs, n)[i].kind is IdleGap,
    ensures
        exists|k: int, holder: HolderView| #[trigger]
            tells_of_a_gap(told(device, name, fs, n)[i], device, name, fs, k, n as int, holder),
{
    let m = after(device, name, fs, n);
    let f = fs[n as int];
    let d = at_hang(m, device, name, f);
    let e = told(device, name, fs, n)[i];
    lemma_idle_history(device, name, fs, n);
    lemma_stages(m, device, name, f);
    lemma_by_kind(m, device, name, f, i);
    assert(d.idle_gap is Some && m.idle_gap is Some);
    let gap = m.idle_gap->0;
    let k = choose|k: int| #[trigger] gap_of(device, name, fs, k, n as int, gap);
    lemma_gap_goes_on(device, name, fs, k, n, gap);
    let kept = staying(gap.holders, d.procs);
    lemma_largest(kept);
    let holder = largest(kept)->0;
    assert(kept.contains(holder));
    assert(tells_of_a_gap(e, device, name, fs, k, n as int, holder));
}

/// Work comes between gaps: before a gap, told or not, opened with frame `k2`, the half minute of
/// work began when any gap that opened earlier was over.
pub proof fn law_work_comes_between_gaps(fs: Seq<Frame>, k: int, n: int, k2: int, n2: int)
    requires
        idle_through(fs, k, n),
        is_active(fs[n]),
        idle_through(fs, k2, n2),
        k < k2,
    ensures
        exists|a: int, b: int| #[trigger] worked_until(fs, a, b, k2) && n <= a,
{
    let (a, b) = choose|a: int, b: int| #[trigger] worked_until(fs, a, b, k2);
    assert(is_active(fs[a]));
    if a <= k {
        if k <= b {
            assert(is_active(fs[k]));
        } else {
            assert(is_moving(fs[k]));
        }
    }
    if a < n {
        assert(is_slack(fs[a]));
    }
}

/// A gap is told once: with the first frame that is active again.
pub proof fn law_a_gap_is_told_once(
    device: Seq<char>,
    name: Seq<char>,
    fs: Seq<Frame>,
    e: EventView,
    e2: EventView,
    k: int,
    n: int,
    n2: int,
    h: HolderView,
    h2: HolderView,
)
    requires
        tells_of_a_gap(e, device, name, fs, k, n, h),
        tells_of_a_gap(e2, device, name, fs, k, n2, h2),
    ensures
        n == n2,
{
    if n < n2 {
        assert(is_slack(fs[n]));
    }
    if n2 < n {
        assert(is_slack(fs[n2]));
    }
}

/// The processes that hold real memory when a gap opens with this frame.
pub open spec fn bystanders(f: Frame) -> Seq<HolderView> {
    holders(
        Seq::new(latest(f.ps).len(), |i: int| seen_of(latest(f.ps)[i])),
        IDLE_HOLDER_MIN_BYTES,
        None,
    )
}

/// The process held real memory at frame `k` and was there in all the frames from then on, before
/// `n`.
pub open spec fn stood_by(fs: Seq<Frame>, k: int, n: int, h: HolderView) -> bool {
    &&& bystanders(fs[k]).contains(h)
    &&& forall|i: int| k <= i < n ==> listed((#[trigger] fs[i]).ps, h.pid)
}

/// After a frame that is not active no activity is remembered.
proof fn lemma_not_active(device: Seq<char>, name: Seq<char>, fs: Seq<Frame>, a: nat)
    requires
        a <= fs.len(),
        a == 0 || !is_active(fs[a - 1]),
    ensures
        after(device, name, fs, a).active_since is None,
{
    if a > 0 {
        let m = after(device, name, fs, (a - 1) as nat);
        lemma_idle_history(device, name, fs, (a - 1) as nat);
        lemma_stages(m, device, name, fs[a - 1]);
        reveal(at_gap);
    }
}

/// After work that began with frame `a` no gap is open, and its start is remembered.
proof fn lemma_at_work(device: Seq<char>, name: Seq<char>, fs: Seq<Frame>, a: nat, j: nat)
    requires
        a <= j < fs.len(),
        a == 0 || !is_active(fs[a - 1]),
        forall|i: int| a <= i <= j ==> is_active(#[trigger] fs[i]),
    ensures
        ({
            let m = after(device, name, fs, j + 1);
            &&& m.idle_gap is None
            &&& m.active_since == Some(fs[a as int].s.ts_ms)
            &&& since(fs[j as int].s.ts_ms, fs[a as int].s.ts_ms) >= IDLE_ACTIVE_MIN_MS
                ==> m.idle_eligible
        }),
    decreases j,
{
    let m = after(device, name, fs, j);
    let f = fs[j as int];
    if j == a {
        lemma_not_active(device, name, fs, a);
    } else {
        lemma_at_work(device, name, fs, a, (j - 1) as nat);
    }
    lemma_stages(m, device, name, f);
    assert(is_active(f));
    reveal(at_gap);
}

/// After work that lasted, the device stays eligible for a gap until one opens.
proof fn lemma_eligible(
    device: Seq<char>,
    name: Seq<char>,
    fs: Seq<Frame>,
    a: nat,
    b: nat,
    k: nat,
)
    requires
        k <= fs.len(),
        worked_until(fs, a as int, b as int, k as int),
    ensures
        after(device, name, fs, k).idle_gap is None,
        after(device, name, fs, k).idle_eligible,
    decreases k,
{
    if k == b + 1 {
        lemma_at_work(device, name, fs, a, b);
    } else {
        let m = after(device, name, fs, (k - 1) as nat);
        assert(worked_until(fs, a as int, b as int, k - 1));
        lemma_eligible(device, name, fs, a, b, (k - 1) as nat);
        lemma_stages(m, device, name, fs[k - 1]);
        assert(is_moving(fs[k - 1]));
        reveal(at_gap);
    }
}

/// The gap that opened with frame `k`, before frame `n`: who stood by, and whether it is muted.
spec fn gap_so_far(
    device: Seq<char>,
    name: Seq<char>,
    fs: Seq<Frame>,
    k: int,
    n: int,
    gap: IdleGapView,
) -> bool {
    &&& gap.start_ms == fs[k].s.ts_ms
    &&& forall|h: HolderView| #[trigger] gap.holders.contains(h) <==> stood_by(fs, k, n, h)
    &&& gap.hang_narrated <==> !no_hang_told(device, name, fs, k, n)
}

/// Who stays when a frame is taken in.
proof fn lemma_who_stays(
    device: Seq<char>,
    name: Seq<char>,
    fs: Seq<Frame>,
    k: int,
    n: nat,
    gap: IdleGapView,
)
    requires
        k < n < fs.len(),
        gap_so_far(device, name, fs, k, n as int, gap),
    ensures
        ({
            let d = at_hang(after(device, name, fs, n), device, name, fs[n as int]);
            forall|h: HolderView| #[trigger]
                staying(gap.holders, d.procs).contains(h) <==> stood_by(fs, k, n as int + 1, h)
        }),
{
    let m = after(device, name, fs, n);
    let f = fs[n as int];
    let d = at_hang(m, device, name, f);
    lemma_stages(m, device, name, f);
    lemma_known_is_listed(m, device, name, f);
    let rule = stay_rule(d.procs);
    let kept = staying(gap.holders, d.procs);
    lemma_filter_map_source(gap.holders, rule);
    assert forall|h: HolderView| #[trigger] kept.contains(h) <==> stood_by(
        fs,
        k,
        n as int + 1,
        h,
    ) by {
        assert(known(d.procs, h.pid) == listed(f.ps, h.pid));
        if kept.contains(h) {
            let i = choose|i: int| 0 <= i < kept.len() && kept[i] == h;
            let j = choose|j: int|
                0 <= j < gap.holders.len() && rule(#[trigger] gap.holders[j]) == Some(kept[i]);
            assert(gap.holders[j] == h);
            assert(gap.holders.contains(h));
        }
        if stood_by(fs, k, n as int + 1, h) {
            assert(listed(fs[n as int].ps, h.pid));
            assert(stood_by(fs, k, n as int, h));
            assert(gap.holders.contains(h));
            let j = choose|j: int| 0 <= j < gap.holders.len() && gap.holders[j] == h;
            lemma_filter_map_contains(gap.holders, rule, j);
        }
    }
}

/// A hang is among the events of a frame exactly where its rule tells one.
proof fn lemma_hang_or_none(m: DevModel, device: Seq<char>, name: Seq<char>, f: Frame)
    ensures
        none_of(step(m, device, name, f).1, EventKind::HangSuspected) <==> hang_step(
            at_list(m, device, name, f),
            device,
            name,
            f.s,
        ).1.len() == 0,
{
    let hs = hang_step(at_list(m, device, name, f), device, name, f.s).1;
    let es = step(m, device, name, f).1;
    if hs.len() > 0 {
        lemma_all_told(m, device, name, f);
        assert(hs.contains(hs[0]));
        let i = choose|i: int| 0 <= i < es.len() && es[i] == hs[0];
        assert(es[i].kind is HangSuspected);
    } else {
        lemma_no_hang(m, device, name, f);
    }
}

/// No hang up to a frame, and none in it.
proof fn lemma_no_hang_step(
    device: Seq<char>,
    name: Seq<char>,
    fs: Seq<Frame>,
    k: int,
    n: nat,
)
    requires
        k < n,
    ensures
        no_hang_told(device, name, fs, k, n as int + 1) <==> no_hang_told(
            device,
            name,
            fs,
            k,
            n as int,
        ) && none_of(told(device, name, fs, n), EventKind::HangSuspected),
{
    if no_hang_told(device, name, fs, k, n as int + 1) {
        assert forall|i: nat| k < i < n implies none_of(
            #[trigger] told(device, name, fs, i),
            EventKind::HangSuspected,
        ) by {
        }
    }
}

proof fn lemma_gap_so_far(
    device: Seq<char>,
    name: Seq<char>,
    fs: Seq<Frame>,
    k: nat,
    n: nat,
)
    requires
        k < n <= fs.len(),
        after(device, name, fs, k).idle_gap is None,
        after(device, name, fs, k).idle_eligible,
        fs[k as int].s.util_pct matches Some(u) && u < IDLE_GAP_UTIL_PCT,
        forall|i: int| k <= i < n ==> is_slack(#[trigger] fs[i]),
    ensures
        after(device, name, fs, n).idle_gap matches Some(gap) && gap_so_far(
            device,
            name,
            fs,
            k as int,
            n as int,
            gap,
        ),
    decreases n,
{
    let before = (n - 1) as nat;
    let m = after(device, name, fs, before);
    let f = fs[n - 1];
    let d = at_hang(m, device, name, f);
    let gap = after(device, name, fs, n).idle_gap->0;
    lemma_stages(m, device, name, f);
    assert(is_slack(f));
    reveal(at_gap);
    if before == k {
        reveal(at_list);
        assert(gap.holders == bystanders(f));
        lemma_holders_are_listed(m, device, name, f, IDLE_HOLDER_MIN_BYTES, None);
        assert forall|h: HolderView| #[trigger] gap.holders.contains(h) <==> stood_by(
            fs,
            k as int,
            n as int,
            h,
        ) by {
        }
        assert(no_hang_told(device, name, fs, k as int, n as int));
    } else {
        lemma_gap_so_far(device, name, fs, k, before);
        lemma_who_stays(device, name, fs, k as int, before, m.idle_gap->0);
        lemma_hang_or_none(m, device, name, f);
        lemma_no_hang_step(device, name, fs, k as int, before);
    }
}

/// A stall is told: of a device that worked from frame `a`, where the work began, to frame `b`,
/// half a minute at least, then fell idle with frame `k` and worked again with frame `n`, always in
/// sight, the gap is told exactly where it lasted ten seconds, a process that held memory when it
/// opened stayed through it, and no hang was told in it.
pub proof fn law_a_stall_is_told(
    device: Seq<char>,
    name: Seq<char>,
    fs: Seq<Frame>,
    a: nat,
    b: nat,
    k: nat,
    n: nat,
)
    requires
        k < n < fs.len(),
        worked_until(fs, a as int, b as int, k as int),
        fs[k as int].s.util_pct matches Some(u) && u < IDLE_GAP_UTIL_PCT,
        forall|i: int| k <= i < n ==> is_slack(#[trigger] fs[i]),
        is_active(fs[n as int]),
    ensures
        !none_of(told(device, name, fs, n), EventKind::IdleGap) <==> {
            &&& since(fs[n as int].s.ts_ms, fs[k as int].s.ts_ms) >= IDLE_GAP_MIN_MS
            &&& exists|h: HolderView| #[trigger] stood_by(fs, k as int, n as int + 1, h)
            &&& no_hang_told(device, name, fs, k as int, n as int)
        },
{
    let m = after(device, name, fs, n);
    let f = fs[n as int];
    let d = at_hang(m, device, name, f);
    let es = told(device, name, fs, n);
    let gs = idle_gap_step(d, device, name, f.s).1;
    lemma_eligible(device, name, fs, a, b, k);
    lemma_gap_so_far(device, name, fs, k, n);
    lemma_stages(m, device, name, f);
    let gap = m.idle_gap->0;
    lemma_who_stays(device, name, fs, k as int, n, gap);
    let kept = staying(gap.holders, d.procs);
    lemma_largest(kept);
    if kept.len() > 0 {
        assert(kept.contains(kept[0]));
        assert(stood_by(fs, k as int, n as int + 1, kept[0]));
    }
    if exists|h: HolderView| #[trigger] stood_by(fs, k as int, n as int + 1, h) {
        let h = choose|h: HolderView| #[trigger] stood_by(fs, k as int, n as int + 1, h);
        assert(kept.contains(h));
    }
    lemma_all_told(m, device, name, f);
    if gs.len() > 0 {
        assert(gs.contains(gs[0]));
        let i = choose|i: int| 0 <= i < es.len() && es[i] == gs[0];
        assert(es[i].kind is IdleGap);
    } else {
        assert forall|i: int| 0 <= i < es.len() implies (#[trigger] es[i]).kind
            != EventKind::IdleGap by {
            lemma_by_kind(m, device, name, f, i);
        }
    }
}

/// The event names the process `h`, which stood by through the whole gap, and none that stood by
/// held more when it opened.
pub open spec fn names_the_largest(
    e: EventView,
    name: Seq<char>,
    fs: Seq<Frame>,
    k: int,
    n: int,
    h: HolderView,
) -> bool {
    &&& stood_by(fs, k, n + 1, h)
    &&& forall|other: HolderView| #[trigger] stood_by(fs, k, n + 1, other) ==> other.mem <= h.mem
    &&& e.title == name + " sat idle "@ + dur_text((fs[n].s.ts_ms - fs[k].s.ts_ms) as nat)
        + " while "@ + (h.name + " (pid "@ + dec(h.pid as nat) + ")"@)
        + " stayed attached — likely a dataloader or checkpoint stall"@
}

/// A stall that is told names a process that stayed through it, and of those that stayed one that
/// held most when it began.
pub proof fn law_a_stall_names_a_largest_holder(
    device: Seq<char>,
    name: Seq<char>,
    fs: Seq<Frame>,
    a: nat,
    b: nat,
    k: nat,
    n: nat,
    i: int,
)
    requires
        k < n < fs.len(),
        worked_until(fs, a as int, b as int, k as int),
        fs[k as int].s.util_pct matches Some(u) && u < IDLE_GAP_UTIL_PCT,
        forall|j: int| k <= j < n ==> is_slack(#[trigger] fs[j]),
        is_active(fs[n as int]),
        0 <= i < told(device, name, fs, n).len(),
        told(device, name, fs, n)[i].kind is IdleGap,
    ensures
        exists|h: HolderView| #[trigger]
            names_the_largest(told(device, name, fs, n)[i], name, fs, k as int, n as int, h),
{
    let m = after(device, name, fs, n);
    let f = fs[n as int];
    let d = at_hang(m, device, name, f);
    let e = told(device, name, fs, n)[i];
    lemma_eligible(device, name, fs, a, b, k);
    lemma_gap_so_far(device, name, fs, k, n);
    lemma_stages(m, device, name, f);
    let gap = m.idle_gap->0;
    lemma_who_stays(device, name, fs, k as int, n, gap);
    let kept = staying(gap.holders, d.procs);
    lemma_largest(kept);
    lemma_by_kind(m, device, name, f, i);
    let h = largest(kept)->0;
    assert(kept.contains(h));
    assert forall|other: HolderView| #[trigger]
        stood_by(fs, k as int, n as int + 1, other) implies other.mem <= h.mem by {
        assert(kept.contains(other));
        let x = choose|x: int| 0 <= x < kept.len() && kept[x] == other;
        assert(kept[x].mem <= h.mem);
    }
    assert(names_the_largest(e, name, fs, k as int, n as int, h));
}

} // verus!
