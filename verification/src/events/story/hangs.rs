//! What a told hang says of the frames before it, and when one is told.

use vstd::prelude::*;
use crate::events::hang::{HANG_DEVICE_UTIL_PCT, HANG_HOLDER_MIN_BYTES, HANG_MIN_MS, HANG_PROC_UTIL_PCT, among, hang_step, hang_suspected};
use crate::events::holders::{holder_rule, holders, largest};
use crate::events::holders::lemma_largest;
use crate::events::process::{latest, seen_of};
use crate::events::since;
use crate::events::state::{DevModel, HangView, HolderView, MeanView};
use crate::events::story::Frame;
use crate::events::story::{after, at_hang, at_list, holds, told, util_mean};
use crate::events::story::{lemma_all_told, lemma_by_kind, lemma_holders_are_listed, lemma_stages};
use crate::events::EventView;
use crate::lists::mentions;
use crate::lists::{lemma_filter_map_contains, lemma_filter_map_source, lemma_mentions_at};
use crate::model::{ProcView, bytes_text};
use crate::text::dec;

verus! {

/// A process that holds a gibibyte, with engines of its own that are flat or not reported.
pub open spec fn holds_quietly(p: ProcView) -> bool {
    &&& p.mem_bytes matches Some(mem) && mem >= HANG_HOLDER_MIN_BYTES
    &&& p.util_pct matches Some(u) ==> u <= HANG_PROC_UTIL_PCT
}

/// The list shows process `pid` to hold quietly.
pub open spec fn is_quiet(f: Frame, pid: u32) -> bool {
    exists|i: int|
        0 <= i < latest(f.ps).len() && (#[trigger] latest(f.ps)[i]).pid == pid && holds_quietly(
            latest(f.ps)[i],
        )
}

/// The device is seen to be idle.
pub open spec fn is_still(f: Frame) -> bool {
    f.s.util_pct matches Some(u) && u <= HANG_DEVICE_UTIL_PCT
}

/// The device is seen to be idle while process `pid` itself holds quietly.
pub open spec fn is_dead(f: Frame, pid: u32) -> bool {
    is_still(f) && is_quiet(f, pid)
}

/// The process that an episode is anchored to where it begins with this frame: of those that hold
/// quietly, the one that holds most.
pub open spec fn anchor(f: Frame) -> Option<HolderView> {
    largest(
        holders(
            Seq::new(latest(f.ps).len(), |i: int| seen_of(latest(f.ps)[i])),
            HANG_HOLDER_MIN_BYTES,
            Some(HANG_PROC_UTIL_PCT),
        ),
    )
}

/// All the frames from `k` on, before `n`, are dead.
pub open spec fn dead_through(fs: Seq<Frame>, k: int, n: int, pid: u32) -> bool {
    &&& 0 <= k < n
    &&& forall|i: int| k <= i < n ==> is_dead(#[trigger] fs[i], pid)
}

/// The episode that is open after the first `n` frames: the frame it began with, and the process
/// it is anchored to. It ends with the first frame in which this process is not dead, and another
/// one can begin with the next.
pub open spec fn episode(fs: Seq<Frame>, n: nat) -> Option<(int, HolderView)>
    decreases n,
{
    if n == 0 {
        None
    } else {
        let f = fs[n - 1];
        match episode(fs, (n - 1) as nat) {
            Some((k, h)) => if is_dead(f, h.pid) {
                Some((k, h))
            } else {
                None
            },
            None => match anchor(f) {
                Some(h) => if is_still(f) {
                    Some((n - 1, h))
                } else {
                    None
                },
                None => None,
            },
        }
    }
}

/// Before frame `n` no frame since `k` was ten minutes after it.
pub open spec fn not_yet(fs: Seq<Frame>, k: int, n: int) -> bool {
    forall|i: int| k <= i < n ==> since((#[trigger] fs[i]).s.ts_ms, fs[k].s.ts_ms) < HANG_MIN_MS
}

/// Frame `n` is the first one ten minutes after frame `k`.
pub open spec fn is_due(fs: Seq<Frame>, k: int, n: int) -> bool {
    not_yet(fs, k, n) && since(fs[n].s.ts_ms, fs[k].s.ts_ms) >= HANG_MIN_MS
}

/// What is remembered of an episode that began with frame `k`, after the first `n` frames.
pub open spec fn remembered(fs: Seq<Frame>, k: int, n: int, h: HolderView) -> HangView {
    HangView {
        start_ms: fs[k].s.ts_ms,
        holder: h,
        util: util_mean(fs, k, n),
        fired: !not_yet(fs, k, n),
    }
}

/// The processes that the rule of hangs looks for are those that the list shows to hold quietly.
proof fn lemma_quiet_holders(m: DevModel, device: Seq<char>, name: Seq<char>, f: Frame)
    ensures
        ({
            let quiet = holders(
                at_list(m, device, name, f).procs,
                HANG_HOLDER_MIN_BYTES,
                Some(HANG_PROC_UTIL_PCT),
            );
            &&& forall|pid: u32| #[trigger] among(quiet, pid) <==> is_quiet(f, pid)
            &&& largest(quiet) == anchor(f)
            &&& anchor(f) matches Some(h) ==> quiet.contains(h)
        }),
{
    reveal(at_list);
    let c = at_list(m, device, name, f);
    let rule = holder_rule(HANG_HOLDER_MIN_BYTES, Some(HANG_PROC_UTIL_PCT));
    let quiet = holders(c.procs, HANG_HOLDER_MIN_BYTES, Some(HANG_PROC_UTIL_PCT));
    let l = latest(f.ps);
    lemma_filter_map_source(c.procs, rule);
    assert forall|pid: u32| #[trigger] among(quiet, pid) <==> is_quiet(f, pid) by {
        if among(quiet, pid) {
            let i = choose|i: int| 0 <= i < quiet.len() && (#[trigger] quiet[i]).pid == pid;
            let j = choose|j: int|
                0 <= j < c.procs.len() && rule(#[trigger] c.procs[j]) == Some(quiet[i]);
            assert(c.procs[j] == seen_of(l[j]));
            assert(l[j].pid == pid && holds_quietly(l[j]));
        }
        if is_quiet(f, pid) {
            let j = choose|j: int|
                0 <= j < l.len() && (#[trigger] l[j]).pid == pid && holds_quietly(l[j]);
            assert(c.procs[j] == seen_of(l[j]));
            lemma_filter_map_contains(c.procs, rule, j);
            let i = choose|i: int| 0 <= i < quiet.len() && quiet[i] == rule(c.procs[j])->0;
            assert(quiet[i].pid == pid);
        }
    }
    lemma_largest(quiet);
}

/// What is known of the process that an episode begins with.
proof fn lemma_anchor(f: Frame)
    ensures
        anchor(f) matches Some(h) ==> {
            &&& is_quiet(f, h.pid)
            &&& holds(f, h)
            &&& h.mem >= HANG_HOLDER_MIN_BYTES
        },
{
    let m = DevModel::fresh();
    lemma_quiet_holders(m, Seq::empty(), Seq::empty(), f);
    lemma_holders_are_listed(
        m,
        Seq::empty(),
        Seq::empty(),
        f,
        HANG_HOLDER_MIN_BYTES,
        Some(HANG_PROC_UTIL_PCT),
    );
    if let Some(h) = anchor(f) {
        let quiet = holders(
            at_list(m, Seq::empty(), Seq::empty(), f).procs,
            HANG_HOLDER_MIN_BYTES,
            Some(HANG_PROC_UTIL_PCT),
        );
        let i = choose|i: int| 0 <= i < quiet.len() && quiet[i] == h;
        assert(quiet[i].pid == h.pid);
        assert(among(quiet, h.pid));
    }
}

/// Through an open episode its process was dead.
proof fn lemma_episode_is_dead(fs: Seq<Frame>, n: nat)
    ensures
        episode(fs, n) matches Some((k, h)) ==> {
            &&& dead_through(fs, k, n as int, h.pid)
            &&& anchor(fs[k]) == Some(h)
            &&& episode(fs, k as nat) is None
        },
    decreases n,
{
    if n > 0 {
        lemma_episode_is_dead(fs, (n - 1) as nat);
        lemma_anchor(fs[n - 1]);
    }
}

/// What is remembered of a hang is what the frames of the open episode made it.
proof fn lemma_hang_history(device: Seq<char>, name: Seq<char>, fs: Seq<Frame>, n: nat)
    ensures
        after(device, name, fs, n).hang == (match episode(fs, n) {
            Some((k, h)) => Some(remembered(fs, k, n as int, h)),
            None => None,
        }),
    decreases n,
{
    if n > 0 {
        let before = (n - 1) as nat;
        let m = after(device, name, fs, before);
        let f = fs[n - 1];
        lemma_hang_history(device, name, fs, before);
        lemma_episode_is_dead(fs, before);
        lemma_stages(m, device, name, f);
        lemma_quiet_holders(m, device, name, f);
        reveal(at_hang);
        match episode(fs, before) {
            Some((k, h)) => {
                lemma_not_yet(fs, k, before as int);
            },
            None => {
                assert(util_mean(fs, n - 1, n - 1) == MeanView::none());
            },
        }
    }
}

/// One more frame that is not ten minutes after `k`, or is.
proof fn lemma_not_yet(fs: Seq<Frame>, k: int, n: int)
    requires
        k <= n,
    ensures
        not_yet(fs, k, n + 1) <==> not_yet(fs, k, n) && since(fs[n].s.ts_ms, fs[k].s.ts_ms)
            < HANG_MIN_MS,
{
    if not_yet(fs, k, n + 1) {
        assert(since(fs[n].s.ts_ms, fs[k].s.ts_ms) < HANG_MIN_MS);
    }
}

/// A hang is told of the open episode at the first frame ten minutes after the one it began with,
/// and at no other: in these words, with the mean of its frames.
pub proof fn law_a_hang_is_told_at_ten_minutes(
    device: Seq<char>,
    name: Seq<char>,
    fs: Seq<Frame>,
    n: nat,
    e: EventView,
)
    ensures
        told(device, name, fs, n).contains(e) && e.kind is HangSuspected <==> (match episode(
            fs,
            n + 1,
        ) {
            Some((k, h)) => is_due(fs, k, n as int) && e == hang_suspected(
                device,
                name,
                fs[n as int].s.ts_ms,
                HangView { fired: false, ..remembered(fs, k, n as int + 1, h) },
            ),
            None => false,
        }),
{
    let m = after(device, name, fs, n);
    let f = fs[n as int];
    let c = at_list(m, device, name, f);
    let es = told(device, name, fs, n);
    let hs = hang_step(c, device, name, f.s).1;
    lemma_hang_history(device, name, fs, n);
    lemma_stages(m, device, name, f);
    lemma_quiet_holders(m, device, name, f);
    lemma_all_told(m, device, name, f);
    if es.contains(e) && e.kind is HangSuspected {
        let i = choose|i: int| 0 <= i < es.len() && es[i] == e;
        lemma_by_kind(m, device, name, f, i);
    }
    assert(es.contains(e) && e.kind is HangSuspected <==> hs.contains(e));
    if let Some((k, h)) = episode(fs, n) {
        lemma_episode_is_dead(fs, n);
        if hs.len() > 0 {
            assert(hs.contains(hs[0]));
        }
    }
}

/// The event tells of a hang through all the frames from `k` to `n`, at least ten minutes of them.
pub open spec fn tells_of_a_hang(
    e: EventView,
    device: Seq<char>,
    name: Seq<char>,
    fs: Seq<Frame>,
    k: int,
    n: int,
    holder: HolderView,
) -> bool {
    &&& dead_through(fs, k, n + 1, holder.pid)
    &&& anchor(fs[k]) == Some(holder)
    &&& holds(fs[k], holder)
    &&& holder.mem >= HANG_HOLDER_MIN_BYTES
    &&& since(fs[n].s.ts_ms, fs[k].s.ts_ms) >= HANG_MIN_MS
    &&& e == hang_suspected(
        device,
        name,
        fs[n].s.ts_ms,
        HangView { fired: false, ..remembered(fs, k, n + 1, holder) },
    )
}

/// A hang is told only after ten unbroken minutes: in every frame since it began the device was
/// seen to be idle while the very process that is told of held its memory quietly; and the mean
/// that is told is that of these frames.
pub proof fn law_a_hang_takes_ten_dead_minutes(
    device: Seq<char>,
    name: Seq<char>,
    fs: Seq<Frame>,
    n: nat,
    i: int,
)
    requires
        0 <= i < told(device, name, fs, n).len(),
        told(device, name, fs, n)[i].kind is HangSuspected,
    ensures
        exists|k: int, holder: HolderView| #[trigger]
            tells_of_a_hang(told(device, name, fs, n)[i], device, name, fs, k, n as int, holder),
{
    let e = told(device, name, fs, n)[i];
    assert(told(device, name, fs, n).contains(e));
    law_a_hang_is_told_at_ten_minutes(device, name, fs, n, e);
    lemma_episode_is_dead(fs, n + 1);
    let (k, h) = episode(fs, n + 1)->0;
    lemma_anchor(fs[k]);
    assert(tells_of_a_hang(e, device, name, fs, k, n as int, h));
}

/// Where no episode is open, one begins with a frame that is idle and has an anchor, and goes on
/// as long as this process is dead.
proof fn lemma_episode_goes_on(fs: Seq<Frame>, k: nat, n: nat, h: HolderView)
    requires
        k < n,
        episode(fs, k) is None,
        anchor(fs[k as int]) == Some(h),
        dead_through(fs, k as int, n as int, h.pid),
    ensures
        episode(fs, n) == Some((k as int, h)),
    decreases n,
{
    assert(is_dead(fs[n - 1], h.pid));
    if n > k + 1 {
        assert(dead_through(fs, k as int, n - 1, h.pid));
        lemma_episode_goes_on(fs, k, (n - 1) as nat, h);
    }
}

/// A hang that lasts is told, and told once: where an episode begins with frame `k` and the
/// process that held most then is dead ever since, it is told at the first frame ten minutes after
/// `k` and at no other.
pub proof fn law_a_lasting_hang_is_told(
    device: Seq<char>,
    name: Seq<char>,
    fs: Seq<Frame>,
    k: nat,
    n: nat,
    h: HolderView,
)
    requires
        k <= n,
        episode(fs, k) is None,
        anchor(fs[k as int]) == Some(h),
        dead_through(fs, k as int, n as int + 1, h.pid),
    ensures
        (exists|e: EventView| #[trigger]
            told(device, name, fs, n).contains(e) && e.kind is HangSuspected) <==> is_due(
            fs,
            k as int,
            n as int,
        ),
{
    lemma_episode_goes_on(fs, k, n + 1, h);
    let due = hang_suspected(
        device,
        name,
        fs[n as int].s.ts_ms,
        HangView { fired: false, ..remembered(fs, k as int, n as int + 1, h) },
    );
    law_a_hang_is_told_at_ten_minutes(device, name, fs, n, due);
    if exists|e: EventView| #[trigger]
        told(device, name, fs, n).contains(e) && e.kind is HangSuspected {
        let e = choose|e: EventView| #[trigger]
            told(device, name, fs, n).contains(e) && e.kind is HangSuspected;
        law_a_hang_is_told_at_ten_minutes(device, name, fs, n, e);
    }
}

/// A frame in which the device is not seen to be idle, or in which the process of the episode does
/// not hold quietly, ends the episode untold, and the ten minutes begin anew after it.
pub proof fn law_a_break_starts_the_minutes_anew(
    device: Seq<char>,
    name: Seq<char>,
    fs: Seq<Frame>,
    n: nat,
    e: EventView,
)
    requires
        !is_still(fs[n as int]) || (match episode(fs, n) {
            Some((_, h)) => !is_quiet(fs[n as int], h.pid),
            None => false,
        }),
    ensures
        episode(fs, n + 1) is None,
        after(device, name, fs, n + 1).hang is None,
        !(told(device, name, fs, n).contains(e) && e.kind is HangSuspected),
{
    lemma_hang_history(device, name, fs, n + 1);
    law_a_hang_is_told_at_ten_minutes(device, name, fs, n, e);
}

/// The title of a hang names the process and what it holds, and hedges.
pub proof fn law_a_hang_is_told_in_these_words(
    device: Seq<char>,
    name: Seq<char>,
    ts_ms: u64,
    ep: HangView,
)
    ensures
        ({
            let title = hang_suspected(device, name, ts_ms, ep).title;
            &&& mentions(title, "likely hung"@)
            &&& mentions(title, ep.holder.name + " (pid "@ + dec(ep.holder.pid as nat) + ")"@)
            &&& mentions(title, bytes_text(ep.holder.mem as nat))
        }),
{
    let title = hang_suspected(device, name, ts_ms, ep).title;
    let who = ep.holder.name + " (pid "@ + dec(ep.holder.pid as nat) + ")"@;
    let mem = bytes_text(ep.holder.mem as nat);
    let lit = " likely hung — held "@;
    reveal_strlit("likely hung");
    reveal_strlit(" likely hung — held ");
    reveal_strlit(": ");
    let at_who = (name + ": "@).len() as int;
    let at_lit = at_who + who.len();
    let at_mem = at_lit + lit.len();
    assert(title.subrange(at_who, at_who + who.len()) =~= who);
    lemma_mentions_at(title, who, at_who);
    assert(title.subrange(at_lit + 1, at_lit + 1 + "likely hung"@.len()) =~= "likely hung"@);
    lemma_mentions_at(title, "likely hung"@, at_lit + 1);
    assert(title.subrange(at_mem, at_mem + mem.len()) =~= mem);
    lemma_mentions_at(title, mem, at_mem);
}

} // verus!
