//! What told memory pressure says of the frames before it.

use vstd::prelude::*;
use crate::events::holders::{holder_rule, holders, largest};
use crate::events::holders::lemma_largest;
use crate::events::laws::{in_order, none_of};
use crate::events::process::{latest, seen_of};
use crate::events::since;
use crate::events::state::{DevModel, HolderView};
use crate::events::story::Frame;
use crate::events::story::{after, at_gap, at_hang, at_list, at_spillover, at_throttle, step, told};
use crate::events::story::{lemma_all_told, lemma_by_kind, lemma_early_stages};
use crate::events::vram::{MS_PER_MIN, VRAM_COOLDOWN_MS, VRAM_MIN_SLOPE_BYTES_PER_MIN, VRAM_MIN_SPAN_MS, VRAM_PRESSURE_PCT, VRAM_WINDOW_MS, climbing, cooled_down, grower_text, pressure, trimmed, vram_pressure_step, window_step};
use crate::events::{EventKind, EventView};
use crate::lists::{lemma_filter_map_contains, lemma_filter_map_source};
use crate::model::ProcView;
use crate::text::dec;

verus! {

/// A frame before `n` shows this use of memory at this time.
pub open spec fn was_read(fs: Seq<Frame>, n: int, r: (u64, u64)) -> bool {
    exists|k: int|
        0 <= k < n && (#[trigger] fs[k]).s.ts_ms == r.0 && fs[k].s.mem_used_bytes == Some(r.1)
}

/// All the readings of a window come from the frames before `n`.
spec fn all_read(fs: Seq<Frame>, n: int, w: Seq<(u64, u64)>) -> bool {
    forall|i: int| 0 <= i < w.len() ==> was_read(fs, n, #[trigger] w[i])
}

/// What a frame does to what is remembered of memory.
proof fn lemma_pressure_stage(m: DevModel, device: Seq<char>, name: Seq<char>, f: Frame)
    ensures
        step(m, device, name, f).0.vram_window == vram_pressure_step(
            at_gap(m, device, name, f),
            device,
            name,
            f.s,
            f.mem_total,
        ).0.vram_window,
        step(m, device, name, f).0.last_pressure_evt == vram_pressure_step(
            at_gap(m, device, name, f),
            device,
            name,
            f.s,
            f.mem_total,
        ).0.last_pressure_evt,
        at_gap(m, device, name, f).procs == Seq::new(
            latest(f.ps).len(),
            |i: int| seen_of(latest(f.ps)[i]),
        ),
{
    reveal(step);
    reveal(at_throttle);
    reveal(at_spillover);
    reveal(at_list);
    reveal(at_hang);
    reveal(at_gap);
}

proof fn lemma_trimmed_read(fs: Seq<Frame>, n: int, w: Seq<(u64, u64)>, ts_ms: u64)
    requires
        all_read(fs, n, w),
    ensures
        all_read(fs, n, trimmed(w, ts_ms)),
        trimmed(w, ts_ms).len() > 0 ==> since(ts_ms, trimmed(w, ts_ms)[0].0) <= VRAM_WINDOW_MS,
        w.len() > 0 && w.last().0 == ts_ms ==> trimmed(w, ts_ms).len() > 0 && trimmed(
            w,
            ts_ms,
        ).last() == w.last(),
    decreases w.len(),
{
    if w.len() > 0 && since(ts_ms, w[0].0) > VRAM_WINDOW_MS {
        let rest = w.skip(1);
        assert forall|i: int| 0 <= i < rest.len() implies was_read(fs, n, #[trigger] rest[i]) by {
            assert(rest[i] == w[i + 1]);
        }
        assert(w.last().0 == ts_ms ==> rest.len() > 0 && rest.last() == w.last());
        lemma_trimmed_read(fs, n, rest, ts_ms);
    }
}

proof fn lemma_window_step_read(
    fs: Seq<Frame>,
    n: int,
    w: Seq<(u64, u64)>,
    ts_ms: u64,
    used: u64,
    total: u64,
)
    requires
        0 <= n,
        all_read(fs, n, w),
        fs[n].s.ts_ms == ts_ms,
        fs[n].s.mem_used_bytes == Some(used),
    ensures
        ({
            let next = window_step(w, ts_ms, used, total);
            &&& all_read(fs, n + 1, next)
            &&& next.len() > 0
            &&& next.last() == (ts_ms, used)
            &&& since(ts_ms, next[0].0) <= VRAM_WINDOW_MS
        }),
{
    let kept = if w.len() > 0 && since(w.last().1, used) > total / 20 {
        Seq::empty()
    } else {
        w
    };
    let grown = kept.push((ts_ms, used));
    assert forall|i: int| 0 <= i < grown.len() implies was_read(fs, n + 1, #[trigger] grown[i]) by {
        if i < kept.len() {
            assert(was_read(fs, n, w[i]));
            let k = choose|k: int|
                0 <= k < n && (#[trigger] fs[k]).s.ts_ms == w[i].0 && fs[k].s.mem_used_bytes
                    == Some(w[i].1);
            assert(fs[k].s.ts_ms == grown[i].0);
        } else {
            assert(fs[n].s.ts_ms == grown[i].0);
        }
    }
    lemma_trimmed_read(fs, n + 1, grown, ts_ms);
}

proof fn lemma_window_history(device: Seq<char>, name: Seq<char>, fs: Seq<Frame>, n: nat)
    ensures
        all_read(fs, n as int, after(device, name, fs, n).vram_window),
    decreases n,
{
    if n > 0 {
        let before = (n - 1) as nat;
        let m = after(device, name, fs, before);
        let f = fs[n - 1];
        lemma_window_history(device, name, fs, before);
        lemma_pressure_stage(m, device, name, f);
        lemma_early_stages(m, device, name, f);
        let w = m.vram_window;
        let next = after(device, name, fs, n).vram_window;
        if next == w {
            assert forall|i: int| 0 <= i < w.len() implies was_read(fs, n as int, #[trigger] w[i]) by {
                assert(was_read(fs, before as int, w[i]));
                let k = choose|k: int|
                    0 <= k < before && (#[trigger] fs[k]).s.ts_ms == w[i].0
                        && fs[k].s.mem_used_bytes == Some(w[i].1);
                assert(fs[k].s.ts_ms == w[i].0);
            }
        } else {
            let used = f.s.mem_used_bytes->0;
            let total = f.mem_total->0;
            lemma_window_step_read(fs, before as int, w, f.s.ts_ms, used, total);
        }
    }
}

/// The event tells of memory that is nearly full at frame `n` and has climbed since frame `k`.
pub open spec fn tells_of_pressure(
    e: EventView,
    device: Seq<char>,
    name: Seq<char>,
    fs: Seq<Frame>,
    k: int,
    n: int,
) -> bool {
    let f = fs[n];
    let span = since(f.s.ts_ms, fs[k].s.ts_ms);
    &&& 0 <= k < n
    &&& f.s.mem_used_bytes matches Some(used)
    &&& f.mem_total matches Some(total)
    &&& fs[k].s.mem_used_bytes matches Some(from)
    &&& total > 0
    &&& used * 100 >= total * VRAM_PRESSURE_PCT
    &&& VRAM_MIN_SPAN_MS <= span <= VRAM_WINDOW_MS
    &&& (used - from) * MS_PER_MIN >= VRAM_MIN_SLOPE_BYTES_PER_MIN * span
    &&& e == pressure(
        device,
        name,
        f.s.ts_ms,
        used,
        total,
        seq![(fs[k].s.ts_ms, from), (f.s.ts_ms, used)],
        Seq::new(latest(f.ps).len(), |i: int| seen_of(latest(f.ps)[i])),
    )
}

/// Pressure is told only of memory that is nearly full and that has climbed steeply enough since
/// a frame one to three minutes ago; the trend that is told is the one from that frame.
pub proof fn law_pressure_has_a_trend(
    device: Seq<char>,
    name: Seq<char>,
    fs: Seq<Frame>,
    n: nat,
    i: int,
)
    requires
        0 <= i < told(device, name, fs, n).len(),
        told(device, name, fs, n)[i].kind is VramPressure,
    ensures
        exists|k: int| #[trigger]
            tells_of_pressure(told(device, name, fs, n)[i], device, name, fs, k, n as int),
{
    let m = after(device, name, fs, n);
    let f = fs[n as int];
    let e = told(device, name, fs, n)[i];
    lemma_by_kind(m, device, name, f, i);
    lemma_early_stages(m, device, name, f);
    lemma_pressure_stage(m, device, name, f);
    lemma_window_history(device, name, fs, n);
    let used = f.s.mem_used_bytes->0;
    let total = f.mem_total->0;
    lemma_window_step_read(fs, n as int, m.vram_window, f.s.ts_ms, used, total);
    let w = window_step(m.vram_window, f.s.ts_ms, used, total);
    assert(was_read(fs, n as int + 1, w[0]));
    let k = choose|k: int|
        0 <= k < n as int + 1 && (#[trigger] fs[k]).s.ts_ms == w[0].0 && fs[k].s.mem_used_bytes
            == Some(w[0].1);
    let pair = seq![(fs[k].s.ts_ms, w[0].1), (f.s.ts_ms, used)];
    assert(pair.last() == w.last() && pair[0] == w[0]);
    assert(tells_of_pressure(e, device, name, fs, k, n as int));
}

/// The time of the last pressure that was told before frame `n`.
pub open spec fn last_pressure(
    device: Seq<char>,
    name: Seq<char>,
    fs: Seq<Frame>,
    n: nat,
) -> Option<u64>
    decreases n,
{
    if n == 0 {
        None
    } else if none_of(told(device, name, fs, (n - 1) as nat), EventKind::VramPressure) {
        last_pressure(device, name, fs, (n - 1) as nat)
    } else {
        Some(fs[n - 1].s.ts_ms)
    }
}

proof fn lemma_pressure_told(m: DevModel, device: Seq<char>, name: Seq<char>, f: Frame)
    ensures
        none_of(step(m, device, name, f).1, EventKind::VramPressure) <==> vram_pressure_step(
            at_gap(m, device, name, f),
            device,
            name,
            f.s,
            f.mem_total,
        ).1.len() == 0,
{
    let es = step(m, device, name, f).1;
    let g = vram_pressure_step(at_gap(m, device, name, f), device, name, f.s, f.mem_total).1;
    lemma_all_told(m, device, name, f);
    if g.len() > 0 {
        assert(g.contains(g[0]));
        let i = choose|i: int| 0 <= i < es.len() && es[i] == g[0];
        assert(es[i].kind is VramPressure);
    } else {
        assert forall|i: int| 0 <= i < es.len() implies (#[trigger] es[i]).kind
            != EventKind::VramPressure by {
            lemma_by_kind(m, device, name, f, i);
        }
    }
}

proof fn lemma_last_pressure(device: Seq<char>, name: Seq<char>, fs: Seq<Frame>, n: nat)
    ensures
        after(device, name, fs, n).last_pressure_evt == last_pressure(device, name, fs, n),
    decreases n,
{
    if n > 0 {
        let before = (n - 1) as nat;
        let m = after(device, name, fs, before);
        lemma_last_pressure(device, name, fs, before);
        lemma_pressure_told(m, device, name, fs[n - 1]);
        lemma_pressure_stage(m, device, name, fs[n - 1]);
        lemma_early_stages(m, device, name, fs[n - 1]);
    }
}

/// Where pressure is told, the pressure told before it is a whole cooldown ago.
pub proof fn law_pressure_keeps_its_distance(
    device: Seq<char>,
    name: Seq<char>,
    fs: Seq<Frame>,
    n: nat,
)
    requires
        !none_of(told(device, name, fs, n), EventKind::VramPressure),
    ensures
        last_pressure(device, name, fs, n) matches Some(t) ==> since(fs[n as int].s.ts_ms, t)
            >= VRAM_COOLDOWN_MS,
{
    let m = after(device, name, fs, n);
    lemma_last_pressure(device, name, fs, n);
    lemma_pressure_told(m, device, name, fs[n as int]);
    lemma_early_stages(m, device, name, fs[n as int]);
}

/// Time does not run backwards.
pub open spec fn in_time(fs: Seq<Frame>) -> bool {
    forall|i: int, j: int|
        0 <= i <= j < fs.len() ==> (#[trigger] fs[i]).s.ts_ms <= (#[trigger] fs[j]).s.ts_ms
}

/// The frame shows how much memory is in use, of how much.
pub open spec fn is_reading(f: Frame) -> bool {
    &&& f.s.mem_used_bytes is Some
    &&& f.mem_total matches Some(total) && total > 0
}

/// The reading of a frame: its time, and the memory in use.
pub open spec fn reading_of(f: Frame) -> (u64, u64) {
    (f.s.ts_ms, f.s.mem_used_bytes->0)
}

/// The readings of the first `n` frames since the last sharp drop, one of more than a twentieth of
/// the memory from a reading to the next.
pub open spec fn since_drop(fs: Seq<Frame>, n: nat) -> Seq<(u64, u64)>
    decreases n,
{
    if n == 0 {
        Seq::empty()
    } else {
        let f = fs[n - 1];
        let before = since_drop(fs, (n - 1) as nat);
        if !is_reading(f) {
            before
        } else if before.len() > 0 && since(before.last().1, f.s.mem_used_bytes->0) > f.mem_total->0
            / 20 {
            seq![reading_of(f)]
        } else {
            before.push(reading_of(f))
        }
    }
}

/// The time of the last reading of the first `n` frames.
pub open spec fn last_read(fs: Seq<Frame>, n: nat) -> Option<u64>
    decreases n,
{
    if n == 0 {
        None
    } else if is_reading(fs[n - 1]) {
        Some(fs[n - 1].s.ts_ms)
    } else {
        last_read(fs, (n - 1) as nat)
    }
}

/// The readings that the trend at frame `n` is taken of: those since the last sharp drop, without
/// the ones that are too old.
pub open spec fn trend(fs: Seq<Frame>, n: nat) -> Seq<(u64, u64)> {
    trimmed(since_drop(fs, n + 1), fs[n as int].s.ts_ms)
}

/// The readings since the last drop end with the last reading, and none is later.
proof fn lemma_since_drop(fs: Seq<Frame>, n: nat)
    requires
        in_time(fs),
        n <= fs.len(),
    ensures
        last_read(fs, n) is None <==> since_drop(fs, n).len() == 0,
        last_read(fs, n) matches Some(t) ==> since_drop(fs, n).last().0 == t && in_order(
            since_drop(fs, n),
            t,
        ) && (n > 0 ==> t <= fs[n - 1].s.ts_ms),
    decreases n,
{
    if n > 0 {
        lemma_since_drop(fs, (n - 1) as nat);
        if n > 1 {
            assert(fs[n - 2].s.ts_ms <= fs[n - 1].s.ts_ms);
        }
    }
}

/// What is too old at one time stays too old: the window can be trimmed at every reading or at the
/// last one only.
proof fn lemma_trim_twice(s: Seq<(u64, u64)>, t1: u64, r: (u64, u64), t2: u64)
    requires
        t1 <= t2,
    ensures
        trimmed(trimmed(s, t1).push(r), t2) == trimmed(s.push(r), t2),
    decreases s.len(),
{
    if s.len() > 0 && since(t1, s[0].0) > VRAM_WINDOW_MS {
        lemma_trim_twice(s.skip(1), t1, r, t2);
        assert(s.push(r)[0] == s[0]);
        assert(s.push(r).skip(1) =~= s.skip(1).push(r));
    }
}

proof fn lemma_trimmed_keeps_last(w: Seq<(u64, u64)>, t: u64)
    requires
        w.len() > 0,
        w.last().0 == t,
    ensures
        trimmed(w, t).len() > 0,
        trimmed(w, t).last() == w.last(),
    decreases w.len(),
{
    if since(t, w[0].0) > VRAM_WINDOW_MS {
        assert(w.skip(1).last() == w.last());
        lemma_trimmed_keeps_last(w.skip(1), t);
    }
}

/// What is remembered of memory is the trend of the last reading.
proof fn lemma_window_is_trend(device: Seq<char>, name: Seq<char>, fs: Seq<Frame>, n: nat)
    requires
        in_time(fs),
        n <= fs.len(),
    ensures
        after(device, name, fs, n).vram_window == (match last_read(fs, n) {
            Some(t) => trimmed(since_drop(fs, n), t),
            None => Seq::empty(),
        }),
    decreases n,
{
    if n > 0 {
        let before = (n - 1) as nat;
        let m = after(device, name, fs, before);
        let f = fs[n - 1];
        lemma_window_is_trend(device, name, fs, before);
        lemma_since_drop(fs, before);
        lemma_since_drop(fs, n);
        lemma_pressure_stage(m, device, name, f);
        lemma_early_stages(m, device, name, f);
        if is_reading(f) {
            lemma_window_at_reading(m.vram_window, fs, before);
        }
    }
}

/// The window that a reading makes is its trend.
proof fn lemma_window_at_reading(w: Seq<(u64, u64)>, fs: Seq<Frame>, n: nat)
    requires
        in_time(fs),
        n < fs.len(),
        is_reading(fs[n as int]),
        w == (match last_read(fs, n) {
            Some(t) => trimmed(since_drop(fs, n), t),
            None => Seq::empty(),
        }),
    ensures
        ({
            let f = fs[n as int];
            window_step(w, f.s.ts_ms, f.s.mem_used_bytes->0, f.mem_total->0) == trend(fs, n)
        }),
{
    let f = fs[n as int];
    let r = reading_of(f);
    let s = since_drop(fs, n);
    lemma_since_drop(fs, n);
    if let Some(t) = last_read(fs, n) {
        if n > 0 {
            assert(fs[n - 1].s.ts_ms <= f.s.ts_ms);
        }
        lemma_trimmed_keeps_last(s, t);
        if since(s.last().1, r.1) > f.mem_total->0 / 20 {
            assert(Seq::<(u64, u64)>::empty().push(r) =~= seq![r]);
        } else {
            lemma_trim_twice(s, t, r, f.s.ts_ms);
        }
    }
}

/// The trend starts with the oldest reading since the last sharp drop that is at most three minutes
/// old, has all the readings since, and ends with the reading of its frame.
pub proof fn law_a_trend_starts_with_the_oldest_reading(fs: Seq<Frame>, n: nat)
    requires
        in_time(fs),
        n < fs.len(),
        is_reading(fs[n as int]),
    ensures
        ({
            let all = since_drop(fs, n + 1);
            let w = trend(fs, n);
            let now = fs[n as int].s.ts_ms;
            let d = all.len() - w.len();
            &&& w.len() > 0
            &&& w.last() == reading_of(fs[n as int])
            &&& w == all.skip(d)
            &&& forall|i: int| 0 <= i < all.len() ==> ((#[trigger] all[i]).0 <= now && (now
                - all[i].0 <= VRAM_WINDOW_MS <==> d <= i))
        }),
{
    let all = since_drop(fs, n + 1);
    let now = fs[n as int].s.ts_ms;
    lemma_since_drop(fs, n + 1);
    lemma_trimmed_suffix(all, now);
    lemma_trimmed_keeps_last(all, now);
    assert(all.last() == reading_of(fs[n as int]));
}

proof fn lemma_trimmed_suffix(w: Seq<(u64, u64)>, t: u64)
    requires
        in_order(w, t),
    ensures
        ({
            let d = w.len() - trimmed(w, t).len();
            &&& 0 <= d
            &&& trimmed(w, t) == w.skip(d)
            &&& forall|i: int| 0 <= i < w.len() ==> (t - (#[trigger] w[i]).0 <= VRAM_WINDOW_MS <==> d
                <= i)
        }),
    decreases w.len(),
{
    if w.len() > 0 && since(t, w[0].0) > VRAM_WINDOW_MS {
        let rest = w.skip(1);
        assert forall|i: int, j: int| 0 <= i <= j < rest.len() implies (#[trigger] rest[i]).0 <= (
        #[trigger] rest[j]).0 by {
            assert(w[i + 1].0 <= w[j + 1].0);
        }
        assert forall|i: int| 0 <= i < rest.len() implies (#[trigger] rest[i]).0 <= t by {
            assert(w[i + 1].0 <= t);
        }
        lemma_trimmed_suffix(rest, t);
        let d = rest.len() - trimmed(rest, t).len();
        assert(rest.skip(d) =~= w.skip(d + 1));
        assert forall|i: int| 0 <= i < w.len() implies (t - (#[trigger] w[i]).0 <= VRAM_WINDOW_MS
            <==> d + 1 <= i) by {
            if i > 0 {
                assert(rest[i - 1] == w[i]);
            }
        }
    } else {
        assert(w.skip(0) =~= w);
        assert forall|i: int| 0 <= i < w.len() implies (t - (#[trigger] w[i]).0 <= VRAM_WINDOW_MS) by {
            assert(w[0].0 <= w[i].0);
        }
    }
}

/// Pressure is told exactly where memory is nearly full, its trend climbs long and steeply enough,
/// and the pressure told before is a whole cooldown ago; and it is told in these words.
pub proof fn law_pressure_is_told_of_its_trend(
    device: Seq<char>,
    name: Seq<char>,
    fs: Seq<Frame>,
    n: nat,
    e: EventView,
)
    requires
        in_time(fs),
        n < fs.len(),
    ensures
        ({
            let f = fs[n as int];
            let used = f.s.mem_used_bytes->0;
            let total = f.mem_total->0;
            let w = trend(fs, n);
            told(device, name, fs, n).contains(e) && e.kind is VramPressure <==> {
                &&& is_reading(f)
                &&& used * 100 >= total * VRAM_PRESSURE_PCT
                &&& climbing(w)
                &&& cooled_down(last_pressure(device, name, fs, n), f.s.ts_ms)
                &&& e == pressure(
                    device,
                    name,
                    f.s.ts_ms,
                    used,
                    total,
                    w,
                    Seq::new(latest(f.ps).len(), |i: int| seen_of(latest(f.ps)[i])),
                )
            }
        }),
{
    let m = after(device, name, fs, n);
    let f = fs[n as int];
    let es = told(device, name, fs, n);
    let g = vram_pressure_step(at_gap(m, device, name, f), device, name, f.s, f.mem_total).1;
    lemma_window_is_trend(device, name, fs, n);
    lemma_last_pressure(device, name, fs, n);
    lemma_early_stages(m, device, name, f);
    lemma_pressure_stage(m, device, name, f);
    lemma_all_told(m, device, name, f);
    if is_reading(f) {
        lemma_window_at_reading(m.vram_window, fs, n);
    }
    if es.contains(e) && e.kind is VramPressure {
        let i = choose|i: int| 0 <= i < es.len() && es[i] == e;
        lemma_by_kind(m, device, name, f, i);
    }
    assert(es.contains(e) && e.kind is VramPressure <==> g.contains(e));
    if g.len() > 0 {
        assert(g.contains(g[0]));
    }
}

/// While time does not run backwards, no pressure at all was told within the cooldown before one
/// that is told.
pub proof fn law_no_pressure_within_the_cooldown(
    device: Seq<char>,
    name: Seq<char>,
    fs: Seq<Frame>,
    k: nat,
    n: nat,
)
    requires
        in_time(fs),
        k < n < fs.len(),
        !none_of(told(device, name, fs, k), EventKind::VramPressure),
        !none_of(told(device, name, fs, n), EventKind::VramPressure),
    ensures
        fs[n as int].s.ts_ms - fs[k as int].s.ts_ms >= VRAM_COOLDOWN_MS,
{
    law_pressure_keeps_its_distance(device, name, fs, n);
    lemma_last_is_later(device, name, fs, k, n);
}

proof fn lemma_last_is_later(
    device: Seq<char>,
    name: Seq<char>,
    fs: Seq<Frame>,
    k: nat,
    n: nat,
)
    requires
        in_time(fs),
        k < n <= fs.len(),
        !none_of(told(device, name, fs, k), EventKind::VramPressure),
    ensures
        last_pressure(device, name, fs, n) matches Some(t) && t >= fs[k as int].s.ts_ms,
    decreases n,
{
    if n > k + 1 {
        lemma_last_is_later(device, name, fs, k, (n - 1) as nat);
        assert(fs[k as int].s.ts_ms <= fs[n - 1].s.ts_ms);
    }
}

/// The process has a known size, and no listed process has a larger one.
pub open spec fn is_largest(ps: Seq<ProcView>, p: ProcView) -> bool {
    &&& latest(ps).contains(p)
    &&& p.mem_bytes is Some
    &&& forall|i: int|
        0 <= i < latest(ps).len() ==> ((#[trigger] latest(ps)[i]).mem_bytes matches Some(b) ==> b
            <= p.mem_bytes->0)
}

/// Pressure names a process exactly where the size of one is known, and then one of the largest.
pub proof fn law_pressure_names_a_largest_holder(ps: Seq<ProcView>)
    ensures
        ({
            let text = grower_text(Seq::new(latest(ps).len(), |i: int| seen_of(latest(ps)[i])));
            if exists|i: int| 0 <= i < latest(ps).len() && (#[trigger] latest(ps)[i]).mem_bytes is Some {
                exists|p: ProcView| #[trigger] is_largest(ps, p) && text == " (largest holder: "@
                    + p.name + " pid "@ + dec(p.pid as nat) + ")"@
            } else {
                text == Seq::<char>::empty()
            }
        }),
{
    let l = latest(ps);
    let procs = Seq::new(l.len(), |i: int| seen_of(l[i]));
    let rule = holder_rule(0, None);
    let hs = holders(procs, 0, None);
    lemma_filter_map_source(procs, rule);
    lemma_largest(hs);
    assert forall|i: int| 0 <= i < l.len() && (#[trigger] l[i]).mem_bytes is Some implies exists|x: int|
        0 <= x < hs.len() && #[trigger] hs[x] == (HolderView {
            pid: l[i].pid,
            name: l[i].name,
            mem: l[i].mem_bytes->0,
        }) by {
        assert(procs[i] == seen_of(l[i]));
        lemma_filter_map_contains(procs, rule, i);
    }
    if let Some(h) = largest(hs) {
        let x = choose|x: int| 0 <= x < hs.len() && hs[x] == h;
        let i = choose|i: int| 0 <= i < procs.len() && rule(#[trigger] procs[i]) == Some(hs[x]);
        let p = l[i];
        assert(procs[i] == seen_of(p));
        assert(l.contains(p));
        assert forall|j: int| 0 <= j < l.len() implies ((#[trigger] l[j]).mem_bytes matches Some(b)
            ==> b <= p.mem_bytes->0) by {
            if let Some(b) = l[j].mem_bytes {
                let y = choose|y: int|
                    0 <= y < hs.len() && #[trigger] hs[y] == (HolderView {
                        pid: l[j].pid,
                        name: l[j].name,
                        mem: l[j].mem_bytes->0,
                    });
                assert(hs[y].mem <= h.mem);
            }
        }
        assert(is_largest(ps, p));
    }
}

/// A reading that lies more than a twentieth of the memory below the one before starts the trend
/// anew; any other joins those before it. A frame without a reading leaves the trend as it is.
pub proof fn law_a_sharp_drop_starts_the_trend_anew(fs: Seq<Frame>, n: nat)
    ensures
        ({
            let f = fs[n as int];
            let before = since_drop(fs, n);
            let next = since_drop(fs, n + 1);
            let used = f.s.mem_used_bytes->0;
            let total = f.mem_total->0;
            let readable = f.s.mem_used_bytes is Some && f.mem_total is Some && total > 0;
            &&& !readable ==> next == before
            &&& readable && before.len() > 0 && 20 * (before.last().1 - used) >= total + 20 ==> next
                == seq![(f.s.ts_ms, used)]
            &&& readable && (before.len() == 0 || 20 * (before.last().1 - used) <= total) ==> next
                == before.push((f.s.ts_ms, used))
        }),
{
}

} // verus!
