//! What holds of the flight recorder's memory.

use vstd::prelude::*;
use crate::events::Event;
use crate::history::recorder::RecordModel;
use crate::history::rollup::{Tier, count, max_of, mean_of, min_of, present, throttled, throttled_hw, throttled_power, throttled_thermal};
use crate::history::rollup::law_min_mean_max;
use crate::history::{newest_events, newest_samples, ring_after, ring_step};
use crate::lists::{lemma_filter_map_contains, lemma_filter_map_source};
use crate::model::{DynamicSample, ProcView};

verus! {

/// A ring holds the last samples, oldest first: of `n` that were pushed, the last `n` or, where
/// there are more than its capacity, the last that fit. One without capacity stays empty.
pub proof fn law_ring_keeps_the_newest(ss: Seq<DynamicSample>, cap: usize)
    ensures
        ring_after(ss, cap) == newest_samples(ss, cap),
        ring_after(ss, cap).len() == (if ss.len() < cap {
            ss.len()
        } else {
            cap as nat
        }),
        cap > 0 && ss.len() > 0 ==> ring_after(ss, cap).last() == ss.last(),
    decreases ss.len(),
{
    if ss.len() > 0 {
        let t = ss.drop_last();
        law_ring_keeps_the_newest(t, cap);
        let before = newest_samples(t, cap);
        assert(t.push(ss.last()) =~= ss);
        if t.len() > cap {
            assert(before.push(ss.last()) =~= ss.skip(t.len() - cap));
            assert(before.push(ss.last()).skip(1) =~= ss.skip(ss.len() - cap));
        }
    }
}

/// A ring within its capacity stays within it, ends with the newest sample, and loses none but the
/// oldest.
pub proof fn law_ring_loses_the_oldest(samples: Seq<DynamicSample>, cap: usize, s: DynamicSample)
    requires
        samples.len() <= cap,
    ensures
        ring_step(samples, cap, s).len() <= cap,
        ring_step(samples, cap, s) == (if samples.len() < cap {
            samples.push(s)
        } else {
            samples.push(s).skip(1)
        }),
        cap == 0 ==> ring_step(samples, cap, s).len() == 0,
        cap > 0 ==> ring_step(samples, cap, s).last() == s,
{
}

/// The log never holds more than its capacity, and what it holds is the end of what was logged.
pub proof fn law_log_keeps_the_newest(es: Seq<Event>, cap: usize)
    ensures
        newest_events(es, cap).len() <= cap,
        newest_events(es, cap) == es.skip(es.len() - newest_events(es, cap).len()),
        es.len() <= cap ==> newest_events(es, cap) == es,
{
    if es.len() <= cap {
        assert(es.skip(0) =~= es);
    }
}

/// A time lies in its bucket, and buckets begin at multiples of their width: ten seconds, and one
/// minute.
pub proof fn law_bucket_covers_its_time(tier: Tier, ts_ms: u64)
    ensures
        tier is TenSec ==> tier.bucket(ts_ms) % 10_000 == 0 && 0 <= ts_ms - tier.bucket(ts_ms)
            < 10_000,
        tier is OneMin ==> tier.bucket(ts_ms) % 60_000 == 0 && 0 <= ts_ms - tier.bucket(ts_ms)
            < 60_000,
        tier.bucket(ts_ms) <= ts_ms < tier.bucket(ts_ms) + tier.width(),
        tier.bucket(ts_ms) % tier.width() == 0,
{
    let w = tier.width() as int;
    let t = ts_ms as int;
    vstd::arithmetic::div_mod::lemma_fundamental_div_mod(t, w);
    vstd::arithmetic::div_mod::lemma_mod_multiples_basic(t / w, w);
    assert(t - t % w == (t / w) * w) by (nonlinear_arith)
        requires
            t == w * (t / w) + t % w,
    ;
}

/// No frame is lost and none counts twice: a frame either joins the open bucket, or the open
/// bucket is handed out with all its frames and the frame starts the next one alone. So it is in
/// both tiers.
pub proof fn law_frames_are_conserved(m: RecordModel, s: DynamicSample, ps: Seq<ProcView>)
    ensures
        ({
            let next = m.with_frame(s, ps);
            let out = if m.crosses_10s(s.ts_ms) {
                m.frames_10s
            } else {
                Seq::empty()
            };
            out + next.frames_10s == m.frames_10s.push(s)
        }),
        ({
            let next = m.with_frame(s, ps);
            let out = if m.crosses_1m(s.ts_ms) {
                m.frames_1m
            } else {
                Seq::empty()
            };
            out + next.frames_1m == m.frames_1m.push(s)
        }),
        ({
            let next = m.with_frame(s, ps);
            let out = if m.crosses_10s(s.ts_ms) {
                m.entries
            } else {
                Seq::empty()
            };
            out + next.entries == m.entries + ps
        }),
{
    let next = m.with_frame(s, ps);
    if m.crosses_10s(s.ts_ms) {
        assert(m.frames_10s + next.frames_10s =~= m.frames_10s.push(s));
    } else {
        assert(Seq::empty() + next.frames_10s =~= m.frames_10s.push(s));
        assert(Seq::empty() + next.entries =~= m.entries + ps);
    }
    if m.crosses_1m(s.ts_ms) {
        assert(m.frames_1m + next.frames_1m =~= m.frames_1m.push(s));
    } else {
        assert(Seq::empty() + next.frames_1m =~= m.frames_1m.push(s));
    }
}

/// A frame never reopens a bucket that was handed out: where one is, the open bucket after it is
/// a later one, and otherwise it stays. So a device has at most one row per bucket.
pub proof fn law_buckets_only_advance(m: RecordModel, s: DynamicSample, ps: Seq<ProcView>)
    ensures
        m.with_frame(s, ps).bucket_10s is Some,
        m.with_frame(s, ps).bucket_1m is Some,
        m.bucket_10s matches Some(b) ==> (if m.crosses_10s(s.ts_ms) {
            m.with_frame(s, ps).bucket_10s->0 > b
        } else {
            m.with_frame(s, ps).bucket_10s->0 == b
        }),
        m.bucket_1m matches Some(b) ==> (if m.crosses_1m(s.ts_ms) {
            m.with_frame(s, ps).bucket_1m->0 > b
        } else {
            m.with_frame(s, ps).bucket_1m->0 == b
        }),
{
}

/// A metric that no frame of the bucket had is absent from the rollup, never zero; and one that
/// any frame had is present, with its smallest, mean and largest value in this order. The mean is
/// over the frames that had it.
pub proof fn law_absent_is_not_zero(
    fs: Seq<DynamicSample>,
    metric: spec_fn(DynamicSample) -> Option<int>,
)
    ensures
        (forall|i: int| 0 <= i < fs.len() ==> metric(#[trigger] fs[i]) is None) <==> mean_of(
            present(fs, metric),
        ) is None,
        mean_of(present(fs, metric)) is None <==> min_of(present(fs, metric)) is None,
        mean_of(present(fs, metric)) is None <==> max_of(present(fs, metric)) is None,
        mean_of(present(fs, metric)) matches Some(m) ==> min_of(present(fs, metric))->0 <= m
            <= max_of(present(fs, metric))->0,
{
    let vs = present(fs, metric);
    lemma_filter_map_source(fs, metric);
    if exists|i: int| 0 <= i < fs.len() && metric(#[trigger] fs[i]) is Some {
        let i = choose|i: int| 0 <= i < fs.len() && metric(#[trigger] fs[i]) is Some;
        lemma_filter_map_contains(fs, metric, i);
        assert(vs.len() > 0);
    }
    if vs.len() > 0 {
        let j = choose|j: int| 0 <= j < fs.len() && metric(#[trigger] fs[j]) == Some(vs[0]);
        assert(metric(fs[j]) is Some);
        lemma_bounded(vs);
    }
}

proof fn lemma_bounded(vs: Seq<int>)
    requires
        vs.len() > 0,
    ensures
        min_of(vs) is Some,
        max_of(vs) is Some,
        min_of(vs)->0 <= mean_of(vs)->0 <= max_of(vs)->0,
{
    let (lo, hi) = lemma_some_bounds(vs);
    law_min_mean_max(vs, lo, hi);
}

proof fn lemma_some_bounds(vs: Seq<int>) -> (r: (int, int))
    ensures
        crate::history::rollup::all_between(vs, r.0, r.1),
    decreases vs.len(),
{
    if vs.len() == 0 {
        (0, 0)
    } else {
        let t = vs.drop_last();
        let (lo, hi) = lemma_some_bounds(t);
        let l = vs.last();
        let r = (
            if l < lo {
                l
            } else {
                lo
            },
            if l > hi {
                l
            } else {
                hi
            },
        );
        assert forall|i: int| 0 <= i < vs.len() implies r.0 <= #[trigger] vs[i] <= r.1 by {
            if i < t.len() {
                assert(t[i] == vs[i]);
            }
        }
        r
    }
}

/// Each throttle reason counts no more frames than throttling does, and throttling no more than
/// there are.
pub proof fn law_throttle_counts_are_nested(fs: Seq<DynamicSample>)
    ensures
        count(fs, throttled_thermal()) <= count(fs, throttled()),
        count(fs, throttled_power()) <= count(fs, throttled()),
        count(fs, throttled_hw()) <= count(fs, throttled()),
        count(fs, throttled()) <= fs.len(),
    decreases fs.len(),
{
    if fs.len() > 0 {
        law_throttle_counts_are_nested(fs.drop_last());
    }
}

} // verus!
