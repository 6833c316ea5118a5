//! What the rows of a device say of all its frames.

use vstd::prelude::*;
use crate::history::recorder::{RecordModel, process_rollups};
use crate::history::rollup::{SampleRollupView, Tier, sample_rollup};
use crate::model::{DynamicSample, ProcView};

verus! {

/// A frame as it is recorded: a sample and the list of processes.
pub struct Recorded {
    pub s: DynamicSample,
    pub ps: Seq<ProcView>,
}

/// Time does not run backwards.
pub open spec fn in_order(fs: Seq<Recorded>) -> bool {
    forall|i: int, j: int|
        0 <= i <= j < fs.len() ==> (#[trigger] fs[i]).s.ts_ms <= (#[trigger] fs[j]).s.ts_ms
}

/// The open buckets after the first `n` frames.
pub open spec fn recorded(fs: Seq<Recorded>, n: nat) -> RecordModel
    decreases n,
{
    if n == 0 {
        RecordModel::fresh()
    } else {
        recorded(fs, (n - 1) as nat).with_frame(fs[n - 1].s, fs[n - 1].ps)
    }
}

/// The open bucket of a tier.
pub open spec fn open_bucket(m: RecordModel, tier: Tier) -> Option<u64> {
    match tier {
        Tier::TenSec => m.bucket_10s,
        Tier::OneMin => m.bucket_1m,
    }
}

/// The frames in it.
pub open spec fn open_frames(m: RecordModel, tier: Tier) -> Seq<DynamicSample> {
    match tier {
        Tier::TenSec => m.frames_10s,
        Tier::OneMin => m.frames_1m,
    }
}

/// The rollup of it.
pub open spec fn open_row(
    m: RecordModel,
    tier: Tier,
    device: Seq<char>,
) -> Option<SampleRollupView> {
    match tier {
        Tier::TenSec => m.row_10s(device),
        Tier::OneMin => m.row_1m(device),
    }
}

/// Frame `n` completes the open bucket of a tier, so that its rollup is handed out.
pub open spec fn completes(fs: Seq<Recorded>, n: nat, tier: Tier) -> bool {
    match tier {
        Tier::TenSec => recorded(fs, n).crosses_10s(fs[n as int].s.ts_ms),
        Tier::OneMin => recorded(fs, n).crosses_1m(fs[n as int].s.ts_ms),
    }
}

/// The bucket of frame `i`.
pub open spec fn bucket_of(fs: Seq<Recorded>, i: int, tier: Tier) -> u64 {
    tier.bucket(fs[i].s.ts_ms)
}

/// The frames of a bucket, in their order.
pub open spec fn frames_in(fs: Seq<Recorded>, tier: Tier, b: u64) -> Seq<DynamicSample>
    decreases fs.len(),
{
    if fs.len() == 0 {
        Seq::empty()
    } else {
        let before = frames_in(fs.drop_last(), tier, b);
        if tier.bucket(fs.last().s.ts_ms) == b {
            before.push(fs.last().s)
        } else {
            before
        }
    }
}

/// The process entries of the frames of a bucket, in their order.
pub open spec fn entries_in(fs: Seq<Recorded>, b: u64) -> Seq<ProcView>
    decreases fs.len(),
{
    if fs.len() == 0 {
        Seq::empty()
    } else {
        let before = entries_in(fs.drop_last(), b);
        if Tier::TenSec.bucket(fs.last().s.ts_ms) == b {
            before + fs.last().ps
        } else {
            before
        }
    }
}

proof fn lemma_buckets_rise(tier: Tier, t: u64, u: u64)
    requires
        t <= u,
    ensures
        tier.bucket(t) <= tier.bucket(u),
{
    assert(t - t % 10_000 <= u - u % 10_000);
    assert(t - t % 60_000 <= u - u % 60_000);
}

/// A later bucket has no frame among earlier ones.
proof fn lemma_none_before(fs: Seq<Recorded>, tier: Tier, b: u64)
    requires
        forall|i: int| 0 <= i < fs.len() ==> tier.bucket((#[trigger] fs[i]).s.ts_ms) < b,
    ensures
        frames_in(fs, tier, b) == Seq::<DynamicSample>::empty(),
        tier is TenSec ==> entries_in(fs, b) == Seq::<ProcView>::empty(),
    decreases fs.len(),
{
    if fs.len() > 0 {
        let t = fs.drop_last();
        assert forall|i: int| 0 <= i < t.len() implies tier.bucket((#[trigger] t[i]).s.ts_ms)
            < b by {
            assert(t[i] == fs[i]);
        }
        assert(fs[fs.len() - 1] == fs.last());
        lemma_none_before(t, tier, b);
    }
}

/// Frames of later buckets add nothing to an earlier one.
proof fn lemma_none_after(fs: Seq<Recorded>, n: nat, tier: Tier, b: u64)
    requires
        n <= fs.len(),
        forall|i: int| n <= i < fs.len() ==> tier.bucket((#[trigger] fs[i]).s.ts_ms) > b,
    ensures
        frames_in(fs, tier, b) == frames_in(fs.take(n as int), tier, b),
        tier is TenSec ==> entries_in(fs, b) == entries_in(fs.take(n as int), b),
    decreases fs.len(),
{
    if n < fs.len() {
        let t = fs.drop_last();
        assert forall|i: int| n <= i < t.len() implies tier.bucket((#[trigger] t[i]).s.ts_ms) > b by {
            assert(t[i] == fs[i]);
        }
        assert(fs[fs.len() - 1] == fs.last());
        lemma_none_after(t, n, tier, b);
        assert(t.take(n as int) =~= fs.take(n as int));
    } else {
        assert(fs.take(n as int) =~= fs);
    }
}

/// The open bucket is that of the last frame, and holds exactly its frames.
proof fn lemma_open_bucket(fs: Seq<Recorded>, n: nat, tier: Tier)
    requires
        in_order(fs),
        0 < n <= fs.len(),
    ensures
        ({
            let m = recorded(fs, n);
            let b = bucket_of(fs, n - 1, tier);
            &&& open_bucket(m, tier) == Some(b)
            &&& open_frames(m, tier) == frames_in(fs.take(n as int), tier, b)
            &&& tier is TenSec ==> m.entries == entries_in(fs.take(n as int), b)
        }),
    decreases n,
{
    let before = (n - 1) as nat;
    let now = fs.take(n as int);
    let earlier = fs.take(n - 1);
    let b = bucket_of(fs, n - 1, tier);
    assert(now.drop_last() =~= earlier);
    assert(now.last() == fs[n - 1]);
    if before == 0 {
        assert(earlier =~= Seq::empty());
        assert(recorded(fs, 0) == RecordModel::fresh());
        assert(frames_in(earlier, tier, b) =~= Seq::empty());
        assert(entries_in(earlier, b) =~= Seq::empty());
        assert(tier is TenSec ==> entries_in(now, b) =~= fs[n - 1].ps);
        assert(RecordModel::fresh().entries + fs[0].ps =~= fs[0].ps);
        assert(frames_in(now, tier, b) =~= seq![fs[n - 1].s]);
        assert(RecordModel::fresh().frames_10s.push(fs[0].s) =~= seq![fs[0].s]);
        assert(RecordModel::fresh().frames_1m.push(fs[0].s) =~= seq![fs[0].s]);
    } else {
        lemma_open_bucket(fs, before, tier);
        let c = bucket_of(fs, n - 2, tier);
        lemma_buckets_rise(tier, fs[n - 2].s.ts_ms, fs[n - 1].s.ts_ms);
        if b > c {
            assert forall|i: int| 0 <= i < earlier.len() implies tier.bucket((#[trigger] earlier[i]).s.ts_ms)
                < b by {
                assert(earlier[i] == fs[i]);
                lemma_buckets_rise(tier, fs[i].s.ts_ms, fs[n - 2].s.ts_ms);
            }
            lemma_none_before(earlier, tier, b);
            assert(frames_in(now, tier, b) =~= seq![fs[n - 1].s]);
            assert(tier is TenSec ==> entries_in(now, b) =~= fs[n - 1].ps);
        }
    }
}

/// While time does not run backwards, the row that a frame completes is that of the bucket of the
/// frame before, and holds exactly the frames of this bucket, all of them and no others, in both
/// tiers; and the process rows are made of exactly the entries of these frames.
pub proof fn law_a_row_holds_its_bucket(
    fs: Seq<Recorded>,
    n: nat,
    tier: Tier,
    device: Seq<char>,
)
    requires
        in_order(fs),
        n < fs.len(),
        completes(fs, n, tier),
    ensures
        ({
            let b = bucket_of(fs, n - 1, tier);
            let m = recorded(fs, n);
            &&& n > 0
            &&& open_row(m, tier, device) == Some(
                sample_rollup(device, b, frames_in(fs, tier, b)),
            )
            &&& tier is TenSec ==> m.process_rows(device) == process_rollups(
                device,
                b,
                entries_in(fs, b),
            )
        }),
{
    let b = bucket_of(fs, n - 1, tier);
    lemma_open_bucket(fs, n, tier);
    assert forall|i: int| n <= i < fs.len() implies tier.bucket((#[trigger] fs[i]).s.ts_ms) > b by {
        lemma_buckets_rise(tier, fs[n as int].s.ts_ms, fs[i].s.ts_ms);
    }
    lemma_none_after(fs, n, tier, b);
}

/// The row that is open after the last frame is that of its bucket, and holds exactly the frames
/// of it.
pub proof fn law_the_last_row_holds_its_bucket(fs: Seq<Recorded>, tier: Tier, device: Seq<char>)
    requires
        in_order(fs),
        fs.len() > 0,
    ensures
        ({
            let b = bucket_of(fs, fs.len() - 1, tier);
            let m = recorded(fs, fs.len());
            &&& open_row(m, tier, device) == Some(
                sample_rollup(device, b, frames_in(fs, tier, b)),
            )
            &&& tier is TenSec ==> m.process_rows(device) == process_rollups(
                device,
                b,
                entries_in(fs, b),
            )
        }),
{
    lemma_open_bucket(fs, fs.len(), tier);
    assert(fs.take(fs.len() as int) =~= fs);
}

/// A bucket has one row: two frames that complete buckets complete different ones, the later the
/// later one, and the bucket that is open at the end was not completed before.
pub proof fn law_a_bucket_has_one_row(fs: Seq<Recorded>, i: nat, j: nat, tier: Tier)
    requires
        in_order(fs),
        i < j <= fs.len(),
        completes(fs, i, tier),
    ensures
        i > 0,
        bucket_of(fs, i - 1, tier) < bucket_of(fs, j - 1, tier),
        open_bucket(recorded(fs, i), tier) == Some(bucket_of(fs, i - 1, tier)),
        open_bucket(recorded(fs, j), tier) == Some(bucket_of(fs, j - 1, tier)),
{
    if i > 0 {
        lemma_open_bucket(fs, i, tier);
    }
    lemma_open_bucket(fs, j, tier);
    lemma_buckets_rise(tier, fs[i as int].s.ts_ms, fs[j - 1].s.ts_ms);
}

/// Every frame is in a row: its bucket is completed by a later frame, or is the one that is open
/// at the end.
pub proof fn law_every_frame_is_in_a_row(fs: Seq<Recorded>, i: nat, tier: Tier)
    requires
        in_order(fs),
        i < fs.len(),
    ensures
        bucket_of(fs, fs.len() - 1, tier) == bucket_of(fs, i as int, tier) || exists|n: nat|
            i < n < fs.len() && #[trigger] completes(fs, n, tier) && bucket_of(fs, n - 1, tier)
                == bucket_of(fs, i as int, tier),
{
    lemma_completed_by(fs, i, fs.len(), tier);
}

proof fn lemma_completed_by(fs: Seq<Recorded>, i: nat, m: nat, tier: Tier)
    requires
        in_order(fs),
        i < m <= fs.len(),
    ensures
        bucket_of(fs, m - 1, tier) == bucket_of(fs, i as int, tier) || exists|n: nat|
            i < n < m && #[trigger] completes(fs, n, tier) && bucket_of(fs, n - 1, tier)
                == bucket_of(fs, i as int, tier),
    decreases m,
{
    if m > i + 1 {
        let before = (m - 1) as nat;
        lemma_completed_by(fs, i, before, tier);
        lemma_buckets_rise(tier, fs[m - 2].s.ts_ms, fs[m - 1].s.ts_ms);
        if bucket_of(fs, m - 2, tier) == bucket_of(fs, i as int, tier) {
            lemma_open_bucket(fs, before, tier);
            if bucket_of(fs, m - 1, tier) != bucket_of(fs, i as int, tier) {
                assert(completes(fs, before, tier));
            }
        } else {
            let n = choose|n: nat|
                i < n < before && #[trigger] completes(fs, n, tier) && bucket_of(fs, n - 1, tier)
                    == bucket_of(fs, i as int, tier);
            assert(completes(fs, n, tier));
        }
    }
}

} // verus!
