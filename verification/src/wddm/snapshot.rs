//! Collections of the GPU counters: what is taken over from the system, and for how long it is
//! used.

use vstd::prelude::*;
use crate::lists::filter_map;
use crate::lists::lemma_filter_map_step;
use crate::wddm::pdh::{PDH_CSTATUS_NEW_DATA, PDH_CSTATUS_NO_COUNTER, PDH_CSTATUS_NO_OBJECT, PDH_OK, PDH_QUERY_PERF_DATA_TIMEOUT};
use crate::wddm::pdh::{instance_of, is_absence};
use crate::wddm::pdh::{item_value_is_trustworthy, parse_instance, status_is_normal_absence};
use crate::wddm::sums::{Reading, ReadingView};
use crate::wddm::sums::reading_views;

verus! {

/// For how long a collection serves: all who ask within a tick share one.
pub const SNAPSHOT_REUSE_MS: u64 = 250;

/// After how long the instances of a stream that has to name each are looked up anew.
pub const REEXPAND_MS: u64 = 2_000;

/// An item of a counter as the system hands it out.
pub struct RawItem {
    pub cstatus: u32,
    pub name: String,
    pub value: i64,
}

#[verifier::ext_equal]
pub struct RawView {
    pub cstatus: u32,
    pub name: Seq<char>,
    pub value: i64,
}

impl View for RawItem {
    type V = RawView;

    open spec fn view(&self) -> RawView {
        RawView { cstatus: self.cstatus, name: self.name@, value: self.value }
    }
}

pub open spec fn raw_views(v: Seq<RawItem>) -> Seq<RawView> {
    Seq::new(v.len(), |i: int| v[i]@)
}

/// The reading of an item, where its value is to be trusted and its name parses.
pub open spec fn reading_rule() -> spec_fn(RawView) -> Option<ReadingView> {
    |item: RawView|
        if item.cstatus == PDH_OK || item.cstatus == PDH_CSTATUS_NEW_DATA {
            match instance_of(item.name) {
                Some(inst) => Some(ReadingView { inst, value: item.value }),
                None => None,
            }
        } else {
            None
        }
}

/// The readings of a counter's items. An item that cannot be read is left out, and no other is.
pub fn readings_of(items: &Vec<RawItem>) -> (v: Vec<Reading>)
    ensures
        reading_views(v@) == filter_map(raw_views(items@), reading_rule()),
{
    let ghost views = raw_views(items@);
    let ghost rule = reading_rule();
    let mut v: Vec<Reading> = Vec::new();
    let mut i: usize = 0;
    assert(reading_views(v@) =~= filter_map(views.take(0), rule));
    while i < items.len()
        invariant
            i <= items.len(),
            views == raw_views(items@),
            rule == reading_rule(),
            reading_views(v@) == filter_map(views.take(i as int), rule),
        decreases items.len() - i,
    {
        let item = &items[i];
        proof {
            lemma_filter_map_step(views, rule, i as int);
            assert(views[i as int] == item@);
        }
        let ghost before = v@;
        if item_value_is_trustworthy(item.cstatus) {
            if let Some(inst) = parse_instance(item.name.as_str()) {
                let r = Reading { inst, value: item.value };
                let ghost rv = r@;
                v.push(r);
                assert(reading_views(v@) =~= reading_views(before).push(rv));
            }
        }
        i = i + 1;
    }
    assert(views.take(i as int) =~= views);
    v
}

/// One collection of the counters. Empty streams are the normal state of a machine without a GPU,
/// and of the first collection.
pub struct PdhSnapshot {
    /// When it was made: unix milliseconds.
    pub at_ms: u64,
    /// Shares of the engines, by process and engine.
    pub engine_util: Vec<Reading>,
    /// Device memory in use, by process and adapter.
    pub proc_dedicated: Vec<Reading>,
    /// System memory in use, by process and adapter. It is never added to device memory.
    pub proc_shared: Vec<Reading>,
    /// Device memory in use, by adapter.
    pub adapter_dedicated: Vec<Reading>,
    /// System memory in use, by adapter.
    pub adapter_shared: Vec<Reading>,
}

#[verifier::ext_equal]
pub struct SnapshotView {
    pub at_ms: u64,
    pub engine_util: Seq<ReadingView>,
    pub proc_dedicated: Seq<ReadingView>,
    pub proc_shared: Seq<ReadingView>,
    pub adapter_dedicated: Seq<ReadingView>,
    pub adapter_shared: Seq<ReadingView>,
}

impl View for PdhSnapshot {
    type V = SnapshotView;

    open spec fn view(&self) -> SnapshotView {
        SnapshotView {
            at_ms: self.at_ms,
            engine_util: reading_views(self.engine_util@),
            proc_dedicated: reading_views(self.proc_dedicated@),
            proc_shared: reading_views(self.proc_shared@),
            adapter_dedicated: reading_views(self.adapter_dedicated@),
            adapter_shared: reading_views(self.adapter_shared@),
        }
    }
}

/// A collection of nothing, made at a time.
pub open spec fn nothing_at(at_ms: u64) -> SnapshotView {
    SnapshotView {
        at_ms,
        engine_util: Seq::empty(),
        proc_dedicated: Seq::empty(),
        proc_shared: Seq::empty(),
        adapter_dedicated: Seq::empty(),
        adapter_shared: Seq::empty(),
    }
}

impl PdhSnapshot {
    /// A collection of nothing, made at a time.
    pub fn empty_at(at_ms: u64) -> (r: Self)
        ensures
            r@ == nothing_at(at_ms),
    {
        let r = PdhSnapshot {
            at_ms,
            engine_util: Vec::new(),
            proc_dedicated: Vec::new(),
            proc_shared: Vec::new(),
            adapter_dedicated: Vec::new(),
            adapter_shared: Vec::new(),
        };
        assert(r@ =~= nothing_at(at_ms));
        r
    }
}

impl Default for PdhSnapshot {
    fn default() -> (r: Self)
        ensures
            r@ == nothing_at(0),
    {
        PdhSnapshot::empty_at(0)
    }
}

/// The view of an optional collection.
pub open spec fn snapshot_view(s: Option<PdhSnapshot>) -> Option<SnapshotView> {
    match s {
        Some(v) => Some(v@),
        None => None,
    }
}

/// The time from `then` to `now`; none where the clock went back.
pub open spec fn elapsed(then: u64, now: u64) -> nat {
    if now >= then {
        (now - then) as nat
    } else {
        0
    }
}

fn elapsed_ms(then: u64, now: u64) -> (r: u64)
    ensures
        r == elapsed(then, now),
{
    if now >= then {
        now - then
    } else {
        0
    }
}

/// Who asks after a collection is given.
#[derive(Clone, Copy, Debug, PartialEq, Eq, Structural)]
pub enum Served {
    /// The collection that is kept.
    Kept,
    /// A collection of nothing.
    Empty,
}

/// The collection that is kept from one question to the next.
pub struct PdhCache {
    kept: Option<PdhSnapshot>,
}

impl View for PdhCache {
    type V = Option<SnapshotView>;

    closed spec fn view(&self) -> Option<SnapshotView> {
        snapshot_view(self.kept)
    }
}

/// The collection that is kept after one with `status` at `now_ms`, which read `fresh`: the fresh
/// one after a success; nothing, as of now, where nothing is there; otherwise the one before. A
/// provider that did not answer in time takes nothing away.
pub open spec fn kept_after(
    before: Option<SnapshotView>,
    now_ms: u64,
    status: u32,
    fresh: SnapshotView,
) -> Option<SnapshotView> {
    if status == PDH_OK {
        Some(SnapshotView { at_ms: now_ms, ..fresh })
    } else if status != PDH_QUERY_PERF_DATA_TIMEOUT && is_absence(status) {
        Some(nothing_at(now_ms))
    } else {
        before
    }
}

/// What is served after a collection with `status`. Something always is: what could not be
/// collected is missing from it.
pub open spec fn served_after(before: Option<SnapshotView>, status: u32) -> Served {
    if status == PDH_OK {
        Served::Kept
    } else if status == PDH_QUERY_PERF_DATA_TIMEOUT {
        match before {
            Some(_) => Served::Kept,
            None => Served::Empty,
        }
    } else if is_absence(status) {
        Served::Kept
    } else {
        Served::Empty
    }
}

/// The kept collection is young enough to serve again.
pub open spec fn still_serves(kept: Option<SnapshotView>, now_ms: u64) -> bool {
    match kept {
        Some(s) => elapsed(s.at_ms, now_ms) < SNAPSHOT_REUSE_MS,
        None => false,
    }
}

impl PdhCache {
    pub fn new() -> (r: Self)
        ensures
            r@ is None,
    {
        PdhCache { kept: None }
    }

    /// Does the kept collection still serve?
    pub fn is_fresh(&self, now_ms: u64) -> (r: bool)
        ensures
            r == still_serves(self@, now_ms),
            r == (match self@ {
                Some(s) => elapsed(s.at_ms, now_ms) < SNAPSHOT_REUSE_MS,
                None => false,
            }),
    {
        match &self.kept {
            Some(s) => elapsed_ms(s.at_ms, now_ms) < SNAPSHOT_REUSE_MS,
            None => false,
        }
    }

    /// Takes in what came of a collection.
    pub fn settle(&mut self, now_ms: u64, status: u32, fresh: PdhSnapshot) -> (r: Served)
        ensures
            final(self)@ == kept_after(old(self)@, now_ms, status, fresh@),
            r == served_after(old(self)@, status),
    {
        if status == PDH_OK {
            let mut snap = fresh;
            snap.at_ms = now_ms;
            assert(snap@ =~= SnapshotView { at_ms: now_ms, ..fresh@ });
            self.kept = Some(snap);
            return Served::Kept;
        }
        if status == PDH_QUERY_PERF_DATA_TIMEOUT {
            return if self.kept.is_some() {
                Served::Kept
            } else {
                Served::Empty
            };
        }
        if status_is_normal_absence(status) {
            self.kept = Some(PdhSnapshot::empty_at(now_ms));
            return Served::Kept;
        }
        Served::Empty
    }

    /// The kept collection.
    pub fn kept(&self) -> (r: Option<&PdhSnapshot>)
        ensures
            match r {
                Some(s) => self@ == Some(s@),
                None => self@ is None,
            },
    {
        match &self.kept {
            Some(s) => Some(s),
            None => None,
        }
    }
}

/// What is not there is no failure: where a status tells of an absence, a collection of nothing is
/// kept and served; and a collection that failed, or a provider that did not answer, takes away
/// nothing that was kept.
pub proof fn law_absence_is_no_failure(
    before: Option<SnapshotView>,
    now_ms: u64,
    status: u32,
    fresh: SnapshotView,
)
    ensures
        is_absence(status) && status != PDH_QUERY_PERF_DATA_TIMEOUT ==> {
            &&& served_after(before, status) == Served::Kept
            &&& kept_after(before, now_ms, status, fresh) == Some(nothing_at(now_ms))
        },
        status != PDH_OK && (!is_absence(status) || status == PDH_QUERY_PERF_DATA_TIMEOUT)
            ==> kept_after(before, now_ms, status, fresh) == before,
{
}

/// What is served as kept is there.
pub proof fn law_what_is_served_is_kept(
    before: Option<SnapshotView>,
    now_ms: u64,
    status: u32,
    fresh: SnapshotView,
)
    ensures
        served_after(before, status) == Served::Kept ==> kept_after(
            before,
            now_ms,
            status,
            fresh,
        ) is Some,
{
}

/// How a stream of counters is followed.
#[derive(Clone, Copy, Debug, PartialEq, Eq, Structural)]
pub enum StreamPlan {
    /// By one path for all instances: new ones come by themselves.
    Wildcard,
    /// Not at all: there are no such counters.
    Absent,
    /// By a path for each instance, to be looked up from time to time.
    Expand,
}

/// The plan after the status of adding the one path for all instances.
pub open spec fn plan_after(status: u32) -> StreamPlan {
    if status == PDH_OK {
        StreamPlan::Wildcard
    } else if status == PDH_CSTATUS_NO_OBJECT || status == PDH_CSTATUS_NO_COUNTER {
        StreamPlan::Absent
    } else {
        StreamPlan::Expand
    }
}

pub fn plan_stream(status: u32) -> (r: StreamPlan)
    ensures
        r == plan_after(status),
{
    if status == PDH_OK {
        StreamPlan::Wildcard
    } else if status == PDH_CSTATUS_NO_OBJECT || status == PDH_CSTATUS_NO_COUNTER {
        StreamPlan::Absent
    } else {
        StreamPlan::Expand
    }
}

/// The plan once the instances of a stream were looked up and `n` of them could be added: without
/// any the stream is not read at all.
pub fn plan_expanded(n: usize) -> (r: StreamPlan)
    ensures
        r == (if n == 0 {
            StreamPlan::Absent
        } else {
            StreamPlan::Expand
        }),
{
    if n == 0 {
        StreamPlan::Absent
    } else {
        StreamPlan::Expand
    }
}

/// The last lookup is long enough ago.
pub open spec fn lookup_due(last_expand_ms: u64, now_ms: u64) -> bool {
    elapsed(last_expand_ms, now_ms) >= REEXPAND_MS
}

/// Are the instances of a stream to be looked up anew?
pub fn is_expansion_due(last_expand_ms: u64, now_ms: u64) -> (r: bool)
    ensures
        r == lookup_due(last_expand_ms, now_ms),
        r == (elapsed(last_expand_ms, now_ms) >= REEXPAND_MS),
{
    elapsed_ms(last_expand_ms, now_ms) >= REEXPAND_MS
}

/// A collection serves every question of the quarter of a second after it was made, and none later;
/// a clock that went back makes it no older.
pub proof fn law_a_collection_serves_for_a_quarter_second(
    kept: Option<SnapshotView>,
    now_ms: u64,
)
    ensures
        still_serves(kept, now_ms) <==> kept is Some && now_ms - kept->0.at_ms < 250,
{
}

/// Every reading that succeeded, and whose name reads, is kept with its value, and no other, in
/// their order.
pub proof fn law_readings_that_succeeded_are_kept(item: RawView)
    ensures
        reading_rule()(item) is Some <==> (item.cstatus == 0 || item.cstatus == 1) && instance_of(
            item.name,
        ) is Some,
        reading_rule()(item) matches Some(r) ==> r.value == item.value && Some(r.inst)
            == instance_of(item.name),
{
}

/// Instances are looked up anew every two seconds, and not because a clock went back.
pub proof fn law_instances_are_looked_up_every_two_seconds(last_expand_ms: u64, now_ms: u64)
    ensures
        lookup_due(last_expand_ms, now_ms) <==> now_ms - last_expand_ms >= 2_000,
{
}

/// A stream is read through the one path for all instances where that could be added, is absent
/// where the system has no such object or counter, and is looked up instance by instance else.
pub proof fn law_a_stream_is_absent_where_its_counter_is(status: u32)
    ensures
        plan_after(status) is Wildcard <==> status == 0,
        plan_after(status) is Absent <==> status == 0xc000_0bb8 || status == 0xc000_0bb9,
{
}

/// A collection that succeeded is kept as it was read, and is of the time it was made at; one of
/// what is not there has no readings.
pub proof fn law_a_collection_is_of_its_time(
    before: Option<SnapshotView>,
    now_ms: u64,
    status: u32,
    fresh: SnapshotView,
)
    ensures
        status == 0 ==> {
            let kept = kept_after(before, now_ms, status, fresh);
            &&& kept is Some && kept->0.at_ms == now_ms
            &&& kept->0.engine_util == fresh.engine_util
            &&& kept->0.proc_dedicated == fresh.proc_dedicated
            &&& kept->0.proc_shared == fresh.proc_shared
            &&& kept->0.adapter_dedicated == fresh.adapter_dedicated
            &&& kept->0.adapter_shared == fresh.adapter_shared
        },
        status == 0 ==> served_after(before, status) == Served::Kept,
        nothing_at(now_ms).at_ms == now_ms && nothing_at(now_ms).engine_util.len() == 0,
        nothing_at(now_ms).proc_dedicated.len() == 0 && nothing_at(now_ms).proc_shared.len() == 0,
        nothing_at(now_ms).adapter_dedicated.len() == 0 && nothing_at(now_ms).adapter_shared.len()
            == 0,
{
}

} // verus!
