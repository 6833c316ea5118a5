//! The flight recorder's memory: rings of recent samples, and rollups of everything before.

pub mod laws;
pub mod recorder;
pub mod rollup;
pub mod rows;
pub mod store;
pub mod summaries;
pub mod tokens;

use std::collections::VecDeque;
use vstd::prelude::*;
use crate::by_id::ById;
use crate::events::Event;
use crate::model::{DeviceId, DynamicSample};

verus! {

/// The recent samples of one device, at most `cap` of them.
pub struct DeviceHistory {
    samples: VecDeque<DynamicSample>,
    cap: usize,
}

/// The last `cap` of the samples, or all of them where there are fewer.
pub open spec fn newest_samples(samples: Seq<DynamicSample>, cap: usize) -> Seq<DynamicSample> {
    if samples.len() > cap {
        samples.skip(samples.len() - cap)
    } else {
        samples
    }
}

/// A ring of capacity `cap` after one more sample: the oldest makes room where the ring is full.
pub open spec fn ring_step(
    samples: Seq<DynamicSample>,
    cap: usize,
    s: DynamicSample,
) -> Seq<DynamicSample> {
    newest_samples(samples.push(s), cap)
}

/// A ring of capacity `cap` after all these samples, one by one.
pub open spec fn ring_after(ss: Seq<DynamicSample>, cap: usize) -> Seq<DynamicSample>
    decreases ss.len(),
{
    if ss.len() == 0 {
        Seq::empty()
    } else {
        ring_step(ring_after(ss.drop_last(), cap), cap, ss.last())
    }
}

impl DeviceHistory {
    /// The samples, oldest first.
    pub closed spec fn samples(self) -> Seq<DynamicSample> {
        self.samples@
    }

    pub closed spec fn capacity(self) -> usize {
        self.cap
    }

    pub fn new(cap: usize) -> (r: Self)
        ensures
            r.samples() == Seq::<DynamicSample>::empty(),
            r.capacity() == cap,
    {
        DeviceHistory { samples: VecDeque::with_capacity(cap), cap }
    }

    pub fn push(&mut self, s: DynamicSample)
        ensures
            final(self).samples() == ring_step(old(self).samples(), old(self).capacity(), s),
            final(self).capacity() == old(self).capacity(),
    {
        self.samples.push_back(s);
        let ghost grown = self.samples@;
        assert(grown.skip(0) =~= grown);
        while self.samples.len() > self.cap
            invariant
                self.cap == old(self).cap,
                self.samples@.len() <= grown.len(),
                self.samples@ == grown.skip(grown.len() - self.samples@.len()),
                grown.len() > self.cap ==> self.samples@.len() >= self.cap,
                grown.len() <= self.cap ==> self.samples@ == grown,
                grown == old(self).samples@.push(s),
            decreases self.samples@.len(),
        {
            let ghost before = self.samples@;
            let _ = self.samples.pop_front();
            assert(self.samples@ =~= before.skip(1));
            assert(self.samples@ =~= grown.skip(grown.len() - self.samples@.len()));
        }
    }

    /// The newest sample.
    pub fn latest(&self) -> (r: Option<&DynamicSample>)
        ensures
            match r {
                Some(s) => self.samples().len() > 0 && *s == self.samples().last(),
                None => self.samples().len() == 0,
            },
    {
        let n: usize = self.samples.len();
        if n > 0 {
            Some(&self.samples[n - 1])
        } else {
            None
        }
    }

    /// The `i`-th sample, counted from the oldest.
    pub fn get(&self, i: usize) -> (r: Option<&DynamicSample>)
        ensures
            match r {
                Some(s) => i < self.samples().len() && *s == self.samples()[i as int],
                None => i >= self.samples().len(),
            },
    {
        if i < self.samples.len() {
            Some(&self.samples[i])
        } else {
            None
        }
    }

    pub fn len(&self) -> (n: usize)
        ensures
            n == self.samples().len(),
    {
        self.samples.len()
    }

    pub fn is_empty(&self) -> (r: bool)
        ensures
            r == (self.samples().len() == 0),
    {
        self.samples.len() == 0
    }
}

/// The rings of all devices, and the log of events.
pub struct HistoryStore {
    per_device: ById<DeviceHistory>,
    events: Vec<Event>,
    sample_cap: usize,
    event_cap: usize,
}

/// The newest `cap` of the events.
pub open spec fn newest_events(es: Seq<Event>, cap: usize) -> Seq<Event> {
    if es.len() > cap {
        es.skip(es.len() - cap)
    } else {
        es
    }
}

impl HistoryStore {
    /// The samples of device `id`; `None` where it never had one.
    pub closed spec fn samples_of(self, id: Seq<char>) -> Option<Seq<DynamicSample>> {
        match self.per_device.at(id) {
            Some(h) => Some(h.samples()),
            None => None,
        }
    }

    /// The log of events, oldest first.
    pub closed spec fn log(self) -> Seq<Event> {
        self.events@
    }

    /// The capacity of each ring.
    pub closed spec fn ring_capacity(self) -> usize {
        self.sample_cap
    }

    /// The capacity of the log.
    pub closed spec fn log_capacity(self) -> usize {
        self.event_cap
    }

    /// Every ring has the common capacity.
    pub closed spec fn wf(self) -> bool {
        &&& self.per_device.wf()
        &&& forall|id: Seq<char>|
            (#[trigger] self.per_device.at(id)) matches Some(h) ==> h.capacity() == self.sample_cap
    }

    pub fn new(sample_cap: usize, event_cap: usize) -> (r: Self)
        ensures
            r.wf(),
            r.ring_capacity() == sample_cap,
            r.log_capacity() == event_cap,
            r.log() == Seq::<Event>::empty(),
            forall|id: Seq<char>| #[trigger] r.samples_of(id) is None,
    {
        HistoryStore { per_device: ById::new(), events: Vec::new(), sample_cap, event_cap }
    }

    /// Takes a sample of a device into its ring.
    pub fn push_sample(&mut self, dev: &DeviceId, s: DynamicSample)
        requires
            old(self).wf(),
        ensures
            final(self).wf(),
            final(self).samples_of(dev@) == Some(
                ring_step(
                    (match old(self).samples_of(dev@) {
                        Some(samples) => samples,
                        None => Seq::empty(),
                    }),
                    old(self).ring_capacity(),
                    s,
                ),
            ),
            forall|d: Seq<char>|
                d != dev@ ==> #[trigger] final(self).samples_of(d) == old(self).samples_of(d),
            final(self).log() == old(self).log(),
            final(self).ring_capacity() == old(self).ring_capacity(),
            final(self).log_capacity() == old(self).log_capacity(),
    {
        let mut h = match self.per_device.index_of(dev) {
            Some(i) => self.per_device.replace_at(i, DeviceHistory::new(self.sample_cap)),
            None => DeviceHistory::new(self.sample_cap),
        };
        h.push(s);
        self.per_device.insert(dev.clone(), h);
    }

    /// Appends events to the log, which keeps the newest.
    pub fn push_events(&mut self, evs: Vec<Event>)
        requires
            old(self).wf(),
        ensures
            final(self).wf(),
            final(self).log() == newest_events(old(self).log() + evs@, old(self).log_capacity()),
            forall|d: Seq<char>| #[trigger] final(self).samples_of(d) == old(self).samples_of(d),
            final(self).ring_capacity() == old(self).ring_capacity(),
            final(self).log_capacity() == old(self).log_capacity(),
    {
        let mut new = evs;
        self.events.append(&mut new);
        if self.events.len() > self.event_cap {
            let excess: usize = self.events.len() - self.event_cap;
            let ghost all = self.events@;
            let kept = self.events.split_off(excess);
            assert(kept@ =~= all.skip(excess as int));
            self.events = kept;
        }
    }

    /// The ring of a device.
    pub fn device(&self, dev: &DeviceId) -> (r: Option<&DeviceHistory>)
        requires
            self.wf(),
        ensures
            match r {
                Some(h) => self.samples_of(dev@) == Some(h.samples()) && h.capacity()
                    == self.ring_capacity(),
                None => self.samples_of(dev@) is None,
            },
    {
        self.per_device.get(dev)
    }

    pub fn events(&self) -> (r: &[Event])
        ensures
            r@ == self.log(),
    {
        self.events.as_slice()
    }
}

} // verus!
