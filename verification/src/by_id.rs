//! Values kept by device identity, in the order in which the devices first came.

use vstd::prelude::*;
use crate::model::DeviceId;

verus! {

struct Entry<T> {
    id: DeviceId,
    value: T,
}

spec fn entry_is<T>(s: Seq<Entry<T>>, i: int, id: Seq<char>) -> bool {
    0 <= i < s.len() && s[i].id@ == id
}

/// At most one value per device.
pub struct ById<T> {
    entries: Vec<Entry<T>>,
}

impl<T> ById<T> {
    /// The devices, in the order in which they first came.
    pub closed spec fn ids(self) -> Seq<Seq<char>> {
        Seq::new(self.entries@.len(), |i: int| self.entries@[i].id@)
    }

    /// The value of device `id`.
    pub closed spec fn at(self, id: Seq<char>) -> Option<T> {
        if exists|i: int| entry_is(self.entries@, i, id) {
            Some(self.entries@[choose|i: int| entry_is(self.entries@, i, id)].value)
        } else {
            None
        }
    }

    /// No device comes twice.
    pub open spec fn wf(self) -> bool {
        self.ids().no_duplicates()
    }

    /// A device has a value exactly where it is among the devices.
    pub proof fn lemma_at(self)
        ensures
            forall|id: Seq<char>| #[trigger] self.at(id) is Some <==> self.ids().contains(id),
    {
        assert forall|id: Seq<char>| #[trigger] self.at(id) is Some <==> self.ids().contains(
            id,
        ) by {
            if self.at(id) is Some {
                let i = choose|i: int| entry_is(self.entries@, i, id);
                assert(self.ids()[i] == id);
            }
            if self.ids().contains(id) {
                let i = choose|i: int| 0 <= i < self.ids().len() && self.ids()[i] == id;
                assert(entry_is(self.entries@, i, id));
            }
        }
    }

    proof fn lemma_entry(self, i: int)
        requires
            self.wf(),
            0 <= i < self.entries@.len(),
        ensures
            self.at(self.entries@[i].id@) == Some(self.entries@[i].value),
    {
        let id = self.entries@[i].id@;
        assert(entry_is(self.entries@, i, id));
        let k = choose|k: int| entry_is(self.entries@, k, id);
        assert(self.ids()[k] == self.ids()[i]);
    }

    /// Where only the entry of `id` differs, only its value does.
    proof fn lemma_others(self, next: Self, id: Seq<char>)
        requires
            self.wf(),
            next.wf(),
            self.entries@.len() <= next.entries@.len(),
            forall|i: int|
                0 <= i < self.entries@.len() ==> (#[trigger] next.entries@[i]).id@
                    == self.entries@[i].id@ && (next.entries@[i].id@ == id
                    || next.entries@[i].value == self.entries@[i].value),
            forall|i: int|
                self.entries@.len() <= i < next.entries@.len() ==> (
                #[trigger] next.entries@[i]).id@ == id,
        ensures
            forall|d: Seq<char>| d != id ==> #[trigger] next.at(d) == self.at(d),
    {
        assert forall|d: Seq<char>| d != id implies #[trigger] next.at(d) == self.at(d) by {
            if exists|i: int| entry_is(self.entries@, i, d) {
                let i = choose|i: int| entry_is(self.entries@, i, d);
                assert(next.entries@[i].id@ == d);
                self.lemma_entry(i);
                next.lemma_entry(i);
            } else if exists|i: int| entry_is(next.entries@, i, d) {
                let i = choose|i: int| entry_is(next.entries@, i, d);
                assert(next.entries@[i].id@ == d);
                assert(entry_is(self.entries@, i, d));
            }
        }
    }

    pub fn new() -> (r: Self)
        ensures
            r.wf(),
            r.ids() == Seq::<Seq<char>>::empty(),
            forall|id: Seq<char>| #[trigger] r.at(id) is None,
    {
        let r = ById { entries: Vec::new() };
        assert(r.ids() =~= Seq::<Seq<char>>::empty());
        r
    }

    pub fn len(&self) -> (n: usize)
        ensures
            n == self.ids().len(),
    {
        self.entries.len()
    }

    /// The place of a device among the devices.
    pub fn index_of(&self, id: &DeviceId) -> (r: Option<usize>)
        ensures
            match r {
                Some(i) => i < self.ids().len() && self.ids()[i as int] == id@,
                None => !self.ids().contains(id@) && self.at(id@) is None,
            },
    {
        let mut i: usize = 0;
        while i < self.entries.len()
            invariant
                i <= self.entries.len(),
                forall|k: int| 0 <= k < i ==> (#[trigger] self.entries@[k]).id@ != id@,
            decreases self.entries.len() - i,
        {
            if self.entries[i].id.0 == id.0 {
                return Some(i);
            }
            i = i + 1;
        }
        proof {
            self.lemma_at();
        }
        None
    }

    /// The value of the device at place `i`.
    pub fn value_at(&self, i: usize) -> (r: &T)
        requires
            self.wf(),
            i < self.ids().len(),
        ensures
            self.at(self.ids()[i as int]) == Some(*r),
    {
        proof {
            self.lemma_entry(i as int);
        }
        &self.entries[i].value
    }

    /// The device at place `i`.
    pub fn id_at(&self, i: usize) -> (r: &DeviceId)
        requires
            i < self.ids().len(),
        ensures
            r@ == self.ids()[i as int],
    {
        &self.entries[i].id
    }

    pub fn get(&self, id: &DeviceId) -> (r: Option<&T>)
        requires
            self.wf(),
        ensures
            match r {
                Some(v) => self.at(id@) == Some(*v),
                None => self.at(id@) is None,
            },
    {
        match self.index_of(id) {
            Some(i) => Some(self.value_at(i)),
            None => None,
        }
    }

    /// Puts a new value at place `i` and hands out the old one.
    pub fn replace_at(&mut self, i: usize, value: T) -> (r: T)
        requires
            old(self).wf(),
            i < old(self).ids().len(),
        ensures
            final(self).wf(),
            final(self).ids() == old(self).ids(),
            old(self).at(old(self).ids()[i as int]) == Some(r),
            final(self).at(old(self).ids()[i as int]) == Some(value),
            forall|d: Seq<char>|
                d != old(self).ids()[i as int] ==> #[trigger] final(self).at(d) == old(self).at(d),
    {
        proof {
            self.lemma_entry(i as int);
        }
        let mut v = value;
        std::mem::swap(&mut v, &mut self.entries[i].value);
        proof {
            assert(self.ids() =~= old(self).ids());
            self.lemma_entry(i as int);
            old(self).lemma_others(*self, old(self).ids()[i as int]);
        }
        v
    }

    /// Sets the value of a device.
    pub fn insert(&mut self, id: DeviceId, value: T)
        requires
            old(self).wf(),
        ensures
            final(self).wf(),
            final(self).ids() == (if old(self).ids().contains(id@) {
                old(self).ids()
            } else {
                old(self).ids().push(id@)
            }),
            final(self).at(id@) == Some(value),
            forall|d: Seq<char>| d != id@ ==> #[trigger] final(self).at(d) == old(self).at(d),
    {
        match self.index_of(&id) {
            Some(i) => {
                let _ = self.replace_at(i, value);
            },
            None => {
                let ghost n = self.entries@.len() as int;
                let ghost key = id@;
                self.entries.push(Entry { id, value });
                proof {
                    assert(self.ids() =~= old(self).ids().push(key));
                    self.lemma_entry(n);
                    old(self).lemma_others(*self, key);
                }
            },
        }
    }
}

} // verus!
