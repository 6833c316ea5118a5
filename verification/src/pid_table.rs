//! Values kept by process id, in the order of the ids.

use vstd::prelude::*;

verus! {

struct Slot<T> {
    pid: u32,
    value: T,
}

spec fn slot_is<T>(s: Seq<Slot<T>>, i: int, pid: u32) -> bool {
    0 <= i < s.len() && s[i].pid == pid
}

/// At most one value per process.
pub struct PidTable<T> {
    slots: Vec<Slot<T>>,
}

/// The ids rise strictly.
pub open spec fn rising(pids: Seq<u32>) -> bool {
    forall|i: int, j: int| 0 <= i < j < pids.len() ==> (#[trigger] pids[i]) < (#[trigger] pids[j])
}

/// Rising ids are determined by which ids they are.
pub proof fn lemma_rising_determined(a: Seq<u32>, b: Seq<u32>)
    requires
        rising(a),
        rising(b),
        forall|p: u32| a.contains(p) <==> #[trigger] b.contains(p),
    ensures
        a == b,
    decreases a.len(),
{
    if a.len() == 0 {
        if b.len() > 0 {
            assert(b.contains(b[0]));
            assert(a.contains(b[0]));
        }
        assert(a =~= b);
    } else {
        let x = a.last();
        assert(a.contains(x)) by {
            assert(a[a.len() - 1] == x);
        }
        assert(b.contains(x));
        let j = choose|j: int| 0 <= j < b.len() && b[j] == x;
        let y = b.last();
        assert(b.contains(y)) by {
            assert(b[b.len() - 1] == y);
        }
        assert(a.contains(y));
        let k = choose|k: int| 0 <= k < a.len() && a[k] == y;
        assert(x == y);
        let s = a.drop_last();
        let t = b.drop_last();
        assert forall|p: u32| s.contains(p) <==> #[trigger] t.contains(p) by {
            if s.contains(p) {
                let i = choose|i: int| 0 <= i < s.len() && s[i] == p;
                assert(a[i] == p && p < x);
                assert(a.contains(p));
                assert(b.contains(p));
                let m = choose|m: int| 0 <= m < b.len() && b[m] == p;
                assert(t[m] == p);
            }
            if t.contains(p) {
                let i = choose|i: int| 0 <= i < t.len() && t[i] == p;
                assert(b[i] == p && p < x);
                assert(b.contains(p));
                assert(a.contains(p));
                let m = choose|m: int| 0 <= m < a.len() && a[m] == p;
                assert(s[m] == p);
            }
        }
        lemma_rising_determined(s, t);
        assert(a =~= s.push(x));
        assert(b =~= t.push(x));
    }
}

impl<T> PidTable<T> {
    /// The processes that have a value.
    pub closed spec fn pids(self) -> Seq<u32> {
        Seq::new(self.slots@.len(), |i: int| self.slots@[i].pid)
    }

    /// The value of process `pid`.
    pub closed spec fn at(self, pid: u32) -> Option<T> {
        if exists|i: int| slot_is(self.slots@, i, pid) {
            Some(self.slots@[choose|i: int| slot_is(self.slots@, i, pid)].value)
        } else {
            None
        }
    }

    pub open spec fn wf(self) -> bool {
        rising(self.pids())
    }

    /// A process has a value exactly where it is among the processes.
    pub proof fn lemma_at(self)
        ensures
            forall|pid: u32| #[trigger] self.at(pid) is Some <==> self.pids().contains(pid),
    {
        assert forall|pid: u32| #[trigger] self.at(pid) is Some <==> self.pids().contains(pid) by {
            if self.at(pid) is Some {
                let i = choose|i: int| slot_is(self.slots@, i, pid);
                assert(self.pids()[i] == pid);
            }
            if self.pids().contains(pid) {
                let i = choose|i: int| 0 <= i < self.pids().len() && self.pids()[i] == pid;
                assert(slot_is(self.slots@, i, pid));
            }
        }
    }

    proof fn lemma_slot(self, i: int)
        requires
            self.wf(),
            0 <= i < self.slots@.len(),
        ensures
            self.at(self.slots@[i].pid) == Some(self.slots@[i].value),
    {
        let pid = self.slots@[i].pid;
        assert(slot_is(self.slots@, i, pid));
        let k = choose|k: int| slot_is(self.slots@, k, pid);
        assert(self.pids()[k] == self.pids()[i]);
    }

    /// A process that is not at its place has no value.
    proof fn lemma_absent(self, i: int, pid: u32)
        requires
            self.wf(),
            forall|k: int| 0 <= k < i ==> (#[trigger] self.slots@[k]).pid < pid,
            0 <= i <= self.slots@.len(),
            i < self.slots@.len() ==> self.slots@[i].pid > pid,
        ensures
            self.at(pid) is None,
    {
        if exists|k: int| slot_is(self.slots@, k, pid) {
            let k = choose|k: int| slot_is(self.slots@, k, pid);
            assert(self.slots@[k].pid == pid);
            if k > i {
                assert(self.pids()[i] < self.pids()[k]);
            }
        }
    }

    pub fn new() -> (r: Self)
        ensures
            r.wf(),
            r.pids() == Seq::<u32>::empty(),
            forall|pid: u32| #[trigger] r.at(pid) is None,
    {
        let r = PidTable { slots: Vec::new() };
        assert(r.pids() =~= Seq::<u32>::empty());
        r
    }

    pub fn len(&self) -> (n: usize)
        ensures
            n == self.pids().len(),
    {
        self.slots.len()
    }

    pub fn pid_at(&self, i: usize) -> (r: u32)
        requires
            i < self.pids().len(),
        ensures
            r == self.pids()[i as int],
    {
        self.slots[i].pid
    }

    pub fn value_at(&self, i: usize) -> (r: &T)
        requires
            self.wf(),
            i < self.pids().len(),
        ensures
            self.at(self.pids()[i as int]) == Some(*r),
    {
        proof {
            self.lemma_slot(i as int);
        }
        &self.slots[i].value
    }

    /// The place of `pid`, or where it would stand.
    fn place_of(&self, pid: u32) -> (i: usize)
        requires
            self.wf(),
        ensures
            i <= self.slots@.len(),
            forall|k: int| 0 <= k < i ==> (#[trigger] self.slots@[k]).pid < pid,
            forall|k: int| i <= k < self.slots@.len() ==> (#[trigger] self.slots@[k]).pid >= pid,
    {
        let mut i: usize = 0;
        while i < self.slots.len() && self.slots[i].pid < pid
            invariant
                i <= self.slots.len(),
                forall|k: int| 0 <= k < i ==> (#[trigger] self.slots@[k]).pid < pid,
            decreases self.slots.len() - i,
        {
            i = i + 1;
        }
        assert forall|k: int| i <= k < self.slots@.len() implies (#[trigger] self.slots@[k]).pid
            >= pid by {
            assert(self.pids()[i as int] <= self.pids()[k]);
        }
        i
    }

    pub fn get(&self, pid: u32) -> (r: Option<&T>)
        requires
            self.wf(),
        ensures
            match r {
                Some(v) => self.at(pid) == Some(*v),
                None => self.at(pid) is None,
            },
    {
        let i: usize = self.place_of(pid);
        if i < self.slots.len() && self.slots[i].pid == pid {
            proof {
                self.lemma_slot(i as int);
            }
            Some(&self.slots[i].value)
        } else {
            proof {
                self.lemma_absent(i as int, pid);
            }
            None
        }
    }

    pub fn contains_key(&self, pid: u32) -> (r: bool)
        requires
            self.wf(),
        ensures
            r == (self.at(pid) is Some),
    {
        self.get(pid).is_some()
    }

    /// Sets the value of a process and hands out the one it had.
    pub fn insert(&mut self, pid: u32, value: T) -> (r: Option<T>)
        requires
            old(self).wf(),
        ensures
            final(self).wf(),
            r == old(self).at(pid),
            final(self).at(pid) == Some(value),
            forall|p: u32| p != pid ==> #[trigger] final(self).at(p) == old(self).at(p),
    {
        let i: usize = self.place_of(pid);
        if i < self.slots.len() && self.slots[i].pid == pid {
            proof {
                self.lemma_slot(i as int);
            }
            let mut v = value;
            std::mem::swap(&mut v, &mut self.slots[i].value);
            proof {
                assert(self.pids() =~= old(self).pids());
                self.lemma_slot(i as int);
                assert forall|p: u32| p != pid implies #[trigger] self.at(p) == old(self).at(p) by {
                    if exists|k: int| slot_is(old(self).slots@, k, p) {
                        let k = choose|k: int| slot_is(old(self).slots@, k, p);
                        old(self).lemma_slot(k);
                        self.lemma_slot(k);
                    } else if exists|k: int| slot_is(self.slots@, k, p) {
                        let k = choose|k: int| slot_is(self.slots@, k, p);
                        assert(slot_is(old(self).slots@, k, p));
                    }
                }
            }
            Some(v)
        } else {
            self.slots.insert(i, Slot { pid, value });
            proof {
                let before = old(self).slots@;
                let after = self.slots@;
                assert forall|a: int, b: int| 0 <= a < b < self.pids().len() implies (
                #[trigger] self.pids()[a]) < (#[trigger] self.pids()[b]) by {
                    let a0 = if a > i {
                        a - 1
                    } else {
                        a
                    };
                    let b0 = if b > i {
                        b - 1
                    } else {
                        b
                    };
                    if a != i {
                        assert(after[a] == before[a0]);
                    }
                    if b != i {
                        assert(after[b] == before[b0]);
                    }
                    if a != i && b != i {
                        assert(old(self).pids()[a0] < old(self).pids()[b0]);
                    } else if a == i {
                        assert(old(self).pids()[i as int] <= old(self).pids()[b0]);
                        assert(before[i as int].pid > pid);
                    } else {
                        assert(old(self).pids()[a0] == before[a0].pid);
                        assert(before[a0].pid < pid);
                    }
                }
                self.lemma_slot(i as int);
                assert forall|p: u32| p != pid implies #[trigger] self.at(p) == old(self).at(p) by {
                    if exists|k: int| slot_is(before, k, p) {
                        let k = choose|k: int| slot_is(before, k, p);
                        let k2 = if k < i {
                            k
                        } else {
                            k + 1
                        };
                        assert(after[k2] == before[k]);
                        old(self).lemma_slot(k);
                        self.lemma_slot(k2);
                    } else if exists|k: int| slot_is(after, k, p) {
                        let k = choose|k: int| slot_is(after, k, p);
                        let k0 = if k < i {
                            k
                        } else {
                            k - 1
                        };
                        assert(before[k0] == after[k]);
                        assert(slot_is(before, k0, p));
                    }
                }
                old(self).lemma_absent(i as int, pid);
            }
            None
        }
    }

    /// Takes a process out, with its value.
    pub fn remove(&mut self, pid: u32) -> (r: Option<T>)
        requires
            old(self).wf(),
        ensures
            final(self).wf(),
            r == old(self).at(pid),
            final(self).at(pid) is None,
            forall|p: u32| p != pid ==> #[trigger] final(self).at(p) == old(self).at(p),
    {
        let i: usize = self.place_of(pid);
        if i < self.slots.len() && self.slots[i].pid == pid {
            proof {
                self.lemma_slot(i as int);
            }
            let slot = self.slots.remove(i);
            proof {
                let before = old(self).slots@;
                let after = self.slots@;
                assert forall|a: int, b: int| 0 <= a < b < self.pids().len() implies (
                #[trigger] self.pids()[a]) < (#[trigger] self.pids()[b]) by {
                    let a0 = if a >= i {
                        a + 1
                    } else {
                        a
                    };
                    let b0 = if b >= i {
                        b + 1
                    } else {
                        b
                    };
                    assert(after[a] == before[a0] && after[b] == before[b0]);
                    assert(old(self).pids()[a0] < old(self).pids()[b0]);
                }
                assert forall|p: u32| p != pid implies #[trigger] self.at(p) == old(self).at(p) by {
                    if exists|k: int| slot_is(before, k, p) {
                        let k = choose|k: int| slot_is(before, k, p);
                        let k2 = if k < i {
                            k
                        } else {
                            k - 1
                        };
                        assert(after[k2] == before[k]);
                        old(self).lemma_slot(k);
                        self.lemma_slot(k2);
                    } else if exists|k: int| slot_is(after, k, p) {
                        let k = choose|k: int| slot_is(after, k, p);
                        let k0 = if k < i {
                            k
                        } else {
                            k + 1
                        };
                        assert(before[k0] == after[k]);
                        assert(slot_is(before, k0, p));
                    }
                }
                assert(self.at(pid) is None) by {
                    if exists|k: int| slot_is(after, k, pid) {
                        let k = choose|k: int| slot_is(after, k, pid);
                        let k0 = if k < i {
                            k
                        } else {
                            k + 1
                        };
                        assert(before[k0] == after[k]);
                        if k0 < i {
                            assert(old(self).pids()[k0] < old(self).pids()[i as int]);
                        } else {
                            assert(old(self).pids()[i as int] < old(self).pids()[k0]);
                        }
                    }
                }
            }
            Some(slot.value)
        } else {
            proof {
                self.lemma_absent(i as int, pid);
            }
            None
        }
    }

    /// Keeps the processes of `live` and drops all others.
    pub fn retain(&mut self, live: &[u32])
        requires
            old(self).wf(),
        ensures
            final(self).wf(),
            forall|p: u32| #[trigger]
                final(self).at(p) == (if live@.contains(p) {
                    old(self).at(p)
                } else {
                    None
                }),
    {
        let mut kept: PidTable<T> = PidTable::new();
        let mut i: usize = 0;
        while i < live.len()
            invariant
                i <= live.len(),
                self.wf(),
                kept.wf(),
                forall|p: u32| #[trigger]
                    kept.at(p) == (if live@.take(i as int).contains(p) {
                        old(self).at(p)
                    } else {
                        None
                    }),
                forall|p: u32| #[trigger]
                    self.at(p) == (if live@.take(i as int).contains(p) {
                        None
                    } else {
                        old(self).at(p)
                    }),
            decreases live.len() - i,
        {
            let pid: u32 = live[i];
            let ghost seen = live@.take(i as int);
            let ghost next = live@.take(i + 1);
            proof {
                assert(next =~= seen.push(pid));
                assert forall|p: u32| next.contains(p) <==> seen.contains(p) || p == pid by {
                    if seen.contains(p) {
                        let k = choose|k: int| 0 <= k < seen.len() && seen[k] == p;
                        assert(next[k] == p);
                    }
                    assert(next[i as int] == pid);
                }
            }
            match self.remove(pid) {
                Some(v) => {
                    let _ = kept.insert(pid, v);
                },
                None => {},
            }
            i = i + 1;
        }
        assert(live@.take(live@.len() as int) =~= live@);
        *self = kept;
    }
}

/// One more of the first elements.
pub proof fn lemma_take_contains(s: Seq<u32>, n: int)
    requires
        0 <= n < s.len(),
    ensures
        forall|x: u32| #[trigger]
            s.take(n + 1).contains(x) <==> s.take(n).contains(x) || x == s[n],
{
    let a = s.take(n);
    let b = s.take(n + 1);
    assert(b =~= a.push(s[n]));
    assert forall|x: u32| #[trigger] b.contains(x) <==> a.contains(x) || x == s[n] by {
        if a.contains(x) {
            let i = choose|i: int| 0 <= i < a.len() && a[i] == x;
            assert(b[i] == x);
        }
        if x == s[n] {
            assert(b[n] == x);
        }
        if b.contains(x) {
            let i = choose|i: int| 0 <= i < b.len() && b[i] == x;
            if i < n {
                assert(a[i] == x);
            }
        }
    }
}

/// Adds the processes that have a value in `other`.
pub fn add_pids<T>(t: &mut PidTable<bool>, other: &PidTable<T>)
    requires
        old(t).wf(),
        other.wf(),
    ensures
        final(t).wf(),
        forall|pid: u32| (#[trigger] final(t).at(pid)) is Some <==> old(t).at(pid) is Some
            || other.at(pid) is Some,
{
    proof {
        other.lemma_at();
    }
    let ghost pids = other.pids();
    let mut i: usize = 0;
    while i < other.len()
        invariant
            i <= pids.len(),
            pids == other.pids(),
            t.wf(),
            forall|pid: u32| (#[trigger] t.at(pid)) is Some <==> old(t).at(pid) is Some
                || pids.take(i as int).contains(pid),
        decreases pids.len() - i,
    {
        let pid: u32 = other.pid_at(i);
        let _ = t.insert(pid, true);
        proof {
            lemma_take_contains(pids, i as int);
        }
        i = i + 1;
    }
    assert(pids.take(i as int) =~= pids);
}

} // verus!
