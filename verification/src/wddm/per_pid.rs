//! What the readings of the GPU counters add up to, for each process on one adapter.

use vstd::prelude::*;
use crate::pid_table::PidTable;
use crate::scan::same_but_case;
use crate::scan::eq_ignore_ascii_case;
use crate::text::ascii_lower;
use crate::text::chars_of;
use crate::wddm::sums::{Luid, Reading, ReadingView};
use crate::wddm::sums::{engtype_of, reading_is_of};
use crate::wddm::sums::reading_views;

verus! {

/// The utilization of a process on an adapter.
#[derive(Debug, PartialEq)]
pub struct PidUtil {
    /// The largest share among its engines, in thousandths of a percent.
    pub pct: i64,
    /// The type of the engine with that share.
    pub busiest_engtype: String,
    /// One of its engines has the name of a compute engine. (A guess: the counters do not tell
    /// compute from graphics.)
    pub compute_hint: bool,
}

#[verifier::ext_equal]
pub struct PidUtilView {
    pub pct: i64,
    pub busiest_engtype: Seq<char>,
    pub compute_hint: bool,
}

impl View for PidUtil {
    type V = PidUtilView;

    open spec fn view(&self) -> PidUtilView {
        PidUtilView {
            pct: self.pct,
            busiest_engtype: self.busiest_engtype@,
            compute_hint: self.compute_hint,
        }
    }
}

/// The view of an optional utilization.
pub open spec fn util_view(u: Option<PidUtil>) -> Option<PidUtilView> {
    match u {
        Some(v) => Some(v@),
        None => None,
    }
}

/// The name of a compute engine.
pub open spec fn names_compute(engtype: Seq<char>) -> bool {
    same_but_case(engtype, "compute"@) || same_but_case(engtype, "cuda"@)
}

fn is_compute_name(engtype: &str) -> (r: bool)
    ensures
        r == names_compute(engtype@),
{
    let t: Vec<char> = chars_of(engtype);
    let compute: Vec<char> = chars_of("compute");
    let cuda: Vec<char> = chars_of("cuda");
    eq_ignore_ascii_case(t.as_slice(), compute.as_slice()) || eq_ignore_ascii_case(
        t.as_slice(),
        cuda.as_slice(),
    )
}

/// A utilization with one more reading: the larger share stays, of equal ones the earlier.
pub open spec fn with_reading(u: Option<PidUtilView>, r: ReadingView) -> PidUtilView {
    match u {
        Some(v) => PidUtilView {
            pct: if r.value > v.pct {
                r.value
            } else {
                v.pct
            },
            busiest_engtype: if r.value > v.pct {
                r.engtype()
            } else {
                v.busiest_engtype
            },
            compute_hint: v.compute_hint || names_compute(r.engtype()),
        },
        None => PidUtilView {
            pct: r.value,
            busiest_engtype: r.engtype(),
            compute_hint: names_compute(r.engtype()),
        },
    }
}

/// The utilization of a process; `None` where no reading is of it.
pub open spec fn util_of(rs: Seq<ReadingView>, luid: Luid, pid: u32) -> Option<PidUtilView>
    decreases rs.len(),
{
    if rs.len() == 0 {
        None
    } else if rs.last().is_of_pid(luid, pid) {
        Some(with_reading(util_of(rs.drop_last(), luid, pid), rs.last()))
    } else {
        util_of(rs.drop_last(), luid, pid)
    }
}

/// The utilization of each process on an adapter.
pub fn per_pid_util(rs: &Vec<Reading>, luid: Luid) -> (t: PidTable<PidUtil>)
    ensures
        t.wf(),
        forall|pid: u32|
            util_view(#[trigger] t.at(pid)) == util_of(reading_views(rs@), luid, pid),
{
    let ghost views = reading_views(rs@);
    let mut t: PidTable<PidUtil> = PidTable::new();
    let mut n: usize = 0;
    while n < rs.len()
        invariant
            n <= rs.len(),
            views == reading_views(rs@),
            t.wf(),
            forall|pid: u32|
                util_view(#[trigger] t.at(pid)) == util_of(views.take(n as int), luid, pid),
        decreases rs.len() - n,
    {
        let r = &rs[n];
        proof {
            assert(views.take(n + 1).drop_last() =~= views.take(n as int));
            assert(views.take(n + 1).last() == r@);
        }
        if reading_is_of(r, luid) {
            if let Some(pid) = r.inst.pid {
                let engtype: String = engtype_of(r);
                let compute: bool = is_compute_name(engtype.as_str());
                let next = match t.remove(pid) {
                    Some(u) => PidUtil {
                        pct: if r.value > u.pct {
                            r.value
                        } else {
                            u.pct
                        },
                        busiest_engtype: if r.value > u.pct {
                            engtype
                        } else {
                            u.busiest_engtype
                        },
                        compute_hint: u.compute_hint || compute,
                    },
                    None => PidUtil {
                        pct: r.value,
                        busiest_engtype: engtype,
                        compute_hint: compute,
                    },
                };
                let _ = t.insert(pid, next);
            }
        }
        n = n + 1;
    }
    assert(views.take(n as int) =~= views);
    t
}

/// The process's reading at place `i` is the first of its largest.
pub open spec fn is_first_largest(rs: Seq<ReadingView>, luid: Luid, pid: u32, i: int) -> bool {
    &&& 0 <= i < rs.len() && rs[i].is_of_pid(luid, pid)
    &&& forall|j: int|
        0 <= j < rs.len() && (#[trigger] rs[j]).is_of_pid(luid, pid) ==> rs[j].value <= rs[i].value
            && (j < i ==> rs[j].value < rs[i].value)
}

/// Some reading of the process is of a compute engine.
pub open spec fn has_compute(rs: Seq<ReadingView>, luid: Luid, pid: u32) -> bool {
    exists|i: int|
        0 <= i < rs.len() && (#[trigger] rs[i]).is_of_pid(luid, pid) && names_compute(
            rs[i].engtype(),
        )
}

/// The utilization of a process is the largest of its readings, under the name of that reading's
/// engine; a process has one exactly where it has a reading.
pub proof fn law_utilization_is_that_of_the_busiest_engine(
    rs: Seq<ReadingView>,
    luid: Luid,
    pid: u32,
)
    ensures
        match util_of(rs, luid, pid) {
            Some(u) => {
                &&& exists|i: int| #[trigger]
                    is_first_largest(rs, luid, pid, i) && u.pct == rs[i].value && u.busiest_engtype
                        == rs[i].engtype()
                &&& u.compute_hint == has_compute(rs, luid, pid)
            },
            None => forall|i: int|
                0 <= i < rs.len() ==> !(#[trigger] rs[i]).is_of_pid(luid, pid),
        },
    decreases rs.len(),
{
    if rs.len() > 0 {
        let t = rs.drop_last();
        let n = rs.len() - 1;
        law_utilization_is_that_of_the_busiest_engine(t, luid, pid);
        assert(rs[n] == rs.last());
        assert(has_compute(rs, luid, pid) == (has_compute(t, luid, pid) || (rs[n].is_of_pid(
            luid,
            pid,
        ) && names_compute(rs[n].engtype())))) by {
            if has_compute(t, luid, pid) {
                let i = choose|i: int|
                    0 <= i < t.len() && (#[trigger] t[i]).is_of_pid(luid, pid) && names_compute(
                        t[i].engtype(),
                    );
                assert(rs[i] == t[i]);
            }
            if has_compute(rs, luid, pid) {
                let i = choose|i: int|
                    0 <= i < rs.len() && (#[trigger] rs[i]).is_of_pid(luid, pid) && names_compute(
                        rs[i].engtype(),
                    );
                if i < n {
                    assert(t[i] == rs[i]);
                }
            }
        }
        match util_of(t, luid, pid) {
            Some(u) => {
                let i = choose|i: int| #[trigger]
                    is_first_largest(t, luid, pid, i) && u.pct == t[i].value && u.busiest_engtype
                        == t[i].engtype();
                let best = if rs[n].is_of_pid(luid, pid) && rs[n].value > u.pct {
                    n
                } else {
                    i
                };
                assert(rs[i] == t[i]);
                assert forall|j: int|
                    0 <= j < rs.len() && (#[trigger] rs[j]).is_of_pid(
                        luid,
                        pid,
                    ) implies rs[j].value <= rs[best].value && (j < best ==> rs[j].value
                    < rs[best].value) by {
                    if j < n {
                        assert(t[j] == rs[j]);
                    }
                }
                assert(is_first_largest(rs, luid, pid, best));
            },
            None => {
                assert forall|j: int| 0 <= j < n implies !(#[trigger] rs[j]).is_of_pid(
                    luid,
                    pid,
                ) by {
                    assert(t[j] == rs[j]);
                }
                if rs[n].is_of_pid(luid, pid) {
                    assert(is_first_largest(rs, luid, pid, n));
                    assert(!has_compute(t, luid, pid));
                }
            },
        }
    }
}

/// The bytes of a process on an adapter; `None` where no reading is of it.
pub open spec fn bytes_of(rs: Seq<ReadingView>, luid: Luid, pid: u32) -> Option<nat>
    decreases rs.len(),
{
    if rs.len() == 0 {
        None
    } else {
        let rest = bytes_of(rs.drop_last(), luid, pid);
        if rs.last().is_of_pid(luid, pid) {
            Some(sum_with(rest, rs.last().bytes()))
        } else {
            rest
        }
    }
}

/// A sum, or none yet, and one more number.
pub open spec fn sum_with(sum: Option<nat>, n: nat) -> nat {
    match sum {
        Some(s) => s + n,
        None => n,
    }
}

/// The bytes of an adapter; `None` where no reading is of it, which is not to say that it uses
/// none.
pub open spec fn total_of(rs: Seq<ReadingView>, luid: Luid) -> Option<nat>
    decreases rs.len(),
{
    if rs.len() == 0 {
        None
    } else {
        let rest = total_of(rs.drop_last(), luid);
        if rs.last().is_of(luid) {
            Some(sum_with(rest, rs.last().bytes()))
        } else {
            rest
        }
    }
}

/// The sum is a size that can be told.
pub open spec fn fits(sum: Option<nat>) -> bool {
    match sum {
        Some(n) => n <= u64::MAX,
        None => true,
    }
}

/// Every process's bytes are a size that can be told.
pub open spec fn pid_sums_fit(rs: Seq<ReadingView>, luid: Luid) -> bool {
    forall|pid: u32| fits(#[trigger] bytes_of(rs, luid, pid))
}

/// The number in an optional sum.
pub open spec fn size_of(sum: Option<nat>) -> Option<u64> {
    match sum {
        Some(n) => Some(n as u64),
        None => None,
    }
}

proof fn lemma_prefix_fits(rs: Seq<ReadingView>, luid: Luid, pid: u32, n: int)
    requires
        0 <= n <= rs.len(),
    ensures
        fits(bytes_of(rs, luid, pid)) ==> fits(bytes_of(rs.take(n), luid, pid)),
        fits(total_of(rs, luid)) ==> fits(total_of(rs.take(n), luid)),
    decreases rs.len(),
{
    if n < rs.len() {
        lemma_prefix_fits(rs.drop_last(), luid, pid, n);
        assert(rs.drop_last().take(n) =~= rs.take(n));
    } else {
        assert(rs.take(n) =~= rs);
    }
}

fn bytes_in(r: &Reading) -> (b: u64)
    ensures
        b == r@.bytes(),
{
    if r.value > 0 {
        r.value as u64
    } else {
        0
    }
}

/// The bytes of each process on an adapter.
pub fn per_pid_bytes(rs: &Vec<Reading>, luid: Luid) -> (t: PidTable<u64>)
    requires
        pid_sums_fit(reading_views(rs@), luid),
    ensures
        t.wf(),
        forall|pid: u32| #[trigger]
            t.at(pid) == size_of(bytes_of(reading_views(rs@), luid, pid)),
{
    let ghost views = reading_views(rs@);
    let mut t: PidTable<u64> = PidTable::new();
    let mut n: usize = 0;
    while n < rs.len()
        invariant
            n <= rs.len(),
            views == reading_views(rs@),
            pid_sums_fit(views, luid),
            t.wf(),
            forall|pid: u32| #[trigger]
                t.at(pid) == size_of(bytes_of(views.take(n as int), luid, pid)),
        decreases rs.len() - n,
    {
        let r = &rs[n];
        proof {
            assert(views.take(n + 1).drop_last() =~= views.take(n as int));
            assert(views.take(n + 1).last() == r@);
        }
        if reading_is_of(r, luid) {
            if let Some(pid) = r.inst.pid {
                proof {
                    lemma_prefix_fits(views, luid, pid, n as int);
                    lemma_prefix_fits(views, luid, pid, n + 1);
                    assert(fits(bytes_of(views, luid, pid)));
                }
                let sum: u64 = match t.get(pid) {
                    Some(s) => *s + bytes_in(r),
                    None => bytes_in(r),
                };
                let _ = t.insert(pid, sum);
            }
        }
        n = n + 1;
    }
    assert(views.take(n as int) =~= views);
    t
}

/// The bytes of an adapter.
pub fn adapter_bytes(rs: &Vec<Reading>, luid: Luid) -> (r: Option<u64>)
    requires
        fits(total_of(reading_views(rs@), luid)),
    ensures
        r == size_of(total_of(reading_views(rs@), luid)),
{
    let ghost views = reading_views(rs@);
    let mut total: Option<u64> = None;
    let mut n: usize = 0;
    while n < rs.len()
        invariant
            n <= rs.len(),
            views == reading_views(rs@),
            fits(total_of(views, luid)),
            fits(total_of(views.take(n as int), luid)),
            total == size_of(total_of(views.take(n as int), luid)),
        decreases rs.len() - n,
    {
        let r = &rs[n];
        proof {
            assert(views.take(n + 1).drop_last() =~= views.take(n as int));
            assert(views.take(n + 1).last() == r@);
            lemma_prefix_fits(views, luid, 0, n + 1);
        }
        if reading_is_of(r, luid) {
            total = Some(
                match total {
                    Some(s) => s + bytes_in(r),
                    None => bytes_in(r),
                },
            );
        }
        n = n + 1;
    }
    assert(views.take(n as int) =~= views);
    total
}

/// The bytes of all readings.
pub open spec fn all_bytes(rs: Seq<ReadingView>) -> nat
    decreases rs.len(),
{
    if rs.len() == 0 {
        0
    } else {
        all_bytes(rs.drop_last()) + rs.last().bytes()
    }
}

proof fn lemma_all_bytes(rs: Seq<ReadingView>, luid: Luid, pid: u32)
    ensures
        sum_with(bytes_of(rs, luid, pid), 0) <= all_bytes(rs),
        sum_with(total_of(rs, luid), 0) <= all_bytes(rs),
    decreases rs.len(),
{
    if rs.len() > 0 {
        lemma_all_bytes(rs.drop_last(), luid, pid);
    }
}

/// Are all the sums over these readings sizes that can be told, whichever adapter they are for?
pub fn sums_fit(rs: &Vec<Reading>) -> (r: bool)
    ensures
        r == (all_bytes(reading_views(rs@)) <= u64::MAX),
        r ==> forall|luid: Luid|
            pid_sums_fit(reading_views(rs@), luid) && fits(
                #[trigger] total_of(reading_views(rs@), luid),
            ),
{
    let ghost views = reading_views(rs@);
    let mut total: u128 = 0;
    let mut n: usize = 0;
    while n < rs.len()
        invariant
            n <= rs.len(),
            views == reading_views(rs@),
            total == all_bytes(views.take(n as int)),
            total <= n * 0x8000_0000_0000_0000,
        decreases rs.len() - n,
    {
        proof {
            assert(views.take(n + 1).drop_last() =~= views.take(n as int));
            assert(views.take(n + 1).last() == rs@[n as int]@);
        }
        total = total + bytes_in(&rs[n]) as u128;
        n = n + 1;
    }
    assert(views.take(n as int) =~= views);
    proof {
        if total <= u64::MAX {
            assert forall|luid: Luid|
                pid_sums_fit(views, luid) && fits(#[trigger] total_of(views, luid)) by {
                lemma_all_bytes(views, luid, 0);
                assert forall|pid: u32| fits(#[trigger] bytes_of(views, luid, pid)) by {
                    lemma_all_bytes(views, luid, pid);
                }
            }
        }
    }
    total <= u64::MAX as u128
}

/// What the readings that `p` picks add up to; a reading below zero counts as nothing.
pub open spec fn added_up(rs: Seq<ReadingView>, p: spec_fn(ReadingView) -> bool) -> int {
    rs.filter(p).fold_left(
        0int,
        |sum: int, r: ReadingView|
            if r.value > 0 {
                sum + r.value
            } else {
                sum
            },
    )
}

/// The memory of a process on an adapter is what all its readings there add up to, and that of an
/// adapter what all readings of it add up to; without a reading it is unknown, not zero.
pub proof fn law_sizes_add_up(rs: Seq<ReadingView>, luid: Luid, pid: u32)
    ensures
        bytes_of(rs, luid, pid) is Some <==> rs.filter(
            |r: ReadingView| r.is_of(luid) && r.inst.pid == Some(pid),
        ).len() > 0,
        bytes_of(rs, luid, pid) matches Some(b) ==> b == added_up(
            rs,
            |r: ReadingView| r.is_of(luid) && r.inst.pid == Some(pid),
        ),
        total_of(rs, luid) is Some <==> rs.filter(|r: ReadingView| r.is_of(luid)).len() > 0,
        total_of(rs, luid) matches Some(b) ==> b == added_up(
            rs,
            |r: ReadingView| r.is_of(luid),
        ),
{
    lemma_bytes_of(rs, luid, pid, |r: ReadingView| r.is_of(luid) && r.inst.pid == Some(pid));
    lemma_total_of(rs, luid, |r: ReadingView| r.is_of(luid));
}

proof fn lemma_bytes_of(
    rs: Seq<ReadingView>,
    luid: Luid,
    pid: u32,
    p: spec_fn(ReadingView) -> bool,
)
    requires
        forall|r: ReadingView| #[trigger] p(r) == (r.is_of(luid) && r.inst.pid == Some(pid)),
    ensures
        bytes_of(rs, luid, pid) is Some <==> rs.filter(p).len() > 0,
        bytes_of(rs, luid, pid) matches Some(b) ==> b == added_up(rs, p),
    decreases rs.len(),
{
    reveal(Seq::filter);
    if rs.len() > 0 {
        let t = rs.drop_last();
        let l = rs.last();
        lemma_bytes_of(t, luid, pid, p);
        assert(p(l) == l.is_of_pid(luid, pid));
        if p(l) {
            assert(t.filter(p).push(l).drop_last() =~= t.filter(p));
            assert(added_up(rs, p) == added_up(t, p) + l.bytes());
            if bytes_of(t, luid, pid) is None {
                assert(added_up(t, p) == 0);
            }
        }
    }
}

proof fn lemma_total_of(rs: Seq<ReadingView>, luid: Luid, p: spec_fn(ReadingView) -> bool)
    requires
        forall|r: ReadingView| #[trigger] p(r) == r.is_of(luid),
    ensures
        total_of(rs, luid) is Some <==> rs.filter(p).len() > 0,
        total_of(rs, luid) matches Some(b) ==> b == added_up(rs, p),
    decreases rs.len(),
{
    reveal(Seq::filter);
    if rs.len() > 0 {
        let t = rs.drop_last();
        let l = rs.last();
        lemma_total_of(t, luid, p);
        assert(p(l) == l.is_of(luid));
        if p(l) {
            assert(t.filter(p).push(l).drop_last() =~= t.filter(p));
            assert(added_up(rs, p) == added_up(t, p) + l.bytes());
            if total_of(t, luid) is None {
                assert(added_up(t, p) == 0);
            }
        }
    }
}

/// An engine computes where its type is one of the two names of compute engines, in whatever case.
pub proof fn law_compute_engines_are_told_by_their_names(engtype: Seq<char>)
    ensures
        names_compute("Compute"@) && names_compute("Cuda"@),
        names_compute(engtype) <==> ascii_lower(engtype) == "compute"@ || ascii_lower(engtype)
            == "cuda"@,
{
    reveal_strlit("compute");
    reveal_strlit("Compute");
    reveal_strlit("cuda");
    reveal_strlit("Cuda");
    assert(ascii_lower("compute"@) =~= "compute"@);
    assert(ascii_lower("cuda"@) =~= "cuda"@);
    assert(ascii_lower("Compute"@) =~= "compute"@);
    assert(ascii_lower("Cuda"@) =~= "cuda"@);
}

} // verus!
