//! What the readings of the GPU counters add up to, for one adapter.
//!
//! A reading whose adapter is unknown belongs to none: a gap is better than a wrong attribution.

use vstd::prelude::*;
use crate::scan::same_but_case;
use crate::scan::eq_ignore_ascii_case;
use crate::text::chars_of;
use crate::wddm::pdh::{InstanceView, ParsedInstance};

verus! {

/// The value of an instance at a tick: of a share, in thousandths of a percent; of a size, in
/// bytes.
pub struct Reading {
    pub inst: ParsedInstance,
    pub value: i64,
}

#[verifier::ext_equal]
pub struct ReadingView {
    pub inst: InstanceView,
    pub value: i64,
}

impl View for Reading {
    type V = ReadingView;

    open spec fn view(&self) -> ReadingView {
        ReadingView { inst: self.inst@, value: self.value }
    }
}

pub open spec fn reading_views(v: Seq<Reading>) -> Seq<ReadingView> {
    Seq::new(v.len(), |i: int| v[i]@)
}

/// An adapter: the two halves of its identity in this session.
#[derive(Clone, Copy, Debug, PartialEq, Eq, Structural)]
pub struct Luid {
    pub high: i32,
    pub low: u32,
}

impl ReadingView {
    /// The reading is of the adapter.
    pub open spec fn is_of(self, luid: Luid) -> bool {
        match self.inst.luid {
            Some(l) => l.is_of(luid.high, luid.low),
            None => false,
        }
    }

    /// The reading is of the process on the adapter.
    pub open spec fn is_of_pid(self, luid: Luid, pid: u32) -> bool {
        self.is_of(luid) && self.inst.pid == Some(pid)
    }

    /// The type of the engine; empty where there is none.
    pub open spec fn engtype(self) -> Seq<char> {
        match self.inst.engtype {
            Some(t) => t,
            None => Seq::empty(),
        }
    }

    /// The engine on its adapter.
    pub open spec fn engine(self) -> EngineKey {
        EngineKey {
            phys: self.inst.phys,
            part: self.inst.part,
            eng: self.inst.eng,
            engtype: self.engtype(),
        }
    }

    /// A size. (A negative one is a fault of the provider, and counts as nothing.)
    pub open spec fn bytes(self) -> nat {
        if self.value > 0 {
            self.value as nat
        } else {
            0
        }
    }
}

/// An engine on an adapter.
#[verifier::ext_equal]
pub struct EngineKey {
    pub phys: Option<u32>,
    pub part: Option<u32>,
    pub eng: Option<u32>,
    pub engtype: Seq<char>,
}

/// Some reading is of the engine.
pub open spec fn has_engine(rs: Seq<ReadingView>, luid: Luid, k: EngineKey) -> bool {
    exists|i: int| 0 <= i < rs.len() && (#[trigger] rs[i]).is_of(luid) && rs[i].engine() == k
}

/// The share of an engine: what the readings of all its processes add up to.
pub open spec fn busy_of(rs: Seq<ReadingView>, luid: Luid, k: EngineKey) -> int
    decreases rs.len(),
{
    if rs.len() == 0 {
        0
    } else {
        busy_of(rs.drop_last(), luid, k) + (if rs.last().is_of(luid) && rs.last().engine() == k {
            rs.last().value as int
        } else {
            0
        })
    }
}

/// The share of every engine is one that can be told.
pub open spec fn shares_fit(rs: Seq<ReadingView>, luid: Luid) -> bool {
    forall|k: EngineKey| i64::MIN <= #[trigger] busy_of(rs, luid, k) <= i64::MAX
}

/// The sizes of all readings, whatever their signs.
pub open spec fn all_shares(rs: Seq<ReadingView>) -> nat
    decreases rs.len(),
{
    if rs.len() == 0 {
        0
    } else {
        all_shares(rs.drop_last()) + (if rs.last().value < 0 {
            (-rs.last().value) as nat
        } else {
            rs.last().value as nat
        })
    }
}

proof fn lemma_all_shares(rs: Seq<ReadingView>, luid: Luid, k: EngineKey)
    ensures
        -all_shares(rs) <= busy_of(rs, luid, k) <= all_shares(rs),
    decreases rs.len(),
{
    if rs.len() > 0 {
        lemma_all_shares(rs.drop_last(), luid, k);
    }
}

/// Are the shares of all engines ones that can be told, whichever adapter they are of?
pub fn shares_add_up(rs: &Vec<Reading>) -> (r: bool)
    ensures
        r == (all_shares(reading_views(rs@)) <= i64::MAX),
        r ==> forall|luid: Luid| #[trigger] shares_fit(reading_views(rs@), luid),
{
    let ghost views = reading_views(rs@);
    let mut total: u128 = 0;
    let mut n: usize = 0;
    while n < rs.len()
        invariant
            n <= rs.len(),
            views == reading_views(rs@),
            total == all_shares(views.take(n as int)),
            total <= n * 0x8000_0000_0000_0000,
        decreases rs.len() - n,
    {
        proof {
            assert(views.take(n + 1).drop_last() =~= views.take(n as int));
            assert(views.take(n + 1).last() == rs@[n as int]@);
        }
        let value: i128 = rs[n].value as i128;
        total = total + if value < 0 {
            (-value) as u128
        } else {
            value as u128
        };
        n = n + 1;
    }
    assert(views.take(n as int) =~= views);
    proof {
        if total <= i64::MAX {
            assert forall|luid: Luid| #[trigger] shares_fit(views, luid) by {
                assert forall|k: EngineKey| i64::MIN <= #[trigger] busy_of(views, luid, k)
                    <= i64::MAX by {
                    lemma_all_shares(views, luid, k);
                }
            }
        }
    }
    total <= i64::MAX as u128
}

struct EngineBusy {
    phys: Option<u32>,
    part: Option<u32>,
    eng: Option<u32>,
    engtype: String,
    pct: i128,
}

impl EngineBusy {
    spec fn key(self) -> EngineKey {
        EngineKey { phys: self.phys, part: self.part, eng: self.eng, engtype: self.engtype@ }
    }
}

/// Is the reading of the adapter?
pub fn reading_is_of(r: &Reading, luid: Luid) -> (b: bool)
    ensures
        b == r@.is_of(luid),
{
    match &r.inst.luid {
        Some(l) => l.matches(luid.high, luid.low),
        None => false,
    }
}

/// The type of a reading's engine.
pub fn engtype_of(r: &Reading) -> (t: String)
    ensures
        t@ == r@.engtype(),
{
    match &r.inst.engtype {
        Some(t) => t.clone(),
        None => {
            let t: String = String::new();
            assert(t@ =~= Seq::<char>::empty());
            t
        },
    }
}

proof fn lemma_no_engine(rs: Seq<ReadingView>, luid: Luid, k: EngineKey)
    requires
        !has_engine(rs, luid, k),
    ensures
        busy_of(rs, luid, k) == 0,
    decreases rs.len(),
{
    if rs.len() > 0 {
        let t = rs.drop_last();
        assert(rs[rs.len() - 1] == rs.last());
        assert(!has_engine(t, luid, k)) by {
            if has_engine(t, luid, k) {
                let i = choose|i: int|
                    0 <= i < t.len() && (#[trigger] t[i]).is_of(luid) && t[i].engine() == k;
                assert(rs[i] == t[i]);
            }
        }
        lemma_no_engine(t, luid, k);
    }
}

proof fn lemma_engine_step(rs: Seq<ReadingView>, n: int, luid: Luid, k: EngineKey)
    requires
        0 <= n < rs.len(),
    ensures
        has_engine(rs.take(n + 1), luid, k) == (has_engine(rs.take(n), luid, k) || (rs[n].is_of(
            luid,
        ) && rs[n].engine() == k)),
        busy_of(rs.take(n + 1), luid, k) == busy_of(rs.take(n), luid, k) + (if rs[n].is_of(luid)
            && rs[n].engine() == k {
            rs[n].value as int
        } else {
            0
        }),
{
    let a = rs.take(n);
    let b = rs.take(n + 1);
    assert(b.drop_last() =~= a);
    assert(b.last() == rs[n] && b[n] == rs[n]);
    if has_engine(a, luid, k) {
        let i = choose|i: int|
            0 <= i < a.len() && (#[trigger] a[i]).is_of(luid) && a[i].engine() == k;
        assert(b[i] == a[i]);
    }
    if has_engine(b, luid, k) {
        let i = choose|i: int|
            0 <= i < b.len() && (#[trigger] b[i]).is_of(luid) && b[i].engine() == k;
        if i < n {
            assert(a[i] == b[i]);
        }
    }
}

/// The shares of the engines of an adapter, each engine once.
fn engine_busy(rs: &Vec<Reading>, luid: Luid) -> (v: Vec<EngineBusy>)
    ensures
        forall|i: int|
            0 <= i < v@.len() ==> has_engine(
                reading_views(rs@),
                luid,
                (#[trigger] v@[i]).key(),
            ) && v@[i].pct == busy_of(reading_views(rs@), luid, v@[i].key()),
        forall|k: EngineKey| #[trigger]
            has_engine(reading_views(rs@), luid, k) ==> exists|i: int|
                0 <= i < v@.len() && (#[trigger] v@[i]).key() == k,
{
    let ghost views = reading_views(rs@);
    let mut v: Vec<EngineBusy> = Vec::new();
    let mut n: usize = 0;
    while n < rs.len()
        invariant
            n <= rs.len(),
            views == reading_views(rs@),
            forall|i: int, j: int|
                0 <= i < j < v@.len() ==> (#[trigger] v@[i]).key() != (#[trigger] v@[j]).key(),
            forall|i: int|
                0 <= i < v@.len() ==> has_engine(
                    views.take(n as int),
                    luid,
                    (#[trigger] v@[i]).key(),
                ) && v@[i].pct == busy_of(views.take(n as int), luid, v@[i].key()),
            forall|i: int|
                0 <= i < v@.len() ==> -(n * 0x8000_0000_0000_0000) <= (#[trigger] v@[i]).pct <= n
                    * 0x8000_0000_0000_0000,
            forall|k: EngineKey| #[trigger]
                has_engine(views.take(n as int), luid, k) ==> exists|i: int|
                    0 <= i < v@.len() && (#[trigger] v@[i]).key() == k,
        decreases rs.len() - n,
    {
        let r = &rs[n];
        assert(views[n as int] == r@);
        let ghost before = v@;
        if reading_is_of(r, luid) {
            let engtype: String = engtype_of(r);
            let ghost key = r@.engine();
            let mut j: usize = 0;
            while j < v.len() && !(v[j].phys == r.inst.phys && v[j].part == r.inst.part && v[j].eng
                == r.inst.eng && v[j].engtype == engtype)
                invariant
                    j <= v.len(),
                    key == r@.engine(),
                    engtype@ == key.engtype,
                    v@ == before,
                    forall|i: int| 0 <= i < j ==> (#[trigger] v@[i]).key() != key,
                decreases v.len() - j,
            {
                assert(v@[j as int].key() != key);
                j = j + 1;
            }
            if j < v.len() {
                assert(v@[j as int].key() =~= key);
                v[j].pct = v[j].pct + r.value as i128;
                assert(v@[j as int].key() == key);
                assert forall|i: int| 0 <= i < v@.len() implies (#[trigger] v@[i]).key()
                    == before[i].key() && has_engine(views.take(n + 1), luid, v@[i].key())
                    && v@[i].pct == busy_of(views.take(n + 1), luid, v@[i].key()) by {
                    lemma_engine_step(views, n as int, luid, before[i].key());
                    if i != j {
                        assert(v@[i] == before[i]);
                        assert(before[i].key() != before[j as int].key());
                    }
                }
                assert forall|k: EngineKey| #[trigger]
                    has_engine(views.take(n + 1), luid, k) implies exists|i: int|
                    0 <= i < v@.len() && (#[trigger] v@[i]).key() == k by {
                    lemma_engine_step(views, n as int, luid, k);
                    if k == key {
                        assert(v@[j as int].key() == k);
                    } else {
                        assert(has_engine(views.take(n as int), luid, k));
                        let i = choose|i: int|
                            0 <= i < before.len() && (#[trigger] before[i]).key() == k;
                        assert(v@[i].key() == k);
                    }
                }
            } else {
                proof {
                    if has_engine(views.take(n as int), luid, key) {
                        let i = choose|i: int|
                            0 <= i < before.len() && (#[trigger] before[i]).key() == key;
                        assert(false);
                    }
                    lemma_no_engine(views.take(n as int), luid, key);
                }
                let e = EngineBusy {
                    phys: r.inst.phys,
                    part: r.inst.part,
                    eng: r.inst.eng,
                    engtype,
                    pct: r.value as i128,
                };
                assert(e.key() =~= key);
                v.push(e);
                assert(v@[v@.len() - 1] == e);
                assert forall|i: int| 0 <= i < v@.len() implies has_engine(
                    views.take(n + 1),
                    luid,
                    (#[trigger] v@[i]).key(),
                ) && v@[i].pct == busy_of(views.take(n + 1), luid, v@[i].key()) by {
                    lemma_engine_step(views, n as int, luid, v@[i].key());
                    if i < before.len() {
                        assert(v@[i] == before[i]);
                    }
                }
                assert forall|k: EngineKey| #[trigger]
                    has_engine(views.take(n + 1), luid, k) implies exists|i: int|
                    0 <= i < v@.len() && (#[trigger] v@[i]).key() == k by {
                    lemma_engine_step(views, n as int, luid, k);
                    if k == key {
                        assert(v@[v@.len() - 1].key() == k);
                    } else {
                        assert(has_engine(views.take(n as int), luid, k));
                        let i = choose|i: int|
                            0 <= i < before.len() && (#[trigger] before[i]).key() == k;
                        assert(v@[i].key() == k);
                    }
                }
            }
        } else {
            assert forall|k: EngineKey| #[trigger] has_engine(
                views.take(n + 1),
                luid,
                k,
            ) implies has_engine(views.take(n as int), luid, k) by {
                lemma_engine_step(views, n as int, luid, k);
            }
            assert forall|i: int| 0 <= i < v@.len() implies has_engine(
                views.take(n + 1),
                luid,
                (#[trigger] v@[i]).key(),
            ) && v@[i].pct == busy_of(views.take(n + 1), luid, v@[i].key()) by {
                lemma_engine_step(views, n as int, luid, v@[i].key());
            }
        }
        n = n + 1;
    }
    assert(views.take(n as int) =~= views);
    v
}

/// The share of the busiest engine of an adapter, and the type of that engine.
#[derive(Debug, PartialEq)]
pub struct EngineHeadline {
    pub engtype: String,
    /// It may exceed the whole: the readings of one engine's processes are not of one moment, and
    /// what they add up to is not cut off.
    pub pct: i128,
}

/// No engine of the adapter is busier.
pub open spec fn is_busiest(rs: Seq<ReadingView>, luid: Luid, k: EngineKey) -> bool {
    &&& has_engine(rs, luid, k)
    &&& forall|o: EngineKey| #[trigger]
        has_engine(rs, luid, o) ==> busy_of(rs, luid, o) <= busy_of(rs, luid, k)
}

/// The adapter has no reading.
pub open spec fn is_silent(rs: Seq<ReadingView>, luid: Luid) -> bool {
    forall|i: int| 0 <= i < rs.len() ==> !(#[trigger] rs[i]).is_of(luid)
}

/// The utilization of an adapter: that of its busiest engine. (Of several that are as busy, it may
/// be any.)
pub fn device_util(rs: &Vec<Reading>, luid: Luid) -> (r: Option<EngineHeadline>)
    ensures
        match r {
            Some(h) => exists|k: EngineKey|
                #![trigger is_busiest(reading_views(rs@), luid, k)]
                is_busiest(reading_views(rs@), luid, k) && h.engtype@ == k.engtype && h.pct
                    == busy_of(reading_views(rs@), luid, k),
            None => is_silent(reading_views(rs@), luid),
        },
{
    let ghost views = reading_views(rs@);
    let v = engine_busy(rs, luid);
    if v.len() == 0 {
        proof {
            assert forall|i: int| 0 <= i < views.len() implies !(#[trigger] views[i]).is_of(
                luid,
            ) by {
                if views[i].is_of(luid) {
                    assert(has_engine(views, luid, views[i].engine()));
                }
            }
        }
        return None;
    }
    let mut best: usize = 0;
    let mut i: usize = 1;
    while i < v.len()
        invariant
            best < i <= v.len(),
            forall|k: int| 0 <= k < i ==> (#[trigger] v@[k]).pct <= v@[best as int].pct,
        decreases v.len() - i,
    {
        if v[i].pct >= v[best].pct {
            best = i;
        }
        i = i + 1;
    }
    proof {
        let k = v@[best as int].key();
        assert forall|o: EngineKey| #[trigger] has_engine(views, luid, o) implies busy_of(
            views,
            luid,
            o,
        ) <= busy_of(views, luid, k) by {
            let j = choose|j: int| 0 <= j < v@.len() && (#[trigger] v@[j]).key() == o;
            assert(v@[j].pct <= v@[best as int].pct);
        }
        assert(is_busiest(views, luid, k));
    }
    Some(EngineHeadline { engtype: v[best].engtype.clone(), pct: v[best].pct })
}

/// An engine of the adapter is of the type, and none of that type is busier.
pub open spec fn is_busiest_of_type(
    rs: Seq<ReadingView>,
    luid: Luid,
    engtype: Seq<char>,
    k: EngineKey,
) -> bool {
    &&& has_engine(rs, luid, k) && same_but_case(k.engtype, engtype)
    &&& forall|o: EngineKey| #[trigger]
        has_engine(rs, luid, o) && same_but_case(o.engtype, engtype) ==> busy_of(rs, luid, o)
            <= busy_of(rs, luid, k)
}

/// The share of the busiest engine of a type. An adapter without such an engine has no share,
/// which is not to say that it is idle.
pub fn engtype_util(rs: &Vec<Reading>, luid: Luid, engtype: &str) -> (r: Option<i128>)
    ensures
        match r {
            Some(pct) => exists|k: EngineKey|
                #![trigger is_busiest_of_type(reading_views(rs@), luid, engtype@, k)]
                is_busiest_of_type(reading_views(rs@), luid, engtype@, k) && pct == busy_of(
                    reading_views(rs@),
                    luid,
                    k,
                ),
            None => forall|k: EngineKey| #[trigger]
                has_engine(reading_views(rs@), luid, k) ==> !same_but_case(k.engtype, engtype@),
        },
{
    let ghost views = reading_views(rs@);
    let v = engine_busy(rs, luid);
    let want: Vec<char> = chars_of(engtype);
    let mut best: Option<usize> = None;
    let mut i: usize = 0;
    while i < v.len()
        invariant
            i <= v.len(),
            want@ == engtype@,
            match best {
                Some(b) => {
                    &&& b < i
                    &&& same_but_case(v@[b as int].key().engtype, engtype@)
                    &&& forall|k: int|
                        0 <= k < i && same_but_case((#[trigger] v@[k]).key().engtype, engtype@)
                            ==> v@[k].pct <= v@[b as int].pct
                },
                None => forall|k: int|
                    0 <= k < i ==> !same_but_case((#[trigger] v@[k]).key().engtype, engtype@),
            },
        decreases v.len() - i,
    {
        let t: Vec<char> = chars_of(v[i].engtype.as_str());
        if eq_ignore_ascii_case(t.as_slice(), want.as_slice()) {
            match best {
                Some(b) => {
                    if v[i].pct >= v[b].pct {
                        best = Some(i);
                    }
                },
                None => {
                    best = Some(i);
                },
            }
        }
        i = i + 1;
    }
    match best {
        Some(b) => {
            proof {
                let k = v@[b as int].key();
                assert forall|o: EngineKey| #[trigger]
                    has_engine(views, luid, o) && same_but_case(
                        o.engtype,
                        engtype@,
                    ) implies busy_of(views, luid, o) <= busy_of(views, luid, k) by {
                    let j = choose|j: int| 0 <= j < v@.len() && (#[trigger] v@[j]).key() == o;
                    assert(v@[j].pct <= v@[b as int].pct);
                }
                assert(is_busiest_of_type(views, luid, engtype@, k));
            }
            Some(v[b].pct)
        },
        None => {
            proof {
                assert forall|k: EngineKey| #[trigger]
                    has_engine(views, luid, k) implies !same_but_case(k.engtype, engtype@) by {
                    let j = choose|j: int| 0 <= j < v@.len() && (#[trigger] v@[j]).key() == k;
                    assert(!same_but_case(v@[j].key().engtype, engtype@));
                }
            }
            None
        },
    }
}

} // verus!
