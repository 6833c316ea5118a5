//! What the backends have in common: how they fail, and how one physical device that several of
//! them see is registered once.

use vstd::prelude::*;
use crate::model::DeviceId;
use crate::pci::{normalize_pci_id, normalized};

verus! {

#[derive(Debug)]
pub enum BackendError {
    /// No such backend or device here (library, driver or permission missing). A normal outcome.
    Unavailable(String),
    /// No device of this identity.
    DeviceNotFound(DeviceId),
}

impl BackendError {
    /// The error as text.
    pub open spec fn error_text(self) -> Seq<char> {
        match self {
            BackendError::Unavailable(why) => "unavailable: "@ + why@,
            BackendError::DeviceNotFound(id) => "device not found: "@ + id@,
        }
    }

    pub fn text(&self) -> (r: String)
        ensures
            r@ == self.error_text(),
    {
        let mut out: String = String::new();
        match self {
            BackendError::Unavailable(why) => {
                out.append("unavailable: ");
                out.append(why.as_str());
            },
            BackendError::DeviceNotFound(id) => {
                out.append("device not found: ");
                out.append(id.0.as_str());
            },
        }
        assert(out@ =~= self.error_text());
        out
    }
}

/// The error says that there is no device `id`.
pub open spec fn is_not_found(e: BackendError, id: Seq<char>) -> bool {
    match e {
        BackendError::DeviceNotFound(d) => d@ == id,
        _ => false,
    }
}

/// The error says that there are no devices, as `why` puts it.
pub open spec fn is_unavailable(e: BackendError, why: Seq<char>) -> bool {
    match e {
        BackendError::Unavailable(w) => w@ == why,
        _ => false,
    }
}

/// Is the simulated backend used? Only where it is asked for, or where no real one came up; and
/// where it is asked for, no real one is used beside it.
pub fn uses_mock(force_mock: bool, real_backends: usize) -> (r: bool)
    ensures
        r == (force_mock || real_backends == 0),
{
    force_mock || real_backends == 0
}

/// A backend's sighting of a device: its identity there, and whether the backend could describe
/// it.
pub struct Sighting {
    pub id: DeviceId,
    pub described: bool,
}

#[verifier::ext_equal]
pub struct SightingView {
    pub id: Seq<char>,
    pub described: bool,
}

impl View for Sighting {
    type V = SightingView;

    open spec fn view(&self) -> SightingView {
        SightingView { id: self.id@, described: self.described }
    }
}

pub open spec fn sighting_views(v: Seq<Sighting>) -> Seq<SightingView> {
    Seq::new(v.len(), |i: int| v[i]@)
}

/// A sighting before the `i`-th described the same PCI device.
pub open spec fn claimed_before(s: Seq<SightingView>, i: int) -> bool {
    normalized(s[i].id) is Some && exists|j: int|
        0 <= j < i && (#[trigger] s[j]).described && normalized(s[j].id) == normalized(s[i].id)
}

/// The `i`-th sighting registers a device: it could be described, and no earlier one has claimed
/// its PCI address. Identities that are no PCI addresses are never held to be the same.
pub open spec fn registers(s: Seq<SightingView>, i: int) -> bool {
    s[i].described && !claimed_before(s, i)
}

/// The places of the first `n` sightings that register a device.
pub open spec fn registered_upto(s: Seq<SightingView>, n: nat) -> Seq<int>
    decreases n,
{
    if n == 0 {
        Seq::empty()
    } else if registers(s, n - 1) {
        registered_upto(s, (n - 1) as nat).push(n - 1)
    } else {
        registered_upto(s, (n - 1) as nat)
    }
}

/// The PCI addresses that backends have claimed so far.
pub struct Claims {
    keys: Vec<String>,
}

impl Claims {
    /// The claimed addresses, in their normal spelling.
    pub closed spec fn keys(self) -> Set<Seq<char>> {
        Set::new(|k: Seq<char>| exists|i: int| 0 <= i < self.keys@.len() && self.keys@[i]@ == k)
    }

    pub fn new() -> (r: Self)
        ensures
            r.keys() == Set::<Seq<char>>::empty(),
    {
        let r = Claims { keys: Vec::new() };
        assert(r.keys() =~= Set::<Seq<char>>::empty());
        r
    }

    /// Has an earlier backend claimed the device? One that has is not asked to describe it again.
    pub fn is_claimed(&self, id: &DeviceId) -> (r: bool)
        ensures
            r == (normalized(id@) matches Some(k) && self.keys().contains(k)),
    {
        let key = match normalize_pci_id(id.0.as_str()) {
            Some(k) => k,
            None => {
                return false;
            },
        };
        let mut i: usize = 0;
        while i < self.keys.len()
            invariant
                i <= self.keys.len(),
                normalized(id@) == Some(key@),
                forall|k: int| 0 <= k < i ==> (#[trigger] self.keys@[k])@ != key@,
            decreases self.keys.len() - i,
        {
            if self.keys[i] == key {
                return true;
            }
            i = i + 1;
        }
        false
    }

    /// Claims a device that was described.
    pub fn claim(&mut self, id: &DeviceId)
        ensures
            final(self).keys() == (match normalized(id@) {
                Some(k) => old(self).keys().insert(k),
                None => old(self).keys(),
            }),
    {
        if let Some(key) = normalize_pci_id(id.0.as_str()) {
            let ghost before = self.keys@;
            let ghost k = key@;
            self.keys.push(key);
            proof {
                let after = self.keys@;
                assert forall|x: Seq<char>| self.keys().contains(x) <==> old(
                    self,
                ).keys().insert(k).contains(x) by {
                    if old(self).keys().contains(x) {
                        let i = choose|i: int| 0 <= i < before.len() && before[i]@ == x;
                        assert(after[i]@ == x);
                    }
                    assert(after[before.len() as int]@ == k);
                }
                assert(self.keys() =~= old(self).keys().insert(k));
            }
        }
    }
}

/// The sightings that register devices, in registry order: the first backend that can describe a
/// physical device has it.
pub fn discover(sightings: &Vec<Sighting>) -> (v: Vec<usize>)
    ensures
        v@.len() == registered_upto(sighting_views(sightings@), sightings@.len()).len(),
        forall|k: int|
            0 <= k < v@.len() ==> (#[trigger] v@[k]) as int == registered_upto(
                sighting_views(sightings@),
                sightings@.len(),
            )[k],
{
    let ghost s = sighting_views(sightings@);
    let mut claims = Claims::new();
    let mut v: Vec<usize> = Vec::new();
    let mut i: usize = 0;
    while i < sightings.len()
        invariant
            i <= sightings.len(),
            s == sighting_views(sightings@),
            forall|k: Seq<char>|
                claims.keys().contains(k) <==> exists|j: int|
                    0 <= j < i && (#[trigger] s[j]).described && normalized(s[j].id) == Some(k),
            v@.len() == registered_upto(s, i as nat).len(),
            forall|k: int|
                0 <= k < v@.len() ==> (#[trigger] v@[k]) as int == registered_upto(s, i as nat)[k],
        decreases sightings.len() - i,
    {
        let x = &sightings[i];
        assert(s[i as int] == x@);
        let taken: bool = claims.is_claimed(&x.id);
        assert(taken == claimed_before(s, i as int));
        let ghost before = claims.keys();
        if !taken && x.described {
            claims.claim(&x.id);
            v.push(i);
        }
        proof {
            assert forall|k: Seq<char>|
                claims.keys().contains(k) <==> exists|j: int|
                    0 <= j < i + 1 && (#[trigger] s[j]).described && normalized(s[j].id) == Some(
                        k,
                    ) by {
                if claims.keys().contains(k) {
                    if before.contains(k) {
                        let j = choose|j: int|
                            0 <= j < i && (#[trigger] s[j]).described && normalized(s[j].id)
                                == Some(k);
                        assert(s[j].described);
                    } else {
                        assert(s[i as int].described && normalized(s[i as int].id) == Some(k));
                    }
                }
                if exists|j: int|
                    0 <= j < i + 1 && (#[trigger] s[j]).described && normalized(s[j].id) == Some(
                        k,
                    ) {
                    let j = choose|j: int|
                        0 <= j < i + 1 && (#[trigger] s[j]).described && normalized(s[j].id)
                            == Some(k);
                    if j < i {
                        assert(before.contains(k));
                    } else if taken {
                        assert(before.contains(k));
                    }
                }
            }
        }
        i = i + 1;
    }
    v
}

/// One device per address: of two sightings that both register a device, the addresses differ.
pub proof fn law_an_address_registers_once(s: Seq<SightingView>, i: int, j: int)
    requires
        0 <= i < j < s.len(),
        registers(s, i),
        registers(s, j),
        normalized(s[j].id) is Some,
    ensures
        normalized(s[i].id) != normalized(s[j].id),
{
}

/// No device is lost: a described sighting either registers its device, or an earlier one of the
/// same address did; and an identity that is no address always registers.
pub proof fn law_no_described_device_is_lost(s: Seq<SightingView>, i: int)
    requires
        0 <= i < s.len(),
        s[i].described,
    ensures
        exists|j: int|
            0 <= j <= i && #[trigger] registers(s, j) && (j == i || normalized(s[j].id)
                == normalized(s[i].id)),
        normalized(s[i].id) is None ==> registers(s, i),
    decreases i,
{
    if claimed_before(s, i) {
        let k = choose|k: int|
            0 <= k < i && (#[trigger] s[k]).described && normalized(s[k].id) == normalized(
                s[i].id,
            );
        law_no_described_device_is_lost(s, k);
        let j = choose|j: int|
            0 <= j <= k && #[trigger] registers(s, j) && (j == k || normalized(s[j].id)
                == normalized(s[k].id));
        assert(registers(s, j));
    } else {
        assert(registers(s, i));
    }
}

/// The devices that are registered are those of the sightings that register one, in the order of
/// the sightings and each once.
pub proof fn law_devices_come_in_the_order_of_their_sightings(s: Seq<SightingView>)
    ensures
        ({
            let r = registered_upto(s, s.len());
            &&& forall|i: int| #[trigger] r.contains(i) <==> 0 <= i < s.len() && registers(s, i)
            &&& forall|a: int, b: int| 0 <= a < b < r.len() ==> #[trigger] r[a] < #[trigger] r[b]
        }),
{
    lemma_registered(s, s.len());
}

proof fn lemma_registered(s: Seq<SightingView>, n: nat)
    requires
        n <= s.len(),
    ensures
        ({
            let r = registered_upto(s, n);
            &&& forall|i: int| #[trigger] r.contains(i) <==> 0 <= i < n && registers(s, i)
            &&& forall|a: int, b: int| 0 <= a < b < r.len() ==> #[trigger] r[a] < #[trigger] r[b]
        }),
    decreases n,
{
    if n > 0 {
        lemma_registered(s, (n - 1) as nat);
        let before = registered_upto(s, (n - 1) as nat);
        let r = registered_upto(s, n);
        if registers(s, n - 1) {
            assert forall|i: int| #[trigger] r.contains(i) <==> 0 <= i < n && registers(s, i) by {
                if r.contains(i) {
                    let k = r.index_of(i);
                    if k < before.len() {
                        assert(before[k] == i);
                        assert(before.contains(i));
                    }
                }
                if 0 <= i < n - 1 && registers(s, i) {
                    assert(before.contains(i));
                    assert(r[before.index_of(i)] == i);
                }
                if i == n - 1 {
                    assert(r[before.len() as int] == i);
                }
            }
            assert forall|a: int, b: int| 0 <= a < b < r.len() implies #[trigger] r[a] < #[trigger] r[b] by {
                assert(before.contains(before[a]));
            }
        }
    }
}

/// An error says what is wrong, and of what.
pub proof fn law_an_error_says_what_is_wrong(e: BackendError, what: Seq<char>)
    ensures
        is_unavailable(e, what) ==> e.error_text() == "unavailable: "@ + what,
        is_not_found(e, what) ==> e.error_text() == "device not found: "@ + what,
        !(is_unavailable(e, what) && is_not_found(e, what)),
{
}

} // verus!
