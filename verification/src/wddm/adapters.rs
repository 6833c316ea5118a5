//! Display adapters of Windows, and their identities.

use vstd::prelude::*;
use crate::model::{DeviceId, Vendor};
use crate::model::text_view;
use crate::pci::{PciParts, hex_value, is_low, normalized, pci_parts, pci_text};
use crate::pci::{law_synthetic_ids_are_refused, lemma_address_is_normal};
use crate::text::{all_hex, dec, hex, hex_char, is_hex_digit, lower, pad_left};
use crate::text::{push_dec, push_hex};

verus! {

/// What is known of an adapter.
pub struct AdapterInfo {
    /// Its place in the enumeration.
    pub ordinal: u32,
    pub name: String,
    pub vendor_id: u32,
    pub device_id: u32,
    /// Its identity in this session, by which counters are told apart. It changes from session to
    /// session, and is no lasting identity.
    pub luid_high: i32,
    pub luid_low: u32,
    /// Memory of its own. An integrated one has little or none, and that is normal.
    pub dedicated_video_bytes: u64,
    /// System memory it may use; never added to its own.
    pub shared_system_bytes: u64,
    /// Its PCI address, where the system tells it.
    pub pci_bdf: Option<String>,
}

/// The flag of an adapter that is rendered in software.
pub const ADAPTER_FLAG_SOFTWARE: u32 = 2;

/// The flags are those of a device, and not of one that is rendered in software.
pub open spec fn of_hardware(flags: u32) -> bool {
    flags & ADAPTER_FLAG_SOFTWARE == 0
}

/// Is an adapter with these flags a device? One that is rendered in software is none.
pub fn is_hardware(flags: u32) -> (r: bool)
    ensures
        r == (flags & ADAPTER_FLAG_SOFTWARE == 0),
        r == of_hardware(flags),
{
    flags & ADAPTER_FLAG_SOFTWARE == 0
}

/// How much of a text buffer its text takes: what stands before the first zero, or all of it.
pub fn text_len(b: &[u16]) -> (n: usize)
    ensures
        n <= b@.len(),
        forall|i: int| 0 <= i < n ==> b@[i] != 0,
        n < b@.len() ==> b@[n as int] == 0,
{
    let mut n: usize = 0;
    while n < b.len() && b[n] != 0
        invariant
            n <= b@.len(),
            forall|i: int| 0 <= i < n ==> b@[i] != 0,
        decreases b.len() - n,
    {
        n = n + 1;
    }
    n
}

/// The vendor of a PCI vendor id.
pub open spec fn vendor_by_id(vendor_id: u32) -> Vendor {
    if vendor_id == 0x10DE {
        Vendor::Nvidia
    } else if vendor_id == 0x1002 {
        Vendor::Amd
    } else if vendor_id == 0x8086 {
        Vendor::Intel
    } else {
        Vendor::Unknown
    }
}

pub fn vendor_of(vendor_id: u32) -> (r: Vendor)
    ensures
        r == vendor_by_id(vendor_id),
{
    match vendor_id {
        0x10DE => Vendor::Nvidia,
        0x1002 => Vendor::Amd,
        0x8086 => Vendor::Intel,
        _ => Vendor::Unknown,
    }
}

/// The parts of the address of a function of a device on a bus. (The domain is not told; it is
/// zero.)
pub open spec fn address_parts(bus: u32, device: u32, function: u32) -> PciParts {
    PciParts {
        domain: "0000"@,
        bus: pad_left(hex(bus as nat), 2, '0'),
        dev: pad_left(hex(device as nat), 2, '0'),
        func: hex(function as nat),
    }
}

/// The normal spelling of a PCI address; `None` for numbers that no address has.
pub open spec fn bdf_text(bus: u32, device: u32, function: u32) -> Option<Seq<char>> {
    if bus > 0xFF || device > 0x1F || function > 0x7 {
        None
    } else {
        Some(pci_text(address_parts(bus, device, function)))
    }
}

pub fn bdf_string(bus: u32, device: u32, function: u32) -> (r: Option<String>)
    ensures
        text_view(r) == bdf_text(bus, device, function),
{
    if bus > 0xFF || device > 0x1F || function > 0x7 {
        return None;
    }
    let mut out: String = String::new();
    out.append("0000");
    out.push(':');
    push_hex(&mut out, bus, 2);
    out.push(':');
    push_hex(&mut out, device, 2);
    out.push('.');
    push_hex(&mut out, function, 1);
    assert(pad_left(hex(function as nat), 1, '0') == hex(function as nat));
    assert(out@ =~= pci_text(address_parts(bus, device, function)));
    Some(out)
}

/// The identity of an adapter whose address is not told.
pub open spec fn synthetic_id(vendor_id: u32, device_id: u32, ordinal: u32) -> Seq<char> {
    "wddm"@ + seq![':'] + (pad_left(hex(vendor_id as nat), 4, '0') + seq![':'] + pad_left(
        hex(device_id as nat),
        4,
        '0',
    ) + seq![':'] + dec(ordinal as nat))
}

pub fn synthetic_device_id(vendor_id: u32, device_id: u32, ordinal: u32) -> (r: String)
    ensures
        r@ == synthetic_id(vendor_id, device_id, ordinal),
{
    let mut out: String = String::new();
    out.append("wddm");
    out.push(':');
    push_hex(&mut out, vendor_id, 4);
    out.push(':');
    push_hex(&mut out, device_id, 4);
    out.push(':');
    push_dec(&mut out, ordinal as u128);
    assert(out@ =~= synthetic_id(vendor_id, device_id, ordinal));
    out
}

impl AdapterInfo {
    /// The lasting identity: the address, else a synthetic one.
    pub open spec fn identity(self) -> Seq<char> {
        match self.pci_bdf {
            Some(bdf) => bdf@,
            None => synthetic_id(self.vendor_id, self.device_id, self.ordinal),
        }
    }

    pub fn id(&self) -> (r: DeviceId)
        ensures
            r@ == self.identity(),
    {
        match &self.pci_bdf {
            Some(bdf) => DeviceId(bdf.clone()),
            None => DeviceId(synthetic_device_id(self.vendor_id, self.device_id, self.ordinal)),
        }
    }
}

proof fn lemma_hex_char(d: int)
    requires
        0 <= d < 16,
    ensures
        is_hex_digit(hex_char(d)),
        lower(hex_char(d)) == hex_char(d),
        crate::pci::hex_digit_value(hex_char(d)) == d,
{
}

/// Hexadecimal digits read back as the number.
proof fn lemma_hex(n: nat)
    ensures
        all_hex(hex(n)),
        is_low(hex(n)),
        hex(n).len() > 0,
        n < 256 ==> hex(n).len() <= 2,
        n < 16 ==> hex(n).len() == 1,
        hex_value(hex(n)) == n,
    decreases n,
{
    reveal_with_fuel(hex_value, 2);
    lemma_hex_char((n % 16) as int);
    if n >= 16 {
        lemma_hex(n / 16);
        assert(hex(n).drop_last() =~= hex(n / 16));
    } else {
        lemma_hex_char(n as int);
        assert(hex(n).drop_last() =~= Seq::<char>::empty());
    }
}

/// Two digits of a small number, which read back as it.
proof fn lemma_two_digits(n: nat)
    requires
        n < 256,
    ensures
        ({
            let t = pad_left(hex(n), 2, '0');
            t.len() == 2 && all_hex(t) && is_low(t) && hex_value(t) == n
        }),
{
    lemma_hex(n);
    let h = hex(n);
    let t = pad_left(h, 2, '0');
    if h.len() < 2 {
        assert(t =~= seq!['0', h[0]]);
        assert(is_hex_digit(h[0]) && lower(h[0]) == h[0]);
        reveal_with_fuel(hex_value, 3);
        assert(t.drop_last() =~= seq!['0']);
        assert(t.drop_last().drop_last() =~= Seq::<char>::empty());
        assert(h.drop_last() =~= Seq::<char>::empty());
    }
}

proof fn lemma_address(bus: u32, device: u32, function: u32)
    requires
        bdf_text(bus, device, function) is Some,
    ensures
        ({
            let p = address_parts(bus, device, function);
            &&& pci_parts(pci_text(p)) == Some(p)
            &&& normalized(pci_text(p)) == Some(pci_text(p))
            &&& hex_value(p.bus) == bus && hex_value(p.dev) == device && hex_value(p.func)
                == function
        }),
{
    lemma_two_digits(bus as nat);
    lemma_two_digits(device as nat);
    lemma_hex(function as nat);
    let p = address_parts(bus, device, function);
    lemma_address_is_normal(p.bus, p.dev, p.func);
}

/// An adapter's address is in the normal spelling: it is the one identity of the device, whichever
/// backend reports it.
pub proof fn law_addresses_are_in_normal_form(bus: u32, device: u32, function: u32)
    ensures
        bdf_text(bus, device, function) matches Some(t) ==> normalized(t) == Some(t),
{
    if bdf_text(bus, device, function) is Some {
        lemma_address(bus, device, function);
    }
}

/// Distinct functions have distinct addresses.
pub proof fn law_addresses_are_distinct(a: (u32, u32, u32), b: (u32, u32, u32))
    requires
        bdf_text(a.0, a.1, a.2) is Some,
        bdf_text(a.0, a.1, a.2) == bdf_text(b.0, b.1, b.2),
    ensures
        a == b,
{
    lemma_address(a.0, a.1, a.2);
    lemma_address(b.0, b.1, b.2);
}

/// A synthetic identity is no address: such a device is never taken for another.
pub proof fn law_synthetic_identities_are_no_addresses(vendor_id: u32, device_id: u32, ordinal: u32)
    ensures
        normalized(synthetic_id(vendor_id, device_id, ordinal)) is None,
{
    reveal_strlit("wddm");
    let prefix = "wddm"@;
    assert(prefix =~= seq!['w', 'd', 'd', 'm']);
    assert(!is_hex_digit(prefix[0]));
    law_synthetic_ids_are_refused(
        prefix,
        pad_left(hex(vendor_id as nat), 4, '0') + seq![':'] + pad_left(
            hex(device_id as nat),
            4,
            '0',
        ) + seq![':'] + dec(ordinal as nat),
    );
}

/// An adapter's address is that of its bus, its device and its function, in domain zero: it reads
/// back as these numbers. Numbers that no function can have give no address.
pub proof fn law_an_address_reads_back(bus: u32, device: u32, function: u32)
    ensures
        bdf_text(bus, device, function) is Some <==> bus < 256 && device < 32 && function < 8,
        bdf_text(bus, device, function) matches Some(t) ==> pci_parts(t) matches Some(p) && {
            &&& hex_value(p.domain) == 0
            &&& hex_value(p.bus) == bus
            &&& hex_value(p.dev) == device
            &&& hex_value(p.func) == function
        },
{
    if bdf_text(bus, device, function) is Some {
        lemma_address(bus, device, function);
        reveal_strlit("0000");
        reveal_with_fuel(hex_value, 5);
        let zeros = "0000"@;
        assert(zeros =~= seq!['0', '0', '0', '0']);
        assert(zeros.drop_last() =~= seq!['0', '0', '0']);
        assert(zeros.drop_last().drop_last() =~= seq!['0', '0']);
        assert(zeros.drop_last().drop_last().drop_last() =~= seq!['0']);
        assert(zeros.drop_last().drop_last().drop_last().drop_last() =~= Seq::<char>::empty());
    }
}

/// The vendors that are told by their PCI ids.
pub proof fn law_a_vendor_is_told_by_its_id(id: u32)
    ensures
        vendor_by_id(id) is Nvidia <==> id == 0x10de,
        vendor_by_id(id) is Amd <==> id == 0x1002,
        vendor_by_id(id) is Intel <==> id == 0x8086,
        !(vendor_by_id(id) is Apple),
{
}

/// An adapter is rendered in software where the second-lowest of its flags is set, whatever the
/// others are.
pub proof fn law_the_second_flag_tells_of_software(flags: u32)
    ensures
        of_hardware(flags) <==> (flags / 2) % 2 == 0,
{
    assert((flags & 2 == 0) <==> (flags / 2) % 2 == 0) by (bit_vector);
}

/// The identity of an adapter without an address has its vendor and its device in four digits each,
/// which read back, and its place among those found. (Ids of PCI have no more digits.)
pub proof fn law_a_synthetic_identity_tells_the_ids(vendor_id: u32, device_id: u32, ordinal: u32)
    requires
        vendor_id <= 0xffff,
        device_id <= 0xffff,
    ensures
        ({
            let id = synthetic_id(vendor_id, device_id, ordinal);
            &&& id.len() >= 15
            &&& id.take(5) == "wddm:"@
            &&& hex_value(id.subrange(5, 9)) == vendor_id
            &&& id[9] == ':'
            &&& hex_value(id.subrange(10, 14)) == device_id
            &&& id[14] == ':'
            &&& id.skip(15) == dec(ordinal as nat)
        }),
{
    let v = pad_left(hex(vendor_id as nat), 4, '0');
    let d = pad_left(hex(device_id as nat), 4, '0');
    let id = synthetic_id(vendor_id, device_id, ordinal);
    lemma_four_digits(vendor_id as nat);
    lemma_four_digits(device_id as nat);
    reveal_strlit("wddm");
    reveal_strlit("wddm:");
    assert(id.take(5) =~= "wddm:"@);
    assert(id.subrange(5, 9) =~= v);
    assert(id.subrange(10, 14) =~= d);
    assert(id.skip(15) =~= dec(ordinal as nat));
}

proof fn lemma_four_digits(n: nat)
    requires
        n <= 0xffff,
    ensures
        pad_left(hex(n), 4, '0').len() == 4,
        hex_value(pad_left(hex(n), 4, '0')) == n,
{
    lemma_hex(n);
    reveal_with_fuel(hex, 4);
    assert(hex(n).len() <= 4);
    lemma_zeros((4 - hex(n).len()) as nat, hex(n));
}

proof fn lemma_zeros(k: nat, s: Seq<char>)
    ensures
        hex_value(Seq::new(k, |i: int| '0') + s) == hex_value(s),
    decreases k + s.len(),
{
    let t = Seq::new(k, |i: int| '0') + s;
    if s.len() > 0 {
        lemma_zeros(k, s.drop_last());
        assert(t.drop_last() =~= Seq::new(k, |i: int| '0') + s.drop_last());
    } else if k > 0 {
        lemma_zeros((k - 1) as nat, s);
        assert(t.drop_last() =~= Seq::new((k - 1) as nat, |i: int| '0') + s);
    } else {
        assert(t =~= s);
    }
}

} // verus!
