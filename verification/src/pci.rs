//! PCI addresses as identities: one spelling per address.

use vstd::prelude::*;
use crate::text::{all_hex, ascii_lower, first_at, is_hex_digit, lower, pad_left, split_at_char, without_leading};
use crate::text::{is_all_hex, push_chars, push_padded, split_once, to_ascii_lower, trim_start_char};
use crate::text::{lemma_first_at_holds, lemma_split_joined};

verus! {

/// The parts of a PCI address.
pub struct PciParts {
    pub domain: Seq<char>,
    pub bus: Seq<char>,
    pub dev: Seq<char>,
    pub func: Seq<char>,
}

/// One to `max` hexadecimal digits.
pub open spec fn is_hex(s: Seq<char>, max: nat) -> bool {
    0 < s.len() <= max && all_hex(s)
}

/// The parts of `domain:bus:dev.func`, in lower case; `None` for every other text.
pub open spec fn pci_parts(id: Seq<char>) -> Option<PciParts> {
    match split_at_char(ascii_lower(id), ':') {
        Some((domain, rest)) => match split_at_char(rest, ':') {
            Some((bus, devfn)) => match split_at_char(devfn, '.') {
                Some((dev, func)) => if is_hex(domain, 8) && is_hex(bus, 2) && is_hex(dev, 2)
                    && is_hex(func, 1) {
                    Some(PciParts { domain, bus, dev, func })
                } else {
                    None
                },
                None => None,
            },
            None => None,
        },
        None => None,
    }
}

/// The parts, written `domain:bus:dev.func`.
pub open spec fn pci_text(p: PciParts) -> Seq<char> {
    p.domain + seq![':'] + (p.bus + seq![':'] + (p.dev + seq!['.'] + p.func))
}

/// The parts in their usual widths: four digits of domain, without needless zeros, and two of bus
/// and device.
pub open spec fn usual_widths(p: PciParts) -> PciParts {
    PciParts {
        domain: pad_left(without_leading(p.domain, '0'), 4, '0'),
        bus: pad_left(p.bus, 2, '0'),
        dev: pad_left(p.dev, 2, '0'),
        func: p.func,
    }
}

/// The one spelling of a PCI address.
pub open spec fn normalized(id: Seq<char>) -> Option<Seq<char>> {
    match pci_parts(id) {
        Some(p) => Some(pci_text(usual_widths(p))),
        None => None,
    }
}

fn short_hex(s: &[char], max: usize) -> (r: bool)
    ensures
        r == is_hex(s@, max as nat),
{
    s.len() > 0 && s.len() <= max && is_all_hex(s)
}

/// The one spelling of a PCI address (`00000000:0A:00.0` and `0000:0a:00.0` are one device).
/// `None` for whatever is no PCI address: such identities are never held to be the same, since to
/// merge two devices is worse than to list one twice.
pub fn normalize_pci_id(id: &str) -> (r: Option<String>)
    ensures
        match r {
            Some(n) => normalized(id@) == Some(n@),
            None => normalized(id@) is None,
        },
{
    let low: Vec<char> = to_ascii_lower(id);
    let (domain, rest) = match split_once(low.as_slice(), ':') {
        Some(p) => p,
        None => {
            return None;
        },
    };
    let (bus, devfn) = match split_once(rest, ':') {
        Some(p) => p,
        None => {
            return None;
        },
    };
    let (dev, func) = match split_once(devfn, '.') {
        Some(p) => p,
        None => {
            return None;
        },
    };
    if !short_hex(domain, 8) || !short_hex(bus, 2) || !short_hex(dev, 2) || !short_hex(func, 1) {
        return None;
    }
    let mut out: String = String::new();
    push_padded(&mut out, trim_start_char(domain, '0'), 4, '0');
    out.push(':');
    push_padded(&mut out, bus, 2, '0');
    out.push(':');
    push_padded(&mut out, dev, 2, '0');
    out.push('.');
    push_chars(&mut out, func);
    proof {
        let p = PciParts { domain: domain@, bus: bus@, dev: dev@, func: func@ };
        assert(out@ =~= pci_text(usual_widths(p)));
    }
    Some(out)
}

/// The digits are all of lower case.
pub open spec fn is_low(s: Seq<char>) -> bool {
    forall|i: int| 0 <= i < s.len() ==> lower(#[trigger] s[i]) == s[i]
}

/// Parts of plausible widths, in lower case.
pub open spec fn parts_ok(p: PciParts) -> bool {
    &&& is_hex(p.domain, 8) && is_hex(p.bus, 2) && is_hex(p.dev, 2) && is_hex(p.func, 1)
    &&& is_low(p.domain) && is_low(p.bus) && is_low(p.dev) && is_low(p.func)
}

proof fn lemma_low_split(s: Seq<char>, c: char)
    requires
        is_low(s),
    ensures
        split_at_char(s, c) matches Some((a, b)) ==> is_low(a) && is_low(b),
{
    lemma_first_at_holds(s, c);
    if let Some((a, b)) = split_at_char(s, c) {
        let i = first_at(s, c) as int;
        assert forall|k: int| 0 <= k < a.len() implies lower(#[trigger] a[k]) == a[k] by {
            assert(s[k] == a[k]);
        }
        assert forall|k: int| 0 <= k < b.len() implies lower(#[trigger] b[k]) == b[k] by {
            assert(s[i + 1 + k] == b[k]);
        }
    }
}

/// What parses has parts of plausible widths.
proof fn lemma_parts_ok(id: Seq<char>)
    ensures
        pci_parts(id) matches Some(p) ==> parts_ok(p),
{
    let low = ascii_lower(id);
    assert(is_low(low));
    lemma_low_split(low, ':');
    if let Some((domain, rest)) = split_at_char(low, ':') {
        lemma_low_split(rest, ':');
        if let Some((bus, devfn)) = split_at_char(rest, ':') {
            lemma_low_split(devfn, '.');
        }
    }
}

/// What is written reads back.
proof fn lemma_text_parses(p: PciParts)
    requires
        parts_ok(p),
    ensures
        pci_parts(pci_text(p)) == Some(p),
{
    let t = pci_text(p);
    assert(is_low(t)) by {
        assert(lower(':') == ':' && lower('.') == '.');
    }
    assert(ascii_lower(t) =~= t);
    assert(!p.domain.contains(':')) by {
        if p.domain.contains(':') {
            let i = choose|i: int| 0 <= i < p.domain.len() && p.domain[i] == ':';
            assert(is_hex_digit(p.domain[i]));
        }
    }
    assert(!p.bus.contains(':')) by {
        if p.bus.contains(':') {
            let i = choose|i: int| 0 <= i < p.bus.len() && p.bus[i] == ':';
            assert(is_hex_digit(p.bus[i]));
        }
    }
    assert(!p.dev.contains('.')) by {
        if p.dev.contains('.') {
            let i = choose|i: int| 0 <= i < p.dev.len() && p.dev[i] == '.';
            assert(is_hex_digit(p.dev[i]));
        }
    }
    lemma_split_joined(p.domain, ':', p.bus + seq![':'] + (p.dev + seq!['.'] + p.func));
    lemma_split_joined(p.bus, ':', p.dev + seq!['.'] + p.func);
    lemma_split_joined(p.dev, '.', p.func);
}

proof fn lemma_without_leading(s: Seq<char>, c: char)
    ensures
        without_leading(s, c).len() <= s.len(),
        without_leading(s, c).len() > 0 ==> without_leading(s, c)[0] != c,
        forall|i: int|
            0 <= i < without_leading(s, c).len() ==> #[trigger] without_leading(s, c)[i] == s[i + (
            s.len() - without_leading(s, c).len())],
        forall|i: int| 0 <= i < s.len() - without_leading(s, c).len() ==> #[trigger] s[i] == c,
    decreases s.len(),
{
    if s.len() > 0 && s[0] == c {
        let t = s.skip(1);
        lemma_without_leading(t, c);
        assert forall|i: int| 0 <= i < s.len() - without_leading(s, c).len() implies #[trigger] s[i]
            == c by {
            if i > 0 {
                assert(t[i - 1] == s[i]);
            }
        }
    }
}

/// The usual widths are plausible ones.
proof fn lemma_usual_ok(p: PciParts)
    requires
        parts_ok(p),
    ensures
        parts_ok(usual_widths(p)),
{
    let u = usual_widths(p);
    lemma_without_leading(p.domain, '0');
    let d = without_leading(p.domain, '0');
    assert forall|i: int| 0 <= i < d.len() implies is_hex_digit(#[trigger] d[i]) && lower(d[i])
        == d[i] by {
        let k = i + (p.domain.len() - d.len());
        assert(p.domain[k] == d[i]);
    }
    lemma_pad(d, 4);
    lemma_pad(p.bus, 2);
    lemma_pad(p.dev, 2);
}

proof fn lemma_pad(s: Seq<char>, width: nat)
    requires
        all_hex(s),
        is_low(s),
    ensures
        all_hex(pad_left(s, width, '0')),
        is_low(pad_left(s, width, '0')),
        pad_left(s, width, '0').len() == (if s.len() < width {
            width
        } else {
            s.len()
        }),
{
    let t = pad_left(s, width, '0');
    if s.len() < width {
        let n = width - s.len();
        assert forall|i: int| 0 <= i < t.len() implies is_hex_digit(#[trigger] t[i]) && lower(t[i])
            == t[i] by {
            if i >= n {
                assert(t[i] == s[i - n]);
            }
        }
    }
}

/// In the usual widths already, parts stay as they are.
proof fn lemma_usual_stays(p: PciParts)
    requires
        parts_ok(p),
    ensures
        usual_widths(usual_widths(p)) == usual_widths(p),
{
    let d = without_leading(p.domain, '0');
    lemma_without_leading(p.domain, '0');
    let padded = pad_left(d, 4, '0');
    lemma_without_leading(padded, '0');
    lemma_strip_pad(d, 4);
    assert(pad_left(pad_left(p.bus, 2, '0'), 2, '0') =~= pad_left(p.bus, 2, '0'));
    assert(pad_left(pad_left(p.dev, 2, '0'), 2, '0') =~= pad_left(p.dev, 2, '0'));
}

/// Padding with zeros is undone by dropping the leading zeros.
proof fn lemma_strip_pad(d: Seq<char>, width: nat)
    requires
        d.len() > 0 ==> d[0] != '0',
    ensures
        without_leading(pad_left(d, width, '0'), '0') == d,
    decreases width,
{
    let t = pad_left(d, width, '0');
    if d.len() < width {
        let u = pad_left(d, (width - 1) as nat, '0');
        assert(t[0] == '0');
        assert(t.skip(1) =~= u);
        lemma_strip_pad(d, (width - 1) as nat);
    }
}

/// The normal spelling of an address is its own normal spelling.
pub proof fn law_normal_form_is_fixed(id: Seq<char>)
    ensures
        normalized(id) matches Some(n) ==> normalized(n) == Some(n),
{
    lemma_parts_ok(id);
    if let Some(p) = pci_parts(id) {
        lemma_usual_ok(p);
        lemma_text_parses(usual_widths(p));
        lemma_usual_stays(p);
    }
}

/// An address of domain zero in the usual widths is its own normal spelling.
pub proof fn lemma_address_is_normal(bus: Seq<char>, dev: Seq<char>, func: Seq<char>)
    requires
        bus.len() == 2 && all_hex(bus) && is_low(bus),
        dev.len() == 2 && all_hex(dev) && is_low(dev),
        func.len() == 1 && all_hex(func) && is_low(func),
    ensures
        ({
            let p = PciParts { domain: "0000"@, bus, dev, func };
            pci_parts(pci_text(p)) == Some(p) && normalized(pci_text(p)) == Some(pci_text(p))
        }),
{
    let p = PciParts { domain: "0000"@, bus, dev, func };
    reveal_strlit("0000");
    assert(p.domain =~= seq!['0', '0', '0', '0']);
    assert(parts_ok(p));
    lemma_text_parses(p);
    let none = Seq::<char>::empty();
    assert(pad_left(none, 4, '0') =~= p.domain);
    lemma_strip_pad(none, 4);
    assert(pad_left(bus, 2, '0') == bus && pad_left(dev, 2, '0') == dev);
}

/// Case does not count: an address and its lower-case form have one normal spelling.
pub proof fn law_case_does_not_count(id: Seq<char>)
    ensures
        normalized(ascii_lower(id)) == normalized(id),
{
    assert(ascii_lower(ascii_lower(id)) =~= ascii_lower(id));
}

/// Zeros before the domain do not count: while the domain keeps within eight digits, one more
/// zero in front of an address changes nothing.
pub proof fn law_domain_zeros_do_not_count(id: Seq<char>)
    requires
        pci_parts(id) matches Some(p) && p.domain.len() < 8,
    ensures
        normalized(seq!['0'] + id) == normalized(id),
{
    let p = pci_parts(id)->0;
    lemma_parts_ok(id);
    let low = ascii_lower(id);
    let longer = ascii_lower(seq!['0'] + id);
    assert(longer =~= seq!['0'] + low);
    let (domain, rest) = split_at_char(low, ':')->0;
    lemma_first_at_holds(low, ':');
    let i = first_at(low, ':') as int;
    assert(low =~= domain + seq![':'] + rest);
    let domain2 = seq!['0'] + domain;
    assert(longer =~= domain2 + seq![':'] + rest);
    assert(!domain2.contains(':')) by {
        if domain2.contains(':') {
            let k = choose|k: int| 0 <= k < domain2.len() && domain2[k] == ':';
            if k > 0 {
                assert(domain[k - 1] == ':');
                assert(low[k - 1] == ':');
            }
        }
    }
    lemma_split_joined(domain2, ':', rest);
    assert(all_hex(domain2)) by {
        assert forall|k: int| 0 <= k < domain2.len() implies is_hex_digit(#[trigger] domain2[k]) by {
            if k > 0 {
                assert(domain2[k] == domain[k - 1]);
            }
        }
    }
    assert(domain2.skip(1) =~= domain);
    assert(without_leading(domain2, '0') == without_leading(domain, '0'));
}

/// The number that hexadecimal digits stand for.
pub open spec fn hex_value(s: Seq<char>) -> nat
    decreases s.len(),
{
    if s.len() == 0 {
        0
    } else {
        hex_value(s.drop_last()) * 16 + hex_digit_value(s.last())
    }
}

pub open spec fn hex_digit_value(c: char) -> nat {
    if '0' <= c <= '9' {
        (c as int - 48) as nat
    } else if 'a' <= c <= 'f' {
        (c as int - 87) as nat
    } else {
        (c as int - 55) as nat
    }
}

proof fn lemma_zero_in_front(s: Seq<char>)
    ensures
        hex_value(seq!['0'] + s) == hex_value(s),
    decreases s.len(),
{
    let t = seq!['0'] + s;
    if s.len() > 0 {
        assert(t.drop_last() =~= seq!['0'] + s.drop_last());
        assert(t.last() == s.last());
        lemma_zero_in_front(s.drop_last());
    } else {
        assert(t.drop_last() =~= s);
    }
}

proof fn lemma_value_of_stripped(s: Seq<char>)
    ensures
        hex_value(without_leading(s, '0')) == hex_value(s),
    decreases s.len(),
{
    if s.len() > 0 && s[0] == '0' {
        assert(seq!['0'] + s.skip(1) =~= s);
        lemma_zero_in_front(s.skip(1));
        lemma_value_of_stripped(s.skip(1));
    }
}

proof fn lemma_value_of_padded(s: Seq<char>, width: nat)
    ensures
        hex_value(pad_left(s, width, '0')) == hex_value(s),
    decreases width,
{
    if s.len() < width {
        lemma_value_of_padded(s, (width - 1) as nat);
        assert(pad_left(s, width, '0') =~= seq!['0'] + pad_left(s, (width - 1) as nat, '0'));
        lemma_zero_in_front(pad_left(s, (width - 1) as nat, '0'));
    }
}

/// Distinct devices are never merged: two addresses with one normal spelling have the same domain,
/// bus, device and function numbers.
pub proof fn law_distinct_devices_stay_distinct(a: Seq<char>, b: Seq<char>)
    requires
        normalized(a) is Some,
        normalized(a) == normalized(b),
    ensures
        ({
            let p = pci_parts(a)->0;
            let q = pci_parts(b)->0;
            &&& hex_value(p.domain) == hex_value(q.domain)
            &&& hex_value(p.bus) == hex_value(q.bus)
            &&& hex_value(p.dev) == hex_value(q.dev)
            &&& hex_value(p.func) == hex_value(q.func)
        }),
{
    let p = pci_parts(a)->0;
    let q = pci_parts(b)->0;
    lemma_parts_ok(a);
    lemma_parts_ok(b);
    lemma_usual_ok(p);
    lemma_usual_ok(q);
    lemma_text_parses(usual_widths(p));
    lemma_text_parses(usual_widths(q));
    assert(usual_widths(p) == usual_widths(q));
    lemma_value_of_stripped(p.domain);
    lemma_value_of_stripped(q.domain);
    lemma_value_of_padded(without_leading(p.domain, '0'), 4);
    lemma_value_of_padded(without_leading(q.domain, '0'), 4);
    lemma_value_of_padded(p.bus, 2);
    lemma_value_of_padded(q.bus, 2);
    lemma_value_of_padded(p.dev, 2);
    lemma_value_of_padded(q.dev, 2);
}

/// Digits of lower case that are as many and stand for one number are the same.
proof fn lemma_same_digits(a: Seq<char>, b: Seq<char>)
    requires
        a.len() == b.len(),
        all_hex(a) && is_low(a),
        all_hex(b) && is_low(b),
        hex_value(a) == hex_value(b),
    ensures
        a == b,
    decreases a.len(),
{
    if a.len() > 0 {
        let n = a.len() - 1;
        let s = a.drop_last();
        let t = b.drop_last();
        assert(is_hex_digit(a[n]) && lower(a[n]) == a[n]);
        assert(is_hex_digit(b[n]) && lower(b[n]) == b[n]);
        assert(hex_value(s) == hex_value(t) && a[n] == b[n]);
        assert forall|i: int| 0 <= i < n implies is_hex_digit(#[trigger] s[i]) && lower(s[i])
            == s[i] by {
            assert(s[i] == a[i]);
        }
        assert forall|i: int| 0 <= i < n implies is_hex_digit(#[trigger] t[i]) && lower(t[i])
            == t[i] by {
            assert(t[i] == b[i]);
        }
        lemma_same_digits(s, t);
        assert(a =~= s.push(a[n]));
        assert(b =~= t.push(b[n]));
    }
    assert(a =~= b);
}

/// Digits that stand for one number are the same in one width.
proof fn lemma_same_padded(a: Seq<char>, b: Seq<char>, width: nat)
    requires
        a.len() <= width && all_hex(a) && is_low(a),
        b.len() <= width && all_hex(b) && is_low(b),
        hex_value(a) == hex_value(b),
    ensures
        pad_left(a, width, '0') == pad_left(b, width, '0'),
{
    lemma_pad(a, width);
    lemma_pad(b, width);
    lemma_value_of_padded(a, width);
    lemma_value_of_padded(b, width);
    lemma_same_digits(pad_left(a, width, '0'), pad_left(b, width, '0'));
}

/// Digits that stand for one number are the same without leading zeros.
proof fn lemma_same_stripped(a: Seq<char>, b: Seq<char>)
    requires
        a.len() <= 8 && all_hex(a) && is_low(a),
        b.len() <= 8 && all_hex(b) && is_low(b),
        hex_value(a) == hex_value(b),
    ensures
        without_leading(a, '0') == without_leading(b, '0'),
{
    let s = without_leading(a, '0');
    let t = without_leading(b, '0');
    lemma_without_leading(a, '0');
    lemma_without_leading(b, '0');
    assert forall|i: int| 0 <= i < s.len() implies is_hex_digit(#[trigger] s[i]) && lower(s[i])
        == s[i] by {
        assert(a[i + (a.len() - s.len())] == s[i]);
    }
    assert forall|i: int| 0 <= i < t.len() implies is_hex_digit(#[trigger] t[i]) && lower(t[i])
        == t[i] by {
        assert(b[i + (b.len() - t.len())] == t[i]);
    }
    lemma_value_of_stripped(a);
    lemma_value_of_stripped(b);
    lemma_same_padded(s, t, 8);
    lemma_strip_pad(s, 8);
    lemma_strip_pad(t, 8);
}

/// Two addresses have one key exactly where they are one: the numbers of domain, bus, device and
/// function are the same in both, however they are spelled.
pub proof fn law_one_key_per_address(a: Seq<char>, b: Seq<char>)
    requires
        normalized(a) is Some,
        normalized(b) is Some,
    ensures
        ({
            let p = pci_parts(a)->0;
            let q = pci_parts(b)->0;
            normalized(a) == normalized(b) <==> {
                &&& hex_value(p.domain) == hex_value(q.domain)
                &&& hex_value(p.bus) == hex_value(q.bus)
                &&& hex_value(p.dev) == hex_value(q.dev)
                &&& hex_value(p.func) == hex_value(q.func)
            }
        }),
{
    let p = pci_parts(a)->0;
    let q = pci_parts(b)->0;
    lemma_parts_ok(a);
    lemma_parts_ok(b);
    if normalized(a) == normalized(b) {
        law_distinct_devices_stay_distinct(a, b);
    } else if hex_value(p.domain) == hex_value(q.domain) && hex_value(p.bus) == hex_value(q.bus)
        && hex_value(p.dev) == hex_value(q.dev) && hex_value(p.func) == hex_value(q.func) {
        lemma_same_stripped(p.domain, q.domain);
        lemma_same_padded(p.bus, q.bus, 2);
        lemma_same_padded(p.dev, q.dev, 2);
        lemma_same_digits(p.func, q.func);
    }
}

/// An identity whose part before the first colon is not hexadecimal (`mock:`, `wddm:`, `apple:`,
/// `nvml:`) is no PCI address.
pub proof fn law_synthetic_ids_are_refused(prefix: Seq<char>, rest: Seq<char>)
    requires
        !prefix.contains(':'),
        !all_hex(prefix),
    ensures
        normalized(prefix + seq![':'] + rest) is None,
{
    let id = prefix + seq![':'] + rest;
    let low = ascii_lower(id);
    let p = ascii_lower(prefix);
    assert(low =~= p + seq![':'] + ascii_lower(rest));
    assert(!p.contains(':')) by {
        if p.contains(':') {
            let i = choose|i: int| 0 <= i < p.len() && p[i] == ':';
            assert(lower(prefix[i]) == ':');
            assert(prefix[i] == ':');
        }
    }
    lemma_split_joined(p, ':', ascii_lower(rest));
    let k = choose|k: int| 0 <= k < prefix.len() && !is_hex_digit(#[trigger] prefix[k]);
    assert(p[k] == lower(prefix[k]));
    assert(!is_hex_digit(p[k]));
}

} // verus!
