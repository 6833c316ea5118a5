//! Apple GPUs, at the level of the device: the system does not tell of processes.

use vstd::prelude::*;
use crate::model::DeviceId;
use crate::pci::normalized;
use crate::pci::law_synthetic_ids_are_refused;
use crate::scan::after_prefix;
use crate::scan::strip_prefix;
use crate::text::{is_hex_digit, lower, without_trailing};
use crate::text::{chars_of, lower_char, push_chars, trim_end_char};

pub mod backend;
pub mod parse;

verus! {

/// Why there is no list of processes: it is the system that does not tell of them.
pub const PROCESS_HINT: &'static str = "per-process GPU data is not available on macOS: the OS does not expose it to third-party apps (powermetrics requires root; Activity Monitor uses private plumbing) — device-level metrics only";

/// What has to be said of numbers that come of interfaces that are not documented.
pub const SOURCE_CAVEAT: &'static str = "read via undocumented macOS interfaces (IOKit PerformanceStatistics / IOReport); may break on macOS updates";

/// What has to be said of the memory total: it is a budget, not a capacity.
pub const MEM_TOTAL_CAVEAT: &'static str = "memory total is a unified-memory working-set budget (Metal recommendedMaxWorkingSetSize) — Apple publishes no total-VRAM figure and unified memory has none";

/// What has to be said of the memory total of a device. That unified memory has no total of its own
/// is said only where the device does not say that its memory is not unified.
pub open spec fn memory_caveat(has_unified_memory: Option<bool>) -> Seq<char> {
    if has_unified_memory == Some(false) {
        "memory total is a Metal working-set budget (recommendedMaxWorkingSetSize), not a measured VRAM capacity"@
    } else {
        MEM_TOTAL_CAVEAT@
    }
}

pub fn tier_a_source_caveat(has_unified_memory: Option<bool>) -> (r: &'static str)
    ensures
        r@ == memory_caveat(has_unified_memory),
{
    match has_unified_memory {
        Some(false) => "memory total is a Metal working-set budget (recommendedMaxWorkingSetSize), not a measured VRAM capacity",
        _ => MEM_TOTAL_CAVEAT,
    }
}

/// An ASCII letter or digit.
pub open spec fn is_alphanumeric(c: char) -> bool {
    '0' <= c <= '9' || 'a' <= c <= 'z' || 'A' <= c <= 'Z'
}

/// The letters and digits of a name in lower case, with one dash for what stands between them.
pub open spec fn dashed(name: Seq<char>) -> Seq<char>
    decreases name.len(),
{
    if name.len() == 0 {
        Seq::empty()
    } else {
        let rest = dashed(name.drop_last());
        if is_alphanumeric(name.last()) {
            rest.push(lower(name.last()))
        } else if rest.len() > 0 && rest.last() != '-' {
            rest.push('-')
        } else {
            rest
        }
    }
}

/// The key of a device's name: without a dash at its end, and without the vendor at its start.
pub open spec fn slug(name: Seq<char>) -> Seq<char> {
    let whole = without_trailing(dashed(name), '-');
    let own = match after_prefix(whole, "apple-"@) {
        Some(rest) => rest,
        None => whole,
    };
    if own.len() > 0 {
        own
    } else {
        "unknown"@
    }
}

/// The lasting identity of a device: of its name, as the number that the system gives it changes
/// from boot to boot.
pub fn device_id_for(metal_name: &str) -> (r: DeviceId)
    ensures
        r@ == "apple"@ + seq![':'] + slug(metal_name@),
{
    let name: Vec<char> = chars_of(metal_name);
    let mut out: Vec<char> = Vec::new();
    let mut i: usize = 0;
    assert(name@.take(0) =~= Seq::empty());
    while i < name.len()
        invariant
            i <= name.len(),
            out@ == dashed(name@.take(i as int)),
        decreases name.len() - i,
    {
        assert(name@.take(i + 1).drop_last() =~= name@.take(i as int));
        let c: char = name[i];
        if ('0' <= c && c <= '9') || ('a' <= c && c <= 'z') || ('A' <= c && c <= 'Z') {
            out.push(lower_char(c));
        } else if out.len() > 0 && out[out.len() - 1] != '-' {
            out.push('-');
        }
        i = i + 1;
    }
    assert(name@.take(i as int) =~= name@);
    let whole = trim_end_char(out.as_slice(), '-');
    let own = match strip_prefix(whole, "apple-") {
        Some(rest) => rest,
        None => whole,
    };
    let mut id: String = String::new();
    id.append("apple");
    id.push(':');
    if own.len() > 0 {
        push_chars(&mut id, own);
    } else {
        id.append("unknown");
    }
    assert(id@ =~= "apple"@ + seq![':'] + slug(metal_name@));
    DeviceId(id)
}

/// The identity of an Apple device is no address: it is never taken for another device.
pub proof fn law_apple_identities_are_no_addresses(name: Seq<char>)
    ensures
        normalized("apple"@ + seq![':'] + slug(name)) is None,
{
    reveal_strlit("apple");
    let prefix = "apple"@;
    assert(prefix =~= seq!['a', 'p', 'p', 'l', 'e']);
    assert(!is_hex_digit(prefix[1]));
    law_synthetic_ids_are_refused(prefix, slug(name));
}

/// Small letters, digits and single dashes between them.
pub open spec fn is_plain_key(s: Seq<char>) -> bool {
    &&& s.len() > 0
    &&& s[0] != '-' && s.last() != '-'
    &&& are_plain(s)
}

/// Small letters, digits and single dashes.
pub open spec fn are_plain(s: Seq<char>) -> bool {
    &&& forall|i: int|
        0 <= i < s.len() ==> ({
            let c = #[trigger] s[i];
            '0' <= c <= '9' || 'a' <= c <= 'z' || c == '-'
        })
    &&& forall|i: int| 0 < i < s.len() && #[trigger] s[i] == '-' ==> s[i - 1] != '-'
}

proof fn lemma_dashed_is_plain(name: Seq<char>)
    ensures
        are_plain(dashed(name)),
        dashed(name).len() > 0 ==> dashed(name)[0] != '-',
    decreases name.len(),
{
    if name.len() > 0 {
        lemma_dashed_is_plain(name.drop_last());
    }
}

/// Of a text without two dashes in a row, dropping the dashes at the end drops one at most.
proof fn lemma_without_dash(s: Seq<char>)
    requires
        are_plain(s),
        s.len() > 0 ==> s[0] != '-',
    ensures
        without_trailing(s, '-') == (if s.len() > 0 && s.last() == '-' {
            s.drop_last()
        } else {
            s
        }),
        without_trailing(s, '-').len() > 0 ==> is_plain_key(without_trailing(s, '-')),
{
    if s.len() > 0 && s.last() == '-' {
        let t = s.drop_last();
        assert(s[s.len() - 1] == '-');
        assert(s.len() > 1);
        assert(t.last() == s[s.len() - 2]);
        assert(without_trailing(t, '-') == t);
        assert forall|i: int| 0 <= i < t.len() implies ({
            let c = #[trigger] t[i];
            '0' <= c <= '9' || 'a' <= c <= 'z' || c == '-'
        }) by {
            assert(t[i] == s[i]);
        }
        assert forall|i: int| 0 < i < t.len() && #[trigger] t[i] == '-' implies t[i - 1] != '-' by {
            assert(s[i] == '-');
        }
    }
}

/// The key of a name has small letters, digits and single dashes between them, and is never empty.
pub proof fn law_keys_are_plain(name: Seq<char>)
    ensures
        is_plain_key(slug(name)),
{
    let d = dashed(name);
    let whole = without_trailing(d, '-');
    lemma_dashed_is_plain(name);
    lemma_without_dash(d);
    reveal_strlit("unknown");
    reveal_strlit("apple-");
    assert("unknown"@ =~= seq!['u', 'n', 'k', 'n', 'o', 'w', 'n']);
    if let Some(rest) = after_prefix(whole, "apple-"@) {
        assert(whole.take(6) =~= "apple-"@);
        assert(whole[5] == whole.take(6)[5]);
        assert(whole.last() != '-');
        assert(rest.len() > 0);
        assert(rest[0] == whole[6]);
        assert(rest[0] != '-');
        assert(rest.last() == whole.last());
        assert forall|i: int| 0 <= i < rest.len() implies ({
            let c = #[trigger] rest[i];
            '0' <= c <= '9' || 'a' <= c <= 'z' || c == '-'
        }) by {
            assert(rest[i] == whole[i + 6]);
        }
        assert forall|i: int| 0 < i < rest.len() && #[trigger] rest[i] == '-' implies rest[i - 1]
            != '-' by {
            assert(whole[i + 6] == '-');
        }
    }
}

/// A plain key behind a name stays as it is.
proof fn lemma_dashed_keeps(a: Seq<char>, s: Seq<char>)
    requires
        are_plain(s),
        s.len() > 0 ==> s[0] != '-',
    ensures
        dashed(a + s) == dashed(a) + s,
    decreases s.len(),
{
    if s.len() > 0 {
        let t = s.drop_last();
        let c = s.last();
        assert forall|i: int| 0 <= i < t.len() implies ({
            let x = #[trigger] t[i];
            '0' <= x <= '9' || 'a' <= x <= 'z' || x == '-'
        }) by {
            assert(t[i] == s[i]);
        }
        assert forall|i: int| 0 < i < t.len() && #[trigger] t[i] == '-' implies t[i - 1] != '-' by {
            assert(s[i] == '-');
        }
        lemma_dashed_keeps(a, t);
        assert((a + s).drop_last() =~= a + t);
        assert((a + s).last() == c);
        assert(s[s.len() - 1] == c);
        if c == '-' {
            assert(t.len() > 0);
            assert(t.last() == s[s.len() - 2]);
            assert((dashed(a) + t).last() == t.last());
        }
        assert(dashed(a + s) =~= dashed(a) + s);
    } else {
        assert(a + s =~= a);
        assert(dashed(a) + s =~= dashed(a));
    }
}

/// An identity is its own: made of an identity, it stays the same.
pub proof fn law_identities_are_fixed(name: Seq<char>)
    ensures
        slug("apple"@ + seq![':'] + slug(name)) == slug(name),
{
    let key = slug(name);
    law_keys_are_plain(name);
    reveal_strlit("apple");
    reveal_strlit("apple-");
    assert("apple"@ =~= seq!['a', 'p', 'p', 'l', 'e']);
    assert("apple-"@ =~= seq!['a', 'p', 'p', 'l', 'e', '-']);
    let front = "apple"@ + seq![':'];
    let none = Seq::<char>::empty();
    assert(front.drop_last() =~= "apple"@);
    assert(none + "apple"@ =~= "apple"@);
    lemma_dashed_keeps(none, "apple"@);
    assert(dashed("apple"@) =~= "apple"@);
    assert(dashed(front) =~= "apple-"@);
    lemma_dashed_keeps(front, key);
    let d = dashed(front + key);
    assert(d == "apple-"@ + key);
    assert(d.last() == key.last());
    assert(without_trailing(d, '-') == d);
    assert(d.take(6) =~= "apple-"@);
    assert(d.skip(6) =~= key);
}

/// The key of a key is the key, unless it still starts with the vendor's name.
pub proof fn law_keys_are_fixed(name: Seq<char>)
    requires
        after_prefix(slug(name), "apple-"@) is None,
    ensures
        slug(slug(name)) == slug(name),
{
    let key = slug(name);
    let none = Seq::<char>::empty();
    law_keys_are_plain(name);
    lemma_dashed_keeps(none, key);
    assert(none + key =~= key);
    assert(dashed(none) + key =~= key);
    assert(without_trailing(key, '-') == key);
}

/// A name that is spelled with dashes has, between them, the letters and digits of the name, all of
/// them in their order, and in lower case.
pub proof fn law_a_key_has_the_letters_and_digits_of_its_name(name: Seq<char>)
    ensures
        dashed(name).filter(|c: char| c != '-') == name.filter(
            |c: char| '0' <= c <= '9' || 'a' <= c <= 'z' || 'A' <= c <= 'Z',
        ).map_values(|c: char| lower(c)),
{
    lemma_dashed_letters(
        name,
        |c: char| c != '-',
        |c: char| '0' <= c <= '9' || 'a' <= c <= 'z' || 'A' <= c <= 'Z',
        |c: char| lower(c),
    );
}

proof fn lemma_dashed_letters(
    name: Seq<char>,
    kept: spec_fn(char) -> bool,
    plain: spec_fn(char) -> bool,
    low: spec_fn(char) -> char,
)
    requires
        forall|c: char| #[trigger] kept(c) == (c != '-'),
        forall|c: char| #[trigger] plain(c) == is_alphanumeric(c),
        forall|c: char| #[trigger] low(c) == lower(c),
    ensures
        dashed(name).filter(kept) == name.filter(plain).map_values(low),
    decreases name.len(),
{
    reveal(Seq::filter);
    if name.len() == 0 {
        assert(dashed(name).filter(kept) =~= name.filter(plain).map_values(low));
    } else {
        let c = name.last();
        let before = name.drop_last();
        let rest = dashed(before);
        lemma_dashed_letters(before, kept, plain, low);
        assert(plain(c) == is_alphanumeric(c));
        if is_alphanumeric(c) {
            assert(rest.push(lower(c)).drop_last() =~= rest);
            assert(kept(lower(c)));
            assert(before.filter(plain).push(c).map_values(low) =~= before.filter(plain).map_values(
                low,
            ).push(low(c)));
        } else if rest.len() > 0 && rest.last() != '-' {
            assert(rest.push('-').drop_last() =~= rest);
            assert(!kept('-'));
        }
    }
}

} // verus!
