//! The system's GPU counters: what their statuses mean, how their instances are named, and what
//! their readings add up to.
//!
//! A counter that is not there, or not yet, is a normal state of a machine, and no error.

use vstd::prelude::*;
use crate::lists::join;
use crate::model::text_view;
use crate::scan::{after_prefix, slices, split_on, uint_value};
use crate::scan::{parse_u32, parse_uint, split, strip_prefix};
use crate::scan::law_hexadecimals_read_back;
use crate::text::{hex, hex_char};
use crate::text::{chars_of, is_text, push_chars};

verus! {

/// Success; also the status of a valid item.
pub const PDH_OK: u32 = 0;

/// A valid item of an instance that is new.
pub const PDH_CSTATUS_NEW_DATA: u32 = 0x1;

/// There are no counters of this kind, as on a machine without a GPU.
pub const PDH_CSTATUS_NO_OBJECT: u32 = 0xC000_0BB8;

/// There are counters of this kind, but not this one.
pub const PDH_CSTATUS_NO_COUNTER: u32 = 0xC000_0BB9;

/// An item without a valid value, as in the first sample.
pub const PDH_CSTATUS_INVALID_DATA: u32 = 0xC000_0BBA;

/// No instances now.
pub const PDH_CSTATUS_NO_INSTANCE: u32 = 0x8000_07D1;

/// The buffer is too small: to be called again with a larger one.
pub const PDH_MORE_DATA: u32 = 0x8000_07D2;

/// No data yet.
pub const PDH_NO_DATA: u32 = 0x8000_07D5;

/// No valid data, as in the first sample.
pub const PDH_INVALID_DATA: u32 = 0xC000_0BC6;

/// The provider did not answer in time. It may answer at the next tick.
pub const PDH_QUERY_PERF_DATA_TIMEOUT: u32 = 0xC000_0BFE;

/// The statuses of what is not there, or not yet.
pub open spec fn is_absence(status: u32) -> bool {
    ||| status == PDH_CSTATUS_NO_OBJECT
    ||| status == PDH_CSTATUS_NO_COUNTER
    ||| status == PDH_CSTATUS_NO_INSTANCE
    ||| status == PDH_NO_DATA
    ||| status == PDH_CSTATUS_INVALID_DATA
    ||| status == PDH_INVALID_DATA
    ||| status == PDH_QUERY_PERF_DATA_TIMEOUT
}

/// Does the status only say that something is not there, or not yet?
pub fn status_is_normal_absence(status: u32) -> (r: bool)
    ensures
        r == is_absence(status),
{
    status == PDH_CSTATUS_NO_OBJECT || status == PDH_CSTATUS_NO_COUNTER || status
        == PDH_CSTATUS_NO_INSTANCE || status == PDH_NO_DATA || status == PDH_CSTATUS_INVALID_DATA
        || status == PDH_INVALID_DATA || status == PDH_QUERY_PERF_DATA_TIMEOUT
}

/// Is the value of an item with this status to be trusted? If not, the item is missing at this
/// tick, and no other is.
pub fn item_value_is_trustworthy(cstatus: u32) -> (r: bool)
    ensures
        r == (cstatus == PDH_OK || cstatus == PDH_CSTATUS_NEW_DATA),
{
    cstatus == PDH_OK || cstatus == PDH_CSTATUS_NEW_DATA
}

/// The two numbers of an adapter in an instance name, as they stand there. Which of them is the
/// high one is not documented.
#[derive(Clone, Copy, Debug, PartialEq, Eq, Structural)]
pub struct InstanceLuid(pub u32, pub u32);

/// The bits of a number.
pub open spec fn bits_of(n: i32) -> u32 {
    if n >= 0 {
        n as u32
    } else {
        (n + 0x1_0000_0000) as u32
    }
}

impl InstanceLuid {
    /// Both numbers are the adapter's, in either order.
    pub open spec fn is_of(self, high: i32, low: u32) -> bool {
        ||| self.0 == bits_of(high) && self.1 == low
        ||| self.1 == bits_of(high) && self.0 == low
    }

    pub fn matches(&self, high: i32, low: u32) -> (r: bool)
        ensures
            r == self.is_of(high, low),
    {
        let h: u32 = if high >= 0 {
            high as u32
        } else {
            (high as i64 + 0x1_0000_0000) as u32
        };
        (self.0 == h && self.1 == low) || (self.1 == h && self.0 == low)
    }
}

/// A parsed instance name. Which fields it has depends on the counter.
#[derive(Debug, PartialEq)]
pub struct ParsedInstance {
    pub pid: Option<u32>,
    pub luid: Option<InstanceLuid>,
    pub phys: Option<u32>,
    pub part: Option<u32>,
    pub eng: Option<u32>,
    /// The name of the engine's type. Drivers may have any.
    pub engtype: Option<String>,
}

#[verifier::ext_equal]
pub struct InstanceView {
    pub pid: Option<u32>,
    pub luid: Option<InstanceLuid>,
    pub phys: Option<u32>,
    pub part: Option<u32>,
    pub eng: Option<u32>,
    pub engtype: Option<Seq<char>>,
}

impl View for ParsedInstance {
    type V = InstanceView;

    open spec fn view(&self) -> InstanceView {
        InstanceView {
            pid: self.pid,
            luid: self.luid,
            phys: self.phys,
            part: self.part,
            eng: self.eng,
            engtype: text_view(self.engtype),
        }
    }
}

/// An instance without a field.
pub open spec fn no_instance() -> InstanceView {
    InstanceView { pid: None, luid: None, phys: None, part: None, eng: None, engtype: None }
}

impl Default for ParsedInstance {
    fn default() -> (r: Self)
        ensures
            r@ == no_instance(),
    {
        ParsedInstance { pid: None, luid: None, phys: None, part: None, eng: None, engtype: None }
    }
}

/// A decimal number.
pub open spec fn decimal(tok: Seq<char>) -> Option<u32> {
    match uint_value(tok, 10, u32::MAX as nat) {
        Some(n) => Some(n as u32),
        None => None,
    }
}

/// A hexadecimal number of at most eight digits, which has to have its prefix.
pub open spec fn hex_dword(tok: Seq<char>) -> Option<u32> {
    let digits = match after_prefix(tok, "0x"@) {
        Some(d) => Some(d),
        None => after_prefix(tok, "0X"@),
    };
    match digits {
        Some(d) => if d.len() == 0 || d.len() > 8 {
            None
        } else {
            match uint_value(d, 16, u32::MAX as nat) {
                Some(n) => Some(n as u32),
                None => None,
            }
        },
        None => None,
    }
}

fn parse_hex_dword(tok: &[char]) -> (r: Option<u32>)
    ensures
        r == hex_dword(tok@),
{
    let digits = match strip_prefix(tok, "0x") {
        Some(d) => d,
        None => match strip_prefix(tok, "0X") {
            Some(d) => d,
            None => {
                return None;
            },
        },
    };
    if digits.len() == 0 || digits.len() > 8 {
        return None;
    }
    match parse_uint(digits, 16, u32::MAX as u64) {
        Some(n) => Some(n as u32),
        None => None,
    }
}

/// What the tokens of a name add to `out`: each keyword is followed by its value or values, and
/// the type of an engine takes up the rest. `None` where a token is no keyword, or no value where
/// there has to be one.
pub open spec fn parsed(toks: Seq<Seq<char>>, out: InstanceView) -> Option<InstanceView>
    decreases toks.len(),
{
    if toks.len() == 0 {
        Some(out)
    } else if toks[0] == "engtype"@ {
        let rest = join(toks.skip(1), "_"@);
        if rest.len() == 0 {
            None
        } else {
            Some(InstanceView { engtype: Some(rest), ..out })
        }
    } else if toks.len() == 1 {
        None
    } else if toks[0] == "luid"@ {
        if toks.len() == 2 {
            None
        } else {
            match (hex_dword(toks[1]), hex_dword(toks[2])) {
                (Some(a), Some(b)) => parsed(
                    toks.skip(3),
                    InstanceView { luid: Some(InstanceLuid(a, b)), ..out },
                ),
                _ => None,
            }
        }
    } else {
        match decimal(toks[1]) {
            Some(n) => if toks[0] == "pid"@ {
                parsed(toks.skip(2), InstanceView { pid: Some(n), ..out })
            } else if toks[0] == "phys"@ {
                parsed(toks.skip(2), InstanceView { phys: Some(n), ..out })
            } else if toks[0] == "part"@ {
                parsed(toks.skip(2), InstanceView { part: Some(n), ..out })
            } else if toks[0] == "eng"@ {
                parsed(toks.skip(2), InstanceView { eng: Some(n), ..out })
            } else {
                None
            },
            None => None,
        }
    }
}

/// The instance that a name is of; `None` for every other name.
pub open spec fn instance_of(name: Seq<char>) -> Option<InstanceView> {
    parsed(split_on(name, '_'), no_instance())
}

/// The view of an optional instance.
pub open spec fn instance_view(p: Option<ParsedInstance>) -> Option<InstanceView> {
    match p {
        Some(i) => Some(i@),
        None => None,
    }
}

/// The tokens from `i` on, with the separators between them.
fn rest_of(toks: &Vec<&[char]>, i: usize) -> (r: String)
    requires
        i <= toks@.len(),
    ensures
        r@ == join(slices(toks@).skip(i as int), "_"@),
{
    let ghost parts = slices(toks@).skip(i as int);
    let mut out: String = String::new();
    let mut k: usize = i;
    assert(parts.take(0) =~= Seq::empty());
    while k < toks.len()
        invariant
            i <= k <= toks.len(),
            parts == slices(toks@).skip(i as int),
            out@ == join(parts.take(k - i), "_"@),
        decreases toks.len() - k,
    {
        proof {
            let n = k - i;
            assert(parts.take(n + 1).drop_last() =~= parts.take(n));
            assert(parts.take(n + 1).last() == toks@[k as int]@);
        }
        if k > i {
            out.append("_");
        }
        push_chars(&mut out, toks[k]);
        assert(out@ =~= join(parts.take(k + 1 - i), "_"@)) by {
            if k == i {
                assert(join(parts.take(0), "_"@) =~= Seq::empty());
            }
        }
        k = k + 1;
    }
    assert(parts.take(k - i) =~= parts);
    out
}

/// Parses an instance name (`pid_1234_luid_0x00000000_0x0000C739_phys_0_eng_3_engtype_3D`). Names
/// go by keyword, not by place.
#[verifier::rlimit(40)]
pub fn parse_instance(name: &str) -> (r: Option<ParsedInstance>)
    ensures
        instance_view(r) == instance_of(name@),
{
    let chars: Vec<char> = chars_of(name);
    let toks = split(chars.as_slice(), '_');
    let ghost all = slices(toks@);
    let mut out: ParsedInstance = ParsedInstance::default();
    let mut i: usize = 0;
    assert(all.skip(0) =~= all);
    while i < toks.len()
        invariant
            i <= toks.len(),
            all == slices(toks@),
            all == split_on(name@, '_'),
            out.engtype is None,
            parsed(all.skip(i as int), out@) == instance_of(name@),
        decreases toks.len() - i,
    {
        let tok = toks[i];
        let ghost rest = all.skip(i as int);
        let ghost before = out@;
        assert(rest[0] == tok@);
        assert(rest.len() == toks@.len() - i);
        if is_text(tok, "engtype") {
            let engtype: String = rest_of(&toks, i + 1);
            assert(rest.skip(1) =~= all.skip(i + 1));
            let n: usize = engtype.as_str().unicode_len();
            if n == 0 {
                return None;
            }
            out.engtype = Some(engtype);
            assert(out@ =~= InstanceView { engtype: Some(engtype@), ..before });
            return Some(out);
        }
        if toks.len() - i == 1 {
            return None;
        }
        assert(rest[1] == toks@[i + 1]@);
        if is_text(tok, "luid") {
            if toks.len() - i == 2 {
                return None;
            }
            assert(rest[2] == toks@[i + 2]@);
            let a: u32 = match parse_hex_dword(toks[i + 1]) {
                Some(a) => a,
                None => {
                    return None;
                },
            };
            let b: u32 = match parse_hex_dword(toks[i + 2]) {
                Some(b) => b,
                None => {
                    return None;
                },
            };
            out.luid = Some(InstanceLuid(a, b));
            assert(out@ =~= InstanceView { luid: Some(InstanceLuid(a, b)), ..before });
            assert(rest.skip(3) =~= all.skip(i + 3));
            i = i + 3;
        } else {
            let n: u32 = match parse_u32(toks[i + 1]) {
                Some(n) => n,
                None => {
                    return None;
                },
            };
            assert(rest.skip(2) =~= all.skip(i + 2));
            if is_text(tok, "pid") {
                out.pid = Some(n);
                assert(out@ =~= InstanceView { pid: Some(n), ..before });
            } else if is_text(tok, "phys") {
                out.phys = Some(n);
                assert(out@ =~= InstanceView { phys: Some(n), ..before });
            } else if is_text(tok, "part") {
                out.part = Some(n);
                assert(out@ =~= InstanceView { part: Some(n), ..before });
            } else if is_text(tok, "eng") {
                out.eng = Some(n);
                assert(out@ =~= InstanceView { eng: Some(n), ..before });
            } else {
                return None;
            }
            i = i + 2;
        }
    }
    Some(out)
}

proof fn lemma_parsed_has_a_field(toks: Seq<Seq<char>>, out: InstanceView)
    requires
        toks.len() > 0 || out != no_instance(),
    ensures
        parsed(toks, out) matches Some(p) ==> p != no_instance(),
    decreases toks.len(),
{
    if toks.len() > 2 && toks[0] == "luid"@ && toks[0] != "engtype"@ {
        if let (Some(a), Some(b)) = (hex_dword(toks[1]), hex_dword(toks[2])) {
            lemma_parsed_has_a_field(
                toks.skip(3),
                InstanceView { luid: Some(InstanceLuid(a, b)), ..out },
            );
        }
    } else if toks.len() > 1 && toks[0] != "engtype"@ {
        if let Some(n) = decimal(toks[1]) {
            lemma_parsed_has_a_field(toks.skip(2), InstanceView { pid: Some(n), ..out });
            lemma_parsed_has_a_field(toks.skip(2), InstanceView { phys: Some(n), ..out });
            lemma_parsed_has_a_field(toks.skip(2), InstanceView { part: Some(n), ..out });
            lemma_parsed_has_a_field(toks.skip(2), InstanceView { eng: Some(n), ..out });
        }
    }
}

/// A name that parses says something of its instance.
pub proof fn law_a_parsed_name_says_something(name: Seq<char>)
    ensures
        instance_of(name) matches Some(p) ==> p != no_instance(),
{
    assert(split_on(name, '_').len() > 0);
    lemma_parsed_has_a_field(split_on(name, '_'), no_instance());
}

/// The entries of a list of zero-terminated texts: its longest runs without a zero.
pub open spec fn runs(b: Seq<u16>) -> Seq<Seq<u16>>
    decreases b.len(),
{
    if b.len() == 0 {
        Seq::empty()
    } else {
        let before = runs(b.drop_last());
        if b.last() == 0 {
            before
        } else if b.len() == 1 || b[b.len() - 2] == 0 {
            before.push(seq![b.last()])
        } else {
            before.drop_last().push(before.last().push(b.last()))
        }
    }
}

pub open spec fn unit_views(v: Seq<Vec<u16>>) -> Seq<Seq<u16>> {
    Seq::new(v.len(), |i: int| v[i]@)
}

/// Splits a list of zero-terminated texts into its entries, without their zeros.
pub fn multi_sz_entries(b: &[u16]) -> (out: Vec<Vec<u16>>)
    ensures
        unit_views(out@) == runs(b@),
{
    let mut out: Vec<Vec<u16>> = Vec::new();
    let mut open: Vec<u16> = Vec::new();
    let mut i: usize = 0;
    assert(unit_views(out@) =~= runs(b@.take(0)));
    while i < b.len()
        invariant
            i <= b@.len(),
            open@.len() > 0 <==> i > 0 && b@[i - 1] != 0,
            runs(b@.take(i as int)) == (if open@.len() > 0 {
                unit_views(out@).push(open@)
            } else {
                unit_views(out@)
            }),
        decreases b.len() - i,
    {
        let unit: u16 = b[i];
        let ghost next = b@.take(i + 1);
        let ghost done = unit_views(out@);
        let ghost run = open@;
        proof {
            assert(next.drop_last() =~= b@.take(i as int));
            assert(i > 0 ==> next[i - 1] == b@[i - 1]);
        }
        if unit == 0 {
            if open.len() > 0 {
                out.push(open);
                open = Vec::new();
                assert(unit_views(out@) =~= done.push(run));
            }
        } else {
            open.push(unit);
            proof {
                if run.len() == 0 {
                    assert(open@ =~= seq![unit]);
                } else {
                    assert(done.push(run).drop_last() =~= done);
                }
            }
        }
        i = i + 1;
    }
    assert(b@.take(b@.len() as int) =~= b@);
    if open.len() > 0 {
        let ghost done = unit_views(out@);
        let ghost run = open@;
        out.push(open);
        assert(unit_views(out@) =~= done.push(run));
    }
    out
}

/// A half of an adapter's identity reads in hexadecimal behind its mark of either case, with zeros
/// in front or without, and with eight digits at most.
pub proof fn law_eight_digits_read_behind_their_mark(n: u32, zeros: nat)
    ensures
        ({
            let digits = Seq::new(zeros, |i: int| '0') + hex(n as nat);
            let read = if digits.len() <= 8 {
                Some(n)
            } else {
                None
            };
            &&& hex_dword("0x"@ + digits) == read
            &&& hex_dword("0X"@ + digits) == read
            &&& hex_dword(digits) is None
        }),
{
    let digits = Seq::new(zeros, |i: int| '0') + hex(n as nat);
    reveal_strlit("0x");
    reveal_strlit("0X");
    law_hexadecimals_read_back(n as nat, zeros, u32::MAX as nat);
    let low = "0x"@ + digits;
    let high = "0X"@ + digits;
    assert(low.take(2) =~= "0x"@ && low.skip(2) =~= digits);
    assert(high.take(2) =~= "0X"@ && high.skip(2) =~= digits);
    assert(high.take(2)[1] == 'X' && "0x"@[1] == 'x');
    lemma_no_mark(n as nat, zeros);
    assert(hex(n as nat).len() > 0);
    if digits.len() >= 2 {
        assert(digits.take(2)[1] == digits[1]);
    }
}

proof fn lemma_no_mark(n: nat, zeros: nat)
    ensures
        ({
            let digits = Seq::new(zeros, |i: int| '0') + hex(n);
            forall|i: int| 0 <= i < digits.len() ==> #[trigger] digits[i] != 'x' && digits[i] != 'X'
        }),
    decreases n,
{
    let digits = Seq::new(zeros, |i: int| '0') + hex(n);
    if n >= 16 {
        lemma_no_mark(n / 16, zeros);
        let rest = Seq::new(zeros, |i: int| '0') + hex(n / 16);
        assert(digits =~= rest.push(hex_char((n % 16) as int)));
    }
}

} // verus!
