//! Decoding what Apple's counters tell: channels, residencies, energy and clocks.
//!
//! What is missing, malformed or of a form that is not known decodes to nothing, never to a guess.

use vstd::prelude::*;
use crate::drm::share;
use crate::lists::filter_map;
use crate::lists::{lemma_filter_map_front, lemma_filter_map_step};
use crate::model::MilliPct;
use crate::scan::{after_prefix, end_trimmed, has_part, has_prefix, is_space, line_texts, same_but_case, slices, start_trimmed, trimmed_text, uint_value, without_cr};
use crate::scan::{contains_text, eq_ignore_ascii_case, lines, parse_u64, strip_prefix, trim};
use crate::scan::{law_decimals_read_back, lemma_decimal_digits};
use crate::text::{all_hex, ascii_lower, dec, first_at, hex_char, is_hex_digit, lower, split_at_char};
use crate::text::{lemma_first_at_holds, lemma_split_joined};
use crate::text::{chars_of, is_all_hex, is_text, split_once, text_of};

verus! {

/// A channel of the counters.
#[derive(Debug, PartialEq, Eq)]
pub struct ChannelDesc {
    pub group: String,
    pub subgroup: String,
    pub channel: String,
    pub unit: String,
}

#[verifier::ext_equal]
pub struct ChannelView {
    pub group: Seq<char>,
    pub subgroup: Seq<char>,
    pub channel: Seq<char>,
    pub unit: Seq<char>,
}

impl View for ChannelDesc {
    type V = ChannelView;

    open spec fn view(&self) -> ChannelView {
        ChannelView {
            group: self.group@,
            subgroup: self.subgroup@,
            channel: self.channel@,
            unit: self.unit@,
        }
    }
}

pub open spec fn channel_views(v: Seq<ChannelDesc>) -> Seq<ChannelView> {
    Seq::new(v.len(), |i: int| v[i]@)
}

/// The view of an optional channel.
pub open spec fn channel_view(c: Option<ChannelDesc>) -> Option<ChannelView> {
    match c {
        Some(d) => Some(d@),
        None => None,
    }
}

/// A channel as a line.
pub open spec fn channel_line(c: ChannelView) -> Seq<char> {
    "channel|"@ + (c.group + seq!['|'] + (c.subgroup + seq!['|'] + (c.channel + seq!['|']
        + c.unit)))
}

/// The channel that a line describes.
pub open spec fn channel_of(line: Seq<char>) -> Option<ChannelView> {
    match after_prefix(trimmed_text(line), "channel|"@) {
        Some(rest) => match split_at_char(rest, '|') {
            Some((group, r1)) => match split_at_char(r1, '|') {
                Some((subgroup, r2)) => match split_at_char(r2, '|') {
                    Some((channel, unit)) => Some(
                        ChannelView { group, subgroup, channel, unit },
                    ),
                    None => None,
                },
                None => None,
            },
            None => None,
        },
        None => None,
    }
}

fn channel_on(line: &[char]) -> (r: Option<ChannelDesc>)
    ensures
        channel_view(r) == channel_of(line@),
{
    let rest = match strip_prefix(trim(line), "channel|") {
        Some(r) => r,
        None => {
            return None;
        },
    };
    let (group, r1) = match split_once(rest, '|') {
        Some(p) => p,
        None => {
            return None;
        },
    };
    let (subgroup, r2) = match split_once(r1, '|') {
        Some(p) => p,
        None => {
            return None;
        },
    };
    let (channel, unit) = match split_once(r2, '|') {
        Some(p) => p,
        None => {
            return None;
        },
    };
    Some(
        ChannelDesc {
            group: text_of(group),
            subgroup: text_of(subgroup),
            channel: text_of(channel),
            unit: text_of(unit),
        },
    )
}

impl ChannelDesc {
    pub fn to_line(&self) -> (r: String)
        ensures
            r@ == channel_line(self@),
    {
        let mut out: String = String::new();
        out.append("channel|");
        out.append(self.group.as_str());
        out.push('|');
        out.append(self.subgroup.as_str());
        out.push('|');
        out.append(self.channel.as_str());
        out.push('|');
        out.append(self.unit.as_str());
        assert(out@ =~= channel_line(self@));
        out
    }

    pub fn from_line(line: &str) -> (r: Option<Self>)
        ensures
            channel_view(r) == channel_of(line@),
    {
        let chars: Vec<char> = chars_of(line);
        channel_on(chars.as_slice())
    }
}

proof fn lemma_end_trimmed_stays(a: Seq<char>, b: Seq<char>)
    requires
        end_trimmed(b) == b,
        a.len() > 0,
        !is_space(a.last()),
    ensures
        end_trimmed(a + b) == a + b,
{
    if b.len() > 0 {
        assert((a + b).last() == b.last());
        if is_space(b.last()) {
            lemma_end_trimmed_len(b.drop_last());
        }
    } else {
        assert(a + b =~= a);
    }
}

proof fn lemma_end_trimmed_len(s: Seq<char>)
    ensures
        end_trimmed(s).len() <= s.len(),
    decreases s.len(),
{
    if s.len() > 0 && is_space(s.last()) {
        lemma_end_trimmed_len(s.drop_last());
    }
}

/// A channel that is written as a line reads back as it was. (A separator in its group, subgroup or
/// name, or white space at the end of its unit, does not.)
pub proof fn law_a_channel_reads_back(c: ChannelView)
    requires
        !c.group.contains('|'),
        !c.subgroup.contains('|'),
        !c.channel.contains('|'),
        end_trimmed(c.unit) == c.unit,
    ensures
        channel_of(channel_line(c)) == Some(c),
{
    let line = channel_line(c);
    reveal_strlit("channel|");
    let key = "channel|"@;
    assert(key.len() == 8 && key[0] == 'c' && key[7] == '|');
    let r2 = c.channel + seq!['|'] + c.unit;
    let r1 = c.subgroup + seq!['|'] + r2;
    let rest = c.group + seq!['|'] + r1;
    let head = key + (c.group + seq!['|'] + (c.subgroup + seq!['|'] + (c.channel + seq!['|'])));
    assert(line =~= head + c.unit);
    assert(head.last() == '|');
    assert(line[0] == 'c');
    assert(start_trimmed(line) == line);
    lemma_end_trimmed_stays(head, c.unit);
    assert(trimmed_text(line) == line);
    assert(line =~= key + rest);
    assert(line.take(8) =~= key);
    assert(line.skip(8) =~= rest);
    lemma_split_joined(c.group, '|', r1);
    lemma_split_joined(c.subgroup, '|', r2);
    lemma_split_joined(c.channel, '|', c.unit);
}

/// The channels that the lines of a text describe. Other lines are skipped.
pub fn parse_channels(text: &str) -> (v: Vec<ChannelDesc>)
    ensures
        channel_views(v@) == filter_map(line_texts(text@), |l: Seq<char>| channel_of(l)),
{
    let chars: Vec<char> = chars_of(text);
    let ls = lines(chars.as_slice());
    let ghost views = slices(ls@);
    let ghost rule = |l: Seq<char>| channel_of(l);
    let mut v: Vec<ChannelDesc> = Vec::new();
    let mut i: usize = 0;
    assert(channel_views(v@) =~= filter_map(views.take(0), rule));
    while i < ls.len()
        invariant
            i <= ls.len(),
            views == slices(ls@),
            rule == |l: Seq<char>| channel_of(l),
            channel_views(v@) == filter_map(views.take(i as int), rule),
        decreases ls.len() - i,
    {
        proof {
            lemma_filter_map_step(views, rule, i as int);
            assert(views[i as int] == ls@[i as int]@);
        }
        let ghost before = v@;
        if let Some(c) = channel_on(ls[i]) {
            let ghost cv = c@;
            v.push(c);
            assert(channel_views(v@) =~= channel_views(before).push(cv));
        }
        i = i + 1;
    }
    assert(views.take(i as int) =~= views);
    v
}

/// A line of a dump: that of a channel, or any other.
pub struct DumpLine {
    pub channel: Option<ChannelView>,
    pub other: Seq<char>,
    /// It ends with a carriage return and a line feed, not with a line feed alone.
    pub crlf: bool,
}

/// What stands on it.
pub open spec fn line_body(l: DumpLine) -> Seq<char> {
    match l.channel {
        Some(c) => channel_line(c),
        None => l.other,
    }
}

/// A channel that fits on a line and reads back: no line feed in it, no separator before its unit,
/// and no white space at the end of that. A line that is none does not look like one.
pub open spec fn line_ok(l: DumpLine) -> bool {
    match l.channel {
        Some(c) => {
            &&& !c.group.contains('|') && !c.subgroup.contains('|') && !c.channel.contains('|')
            &&& !c.group.contains('\n') && !c.subgroup.contains('\n')
            &&& !c.channel.contains('\n') && !c.unit.contains('\n')
            &&& end_trimmed(c.unit) == c.unit
        },
        None => {
            &&& !l.other.contains('\n')
            &&& !has_prefix(trimmed_text(l.other), "channel|"@)
        },
    }
}

/// The lines as a text; where the end is open the last one has no line end.
pub open spec fn dump_text(ls: Seq<DumpLine>, open_end: bool) -> Seq<char>
    decreases ls.len(),
{
    if ls.len() == 0 {
        Seq::empty()
    } else if ls.len() == 1 && open_end {
        line_body(ls[0])
    } else if ls[0].crlf {
        line_body(ls[0]).push('\r') + seq!['\n'] + dump_text(ls.skip(1), open_end)
    } else {
        line_body(ls[0]) + seq!['\n'] + dump_text(ls.skip(1), open_end)
    }
}

/// White space behind a text does not count.
proof fn lemma_space_behind(s: Seq<char>, c: char)
    requires
        is_space(c),
    ensures
        trimmed_text(s.push(c)) == trimmed_text(s),
{
    lemma_start_of_pushed(s, c);
    let t = start_trimmed(s);
    if t.len() > 0 {
        assert(t.push(c).drop_last() =~= t);
        assert(t.push(c).last() == c);
    }
}

proof fn lemma_start_of_pushed(s: Seq<char>, c: char)
    requires
        is_space(c),
    ensures
        start_trimmed(s.push(c)) == (if start_trimmed(s).len() > 0 {
            start_trimmed(s).push(c)
        } else {
            Seq::empty()
        }),
    decreases s.len(),
{
    if s.len() > 0 && is_space(s[0]) {
        assert(s.push(c).skip(1) =~= s.skip(1).push(c));
        lemma_start_of_pushed(s.skip(1), c);
    } else if s.len() == 0 {
        assert(s.push(c).skip(1) =~= s);
        assert(start_trimmed(s) =~= Seq::empty());
    }
}

proof fn lemma_line_body(l: DumpLine)
    requires
        line_ok(l),
    ensures
        !line_body(l).contains('\n'),
        channel_of(line_body(l)) == l.channel,
        channel_of(without_cr(line_body(l))) == l.channel,
{
    if l.channel is None && without_cr(l.other) != l.other {
        lemma_space_behind(l.other.drop_last(), l.other.last());
        assert(l.other.drop_last().push(l.other.last()) =~= l.other);
    }
    if let Some(c) = l.channel {
        law_a_channel_reads_back(c);
        reveal_strlit("channel|");
        let key = "channel|"@;
        let line = line_body(l);
        assert(key =~= seq!['c', 'h', 'a', 'n', 'n', 'e', 'l', '|']);
        let head = key + (c.group + seq!['|'] + (c.subgroup + seq!['|'] + (c.channel + seq![
            '|',
        ])));
        assert(line =~= head + c.unit);
        if c.unit.len() > 0 {
            assert(line.last() == c.unit.last());
            if is_space(c.unit.last()) {
                lemma_end_trimmed_len(c.unit.drop_last());
            }
        } else {
            assert(line.last() == head.last());
        }
        lemma_no_feed(c.channel + seq!['|'], c.unit);
        lemma_no_feed(c.channel, seq!['|']);
        assert(c.channel + seq!['|'] + c.unit =~= c.channel + (seq!['|'] + c.unit));
        let r2 = c.channel + seq!['|'] + c.unit;
        lemma_no_feed(c.subgroup, seq!['|']);
        lemma_no_feed(c.subgroup + seq!['|'], r2);
        let r1 = c.subgroup + seq!['|'] + r2;
        lemma_no_feed(c.group, seq!['|']);
        lemma_no_feed(c.group + seq!['|'], r1);
        lemma_no_feed(key, c.group + seq!['|'] + r1);
    }
}

proof fn lemma_no_feed(a: Seq<char>, b: Seq<char>)
    requires
        !a.contains('\n'),
        !b.contains('\n'),
    ensures
        !(a + b).contains('\n'),
{
    if (a + b).contains('\n') {
        let i = choose|i: int| 0 <= i < (a + b).len() && (a + b)[i] == '\n';
        if i < a.len() {
            assert(a[i] == '\n');
        } else {
            assert(b[i - a.len()] == '\n');
        }
    }
}

/// A whole dump of channels reads back: its channels in their order, and nothing of the lines
/// between them.
pub proof fn law_a_dump_reads_back(ls: Seq<DumpLine>, open_end: bool)
    requires
        forall|i: int| 0 <= i < ls.len() ==> line_ok(#[trigger] ls[i]),
    ensures
        filter_map(line_texts(dump_text(ls, open_end)), |l: Seq<char>| channel_of(l))
            == filter_map(ls, |l: DumpLine| l.channel),
    decreases ls.len(),
{
    let rule = |l: Seq<char>| channel_of(l);
    let own = |l: DumpLine| l.channel;
    if ls.len() > 0 {
        let l = ls[0];
        let more = ls.skip(1);
        let body = line_body(l);
        let text = dump_text(ls, open_end);
        assert(line_ok(l));
        lemma_line_body(l);
        assert(ls =~= seq![l] + more);
        lemma_filter_map_front(l, more, own);
        if ls.len() == 1 && open_end {
            assert(more =~= Seq::empty());
            assert(filter_map(more, own) == Seq::<ChannelView>::empty());
            if body.len() > 0 {
                lemma_first_at_holds(body, '\n');
                if split_at_char(body, '\n') is Some {
                    assert(body[first_at(body, '\n') as int] == '\n');
                }
                assert(line_texts(body) =~= seq![body] + Seq::empty());
                lemma_filter_map_front(body, Seq::empty(), rule);
                assert(filter_map(Seq::<Seq<char>>::empty(), rule) == Seq::<ChannelView>::empty());
            } else {
                assert(l.channel is None) by {
                    if let Some(c) = l.channel {
                        reveal_strlit("channel|");
                        assert(body.len() >= 8);
                    }
                }
            }
        } else {
            assert forall|i: int| 0 <= i < more.len() implies line_ok(#[trigger] more[i]) by {
                assert(more[i] == ls[i + 1]);
            }
            law_a_dump_reads_back(more, open_end);
            let rest = dump_text(more, open_end);
            let whole = if l.crlf {
                body.push('\r')
            } else {
                body
            };
            lemma_no_feed(body, seq!['\r']);
            assert(body.push('\r') =~= body + seq!['\r']);
            lemma_split_joined(whole, '\n', rest);
            assert(body.push('\r').drop_last() =~= body);
            let line = without_cr(whole);
            assert(channel_of(line) == l.channel);
            assert(line_texts(text) == seq![line] + line_texts(rest));
            lemma_filter_map_front(line, line_texts(rest), rule);
        }
    }
}

/// How long a state was held, in ticks.
#[derive(Debug, PartialEq, Eq)]
pub struct Residency {
    pub name: String,
    pub ticks: u64,
}

#[verifier::ext_equal]
pub struct ResidencyView {
    pub name: Seq<char>,
    pub ticks: u64,
}

impl View for Residency {
    type V = ResidencyView;

    open spec fn view(&self) -> ResidencyView {
        ResidencyView { name: self.name@, ticks: self.ticks }
    }
}

pub open spec fn residency_views(v: Seq<Residency>) -> Seq<ResidencyView> {
    Seq::new(v.len(), |i: int| v[i]@)
}

/// The residency that a line describes (`state|P1|1200`).
pub open spec fn state_of(line: Seq<char>) -> Option<ResidencyView> {
    match after_prefix(trimmed_text(line), "state|"@) {
        Some(rest) => match split_at_char(rest, '|') {
            Some((name, ticks)) => match uint_value(trimmed_text(ticks), 10, u64::MAX as nat) {
                Some(n) => Some(ResidencyView { name, ticks: n as u64 }),
                None => None,
            },
            None => None,
        },
        None => None,
    }
}

/// The view of an optional residency.
pub open spec fn residency_view(s: Option<Residency>) -> Option<ResidencyView> {
    match s {
        Some(r) => Some(r@),
        None => None,
    }
}

fn state_on(line: &[char]) -> (r: Option<Residency>)
    ensures
        residency_view(r) == state_of(line@),
{
    let rest = match strip_prefix(trim(line), "state|") {
        Some(r) => r,
        None => {
            return None;
        },
    };
    let (name, ticks) = match split_once(rest, '|') {
        Some(p) => p,
        None => {
            return None;
        },
    };
    match parse_u64(trim(ticks)) {
        Some(n) => Some(Residency { name: text_of(name), ticks: n }),
        None => None,
    }
}

/// The residencies that the lines of a text describe. Other lines are skipped.
pub fn parse_states(text: &str) -> (v: Vec<Residency>)
    ensures
        residency_views(v@) == filter_map(line_texts(text@), |l: Seq<char>| state_of(l)),
{
    let chars: Vec<char> = chars_of(text);
    let ls = lines(chars.as_slice());
    let ghost views = slices(ls@);
    let ghost rule = |l: Seq<char>| state_of(l);
    let mut v: Vec<Residency> = Vec::new();
    let mut i: usize = 0;
    assert(residency_views(v@) =~= filter_map(views.take(0), rule));
    while i < ls.len()
        invariant
            i <= ls.len(),
            views == slices(ls@),
            rule == |l: Seq<char>| state_of(l),
            residency_views(v@) == filter_map(views.take(i as int), rule),
        decreases ls.len() - i,
    {
        proof {
            lemma_filter_map_step(views, rule, i as int);
            assert(views[i as int] == ls@[i as int]@);
        }
        let ghost before = v@;
        if let Some(s) = state_on(ls[i]) {
            let ghost sv = s@;
            v.push(s);
            assert(residency_views(v@) =~= residency_views(before).push(sv));
        }
        i = i + 1;
    }
    assert(views.take(i as int) =~= views);
    v
}

/// The characters of a text that are no white space.
pub open spec fn without_space(s: Seq<char>) -> Seq<char>
    decreases s.len(),
{
    if s.len() == 0 {
        Seq::empty()
    } else if is_space(s.last()) {
        without_space(s.drop_last())
    } else {
        without_space(s.drop_last()).push(s.last())
    }
}

/// A line without its comment.
pub open spec fn uncommented(line: Seq<char>) -> Seq<char> {
    match split_at_char(line, '#') {
        Some((data, _)) => data,
        None => line,
    }
}

/// What the lines hold besides comments and white space.
pub open spec fn dump_chars(ls: Seq<Seq<char>>) -> Seq<char>
    decreases ls.len(),
{
    if ls.len() == 0 {
        Seq::empty()
    } else {
        dump_chars(ls.drop_last()) + without_space(uncommented(ls.last()))
    }
}

/// The byte of two hexadecimal digits.
pub open spec fn byte_at(digits: Seq<char>, i: int) -> u8 {
    (crate::pci::hex_digit_value(digits[2 * i]) * 16 + crate::pci::hex_digit_value(
        digits[2 * i + 1],
    )) as u8
}

/// The bytes of a dump; `None` where something in it is no digit, or a digit has no other.
pub open spec fn dump_bytes(digits: Seq<char>) -> Option<Seq<u8>> {
    if digits.len() % 2 == 0 && all_hex(digits) {
        Some(Seq::new(digits.len() / 2, |i: int| byte_at(digits, i)))
    } else {
        None
    }
}

fn digit(c: char) -> (r: u8)
    requires
        crate::text::is_hex_digit(c),
    ensures
        r == crate::pci::hex_digit_value(c),
        r < 16,
{
    if '0' <= c && c <= '9' {
        c as u8 - 48
    } else if 'a' <= c && c <= 'f' {
        c as u8 - 87
    } else {
        c as u8 - 55
    }
}

fn push_without_space(out: &mut Vec<char>, s: &[char])
    ensures
        final(out)@ == old(out)@ + without_space(s@),
{
    let mut i: usize = 0;
    assert(s@.take(0) =~= Seq::empty());
    assert(out@ =~= old(out)@ + without_space(s@.take(0)));
    while i < s.len()
        invariant
            i <= s.len(),
            out@ == old(out)@ + without_space(s@.take(i as int)),
        decreases s.len() - i,
    {
        assert(s@.take(i + 1).drop_last() =~= s@.take(i as int));
        let c: char = s[i];
        if !crate::scan::space(c) {
            out.push(c);
        }
        assert(out@ =~= old(out)@ + without_space(s@.take(i + 1)));
        i = i + 1;
    }
    assert(s@.take(i as int) =~= s@);
}

/// The bytes of a hexadecimal dump with white space and comments.
pub fn parse_hex(text: &str) -> (r: Option<Vec<u8>>)
    ensures
        match r {
            Some(v) => dump_bytes(dump_chars(line_texts(text@))) == Some(v@),
            None => dump_bytes(dump_chars(line_texts(text@))) is None,
        },
{
    let chars: Vec<char> = chars_of(text);
    let ls = lines(chars.as_slice());
    let ghost views = slices(ls@);
    let mut digits: Vec<char> = Vec::new();
    let mut i: usize = 0;
    assert(views.take(0) =~= Seq::empty());
    while i < ls.len()
        invariant
            i <= ls.len(),
            views == slices(ls@),
            digits@ == dump_chars(views.take(i as int)),
        decreases ls.len() - i,
    {
        proof {
            assert(views.take(i + 1).drop_last() =~= views.take(i as int));
            assert(views.take(i + 1).last() == ls@[i as int]@);
        }
        let data = match split_once(ls[i], '#') {
            Some((data, _)) => data,
            None => ls[i],
        };
        push_without_space(&mut digits, data);
        i = i + 1;
    }
    assert(views.take(i as int) =~= views);
    if digits.len() % 2 != 0 || !is_all_hex(digits.as_slice()) {
        return None;
    }
    let ghost want = Seq::new(digits@.len() / 2, |i: int| byte_at(digits@, i));
    let mut v: Vec<u8> = Vec::new();
    let n: usize = digits.len() / 2;
    let mut k: usize = 0;
    while k < n
        invariant
            k <= n,
            2 * n == digits.len(),
            all_hex(digits@),
            want == Seq::new(digits@.len() / 2, |i: int| byte_at(digits@, i)),
            v@ == want.take(k as int),
        decreases n - k,
    {
        let a: char = digits[2 * k];
        let b: char = digits[2 * k + 1];
        let byte: u8 = digit(a) * 16 + digit(b);
        assert(byte == byte_at(digits@, k as int));
        v.push(byte);
        assert(want.take(k + 1) =~= want.take(k as int).push(byte));
        k = k + 1;
    }
    assert(want.take(k as int) =~= want);
    assert(digits@.len() % 2 == 0);
    Some(v)
}

/// The channel of the GPU's energy. Its name may have something in front, as where a device has
/// several dies.
pub open spec fn is_energy(c: ChannelView) -> bool {
    c.group == "Energy Model"@ && has_part(c.channel, "GPU Energy"@)
}

pub fn is_gpu_energy_channel(c: &ChannelDesc) -> (r: bool)
    ensures
        r == is_energy(c@),
{
    let group: Vec<char> = chars_of(c.group.as_str());
    let channel: Vec<char> = chars_of(c.channel.as_str());
    is_text(group.as_slice(), "Energy Model") && contains_text(channel.as_slice(), "GPU Energy")
}

/// The channel of the GPU's performance states.
pub open spec fn is_perf_states(c: ChannelView) -> bool {
    c.group == "GPU Stats"@ && c.subgroup == "GPU Performance States"@ && has_part(
        c.channel,
        "GPUPH"@,
    )
}

pub fn is_gpu_perf_states_channel(c: &ChannelDesc) -> (r: bool)
    ensures
        r == is_perf_states(c@),
{
    let group: Vec<char> = chars_of(c.group.as_str());
    let subgroup: Vec<char> = chars_of(c.subgroup.as_str());
    let channel: Vec<char> = chars_of(c.channel.as_str());
    is_text(group.as_slice(), "GPU Stats") && is_text(
        subgroup.as_slice(),
        "GPU Performance States",
    ) && contains_text(channel.as_slice(), "GPUPH")
}

/// The unit of an energy channel. It differs from chip to chip, so the channel's own label decides.
#[derive(Clone, Copy, Debug, PartialEq, Eq, Structural)]
pub enum EnergyUnit {
    Millijoules,
    Microjoules,
    Nanojoules,
}

/// The unit of a label; `None` for a label that is not known.
pub open spec fn unit_of(label: Seq<char>) -> Option<EnergyUnit> {
    let t = trimmed_text(label);
    if t == "mJ"@ {
        Some(EnergyUnit::Millijoules)
    } else if t == "uJ"@ || t == "µJ"@ {
        Some(EnergyUnit::Microjoules)
    } else if t == "nJ"@ {
        Some(EnergyUnit::Nanojoules)
    } else {
        None
    }
}

pub fn energy_unit(label: &str) -> (r: Option<EnergyUnit>)
    ensures
        r == unit_of(label@),
{
    let chars: Vec<char> = chars_of(label);
    let t = trim(chars.as_slice());
    if is_text(t, "mJ") {
        Some(EnergyUnit::Millijoules)
    } else if is_text(t, "uJ") || is_text(t, "µJ") {
        Some(EnergyUnit::Microjoules)
    } else if is_text(t, "nJ") {
        Some(EnergyUnit::Nanojoules)
    } else {
        None
    }
}

impl EnergyUnit {
    /// How many of the unit make up a joule.
    pub open spec fn per_joule(self) -> nat {
        match self {
            EnergyUnit::Millijoules => 1_000,
            EnergyUnit::Microjoules => 1_000_000,
            EnergyUnit::Nanojoules => 1_000_000_000,
        }
    }
}

/// `num / den`, rounded to the nearest integer; a tie goes up.
pub open spec fn round_half_up(num: nat, den: nat) -> nat {
    (2 * num + den) / (2 * den)
}

/// The power of an energy over an interval, in whole milliwatts, and no more than fit. An interval
/// without length has none.
pub open spec fn power_of(delta_energy: u64, unit: EnergyUnit, dt_ms: u64) -> Option<u32> {
    if dt_ms == 0 {
        None
    } else {
        let mw = round_half_up(
            delta_energy as nat * 1_000_000,
            dt_ms as nat * unit.per_joule(),
        );
        if mw > u32::MAX {
            Some(u32::MAX)
        } else {
            Some(mw as u32)
        }
    }
}

pub fn power_mw_from_energy(delta_energy: u64, unit: EnergyUnit, dt_ms: u64) -> (r: Option<u32>)
    ensures
        r == power_of(delta_energy, unit, dt_ms),
{
    if dt_ms == 0 {
        return None;
    }
    let per_joule: u128 = match unit {
        EnergyUnit::Millijoules => 1_000,
        EnergyUnit::Microjoules => 1_000_000,
        EnergyUnit::Nanojoules => 1_000_000_000,
    };
    assert(dt_ms as u128 * per_joule <= u64::MAX * 1_000_000_000) by (nonlinear_arith)
        requires
            per_joule <= 1_000_000_000,
            dt_ms <= u64::MAX,
    ;
    assert(dt_ms as u128 * per_joule > 0) by (nonlinear_arith)
        requires
            per_joule > 0,
            dt_ms > 0,
    ;
    let den: u128 = dt_ms as u128 * per_joule;
    let num: u128 = delta_energy as u128 * 1_000_000;
    let mw: u128 = (2 * num + den) / (2 * den);
    if mw > u32::MAX as u128 {
        Some(u32::MAX)
    } else {
        Some(mw as u32)
    }
}

/// A state in which the GPU does nothing. A name that is not known is one of activity: to make up
/// idleness is the worse fault.
pub open spec fn is_idle(name: Seq<char>) -> bool {
    same_but_case(trimmed_text(name), "off"@) || has_prefix(
        ascii_lower(trimmed_text(name)),
        "idle"@,
    )
}

pub fn is_idle_state(name: &str) -> (r: bool)
    ensures
        r == is_idle(name@),
{
    let chars: Vec<char> = chars_of(name);
    let t = trim(chars.as_slice());
    let off: Vec<char> = chars_of("off");
    if eq_ignore_ascii_case(t, off.as_slice()) {
        return true;
    }
    let low: String = crate::drm::lower_text(t);
    let low_chars: Vec<char> = chars_of(low.as_str());
    crate::scan::starts_with(low_chars.as_slice(), "idle")
}

/// The ticks of all states.
pub open spec fn total_ticks(s: Seq<ResidencyView>) -> nat
    decreases s.len(),
{
    if s.len() == 0 {
        0
    } else {
        total_ticks(s.drop_last()) + s.last().ticks as nat
    }
}

/// The ticks of the states of activity, in order.
pub open spec fn active_ticks(s: Seq<ResidencyView>) -> Seq<u64> {
    filter_map(
        s,
        |r: ResidencyView|
            if is_idle(r.name) {
                None::<u64>
            } else {
                Some(r.ticks)
            },
    )
}

/// A sum.
pub open spec fn sum(s: Seq<u64>) -> nat
    decreases s.len(),
{
    if s.len() == 0 {
        0
    } else {
        sum(s.drop_last()) + s.last() as nat
    }
}

/// The utilization over an interval: the share of ticks that were not idle. An interval without
/// ticks shows nothing.
pub open spec fn util_of(s: Seq<ResidencyView>) -> Option<MilliPct> {
    if total_ticks(s) == 0 {
        None
    } else {
        Some(share(sum(active_ticks(s)), total_ticks(s)))
    }
}

proof fn lemma_active_step(s: Seq<ResidencyView>, i: int)
    requires
        0 <= i < s.len(),
    ensures
        total_ticks(s.take(i + 1)) == total_ticks(s.take(i)) + s[i].ticks,
        active_ticks(s.take(i + 1)) == (if is_idle(s[i].name) {
            active_ticks(s.take(i))
        } else {
            active_ticks(s.take(i)).push(s[i].ticks)
        }),
        sum(active_ticks(s.take(i + 1))) == sum(active_ticks(s.take(i))) + (if is_idle(s[i].name) {
            0
        } else {
            s[i].ticks as int
        }),
{
    assert(s.take(i + 1).drop_last() =~= s.take(i));
    assert(s.take(i + 1).last() == s[i]);
    let a = active_ticks(s.take(i));
    assert(a.push(s[i].ticks).drop_last() =~= a);
}

/// `k * a` divided by `t`, for a part `a` of `t`: the quotient and the rest. It goes by halves of
/// `k`, so that nothing on the way exceeds `t`.
fn parts_of(a: u128, k: u32, t: u128) -> (r: (u32, u128))
    requires
        a <= t,
        t > 0,
    ensures
        k * a == r.0 * t + r.1,
        r.1 < t,
        r.0 <= k,
    decreases k,
{
    if k == 0 {
        assert(0 * a == 0 * t + 0) by (nonlinear_arith);
        return (0, 0);
    }
    let (q, r): (u32, u128) = parts_of(a, k / 2, t);
    let (q2, r2): (u32, u128) = if r >= t - r {
        (2 * q + 1, r - (t - r))
    } else {
        (2 * q, r + r)
    };
    assert((2 * (k / 2)) * a == q2 * t + r2) by (nonlinear_arith)
        requires
            (k / 2) * a == q * t + r,
            (q2 == 2 * q + 1 && r2 == r - (t - r)) || (q2 == 2 * q && r2 == r + r),
    ;
    assert(q2 <= 2 * (k / 2)) by (nonlinear_arith)
        requires
            (2 * (k / 2)) * a == q2 * t + r2,
            a <= t,
            t > 0,
            r2 >= 0,
    ;
    if k % 2 == 0 {
        return (q2, r2);
    }
    let (q3, r3): (u32, u128) = if r2 >= t - a {
        (q2 + 1, (r2 - (t - a)) as u128)
    } else {
        (q2, r2 + a)
    };
    assert(k * a == q3 * t + r3) by (nonlinear_arith)
        requires
            (2 * (k / 2)) * a == q2 * t + r2,
            k == 2 * (k / 2) + 1,
            (q3 == q2 + 1 && r3 == r2 - (t - a)) || (q3 == q2 && r3 == r2 + a),
    ;
    assert(q3 <= k) by (nonlinear_arith)
        requires
            k * a == q3 * t + r3,
            a <= t,
            t > 0,
            r3 >= 0,
    ;
    (q3, r3)
}

/// The share of `total` that its part `busy` is.
fn share_in(busy: u128, total: u128) -> (r: MilliPct)
    requires
        busy <= total,
        total > 0,
    ensures
        r == share(busy as nat, total as nat),
{
    let (q, rest): (u32, u128) = parts_of(busy, 100_000, total);
    proof {
        vstd::arithmetic::div_mod::lemma_fundamental_div_mod_converse(
            busy * 100_000,
            total as int,
            q as int,
            rest as int,
        );
    }
    q as MilliPct
}

pub fn util_pct_from_residency(states: &Vec<Residency>) -> (r: Option<MilliPct>)
    ensures
        r == util_of(residency_views(states@)),
{
    let ghost views = residency_views(states@);
    let mut total: u128 = 0;
    let mut active: u128 = 0;
    let mut i: usize = 0;
    assert(views.take(0) =~= Seq::empty());
    while i < states.len()
        invariant
            i <= states.len(),
            views == residency_views(states@),
            total == total_ticks(views.take(i as int)),
            active == sum(active_ticks(views.take(i as int))),
            active <= total <= i * 0xFFFF_FFFF_FFFF_FFFF,
        decreases states.len() - i,
    {
        proof {
            lemma_active_step(views, i as int);
            assert(views[i as int] == states@[i as int]@);
        }
        let ticks: u128 = states[i].ticks as u128;
        total = total + ticks;
        if !is_idle_state(states[i].name.as_str()) {
            active = active + ticks;
        }
        i = i + 1;
    }
    assert(views.take(i as int) =~= views);
    if total == 0 {
        return None;
    }
    Some(share_in(active, total))
}

/// The sum of the products of two lists.
pub open spec fn weighted_sum(ticks: Seq<u64>, mhz: Seq<u32>) -> nat
    decreases ticks.len(),
{
    if ticks.len() == 0 {
        0
    } else {
        weighted_sum(ticks.drop_last(), mhz) + ticks.last() as nat * mhz[ticks.len() - 1] as nat
    }
}

/// The mean clock over an interval: that of each state of activity, weighted by its ticks. A table
/// that does not have a clock for each is no table of them. Where no state of activity was held,
/// the clock was measured to be zero.
pub open spec fn mean_freq(s: Seq<ResidencyView>, mhz: Seq<u32>) -> Option<u32> {
    let ticks = active_ticks(s);
    if ticks.len() == 0 || ticks.len() != mhz.len() {
        None
    } else if sum(ticks) == 0 {
        Some(0)
    } else {
        let mean = (weighted_sum(ticks, mhz) + sum(ticks) / 2) / sum(ticks);
        if mean <= u32::MAX {
            Some(mean as u32)
        } else {
            None
        }
    }
}

/// The sums over an interval are numbers that can be held.
pub open spec fn freq_sums_fit(s: Seq<ResidencyView>, mhz: Seq<u32>) -> bool {
    active_ticks(s).len() == mhz.len() ==> weighted_sum(active_ticks(s), mhz) + sum(
        active_ticks(s),
    ) / 2 <= u128::MAX
}

proof fn lemma_weighted_prefix(ticks: Seq<u64>, mhz: Seq<u32>, n: int)
    requires
        0 <= n <= ticks.len(),
    ensures
        weighted_sum(ticks.take(n), mhz) <= weighted_sum(ticks, mhz),
    decreases ticks.len(),
{
    if n < ticks.len() {
        lemma_weighted_prefix(ticks.drop_last(), mhz, n);
        assert(ticks.drop_last().take(n) =~= ticks.take(n));
    } else {
        assert(ticks.take(n) =~= ticks);
    }
}

pub fn weighted_freq_mhz(states: &Vec<Residency>, dvfs_mhz: &Vec<u32>) -> (r: Option<u32>)
    requires
        freq_sums_fit(residency_views(states@), dvfs_mhz@),
    ensures
        r == mean_freq(residency_views(states@), dvfs_mhz@),
{
    let ghost views = residency_views(states@);
    let mut active: Vec<u64> = Vec::new();
    let mut total: u128 = 0;
    let mut i: usize = 0;
    assert(views.take(0) =~= Seq::empty());
    while i < states.len()
        invariant
            i <= states.len(),
            views == residency_views(states@),
            active@ == active_ticks(views.take(i as int)),
            total == sum(active@),
            total <= i * 0xFFFF_FFFF_FFFF_FFFF,
        decreases states.len() - i,
    {
        proof {
            lemma_active_step(views, i as int);
            assert(views[i as int] == states@[i as int]@);
        }
        if !is_idle_state(states[i].name.as_str()) {
            active.push(states[i].ticks);
            total = total + states[i].ticks as u128;
        }
        i = i + 1;
    }
    assert(views.take(i as int) =~= views);
    if active.len() == 0 || active.len() != dvfs_mhz.len() {
        return None;
    }
    if total == 0 {
        return Some(0);
    }
    let mut weighted: u128 = 0;
    let mut k: usize = 0;
    assert(active@.take(0) =~= Seq::empty());
    while k < active.len()
        invariant
            k <= active.len(),
            active@.len() == dvfs_mhz@.len(),
            weighted == weighted_sum(active@.take(k as int), dvfs_mhz@),
            weighted_sum(active@, dvfs_mhz@) <= u128::MAX,
        decreases active.len() - k,
    {
        proof {
            assert(active@.take(k + 1).drop_last() =~= active@.take(k as int));
            lemma_weighted_prefix(active@, dvfs_mhz@, k + 1);
            let (t, f) = (active@[k as int], dvfs_mhz@[k as int]);
            assert(t as nat * f as nat <= 0x1_0000_0000_0000_0000 * 0x1_0000_0000) by (
            nonlinear_arith)
                requires
                    t <= 0xFFFF_FFFF_FFFF_FFFF,
                    f <= 0xFFFF_FFFF,
            ;
        }
        let product: u128 = active[k] as u128 * dvfs_mhz[k] as u128;
        weighted = weighted + product;
        k = k + 1;
    }
    assert(active@.take(k as int) =~= active@);
    let mean: u128 = (weighted + total / 2) / total;
    if mean <= u32::MAX as u128 {
        Some(mean as u32)
    } else {
        None
    }
}

/// A frequency in megahertz. Its unit differs from chip to chip, but the ranges of plausible clocks
/// in hertz, kilohertz and megahertz do not meet, so its size tells the unit.
pub open spec fn in_mhz(raw: nat) -> nat {
    if raw >= 10_000_000 {
        raw / 1_000_000
    } else if raw >= 10_000 {
        raw / 1000
    } else {
        raw
    }
}

fn normalize_mhz(raw: u32) -> (r: u32)
    ensures
        r == in_mhz(raw as nat),
{
    if raw >= 10_000_000 {
        raw / 1_000_000
    } else if raw >= 10_000 {
        raw / 1000
    } else {
        raw
    }
}

/// The frequency in row `i` of a table of rows of a frequency and a voltage, of four bytes each,
/// the lowest first.
pub open spec fn row_freq(raw: Seq<u8>, i: int) -> nat {
    (raw[8 * i] + raw[8 * i + 1] * 0x100 + raw[8 * i + 2] * 0x1_0000 + raw[8 * i + 3]
        * 0x100_0000) as nat
}

/// The clocks of the first `n` rows; a row without a frequency is left out.
pub open spec fn rows_upto(raw: Seq<u8>, n: nat) -> Seq<u32>
    decreases n,
{
    if n == 0 {
        Seq::empty()
    } else {
        let rest = rows_upto(raw, (n - 1) as nat);
        if row_freq(raw, n - 1) == 0 {
            rest
        } else {
            rest.push(in_mhz(row_freq(raw, n - 1)) as u32)
        }
    }
}

/// The clocks of a table. Bytes that are no full row are ignored.
pub fn parse_voltage_states(raw: &[u8]) -> (v: Vec<u32>)
    ensures
        v@ == rows_upto(raw@, (raw@.len() / 8) as nat),
{
    let n: usize = raw.len() / 8;
    let mut v: Vec<u32> = Vec::new();
    let mut i: usize = 0;
    while i < n
        invariant
            i <= n,
            8 * n <= raw.len(),
            v@ == rows_upto(raw@, i as nat),
        decreases n - i,
    {
        let freq: u32 = raw[8 * i] as u32 + raw[8 * i + 1] as u32 * 0x100 + raw[8 * i + 2] as u32
            * 0x1_0000 + raw[8 * i + 3] as u32 * 0x100_0000;
        assert(freq == row_freq(raw@, i as int));
        if freq != 0 {
            v.push(normalize_mhz(freq));
        }
        i = i + 1;
    }
    v
}

/// An entry of the accelerator's statistics. Its value is in thousandths; `None` is no finite
/// number.
pub struct StatPair {
    pub key: String,
    pub value: Option<i128>,
}

/// What is read of the accelerator's statistics. Which keys there are differs from chip to chip.
#[derive(Clone, Copy, Debug, PartialEq, Eq, Structural)]
pub struct PerfStats {
    pub device_util_pct: Option<MilliPct>,
    pub renderer_util_pct: Option<MilliPct>,
    pub tiler_util_pct: Option<MilliPct>,
    /// System memory that the GPU uses: it has none of its own.
    pub in_use_system_memory_bytes: Option<u64>,
}

/// Nothing is read.
pub open spec fn no_stats() -> PerfStats {
    PerfStats {
        device_util_pct: None,
        renderer_util_pct: None,
        tiler_util_pct: None,
        in_use_system_memory_bytes: None,
    }
}

impl Default for PerfStats {
    fn default() -> (r: Self)
        ensures
            r == no_stats(),
    {
        PerfStats {
            device_util_pct: None,
            renderer_util_pct: None,
            tiler_util_pct: None,
            in_use_system_memory_bytes: None,
        }
    }
}

/// A share. What is negative or no number is none.
pub open spec fn stat_share(v: Option<i128>) -> Option<MilliPct> {
    match v {
        Some(n) => if n >= 0 {
            Some(n as MilliPct)
        } else {
            None
        },
        None => None,
    }
}

/// The value is no larger than a share can be.
pub open spec fn share_fits(v: Option<i128>) -> bool {
    match v {
        Some(n) => n <= i64::MAX,
        None => true,
    }
}

fn read_share(v: Option<i128>) -> (r: Option<MilliPct>)
    requires
        share_fits(v),
    ensures
        r == stat_share(v),
{
    match v {
        Some(n) => if n >= 0 {
            Some(n as MilliPct)
        } else {
            None
        },
        None => None,
    }
}

/// A size, in whole bytes, and no more than fit. What is negative or no number is none.
pub open spec fn stat_bytes(v: Option<i128>) -> Option<u64> {
    match v {
        Some(n) => if n < 0 {
            None
        } else if n / 1000 > u64::MAX {
            Some(u64::MAX)
        } else {
            Some((n / 1000) as u64)
        },
        None => None,
    }
}

fn read_bytes(v: Option<i128>) -> (r: Option<u64>)
    ensures
        r == stat_bytes(v),
{
    match v {
        Some(n) => {
            if n < 0 {
                return None;
            }
            let b: i128 = n / 1000;
            if b > u64::MAX as i128 {
                Some(u64::MAX)
            } else {
                Some(b as u64)
            }
        },
        None => None,
    }
}

/// The value of the last entry with the key.
pub open spec fn last_value(pairs: Seq<StatPair>, key: Seq<char>) -> Option<i128>
    decreases pairs.len(),
{
    if pairs.len() == 0 {
        None
    } else if pairs.last().key@ == key {
        pairs.last().value
    } else {
        last_value(pairs.drop_last(), key)
    }
}

/// What the entries tell. Keys are matched exactly: like ones answer other questions.
pub open spec fn stats_of(pairs: Seq<StatPair>) -> PerfStats {
    PerfStats {
        device_util_pct: stat_share(last_value(pairs, "Device Utilization %"@)),
        renderer_util_pct: stat_share(last_value(pairs, "Renderer Utilization %"@)),
        tiler_util_pct: stat_share(last_value(pairs, "Tiler Utilization %"@)),
        in_use_system_memory_bytes: stat_bytes(last_value(pairs, "In use system memory"@)),
    }
}

fn find_last(pairs: &Vec<StatPair>, key: &str) -> (r: Option<i128>)
    ensures
        r == last_value(pairs@, key@),
{
    let mut n: usize = pairs.len();
    assert(pairs@.take(n as int) =~= pairs@);
    while n > 0
        invariant
            n <= pairs.len(),
            last_value(pairs@.take(n as int), key@) == last_value(pairs@, key@),
        decreases n,
    {
        assert(pairs@.take(n as int).drop_last() =~= pairs@.take(n - 1));
        let k: Vec<char> = chars_of(pairs[n - 1].key.as_str());
        if is_text(k.as_slice(), key) {
            return pairs[n - 1].value;
        }
        n = n - 1;
    }
    None
}

pub fn perf_stats_from_pairs(pairs: &Vec<StatPair>) -> (r: PerfStats)
    requires
        share_fits(last_value(pairs@, "Device Utilization %"@)),
        share_fits(last_value(pairs@, "Renderer Utilization %"@)),
        share_fits(last_value(pairs@, "Tiler Utilization %"@)),
    ensures
        r == stats_of(pairs@),
{
    PerfStats {
        device_util_pct: read_share(find_last(pairs, "Device Utilization %")),
        renderer_util_pct: read_share(find_last(pairs, "Renderer Utilization %")),
        tiler_util_pct: read_share(find_last(pairs, "Tiler Utilization %")),
        in_use_system_memory_bytes: read_bytes(find_last(pairs, "In use system memory")),
    }
}

/// One energy over one interval is one power, whichever unit the channel has.
pub proof fn law_the_unit_does_not_count(mj: u64, dt_ms: u64)
    requires
        mj <= u64::MAX / 1_000_000,
    ensures
        power_of(mj, EnergyUnit::Millijoules, dt_ms) == power_of(
            (mj * 1_000) as u64,
            EnergyUnit::Microjoules,
            dt_ms,
        ),
        power_of(mj, EnergyUnit::Millijoules, dt_ms) == power_of(
            (mj * 1_000_000) as u64,
            EnergyUnit::Nanojoules,
            dt_ms,
        ),
{
    if dt_ms > 0 {
        lemma_scaled_round(mj as nat * 1_000_000, dt_ms as nat * 1_000, 1_000);
        lemma_scaled_round(mj as nat * 1_000_000, dt_ms as nat * 1_000, 1_000_000);
        let uj = (mj * 1_000) as u64;
        let nj = (mj * 1_000_000) as u64;
        assert(uj == mj * 1_000 && nj == mj * 1_000_000);
        assert(uj as nat * 1_000_000 == (mj as nat * 1_000_000) * 1_000);
        assert(nj as nat * 1_000_000 == (mj as nat * 1_000_000) * 1_000_000);
        assert(dt_ms as nat * 1_000_000 == (dt_ms as nat * 1_000) * 1_000);
        assert(dt_ms as nat * 1_000_000_000 == (dt_ms as nat * 1_000) * 1_000_000);
    }
}

proof fn lemma_scaled_round(num: nat, den: nat, k: nat)
    requires
        den > 0,
        k > 0,
    ensures
        round_half_up(num * k, den * k) == round_half_up(num, den),
{
    let a = 2 * num + den;
    let b = 2 * den;
    assert(2 * (num * k) + den * k == k * a && 2 * (den * k) == k * b && k * b > 0) by (
    nonlinear_arith)
        requires
            a == 2 * num + den,
            b == 2 * den,
            den > 0,
            k > 0,
    ;
    vstd::arithmetic::div_mod::lemma_truncate_middle(a as int, b as int, k as int);
    assert((k * a) / (k * b) == a / b) by {
        vstd::arithmetic::div_mod::lemma_div_multiples_vanish_quotient(
            k as int,
            a as int,
            b as int,
        );
    }
}

/// Power is energy over time, in the nearest milliwatt (a tie goes up): a joule in a second is a
/// watt, whatever unit the counter has. More than fits is told as the most that fits; over no time
/// there is none.
pub proof fn law_power_is_energy_over_time(energy: u64, unit: EnergyUnit, dt_ms: u64)
    ensures
        dt_ms == 0 <==> power_of(energy, unit, dt_ms) is None,
        power_of(energy, unit, dt_ms) matches Some(mw) ==> ({
            let per_joule: int = match unit {
                EnergyUnit::Millijoules => 1_000,
                EnergyUnit::Microjoules => 1_000_000,
                EnergyUnit::Nanojoules => 1_000_000_000,
            };
            // Milliwatts are this many units of the counter over the time.
            let one = dt_ms * per_joule;
            let all = energy * 1_000_000;
            &&& mw < u32::MAX ==> (2 * mw - 1) * one <= 2 * all < (2 * mw + 1) * one
            &&& mw == u32::MAX ==> (2 * mw - 1) * one <= 2 * all
        }),
{
    if dt_ms > 0 {
        let one = (dt_ms * unit.per_joule()) as int;
        let all = (energy * 1_000_000) as int;
        assert(one > 0) by (nonlinear_arith)
            requires
                dt_ms > 0,
                one == dt_ms * unit.per_joule(),
                unit.per_joule() >= 1_000,
        ;
        let q = (2 * all + one) / (2 * one);
        vstd::arithmetic::div_mod::lemma_fundamental_div_mod(2 * all + one, 2 * one);
        assert(q * (2 * one) <= 2 * all + one < (q + 1) * (2 * one)) by (nonlinear_arith)
            requires
                2 * all + one == (2 * one) * q + (2 * all + one) % (2 * one),
                0 <= (2 * all + one) % (2 * one) < 2 * one,
        ;
        assert((2 * q - 1) * one <= 2 * all < (2 * q + 1) * one) by (nonlinear_arith)
            requires
                q * (2 * one) <= 2 * all + one < (q + 1) * (2 * one),
        ;
        assert(q >= 0) by (nonlinear_arith)
            requires
                2 * all < (2 * q + 1) * one,
                all >= 0,
                one > 0,
        ;
        if q > u32::MAX {
            let m = u32::MAX as int;
            assert((2 * m - 1) * one <= (2 * q - 1) * one) by (nonlinear_arith)
                requires
                    m <= q,
                    one > 0,
            ;
        }
    }
}

/// The ticks of all states.
pub open spec fn ticks_of_all(s: Seq<ResidencyView>) -> int {
    s.fold_left(0int, |sum: int, r: ResidencyView| sum + r.ticks)
}

/// The ticks of the states in which the engine works.
pub open spec fn ticks_at_work(s: Seq<ResidencyView>) -> int {
    s.fold_left(
        0int,
        |sum: int, r: ResidencyView|
            if is_idle(r.name) {
                sum
            } else {
                sum + r.ticks
            },
    )
}

proof fn lemma_ticks(s: Seq<ResidencyView>)
    ensures
        total_ticks(s) == ticks_of_all(s),
        sum(active_ticks(s)) == ticks_at_work(s),
        0 <= ticks_at_work(s) <= ticks_of_all(s),
    decreases s.len(),
{
    if s.len() > 0 {
        let t = s.drop_last();
        lemma_ticks(t);
        let rule = |r: ResidencyView|
            if is_idle(r.name) {
                None::<u64>
            } else {
                Some(r.ticks)
            };
        assert(active_ticks(s) == filter_map(s, rule));
        assert(active_ticks(t) == filter_map(t, rule));
        if !is_idle(s.last().name) {
            assert(active_ticks(s).drop_last() =~= active_ticks(t));
        }
    }
}

/// Utilization by residency is the time in the states in which the engine works over the time in
/// all states, to the thousandth of a percent below; over no time there is none.
pub proof fn law_utilization_is_the_time_at_work(s: Seq<ResidencyView>)
    ensures
        util_of(s) is None <==> ticks_of_all(s) == 0,
        util_of(s) matches Some(p) ==> p * ticks_of_all(s) <= ticks_at_work(s) * 100_000 < (p + 1)
            * ticks_of_all(s),
        util_of(s) is Some && ticks_at_work(s) == ticks_of_all(s) ==> util_of(s)->0 == 100_000,
        util_of(s) is Some && ticks_at_work(s) == 0 ==> util_of(s)->0 == 0,
{
    lemma_ticks(s);
    if ticks_of_all(s) > 0 {
        let busy = ticks_at_work(s) as nat;
        let total = ticks_of_all(s) as nat;
        crate::drm::lemma_share(busy, total);
        let p = util_of(s)->0 as int;
        assert(busy == 0 ==> p == 0) by (nonlinear_arith)
            requires
                p * total <= busy * 100_000 < (p + 1) * total,
                total > 0,
        ;
    }
}

/// The clock is the mean of the frequencies, each weighed by the time in its state, in the nearest
/// megahertz. An engine that only slept has the clock zero; without a frequency for each state at
/// work there is none.
pub proof fn law_the_clock_is_a_mean_over_time(s: Seq<ResidencyView>, mhz: Seq<u32>)
    ensures
        ({
            let ticks = active_ticks(s);
            let time = ticks_at_work(s);
            let weighed = Seq::new(ticks.len(), |i: int| ticks[i] * mhz[i]).fold_left(
                0int,
                |sum: int, x: int| sum + x,
            );
            &&& ticks.len() == 0 || ticks.len() != mhz.len() ==> mean_freq(s, mhz) is None
            &&& ticks.len() > 0 && ticks.len() == mhz.len() && time == 0 ==> mean_freq(s, mhz)
                == Some(0u32)
            &&& mean_freq(s, mhz) matches Some(f) ==> time > 0 ==> 2 * weighed - time <= 2 * f * time
                <= 2 * weighed + time
        }),
{
    lemma_ticks(s);
    let ticks = active_ticks(s);
    if ticks.len() == mhz.len() {
        lemma_weighed(ticks, mhz);
        let w = weighted_sum(ticks, mhz) as int;
        let t = sum(ticks) as int;
        if t > 0 {
            let h = t / 2;
            let f = (w + h) / t;
            vstd::arithmetic::div_mod::lemma_fundamental_div_mod(w + h, t);
            assert(2 * w - t <= 2 * f * t <= 2 * w + t) by (nonlinear_arith)
                requires
                    w + h == t * f + (w + h) % t,
                    0 <= (w + h) % t < t,
                    h == t / 2,
                    t > 0,
            ;
        }
    }
}

proof fn lemma_weighed(ticks: Seq<u64>, mhz: Seq<u32>)
    requires
        ticks.len() <= mhz.len(),
    ensures
        weighted_sum(ticks, mhz) == Seq::new(ticks.len(), |i: int| ticks[i] * mhz[i]).fold_left(
            0int,
            |sum: int, x: int| sum + x,
        ),
    decreases ticks.len(),
{
    let xs = Seq::new(ticks.len(), |i: int| ticks[i] * mhz[i]);
    if ticks.len() > 0 {
        let t = ticks.drop_last();
        lemma_weighed(t, mhz);
        assert(xs.drop_last() =~= Seq::new(t.len(), |i: int| t[i] * mhz[i]));
    }
}

/// A frequency of the table reads in megahertz, whether it is written in hertz, in kilohertz or in
/// megahertz.
pub proof fn law_frequencies_read_in_megahertz(mhz: nat)
    ensures
        mhz >= 10 ==> in_mhz(mhz * 1_000_000) == mhz,
        10 <= mhz < 10_000 ==> in_mhz(mhz * 1000) == mhz,
        mhz < 10_000 ==> in_mhz(mhz) == mhz,
{
}

/// The statistics tell shares as they are and sizes in whole bytes of thousandths, up to the most
/// that fits; what is negative or no number is missing, never zero.
pub proof fn law_statistics_are_told_or_missing(v: Option<i128>)
    ensures
        stat_share(v) is Some <==> v is Some && v->0 >= 0,
        stat_bytes(v) is Some <==> v is Some && v->0 >= 0,
        v matches Some(n) ==> 0 <= n <= i64::MAX ==> stat_share(v)->0 == n,
        stat_bytes(v) matches Some(b) ==> b < u64::MAX ==> b * 1000 <= v->0 < b * 1000 + 1000,
        stat_bytes(v) matches Some(b) ==> b == u64::MAX ==> v->0 >= u64::MAX * 1000,
{
}

/// Of several values under one key the last counts.
pub proof fn law_the_last_value_of_a_key_counts(pairs: Seq<StatPair>, key: Seq<char>, i: int)
    requires
        0 <= i < pairs.len(),
        pairs[i].key@ == key,
        forall|j: int| i < j < pairs.len() ==> (#[trigger] pairs[j]).key@ != key,
    ensures
        last_value(pairs, key) == pairs[i].value,
    decreases pairs.len(),
{
    let t = pairs.drop_last();
    if i < t.len() {
        assert(pairs.last() == pairs[t.len() as int]);
        assert forall|j: int| i < j < t.len() implies (#[trigger] t[j]).key@ != key by {
            assert(t[j] == pairs[j]);
        }
        law_the_last_value_of_a_key_counts(t, key, i);
    }
}

/// A dump reads where it has digits only and an even number of them; each two are one byte, the
/// higher half first, and whatever their case they are the byte's own digits.
pub proof fn law_two_digits_are_a_byte(digits: Seq<char>)
    ensures
        dump_bytes(digits) is Some <==> digits.len() % 2 == 0 && forall|i: int|
            0 <= i < digits.len() ==> is_hex_digit(#[trigger] digits[i]),
        dump_bytes(digits) matches Some(b) ==> {
            &&& 2 * b.len() == digits.len()
            &&& forall|i: int|
                0 <= i < b.len() ==> ascii_lower(digits)[2 * i] == hex_char((#[trigger] b[i]) as int / 16)
                    && ascii_lower(digits)[2 * i + 1] == hex_char(b[i] as int % 16)
        },
{
    if let Some(b) = dump_bytes(digits) {
        assert forall|i: int| 0 <= i < b.len() implies ascii_lower(digits)[2 * i] == hex_char(
            (#[trigger] b[i]) as int / 16,
        ) && ascii_lower(digits)[2 * i + 1] == hex_char(b[i] as int % 16) by {
            let high = digits[2 * i];
            let low = digits[2 * i + 1];
            assert(is_hex_digit(high) && is_hex_digit(low));
            lemma_hex_digit(high);
            lemma_hex_digit(low);
            let h = crate::pci::hex_digit_value(high);
            let l = crate::pci::hex_digit_value(low);
            assert(b[i] == h * 16 + l);
            assert((h * 16 + l) / 16 == h && (h * 16 + l) % 16 == l);
        }
    }
}

proof fn lemma_hex_digit(c: char)
    requires
        is_hex_digit(c),
    ensures
        crate::pci::hex_digit_value(c) < 16,
        lower(c) == hex_char(crate::pci::hex_digit_value(c) as int),
{
}

/// What stands in a line before its comment, without white space, is what a dump has of it.
pub proof fn law_comments_and_space_are_no_digits(data: Seq<char>, note: Seq<char>)
    requires
        !data.contains('#'),
    ensures
        uncommented(data + seq!['#'] + note) == data,
        uncommented(data) == data,
        without_space(data) == data.filter(|c: char| !is_space(c)),
{
    lemma_split_joined(data, '#', note);
    if let Some((a, b)) = split_at_char(data, '#') {
        lemma_first_at_holds(data, '#');
        assert(data.contains('#'));
    }
    lemma_without_space(data, |c: char| !is_space(c));
}

proof fn lemma_without_space(s: Seq<char>, p: spec_fn(char) -> bool)
    requires
        forall|c: char| #[trigger] p(c) == !is_space(c),
    ensures
        without_space(s) == s.filter(p),
    decreases s.len(),
{
    reveal(Seq::filter);
    if s.len() > 0 {
        lemma_without_space(s.drop_last(), p);
        assert(p(s.last()) == !is_space(s.last()));
    }
}

/// The energy of the GPU is told on a channel of the energy model with a name that has its own in
/// it, and its states on the channel of the performance states.
pub proof fn law_channels_are_told_by_their_names(c: ChannelView, pre: Seq<char>, post: Seq<char>)
    ensures
        c.group == "Energy Model"@ && c.channel == pre + "GPU Energy"@ + post ==> is_energy(c),
        c.group == "GPU Stats"@ && c.subgroup == "GPU Performance States"@ && c.channel == pre
            + "GPUPH"@ + post ==> is_perf_states(c),
        is_energy(c) ==> c.group == "Energy Model"@ && exists|i: int|
            0 <= i && i + "GPU Energy"@.len() <= c.channel.len() && #[trigger] c.channel.subrange(
                i,
                i + "GPU Energy"@.len(),
            ) == "GPU Energy"@,
        is_perf_states(c) ==> c.group == "GPU Stats"@ && c.subgroup == "GPU Performance States"@
            && exists|i: int|
            0 <= i && i + "GPUPH"@.len() <= c.channel.len() && #[trigger] c.channel.subrange(
                i,
                i + "GPUPH"@.len(),
            ) == "GPUPH"@,
        !(is_energy(c) && is_perf_states(c)),
{
    let n = pre.len() as int;
    assert((pre + "GPU Energy"@ + post).subrange(n, n + "GPU Energy"@.len()) =~= "GPU Energy"@);
    assert((pre + "GPUPH"@ + post).subrange(n, n + "GPUPH"@.len()) =~= "GPUPH"@);
    reveal_strlit("Energy Model");
    reveal_strlit("GPU Stats");
    assert("Energy Model"@.len() != "GPU Stats"@.len());
}

/// The labels of the units of energy; another label has none.
pub proof fn law_the_units_of_energy(label: Seq<char>)
    ensures
        unit_of("mJ"@) == Some(EnergyUnit::Millijoules),
        unit_of("uJ"@) == Some(EnergyUnit::Microjoules),
        unit_of("nJ"@) == Some(EnergyUnit::Nanojoules),
        trimmed_text(label) == "mJ"@ || trimmed_text(label) == "uJ"@ || trimmed_text(label)
            == "nJ"@ ==> unit_of(label) == unit_of(trimmed_text(label)),
        unit_of(label) is Some ==> trimmed_text(label).len() == 2 && trimmed_text(label)[1] == 'J',
{
    reveal_strlit("mJ");
    reveal_strlit("uJ");
    reveal_strlit("nJ");
    reveal_strlit("µJ");
    assert("mJ"@[0] == 'm' && "uJ"@[0] == 'u' && "nJ"@[0] == 'n');
    assert(trimmed_text("mJ"@) == "mJ"@);
    assert(trimmed_text("uJ"@) == "uJ"@);
    assert(trimmed_text("nJ"@) == "nJ"@);
}

/// A state that is written as a line reads back as it was. (A separator in its name does not.)
pub proof fn law_a_state_reads_back(name: Seq<char>, ticks: u64)
    requires
        !name.contains('|'),
    ensures
        state_of("state|"@ + name + seq!['|'] + dec(ticks as nat)) == Some(
            ResidencyView { name, ticks },
        ),
{
    let number = dec(ticks as nat);
    let rest = name + seq!['|'] + number;
    let line = "state|"@ + name + seq!['|'] + number;
    reveal_strlit("state|");
    lemma_decimal_digits(ticks as nat);
    law_decimals_read_back(ticks as nat, u64::MAX as nat);
    assert(line =~= "state|"@ + rest);
    assert(line[0] == 's');
    assert(line.last() == number.last());
    assert(!is_space(number[number.len() - 1]) && !is_space(number[0]));
    assert(start_trimmed(line) == line);
    assert(end_trimmed(line) == line);
    assert(line.take(6) =~= "state|"@);
    assert(line.skip(6) =~= rest);
    lemma_split_joined(name, '|', number);
    assert(trimmed_text(number) == number);
}

/// Each statistic is told by its own key: an entry that is added changes the one of its key and no
/// other.
pub proof fn law_each_statistic_has_its_key(pairs: Seq<StatPair>, p: StatPair)
    ensures
        ({
            let before = stats_of(pairs);
            let after = stats_of(pairs.push(p));
            &&& after.device_util_pct == (if p.key@ == "Device Utilization %"@ {
                stat_share(p.value)
            } else {
                before.device_util_pct
            })
            &&& after.renderer_util_pct == (if p.key@ == "Renderer Utilization %"@ {
                stat_share(p.value)
            } else {
                before.renderer_util_pct
            })
            &&& after.tiler_util_pct == (if p.key@ == "Tiler Utilization %"@ {
                stat_share(p.value)
            } else {
                before.tiler_util_pct
            })
            &&& after.in_use_system_memory_bytes == (if p.key@ == "In use system memory"@ {
                stat_bytes(p.value)
            } else {
                before.in_use_system_memory_bytes
            })
            &&& pairs.len() == 0 ==> before == no_stats()
            &&& no_stats().device_util_pct is None && no_stats().renderer_util_pct is None
            &&& no_stats().tiler_util_pct is None && no_stats().in_use_system_memory_bytes is None
        }),
{
    assert(pairs.push(p).drop_last() =~= pairs);
}

/// A table has the frequency of each full row, in its order and in megahertz, but for rows without
/// one. A row has four bytes of frequency, the lowest first, and four of voltage.
pub proof fn law_a_table_has_the_frequency_of_each_row(raw: Seq<u8>, n: nat)
    ensures
        rows_upto(raw, n) == Seq::new(
            n,
            |i: int|
                raw[8 * i] + 256 * raw[8 * i + 1] + 65_536 * raw[8 * i + 2] + 16_777_216 * raw[8 * i
                    + 3],
        ).filter(|f: int| f != 0).map_values(|f: int| in_mhz(f as nat) as u32),
{
    lemma_rows(
        raw,
        n,
        |i: int|
            raw[8 * i] + 256 * raw[8 * i + 1] + 65_536 * raw[8 * i + 2] + 16_777_216 * raw[8 * i
                + 3],
        |f: int| f != 0,
        |f: int| in_mhz(f as nat) as u32,
    );
}

proof fn lemma_rows(
    raw: Seq<u8>,
    n: nat,
    row: spec_fn(int) -> int,
    told: spec_fn(int) -> bool,
    clock: spec_fn(int) -> u32,
)
    requires
        forall|i: int| #[trigger] row(i) == row_freq(raw, i),
        forall|f: int| #[trigger] told(f) == (f != 0),
        forall|f: int| #[trigger] clock(f) == in_mhz(f as nat) as u32,
    ensures
        rows_upto(raw, n) == Seq::new(n, row).filter(told).map_values(clock),
    decreases n,
{
    reveal(Seq::filter);
    let rows = Seq::new(n, row);
    if n > 0 {
        let m = (n - 1) as nat;
        lemma_rows(raw, m, row, told, clock);
        assert(rows.drop_last() =~= Seq::new(m, row));
        let before = Seq::new(m, row).filter(told);
        assert(rows.last() == row(n - 1));
        if told(rows.last()) {
            assert(rows.filter(told) == before.push(rows.last()));
            assert(before.push(rows.last()).map_values(clock) =~= before.map_values(clock).push(
                clock(rows.last()),
            ));
        }
    } else {
        assert(rows.filter(told).map_values(clock) =~= Seq::empty());
    }
}

/// A state is idle where its name is that of being off, or begins with that of idleness, in whatever
/// case and with whatever number behind; any other name is one of work.
pub proof fn law_an_idle_state_is_told_by_its_name(name: Seq<char>, number: Seq<char>)
    requires
        forall|i: int| 0 <= i < number.len() ==> '0' <= #[trigger] number[i] <= '9',
    ensures
        is_idle("OFF"@) && is_idle("off"@),
        is_idle("IDLE"@ + number) && is_idle("idle"@ + number),
        is_idle(name) <==> ({
            let low = ascii_lower(trimmed_text(name));
            low == "off"@ || low.len() >= 4 && low.take(4) == "idle"@
        }),
{
    reveal_strlit("OFF");
    reveal_strlit("off");
    reveal_strlit("IDLE");
    reveal_strlit("idle");
    assert(ascii_lower("OFF"@) =~= "off"@);
    assert(ascii_lower("off"@) =~= "off"@);
    assert(trimmed_text("OFF"@) == "OFF"@);
    assert(trimmed_text("off"@) == "off"@);
    let a = "IDLE"@ + number;
    let b = "idle"@ + number;
    assert(!is_space(a.last()) && !is_space(b.last()));
    assert(trimmed_text(a) == a);
    assert(trimmed_text(b) == b);
    assert(ascii_lower(a).take(4) =~= "idle"@);
    assert(ascii_lower(b).take(4) =~= "idle"@);
}

} // verus!
