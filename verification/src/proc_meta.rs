//! What a process is, beyond its use of a device: the container it runs in, and its CPU use.

use vstd::prelude::*;
use crate::model::MilliPct;
use crate::model::text_view;
use crate::pid_table::PidTable;
use crate::scan::{after_prefix, before_suffix, has_prefix, line_texts, slice_view, slices, split_on, uint_value, words};
use crate::scan::{lines, parse_u64, split, split_whitespace, starts_with, strip_prefix, strip_suffix};
use crate::scan::{is_word, law_decimals_read_back, law_words_read_back, lemma_last_piece, spaced};
use crate::text::{all_hex, ascii_lower, dec, is_hex_digit, lower};
use crate::text::{chars_of, is_all_hex, is_text, lower_char, push_chars};

verus! {

/// The first twelve digits, in lower case, of an id that is all hexadecimal and at least that
/// long; `None` for whatever is no such id.
pub open spec fn short_id(id: Seq<char>) -> Option<Seq<char>> {
    if id.len() >= 12 && all_hex(id) {
        Some(ascii_lower(id.take(12)))
    } else {
        None
    }
}

/// A label of a runtime: its name, a colon, and the short form of an id.
pub open spec fn runtime_label(runtime: Seq<char>, id: Seq<char>) -> Option<Seq<char>> {
    match short_id(id) {
        Some(h) => Some(runtime + h),
        None => None,
    }
}

/// The label of a path segment that is a runtime's scope.
pub open spec fn segment_label(seg: Seq<char>) -> Option<Seq<char>> {
    let body = match before_suffix(seg, ".scope"@) {
        Some(b) => b,
        None => seg,
    };
    if let Some(id) = after_prefix(body, "docker-"@) {
        runtime_label("docker:"@, id)
    } else if let Some(id) = after_prefix(body, "cri-containerd-"@) {
        runtime_label("k8s:"@, id)
    } else if let Some(id) = after_prefix(body, "crio-"@) {
        runtime_label("k8s:"@, id)
    } else if let Some(id) = after_prefix(body, "containerd-"@) {
        runtime_label("k8s:"@, id)
    } else if let Some(id) = after_prefix(body, "libpod-"@) {
        runtime_label("podman:"@, id)
    } else {
        None
    }
}

/// The label of the first of the segments from `i` on that has one.
pub open spec fn first_label(segs: Seq<Seq<char>>, i: int) -> Option<Seq<char>>
    decreases segs.len() - i,
{
    if i < 0 || i >= segs.len() {
        None
    } else {
        match segment_label(segs[i]) {
            Some(l) => Some(l),
            None => first_label(segs, i + 1),
        }
    }
}

/// The segments that are not empty.
pub open spec fn filled(segs: Seq<Seq<char>>) -> Seq<Seq<char>> {
    crate::lists::filter_map(segs, filled_rule())
}

pub open spec fn filled_rule() -> spec_fn(Seq<char>) -> Option<Seq<char>> {
    |s: Seq<char>|
        if s.len() > 0 {
            Some(s)
        } else {
            None
        }
}

/// The container's name among the segments from `i` on: the segment after `lxc`, or the rest of
/// one that starts with `lxc.payload.`.
pub open spec fn lxc_from(segs: Seq<Seq<char>>, i: int) -> Option<Seq<char>>
    decreases segs.len() - i,
{
    if i < 0 || i >= segs.len() {
        None
    } else if segs[i] == "lxc"@ && i + 1 < segs.len() {
        Some(segs[i + 1])
    } else {
        match after_prefix(segs[i], "lxc.payload."@) {
            Some(name) => if name.len() > 0 {
                Some(name)
            } else {
                None
            },
            None => lxc_from(segs, i + 1),
        }
    }
}

/// Some segment belongs to a pod.
pub open spec fn in_pod(segs: Seq<Seq<char>>) -> bool {
    exists|i: int| 0 <= i < segs.len() && has_prefix(#[trigger] segs[i], "kubepods"@)
}

/// The label of a line: its path is what follows the last colon. A runtime's scope counts before
/// an LXC name, and that before the bare fact of a pod.
pub open spec fn line_label(line: Seq<char>) -> Option<Seq<char>> {
    let path = split_on(line, ':').last();
    let segs = split_on(path, '/');
    match first_label(segs, 0) {
        Some(l) => Some(l),
        None => match lxc_from(filled(segs), 0) {
            Some(name) => Some("lxc:"@ + name),
            None => if in_pod(segs) {
                Some("k8s:?"@)
            } else {
                None
            },
        },
    }
}

/// The label of the first of the lines from `i` on that has one.
pub open spec fn container_label(ls: Seq<Seq<char>>, i: int) -> Option<Seq<char>>
    decreases ls.len() - i,
{
    if i < 0 || i >= ls.len() {
        None
    } else {
        match line_label(ls[i]) {
            Some(l) => Some(l),
            None => container_label(ls, i + 1),
        }
    }
}

fn short_hex(id: &[char]) -> (r: Option<Vec<char>>)
    ensures
        match r {
            Some(h) => short_id(id@) == Some(h@),
            None => short_id(id@) is None,
        },
{
    if id.len() < 12 || !is_all_hex(id) {
        return None;
    }
    let mut v: Vec<char> = Vec::new();
    let mut i: usize = 0;
    let ghost want = ascii_lower(id@.take(12));
    while i < 12
        invariant
            i <= 12 <= id.len(),
            want == ascii_lower(id@.take(12)),
            v@ == want.take(i as int),
        decreases 12 - i,
    {
        v.push(lower_char(id[i]));
        assert(want.take(i + 1) =~= want.take(i as int).push(lower(id@[i as int])));
        i = i + 1;
    }
    assert(want.take(12) =~= want);
    Some(v)
}

fn label(runtime: &str, id: &[char]) -> (r: Option<String>)
    ensures
        text_view(r) == runtime_label(runtime@, id@),
{
    match short_hex(id) {
        Some(h) => {
            let mut out: String = String::new();
            out.append(runtime);
            push_chars(&mut out, h.as_slice());
            assert(out@ =~= runtime@ + h@);
            Some(out)
        },
        None => None,
    }
}

/// The label of a path segment that is a runtime's scope.
pub fn recognize_segment(seg: &[char]) -> (r: Option<String>)
    ensures
        text_view(r) == segment_label(seg@),
{
    let body = match strip_suffix(seg, ".scope") {
        Some(b) => b,
        None => seg,
    };
    if let Some(id) = strip_prefix(body, "docker-") {
        return label("docker:", id);
    }
    if let Some(id) = strip_prefix(body, "cri-containerd-") {
        return label("k8s:", id);
    }
    if let Some(id) = strip_prefix(body, "crio-") {
        return label("k8s:", id);
    }
    if let Some(id) = strip_prefix(body, "containerd-") {
        return label("k8s:", id);
    }
    if let Some(id) = strip_prefix(body, "libpod-") {
        return label("podman:", id);
    }
    None
}

/// The name of an LXC container in a path's segments.
pub fn lxc_name<'a>(segs: &Vec<&'a [char]>) -> (r: Option<&'a [char]>)
    ensures
        slice_view(r) == lxc_from(filled(slices(segs@)), 0),
{
    let mut full: Vec<&'a [char]> = Vec::new();
    let ghost views = slices(segs@);
    let ghost rule = filled_rule();
    let mut k: usize = 0;
    assert(slices(full@) =~= crate::lists::filter_map(views.take(0), rule));
    while k < segs.len()
        invariant
            k <= segs.len(),
            views == slices(segs@),
            rule == filled_rule(),
            slices(full@) == crate::lists::filter_map(views.take(k as int), rule),
        decreases segs.len() - k,
    {
        proof {
            crate::lists::lemma_filter_map_step(views, rule, k as int);
        }
        let ghost before = full@;
        if segs[k].len() > 0 {
            full.push(segs[k]);
            assert(slices(full@) =~= slices(before).push(views[k as int]));
        }
        k = k + 1;
    }
    assert(views.take(k as int) =~= views);
    let ghost fs = slices(full@);
    let mut i: usize = 0;
    while i < full.len()
        invariant
            i <= full.len(),
            fs == slices(full@),
            fs == filled(slices(segs@)),
            lxc_from(fs, i as int) == lxc_from(fs, 0),
        decreases full.len() - i,
    {
        if is_text(full[i], "lxc") && i + 1 < full.len() {
            return Some(full[i + 1]);
        }
        if let Some(name) = strip_prefix(full[i], "lxc.payload.") {
            if name.len() > 0 {
                return Some(name);
            } else {
                return None;
            }
        }
        i = i + 1;
    }
    None
}

fn label_of_line(line: &[char]) -> (r: Option<String>)
    ensures
        text_view(r) == line_label(line@),
{
    let parts = split(line, ':');
    proof {
        lemma_split_nonempty(line@, ':');
        assert(slices(parts@).last() == parts@[parts@.len() - 1]@);
    }
    let path = parts[parts.len() - 1];
    let segs = split(path, '/');
    let ghost views = slices(segs@);
    let mut i: usize = 0;
    while i < segs.len()
        invariant
            i <= segs.len(),
            views == slices(segs@),
            views == split_on(split_on(line@, ':').last(), '/'),
            first_label(views, i as int) == first_label(views, 0),
        decreases segs.len() - i,
    {
        if let Some(l) = recognize_segment(segs[i]) {
            return Some(l);
        }
        i = i + 1;
    }
    if let Some(name) = lxc_name(&segs) {
        let mut out: String = String::new();
        out.append("lxc:");
        push_chars(&mut out, name);
        assert(out@ =~= "lxc:"@ + name@);
        return Some(out);
    }
    let mut k: usize = 0;
    while k < segs.len()
        invariant
            k <= segs.len(),
            views == slices(segs@),
            views == split_on(split_on(line@, ':').last(), '/'),
            first_label(views, 0) is None,
            lxc_from(filled(views), 0) is None,
            forall|j: int| 0 <= j < k ==> !has_prefix(#[trigger] views[j], "kubepods"@),
        decreases segs.len() - k,
    {
        if starts_with(segs[k], "kubepods") {
            assert(has_prefix(views[k as int], "kubepods"@));
            let mut out: String = String::new();
            out.append("k8s:?");
            assert(out@ =~= "k8s:?"@);
            return Some(out);
        }
        k = k + 1;
    }
    None
}

proof fn lemma_split_nonempty(s: Seq<char>, c: char)
    ensures
        split_on(s, c).len() > 0,
{
}

/// The container that the contents of a process's cgroup file name: `docker:<12 hex>`,
/// `k8s:<12 hex>`, `podman:<12 hex>`, `lxc:<name>`, or `k8s:?` for a pod without a readable id.
/// `None` for a process of the host: no id is ever made up.
pub fn parse_cgroup(content: &str) -> (r: Option<String>)
    ensures
        text_view(r) == container_label(line_texts(content@), 0),
{
    let chars: Vec<char> = chars_of(content);
    let ls = lines(chars.as_slice());
    let ghost views = slices(ls@);
    let mut i: usize = 0;
    while i < ls.len()
        invariant
            i <= ls.len(),
            views == slices(ls@),
            views == line_texts(content@),
            container_label(views, i as int) == container_label(views, 0),
        decreases ls.len() - i,
    {
        if let Some(l) = label_of_line(ls[i]) {
            return Some(l);
        }
        i = i + 1;
    }
    None
}

/// The CPU time, in clock ticks, that the contents of a process's stat file give: the sum of the
/// twelfth and thirteenth fields after the last closing bracket (the name before it may itself
/// hold spaces and brackets).
pub open spec fn stat_ticks(stat: Seq<char>) -> Option<nat> {
    let parts = split_on(stat, ')');
    let fields = words(parts.last());
    if parts.len() < 2 || fields.len() < 13 {
        None
    } else {
        match (uint_value(fields[11], 10, u64::MAX as nat), uint_value(
            fields[12],
            10,
            u64::MAX as nat,
        )) {
            (Some(utime), Some(stime)) => if utime + stime <= u64::MAX {
                Some(utime + stime)
            } else {
                None
            },
            _ => None,
        }
    }
}

pub fn parse_stat_ticks(stat: &str) -> (r: Option<u64>)
    ensures
        match r {
            Some(t) => stat_ticks(stat@) == Some(t as nat),
            None => stat_ticks(stat@) is None,
        },
{
    let chars: Vec<char> = chars_of(stat);
    let parts = split(chars.as_slice(), ')');
    if parts.len() < 2 {
        return None;
    }
    let tail = parts[parts.len() - 1];
    assert(slices(parts@).last() == tail@);
    let fields = split_whitespace(tail);
    if fields.len() < 13 {
        return None;
    }
    assert(slices(fields@)[11] == fields@[11]@ && slices(fields@)[12] == fields@[12]@);
    match (parse_u64(fields[11]), parse_u64(fields[12])) {
        (Some(utime), Some(stime)) => utime.checked_add(stime),
        _ => None,
    }
}

/// 64 cores: what lies past them is an artefact of clocks or counters.
pub const CPU_PCT_MAX: MilliPct = 6_400_000;

/// A reading of a process's CPU time: its ticks, and when they were read, in nanoseconds of a
/// clock that does not run backwards.
#[derive(Clone, Copy, Debug, PartialEq, Eq, Structural)]
pub struct Sighting {
    pub ticks: u64,
    pub at_ns: u64,
}

/// The CPU use between two readings, as a share of one core (a hundred ticks are one second of
/// it). `None` where the counter or the clock did not advance: no claim is made then.
pub open spec fn cpu_rate(prev: Sighting, now: Sighting) -> Option<MilliPct> {
    if now.ticks < prev.ticks || now.at_ns <= prev.at_ns {
        None
    } else {
        let pct = (now.ticks - prev.ticks) * 1_000_000_000_000 / (now.at_ns - prev.at_ns);
        Some(if pct > CPU_PCT_MAX {
            CPU_PCT_MAX
        } else {
            pct as MilliPct
        })
    }
}

fn rate(prev: &Sighting, now: &Sighting) -> (r: Option<MilliPct>)
    ensures
        r == cpu_rate(*prev, *now),
{
    if now.ticks < prev.ticks || now.at_ns <= prev.at_ns {
        return None;
    }
    let elapsed: u64 = now.at_ns - prev.at_ns;
    let pct: u128 = (now.ticks - prev.ticks) as u128 * 1_000_000_000_000 / elapsed as u128;
    if pct > CPU_PCT_MAX as u128 {
        Some(CPU_PCT_MAX)
    } else {
        Some(pct as MilliPct)
    }
}

/// The contents of a file that may be missing.
pub open spec fn contents(file: Option<&str>) -> Option<Seq<char>> {
    match file {
        Some(s) => Some(s@),
        None => None,
    }
}

/// The CPU use since the last reading of a process, by the contents of its stat file. Without a
/// reading before, or now, there is none.
pub open spec fn use_since(
    before: Option<Sighting>,
    stat: Option<Seq<char>>,
    now_ns: u64,
) -> Option<MilliPct> {
    match (before, stat) {
        (Some(prev), Some(s)) => match stat_ticks(s) {
            Some(ticks) => cpu_rate(prev, Sighting { ticks: ticks as u64, at_ns: now_ns }),
            None => None,
        },
        _ => None,
    }
}

/// What is remembered after a look at a process: the new reading, or else the old one.
pub open spec fn seen_after(
    before: Option<Sighting>,
    stat: Option<Seq<char>>,
    now_ns: u64,
) -> Option<Sighting> {
    match stat {
        Some(s) => match stat_ticks(s) {
            Some(ticks) => Some(Sighting { ticks: ticks as u64, at_ns: now_ns }),
            None => before,
        },
        None => before,
    }
}

/// Turns the cumulative CPU times of processes into rates.
pub struct CpuTracker {
    /// The last reading of each process.
    pub seen: PidTable<Sighting>,
}

impl CpuTracker {
    pub fn new() -> (r: Self)
        ensures
            r.seen.wf(),
            forall|pid: u32| #[trigger] r.seen.at(pid) is None,
    {
        CpuTracker { seen: PidTable::new() }
    }

    /// The CPU use of a process since its last reading, of the contents of its stat file (`None`
    /// where it cannot be read) at `now_ns`. The first reading only sets the mark to measure from.
    pub fn sample(&mut self, pid: u32, stat: Option<&str>, now_ns: u64) -> (r: Option<MilliPct>)
        requires
            old(self).seen.wf(),
        ensures
            final(self).seen.wf(),
            forall|p: u32|
                p != pid ==> #[trigger] final(self).seen.at(p) == old(self).seen.at(p),
            r == use_since(old(self).seen.at(pid), contents(stat), now_ns),
            final(self).seen.at(pid) == seen_after(old(self).seen.at(pid), contents(stat), now_ns),
            match stat {
                Some(s) => match stat_ticks(s@) {
                    Some(ticks) => {
                        let now = Sighting { ticks: ticks as u64, at_ns: now_ns };
                        &&& final(self).seen.at(pid) == Some(now)
                        &&& r == (match old(self).seen.at(pid) {
                            Some(prev) => cpu_rate(prev, now),
                            None => None,
                        })
                    },
                    None => r is None && final(self).seen.at(pid) == old(self).seen.at(pid),
                },
                None => r is None && final(self).seen.at(pid) == old(self).seen.at(pid),
            },
    {
        let ticks: u64 = match stat {
            Some(s) => match parse_stat_ticks(s) {
                Some(t) => t,
                None => {
                    return None;
                },
            },
            None => {
                return None;
            },
        };
        let now = Sighting { ticks, at_ns: now_ns };
        match self.seen.insert(pid, now) {
            Some(prev) => rate(&prev, &now),
            None => None,
        }
    }

    /// Forgets the processes that are not in `live_pids`.
    pub fn prune(&mut self, live_pids: &[u32])
        requires
            old(self).seen.wf(),
        ensures
            final(self).seen.wf(),
            forall|p: u32| #[trigger]
                final(self).seen.at(p) == (if live_pids@.contains(p) {
                    old(self).seen.at(p)
                } else {
                    None
                }),
    {
        self.seen.retain(live_pids);
    }
}

/// The contents of a process's cgroup file as its container: what cannot be read is no container.
pub fn container_of(cgroup: Option<&str>) -> (r: Option<String>)
    ensures
        text_view(r) == (match cgroup {
            Some(c) => container_label(line_texts(c@), 0),
            None => None,
        }),
{
    match cgroup {
        Some(c) => parse_cgroup(c),
        None => None,
    }
}

/// A reading is a rate of at most 64 cores, and of none at all where the counter stood still.
pub proof fn law_cpu_rate_is_bounded(prev: Sighting, now: Sighting)
    ensures
        cpu_rate(prev, now) matches Some(p) ==> 0 <= p <= CPU_PCT_MAX,
        now.ticks == prev.ticks && now.at_ns > prev.at_ns ==> cpu_rate(prev, now) == Some(
            0 as MilliPct,
        ),
{
}

/// The rate is the CPU time over the elapsed time, at the resolution of the clock and to the
/// thousandth of a percent below: a tick is 10 ms of one core. A process that used one core
/// throughout shows 100 % and one that used half of it 50 %, over an interval of any length. There
/// is a rate wherever the clock went on and the counter did not go back.
pub proof fn law_cpu_rate_is_cpu_time_over_elapsed_time(prev: Sighting, now: Sighting)
    ensures
        cpu_rate(prev, now) is Some <==> now.at_ns > prev.at_ns && now.ticks >= prev.ticks,
        cpu_rate(prev, now) matches Some(p) ==> ({
            let cpu_ns = (now.ticks - prev.ticks) * 10_000_000;
            let elapsed_ns = now.at_ns - prev.at_ns;
            &&& cpu_ns >= 64 * elapsed_ns ==> p == 6_400_000
            &&& cpu_ns <= 64 * elapsed_ns ==> p * elapsed_ns <= cpu_ns * 100_000 < (p + 1)
                * elapsed_ns
            &&& cpu_ns == elapsed_ns ==> p == 100_000
            &&& cpu_ns * 2 == elapsed_ns ==> p == 50_000
        }),
{
    if now.at_ns > prev.at_ns && now.ticks >= prev.ticks {
        let c = (now.ticks - prev.ticks) * 10_000_000;
        let e = (now.at_ns - prev.at_ns) as int;
        assert((now.ticks - prev.ticks) * 1_000_000_000_000 == c * 100_000);
        let q = (c * 100_000) / e;
        vstd::arithmetic::div_mod::lemma_fundamental_div_mod(c * 100_000, e);
        assert(q * e <= c * 100_000 < (q + 1) * e) by (nonlinear_arith)
            requires
                c * 100_000 == e * q + (c * 100_000) % e,
                0 <= (c * 100_000) % e < e,
        ;
        if c >= 64 * e {
            assert(q >= 6_400_000) by (nonlinear_arith)
                requires
                    c * 100_000 < (q + 1) * e,
                    c >= 64 * e,
                    e > 0,
            ;
        }
        if c <= 64 * e {
            assert(q <= 6_400_000) by (nonlinear_arith)
                requires
                    q * e <= c * 100_000,
                    c <= 64 * e,
                    e > 0,
            ;
        }
        assert(q >= 0) by (nonlinear_arith)
            requires
                c * 100_000 < (q + 1) * e,
                c >= 0,
                e > 0,
        ;
        assert(c == e ==> q == 100_000) by (nonlinear_arith)
            requires
                q * e <= c * 100_000 < (q + 1) * e,
                e > 0,
        ;
        assert(c * 2 == e ==> q == 50_000) by (nonlinear_arith)
            requires
                q * e <= c * 100_000 < (q + 1) * e,
                e > 0,
        ;
    }
}

/// A longer interval with the same CPU time never shows a higher rate, and one that is longer by a
/// `n`-th shows a rate that is lower by less than an `n`-th of it, and one unit of rounding.
pub proof fn law_cpu_rate_changes_little_with_the_interval(
    prev: Sighting,
    now: Sighting,
    later: Sighting,
    n: nat,
)
    requires
        now.ticks >= prev.ticks,
        now.ticks == later.ticks,
        prev.at_ns < now.at_ns <= later.at_ns,
        n * (later.at_ns - now.at_ns) <= now.at_ns - prev.at_ns,
    ensures
        cpu_rate(prev, later)->0 <= cpu_rate(prev, now)->0,
        n > 0 ==> (cpu_rate(prev, now)->0 - cpu_rate(prev, later)->0 - 1) * n <= cpu_rate(
            prev,
            now,
        )->0,
{
    let c = (now.ticks - prev.ticks) * 1_000_000_000_000;
    let e = (now.at_ns - prev.at_ns) as int;
    let d = (later.at_ns - now.at_ns) as int;
    let k = n as int;
    let cap = CPU_PCT_MAX as int;
    let q = c / e;
    let r = c / (e + d);
    vstd::arithmetic::div_mod::lemma_fundamental_div_mod(c, e);
    vstd::arithmetic::div_mod::lemma_fundamental_div_mod(c, e + d);
    assert(q * e <= c < (q + 1) * e) by (nonlinear_arith)
        requires
            c == e * q + c % e,
            0 <= c % e < e,
    ;
    assert(r * (e + d) <= c < (r + 1) * (e + d)) by (nonlinear_arith)
        requires
            c == (e + d) * r + c % (e + d),
            0 <= c % (e + d) < e + d,
    ;
    assert(r >= 0 && r <= q) by (nonlinear_arith)
        requires
            c >= 0,
            e > 0,
            d >= 0,
            c < (r + 1) * (e + d),
            r * (e + d) <= c,
            c < (q + 1) * e,
    ;
    if n > 0 {
        assert((q - r - 1) * k <= r + 1) by (nonlinear_arith)
            requires
                q * e < (r + 1) * (e + d),
                k * d <= e,
                e > 0,
                d >= 0,
                k > 0,
                r >= 0,
        ;
        assert((q - r - 1) * k <= q) by (nonlinear_arith)
            requires
                (q - r - 1) * k <= r + 1,
                r <= q,
                k > 0,
                r >= 0,
        ;
        if q > cap && r < cap {
            assert((cap - r - 1) * k <= cap) by (nonlinear_arith)
                requires
                    (q - r - 1) * k <= r + 1,
                    r < cap < q,
                    k > 0,
            ;
        }
        assert((cap - cap - 1) * k <= cap) by (nonlinear_arith)
            requires
                k > 0,
                cap >= 0,
        ;
    }
}

/// An id that is not at least twelve hexadecimal digits never makes a runtime's label.
pub proof fn law_no_id_is_made_up(runtime: Seq<char>, id: Seq<char>)
    ensures
        runtime_label(runtime, id) is Some <==> id.len() >= 12 && all_hex(id),
        runtime_label(runtime, id) matches Some(l) ==> l.len() == runtime.len() + 12,
{
}

/// The ticks in a stat file are those of the user and those of the system together: the 14th and
/// the 15th field, which are the 12th and the 13th behind the name, whatever the name holds, spaces
/// and parentheses included.
pub proof fn law_ticks_are_of_user_and_system(
    head: Seq<char>,
    fields: Seq<Seq<char>>,
    user: u64,
    system: u64,
)
    requires
        fields.len() >= 13,
        forall|i: int| 0 <= i < fields.len() ==> is_word(#[trigger] fields[i]),
        forall|i: int| 0 <= i < fields.len() ==> !(#[trigger] fields[i]).contains(')'),
        fields[11] == dec(user as nat),
        fields[12] == dec(system as nat),
    ensures
        stat_ticks(head + seq![')'] + spaced(fields)) == (if user + system <= u64::MAX {
            Some((user + system) as nat)
        } else {
            None
        }),
{
    lemma_no_parenthesis(fields);
    lemma_last_piece(head, spaced(fields), ')');
    law_words_read_back(fields);
    law_decimals_read_back(user as nat, u64::MAX as nat);
    law_decimals_read_back(system as nat, u64::MAX as nat);
}

proof fn lemma_no_parenthesis(fields: Seq<Seq<char>>)
    requires
        forall|i: int| 0 <= i < fields.len() ==> !(#[trigger] fields[i]).contains(')'),
    ensures
        !spaced(fields).contains(')'),
    decreases fields.len(),
{
    if fields.len() > 0 {
        let s = spaced(fields);
        let rest = fields.skip(1);
        assert forall|i: int| 0 <= i < rest.len() implies !(#[trigger] rest[i]).contains(')') by {
            assert(rest[i] == fields[i + 1]);
        }
        lemma_no_parenthesis(rest);
        if s.contains(')') {
            let k = choose|k: int| 0 <= k < s.len() && s[k] == ')';
            let w = fields[0];
            if 1 <= k <= w.len() {
                assert(w[k - 1] == ')');
            } else if k > w.len() {
                assert(spaced(rest)[k - 1 - w.len()] == ')');
            }
        }
    }
}

/// A container is named by its runtime and the first twelve digits of its id, in lower case, with
/// the end of a scope unit or without it: Docker, the three runtimes of Kubernetes, and Podman.
pub proof fn law_a_container_is_named_by_its_runtime(id: Seq<char>, scope: bool)
    requires
        id.len() >= 12,
        all_hex(id),
    ensures
        ({
            let end = if scope {
                ".scope"@
            } else {
                Seq::empty()
            };
            let short = ascii_lower(id.take(12));
            &&& segment_label("docker-"@ + id + end) == Some("docker:"@ + short)
            &&& segment_label("cri-containerd-"@ + id + end) == Some("k8s:"@ + short)
            &&& segment_label("crio-"@ + id + end) == Some("k8s:"@ + short)
            &&& segment_label("containerd-"@ + id + end) == Some("k8s:"@ + short)
            &&& segment_label("libpod-"@ + id + end) == Some("podman:"@ + short)
        }),
{
    reveal_strlit("docker-");
    reveal_strlit("cri-containerd-");
    reveal_strlit("crio-");
    reveal_strlit("containerd-");
    reveal_strlit("libpod-");
    lemma_scope("docker-"@, id, scope);
    lemma_scope("cri-containerd-"@, id, scope);
    lemma_scope("crio-"@, id, scope);
    lemma_scope("containerd-"@, id, scope);
    lemma_scope("libpod-"@, id, scope);
    let (a, b, c, d, e) = (
        "docker-"@ + id,
        "cri-containerd-"@ + id,
        "crio-"@ + id,
        "containerd-"@ + id,
        "libpod-"@ + id,
    );
    assert(a.skip(7) =~= id && b.skip(15) =~= id && c.skip(5) =~= id && d.skip(11) =~= id && e.skip(
        7,
    ) =~= id);
    assert(a.take(7) =~= "docker-"@ && b.take(15) =~= "cri-containerd-"@ && c.take(5) =~= "crio-"@
        && d.take(11) =~= "containerd-"@ && e.take(7) =~= "libpod-"@);
    // No two of the names start alike.
    assert(b.take(7)[0] == 'c' && c.take(7)[0] == 'c' && d.take(7)[0] == 'c' && e.take(7)[0] == 'l');
    assert("docker-"@[0] == 'd');
    assert(c.take(15)[3] == 'o' && d.take(15)[0] == 'c' && d.take(15)[1] == 'o' && e.take(15)[0]
        == 'l');
    assert("cri-containerd-"@[3] == '-' && "cri-containerd-"@[1] == 'r' && "cri-containerd-"@[0]
        == 'c');
    assert(d.take(5)[1] == 'o' && e.take(5)[0] == 'l');
    assert("crio-"@[1] == 'r' && "crio-"@[0] == 'c');
    assert(e.take(11)[0] == 'l');
    assert("containerd-"@[0] == 'c');
}

proof fn lemma_scope(prefix: Seq<char>, id: Seq<char>, scope: bool)
    requires
        id.len() >= 12,
        all_hex(id),
    ensures
        ({
            let end = if scope {
                ".scope"@
            } else {
                Seq::empty()
            };
            let seg = prefix + id + end;
            (match before_suffix(seg, ".scope"@) {
                Some(b) => b,
                None => seg,
            }) == prefix + id
        }),
{
    reveal_strlit(".scope");
    let end = if scope {
        ".scope"@
    } else {
        Seq::empty()
    };
    let seg = prefix + id + end;
    if scope {
        assert(seg.skip(seg.len() - 6) =~= ".scope"@);
        assert(seg.take(seg.len() - 6) =~= prefix + id);
    } else {
        assert(seg =~= prefix + id);
        assert(seg.skip(seg.len() - 6)[0] == id[id.len() - 6]);
        assert(is_hex_digit(id[id.len() - 6]));
        assert(".scope"@[0] == '.');
    }
}

/// The first line that tells a container decides, and on a line the first part that names one by
/// its runtime.
pub proof fn law_the_first_container_counts(ls: Seq<Seq<char>>, i: int)
    requires
        0 <= i < ls.len(),
        line_label(ls[i]) is Some,
        forall|j: int| 0 <= j < i ==> line_label(#[trigger] ls[j]) is None,
    ensures
        container_label(ls, 0) == line_label(ls[i]),
{
    lemma_container_from(ls, 0, i);
}

proof fn lemma_container_from(ls: Seq<Seq<char>>, a: int, i: int)
    requires
        0 <= a <= i < ls.len(),
        forall|j: int| a <= j < i ==> line_label(#[trigger] ls[j]) is None,
    ensures
        container_label(ls, a) == container_label(ls, i),
    decreases i - a,
{
    if a < i {
        lemma_container_from(ls, a + 1, i);
    }
}

/// The first look at a process shows no CPU use, and every later one that of the time since the look
/// before it, whatever was seen earlier: the CPU time in between over the time in between, to the
/// thousandth of a percent below. A look that could not read the file does not count as one.
pub proof fn law_cpu_use_is_measured_between_two_looks(
    before: Option<Sighting>,
    first: Seq<char>,
    first_ns: u64,
    second: Seq<char>,
    second_ns: u64,
)
    requires
        stat_ticks(first) is Some,
        stat_ticks(second) is Some,
    ensures
        use_since(None, Some(first), first_ns) is None,
        seen_after(before, None, first_ns) == before,
        use_since(before, None, first_ns) is None,
        ({
            let shown = use_since(seen_after(before, Some(first), first_ns), Some(second), second_ns);
            let cpu_ns = (stat_ticks(second)->0 - stat_ticks(first)->0) * 10_000_000;
            let elapsed_ns = second_ns - first_ns;
            &&& shown is Some <==> elapsed_ns > 0 && cpu_ns >= 0
            &&& shown matches Some(p) ==> (cpu_ns <= 64 * elapsed_ns ==> p * elapsed_ns <= cpu_ns
                * 100_000 < (p + 1) * elapsed_ns)
            &&& shown matches Some(p) ==> (cpu_ns >= 64 * elapsed_ns ==> p == 6_400_000)
        }),
{
    let prev = Sighting { ticks: stat_ticks(first)->0 as u64, at_ns: first_ns };
    let now = Sighting { ticks: stat_ticks(second)->0 as u64, at_ns: second_ns };
    law_cpu_rate_is_cpu_time_over_elapsed_time(prev, now);
}

/// On a line of a cgroup file the path behind the last colon counts. Its first part that names a
/// container by its runtime decides; without one, the part behind `lxc` names it; and without that,
/// a part that begins with `kubepods` only shows that there is one.
pub proof fn law_a_line_is_told_by_its_path(head: Seq<char>, path: Seq<char>, i: int)
    requires
        !path.contains(':'),
    ensures
        ({
            let line = head + seq![':'] + path;
            let parts = split_on(path, '/');
            &&& 0 <= i < parts.len() && segment_label(parts[i]) is Some && (forall|j: int|
                0 <= j < i ==> segment_label(#[trigger] parts[j]) is None) ==> line_label(line)
                == segment_label(parts[i])
            &&& (forall|j: int| 0 <= j < parts.len() ==> segment_label(#[trigger] parts[j]) is None)
                ==> {
                let names = parts.filter(|p: Seq<char>| p.len() > 0);
                &&& names.len() >= 2 && names[0] == "lxc"@ ==> line_label(line) == Some(
                    "lxc:"@ + names[1],
                )
                &&& line_label(line) is None ==> forall|j: int|
                    0 <= j < parts.len() ==> !has_prefix(#[trigger] parts[j], "kubepods"@)
                &&& (forall|j: int|
                    0 <= j < names.len() ==> #[trigger] names[j] != "lxc"@ && !has_prefix(
                        names[j],
                        "lxc.payload."@,
                    )) && 0 <= i < parts.len() && has_prefix(parts[i], "kubepods"@) ==> line_label(line)
                    == Some("k8s:?"@)
            }
        }),
{
    let line = head + seq![':'] + path;
    let parts = split_on(path, '/');
    lemma_last_piece(head, path, ':');
    if 0 <= i < parts.len() && (forall|j: int|
        0 <= j < i ==> segment_label(#[trigger] parts[j]) is None) {
        lemma_first_label(parts, 0, i);
    }
    if forall|j: int| 0 <= j < parts.len() ==> segment_label(#[trigger] parts[j]) is None {
        lemma_first_label(parts, 0, parts.len() as int);
        lemma_filled(parts);
        let names = filled(parts);
        if forall|j: int|
            0 <= j < names.len() ==> #[trigger] names[j] != "lxc"@ && !has_prefix(
                names[j],
                "lxc.payload."@,
            ) {
            lemma_lxc_skips(names, 0, names.len() as int);
        }
    }
}

proof fn lemma_first_label(segs: Seq<Seq<char>>, a: int, b: int)
    requires
        0 <= a <= b <= segs.len(),
        forall|j: int| a <= j < b ==> segment_label(#[trigger] segs[j]) is None,
    ensures
        first_label(segs, a) == first_label(segs, b),
    decreases b - a,
{
    if a < b {
        lemma_first_label(segs, a + 1, b);
    }
}

proof fn lemma_filled(segs: Seq<Seq<char>>)
    ensures
        filled(segs) == segs.filter(|p: Seq<char>| p.len() > 0),
    decreases segs.len(),
{
    reveal(Seq::filter);
    if segs.len() > 0 {
        lemma_filled(segs.drop_last());
    } else {
        assert(filled(segs) =~= segs);
    }
}

/// A container of LXC is named by the segment behind the first that is `lxc`, or by the rest of the
/// first that starts with its mark of a payload, whichever comes first.
pub proof fn law_a_container_of_lxc_is_named_by_its_segment(
    pre: Seq<Seq<char>>,
    name: Seq<char>,
    post: Seq<Seq<char>>,
)
    requires
        name.len() > 0,
        forall|i: int|
            0 <= i < pre.len() ==> #[trigger] pre[i] != "lxc"@ && !has_prefix(pre[i], "lxc.payload."@),
    ensures
        lxc_from(pre + seq!["lxc"@, name] + post, 0) == Some(name),
        lxc_from(pre + seq!["lxc.payload."@ + name] + post, 0) == Some(name),
        lxc_from(pre, 0) is None,
{
    let a = pre + seq!["lxc"@, name] + post;
    let marked = "lxc.payload."@ + name;
    let b = pre + seq![marked] + post;
    let n = pre.len() as int;
    lemma_lxc_skips(a, 0, n);
    lemma_lxc_skips(b, 0, n);
    lemma_lxc_skips(pre, 0, n);
    assert(a[n] == "lxc"@ && a[n + 1] == name);
    assert(b[n] == marked);
    reveal_strlit("lxc");
    reveal_strlit("lxc.payload.");
    assert(marked.len() > 3);
    assert(marked.take(12) =~= "lxc.payload."@);
    assert(marked.skip(12) =~= name);
}

proof fn lemma_lxc_skips(segs: Seq<Seq<char>>, i: int, n: int)
    requires
        0 <= i <= n <= segs.len(),
        forall|j: int|
            0 <= j < n ==> #[trigger] segs[j] != "lxc"@ && !has_prefix(segs[j], "lxc.payload."@),
    ensures
        lxc_from(segs, i) == lxc_from(segs, n),
    decreases n - i,
{
    if i < n {
        assert(segs[i] != "lxc"@);
        lemma_lxc_skips(segs, i + 1, n);
    }
}

/// A look that reads nothing leaves what was remembered of a process; one that reads replaces it.
pub proof fn law_an_unread_look_leaves_the_last_one(
    before: Option<Sighting>,
    stat: Option<Seq<char>>,
    now_ns: u64,
)
    ensures
        stat is None || stat_ticks(stat->0) is None ==> seen_after(before, stat, now_ns) == before,
        stat is Some && stat_ticks(stat->0) is Some ==> {
            let seen = seen_after(before, stat, now_ns);
            &&& seen is Some && seen->0.at_ns == now_ns
            &&& stat_ticks(stat->0)->0 <= u64::MAX ==> seen->0.ticks == stat_ticks(stat->0)->0
        },
{
}

} // verus!
