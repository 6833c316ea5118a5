//! What the Linux drivers of one kind share: cards, client counters, privileges, names.

use vstd::prelude::*;
use crate::model::MilliPct;
use crate::model::text_view;
use crate::scan::{after_prefix, has_prefix, line_texts, slices, trimmed_text, uint_value, words};
use crate::scan::{is_space, is_word, law_hexadecimals_read_back, law_words_read_back, spaced};
use crate::scan::{end_trimmed, start_trimmed};
use crate::text::{hex, hex_char};
use crate::scan::{lines, parse_u32, parse_u64, parse_uint, split_whitespace, strip_prefix, trim};
use crate::text::{ascii_lower, dec};
use crate::text::{chars_of, is_text, push_dec, text_of};

verus! {

/// What was read of an entry of the directory of cards.
pub struct CardFiles {
    /// The entry's name.
    pub name: String,
    /// Its device's vendor file.
    pub vendor: Option<String>,
    /// Its device's uevent file.
    pub uevent: Option<String>,
    /// The names in its device's hwmon directory.
    pub hwmon: Vec<String>,
}

#[verifier::ext_equal]
pub struct CardView {
    pub name: Seq<char>,
    pub vendor: Option<Seq<char>>,
    pub uevent: Option<Seq<char>>,
    pub hwmon: Seq<Seq<char>>,
}

/// The texts of a list of strings.
pub open spec fn texts(v: Seq<String>) -> Seq<Seq<char>> {
    Seq::new(v.len(), |i: int| v[i]@)
}

impl View for CardFiles {
    type V = CardView;

    open spec fn view(&self) -> CardView {
        CardView {
            name: self.name@,
            vendor: text_view(self.vendor),
            uevent: text_view(self.uevent),
            hwmon: texts(self.hwmon@),
        }
    }
}

pub open spec fn card_views(v: Seq<CardFiles>) -> Seq<CardView> {
    Seq::new(v.len(), |i: int| v[i]@)
}

/// The number of a card: `card` and digits. Connectors and render nodes have none.
pub open spec fn card_number(name: Seq<char>) -> Option<nat> {
    match after_prefix(name, "card"@) {
        Some(n) => uint_value(n, 10, u32::MAX as nat),
        None => None,
    }
}

pub fn card_index(name: &str) -> (r: Option<u32>)
    ensures
        match r {
            Some(n) => card_number(name@) == Some(n as nat),
            None => card_number(name@) is None,
        },
{
    let chars: Vec<char> = chars_of(name);
    match strip_prefix(chars.as_slice(), "card") {
        Some(n) => parse_u32(n),
        None => None,
    }
}

/// `x` put in after every entry whose number is not greater.
pub open spec fn place(order: Seq<(u32, usize)>, x: (u32, usize)) -> Seq<(u32, usize)>
    decreases order.len(),
{
    if order.len() == 0 || order.last().0 <= x.0 {
        order.push(x)
    } else {
        place(order.drop_last(), x).push(order.last())
    }
}

/// The cards by number, with their places in the list; of equal numbers the earlier first.
pub open spec fn numbered(cards: Seq<CardView>) -> Seq<(u32, usize)>
    decreases cards.len(),
{
    if cards.len() == 0 {
        Seq::empty()
    } else {
        let rest = numbered(cards.drop_last());
        match card_number(cards.last().name) {
            Some(n) => place(rest, (n as u32, (cards.len() - 1) as usize)),
            None => rest,
        }
    }
}

/// The cards in the order of their numbers.
pub open spec fn cards_in_order(cards: Seq<CardView>) -> Seq<CardView> {
    Seq::new(numbered(cards).len(), |i: int| cards[numbered(cards)[i].1 as int])
}

proof fn lemma_place(order: Seq<(u32, usize)>, x: (u32, usize), n: int)
    requires
        0 <= n <= order.len(),
        forall|k: int| n <= k < order.len() ==> (#[trigger] order[k]).0 > x.0,
        n > 0 ==> order[n - 1].0 <= x.0,
    ensures
        place(order, x) == order.insert(n, x),
    decreases order.len(),
{
    if n == order.len() {
        assert(order.insert(n, x) =~= order.push(x));
    } else {
        assert(order.last().0 > x.0);
        let t = order.drop_last();
        lemma_place(t, x, n);
        assert(t.insert(n, x).push(order.last()) =~= order.insert(n, x));
    }
}

proof fn lemma_place_from(order: Seq<(u32, usize)>, x: (u32, usize), bound: usize)
    requires
        forall|i: int| 0 <= i < order.len() ==> (#[trigger] order[i]).1 < bound,
        x.1 < bound,
    ensures
        forall|i: int| 0 <= i < place(order, x).len() ==> (#[trigger] place(order, x)[i]).1 < bound,
    decreases order.len(),
{
    if !(order.len() == 0 || order.last().0 <= x.0) {
        let t = order.drop_last();
        lemma_place_from(t, x, bound);
        assert(order[order.len() - 1].1 < bound);
        assert forall|i: int| 0 <= i < place(order, x).len() implies (#[trigger] place(
            order,
            x,
        )[i]).1 < bound by {
            if i < place(t, x).len() {
                assert(place(order, x)[i] == place(t, x)[i]);
            }
        }
    }
}

/// The places are places in the list.
pub proof fn lemma_numbered(cards: Seq<CardView>)
    requires
        cards.len() <= usize::MAX,
    ensures
        forall|i: int|
            0 <= i < numbered(cards).len() ==> (#[trigger] numbered(cards)[i]).1 < cards.len(),
    decreases cards.len(),
{
    if cards.len() > 0 {
        let t = cards.drop_last();
        lemma_numbered(t);
        if let Some(n) = card_number(cards.last().name) {
            lemma_place_from(
                numbered(t),
                (n as u32, (cards.len() - 1) as usize),
                cards.len() as usize,
            );
        }
    }
}

/// The numbers do not fall.
pub open spec fn in_number_order(order: Seq<(u32, usize)>) -> bool {
    forall|i: int, j: int|
        0 <= i <= j < order.len() ==> (#[trigger] order[i]).0 <= (#[trigger] order[j]).0
}

proof fn lemma_place_sorted(order: Seq<(u32, usize)>, x: (u32, usize))
    requires
        in_number_order(order),
    ensures
        in_number_order(place(order, x)),
        forall|i: int|
            0 <= i < place(order, x).len() ==> (#[trigger] place(order, x)[i]).0 <= (if order.len()
                > 0 && order.last().0 > x.0 {
                order.last().0
            } else {
                x.0
            }),
    decreases order.len(),
{
    let out = place(order, x);
    if order.len() == 0 || order.last().0 <= x.0 {
        assert forall|i: int| 0 <= i < out.len() implies (#[trigger] out[i]).0 <= x.0 by {
            if i < order.len() {
                assert(order[i].0 <= order[order.len() - 1].0);
            }
        }
    } else {
        let t = order.drop_last();
        assert(in_number_order(t));
        lemma_place_sorted(t, x);
        assert(t.len() > 0 ==> t.last().0 <= order.last().0) by {
            if t.len() > 0 {
                assert(order[t.len() - 1].0 <= order[order.len() - 1].0);
            }
        }
    }
}

/// Devices come in the order of their cards' numbers, whatever order the directory has.
pub proof fn law_cards_come_in_number_order(cards: Seq<CardView>)
    ensures
        in_number_order(numbered(cards)),
    decreases cards.len(),
{
    if cards.len() > 0 {
        law_cards_come_in_number_order(cards.drop_last());
        if let Some(n) = card_number(cards.last().name) {
            lemma_place_sorted(
                numbered(cards.drop_last()),
                (n as u32, (cards.len() - 1) as usize),
            );
        }
    }
}

/// Orders the cards by number.
pub fn order_cards(cards: &Vec<CardFiles>) -> (v: Vec<(u32, usize)>)
    ensures
        v@ == numbered(card_views(cards@)),
        forall|i: int| 0 <= i < v@.len() ==> (#[trigger] v@[i]).1 < cards@.len(),
{
    let ghost views = card_views(cards@);
    let mut v: Vec<(u32, usize)> = Vec::new();
    let mut i: usize = 0;
    assert(v@ =~= numbered(views.take(0)));
    while i < cards.len()
        invariant
            i <= cards.len(),
            views == card_views(cards@),
            v@ == numbered(views.take(i as int)),
        decreases cards.len() - i,
    {
        proof {
            assert(views.take(i + 1).drop_last() =~= views.take(i as int));
            assert(views.take(i + 1).last() == cards@[i as int]@);
        }
        if let Some(n) = card_index(cards[i].name.as_str()) {
            let mut k: usize = v.len();
            while k > 0 && v[k - 1].0 > n
                invariant
                    k <= v.len(),
                    forall|j: int| k <= j < v@.len() ==> (#[trigger] v@[j]).0 > n,
                decreases k,
            {
                k = k - 1;
            }
            proof {
                lemma_place(v@, (n, i), k as int);
            }
            v.insert(k, (n, i));
        }
        i = i + 1;
    }
    proof {
        assert(views.take(views.len() as int) =~= views);
        lemma_numbered(views);
    }
    v
}

/// What follows `key` on the first of the lines from `i` on that starts with it.
pub open spec fn field_from(ls: Seq<Seq<char>>, key: Seq<char>, i: int) -> Option<Seq<char>>
    decreases ls.len() - i,
{
    if i < 0 || i >= ls.len() {
        None
    } else {
        match after_prefix(ls[i], key) {
            Some(v) => Some(v),
            None => field_from(ls, key, i + 1),
        }
    }
}

/// A field of a uevent file, without the white space around it.
pub open spec fn uevent_value(uevent: Option<Seq<char>>, key: Seq<char>) -> Option<Seq<char>> {
    match uevent {
        Some(u) => match field_from(line_texts(u), key, 0) {
            Some(v) => Some(trimmed_text(v)),
            None => None,
        },
        None => None,
    }
}

/// A field of a uevent file (`DRIVER=`).
pub fn uevent_field(uevent: &Option<String>, key: &str) -> (r: Option<Vec<char>>)
    ensures
        match r {
            Some(v) => uevent_value(text_view(*uevent), key@) == Some(v@),
            None => uevent_value(text_view(*uevent), key@) is None,
        },
{
    let chars: Vec<char> = match uevent {
        Some(u) => chars_of(u.as_str()),
        None => {
            return None;
        },
    };
    let ls = lines(chars.as_slice());
    let ghost views = slices(ls@);
    let mut i: usize = 0;
    while i < ls.len()
        invariant
            i <= ls.len(),
            views == slices(ls@),
            uevent is Some,
            views == line_texts(uevent->0@),
            field_from(views, key@, i as int) == field_from(views, key@, 0),
        decreases ls.len() - i,
    {
        if let Some(v) = strip_prefix(ls[i], key) {
            let t = trim(v);
            return Some(copy_chars(t));
        }
        i = i + 1;
    }
    None
}

/// The characters of a slice.
pub fn copy_chars(s: &[char]) -> (v: Vec<char>)
    ensures
        v@ == s@,
{
    let mut v: Vec<char> = Vec::new();
    let mut i: usize = 0;
    while i < s.len()
        invariant
            i <= s.len(),
            v@ == s@.take(i as int),
        decreases s.len() - i,
    {
        v.push(s[i]);
        assert(s@.take(i + 1) =~= s@.take(i as int).push(s@[i as int]));
        i = i + 1;
    }
    assert(s@.take(i as int) =~= s@);
    v
}

/// The characters in ASCII lower case.
pub fn lower_text(s: &[char]) -> (t: String)
    ensures
        t@ == ascii_lower(s@),
{
    let mut t: String = String::new();
    let mut i: usize = 0;
    while i < s.len()
        invariant
            i <= s.len(),
            t@ == ascii_lower(s@).take(i as int),
        decreases s.len() - i,
    {
        t.push(crate::text::lower_char(s[i]));
        assert(ascii_lower(s@).take(i + 1) =~= ascii_lower(s@).take(i as int).push(
            crate::text::lower(s@[i as int]),
        ));
        i = i + 1;
    }
    assert(ascii_lower(s@).take(i as int) =~= ascii_lower(s@));
    t
}

/// The PCI address that a uevent file names, in lower case. An empty one is no identity.
pub open spec fn slot_name(uevent: Option<Seq<char>>) -> Option<Seq<char>> {
    match uevent_value(uevent, "PCI_SLOT_NAME="@) {
        Some(v) => if v.len() > 0 {
            Some(ascii_lower(v))
        } else {
            None
        },
        None => None,
    }
}

pub fn pci_slot_name(uevent: &Option<String>) -> (r: Option<String>)
    ensures
        text_view(r) == slot_name(text_view(*uevent)),
{
    match uevent_field(uevent, "PCI_SLOT_NAME=") {
        Some(v) => if v.len() > 0 {
            Some(lower_text(v.as_slice()))
        } else {
            None
        },
        None => None,
    }
}

/// `a` comes before `b`, or is the same, in the order of their characters.
pub open spec fn text_le(a: Seq<char>, b: Seq<char>) -> bool
    decreases a.len(),
{
    if a.len() == 0 {
        true
    } else if b.len() == 0 {
        false
    } else if a[0] != b[0] {
        a[0] < b[0]
    } else {
        text_le(a.skip(1), b.skip(1))
    }
}

fn is_text_le(a: &[char], b: &[char]) -> (r: bool)
    ensures
        r == text_le(a@, b@),
{
    let mut i: usize = 0;
    assert(a@.skip(0) =~= a@ && b@.skip(0) =~= b@);
    while i < a.len() && i < b.len()
        invariant
            i <= a.len(),
            i <= b.len(),
            text_le(a@.skip(i as int), b@.skip(i as int)) == text_le(a@, b@),
        decreases a.len() - i,
    {
        let x: char = a[i];
        let y: char = b[i];
        if x != y {
            return x < y;
        }
        assert(a@.skip(i as int).skip(1) =~= a@.skip(i + 1));
        assert(b@.skip(i as int).skip(1) =~= b@.skip(i + 1));
        i = i + 1;
    }
    i == a.len()
}

/// The first of the names in the order of their characters.
pub open spec fn least(names: Seq<Seq<char>>) -> Option<Seq<char>>
    decreases names.len(),
{
    if names.len() == 0 {
        None
    } else {
        match least(names.drop_last()) {
            Some(m) => if text_le(m, names.last()) {
                Some(m)
            } else {
                Some(names.last())
            },
            None => Some(names.last()),
        }
    }
}

/// The first hwmon directory of a device; many devices have none.
pub fn first_hwmon(dirs: &Vec<String>) -> (r: Option<String>)
    ensures
        text_view(r) == least(texts(dirs@)),
{
    let ghost views = texts(dirs@);
    let mut best: Option<usize> = None;
    let mut i: usize = 0;
    while i < dirs.len()
        invariant
            i <= dirs.len(),
            views == texts(dirs@),
            match best {
                Some(b) => b < dirs@.len() && least(views.take(i as int)) == Some(dirs@[b as int]@),
                None => least(views.take(i as int)) is None,
            },
        decreases dirs.len() - i,
    {
        proof {
            assert(views.take(i + 1).drop_last() =~= views.take(i as int));
            assert(views.take(i + 1).last() == dirs@[i as int]@);
        }
        match best {
            Some(b) => {
                let m: Vec<char> = chars_of(dirs[b].as_str());
                let x: Vec<char> = chars_of(dirs[i].as_str());
                if !is_text_le(m.as_slice(), x.as_slice()) {
                    best = Some(i);
                }
            },
            None => {
                best = Some(i);
            },
        }
        i = i + 1;
    }
    assert(views.take(i as int) =~= views);
    match best {
        Some(b) => Some(dirs[b].clone()),
        None => None,
    }
}

/// A file's contents are `want`, but for the white space around them.
pub open spec fn reads(file: Option<Seq<char>>, want: Seq<char>) -> bool {
    match file {
        Some(c) => trimmed_text(c) == want,
        None => false,
    }
}

pub fn reads_as(file: &Option<String>, want: &str) -> (r: bool)
    ensures
        r == reads(text_view(*file), want@),
{
    match file {
        Some(c) => {
            let chars: Vec<char> = chars_of(c.as_str());
            is_text(trim(chars.as_slice()), want)
        },
        None => false,
    }
}

/// The unsigned number in a file; `None` where there is no file, or none in it.
pub open spec fn file_number(file: Option<Seq<char>>, max: nat) -> Option<nat> {
    match file {
        Some(c) => uint_value(trimmed_text(c), 10, max),
        None => None,
    }
}

pub fn read_u64(file: &Option<String>) -> (r: Option<u64>)
    ensures
        match r {
            Some(v) => file_number(text_view(*file), u64::MAX as nat) == Some(v as nat),
            None => file_number(text_view(*file), u64::MAX as nat) is None,
        },
{
    match file {
        Some(c) => {
            let chars: Vec<char> = chars_of(c.as_str());
            parse_u64(trim(chars.as_slice()))
        },
        None => None,
    }
}

pub fn read_u32(file: &Option<String>) -> (r: Option<u32>)
    ensures
        match r {
            Some(v) => file_number(text_view(*file), u32::MAX as nat) == Some(v as nat),
            None => file_number(text_view(*file), u32::MAX as nat) is None,
        },
{
    match file {
        Some(c) => {
            let chars: Vec<char> = chars_of(c.as_str());
            parse_u32(trim(chars.as_slice()))
        },
        None => None,
    }
}

/// Milliwatts of a file of microwatts; of more than fit, the low 32 bits.
pub open spec fn file_mw(file: Option<Seq<char>>) -> Option<u32> {
    match file_number(file, u64::MAX as nat) {
        Some(uw) => Some((uw / 1000) as u32),
        None => None,
    }
}

pub fn read_mw(file: &Option<String>) -> (r: Option<u32>)
    ensures
        r == file_mw(text_view(*file)),
{
    match read_u64(file) {
        Some(uw) => Some((uw / 1000) as u32),
        None => None,
    }
}

/// The signed number in a file.
pub open spec fn file_int(file: Option<Seq<char>>) -> Option<int> {
    match file {
        Some(c) => crate::scan::int_value(trimmed_text(c)),
        None => None,
    }
}

pub fn read_i64(file: &Option<String>) -> (r: Option<i64>)
    ensures
        match r {
            Some(v) => file_int(text_view(*file)) == Some(v as int),
            None => file_int(text_view(*file)) is None,
        },
{
    match file {
        Some(c) => {
            let chars: Vec<char> = chars_of(c.as_str());
            crate::scan::parse_i64(trim(chars.as_slice()))
        },
        None => None,
    }
}

/// A PCI id in a file (`0x744c`): its digits, in lower case. An empty one is no id.
pub open spec fn hex_id(file: Option<Seq<char>>) -> Option<Seq<char>> {
    match file {
        Some(c) => {
            let t = trimmed_text(c);
            let d = match after_prefix(t, "0x"@) {
                Some(d) => d,
                None => t,
            };
            if d.len() > 0 {
                Some(ascii_lower(d))
            } else {
                None
            }
        },
        None => None,
    }
}

pub fn read_hex_id(file: &Option<String>) -> (r: Option<String>)
    ensures
        text_view(r) == hex_id(text_view(*file)),
{
    match file {
        Some(c) => {
            let chars: Vec<char> = chars_of(c.as_str());
            let t = trim(chars.as_slice());
            let d = match strip_prefix(t, "0x") {
                Some(d) => d,
                None => t,
            };
            if d.len() > 0 {
                Some(lower_text(d))
            } else {
                None
            }
        },
        None => None,
    }
}

/// The contents of a process's comm file, or a stand-in where there is no name in it.
pub open spec fn comm_text(comm: Option<Seq<char>>, pid: u32) -> Seq<char> {
    match comm {
        Some(c) => if trimmed_text(c).len() > 0 {
            trimmed_text(c)
        } else {
            "pid "@ + dec(pid as nat)
        },
        None => "pid "@ + dec(pid as nat),
    }
}

pub fn comm_name(comm: &Option<String>, pid: u32) -> (r: String)
    ensures
        r@ == comm_text(text_view(*comm), pid),
{
    if let Some(c) = comm {
        let chars: Vec<char> = chars_of(c.as_str());
        let t = trim(chars.as_slice());
        if t.len() > 0 {
            return text_of(t);
        }
    }
    let mut out: String = String::new();
    out.append("pid ");
    push_dec(&mut out, pid as u128);
    assert(out@ =~= "pid "@ + dec(pid as nat));
    out
}

/// The line says that the effective user is root.
pub open spec fn is_root_line(line: Seq<char>) -> bool {
    match after_prefix(line, "Uid:"@) {
        Some(uids) => words(uids).len() > 1 && words(uids)[1] == "0"@,
        None => false,
    }
}

/// The line says that the process may trace others: bit 19 of the effective capabilities.
pub open spec fn is_tracer_line(line: Seq<char>) -> bool {
    match after_prefix(line, "CapEff:"@) {
        Some(mask) => match uint_value(trimmed_text(mask), 16, u64::MAX as nat) {
            Some(bits) => (bits / 0x8_0000) % 2 == 1,
            None => false,
        },
        None => false,
    }
}

/// The contents of the own status file grant a look at every process's clients.
pub open spec fn grants_full_scan(status: Seq<char>) -> bool {
    exists|i: int|
        0 <= i < line_texts(status).len() && (is_root_line(#[trigger] line_texts(status)[i])
            || is_tracer_line(line_texts(status)[i]))
}

fn line_grants(line: &[char]) -> (r: bool)
    ensures
        r == (is_root_line(line@) || is_tracer_line(line@)),
{
    if let Some(uids) = strip_prefix(line, "Uid:") {
        let fields = split_whitespace(uids);
        if fields.len() > 1 {
            assert(slices(fields@)[1] == fields@[1]@);
            if is_text(fields[1], "0") {
                return true;
            }
        }
    }
    if let Some(mask) = strip_prefix(line, "CapEff:") {
        if let Some(bits) = parse_uint(trim(mask), 16, u64::MAX) {
            assert((bits & 0x8_0000 != 0) == ((bits / 0x8_0000) % 2 == 1)) by (bit_vector);
            return bits & 0x8_0000 != 0;
        }
    }
    false
}

/// Does the own status file grant a look at every process's clients? (Effective user root, or the
/// capability to trace.)
pub fn status_grants_full_proc_scan(status: &str) -> (r: bool)
    ensures
        r == grants_full_scan(status@),
{
    let chars: Vec<char> = chars_of(status);
    let ls = lines(chars.as_slice());
    let ghost views = slices(ls@);
    let mut i: usize = 0;
    while i < ls.len()
        invariant
            i <= ls.len(),
            views == slices(ls@),
            views == line_texts(status@),
            forall|k: int|
                0 <= k < i ==> !is_root_line(#[trigger] views[k]) && !is_tracer_line(views[k]),
        decreases ls.len() - i,
    {
        if line_grants(ls[i]) {
            assert(is_root_line(views[i as int]) || is_tracer_line(views[i as int]));
            return true;
        }
        i = i + 1;
    }
    false
}

/// Why the list of processes may be incomplete, where it may: a status file that cannot be read
/// grants nothing.
pub open spec fn process_hint_text(status: Option<Seq<char>>) -> Option<Seq<char>> {
    match status {
        Some(s) => if grants_full_scan(s) {
            None
        } else {
            Some("showing your processes only — others need root or CAP_SYS_PTRACE (fdinfo)"@)
        },
        None => Some(
            "showing your processes only — others need root or CAP_SYS_PTRACE (fdinfo)"@,
        ),
    }
}

pub fn fdinfo_process_hint(status: &Option<String>) -> (r: Option<String>)
    ensures
        text_view(r) == process_hint_text(text_view(*status)),
{
    let full: bool = match status {
        Some(s) => status_grants_full_proc_scan(s.as_str()),
        None => false,
    };
    if full {
        None
    } else {
        let mut out: String = String::new();
        out.append("showing your processes only — others need root or CAP_SYS_PTRACE (fdinfo)");
        assert(out@
            =~= "showing your processes only — others need root or CAP_SYS_PTRACE (fdinfo)"@);
        Some(out)
    }
}

/// A reading of a counter: its value, and the base it is measured against (milliseconds of wall
/// time, or ticks).
#[derive(Clone, Copy, Debug, PartialEq, Eq, Structural)]
pub struct Mark {
    pub count: u64,
    pub base: u64,
}

/// The share of `total` that `busy` is, at most all of it.
pub open spec fn share(busy: nat, total: nat) -> MilliPct {
    let pct = busy * 100_000 / total;
    if pct > 100_000 {
        100_000
    } else {
        pct as MilliPct
    }
}

fn share_of(busy: u128, total: u128) -> (r: MilliPct)
    requires
        total > 0,
        busy <= u64::MAX,
    ensures
        r == share(busy as nat, total as nat),
{
    let pct: u128 = busy * 100_000 / total;
    if pct > 100_000 {
        100_000
    } else {
        pct as MilliPct
    }
}

/// Utilization of an engine whose counter is of busy nanoseconds: their share of the wall time
/// between two readings. `None` where either did not advance as it must.
pub open spec fn engine_rate(prev: Mark, now: Mark) -> Option<MilliPct> {
    if now.base <= prev.base || now.count < prev.count {
        None
    } else {
        Some(share((now.count - prev.count) as nat, ((now.base - prev.base) * 1_000_000) as nat))
    }
}

pub fn engine_util_pct(prev_ns: u64, prev_ts_ms: u64, cur_ns: u64, cur_ts_ms: u64) -> (r: Option<
    MilliPct,
>)
    ensures
        r == engine_rate(
            Mark { count: prev_ns, base: prev_ts_ms },
            Mark { count: cur_ns, base: cur_ts_ms },
        ),
{
    if cur_ts_ms <= prev_ts_ms || cur_ns < prev_ns {
        return None;
    }
    let wall_ns: u128 = (cur_ts_ms - prev_ts_ms) as u128 * 1_000_000;
    Some(share_of((cur_ns - prev_ns) as u128, wall_ns))
}

/// Utilization of an engine whose counter is of busy ticks: their share of the ticks that elapsed,
/// never of wall time. `None` where either did not advance as it must.
pub open spec fn cycles_rate(prev: Mark, now: Mark) -> Option<MilliPct> {
    if now.base <= prev.base || now.count < prev.count {
        None
    } else {
        Some(share((now.count - prev.count) as nat, (now.base - prev.base) as nat))
    }
}

pub fn cycles_util_pct(prev_c: u64, prev_t: u64, cur_c: u64, cur_t: u64) -> (r: Option<MilliPct>)
    ensures
        r == cycles_rate(Mark { count: prev_c, base: prev_t }, Mark { count: cur_c, base: cur_t }),
{
    if cur_t <= prev_t || cur_c < prev_c {
        return None;
    }
    Some(share_of((cur_c - prev_c) as u128, (cur_t - prev_t) as u128))
}

/// A utilization never exceeds the whole, and a counter that stood still is none.
pub proof fn law_utilization_is_a_share(prev: Mark, now: Mark)
    ensures
        engine_rate(prev, now) matches Some(p) ==> 0 <= p <= 100_000,
        cycles_rate(prev, now) matches Some(p) ==> 0 <= p <= 100_000,
        now.count == prev.count && now.base > prev.base ==> engine_rate(prev, now) == Some(
            0 as MilliPct,
        ) && cycles_rate(prev, now) == Some(0 as MilliPct),
{
    if now.base > prev.base && now.count >= prev.count {
        let d = (now.base - prev.base) * 1_000_000;
        let e = now.base - prev.base;
        assert(0int / d == 0 && 0int / e == 0) by (nonlinear_arith)
            requires
                d > 0,
                e > 0,
        ;
    }
}

/// What a share of a whole must satisfy, whatever it was computed by: the part over the whole, to
/// the thousandth of a percent below, and everything where the part is no less than the whole.
pub proof fn lemma_share(busy: nat, total: nat)
    requires
        total > 0,
    ensures
        busy >= total ==> share(busy, total) == 100_000,
        busy <= total ==> share(busy, total) * total <= busy * 100_000 < (share(busy, total) + 1)
            * total,
        busy * 2 == total ==> share(busy, total) == 50_000,
{
    let q = (busy * 100_000) as int / total as int;
    let b = busy as int;
    let t = total as int;
    vstd::arithmetic::div_mod::lemma_fundamental_div_mod(b * 100_000, t);
    assert(q * t <= b * 100_000 < (q + 1) * t) by (nonlinear_arith)
        requires
            b * 100_000 == t * q + (b * 100_000) % t,
            0 <= (b * 100_000) % t < t,
    ;
    if b >= t {
        assert(q >= 100_000) by (nonlinear_arith)
            requires
                b * 100_000 < (q + 1) * t,
                b >= t,
                t > 0,
        ;
    }
    if b <= t {
        assert(q <= 100_000) by (nonlinear_arith)
            requires
                q * t <= b * 100_000,
                b <= t,
                t > 0,
        ;
    }
    if b * 2 == t {
        assert(q == 50_000) by (nonlinear_arith)
            requires
                q * t <= b * 100_000 < (q + 1) * t,
                b * 2 == t,
                t > 0,
        ;
    }
}

/// Utilization by busy nanoseconds is the busy time over the wall time between two readings, to the
/// thousandth of a percent below: an engine that was busy all the time, or more, shows exactly
/// 100 %, and one that was busy half of it exactly 50 %, however far apart the readings are. There
/// is one wherever time went on and the counter did not go back.
pub proof fn law_utilization_is_busy_time_over_wall_time(prev: Mark, now: Mark)
    ensures
        engine_rate(prev, now) is Some <==> now.base > prev.base && now.count >= prev.count,
        engine_rate(prev, now) matches Some(p) ==> ({
            let busy_ns = now.count - prev.count;
            let wall_ns = (now.base - prev.base) * 1_000_000;
            &&& busy_ns >= wall_ns ==> p == 100_000
            &&& busy_ns <= wall_ns ==> p * wall_ns <= busy_ns * 100_000 < (p + 1) * wall_ns
            &&& busy_ns * 2 == wall_ns ==> p == 50_000
        }),
{
    if now.base > prev.base && now.count >= prev.count {
        lemma_share(
            (now.count - prev.count) as nat,
            ((now.base - prev.base) * 1_000_000) as nat,
        );
    }
}

/// Utilization by busy ticks is the busy ticks over those that elapsed, to the thousandth of a
/// percent below; as with time, an engine that was always busy shows exactly 100 %, and one that
/// was busy half of the ticks exactly 50 %.
pub proof fn law_utilization_is_busy_ticks_over_ticks(prev: Mark, now: Mark)
    ensures
        cycles_rate(prev, now) is Some <==> now.base > prev.base && now.count >= prev.count,
        cycles_rate(prev, now) matches Some(p) ==> ({
            let busy = now.count - prev.count;
            let elapsed = now.base - prev.base;
            &&& busy >= elapsed ==> p == 100_000
            &&& busy <= elapsed ==> p * elapsed <= busy * 100_000 < (p + 1) * elapsed
            &&& busy * 2 == elapsed ==> p == 50_000
        }),
{
    if now.base > prev.base && now.count >= prev.count {
        lemma_share((now.count - prev.count) as nat, (now.base - prev.base) as nat);
    }
}

/// The length of the interval does not count: where both the counter and its base advanced `k`
/// times as far between two other readings, utilization is the same.
pub proof fn law_the_length_of_the_interval_does_not_count(
    prev: Mark,
    now: Mark,
    other_prev: Mark,
    other_now: Mark,
    k: nat,
)
    requires
        k > 0,
        now.base > prev.base,
        now.count >= prev.count,
        other_now.base - other_prev.base == k * (now.base - prev.base),
        other_now.count - other_prev.count == k * (now.count - prev.count),
    ensures
        engine_rate(other_prev, other_now) == engine_rate(prev, now),
        cycles_rate(other_prev, other_now) == cycles_rate(prev, now),
{
    let b = (now.count - prev.count) as int;
    let e = (now.base - prev.base) as int;
    let n = k as int;
    assert(n * e > 0 && n * b >= 0) by (nonlinear_arith)
        requires
            n > 0,
            e > 0,
            b >= 0,
    ;
    assert((n * b) * 100_000 == n * (b * 100_000)) by (nonlinear_arith);
    assert((n * e) * 1_000_000 == n * (e * 1_000_000)) by (nonlinear_arith);
    lemma_scaled(b * 100_000, e, n);
    lemma_scaled(b * 100_000, e * 1_000_000, n);
}

proof fn lemma_scaled(a: int, d: int, k: int)
    requires
        a >= 0,
        d > 0,
        k > 0,
    ensures
        (k * a) / (k * d) == a / d,
{
    vstd::arithmetic::div_mod::lemma_fundamental_div_mod(a, d);
    let q = a / d;
    let r = a % d;
    assert(k * a == q * (k * d) + k * r) by (nonlinear_arith)
        requires
            a == d * q + r,
    ;
    assert(0 <= k * r < k * d) by (nonlinear_arith)
        requires
            0 <= r < d,
            k > 0,
    ;
    vstd::arithmetic::div_mod::lemma_fundamental_div_mod_converse(k * a, k * d, q, k * r);
}

/// A file of microwatts is told in whole milliwatts, a thousand to one, as far as they fit.
pub proof fn law_a_thousand_microwatts_are_a_milliwatt(file: Option<Seq<char>>, uw: nat)
    requires
        file_number(file, u64::MAX as nat) == Some(uw),
        uw <= 0x3e7_ffff_ffff,
    ensures
        file_mw(file) matches Some(mw) && mw * 1000 <= uw < mw * 1000 + 1000,
{
}

/// `out` has exactly the cards that have a number, each once, by rising number; of two with the
/// same number the one that the directory gives first comes first.
pub open spec fn orders_cards(out: Seq<(u32, usize)>, cards: Seq<CardView>) -> bool {
    &&& forall|i: int|
        0 <= i < out.len() ==> (#[trigger] out[i]).1 < cards.len() && card_number(
            cards[out[i].1 as int].name,
        ) == Some(out[i].0 as nat)
    &&& forall|k: int|
        0 <= k < cards.len() ==> (card_number((#[trigger] cards[k]).name) matches Some(n)
            ==> out.contains((n as u32, k as usize)))
    &&& forall|i: int, j: int|
        0 <= i < j < out.len() ==> (#[trigger] out[i]).0 < (#[trigger] out[j]).0 || (out[i].0
            == out[j].0 && out[i].1 < out[j].1)
}

/// The cards come in the order of their numbers, all that have one and no others.
pub proof fn law_every_card_comes_once(cards: Seq<CardView>)
    requires
        cards.len() <= usize::MAX,
    ensures
        orders_cards(numbered(cards), cards),
    decreases cards.len(),
{
    if cards.len() > 0 {
        let t = cards.drop_last();
        let rest = numbered(t);
        law_every_card_comes_once(t);
        law_cards_come_in_number_order(t);
        assert(cards[t.len() as int] == cards.last());
        assert forall|i: int| 0 <= i < rest.len() implies (#[trigger] rest[i]).1 < cards.len() - 1
            && card_number(cards[rest[i].1 as int].name) == Some(rest[i].0 as nat) by {
            assert(t[rest[i].1 as int] == cards[rest[i].1 as int]);
        }
        assert forall|k: int| 0 <= k < cards.len() - 1 implies (card_number(
            (#[trigger] cards[k]).name,
        ) matches Some(n) ==> rest.contains((n as u32, k as usize))) by {
            assert(t[k] == cards[k]);
        }
        if let Some(n) = card_number(cards.last().name) {
            lemma_number_fits(cards.last().name);
            lemma_card_placed(rest, cards, (n as u32, (cards.len() - 1) as usize));
        }
    }
}

proof fn lemma_card_placed(rest: Seq<(u32, usize)>, cards: Seq<CardView>, x: (u32, usize))
    requires
        0 < cards.len() <= usize::MAX,
        x.1 == cards.len() - 1,
        card_number(cards.last().name) == Some(x.0 as nat),
        in_number_order(rest),
        forall|i: int|
            0 <= i < rest.len() ==> (#[trigger] rest[i]).1 < cards.len() - 1 && card_number(
                cards[rest[i].1 as int].name,
            ) == Some(rest[i].0 as nat),
        forall|k: int|
            0 <= k < cards.len() - 1 ==> (card_number((#[trigger] cards[k]).name) matches Some(n)
                ==> rest.contains((n as u32, k as usize))),
        forall|i: int, j: int|
            0 <= i < j < rest.len() ==> (#[trigger] rest[i]).0 < (#[trigger] rest[j]).0 || (
            rest[i].0 == rest[j].0 && rest[i].1 < rest[j].1),
    ensures
        orders_cards(place(rest, x), cards),
{
    let out = place(rest, x);
    let at = lemma_place_at(rest, x);
    assert(out.len() == rest.len() + 1);
    assert(out[at] == x);
    assert forall|i: int| 0 <= i < out.len() && i != at implies #[trigger] out[i] == rest[if i
        < at {
        i
    } else {
        i - 1
    }] by {}
    assert(cards[x.1 as int] == cards.last());
    assert forall|k: int| 0 <= k < cards.len() implies (card_number(
        (#[trigger] cards[k]).name,
    ) matches Some(n) ==> out.contains((n as u32, k as usize))) by {
        if let Some(n) = card_number(cards[k].name) {
            if k < cards.len() - 1 {
                let e = (n as u32, k as usize);
                let i = choose|i: int| 0 <= i < rest.len() && rest[i] == e;
                if i < at {
                    assert(out[i] == e);
                } else {
                    assert(out[i + 1] == e);
                }
            }
        }
    }
}

proof fn lemma_number_fits(name: Seq<char>)
    ensures
        card_number(name) matches Some(n) ==> n <= u32::MAX,
{
}

/// The place that `x` takes: behind all that are not greater, before all that are.
proof fn lemma_place_at(order: Seq<(u32, usize)>, x: (u32, usize)) -> (at: int)
    requires
        in_number_order(order),
    ensures
        0 <= at <= order.len(),
        place(order, x) == order.insert(at, x),
        forall|k: int| 0 <= k < at ==> (#[trigger] order[k]).0 <= x.0,
        forall|k: int| at <= k < order.len() ==> (#[trigger] order[k]).0 > x.0,
    decreases order.len(),
{
    if order.len() == 0 || order.last().0 <= x.0 {
        let n = order.len() as int;
        assert(order.insert(n, x) =~= order.push(x));
        assert forall|k: int| 0 <= k < n implies (#[trigger] order[k]).0 <= x.0 by {
            assert(order[k].0 <= order[n - 1].0);
        }
        n
    } else {
        let t = order.drop_last();
        assert(in_number_order(t));
        let at = lemma_place_at(t, x);
        assert(t.insert(at, x).push(order.last()) =~= order.insert(at, x));
        assert forall|k: int| 0 <= k < at implies (#[trigger] order[k]).0 <= x.0 by {
            assert(t[k] == order[k]);
        }
        assert forall|k: int| at <= k < order.len() implies (#[trigger] order[k]).0 > x.0 by {
            if k < t.len() {
                assert(t[k] == order[k]);
            }
        }
        at
    }
}

/// Texts are in the order of their first characters that differ; where there are none, the shorter
/// one comes first.
pub proof fn law_texts_are_ordered_by_their_first_difference(
    common: Seq<char>,
    a: Seq<char>,
    b: Seq<char>,
)
    ensures
        text_le(common, common + b),
        b.len() > 0 ==> !text_le(common + b, common),
        a.len() > 0 && b.len() > 0 && a[0] != b[0] ==> (text_le(common + a, common + b) <==> a[0]
            < b[0]),
    decreases common.len(),
{
    if common.len() > 0 {
        let c = common.skip(1);
        law_texts_are_ordered_by_their_first_difference(c, a, b);
        assert((common + a).skip(1) =~= c + a);
        assert((common + b).skip(1) =~= c + b);
    } else {
        assert(common + a =~= a);
        assert(common + b =~= b);
    }
}

/// The first of some names is one of them, and none comes before it.
pub proof fn law_the_first_name_comes_before_all(names: Seq<Seq<char>>)
    ensures
        names.len() == 0 <==> least(names) is None,
        least(names) matches Some(m) ==> names.contains(m) && forall|i: int|
            0 <= i < names.len() ==> text_le(m, #[trigger] names[i]),
    decreases names.len(),
{
    if names.len() > 0 {
        let t = names.drop_last();
        let l = names.last();
        law_the_first_name_comes_before_all(t);
        assert(names[names.len() - 1] == l);
        lemma_text_le_total(l, l);
        if let Some(m) = least(t) {
            let k = choose|k: int| 0 <= k < t.len() && t[k] == m;
            assert(names[k] == m);
            lemma_text_le_total(m, l);
            assert forall|i: int| 0 <= i < names.len() implies text_le(
                least(names)->0,
                #[trigger] names[i],
            ) by {
                if i < t.len() {
                    assert(t[i] == names[i]);
                    if !text_le(m, l) {
                        lemma_text_le_trans(l, m, names[i]);
                    }
                }
            }
        }
    }
}

proof fn lemma_text_le_total(a: Seq<char>, b: Seq<char>)
    ensures
        text_le(a, b) || text_le(b, a),
    decreases a.len(),
{
    if a.len() > 0 && b.len() > 0 {
        lemma_text_le_total(a.skip(1), b.skip(1));
    }
}

proof fn lemma_text_le_trans(a: Seq<char>, b: Seq<char>, c: Seq<char>)
    requires
        text_le(a, b),
        text_le(b, c),
    ensures
        text_le(a, c),
    decreases a.len(),
{
    if a.len() > 0 && b.len() > 0 && c.len() > 0 && a[0] == b[0] && b[0] == c[0] {
        lemma_text_le_trans(a.skip(1), b.skip(1), c.skip(1));
    }
}

/// A field of a uevent file is that of its first line, without the white space around it.
pub proof fn law_the_first_line_of_a_field_counts(uevent: Seq<char>, key: Seq<char>, i: int)
    requires
        0 <= i < line_texts(uevent).len(),
        has_prefix(line_texts(uevent)[i], key),
        forall|j: int| 0 <= j < i ==> !has_prefix(#[trigger] line_texts(uevent)[j], key),
    ensures
        uevent_value(Some(uevent), key) == Some(
            trimmed_text(line_texts(uevent)[i].skip(key.len() as int)),
        ),
{
    lemma_field_from(line_texts(uevent), key, 0, i);
}

proof fn lemma_field_from(ls: Seq<Seq<char>>, key: Seq<char>, a: int, i: int)
    requires
        0 <= a <= i < ls.len(),
        forall|j: int| a <= j < i ==> !has_prefix(#[trigger] ls[j], key),
    ensures
        field_from(ls, key, a) == field_from(ls, key, i),
    decreases i - a,
{
    if a < i {
        lemma_field_from(ls, key, a + 1, i);
    }
}

/// All processes can be looked at by an effective user of root, which is the second of the ids, and
/// with the capability to trace, which is bit 19 of the effective ones.
pub proof fn law_root_and_tracers_see_all(ids: Seq<Seq<char>>, bits: u64, zeros: nat)
    requires
        forall|i: int| 0 <= i < ids.len() ==> is_word(#[trigger] ids[i]),
    ensures
        is_root_line("Uid:"@ + spaced(ids)) <==> ids.len() > 1 && ids[1] == "0"@,
        is_tracer_line("CapEff:"@ + (Seq::new(zeros, |i: int| '0') + hex(bits as nat))) <==> bits
            & (1u64 << 19) != 0,
{
    let a = "Uid:"@ + spaced(ids);
    assert(a.take("Uid:"@.len() as int) =~= "Uid:"@);
    assert(a.skip("Uid:"@.len() as int) =~= spaced(ids));
    law_words_read_back(ids);
    let digits = Seq::new(zeros, |i: int| '0') + hex(bits as nat);
    let b = "CapEff:"@ + digits;
    assert(b.take("CapEff:"@.len() as int) =~= "CapEff:"@);
    assert(b.skip("CapEff:"@.len() as int) =~= digits);
    law_hexadecimals_read_back(bits as nat, zeros, u64::MAX as nat);
    lemma_digits_are_trimmed(bits as nat, zeros);
    assert((bits / 0x8_0000) % 2 == 1 <==> bits & (1u64 << 19) != 0) by (bit_vector);
}

proof fn lemma_digits_are_trimmed(n: nat, zeros: nat)
    ensures
        ({
            let s = Seq::new(zeros, |i: int| '0') + hex(n);
            trimmed_text(s) == s
        }),
{
    let s = Seq::new(zeros, |i: int| '0') + hex(n);
    lemma_hex_ends(n);
    assert(s.last() == hex(n).last());
    assert(s[0] == (if zeros > 0 {
        '0'
    } else {
        hex(n)[0]
    }));
    assert(!is_space(s[0]) && !is_space(s.last()));
    assert(start_trimmed(s) == s);
    assert(end_trimmed(s) == s);
}

proof fn lemma_hex_ends(n: nat)
    ensures
        hex(n).len() > 0,
        !is_space(hex(n)[0]),
        !is_space(hex(n).last()),
    decreases n,
{
    assert(forall|d: int| 0 <= d < 16 ==> !is_space(#[trigger] hex_char(d)));
    if n >= 16 {
        lemma_hex_ends(n / 16);
        assert(hex(n)[0] == hex(n / 16)[0]);
        assert(hex(n).last() == hex_char((n % 16) as int));
    } else {
        assert(hex(n)[0] == hex_char(n as int));
    }
}

/// A PCI id reads the same with `0x` in front or without, with a line's end or without, and in
/// capitals or not; a file with nothing in it has none.
pub proof fn law_an_id_is_its_digits(d: Seq<char>)
    requires
        is_word(d),
        !has_prefix(d, "0x"@),
    ensures
        hex_id(Some(d)) == Some(ascii_lower(d)),
        hex_id(Some("0x"@ + d)) == Some(ascii_lower(d)),
        hex_id(Some("0x"@ + d + seq!['\n'])) == Some(ascii_lower(d)),
        hex_id(Some(seq!['\n'])) is None,
        hex_id(None) is None,
{
    reveal_strlit("0x");
    let marked = "0x"@ + d;
    let line = marked + seq!['\n'];
    assert(!is_space(d[0]) && !is_space(d[d.len() - 1]));
    assert(trimmed_text(d) == d);
    assert(marked[0] == '0' && marked.last() == d.last());
    assert(trimmed_text(marked) == marked);
    assert(line[0] == '0' && line.last() == '\n');
    assert(line.drop_last() =~= marked);
    assert(end_trimmed(line) == end_trimmed(marked));
    assert(trimmed_text(line) == marked);
    assert(marked.take(2) =~= "0x"@);
    assert(marked.skip(2) =~= d);
    let blank = seq!['\n'];
    assert(is_space(blank[0]));
    assert(blank.skip(1) =~= Seq::empty());
    reveal_with_fuel(start_trimmed, 2);
    reveal_with_fuel(end_trimmed, 2);
    assert(trimmed_text(blank).len() == 0);
}

/// No hint is shown where a line of the own status file says that all processes can be looked at;
/// else, and where there is no such file, one is.
pub proof fn law_a_hint_is_shown_to_those_who_see_less(status: Seq<char>)
    ensures
        process_hint_text(Some(status)) is None <==> line_texts(status).filter(
            |l: Seq<char>| is_root_line(l) || is_tracer_line(l),
        ).len() > 0,
        process_hint_text(Some(status)) matches Some(h) ==> Some(h) == process_hint_text(None),
        process_hint_text(None) == Some(
            "showing your processes only — others need root or CAP_SYS_PTRACE (fdinfo)"@,
        ),
{
    let ls = line_texts(status);
    let p = |l: Seq<char>| is_root_line(l) || is_tracer_line(l);
    let kept = ls.filter(p);
    if kept.len() > 0 {
        let l = kept[0];
        assert(kept.contains(l));
        assert(p(l));
        ls.lemma_filter_contains_rev(p, l);
    }
    if grants_full_scan(status) {
        let i = choose|i: int|
            0 <= i < ls.len() && (is_root_line(#[trigger] ls[i]) || is_tracer_line(ls[i]));
        assert(p(ls[i]));
        assert(kept.contains(ls[i]));
    }
}

/// A card's address is the word behind `PCI_SLOT_NAME=` on the first line that starts with it, in
/// lower case; without such a line there is none.
pub proof fn law_an_address_is_named_by_its_field(uevent: Seq<char>, address: Seq<char>, i: int)
    requires
        is_word(address),
        0 <= i <= line_texts(uevent).len(),
        forall|j: int|
            0 <= j < i ==> !has_prefix(#[trigger] line_texts(uevent)[j], "PCI_SLOT_NAME="@),
    ensures
        i < line_texts(uevent).len() && line_texts(uevent)[i] == "PCI_SLOT_NAME="@ + address
            ==> slot_name(Some(uevent)) == Some(ascii_lower(address)),
        i == line_texts(uevent).len() ==> slot_name(Some(uevent)) is None,
        slot_name(None) is None,
{
    let key = "PCI_SLOT_NAME="@;
    let ls = line_texts(uevent);
    if i < ls.len() && ls[i] == key + address {
        assert(ls[i].take(key.len() as int) =~= key);
        assert(ls[i].skip(key.len() as int) =~= address);
        law_the_first_line_of_a_field_counts(uevent, key, i);
        assert(!is_space(address[0]) && !is_space(address[address.len() - 1]));
        assert(trimmed_text(address) == address);
    }
    if i == ls.len() {
        lemma_no_field(ls, key, 0);
    }
}

proof fn lemma_no_field(ls: Seq<Seq<char>>, key: Seq<char>, a: int)
    requires
        0 <= a <= ls.len(),
        forall|j: int| 0 <= j < ls.len() ==> !has_prefix(#[trigger] ls[j], key),
    ensures
        field_from(ls, key, a) is None,
    decreases ls.len() - a,
{
    if a < ls.len() {
        lemma_no_field(ls, key, a + 1);
    }
}

/// A process has the name in its file, without the line's end; without a name it is shown by its id.
pub proof fn law_a_process_has_the_name_in_its_file(name: Seq<char>, pid: u32)
    requires
        is_word(name),
    ensures
        comm_text(Some(name), pid) == name,
        comm_text(Some(name + seq!['\n']), pid) == name,
        comm_text(Some(seq!['\n']), pid) == "pid "@ + dec(pid as nat),
        comm_text(None, pid) == "pid "@ + dec(pid as nat),
{
    let line = name + seq!['\n'];
    assert(!is_space(name[0]) && !is_space(name[name.len() - 1]));
    assert(trimmed_text(name) == name);
    assert(line[0] == name[0]);
    assert(line.drop_last() =~= name);
    assert(end_trimmed(line) == end_trimmed(name));
    let blank = seq!['\n'];
    assert(blank.skip(1) =~= Seq::empty());
    reveal_with_fuel(start_trimmed, 2);
}

} // verus!
