//! Taking text apart: lines, fields, words, numbers.

use vstd::prelude::*;
use vstd::slice::slice_subrange;
use crate::text::{dec, hex, hex_char};
use crate::text::{find_char, first_at, lower_char, split_at_char};
use crate::text::{lemma_first_at_holds, lemma_split_joined};

verus! {

/// The texts of a list of slices.
pub open spec fn slices(v: Seq<&[char]>) -> Seq<Seq<char>> {
    Seq::new(v.len(), |i: int| v[i]@)
}

/// The pieces of `s` between the `c`s; one piece where there is none.
pub open spec fn split_on(s: Seq<char>, c: char) -> Seq<Seq<char>>
    decreases s.len(),
{
    match split_at_char(s, c) {
        Some((a, b)) => seq![a] + split_on(b, c),
        None => seq![s],
    }
}

/// Splits at every `c`.
pub fn split<'a>(s: &'a [char], c: char) -> (v: Vec<&'a [char]>)
    ensures
        slices(v@) == split_on(s@, c),
{
    let mut v: Vec<&'a [char]> = Vec::new();
    let mut rest: &'a [char] = s;
    assert(slices(v@) + split_on(rest@, c) =~= split_on(s@, c));
    loop
        invariant_except_break
            slices(v@) + split_on(rest@, c) == split_on(s@, c),
        ensures
            slices(v@) == split_on(s@, c),
        decreases rest@.len(),
    {
        let i: usize = find_char(rest, c);
        let ghost before = v@;
        if i >= rest.len() {
            v.push(rest);
            assert(slices(v@) =~= slices(before) + seq![rest@]);
            break;
        }
        let piece = slice_subrange(rest, 0, i);
        let tail = slice_subrange(rest, i + 1, rest.len());
        proof {
            assert(piece@ =~= rest@.take(i as int));
            assert(tail@ =~= rest@.skip(i + 1));
            assert(slices(before.push(piece)) + split_on(tail@, c) =~= slices(before) + (
            seq![piece@] + split_on(tail@, c)));
        }
        v.push(piece);
        rest = tail;
    }
    v
}

/// A line without the carriage return that belonged to its line feed.
pub open spec fn without_cr(s: Seq<char>) -> Seq<char> {
    if s.len() > 0 && s.last() == '\r' {
        s.drop_last()
    } else {
        s
    }
}

/// The lines of `s`. A line ends with a line feed, or a carriage return and a line feed; the last
/// one may end with the text.
pub open spec fn line_texts(s: Seq<char>) -> Seq<Seq<char>>
    decreases s.len(),
{
    if s.len() == 0 {
        Seq::empty()
    } else {
        match split_at_char(s, '\n') {
            Some((a, b)) => seq![without_cr(a)] + line_texts(b),
            None => seq![s],
        }
    }
}

/// Splits into lines.
pub fn lines<'a>(s: &'a [char]) -> (v: Vec<&'a [char]>)
    ensures
        slices(v@) == line_texts(s@),
{
    let mut v: Vec<&'a [char]> = Vec::new();
    let mut rest: &'a [char] = s;
    assert(slices(v@) + line_texts(rest@) =~= line_texts(s@));
    while rest.len() > 0
        invariant
            slices(v@) + line_texts(rest@) == line_texts(s@),
        decreases rest@.len(),
    {
        let i: usize = find_char(rest, '\n');
        let ghost before = v@;
        if i >= rest.len() {
            v.push(rest);
            let ghost last = rest@;
            rest = slice_subrange(rest, 0, 0);
            assert(slices(v@) + line_texts(rest@) =~= slices(before) + seq![last]);
        } else {
            let line = slice_subrange(rest, 0, i);
            let tail = slice_subrange(rest, i + 1, rest.len());
            assert(line@ =~= rest@.take(i as int));
            assert(tail@ =~= rest@.skip(i + 1));
            let line = if i > 0 && line[i - 1] == '\r' {
                let short = slice_subrange(line, 0, i - 1);
                assert(short@ =~= line@.drop_last());
                short
            } else {
                line
            };
            assert(slices(before.push(line)) + line_texts(tail@) =~= slices(before) + (
            seq![line@] + line_texts(tail@)));
            v.push(line);
            rest = tail;
        }
    }
    assert(slices(v@) =~= slices(v@) + line_texts(rest@));
    v
}

/// White space by Unicode.
pub open spec fn is_space(c: char) -> bool {
    let n = c as u32;
    ||| 0x09 <= n <= 0x0d
    ||| n == 0x20
    ||| n == 0x85
    ||| n == 0xa0
    ||| n == 0x1680
    ||| 0x2000 <= n <= 0x200a
    ||| n == 0x2028
    ||| n == 0x2029
    ||| n == 0x202f
    ||| n == 0x205f
    ||| n == 0x3000
}

pub fn space(c: char) -> (r: bool)
    ensures
        r == is_space(c),
{
    let n: u32 = c as u32;
    (0x09 <= n && n <= 0x0d) || n == 0x20 || n == 0x85 || n == 0xa0 || n == 0x1680 || (0x2000 <= n
        && n <= 0x200a) || n == 0x2028 || n == 0x2029 || n == 0x202f || n == 0x205f || n == 0x3000
}

/// `s` without the white space it starts with.
pub open spec fn start_trimmed(s: Seq<char>) -> Seq<char>
    decreases s.len(),
{
    if s.len() > 0 && is_space(s[0]) {
        start_trimmed(s.skip(1))
    } else {
        s
    }
}

/// `s` without the white space it ends with.
pub open spec fn end_trimmed(s: Seq<char>) -> Seq<char>
    decreases s.len(),
{
    if s.len() > 0 && is_space(s.last()) {
        end_trimmed(s.drop_last())
    } else {
        s
    }
}

/// `s` without the white space around it.
pub open spec fn trimmed_text(s: Seq<char>) -> Seq<char> {
    end_trimmed(start_trimmed(s))
}

pub fn trim_start<'a>(s: &'a [char]) -> (r: &'a [char])
    ensures
        r@ == start_trimmed(s@),
        r@.len() <= s@.len(),
{
    let mut i: usize = 0;
    assert(s@.skip(0) =~= s@);
    while i < s.len() && space(s[i])
        invariant
            i <= s.len(),
            start_trimmed(s@.skip(i as int)) == start_trimmed(s@),
        decreases s.len() - i,
    {
        assert(s@.skip(i as int).skip(1) =~= s@.skip(i + 1));
        i = i + 1;
    }
    let r = slice_subrange(s, i, s.len());
    assert(r@ =~= s@.skip(i as int));
    r
}

pub fn trim_end<'a>(s: &'a [char]) -> (r: &'a [char])
    ensures
        r@ == end_trimmed(s@),
{
    let mut n: usize = s.len();
    assert(s@.take(n as int) =~= s@);
    while n > 0 && space(s[n - 1])
        invariant
            n <= s.len(),
            end_trimmed(s@.take(n as int)) == end_trimmed(s@),
        decreases n,
    {
        assert(s@.take(n as int).drop_last() =~= s@.take(n - 1));
        n = n - 1;
    }
    let r = slice_subrange(s, 0, n);
    assert(r@ =~= s@.take(n as int));
    r
}

pub fn trim<'a>(s: &'a [char]) -> (r: &'a [char])
    ensures
        r@ == trimmed_text(s@),
{
    trim_end(trim_start(s))
}

/// The number of characters before the first white space.
pub open spec fn word_len(s: Seq<char>) -> nat
    decreases s.len(),
{
    if s.len() == 0 || is_space(s[0]) {
        0
    } else {
        1 + word_len(s.skip(1))
    }
}

proof fn lemma_word_len(s: Seq<char>)
    ensures
        word_len(s) <= s.len(),
    decreases s.len(),
{
    if s.len() > 0 && !is_space(s[0]) {
        lemma_word_len(s.skip(1));
    }
}

proof fn lemma_start_trimmed(s: Seq<char>)
    ensures
        start_trimmed(s).len() <= s.len(),
        start_trimmed(s).len() > 0 ==> !is_space(start_trimmed(s)[0]),
    decreases s.len(),
{
    if s.len() > 0 && is_space(s[0]) {
        lemma_start_trimmed(s.skip(1));
    }
}

/// The words of `s`, which white space separates.
pub open spec fn words(s: Seq<char>) -> Seq<Seq<char>>
    decreases s.len(),
    via words_decreases
{
    let t = start_trimmed(s);
    if t.len() == 0 {
        Seq::empty()
    } else {
        seq![t.take(word_len(t) as int)] + words(t.skip(word_len(t) as int))
    }
}

#[via_fn]
proof fn words_decreases(s: Seq<char>) {
    lemma_start_trimmed(s);
    let t = start_trimmed(s);
    lemma_word_len(t);
}

/// Splits at white space.
pub fn split_whitespace<'a>(s: &'a [char]) -> (v: Vec<&'a [char]>)
    ensures
        slices(v@) == words(s@),
{
    let mut v: Vec<&'a [char]> = Vec::new();
    let mut rest: &'a [char] = s;
    assert(slices(v@) + words(rest@) =~= words(s@));
    loop
        invariant
            slices(v@) + words(rest@) == words(s@),
        ensures
            slices(v@) == words(s@),
        decreases rest@.len(),
    {
        let t = trim_start(rest);
        proof {
            lemma_start_trimmed(rest@);
        }
        if t.len() == 0 {
            assert(slices(v@) =~= slices(v@) + words(rest@));
            break;
        }
        let mut n: usize = 0;
        assert(t@.skip(0) =~= t@);
        while n < t.len() && !space(t[n])
            invariant
                n <= t.len(),
                n + word_len(t@.skip(n as int)) == word_len(t@),
            decreases t.len() - n,
        {
            assert(t@.skip(n as int).skip(1) =~= t@.skip(n + 1));
            n = n + 1;
        }
        assert(n == word_len(t@));
        let word = slice_subrange(t, 0, n);
        let tail = slice_subrange(t, n, t.len());
        let ghost before = v@;
        proof {
            assert(word@ =~= t@.take(n as int));
            assert(tail@ =~= t@.skip(n as int));
            assert(n > 0);
            assert(slices(before.push(word)) + words(tail@) =~= slices(before) + (seq![word@]
                + words(tail@)));
        }
        v.push(word);
        rest = tail;
    }
    v
}

/// `s` starts with `p`.
pub open spec fn has_prefix(s: Seq<char>, p: Seq<char>) -> bool {
    p.len() <= s.len() && s.take(p.len() as int) == p
}

/// `s` ends with `p`.
pub open spec fn has_suffix(s: Seq<char>, p: Seq<char>) -> bool {
    p.len() <= s.len() && s.skip(s.len() - p.len()) == p
}

/// What follows the prefix `p`, where `s` starts with it.
pub open spec fn after_prefix(s: Seq<char>, p: Seq<char>) -> Option<Seq<char>> {
    if has_prefix(s, p) {
        Some(s.skip(p.len() as int))
    } else {
        None
    }
}

/// What precedes the suffix `p`, where `s` ends with it.
pub open spec fn before_suffix(s: Seq<char>, p: Seq<char>) -> Option<Seq<char>> {
    if has_suffix(s, p) {
        Some(s.take(s.len() - p.len()))
    } else {
        None
    }
}

/// The view of an optional slice.
pub open spec fn slice_view(r: Option<&[char]>) -> Option<Seq<char>> {
    match r {
        Some(t) => Some(t@),
        None => None,
    }
}

pub fn strip_prefix<'a>(s: &'a [char], p: &str) -> (r: Option<&'a [char]>)
    ensures
        slice_view(r) == after_prefix(s@, p@),
{
    let pv: Vec<char> = crate::text::chars_of(p);
    let n: usize = pv.len();
    if n <= s.len() && crate::text::same(slice_subrange(s, 0, n), pv.as_slice()) {
        assert(s@.subrange(0, n as int) =~= s@.take(n as int));
        let t = slice_subrange(s, n, s.len());
        assert(t@ =~= s@.skip(n as int));
        Some(t)
    } else {
        proof {
            if n <= s@.len() {
                assert(s@.subrange(0, n as int) =~= s@.take(n as int));
            }
        }
        None
    }
}

pub fn strip_suffix<'a>(s: &'a [char], p: &str) -> (r: Option<&'a [char]>)
    ensures
        slice_view(r) == before_suffix(s@, p@),
{
    let pv: Vec<char> = crate::text::chars_of(p);
    let n: usize = pv.len();
    if n <= s.len() {
        let m: usize = s.len() - n;
        assert(s@.subrange(m as int, s@.len() as int) =~= s@.skip(m as int));
        if crate::text::same(slice_subrange(s, m, s.len()), pv.as_slice()) {
            let t = slice_subrange(s, 0, m);
            assert(t@ =~= s@.take(m as int));
            return Some(t);
        }
    }
    None
}

pub fn starts_with(s: &[char], p: &str) -> (r: bool)
    ensures
        r == has_prefix(s@, p@),
{
    strip_prefix(s, p).is_some()
}

/// Does `c` occur in `s`?
pub fn contains_char(s: &[char], c: char) -> (r: bool)
    ensures
        r == s@.contains(c),
{
    let i: usize = find_char(s, c);
    proof {
        lemma_first_at_holds(s@, c);
        if s@.contains(c) {
            let k = choose|k: int| 0 <= k < s@.len() && s@[k] == c;
            assert(first_at(s@, c) <= k);
        }
    }
    i < s.len()
}

/// `a` and `b` differ at most in ASCII case.
pub open spec fn same_but_case(a: Seq<char>, b: Seq<char>) -> bool {
    crate::text::ascii_lower(a) == crate::text::ascii_lower(b)
}

pub fn eq_ignore_ascii_case(a: &[char], b: &[char]) -> (r: bool)
    ensures
        r == same_but_case(a@, b@),
{
    let ghost la = crate::text::ascii_lower(a@);
    let ghost lb = crate::text::ascii_lower(b@);
    if a.len() != b.len() {
        assert(la.len() != lb.len());
        return false;
    }
    let mut i: usize = 0;
    while i < a.len()
        invariant
            i <= a.len(),
            a.len() == b.len(),
            la == crate::text::ascii_lower(a@),
            lb == crate::text::ascii_lower(b@),
            forall|k: int| 0 <= k < i ==> la[k] == lb[k],
        decreases a.len() - i,
    {
        if lower_char(a[i]) != lower_char(b[i]) {
            assert(la[i as int] != lb[i as int]);
            return false;
        }
        i = i + 1;
    }
    assert(la =~= lb);
    true
}

/// The value of a digit in base `radix` (10 or 16).
pub open spec fn digit_value(c: char, radix: nat) -> Option<nat> {
    if '0' <= c <= '9' {
        Some((c as int - 48) as nat)
    } else if radix == 16 && 'a' <= c <= 'f' {
        Some((c as int - 87) as nat)
    } else if radix == 16 && 'A' <= c <= 'F' {
        Some((c as int - 55) as nat)
    } else {
        None
    }
}

/// The number that digits in base `radix` stand for; `None` where one is none.
pub open spec fn digits_value(s: Seq<char>, radix: nat) -> Option<nat>
    decreases s.len(),
{
    if s.len() == 0 {
        Some(0)
    } else {
        match (digits_value(s.drop_last(), radix), digit_value(s.last(), radix)) {
            (Some(v), Some(d)) => Some(v * radix + d),
            _ => None,
        }
    }
}

/// An unsigned number of at most `max`: digits in base `radix`, of which there is at least one,
/// after an optional plus sign.
pub open spec fn uint_value(s: Seq<char>, radix: nat, max: nat) -> Option<nat> {
    let digits = if s.len() > 0 && s[0] == '+' {
        s.skip(1)
    } else {
        s
    };
    if digits.len() == 0 {
        None
    } else {
        match digits_value(digits, radix) {
            Some(v) => if v <= max {
                Some(v)
            } else {
                None
            },
            None => None,
        }
    }
}

fn digit(c: char, radix: u32) -> (r: Option<u32>)
    requires
        radix == 10 || radix == 16,
    ensures
        match r {
            Some(d) => digit_value(c, radix as nat) == Some(d as nat) && d < radix,
            None => digit_value(c, radix as nat) is None,
        },
{
    let n: u32 = c as u32;
    if '0' <= c && c <= '9' {
        Some(n - 48)
    } else if radix == 16 && 'a' <= c && c <= 'f' {
        Some(n - 87)
    } else if radix == 16 && 'A' <= c && c <= 'F' {
        Some(n - 55)
    } else {
        None
    }
}

/// Once one digit is none, or the value is past a bound, more digits do not mend it.
proof fn lemma_prefix_bad(s: Seq<char>, radix: nat, n: int, max: nat)
    requires
        0 <= n <= s.len(),
        radix >= 1,
        digits_value(s.take(n), radix) matches Some(v) ==> v > max,
    ensures
        digits_value(s, radix) matches Some(v) ==> v > max,
    decreases s.len() - n,
{
    if n < s.len() {
        let next = s.take(n + 1);
        assert(next.drop_last() =~= s.take(n));
        if let Some(v) = digits_value(next, radix) {
            let u = digits_value(s.take(n), radix)->0;
            let d = digit_value(next.last(), radix)->0;
            assert(u * radix + d > max) by (nonlinear_arith)
                requires
                    u > max,
                    radix >= 1,
                    d >= 0,
            ;
        }
        lemma_prefix_bad(s, radix, n + 1, max);
    } else {
        assert(s.take(n) =~= s);
    }
}

/// Reads an unsigned number of at most `max`.
pub fn parse_uint(s: &[char], radix: u32, max: u64) -> (r: Option<u64>)
    requires
        radix == 10 || radix == 16,
    ensures
        match r {
            Some(v) => uint_value(s@, radix as nat, max as nat) == Some(v as nat),
            None => uint_value(s@, radix as nat, max as nat) is None,
        },
{
    let digits = if s.len() > 0 && s[0] == '+' {
        let t = slice_subrange(s, 1, s.len());
        assert(t@ =~= s@.skip(1));
        t
    } else {
        s
    };
    if digits.len() == 0 {
        return None;
    }
    let mut value: u128 = 0;
    let mut i: usize = 0;
    while i < digits.len()
        invariant
            i <= digits.len(),
            radix == 10 || radix == 16,
            digits@.len() > 0,
            digits@ == (if s@.len() > 0 && s@[0] == '+' {
                s@.skip(1)
            } else {
                s@
            }),
            value <= max,
            digits_value(digits@.take(i as int), radix as nat) == Some(value as nat),
        decreases digits.len() - i,
    {
        let ghost next = digits@.take(i + 1);
        assert(next.drop_last() =~= digits@.take(i as int));
        match digit(digits[i], radix) {
            Some(d) => {
                assert(value * radix <= 0xffff_ffff_ffff_ffff * 16) by (nonlinear_arith)
                    requires
                        0 <= value <= 0xffff_ffff_ffff_ffff,
                        0 <= radix <= 16,
                ;
                value = value * radix as u128 + d as u128;
            },
            None => {
                proof {
                    lemma_prefix_bad(digits@, radix as nat, i + 1, max as nat);
                }
                return None;
            },
        }
        if value > max as u128 {
            proof {
                lemma_prefix_bad(digits@, radix as nat, i + 1, max as nat);
            }
            return None;
        }
        i = i + 1;
    }
    assert(digits@.take(i as int) =~= digits@);
    Some(value as u64)
}

pub fn parse_u64(s: &[char]) -> (r: Option<u64>)
    ensures
        match r {
            Some(v) => uint_value(s@, 10, u64::MAX as nat) == Some(v as nat),
            None => uint_value(s@, 10, u64::MAX as nat) is None,
        },
{
    parse_uint(s, 10, u64::MAX)
}

pub fn parse_u32(s: &[char]) -> (r: Option<u32>)
    ensures
        match r {
            Some(v) => uint_value(s@, 10, u32::MAX as nat) == Some(v as nat),
            None => uint_value(s@, 10, u32::MAX as nat) is None,
        },
{
    match parse_uint(s, 10, u32::MAX as u64) {
        Some(v) => Some(v as u32),
        None => None,
    }
}

/// A signed 64-bit number: digits after an optional sign.
pub open spec fn int_value(s: Seq<char>) -> Option<int> {
    if s.len() > 0 && s[0] == '-' {
        if s.len() > 1 && s[1] == '+' {
            None
        } else {
            match uint_value(s.skip(1), 10, 0x8000_0000_0000_0000) {
                Some(v) => Some(-(v as int)),
                None => None,
            }
        }
    } else {
        match uint_value(s, 10, 0x7fff_ffff_ffff_ffff) {
            Some(v) => Some(v as int),
            None => None,
        }
    }
}

pub fn parse_i64(s: &[char]) -> (r: Option<i64>)
    ensures
        match r {
            Some(v) => int_value(s@) == Some(v as int),
            None => int_value(s@) is None,
        },
{
    if s.len() > 0 && s[0] == '-' {
        if s.len() > 1 && s[1] == '+' {
            return None;
        }
        let t = slice_subrange(s, 1, s.len());
        assert(t@ =~= s@.skip(1));
        match parse_uint(t, 10, 0x8000_0000_0000_0000) {
            Some(v) => Some((-(v as i128)) as i64),
            None => None,
        }
    } else {
        match parse_uint(s, 10, 0x7fff_ffff_ffff_ffff) {
            Some(v) => Some(v as i64),
            None => None,
        }
    }
}

/// The text has the part in it.
pub open spec fn has_part(s: Seq<char>, part: Seq<char>) -> bool {
    exists|i: int|
        0 <= i && i + part.len() <= s.len() && #[trigger] s.subrange(i, i + part.len()) == part
}

/// Does the text have the part in it?
pub fn contains_text(s: &[char], part: &str) -> (r: bool)
    ensures
        r == has_part(s@, part@),
{
    let p: Vec<char> = crate::text::chars_of(part);
    let n: usize = p.len();
    let mut i: usize = 0;
    while n <= s.len() - i
        invariant
            n == p@.len() == part@.len(),
            p@ == part@,
            i <= s.len(),
            forall|k: int| 0 <= k < i ==> #[trigger] s@.subrange(k, k + n) != part@,
        decreases s.len() - i,
    {
        if crate::text::same(slice_subrange(s, i, i + n), p.as_slice()) {
            assert(s@.subrange(i as int, i + part@.len()) == part@);
            return true;
        }
        assert(n > 0) by {
            assert(n == 0 ==> s@.subrange(i as int, i + n) =~= part@);
        }
        i = i + 1;
    }
    false
}

/// A number in decimal is made of digits, at least one.
pub proof fn lemma_decimal_digits(n: nat)
    ensures
        dec(n).len() > 0,
        forall|i: int| 0 <= i < dec(n).len() ==> '0' <= #[trigger] dec(n)[i] <= '9',
        digits_value(dec(n), 10) == Some(n),
    decreases n,
{
    let s = dec(n);
    if n >= 10 {
        lemma_decimal_digits(n / 10);
        assert(s.drop_last() =~= dec(n / 10));
        assert(digit_value(s.last(), 10) == Some((n % 10) as nat));
    } else {
        assert(s.drop_last() =~= Seq::empty());
        assert(digits_value(s.drop_last(), 10) == Some(0nat));
        assert(digit_value(s.last(), 10) == Some(n));
    }
}

/// What is written in decimal reads back as the same number, where it is not above the limit; what
/// is above it does not read.
pub proof fn law_decimals_read_back(n: nat, max: nat)
    ensures
        uint_value(dec(n), 10, max) == (if n <= max {
            Some(n)
        } else {
            None
        }),
{
    lemma_decimal_digits(n);
    assert(dec(n)[0] != '+');
}

/// What is written in hexadecimal reads back as the same number, with zeros in front of it too.
pub proof fn law_hexadecimals_read_back(n: nat, zeros: nat, max: nat)
    ensures
        uint_value(Seq::new(zeros, |i: int| '0') + hex(n), 16, max) == (if n <= max {
            Some(n)
        } else {
            None
        }),
{
    lemma_hexadecimal_digits(n, zeros);
    let s = Seq::new(zeros, |i: int| '0') + hex(n);
    assert(s[0] != '+') by {
        if zeros > 0 {
            assert(s[0] == '0');
        } else {
            lemma_hex_is_plain(n);
        }
    }
}

proof fn lemma_hex_is_plain(n: nat)
    ensures
        hex(n).len() > 0,
        hex(n)[0] != '+',
    decreases n,
{
    if n >= 16 {
        lemma_hex_is_plain(n / 16);
        assert(hex(n)[0] == hex(n / 16)[0]);
    }
}

proof fn lemma_hexadecimal_digits(n: nat, zeros: nat)
    ensures
        digits_value(Seq::new(zeros, |i: int| '0') + hex(n), 16) == Some(n),
        (Seq::new(zeros, |i: int| '0') + hex(n)).len() > 0,
    decreases n,
{
    let z = Seq::new(zeros, |i: int| '0');
    let s = z + hex(n);
    if n >= 16 {
        lemma_hexadecimal_digits(n / 16, zeros);
        assert(s.drop_last() =~= z + hex(n / 16));
        assert(s.last() == hex_char((n % 16) as int));
        assert(digit_value(s.last(), 16) == Some((n % 16) as nat));
    } else {
        assert(s.drop_last() =~= z);
        assert(s.last() == hex_char(n as int));
        lemma_zeros(zeros);
        assert(digit_value(s.last(), 16) == Some(n));
    }
}

proof fn lemma_zeros(zeros: nat)
    ensures
        digits_value(Seq::new(zeros, |i: int| '0'), 16) == Some(0nat),
    decreases zeros,
{
    if zeros > 0 {
        lemma_zeros((zeros - 1) as nat);
        let z = Seq::new(zeros, |i: int| '0');
        assert(z.drop_last() =~= Seq::new((zeros - 1) as nat, |i: int| '0'));
    }
}

/// A signed number reads back as what it is, from the smallest of 64 bits to the largest.
pub proof fn law_signed_decimals_read_back(n: nat)
    ensures
        int_value(dec(n)) == (if n <= i64::MAX {
            Some(n as int)
        } else {
            None
        }),
        int_value(seq!['-'] + dec(n)) == (if n <= 0x8000_0000_0000_0000 {
            Some(-(n as int))
        } else {
            None
        }),
{
    lemma_decimal_digits(n);
    law_decimals_read_back(n, i64::MAX as nat);
    law_decimals_read_back(n, 0x8000_0000_0000_0000);
    let s = seq!['-'] + dec(n);
    assert(s.skip(1) =~= dec(n));
    assert(s[1] == dec(n)[0]);
}

/// Two pieces with a `c` between them.
pub proof fn lemma_split_two(a: Seq<char>, b: Seq<char>, c: char)
    requires
        !a.contains(c),
        !b.contains(c),
    ensures
        split_on(a + seq![c] + b, c) == seq![a, b],
{
    lemma_split_joined(a, c, b);
    lemma_first_at_holds(b, c);
    assert(split_at_char(b, c) is None) by {
        if first_at(b, c) < b.len() {
            assert(b.contains(b[first_at(b, c) as int]));
        }
    }
    assert(split_on(b, c) =~= seq![b]);
    assert(seq![a] + seq![b] =~= seq![a, b]);
}

/// The words, each with a space before it.
pub open spec fn spaced(ws: Seq<Seq<char>>) -> Seq<char>
    decreases ws.len(),
{
    if ws.len() == 0 {
        Seq::empty()
    } else {
        seq![' '] + ws[0] + spaced(ws.skip(1))
    }
}

/// A word: it has a character, and no white space.
pub open spec fn is_word(w: Seq<char>) -> bool {
    w.len() > 0 && forall|i: int| 0 <= i < w.len() ==> !is_space(#[trigger] w[i])
}

/// Words with spaces between them read back.
pub proof fn law_words_read_back(ws: Seq<Seq<char>>)
    requires
        forall|i: int| 0 <= i < ws.len() ==> is_word(#[trigger] ws[i]),
    ensures
        words(spaced(ws)) == ws,
    decreases ws.len(),
{
    if ws.len() > 0 {
        let rest = ws.skip(1);
        let s = spaced(ws);
        let t = ws[0] + spaced(rest);
        assert(is_word(ws[0]));
        assert forall|i: int| 0 <= i < rest.len() implies is_word(#[trigger] rest[i]) by {
            assert(rest[i] == ws[i + 1]);
        }
        law_words_read_back(rest);
        assert(s.skip(1) =~= t);
        assert(s[0] == ' ');
        assert(t[0] == ws[0][0]);
        assert(start_trimmed(t) == t);
        assert(start_trimmed(s) == t);
        lemma_word_before(ws[0], spaced(rest));
        assert(t.take(ws[0].len() as int) =~= ws[0]);
        assert(t.skip(ws[0].len() as int) =~= spaced(rest));
        assert(seq![ws[0]] + rest =~= ws);
    }
}

proof fn lemma_word_before(w: Seq<char>, rest: Seq<char>)
    requires
        forall|i: int| 0 <= i < w.len() ==> !is_space(#[trigger] w[i]),
        rest.len() > 0 ==> is_space(rest[0]),
    ensures
        word_len(w + rest) == w.len(),
    decreases w.len(),
{
    let s = w + rest;
    if w.len() > 0 {
        assert(s[0] == w[0]);
        assert(s.skip(1) =~= w.skip(1) + rest);
        lemma_word_before(w.skip(1), rest);
    } else {
        assert(s =~= rest);
    }
}

/// The last piece is what follows the last `c`.
pub proof fn lemma_last_piece(a: Seq<char>, b: Seq<char>, c: char)
    requires
        !b.contains(c),
    ensures
        split_on(a + seq![c] + b, c).len() >= 2,
        split_on(a + seq![c] + b, c).last() == b,
    decreases a.len(),
{
    let s = a + seq![c] + b;
    lemma_first_at_holds(a, c);
    let i = first_at(a, c) as int;
    if i >= a.len() {
        assert(!a.contains(c)) by {
            if a.contains(c) {
                let k = choose|k: int| 0 <= k < a.len() && a[k] == c;
                assert(a[k] != c);
            }
        }
        lemma_split_two(a, b, c);
    } else {
        let head = a.take(i);
        let tail = a.skip(i + 1);
        assert(!head.contains(c)) by {
            if head.contains(c) {
                let k = choose|k: int| 0 <= k < head.len() && head[k] == c;
                assert(a[k] == c);
            }
        }
        let rest = tail + seq![c] + b;
        assert(s =~= head + seq![c] + rest);
        lemma_split_joined(head, c, rest);
        lemma_last_piece(tail, b, c);
        let pieces = split_on(rest, c);
        assert(split_on(s, c) == seq![head] + pieces);
        assert((seq![head] + pieces).last() == pieces.last());
    }
}

} // verus!
