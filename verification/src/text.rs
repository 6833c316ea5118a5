//! Text as sequences of characters: printing numbers and taking text apart.

use vstd::prelude::*;
use vstd::slice::slice_subrange;

verus! {

/// `String::push`: the string grows by the one character, at its end.
pub assume_specification[ String::push ](s: &mut String, ch: char)
    ensures
        final(s)@ == old(s)@.push(ch),
;

/// The text in lower case, as Unicode has it.
pub uninterp spec fn lowercase(s: Seq<char>) -> Seq<char>;

/// The text has ASCII characters only.
pub open spec fn is_ascii_text(s: Seq<char>) -> bool {
    forall|i: int| 0 <= i < s.len() ==> (#[trigger] s[i] as u32) < 128
}

/// `str::to_lowercase`: the text in lower case. It depends on the text alone, not on a locale. Of a
/// text of ASCII characters it changes the capital letters, and nothing else.
pub assume_specification[ str::to_lowercase ](s: &str) -> (r: String)
    ensures
        r@ == lowercase(s@),
        is_ascii_text(s@) ==> r@ == ascii_lower(s@),
;

/// The character of the decimal digit `d`.
pub open spec fn digit_char(d: int) -> char {
    (48 + d) as char
}

/// `n` in decimal, without leading zeros.
pub open spec fn dec(n: nat) -> Seq<char>
    decreases n,
{
    if n < 10 {
        seq![digit_char(n as int)]
    } else {
        dec(n / 10).push(digit_char((n % 10) as int))
    }
}

/// `num / den`, rounded to the nearest integer; a tie goes to the even neighbour.
pub open spec fn round_half_even(num: nat, den: nat) -> nat {
    let q = num / den;
    let r = num % den;
    if 2 * r > den || (2 * r == den && q % 2 == 1) {
        q + 1
    } else {
        q
    }
}

/// `num / den` printed without decimals.
pub open spec fn fixed0(num: nat, den: nat) -> Seq<char> {
    dec(round_half_even(num, den))
}

/// `num / den` printed with one decimal.
pub open spec fn fixed1(num: nat, den: nat) -> Seq<char> {
    let tenths = round_half_even(num * 10, den);
    dec(tenths / 10) + "."@ + dec(tenths % 10)
}

/// Appends `n` in decimal.
pub fn push_dec(out: &mut String, n: u128)
    ensures
        final(out)@ == old(out)@ + dec(n as nat),
    decreases n,
{
    if n >= 10 {
        push_dec(out, n / 10);
    }
    let d: u8 = (n % 10) as u8;
    out.push((48u8 + d) as char);
    assert(final(out)@ =~= old(out)@ + dec(n as nat));
}

/// Divides and rounds to the nearest integer, ties to even.
pub fn div_round_half_even(num: u128, den: u128) -> (q: u128)
    requires
        den > 0,
    ensures
        q == round_half_even(num as nat, den as nat),
{
    let q: u128 = num / den;
    let r: u128 = num % den;
    if r > den - r || (r == den - r && q % 2 == 1) {
        assert(q < u128::MAX) by {
            assert(den >= 2);
            assert(q <= u128::MAX / 2) by (nonlinear_arith)
                requires
                    den >= 2,
                    q == num / den,
                    0 <= num <= u128::MAX,
            ;
        }
        q + 1
    } else {
        q
    }
}

/// Appends `num / den` without decimals.
pub fn push_fixed0(out: &mut String, num: u128, den: u128)
    requires
        den > 0,
    ensures
        final(out)@ == old(out)@ + fixed0(num as nat, den as nat),
{
    let q: u128 = div_round_half_even(num, den);
    push_dec(out, q);
}

/// Appends `num / den` with one decimal.
pub fn push_fixed1(out: &mut String, num: u128, den: u128)
    requires
        den > 0,
        num * 10 <= u128::MAX,
    ensures
        final(out)@ == old(out)@ + fixed1(num as nat, den as nat),
{
    let tenths: u128 = div_round_half_even(num * 10, den);
    push_dec(out, tenths / 10);
    out.append(".");
    push_dec(out, tenths % 10);
    assert(final(out)@ =~= old(out)@ + fixed1(num as nat, den as nat));
}

/// `num / den` printed without decimals, with its sign.
pub open spec fn signed_fixed0(num: int, den: nat) -> Seq<char> {
    if num < 0 {
        "-"@ + fixed0((-num) as nat, den)
    } else {
        fixed0(num as nat, den)
    }
}

/// `num / den` printed with one decimal, with its sign.
pub open spec fn signed_fixed1(num: int, den: nat) -> Seq<char> {
    if num < 0 {
        "-"@ + fixed1((-num) as nat, den)
    } else {
        fixed1(num as nat, den)
    }
}

/// Appends the sign, where there is one, and gives the magnitude.
fn push_sign(out: &mut String, num: i128) -> (r: u128)
    ensures
        final(out)@ == (if num < 0 {
            old(out)@ + "-"@
        } else {
            old(out)@
        }),
        r == (if num < 0 {
            -num
        } else {
            num as int
        }),
{
    if num == i128::MIN {
        out.append("-");
        0x8000_0000_0000_0000_0000_0000_0000_0000
    } else if num < 0 {
        out.append("-");
        (-num) as u128
    } else {
        num as u128
    }
}

/// Appends `num / den` without decimals, with its sign.
pub fn push_signed_fixed0(out: &mut String, num: i128, den: u128)
    requires
        den > 0,
    ensures
        final(out)@ == old(out)@ + signed_fixed0(num as int, den as nat),
{
    let size: u128 = push_sign(out, num);
    push_fixed0(out, size, den);
    assert(final(out)@ =~= old(out)@ + signed_fixed0(num as int, den as nat));
}

/// Tenths can be taken of the whole and of the rest.
proof fn lemma_tenths(num: nat, den: nat)
    requires
        den > 0,
    ensures
        round_half_even(num * 10, den) == (num / den) * 10 + round_half_even((num % den) * 10, den),
{
    let q = (num / den) as int;
    let r = (num % den) as int;
    let d = den as int;
    let s = r * 10;
    vstd::arithmetic::div_mod::lemma_fundamental_div_mod(num as int, d);
    vstd::arithmetic::div_mod::lemma_fundamental_div_mod(s, d);
    assert(num * 10 == d * (q * 10 + s / d) + s % d) by (nonlinear_arith)
        requires
            num == d * q + r,
            s == r * 10,
            s == d * (s / d) + s % d,
    ;
    assert(0 <= s % d < d) by (nonlinear_arith)
        requires
            d > 0,
    ;
    vstd::arithmetic::div_mod::lemma_fundamental_div_mod_converse(
        (num * 10) as int,
        d,
        q * 10 + s / d,
        s % d,
    );
    assert((q * 10 + s / d) % 2 == (s / d) % 2);
}

/// Appends `num / den` with one decimal, with its sign.
pub fn push_signed_fixed1(out: &mut String, num: i128, den: u128)
    requires
        100 <= den <= u128::MAX / 10,
    ensures
        final(out)@ == old(out)@ + signed_fixed1(num as int, den as nat),
{
    let size: u128 = push_sign(out, num);
    let whole: u128 = size / den;
    let rest: u128 = size % den;
    assert(whole <= size / 100) by (nonlinear_arith)
        requires
            den >= 100,
            whole == size / den,
            size >= 0,
    ;
    let part: u128 = div_round_half_even(rest * 10, den);
    proof {
        lemma_tenths(size as nat, den as nat);
        assert(part <= 10) by (nonlinear_arith)
            requires
                rest < den,
                part <= (rest * 10) / (den as int) + 1,
                den > 0,
        ;
    }
    let tenths: u128 = whole * 10 + part;
    push_dec(out, tenths / 10);
    out.append(".");
    push_dec(out, tenths % 10);
    assert(final(out)@ =~= old(out)@ + signed_fixed1(num as int, den as nat));
}

/// The characters of `s`, in order.
pub fn chars_of(s: &str) -> (v: Vec<char>)
    ensures
        v@ == s@,
{
    let mut v: Vec<char> = Vec::new();
    for c in it: s.chars()
        invariant
            v@ == s@.take(it.index()),
            it.seq() == s@,
    {
        v.push(c);
        assert(s@.take(it.index() + 1) =~= s@.take(it.index() as int).push(c));
    }
    assert(s@.take(s@.len() as int) =~= s@);
    v
}

/// The text that `s` spells.
pub fn text_of(s: &[char]) -> (t: String)
    ensures
        t@ == s@,
{
    let mut t: String = String::new();
    let mut i: usize = 0;
    while i < s.len()
        invariant
            i <= s.len(),
            t@ == s@.take(i as int),
        decreases s.len() - i,
    {
        t.push(s[i]);
        assert(s@.take(i + 1) =~= s@.take(i as int).push(s@[i as int]));
        i = i + 1;
    }
    assert(s@.take(s@.len() as int) =~= s@);
    t
}

/// Are the two texts the same?
pub fn same(a: &[char], b: &[char]) -> (r: bool)
    ensures
        r == (a@ == b@),
{
    if a.len() != b.len() {
        return false;
    }
    let mut i: usize = 0;
    while i < a.len()
        invariant
            i <= a.len(),
            a.len() == b.len(),
            a@.take(i as int) == b@.take(i as int),
        decreases a.len() - i,
    {
        if a[i] != b[i] {
            return false;
        }
        assert(a@.take(i + 1) =~= a@.take(i as int).push(a@[i as int]));
        assert(b@.take(i + 1) =~= b@.take(i as int).push(b@[i as int]));
        i = i + 1;
    }
    assert(a@.take(i as int) =~= a@);
    assert(b@.take(i as int) =~= b@);
    true
}

/// Is `s` the text `t`?
pub fn is_text(s: &[char], t: &str) -> (r: bool)
    ensures
        r == (s@ == t@),
{
    let v: Vec<char> = chars_of(t);
    same(s, v.as_slice())
}

/// The position of the first `c` in `s`; the length of `s` where there is none.
pub open spec fn first_at(s: Seq<char>, c: char) -> nat
    decreases s.len(),
{
    if s.len() == 0 || s[0] == c {
        0
    } else {
        1 + first_at(s.skip(1), c)
    }
}

/// `first_at` is the one position before which there is no `c`, and at which there is a `c` or
/// the text ends.
pub proof fn lemma_first_at(s: Seq<char>, c: char, i: nat)
    requires
        i <= s.len(),
        forall|j: int| 0 <= j < i ==> s[j] != c,
        i < s.len() ==> s[i as int] == c,
    ensures
        first_at(s, c) == i,
    decreases s.len(),
{
    if i > 0 {
        let t = s.skip(1);
        assert forall|j: int| 0 <= j < i - 1 implies t[j] != c by {
            assert(t[j] == s[j + 1]);
        }
        lemma_first_at(t, c, (i - 1) as nat);
    }
}

/// What `first_at` gives is such a position.
pub proof fn lemma_first_at_holds(s: Seq<char>, c: char)
    ensures
        first_at(s, c) <= s.len(),
        forall|j: int| 0 <= j < first_at(s, c) ==> s[j] != c,
        first_at(s, c) < s.len() ==> s[first_at(s, c) as int] == c,
    decreases s.len(),
{
    if s.len() > 0 && s[0] != c {
        let t = s.skip(1);
        lemma_first_at_holds(t, c);
        assert forall|j: int| 0 <= j < first_at(s, c) implies s[j] != c by {
            if j > 0 {
                assert(t[j - 1] == s[j]);
            }
        }
    }
}

/// Finds the first `c`.
pub fn find_char(s: &[char], c: char) -> (i: usize)
    ensures
        i == first_at(s@, c),
        i <= s@.len(),
{
    let mut i: usize = 0;
    while i < s.len() && s[i] != c
        invariant
            i <= s.len(),
            forall|j: int| 0 <= j < i ==> s@[j] != c,
        decreases s.len() - i,
    {
        i = i + 1;
    }
    proof {
        lemma_first_at(s@, c, i as nat);
    }
    i
}

/// The texts before and after the first `c`, where there is one.
pub open spec fn split_at_char(s: Seq<char>, c: char) -> Option<(Seq<char>, Seq<char>)> {
    let i = first_at(s, c) as int;
    if i < s.len() {
        Some((s.take(i), s.skip(i + 1)))
    } else {
        None
    }
}

/// Splits at the first `c`.
pub fn split_once(s: &[char], c: char) -> (r: Option<(&[char], &[char])>)
    ensures
        match r {
            Some(p) => split_at_char(s@, c) == Some((p.0@, p.1@)),
            None => split_at_char(s@, c) is None,
        },
{
    let i: usize = find_char(s, c);
    if i < s.len() {
        let a = slice_subrange(s, 0, i);
        let b = slice_subrange(s, i + 1, s.len());
        assert(a@ =~= s@.take(i as int));
        assert(b@ =~= s@.skip(i + 1));
        Some((a, b))
    } else {
        None
    }
}

/// `s` without the `c`s it starts with.
pub open spec fn without_leading(s: Seq<char>, c: char) -> Seq<char>
    decreases s.len(),
{
    if s.len() > 0 && s[0] == c {
        without_leading(s.skip(1), c)
    } else {
        s
    }
}

/// `s` without the `c`s it ends with.
pub open spec fn without_trailing(s: Seq<char>, c: char) -> Seq<char>
    decreases s.len(),
{
    if s.len() > 0 && s.last() == c {
        without_trailing(s.drop_last(), c)
    } else {
        s
    }
}

/// Drops the leading `c`s.
pub fn trim_start_char(s: &[char], c: char) -> (r: &[char])
    ensures
        r@ == without_leading(s@, c),
{
    let mut i: usize = 0;
    assert(s@.skip(0) =~= s@);
    while i < s.len() && s[i] == c
        invariant
            i <= s.len(),
            without_leading(s@.skip(i as int), c) == without_leading(s@, c),
        decreases s.len() - i,
    {
        assert(s@.skip(i as int).skip(1) =~= s@.skip(i + 1));
        i = i + 1;
    }
    let r = slice_subrange(s, i, s.len());
    assert(r@ =~= s@.skip(i as int));
    r
}

/// Drops the trailing `c`s.
pub fn trim_end_char(s: &[char], c: char) -> (r: &[char])
    ensures
        r@ == without_trailing(s@, c),
{
    let mut n: usize = s.len();
    assert(s@.take(n as int) =~= s@);
    while n > 0 && s[n - 1] == c
        invariant
            n <= s.len(),
            without_trailing(s@.take(n as int), c) == without_trailing(s@, c),
        decreases n,
    {
        assert(s@.take(n as int).drop_last() =~= s@.take(n - 1));
        n = n - 1;
    }
    let r = slice_subrange(s, 0, n);
    assert(r@ =~= s@.take(n as int));
    r
}

/// A text without `c`, then `c`, then any text splits there.
pub proof fn lemma_split_joined(a: Seq<char>, c: char, b: Seq<char>)
    requires
        !a.contains(c),
    ensures
        split_at_char(a + seq![c] + b, c) == Some((a, b)),
{
    let s = a + seq![c] + b;
    assert forall|j: int| 0 <= j < a.len() implies s[j] != c by {
        assert(a[j] == s[j]);
        assert(a.contains(a[j]));
    }
    lemma_first_at(s, c, a.len());
    assert(s.take(a.len() as int) =~= a);
    assert(s.skip(a.len() as int + 1) =~= b);
}

/// A character in ASCII lower case.
pub open spec fn lower(c: char) -> char {
    if 'A' <= c <= 'Z' {
        (c as int + 32) as char
    } else {
        c
    }
}

/// A text in ASCII lower case.
pub open spec fn ascii_lower(s: Seq<char>) -> Seq<char> {
    Seq::new(s.len(), |i: int| lower(s[i]))
}

/// A character in ASCII lower case.
pub fn lower_char(c: char) -> (r: char)
    ensures
        r == lower(c),
{
    if 'A' <= c && c <= 'Z' {
        ((c as u8) + 32) as char
    } else {
        c
    }
}

/// A text in ASCII lower case.
pub fn to_ascii_lower(s: &str) -> (v: Vec<char>)
    ensures
        v@ == ascii_lower(s@),
{
    let cs: Vec<char> = chars_of(s);
    let mut v: Vec<char> = Vec::new();
    let mut i: usize = 0;
    while i < cs.len()
        invariant
            i <= cs.len(),
            cs@ == s@,
            v@ == ascii_lower(s@).take(i as int),
        decreases cs.len() - i,
    {
        v.push(lower_char(cs[i]));
        assert(ascii_lower(s@).take(i + 1) =~= ascii_lower(s@).take(i as int).push(
            lower(s@[i as int]),
        ));
        i = i + 1;
    }
    assert(ascii_lower(s@).take(i as int) =~= ascii_lower(s@));
    v
}

/// A hexadecimal digit, of either case.
pub open spec fn is_hex_digit(c: char) -> bool {
    '0' <= c <= '9' || 'a' <= c <= 'f' || 'A' <= c <= 'F'
}

/// Hexadecimal digits and nothing else.
pub open spec fn all_hex(s: Seq<char>) -> bool {
    forall|i: int| 0 <= i < s.len() ==> is_hex_digit(#[trigger] s[i])
}

/// Are all characters hexadecimal digits?
pub fn is_all_hex(s: &[char]) -> (r: bool)
    ensures
        r == all_hex(s@),
{
    let mut i: usize = 0;
    while i < s.len()
        invariant
            i <= s.len(),
            forall|k: int| 0 <= k < i ==> is_hex_digit(#[trigger] s@[k]),
        decreases s.len() - i,
    {
        let c: char = s[i];
        if !(('0' <= c && c <= '9') || ('a' <= c && c <= 'f') || ('A' <= c && c <= 'F')) {
            assert(!is_hex_digit(s@[i as int]));
            return false;
        }
        i = i + 1;
    }
    true
}

/// `s`, filled up on the left with `c` to at least `width` characters.
pub open spec fn pad_left(s: Seq<char>, width: nat, c: char) -> Seq<char> {
    if s.len() < width {
        Seq::new((width - s.len()) as nat, |i: int| c) + s
    } else {
        s
    }
}

/// Appends the characters of `s`.
pub fn push_chars(out: &mut String, s: &[char])
    ensures
        final(out)@ == old(out)@ + s@,
{
    let mut i: usize = 0;
    assert(out@ =~= old(out)@ + s@.take(0));
    while i < s.len()
        invariant
            i <= s.len(),
            out@ == old(out)@ + s@.take(i as int),
        decreases s.len() - i,
    {
        out.push(s[i]);
        assert(out@ =~= old(out)@ + s@.take(i + 1));
        i = i + 1;
    }
    assert(s@.take(i as int) =~= s@);
}

/// Appends `s`, filled up on the left with `c` to at least `width` characters.
pub fn push_padded(out: &mut String, s: &[char], width: usize, c: char)
    ensures
        final(out)@ == old(out)@ + pad_left(s@, width as nat, c),
{
    let mut n: usize = s.len();
    assert(out@ =~= old(out)@ + Seq::new((n - s@.len()) as nat, |i: int| c));
    while n < width
        invariant
            s.len() <= n,
            n <= width || n == s.len(),
            out@ == old(out)@ + Seq::new((n - s@.len()) as nat, |i: int| c),
        decreases width - n,
    {
        out.push(c);
        n = n + 1;
        assert(out@ =~= old(out)@ + Seq::new((n - s@.len()) as nat, |i: int| c));
    }
    push_chars(out, s);
    assert(final(out)@ =~= old(out)@ + pad_left(s@, width as nat, c));
}

/// A hexadecimal digit, in lower case.
pub open spec fn hex_char(d: int) -> char {
    if d < 10 {
        (48 + d) as char
    } else {
        (87 + d) as char
    }
}

/// `n` in hexadecimal, in lower case and without leading zeros.
pub open spec fn hex(n: nat) -> Seq<char>
    decreases n,
{
    if n < 16 {
        seq![hex_char(n as int)]
    } else {
        hex(n / 16).push(hex_char((n % 16) as int))
    }
}

fn hex_digits(n: u32) -> (v: Vec<char>)
    ensures
        v@ == hex(n as nat),
    decreases n,
{
    let mut v: Vec<char> = if n >= 16 {
        hex_digits(n / 16)
    } else {
        Vec::new()
    };
    let d: u8 = (n % 16) as u8;
    let c: char = if d < 10 {
        (48u8 + d) as char
    } else {
        (87u8 + d) as char
    };
    v.push(c);
    assert(v@ =~= hex(n as nat));
    v
}

/// Appends `n` in hexadecimal, with at least `width` digits.
pub fn push_hex(out: &mut String, n: u32, width: usize)
    ensures
        final(out)@ == old(out)@ + pad_left(hex(n as nat), width as nat, '0'),
{
    let v: Vec<char> = hex_digits(n);
    push_padded(out, v.as_slice(), width, '0');
}

/// Lower case changes the 26 capital letters, each to its small one, and nothing else.
pub proof fn law_lower_case_changes_capitals_only(s: Seq<char>, i: int)
    requires
        0 <= i < s.len(),
    ensures
        ascii_lower(s).len() == s.len(),
        'A' <= s[i] <= 'Z' ==> ascii_lower(s)[i] as int == s[i] as int + 32,
        !('A' <= s[i] <= 'Z') ==> ascii_lower(s)[i] == s[i],
{
}

} // verus!
