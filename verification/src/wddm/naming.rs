//! How the names of counter instances are written: groups of a keyword and its values, in any
//! order, and the type of an engine behind them.

use vstd::prelude::*;
use crate::lists::join;
use crate::scan::{after_prefix, digit_value, digits_value, split_on, uint_value};
use crate::text::{first_at, split_at_char};
use crate::text::{lemma_first_at_holds, lemma_split_joined};
use crate::wddm::pdh::{InstanceLuid, InstanceView};
use crate::wddm::pdh::{decimal, hex_dword, instance_of, no_instance, parsed};

verus! {

pub enum Keyword {
    Pid,
    Luid,
    Phys,
    Part,
    Eng,
}

/// A keyword with its values as they are written: the adapter has two, the others have one.
pub struct Group {
    pub word: Keyword,
    pub first: Seq<char>,
    pub second: Seq<char>,
}

/// The keyword as it is written.
pub open spec fn word_text(w: Keyword) -> Seq<char> {
    match w {
        Keyword::Pid => "pid"@,
        Keyword::Luid => "luid"@,
        Keyword::Phys => "phys"@,
        Keyword::Part => "part"@,
        Keyword::Eng => "eng"@,
    }
}

/// The group as it is written.
pub open spec fn group_text(g: Group) -> Seq<char> {
    if g.word is Luid {
        word_text(g.word) + seq!['_'] + (g.first + seq!['_'] + g.second)
    } else {
        word_text(g.word) + seq!['_'] + g.first
    }
}

/// The numbers that its values stand for.
pub open spec fn group_value(g: Group) -> Option<(u32, u32)> {
    if g.word is Luid {
        match (hex_dword(g.first), hex_dword(g.second)) {
            (Some(a), Some(b)) => Some((a, b)),
            _ => None,
        }
    } else {
        match decimal(g.first) {
            Some(n) => Some((n, 0)),
            None => None,
        }
    }
}

/// The groups one behind the other.
pub open spec fn groups_text(gs: Seq<Group>) -> Seq<char>
    decreases gs.len(),
{
    if gs.len() == 0 {
        Seq::empty()
    } else if gs.len() == 1 {
        group_text(gs[0])
    } else {
        group_text(gs[0]) + seq!['_'] + groups_text(gs.skip(1))
    }
}

/// The name with these groups and this type of engine.
pub open spec fn instance_name(gs: Seq<Group>, engtype: Option<Seq<char>>) -> Seq<char> {
    match engtype {
        Some(t) => groups_text(gs) + seq!['_'] + ("engtype"@ + seq!['_'] + t),
        None => groups_text(gs),
    }
}

/// What an instance has under a keyword.
pub open spec fn field(q: InstanceView, w: Keyword) -> Option<(u32, u32)> {
    let one = match w {
        Keyword::Pid => q.pid,
        Keyword::Phys => q.phys,
        Keyword::Part => q.part,
        Keyword::Eng => q.eng,
        Keyword::Luid => None,
    };
    if w is Luid {
        match q.luid {
            Some(InstanceLuid(a, b)) => Some((a, b)),
            None => None,
        }
    } else {
        match one {
            Some(n) => Some((n, 0)),
            None => None,
        }
    }
}

/// One of the groups has this keyword.
pub open spec fn writes(gs: Seq<Group>, w: Keyword) -> bool {
    exists|i: int| 0 <= i < gs.len() && (#[trigger] gs[i]).word == w
}

/// Groups that can be written: at least one, each with numbers for values, and no keyword twice;
/// and a type of engine is not empty.
pub open spec fn writable(gs: Seq<Group>, engtype: Option<Seq<char>>) -> bool {
    &&& gs.len() > 0
    &&& forall|i: int| 0 <= i < gs.len() ==> group_value(#[trigger] gs[i]) is Some
    &&& forall|i: int, j: int|
        0 <= i < j < gs.len() ==> (#[trigger] gs[i]).word != (#[trigger] gs[j]).word
    &&& engtype matches Some(t) ==> t.len() > 0
}

/// `out` with a group.
spec fn with_group(out: InstanceView, g: Group) -> InstanceView {
    let v = group_value(g)->0;
    match g.word {
        Keyword::Pid => InstanceView { pid: Some(v.0), ..out },
        Keyword::Luid => InstanceView { luid: Some(InstanceLuid(v.0, v.1)), ..out },
        Keyword::Phys => InstanceView { phys: Some(v.0), ..out },
        Keyword::Part => InstanceView { part: Some(v.0), ..out },
        Keyword::Eng => InstanceView { eng: Some(v.0), ..out },
    }
}

spec fn with_groups(out: InstanceView, gs: Seq<Group>) -> InstanceView
    decreases gs.len(),
{
    if gs.len() == 0 {
        out
    } else {
        with_groups(with_group(out, gs[0]), gs.skip(1))
    }
}

proof fn lemma_digits_are_plain(s: Seq<char>, radix: nat)
    requires
        digits_value(s, radix) is Some,
    ensures
        !s.contains('_'),
    decreases s.len(),
{
    if s.len() > 0 {
        lemma_digits_are_plain(s.drop_last(), radix);
        if s.contains('_') {
            let i = choose|i: int| 0 <= i < s.len() && s[i] == '_';
            if i < s.len() - 1 {
                assert(s.drop_last()[i] == '_');
            } else {
                assert(digit_value(s.last(), radix) is None);
            }
        }
    }
}

/// A number has no underscore in it.
proof fn lemma_number_is_plain(s: Seq<char>, radix: nat, max: nat)
    requires
        uint_value(s, radix, max) is Some,
    ensures
        !s.contains('_'),
{
    if s.len() > 0 && s[0] == '+' {
        lemma_digits_are_plain(s.skip(1), radix);
        if s.contains('_') {
            let i = choose|i: int| 0 <= i < s.len() && s[i] == '_';
            assert(s.skip(1)[i - 1] == '_');
        }
    } else {
        lemma_digits_are_plain(s, radix);
    }
}

proof fn lemma_hex_is_plain(s: Seq<char>)
    requires
        hex_dword(s) is Some,
    ensures
        !s.contains('_'),
{
    reveal_strlit("0x");
    reveal_strlit("0X");
    let p = if after_prefix(s, "0x"@) is Some {
        "0x"@
    } else {
        "0X"@
    };
    let d = after_prefix(s, p)->0;
    lemma_number_is_plain(d, 16, u32::MAX as nat);
    if s.contains('_') {
        let i = choose|i: int| 0 <= i < s.len() && s[i] == '_';
        assert(s.take(2) =~= p);
        if i < 2 {
            assert(s.take(2)[i] == '_');
        } else {
            assert(d[i - 2] == '_');
        }
    }
}

proof fn lemma_word_is_plain(w: Keyword)
    ensures
        !word_text(w).contains('_'),
        !"engtype"@.contains('_'),
        word_text(w) != "engtype"@,
        w is Luid <==> word_text(w) == "luid"@,
        w is Pid <==> word_text(w) == "pid"@,
        w is Phys <==> word_text(w) == "phys"@,
        w is Part <==> word_text(w) == "part"@,
        w is Eng <==> word_text(w) == "eng"@,
{
    reveal_strlit("pid");
    reveal_strlit("luid");
    reveal_strlit("phys");
    reveal_strlit("part");
    reveal_strlit("eng");
    reveal_strlit("engtype");
    assert("pid"@[0] == 'p' && "pid"@.len() == 3);
    assert("eng"@[0] == 'e' && "eng"@.len() == 3);
    assert("luid"@[0] == 'l' && "luid"@.len() == 4);
    assert("phys"@[1] == 'h' && "phys"@.len() == 4 && "phys"@[0] == 'p');
    assert("part"@[1] == 'a' && "part"@.len() == 4 && "part"@[0] == 'p');
    assert("engtype"@.len() == 7);
}

/// A text without the separator is one piece.
proof fn lemma_one_piece(s: Seq<char>)
    requires
        !s.contains('_'),
    ensures
        split_on(s, '_') == seq![s],
{
    lemma_first_at_holds(s, '_');
    if split_at_char(s, '_') is Some {
        let i = first_at(s, '_') as int;
        assert(s[i] == '_');
    }
}

/// A piece in front of others.
proof fn lemma_first_piece(a: Seq<char>, b: Seq<char>)
    requires
        !a.contains('_'),
    ensures
        split_on(a + seq!['_'] + b, '_') == seq![a] + split_on(b, '_'),
{
    lemma_split_joined(a, '_', b);
}

proof fn lemma_join_front(a: Seq<char>, ps: Seq<Seq<char>>, sep: Seq<char>)
    requires
        ps.len() > 0,
    ensures
        join(seq![a] + ps, sep) == a + sep + join(ps, sep),
    decreases ps.len(),
{
    let all = seq![a] + ps;
    assert(all.last() == ps.last());
    assert(all.drop_last() =~= seq![a] + ps.drop_last());
    if ps.len() == 1 {
        assert(all.drop_last() =~= seq![a]);
        assert(join(all.drop_last(), sep) == a);
    } else {
        lemma_join_front(a, ps.drop_last(), sep);
        assert(a + sep + join(ps.drop_last(), sep) + sep + ps.last() =~= a + sep + (join(
            ps.drop_last(),
            sep,
        ) + sep + ps.last()));
    }
}

/// The pieces of a text, joined again, are the text.
proof fn lemma_pieces_join(s: Seq<char>)
    ensures
        split_on(s, '_').len() > 0,
        join(split_on(s, '_'), "_"@) == s,
    decreases s.len(),
{
    reveal_strlit("_");
    assert("_"@ =~= seq!['_']);
    if let Some((a, b)) = split_at_char(s, '_') {
        lemma_pieces_join(b);
        lemma_join_front(a, split_on(b, '_'), "_"@);
        lemma_first_at_holds(s, '_');
        assert(s =~= a + seq!['_'] + b);
    }
}

/// The pieces of a group.
spec fn pieces(g: Group) -> Seq<Seq<char>> {
    if g.word is Luid {
        seq![word_text(g.word), g.first, g.second]
    } else {
        seq![word_text(g.word), g.first]
    }
}

/// The pieces of a group in front of others.
proof fn lemma_pieces_parse(g: Group, more: Seq<Seq<char>>, out: InstanceView)
    requires
        group_value(g) is Some,
    ensures
        parsed(pieces(g) + more, out) == parsed(more, with_group(out, g)),
{
    lemma_word_is_plain(g.word);
    let toks = pieces(g) + more;
    assert(toks[0] == word_text(g.word) && toks[1] == g.first);
    if g.word is Luid {
        assert(toks[2] == g.second);
        assert(toks.skip(3) =~= more);
    } else {
        assert(toks.skip(2) =~= more);
    }
}

/// A group at the end of a name.
proof fn lemma_last_group(g: Group)
    requires
        group_value(g) is Some,
    ensures
        split_on(group_text(g), '_') == pieces(g) + Seq::empty(),
{
    lemma_word_is_plain(g.word);
    if g.word is Luid {
        lemma_hex_is_plain(g.first);
        lemma_hex_is_plain(g.second);
        lemma_first_piece(word_text(g.word), g.first + seq!['_'] + g.second);
        lemma_first_piece(g.first, g.second);
        lemma_one_piece(g.second);
    } else {
        lemma_number_is_plain(g.first, 10, u32::MAX as nat);
        lemma_first_piece(word_text(g.word), g.first);
        lemma_one_piece(g.first);
    }
    assert(split_on(group_text(g), '_') =~= pieces(g) + Seq::empty());
}

/// A group in front of the rest of a name.
proof fn lemma_first_group(g: Group, rest: Seq<char>)
    requires
        group_value(g) is Some,
    ensures
        split_on(group_text(g) + seq!['_'] + rest, '_') == pieces(g) + split_on(rest, '_'),
{
    lemma_word_is_plain(g.word);
    let text = group_text(g) + seq!['_'] + rest;
    if g.word is Luid {
        lemma_hex_is_plain(g.first);
        lemma_hex_is_plain(g.second);
        let behind = g.second + seq!['_'] + rest;
        assert(text =~= word_text(g.word) + seq!['_'] + (g.first + seq!['_'] + behind));
        lemma_first_piece(word_text(g.word), g.first + seq!['_'] + behind);
        lemma_first_piece(g.first, behind);
        lemma_first_piece(g.second, rest);
    } else {
        lemma_number_is_plain(g.first, 10, u32::MAX as nat);
        let behind = g.first + seq!['_'] + rest;
        assert(text =~= word_text(g.word) + seq!['_'] + behind);
        lemma_first_piece(word_text(g.word), behind);
        lemma_first_piece(g.first, rest);
    }
    assert(split_on(text, '_') =~= pieces(g) + split_on(rest, '_'));
}

proof fn lemma_name_parses(gs: Seq<Group>, engtype: Option<Seq<char>>, out: InstanceView)
    requires
        writable(gs, engtype),
        out.engtype is None,
    ensures
        parsed(split_on(instance_name(gs, engtype), '_'), out) == Some(
            InstanceView { engtype, ..with_groups(out, gs) },
        ),
        with_groups(out, gs).engtype is None,
    decreases gs.len(),
{
    let next = with_group(out, gs[0]);
    assert(group_value(gs[0]) is Some);
    let more = gs.skip(1);
    if gs.len() > 1 {
        assert forall|i: int| 0 <= i < more.len() implies group_value(#[trigger] more[i]) is Some by {
            assert(more[i] == gs[i + 1]);
        }
        assert forall|i: int, j: int| 0 <= i < j < more.len() implies (#[trigger] more[i]).word != (
        #[trigger] more[j]).word by {
            assert(more[i] == gs[i + 1] && more[j] == gs[j + 1]);
        }
        lemma_name_parses(more, engtype, next);
        lemma_first_group(gs[0], instance_name(more, engtype));
        lemma_pieces_parse(gs[0], split_on(instance_name(more, engtype), '_'), out);
        assert(instance_name(gs, engtype) =~= group_text(gs[0]) + seq!['_'] + instance_name(
            more,
            engtype,
        ));
    } else {
        assert(with_groups(next, more) == next);
        match engtype {
            Some(t) => {
                let rest = "engtype"@ + seq!['_'] + t;
                lemma_word_is_plain(gs[0].word);
                lemma_first_group(gs[0], rest);
                lemma_pieces_parse(gs[0], split_on(rest, '_'), out);
                lemma_first_piece("engtype"@, t);
                lemma_pieces_join(t);
                let toks = split_on(rest, '_');
                assert(toks.skip(1) =~= split_on(t, '_'));
            },
            None => {
                lemma_last_group(gs[0]);
                lemma_pieces_parse(gs[0], Seq::empty(), out);
            },
        }
    }
}

proof fn lemma_fields(out: InstanceView, gs: Seq<Group>)
    requires
        forall|i: int| 0 <= i < gs.len() ==> group_value(#[trigger] gs[i]) is Some,
        forall|i: int, j: int|
            0 <= i < j < gs.len() ==> (#[trigger] gs[i]).word != (#[trigger] gs[j]).word,
    ensures
        forall|i: int|
            0 <= i < gs.len() ==> field(with_groups(out, gs), (#[trigger] gs[i]).word)
                == group_value(gs[i]),
        forall|w: Keyword| !writes(gs, w) ==> #[trigger] field(with_groups(out, gs), w) == field(
            out,
            w,
        ),
    decreases gs.len(),
{
    if gs.len() > 0 {
        let g = gs[0];
        let next = with_group(out, g);
        let more = gs.skip(1);
        assert(group_value(g) is Some);
        assert forall|i: int| 0 <= i < more.len() implies group_value(#[trigger] more[i]) is Some by {
            assert(more[i] == gs[i + 1]);
        }
        assert forall|i: int, j: int| 0 <= i < j < more.len() implies (#[trigger] more[i]).word != (
        #[trigger] more[j]).word by {
            assert(more[i] == gs[i + 1] && more[j] == gs[j + 1]);
        }
        lemma_fields(next, more);
        let q = with_groups(out, gs);
        assert(!writes(more, g.word)) by {
            if writes(more, g.word) {
                let i = choose|i: int| 0 <= i < more.len() && (#[trigger] more[i]).word == g.word;
                assert(gs[i + 1].word == gs[0].word);
            }
        }
        assert(field(next, g.word) == group_value(g));
        assert forall|i: int| 0 <= i < gs.len() implies field(q, (#[trigger] gs[i]).word)
            == group_value(gs[i]) by {
            if i > 0 {
                assert(more[i - 1] == gs[i]);
            }
        }
        assert forall|w: Keyword| !writes(gs, w) implies #[trigger] field(q, w) == field(out, w) by {
            assert(g.word != w);
            if writes(more, w) {
                let i = choose|i: int| 0 <= i < more.len() && (#[trigger] more[i]).word == w;
                assert(gs[i + 1].word == w);
            }
        }
    }
}

/// A name reads as it was written: each keyword that is in it with its values, no other, and the
/// type of the engine, underscores and all.
pub proof fn law_a_name_reads_as_written(gs: Seq<Group>, engtype: Option<Seq<char>>)
    requires
        writable(gs, engtype),
    ensures
        instance_of(instance_name(gs, engtype)) matches Some(q) && {
            &&& q.engtype == engtype
            &&& forall|i: int|
                0 <= i < gs.len() ==> field(q, (#[trigger] gs[i]).word) == group_value(gs[i])
            &&& forall|w: Keyword| !writes(gs, w) ==> #[trigger] field(q, w) is None
        },
{
    lemma_name_parses(gs, engtype, no_instance());
    lemma_fields(no_instance(), gs);
    let p = with_groups(no_instance(), gs);
    let q = InstanceView { engtype, ..p };
    assert forall|w: Keyword| #[trigger] field(q, w) == field(p, w) by {}
    assert forall|w: Keyword| !writes(gs, w) implies #[trigger] field(q, w) is None by {
        assert(field(p, w) == field(no_instance(), w));
    }
}

/// Names go by keyword, not by place: in whatever order the groups stand, the name is that of one
/// instance.
pub proof fn law_the_order_of_keywords_does_not_count(
    gs: Seq<Group>,
    hs: Seq<Group>,
    engtype: Option<Seq<char>>,
)
    requires
        writable(gs, engtype),
        writable(hs, engtype),
        forall|g: Group| #[trigger] gs.contains(g) <==> hs.contains(g),
    ensures
        instance_of(instance_name(gs, engtype)) == instance_of(instance_name(hs, engtype)),
        instance_of(instance_name(gs, engtype)) is Some,
{
    law_a_name_reads_as_written(gs, engtype);
    law_a_name_reads_as_written(hs, engtype);
    let p = instance_of(instance_name(gs, engtype))->0;
    let q = instance_of(instance_name(hs, engtype))->0;
    assert forall|w: Keyword| #[trigger] field(p, w) == field(q, w) by {
        if writes(gs, w) {
            let i = choose|i: int| 0 <= i < gs.len() && (#[trigger] gs[i]).word == w;
            assert(gs.contains(gs[i]));
            assert(hs.contains(gs[i]));
            let j = choose|j: int| 0 <= j < hs.len() && hs[j] == gs[i];
            assert(hs[j].word == w);
        } else if writes(hs, w) {
            let j = choose|j: int| 0 <= j < hs.len() && (#[trigger] hs[j]).word == w;
            assert(hs.contains(hs[j]));
            assert(gs.contains(hs[j]));
            let i = choose|i: int| 0 <= i < gs.len() && gs[i] == hs[j];
            assert(gs[i].word == w);
        }
    }
    assert(field(p, Keyword::Pid) == field(q, Keyword::Pid));
    assert(field(p, Keyword::Luid) == field(q, Keyword::Luid));
    assert(field(p, Keyword::Phys) == field(q, Keyword::Phys));
    assert(field(p, Keyword::Part) == field(q, Keyword::Part));
    assert(field(p, Keyword::Eng) == field(q, Keyword::Eng));
    assert(p.luid == q.luid);
    assert(p =~= q);
}

} // verus!
