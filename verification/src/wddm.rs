//! Devices of Windows, of any vendor, as the system itself tells of them.
//!
//! Utilization is the busiest engine's share of scheduled time, not of capacity. What the system
//! does not tell (temperature, power, clocks, throttling) is missing, never made up.

use vstd::prelude::*;
use crate::model::text_view;
use crate::text::dec;
use crate::text::{chars_of, push_chars, push_dec};
use vstd::slice::slice_subrange;

pub mod adapters;
pub mod backend;
pub mod naming;
pub mod pdh;
pub mod per_pid;
pub mod snapshot;
pub mod sums;

verus! {

/// A separator of the parts of a path.
pub open spec fn is_separator(c: char) -> bool {
    c == '/' || c == '\\'
}

/// What follows the last separator.
pub open spec fn last_part(path: Seq<char>) -> Seq<char>
    decreases path.len(),
{
    if path.len() == 0 || is_separator(path.last()) {
        Seq::empty()
    } else {
        last_part(path.drop_last()).push(path.last())
    }
}

/// The last part of a path; the whole path where that is empty.
pub open spec fn base_name(path: Seq<char>) -> Seq<char> {
    if last_part(path).len() > 0 {
        last_part(path)
    } else {
        path
    }
}

proof fn lemma_last_part(path: Seq<char>, k: int)
    requires
        0 <= k <= path.len(),
        forall|j: int| k <= j < path.len() ==> !is_separator(#[trigger] path[j]),
        k > 0 ==> is_separator(path[k - 1]),
    ensures
        last_part(path) == path.skip(k),
    decreases path.len(),
{
    if k == path.len() {
        assert(path.skip(k) =~= Seq::empty());
    } else {
        let t = path.drop_last();
        assert(!is_separator(path[path.len() - 1]));
        assert forall|j: int| k <= j < t.len() implies !is_separator(#[trigger] t[j]) by {
            assert(t[j] == path[j]);
        }
        lemma_last_part(t, k);
        assert(t.skip(k).push(path.last()) =~= path.skip(k));
    }
}

/// The name of an image: the last part of its path, whichever separator the path has.
pub fn image_basename(path: &str) -> (r: String)
    ensures
        r@ == base_name(path@),
{
    let chars: Vec<char> = chars_of(path);
    let mut k: usize = chars.len();
    while k > 0 && !(chars[k - 1] == '/' || chars[k - 1] == '\\')
        invariant
            k <= chars.len(),
            forall|j: int| k <= j < chars@.len() ==> !is_separator(#[trigger] chars@[j]),
        decreases k,
    {
        k = k - 1;
    }
    proof {
        lemma_last_part(chars@, k as int);
    }
    let from: usize = if k < chars.len() {
        k
    } else {
        0
    };
    let part = slice_subrange(chars.as_slice(), from, chars.len());
    assert(part@ =~= chars@.skip(from as int));
    assert(chars@.skip(0) =~= chars@);
    let mut out: String = String::new();
    push_chars(&mut out, part);
    assert(out@ =~= part@);
    out
}

/// The name of a process by its image; where that is not told, by its id.
pub open spec fn name_by_image(image: Option<Seq<char>>, pid: u32) -> Seq<char> {
    match image {
        Some(path) => if path.len() > 0 {
            base_name(path)
        } else {
            "pid "@ + dec(pid as nat)
        },
        None => "pid "@ + dec(pid as nat),
    }
}

/// The name of a process whose image has the path, where that is told.
pub fn os_process_name(image: &Option<String>, pid: u32) -> (r: String)
    ensures
        r@ == name_by_image(text_view(*image), pid),
{
    if let Some(path) = image {
        if path.as_str().unicode_len() > 0 {
            return image_basename(path.as_str());
        }
    }
    let mut out: String = String::new();
    out.append("pid ");
    push_dec(&mut out, pid as u128);
    assert(out@ =~= "pid "@ + dec(pid as nat));
    out
}

/// The name of a process is the last part of the path of its image, behind either separator; a path
/// without one is the name itself.
pub proof fn law_the_last_part_of_a_path_is_the_name(dir: Seq<char>, name: Seq<char>, pid: u32)
    requires
        name.len() > 0,
        forall|i: int| 0 <= i < name.len() ==> #[trigger] name[i] != '/' && name[i] != '\\',
    ensures
        name_by_image(Some(dir + seq!['/'] + name), pid) == name,
        name_by_image(Some(dir + seq!['\\'] + name), pid) == name,
        name_by_image(Some(name), pid) == name,
        name_by_image(None, pid) == "pid "@ + dec(pid as nat),
{
    lemma_name_part(dir.push('/'), name);
    lemma_name_part(dir.push('\\'), name);
    lemma_name_part(Seq::empty(), name);
    assert(dir + seq!['/'] + name =~= dir.push('/') + name);
    assert(dir + seq!['\\'] + name =~= dir.push('\\') + name);
    assert(Seq::<char>::empty() + name =~= name);
}

proof fn lemma_name_part(head: Seq<char>, name: Seq<char>)
    requires
        head.len() == 0 || is_separator(head.last()),
        forall|i: int| 0 <= i < name.len() ==> #[trigger] name[i] != '/' && name[i] != '\\',
    ensures
        last_part(head + name) == name,
    decreases name.len(),
{
    let s = head + name;
    if name.len() > 0 {
        let t = name.drop_last();
        assert(s.drop_last() =~= head + t);
        assert(s.last() == name[name.len() - 1]);
        assert forall|i: int| 0 <= i < t.len() implies #[trigger] t[i] != '/' && t[i] != '\\' by {
            assert(t[i] == name[i]);
        }
        lemma_name_part(head, t);
        assert(t.push(name.last()) =~= name);
    } else {
        assert(s =~= head);
        assert(last_part(s) =~= name);
    }
}

} // verus!
