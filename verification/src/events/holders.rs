//! Who holds device memory.

use vstd::prelude::*;
use crate::events::state::{Holder, HolderView, SeenProcess, SeenView};
use crate::events::state::{holder_views, seen_views};
use crate::lists::filter_map;
use crate::lists::lemma_filter_map_step;
use crate::model::MilliPct;

verus! {

/// A process with at least `min_bytes` of memory known to be its own and, where `quiet` is given,
/// with a utilization of at most that, or none reported.
pub open spec fn holder_rule(
    min_bytes: u64,
    quiet: Option<MilliPct>,
) -> spec_fn(SeenView) -> Option<HolderView> {
    |p: SeenView|
        match p.mem_bytes {
            Some(mem) => if mem >= min_bytes && (match (quiet, p.util_pct) {
                (Some(max), Some(u)) => u <= max,
                _ => true,
            }) {
                Some(HolderView { pid: p.pid, name: p.name, mem })
            } else {
                None
            },
            None => None,
        }
}

/// The processes that hold such memory, in the order of the list.
pub open spec fn holders(
    procs: Seq<SeenView>,
    min_bytes: u64,
    quiet: Option<MilliPct>,
) -> Seq<HolderView> {
    filter_map(procs, holder_rule(min_bytes, quiet))
}

/// The one that holds most; of several, the last.
pub open spec fn largest(h: Seq<HolderView>) -> Option<HolderView>
    decreases h.len(),
{
    if h.len() == 0 {
        None
    } else {
        match largest(h.drop_last()) {
            Some(best) => if h.last().mem >= best.mem {
                Some(h.last())
            } else {
                Some(best)
            },
            None => Some(h.last()),
        }
    }
}

/// The largest is one of them, none holds more, and there is one unless the list is empty.
pub proof fn lemma_largest(h: Seq<HolderView>)
    ensures
        largest(h) is None <==> h.len() == 0,
        largest(h) matches Some(best) ==> h.contains(best) && forall|i: int|
            0 <= i < h.len() ==> (#[trigger] h[i]).mem <= best.mem,
    decreases h.len(),
{
    if h.len() > 0 {
        let rest = h.drop_last();
        lemma_largest(rest);
        assert(h[h.len() - 1] == h.last());
        if let Some(best) = largest(rest) {
            let i = choose|i: int| 0 <= i < rest.len() && rest[i] == best;
            assert(h[i] == best);
        }
        if let Some(best) = largest(h) {
            assert forall|i: int| 0 <= i < h.len() implies (#[trigger] h[i]).mem <= best.mem by {
                if i < rest.len() {
                    assert(rest[i] == h[i]);
                }
            }
        }
    }
}

pub fn holders_of(procs: &Vec<SeenProcess>, min_bytes: u64, quiet: Option<MilliPct>) -> (v: Vec<
    Holder,
>)
    ensures
        holder_views(v@) == holders(seen_views(procs@), min_bytes, quiet),
{
    let ghost views = seen_views(procs@);
    let ghost rule = holder_rule(min_bytes, quiet);
    let mut v: Vec<Holder> = Vec::new();
    let mut i: usize = 0;
    assert(holder_views(v@) =~= filter_map(views.take(0), rule));
    while i < procs.len()
        invariant
            i <= procs.len(),
            views == seen_views(procs@),
            rule == holder_rule(min_bytes, quiet),
            holder_views(v@) == filter_map(views.take(i as int), rule),
        decreases procs.len() - i,
    {
        proof {
            lemma_filter_map_step(views, rule, i as int);
            assert(views[i as int] == procs@[i as int]@);
        }
        let ghost before = v@;
        let p = &procs[i];
        if let Some(mem) = p.mem_bytes {
            let flat: bool = match quiet {
                Some(max) => match p.util_pct {
                    Some(u) => u <= max,
                    None => true,
                },
                None => true,
            };
            if mem >= min_bytes && flat {
                let h = Holder { pid: p.pid, name: p.name.clone(), mem };
                assert(holder_views(before.push(h)) =~= holder_views(before).push(h@));
                v.push(h);
            }
        }
        i = i + 1;
    }
    assert(views.take(views.len() as int) =~= views);
    v
}

/// The index of the largest holder.
pub fn largest_of(v: &Vec<Holder>) -> (r: Option<usize>)
    ensures
        match r {
            Some(i) => i < v@.len() && largest(holder_views(v@)) == Some(v@[i as int]@),
            None => largest(holder_views(v@)) is None,
        },
{
    let ghost views = holder_views(v@);
    let mut best: Option<usize> = None;
    let mut i: usize = 0;
    while i < v.len()
        invariant
            i <= v.len(),
            views == holder_views(v@),
            match best {
                Some(b) => b < i && largest(views.take(i as int)) == Some(v@[b as int]@),
                None => largest(views.take(i as int)) is None,
            },
        decreases v.len() - i,
    {
        proof {
            assert(views.take(i + 1).drop_last() =~= views.take(i as int));
            assert(views.take(i + 1).last() == v@[i as int]@);
        }
        match best {
            Some(b) => {
                if v[i].mem >= v[b].mem {
                    best = Some(i);
                }
            },
            None => {
                best = Some(i);
            },
        }
        i = i + 1;
    }
    assert(views.take(views.len() as int) =~= views);
    best
}

} // verus!
