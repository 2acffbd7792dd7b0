//! The flat, searchable index of every station of every line.
//!
//! Lines come with one or more branches, each an ordered list of station
//! names (ordering them along the rail is geometry, done where the map is
//! drawn). The index lists lines by route key; within a line, branch by
//! branch and station by station, but a name shared by branches (the trunk)
//! is indexed once, on the first branch that has it.

use vstd::prelude::*;
use crate::app::StationRef;
use crate::text::{chars_eq, chars_lt, chars_of, lemma_text_lt_strict, lemma_text_lt_trans, lowercase, text_lt, to_lower};

verus! {

/// One line's stations: its route key and its branches' ordered station names.
pub struct RouteStations {
    pub key: String,
    pub branches: Vec<Vec<String>>,
}

/// A station of a line as (name, branch, position in the branch).
pub type StationEntry = (Seq<char>, int, int);

/// The stations of the branches, branch by branch.
pub open spec fn branch_entries(branches: Seq<Vec<String>>) -> Seq<StationEntry>
    decreases branches.len(),
{
    if branches.len() == 0 {
        seq![]
    } else {
        let b = branches.len() - 1;
        branch_entries(branches.drop_last()) + Seq::new(
            branches.last()@.len(),
            |i: int| (branches.last()@[i]@, b, i),
        )
    }
}

/// Whether an earlier entry has the same name, compared case-insensitively.
pub open spec fn named_before(es: Seq<StationEntry>, k: int) -> bool {
    exists|j: int| 0 <= j < k && lowercase(#[trigger] es[j].0) == lowercase(es[k].0)
}

/// The entries whose name has not come before.
pub open spec fn first_named(es: Seq<StationEntry>) -> Seq<StationEntry>
    decreases es.len(),
{
    if es.len() == 0 {
        seq![]
    } else {
        let rest = first_named(es.drop_last());
        if named_before(es, es.len() - 1) {
            rest
        } else {
            rest.push(es.last())
        }
    }
}

proof fn lemma_first_named_from(es: Seq<StationEntry>)
    ensures
        forall|a: int| 0 <= a < first_named(es).len() ==> exists|j: int| 0 <= j < es.len() && #[trigger] first_named(es)[a] == es[j],
    decreases es.len(),
{
    if es.len() > 0 {
        let init = es.drop_last();
        lemma_first_named_from(init);
        let rest = first_named(init);
        assert forall|a: int| 0 <= a < first_named(es).len() implies exists|j: int| 0 <= j < es.len() && #[trigger] first_named(es)[a] == es[j] by {
            if a < rest.len() {
                let j = choose|j: int| 0 <= j < init.len() && rest[a] == init[j];
                assert(es[j] == init[j]);
            } else {
                assert(first_named(es)[a] == es[es.len() - 1]);
            }
        }
    }
}

/// Within one line, no two rows of the index name the same station, compared
/// case-insensitively: a name shared by branches is listed once.
pub proof fn law_line_names_once(es: Seq<StationEntry>)
    ensures
        forall|a: int, b: int|
            0 <= a < b < first_named(es).len() ==> lowercase(#[trigger] first_named(es)[a].0) != lowercase(
                #[trigger] first_named(es)[b].0,
            ),
    decreases es.len(),
{
    if es.len() > 0 {
        let init = es.drop_last();
        law_line_names_once(init);
        lemma_first_named_from(init);
        let rest = first_named(init);
        if !named_before(es, es.len() - 1) {
            assert forall|a: int, b: int|
                0 <= a < b < first_named(es).len() implies lowercase(#[trigger] first_named(es)[a].0) != lowercase(
                #[trigger] first_named(es)[b].0,
            ) by {
                if b == rest.len() {
                    let j = choose|j: int| 0 <= j < init.len() && rest[a] == init[j];
                    assert(es[j] == init[j]);
                    assert(first_named(es)[b] == es[es.len() - 1]);
                    assert(!(lowercase(es[j].0) == lowercase(es[es.len() - 1].0)));
                } else {
                    assert(first_named(es)[a] == rest[a]);
                    assert(first_named(es)[b] == rest[b]);
                }
            }
        }
    }
}

/// A row of the index as (name, route key, branch, position).
pub open spec fn row_of(s: StationRef) -> (Seq<char>, Seq<char>, int, int) {
    (s.name@, s.route@, s.branch as int, s.index as int)
}

/// The rows of an index.
pub open spec fn rows(v: Seq<StationRef>) -> Seq<(Seq<char>, Seq<char>, int, int)> {
    v.map_values(|s: StationRef| row_of(s))
}

/// The rows one line contributes.
pub open spec fn line_rows(r: RouteStations) -> Seq<(Seq<char>, Seq<char>, int, int)> {
    first_named(branch_entries(r.branches@)).map_values(|e: StationEntry| (e.0, r.key@, e.1, e.2))
}

/// The rows of the lines taken in the given order.
pub open spec fn rows_in_order(routes: Seq<RouteStations>, order: Seq<int>) -> Seq<(Seq<char>, Seq<char>, int, int)>
    decreases order.len(),
{
    if order.len() == 0 {
        seq![]
    } else {
        rows_in_order(routes, order.drop_last()) + line_rows(routes[order.last()])
    }
}

/// `order` lists every line exactly once, by increasing route key.
pub open spec fn key_order(routes: Seq<RouteStations>, order: Seq<int>) -> bool {
    &&& order.len() == routes.len()
    &&& forall|i: int| 0 <= i < order.len() ==> 0 <= #[trigger] order[i] < routes.len()
    &&& forall|j: int| 0 <= j < routes.len() ==> #[trigger] order.contains(j)
    &&& forall|i: int, k: int| 0 <= i < k < order.len() ==> text_lt(routes[#[trigger] order[i]].key@, routes[#[trigger] order[k]].key@)
}

/// The index of every station of the given lines, route keys all different.
pub fn station_index(routes: &Vec<RouteStations>) -> (index: Vec<StationRef>)
    requires
        forall|i: int, j: int| 0 <= i < j < routes@.len() ==> routes@[i].key@ != routes@[j].key@,
    ensures
        exists|order: Seq<int>| key_order(routes@, order) && rows(index@) == rows_in_order(routes@, order),
{
    let n = routes.len();
    let mut keys: Vec<Vec<char>> = Vec::new();
    let mut i: usize = 0;
    while i < n
        invariant
            n == routes@.len(),
            i <= n,
            keys@.len() == i,
            forall|k: int| 0 <= k < i ==> (#[trigger] keys@[k])@ == routes@[k].key@,
        decreases n - i,
    {
        keys.push(chars_of(routes[i].key.as_str()));
        i = i + 1;
    }
    // line positions by increasing key
    let mut order: Vec<usize> = Vec::new();
    let mut i: usize = 0;
    while i < n
        invariant
            n == routes@.len(),
            keys@.len() == n,
            forall|k: int| 0 <= k < n ==> (#[trigger] keys@[k])@ == routes@[k].key@,
            forall|a: int, b: int| 0 <= a < b < routes@.len() ==> routes@[a].key@ != routes@[b].key@,
            i <= n,
            order@.len() == i,
            forall|x: int| 0 <= x < order@.len() ==> (#[trigger] order@[x]) < i,
            forall|j: int| 0 <= j < i ==> #[trigger] order@.contains(j as usize),
            forall|x: int, y: int| 0 <= x < y < order@.len() ==> text_lt(routes@[#[trigger] order@[x] as int].key@, routes@[#[trigger] order@[y] as int].key@),
        decreases n - i,
    {
        let ghost prev = order@;
        let mut p: usize = 0;
        while p < order.len() && chars_lt(&keys[order[p]], &keys[i])
            invariant
                order@ == prev,
                p <= prev.len(),
                i < n,
                keys@.len() == n,
                forall|k: int| 0 <= k < n ==> (#[trigger] keys@[k])@ == routes@[k].key@,
                forall|x: int| 0 <= x < prev.len() ==> (#[trigger] prev[x]) < i,
                forall|x: int| 0 <= x < p ==> text_lt(routes@[#[trigger] prev[x] as int].key@, routes@[i as int].key@),
            decreases prev.len() - p,
        {
            p = p + 1;
        }
        proof {
            if p < prev.len() {
                let q = prev[p as int] as int;
                assert(routes@[q].key@ != routes@[i as int].key@);
                lemma_text_lt_strict(routes@[q].key@, routes@[i as int].key@);
            }
        }
        order.insert(p, i);
        proof {
            let new = order@;
            assert(new == prev.insert(p as int, i));
            let ki = routes@[i as int].key@;
            assert forall|x: int, y: int| 0 <= x < y < new.len() implies text_lt(routes@[#[trigger] new[x] as int].key@, routes@[#[trigger] new[y] as int].key@) by {
                if y < p {
                } else if x < p && y == p {
                } else if x < p && y > p {
                    assert(new[y] == prev[y - 1]);
                    if y - 1 > p {
                        assert(text_lt(routes@[prev[p as int] as int].key@, routes@[prev[y - 1] as int].key@));
                        lemma_text_lt_trans(ki, routes@[prev[p as int] as int].key@, routes@[prev[y - 1] as int].key@);
                    }
                    lemma_text_lt_trans(routes@[prev[x] as int].key@, ki, routes@[prev[y - 1] as int].key@);
                } else if x == p {
                    assert(new[y] == prev[y - 1]);
                    if y - 1 > p {
                        assert(text_lt(routes@[prev[p as int] as int].key@, routes@[prev[y - 1] as int].key@));
                        lemma_text_lt_trans(ki, routes@[prev[p as int] as int].key@, routes@[prev[y - 1] as int].key@);
                    }
                } else {
                    assert(new[x] == prev[x - 1]);
                    assert(new[y] == prev[y - 1]);
                }
            }
            assert forall|j: int| 0 <= j <= i implies #[trigger] new.contains(j as usize) by {
                if j == i {
                    assert(new[p as int] == i);
                } else {
                    assert(prev.contains(j as usize));
                    let w = choose|w: int| 0 <= w < prev.len() && prev[w] == j as usize;
                    if w < p {
                        assert(new[w] == j as usize);
                    } else {
                        assert(new[w + 1] == j as usize);
                    }
                }
            }
            assert forall|x: int| 0 <= x < new.len() implies (#[trigger] new[x]) < i + 1 by {
                if x > p {
                    assert(new[x] == prev[x - 1]);
                }
            }
        }
        i = i + 1;
    }
    let ghost ord: Seq<int> = order@.map_values(|u: usize| u as int);
    let mut index: Vec<StationRef> = Vec::new();
    let mut k: usize = 0;
    while k < n
        invariant
            n == routes@.len(),
            order@.len() == n,
            ord == order@.map_values(|u: usize| u as int),
            forall|x: int| 0 <= x < n ==> (#[trigger] order@[x]) < n,
            k <= n,
            rows(index@) == rows_in_order(routes@, ord.take(k as int)),
        decreases n - k,
    {
        let r = &routes[order[k]];
        let ghost before = rows(index@);
        append_line(r, &mut index);
        assert(ord.take(k + 1).drop_last() =~= ord.take(k as int));
        assert(ord.take(k + 1).last() == order@[k as int] as int);
        assert(rows(index@) =~= before + line_rows(*r));
        k = k + 1;
    }
    proof {
        assert(ord.take(n as int) =~= ord);
        assert forall|x: int| 0 <= x < ord.len() implies 0 <= #[trigger] ord[x] < routes@.len() by {}
        assert forall|j: int| 0 <= j < routes@.len() implies #[trigger] ord.contains(j) by {
            assert(order@.contains(j as usize));
            let w = choose|w: int| 0 <= w < order@.len() && order@[w] == j as usize;
            assert(ord[w] == j);
        }
        assert(key_order(routes@, ord));
    }
    index
}

/// Append one line's rows to the index.
fn append_line(r: &RouteStations, index: &mut Vec<StationRef>)
    ensures
        rows(final(index)@) == rows(old(index)@) + line_rows(*r),
{
    let ghost start = rows(index@);
    let ghost bs = r.branches@;
    let mut lowered: Vec<Vec<char>> = Vec::new();
    let ghost mut done: Seq<StationEntry> = seq![];
    let nb = r.branches.len();
    let mut b: usize = 0;
    while b < nb
        invariant
            nb == bs.len(),
            bs == r.branches@,
            b <= nb,
            done == branch_entries(bs.take(b as int)),
            lowered@.len() == done.len(),
            forall|j: int| 0 <= j < done.len() ==> (#[trigger] lowered@[j])@ == lowercase(done[j].0),
            rows(index@) == start + first_named(done).map_values(|e: StationEntry| (e.0, r.key@, e.1, e.2)),
        decreases nb - b,
    {
        let branch = &r.branches[b];
        let ghost base = done;
        let ns = branch.len();
        let mut i: usize = 0;
        assert(bs.take(b + 1).drop_last() =~= bs.take(b as int));
        assert(bs.take(b + 1).last() == bs[b as int]);
        while i < ns
            invariant
                nb == bs.len(),
                bs == r.branches@,
                b < nb,
                ns == bs[b as int]@.len(),
                *branch == bs[b as int],
                i <= ns,
                base == branch_entries(bs.take(b as int)),
                done == base + Seq::new(i as nat, |x: int| (bs[b as int]@[x]@, b as int, x)),
                lowered@.len() == done.len(),
                forall|j: int| 0 <= j < done.len() ==> (#[trigger] lowered@[j])@ == lowercase(done[j].0),
                rows(index@) == start + first_named(done).map_values(|e: StationEntry| (e.0, r.key@, e.1, e.2)),
            decreases ns - i,
        {
            let name = &branch[i];
            let low_s = to_lower(name.as_str());
            let low = chars_of(low_s.as_str());
            let ghost entry: StationEntry = (name@, b as int, i as int);
            let ghost next = done.push(entry);
            // has this name come before on this line?
            let mut j: usize = 0;
            let mut seen = false;
            while j < lowered.len() && !seen
                invariant
                    j <= lowered@.len(),
                    lowered@.len() == done.len(),
                    forall|q: int| 0 <= q < done.len() ==> (#[trigger] lowered@[q])@ == lowercase(done[q].0),
                    low@ == lowercase(name@),
                    seen ==> 1 <= j && lowercase(done[j - 1].0) == lowercase(name@),
                    !seen ==> forall|q: int| 0 <= q < j ==> lowercase(#[trigger] done[q].0) != lowercase(name@),
                decreases lowered@.len() - j + (if seen { 0int } else { 1int }),
            {
                if chars_eq(&lowered[j], &low) {
                    seen = true;
                }
                j = j + 1;
            }
            proof {
                assert(next.drop_last() =~= done);
                assert(next.last() == entry);
                if seen {
                    assert(next[j - 1] == done[j - 1]);
                    assert(named_before(next, next.len() - 1));
                } else {
                    assert forall|q: int| 0 <= q < next.len() - 1 implies lowercase(#[trigger] next[q].0) != lowercase(next[next.len() - 1].0) by {
                        assert(next[q] == done[q]);
                    }
                    assert(!named_before(next, next.len() - 1));
                }
            }
            let ghost before_rows = rows(index@);
            if !seen {
                index.push(StationRef { name: name.clone(), route: r.key.clone(), branch: b, index: i });
                assert(rows(index@) =~= before_rows.push((name@, r.key@, b as int, i as int)));
            }
            lowered.push(low);
            proof {
                done = next;
                assert(done =~= base + Seq::new((i + 1) as nat, |x: int| (bs[b as int]@[x]@, b as int, x)));
                assert(rows(index@) =~= start + first_named(done).map_values(|e: StationEntry| (e.0, r.key@, e.1, e.2)));
            }
            i = i + 1;
        }
        proof {
            assert(done =~= branch_entries(bs.take(b + 1)));
        }
        b = b + 1;
    }
    proof {
        assert(bs.take(nb as int) =~= bs);
    }
}

} // verus!
