//! Walks over the tag graph: sorted id sets and reachability.

use vstd::prelude::*;

verus! {

/// The ids stand in strictly ascending order.
pub open spec fn ascending(ids: Seq<u128>) -> bool {
    forall|i: int, j: int| 0 <= i < j < ids.len() ==> ids[i] < ids[j]
}

/// The steps of a walk along a relation.
pub open spec fn is_walk(edge: spec_fn(u128, u128) -> bool, path: Seq<u128>) -> bool {
    &&& path.len() >= 1
    &&& forall|i: int| 0 <= i < path.len() - 1 ==> edge(#[trigger] path[i], path[i + 1])
}

/// A walk of any number of steps, none among them, leads from one node to another.
pub open spec fn reaches(edge: spec_fn(u128, u128) -> bool, from: u128, to: u128) -> bool {
    exists|path: Seq<u128>| #[trigger]
        is_walk(edge, path) && path[0] == from && path.last() == to
}

/// A walk of at least one step leads from one node to another.
pub open spec fn leads_to(edge: spec_fn(u128, u128) -> bool, from: u128, to: u128) -> bool {
    exists|last: u128| #[trigger] reaches(edge, from, last) && edge(last, to)
}

/// Some root reaches a node.
pub open spec fn reached(edge: spec_fn(u128, u128) -> bool, roots: Seq<u128>, node: u128) -> bool {
    exists|root: u128| roots.contains(root) && #[trigger] reaches(edge, root, node)
}

pub proof fn lemma_reaches_self(edge: spec_fn(u128, u128) -> bool, node: u128)
    ensures
        reaches(edge, node, node),
{
    assert(is_walk(edge, seq![node]));
    assert(seq![node].last() == node);
}

/// One more step extends a walk.
pub proof fn lemma_reaches_step(
    edge: spec_fn(u128, u128) -> bool,
    from: u128,
    middle: u128,
    to: u128,
)
    requires
        reaches(edge, from, middle),
        edge(middle, to),
    ensures
        reaches(edge, from, to),
{
    let path = choose|path: Seq<u128>| #[trigger]
        is_walk(edge, path) && path[0] == from && path.last() == middle;
    let longer = path.push(to);
    assert forall|i: int| 0 <= i < longer.len() - 1 implies edge(
        #[trigger] longer[i],
        longer[i + 1],
    ) by {
        if i < path.len() - 1 {
            assert(edge(path[i], path[i + 1]));
        }
    }
    assert(is_walk(edge, longer));
    assert(longer.last() == to);
}

/// A set that the relation never leaves holds everything reachable from its members.
pub proof fn lemma_closed_set(
    edge: spec_fn(u128, u128) -> bool,
    closed: Set<u128>,
    from: u128,
    to: u128,
)
    requires
        closed.contains(from),
        reaches(edge, from, to),
        forall|a: u128, b: u128| closed.contains(a) && #[trigger] edge(a, b) ==> closed.contains(b),
    ensures
        closed.contains(to),
{
    let path = choose|path: Seq<u128>| #[trigger]
        is_walk(edge, path) && path[0] == from && path.last() == to;
    lemma_walk_stays(edge, closed, path, path.len() - 1);
}

proof fn lemma_walk_stays(
    edge: spec_fn(u128, u128) -> bool,
    closed: Set<u128>,
    path: Seq<u128>,
    n: int,
)
    requires
        is_walk(edge, path),
        closed.contains(path[0]),
        0 <= n < path.len(),
        forall|a: u128, b: u128| closed.contains(a) && #[trigger] edge(a, b) ==> closed.contains(b),
    ensures
        closed.contains(path[n]),
    decreases n,
{
    if n > 0 {
        lemma_walk_stays(edge, closed, path, n - 1);
        assert(edge(path[n - 1], path[n - 1 + 1]));
    }
}

/// Whether a list holds an id.
pub fn holds(ids: &Vec<u128>, id: u128) -> (r: bool)
    ensures
        r == ids@.contains(id),
{
    let mut i: usize = 0;
    while i < ids.len()
        invariant
            i <= ids.len(),
            forall|j: int| 0 <= j < i ==> ids@[j] != id,
        decreases ids.len() - i,
    {
        if ids[i] == id {
            return true;
        }
        i = i + 1;
    }
    false
}

/// Inserts an id into an ascending list, unless it stands there already.
pub fn insert_sorted(ids: &mut Vec<u128>, id: u128)
    requires
        ascending(old(ids)@),
    ensures
        ascending(final(ids)@),
        forall|x: u128| #[trigger]
            final(ids)@.contains(x) <==> (old(ids)@.contains(x) || x == id),
{
    let mut i: usize = 0;
    while i < ids.len() && ids[i] < id
        invariant
            i <= ids.len(),
            ids@ == old(ids)@,
            forall|j: int| 0 <= j < i ==> ids@[j] < id,
        decreases ids.len() - i,
    {
        i = i + 1;
    }
    if i < ids.len() && ids[i] == id {
        assert(ids@[i as int] == id);
        return;
    }
    let ghost before = ids@;
    ids.insert(i, id);
    proof {
        assert(ids@ =~= before.insert(i as int, id));
        assert forall|x: u128| #[trigger]
            ids@.contains(x) <==> (before.contains(x) || x == id) by {
            if before.contains(x) {
                let k = choose|k: int| 0 <= k < before.len() && before[k] == x;
                if k < i {
                    assert(ids@[k] == x);
                } else {
                    assert(ids@[k + 1] == x);
                }
            }
            if x == id {
                assert(ids@[i as int] == x);
            }
            if ids@.contains(x) && x != id {
                let k = choose|k: int| 0 <= k < ids@.len() && ids@[k] == x;
                if k < i {
                    assert(before[k] == x);
                } else {
                    assert(before[k - 1] == x);
                }
            }
        }
        assert forall|a: int, b: int| 0 <= a < b < ids@.len() implies ids@[a] < ids@[b] by {
            let x = if a < i {
                before[a]
            } else if a == i {
                id
            } else {
                before[a - 1]
            };
            let y = if b < i {
                before[b]
            } else if b == i {
                id
            } else {
                before[b - 1]
            };
            if b > i {
                assert(before[i as int] > id);
                if b - 1 > i {
                    assert(before[i as int] < before[b - 1]);
                }
            }
        }
    }
}

/// Two ascending lists with the same members are the same list.
pub proof fn lemma_ascending_unique(a: Seq<u128>, b: Seq<u128>)
    requires
        ascending(a),
        ascending(b),
        forall|x: u128|
            #![trigger a.contains(x)]
            #![trigger b.contains(x)]
            a.contains(x) <==> b.contains(x),
    ensures
        a == b,
    decreases a.len(),
{
    if a.len() == 0 {
        if b.len() > 0 {
            assert(b.contains(b[0]));
        }
        assert(a =~= b);
    } else {
        assert(a.contains(a.last()));
        assert(b.contains(a.last()));
        assert(b.len() > 0);
        assert(b.contains(b.last()));
        assert(a.contains(b.last()));
        let i = choose|i: int| 0 <= i < b.len() && b[i] == a.last();
        let j = choose|j: int| 0 <= j < a.len() && a[j] == b.last();
        assert(a.last() == b.last()) by {
            if i < b.len() - 1 {
                assert(b[i] < b[b.len() - 1]);
            }
            if j < a.len() - 1 {
                assert(a[j] < a[a.len() - 1]);
            }
        }
        let x = a.drop_last();
        let y = b.drop_last();
        assert forall|n: u128|
            #![trigger x.contains(n)]
            #![trigger y.contains(n)]
            x.contains(n) <==> y.contains(n) by {
            if x.contains(n) {
                let k = choose|k: int| 0 <= k < x.len() && x[k] == n;
                assert(a[k] == n && a[k] < a[a.len() - 1]);
                assert(a.contains(n));
                let m = choose|m: int| 0 <= m < b.len() && b[m] == n;
                assert(y[m] == n);
            }
            if y.contains(n) {
                let k = choose|k: int| 0 <= k < y.len() && y[k] == n;
                assert(b[k] == n && b[k] < b[b.len() - 1]);
                assert(b.contains(n));
                let m = choose|m: int| 0 <= m < a.len() && a[m] == n;
                assert(x[m] == n);
            }
        }
        lemma_ascending_unique(x, y);
        assert(a =~= x.push(a.last()));
        assert(b =~= y.push(b.last()));
    }
}

/// The relation that a list of pairs writes down.
pub open spec fn listed_edge(edges: Seq<(u128, u128)>) -> spec_fn(u128, u128) -> bool {
    |a: u128, b: u128| edges.contains((a, b))
}

proof fn lemma_seen_bound(seen: Seq<u128>, roots: Seq<u128>, edges: Seq<(u128, u128)>)
    requires
        seen.no_duplicates(),
        forall|k: int|
            0 <= k < seen.len() ==> roots.contains(#[trigger] seen[k]) || edges.map_values(
                |e: (u128, u128)| e.1,
            ).contains(seen[k]),
    ensures
        seen.len() <= roots.len() + edges.len(),
{
    let all = roots + edges.map_values(|e: (u128, u128)| e.1);
    seen.unique_seq_to_set();
    all.lemma_cardinality_of_set();
    assert forall|x: u128| seen.to_set().contains(x) implies all.to_set().contains(x) by {
        let k = choose|k: int| 0 <= k < seen.len() && seen[k] == x;
        if roots.contains(seen[k]) {
            let m = choose|m: int| 0 <= m < roots.len() && roots[m] == seen[k];
            assert(all[m] == x);
        } else {
            let targets = edges.map_values(|e: (u128, u128)| e.1);
            let m = choose|m: int| 0 <= m < targets.len() && targets[m] == seen[k];
            assert(all[roots.len() + m] == x);
        }
    }
    vstd::set_lib::lemma_len_subset(seen.to_set(), all.to_set());
}

/// Every node that some root reaches along the listed pairs, roots first.
pub fn reach(edges: &Vec<(u128, u128)>, roots: &Vec<u128>) -> (seen: Vec<u128>)
    ensures
        forall|n: u128| #[trigger]
            seen@.contains(n) <==> reached(listed_edge(edges@), roots@, n),
{
    let ghost edge = listed_edge(edges@);
    let ghost targets = edges@.map_values(|e: (u128, u128)| e.1);
    let mut seen: Vec<u128> = Vec::new();
    let mut i: usize = 0;
    while i < roots.len()
        invariant
            i <= roots.len(),
            edge == listed_edge(edges@),
            seen@.no_duplicates(),
            forall|k: int| 0 <= k < seen@.len() ==> roots@.contains(#[trigger] seen@[k]),
            forall|k: int| 0 <= k < i ==> seen@.contains(#[trigger] roots@[k]),
        decreases roots.len() - i,
    {
        if !holds(&seen, roots[i]) {
            let ghost before = seen@;
            seen.push(roots[i]);
            assert(seen@[seen@.len() - 1] == roots@[i as int]);
            assert forall|k: int| 0 <= k < i + 1 implies seen@.contains(#[trigger] roots@[k]) by {
                if k < i {
                    assert(before.contains(roots@[k]));
                    let m = choose|m: int| 0 <= m < before.len() && before[m] == roots@[k];
                    assert(seen@[m] == roots@[k]);
                }
            }
        }
        i = i + 1;
    }
    assert forall|k: int| 0 <= k < seen@.len() implies reached(
        edge,
        roots@,
        #[trigger] seen@[k],
    ) by {
        lemma_reaches_self(edge, seen@[k]);
    }
    let mut next: usize = 0;
    while next < seen.len()
        invariant
            next <= seen.len(),
            edge == listed_edge(edges@),
            targets == edges@.map_values(|e: (u128, u128)| e.1),
            seen@.no_duplicates(),
            forall|k: int|
                0 <= k < seen@.len() ==> roots@.contains(#[trigger] seen@[k]) || targets.contains(
                    seen@[k],
                ),
            forall|k: int| 0 <= k < roots@.len() ==> seen@.contains(#[trigger] roots@[k]),
            forall|k: int|
                0 <= k < seen@.len() ==> reached(edge, roots@, #[trigger] seen@[k]),
            forall|k: int, m: int|
                0 <= k < next && 0 <= m < edges@.len() && (#[trigger] edges@[m]).0 == (
                #[trigger] seen@[k]) ==> seen@.contains(edges@[m].1),
        decreases roots.len() + edges.len() - next,
    {
        proof {
            lemma_seen_bound(seen@, roots@, edges@);
        }
        let node: u128 = seen[next];
        let mut e: usize = 0;
        while e < edges.len()
            invariant
                e <= edges.len(),
                next < seen.len(),
                node == seen@[next as int],
                edge == listed_edge(edges@),
                targets == edges@.map_values(|e: (u128, u128)| e.1),
                seen@.no_duplicates(),
                forall|k: int|
                    0 <= k < seen@.len() ==> roots@.contains(#[trigger] seen@[k])
                        || targets.contains(seen@[k]),
                forall|k: int| 0 <= k < roots@.len() ==> seen@.contains(#[trigger] roots@[k]),
                forall|k: int|
                    0 <= k < seen@.len() ==> reached(edge, roots@, #[trigger] seen@[k]),
                forall|k: int, m: int|
                    0 <= k < next && 0 <= m < edges@.len() && (#[trigger] edges@[m]).0 == (
                    #[trigger] seen@[k]) ==> seen@.contains(edges@[m].1),
                forall|m: int|
                    0 <= m < e && (#[trigger] edges@[m]).0 == node ==> seen@.contains(edges@[m].1),
            decreases edges.len() - e,
        {
            if edges[e].0 == node && !holds(&seen, edges[e].1) {
                let ghost before = seen@;
                seen.push(edges[e].1);
                proof {
                    let added = edges@[e as int].1;
                    assert(targets[e as int] == added);
                    assert(edges@[e as int] == (node, added));
                    assert(edge(node, added));
                    let r = choose|r: u128|
                        roots@.contains(r) && #[trigger] reaches(edge, r, before[next as int]);
                    lemma_reaches_step(edge, r, node, added);
                    assert forall|x: u128| #[trigger] before.contains(x) implies seen@.contains(
                        x,
                    ) by {
                        let k = choose|k: int| 0 <= k < before.len() && before[k] == x;
                        assert(seen@[k] == x);
                    }
                    assert(seen@[seen@.len() - 1] == added);
                    assert forall|k: int| 0 <= k < seen@.len() implies reached(
                        edge,
                        roots@,
                        #[trigger] seen@[k],
                    ) by {
                        if k < before.len() {
                            assert(seen@[k] == before[k]);
                        }
                    }
                    assert forall|k: int, m: int|
                        0 <= k < next && 0 <= m < edges@.len() && (#[trigger] edges@[m]).0 == (
                        #[trigger] seen@[k]) implies seen@.contains(edges@[m].1) by {
                        assert(seen@[k] == before[k]);
                    }
                    assert forall|k: int| 0 <= k < roots@.len() implies seen@.contains(
                        #[trigger] roots@[k],
                    ) by {
                        assert(before.contains(roots@[k]));
                    }
                }
            }
            e = e + 1;
        }
        next = next + 1;
    }
    proof {
        let closed = seen@.to_set();
        assert forall|a: u128, b: u128| closed.contains(a) && #[trigger] edge(a, b) implies
            closed.contains(b) by {
            let k = choose|k: int| 0 <= k < seen@.len() && seen@[k] == a;
            let m = choose|m: int| 0 <= m < edges@.len() && edges@[m] == (a, b);
            assert(edges@[m].0 == seen@[k]);
        }
        assert forall|n: u128| #[trigger]
            seen@.contains(n) <==> reached(edge, roots@, n) by {
            if seen@.contains(n) {
                let k = choose|k: int| 0 <= k < seen@.len() && seen@[k] == n;
            }
            if reached(edge, roots@, n) {
                let r = choose|r: u128| roots@.contains(r) && #[trigger] reaches(edge, r, n);
                let k = choose|k: int| 0 <= k < roots@.len() && roots@[k] == r;
                assert(seen@.contains(roots@[k]));
                lemma_closed_set(edge, closed, r, n);
            }
        }
    }
    seen
}

} // verus!
