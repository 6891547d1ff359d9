//! Dependency graphs of steps: validation and topological levels.
//!
//! A graph is valid when every dependency names a node, node ids are
//! distinct, and the nodes can be ordered so that every node comes after
//! its dependencies. Nodes at the same level can run in parallel.

use vstd::prelude::*;
use crate::replay::str_eq;

verus! {

/// A node of a dependency graph: an id and the ids it depends on.
#[derive(Clone, Debug)]
pub struct DagNode {
    pub id: String,
    pub dependencies: Vec<String>,
}

/// Some node has the id.
pub open spec fn has_id(nodes: Seq<DagNode>, d: Seq<char>) -> bool {
    exists|k: int| 0 <= k < nodes.len() && (#[trigger] nodes[k]).id@ == d
}

/// Dependency `j` of node `i` names no node.
pub open spec fn missing(nodes: Seq<DagNode>, i: int, j: int) -> bool {
    &&& 0 <= i < nodes.len()
    &&& 0 <= j < nodes[i].dependencies@.len()
    &&& !has_id(nodes, nodes[i].dependencies@[j]@)
}

/// Dependency `j` of node `i` is the first that names no node, in node
/// order and then dependency order.
pub open spec fn first_missing(nodes: Seq<DagNode>, i: int, j: int) -> bool {
    &&& missing(nodes, i, j)
    &&& forall|a: int, b: int| #[trigger] missing(nodes, a, b) ==> a > i || (a == i && b >= j)
}

/// Some dependency names no node.
pub open spec fn some_missing(nodes: Seq<DagNode>) -> bool {
    exists|i: int, j: int| missing(nodes, i, j)
}

/// No two nodes share an id.
pub open spec fn distinct_ids(nodes: Seq<DagNode>) -> bool {
    forall|a: int, b: int| 0 <= a < b < nodes.len() ==> (#[trigger] nodes[a]).id@ != (#[trigger] nodes[b]).id@
}

/// Every dependency of the node at position `p` of `order` is the id of
/// a node at an earlier position.
pub open spec fn deps_before(nodes: Seq<DagNode>, order: Seq<int>, p: int) -> bool {
    forall|j: int| 0 <= j < nodes[order[p]].dependencies@.len() ==> #[trigger] id_before(nodes, order, p, nodes[order[p]].dependencies@[j]@)
}

/// The id is that of a node at a position before `p`.
pub open spec fn id_before(nodes: Seq<DagNode>, order: Seq<int>, p: int, d: Seq<char>) -> bool {
    exists|q: int| 0 <= q < p && (#[trigger] nodes[order[q]]).id@ == d
}

/// An order of all the nodes in which every node comes after its
/// dependencies.
pub open spec fn is_topo_order(nodes: Seq<DagNode>, order: Seq<int>) -> bool {
    &&& order.len() == nodes.len()
    &&& forall|p: int| 0 <= p < order.len() ==> 0 <= #[trigger] order[p] < nodes.len()
    &&& forall|k: int| 0 <= k < nodes.len() ==> #[trigger] order.contains(k)
    &&& forall|p: int| 0 <= p < order.len() ==> #[trigger] deps_before(nodes, order, p)
}

/// The nodes can be ordered after their dependencies: no cycle.
pub open spec fn acyclic(nodes: Seq<DagNode>) -> bool {
    exists|order: Seq<int>| is_topo_order(nodes, order)
}

/// A valid graph: every dependency names a node, ids are distinct, no
/// cycle.
pub open spec fn valid_graph(nodes: Seq<DagNode>) -> bool {
    !some_missing(nodes) && distinct_ids(nodes) && acyclic(nodes)
}

/// The message for a dependency that names no node.
pub open spec fn missing_message(noun: Seq<char>, id: Seq<char>, dep: Seq<char>) -> Seq<char> {
    noun + " '"@ + id + "' depends on '"@ + dep + "' which doesn't exist"@
}

/// The message for a graph that cannot be ordered.
pub open spec fn cycle_message(noun: Seq<char>) -> Seq<char> {
    "cycle detected in "@ + noun + " DAG"@
}

/// How many entries are false.
pub open spec fn count_false(s: Seq<bool>) -> nat
    decreases s.len(),
{
    if s.len() == 0 {
        0
    } else {
        count_false(s.drop_last()) + if s.last() {
            0nat
        } else {
            1nat
        }
    }
}

proof fn lemma_count_false_set(s: Seq<bool>, i: int)
    requires
        0 <= i < s.len(),
        !s[i],
    ensures
        count_false(s.update(i, true)) + 1 == count_false(s),
    decreases s.len(),
{
    if i < s.len() - 1 {
        lemma_count_false_set(s.drop_last(), i);
        assert(s.update(i, true).drop_last() =~= s.drop_last().update(i, true));
    } else {
        assert(s.update(i, true).drop_last() =~= s.drop_last());
    }
}

/// Node `i` is ready: each dependency is the id of a placed node.
pub open spec fn ready(nodes: Seq<DagNode>, placed: Seq<bool>, i: int) -> bool {
    forall|j: int| 0 <= j < nodes[i].dependencies@.len() ==> #[trigger] id_placed(nodes, placed, nodes[i].dependencies@[j]@)
}

/// The id is that of a placed node.
pub open spec fn id_placed(nodes: Seq<DagNode>, placed: Seq<bool>, d: Seq<char>) -> bool {
    exists|k: int| 0 <= k < nodes.len() && placed[k] && (#[trigger] nodes[k]).id@ == d
}

proof fn first_unplaced(order: Seq<int>, placed: Seq<bool>, from: int) -> (p: int)
    requires
        0 <= from <= order.len(),
        exists|q: int| from <= q < order.len() && !placed[#[trigger] order[q]],
    ensures
        from <= p < order.len(),
        !placed[order[p]],
        forall|q: int| from <= q < p ==> placed[#[trigger] order[q]],
    decreases order.len() - from,
{
    if !placed[order[from]] {
        from
    } else {
        first_unplaced(order, placed, from + 1)
    }
}

/// When no unplaced node is ready, the nodes cannot be ordered.
proof fn lemma_stuck_means_cycle(nodes: Seq<DagNode>, placed: Seq<bool>, u: int)
    requires
        placed.len() == nodes.len(),
        0 <= u < nodes.len(),
        !placed[u],
        forall|i: int| 0 <= i < nodes.len() && !placed[i] ==> !#[trigger] ready(nodes, placed, i),
    ensures
        !acyclic(nodes),
{
    if acyclic(nodes) {
        let order = choose|order: Seq<int>| is_topo_order(nodes, order);
        assert(order.contains(u));
        let pu = choose|q: int| 0 <= q < order.len() && order[q] == u;
        assert(!placed[order[pu]]);
        let p = first_unplaced(order, placed, 0);
        let v = order[p];
        assert(deps_before(nodes, order, p));
        assert forall|j: int| 0 <= j < nodes[v].dependencies@.len() implies #[trigger] id_placed(nodes, placed, nodes[v].dependencies@[j]@) by {
            assert(id_before(nodes, order, p, nodes[order[p]].dependencies@[j]@));
            let q = choose|q: int| 0 <= q < p && (#[trigger] nodes[order[q]]).id@ == nodes[order[p]].dependencies@[j]@;
            assert(placed[order[q]]);
            assert(0 <= order[q] < nodes.len());
        }
        assert(ready(nodes, placed, v));
    }
}

/// Whether some node has the id.
fn find_id(nodes: &Vec<DagNode>, d: &str) -> (r: Option<usize>)
    ensures
        r is None <==> !has_id(nodes@, d@),
        r matches Some(k) ==> k < nodes@.len() && nodes@[k as int].id@ == d@,
{
    let mut k: usize = 0;
    while k < nodes.len()
        invariant
            k <= nodes@.len(),
            forall|x: int| 0 <= x < k ==> (#[trigger] nodes@[x]).id@ != d@,
        decreases nodes@.len() - k,
    {
        if str_eq(nodes[k].id.as_str(), d) {
            return Some(k);
        }
        k += 1;
    }
    None
}

/// Whether a node is ready among the placed ones.
fn is_ready(nodes: &Vec<DagNode>, placed: &Vec<bool>, i: usize) -> (r: bool)
    requires
        i < nodes@.len(),
        placed@.len() == nodes@.len(),
        distinct_ids(nodes@),
    ensures
        r == ready(nodes@, placed@, i as int),
{
    let deps = &nodes[i].dependencies;
    let mut j: usize = 0;
    while j < deps.len()
        invariant
            i < nodes@.len(),
            placed@.len() == nodes@.len(),
            distinct_ids(nodes@),
            *deps == nodes@[i as int].dependencies,
            j <= deps@.len(),
            forall|x: int| 0 <= x < j ==> #[trigger] id_placed(nodes@, placed@, deps@[x]@),
        decreases deps@.len() - j,
    {
        match find_id(nodes, deps[j].as_str()) {
            Some(k) => {
                if placed[k] {
                    assert(id_placed(nodes@, placed@, deps@[j as int]@));
                }
                if !placed[k] {
                    proof {
                        assert(deps@[j as int] == nodes@[i as int].dependencies@[j as int]);
                        assert forall|k2: int| 0 <= k2 < nodes@.len() && (#[trigger] nodes@[k2]).id@ == deps@[j as int]@ implies !placed@[k2] by {
                            if k2 != k {
                                if k2 < k {
                                    assert(nodes@[k2].id@ != nodes@[k as int].id@);
                                } else {
                                    assert(nodes@[k as int].id@ != nodes@[k2].id@);
                                }
                            }
                        }
                    }
                    proof {
                        if ready(nodes@, placed@, i as int) {
                            assert(id_placed(nodes@, placed@, nodes@[i as int].dependencies@[j as int]@));
                            let k2 = choose|k2: int| 0 <= k2 < nodes@.len() && placed@[k2] && (#[trigger] nodes@[k2]).id@ == nodes@[i as int].dependencies@[j as int]@;
                            assert(!placed@[k2]);
                        }
                    }
                    return false;
                }
            },
            None => {
                proof {
                    assert(deps@[j as int] == nodes@[i as int].dependencies@[j as int]);
                    if ready(nodes@, placed@, i as int) {
                        assert(id_placed(nodes@, placed@, nodes@[i as int].dependencies@[j as int]@));
                        let k = choose|k: int| 0 <= k < nodes@.len() && placed@[k] && (#[trigger] nodes@[k]).id@ == nodes@[i as int].dependencies@[j as int]@;
                        assert(has_id(nodes@, deps@[j as int]@));
                    }
                }
                return false;
            },
        }
        j += 1;
    }
    assert forall|x: int| 0 <= x < nodes@[i as int].dependencies@.len() implies #[trigger] id_placed(nodes@, placed@, nodes@[i as int].dependencies@[x]@) by {
        assert(deps@[x] == nodes@[i as int].dependencies@[x]);
    }
    true
}

/// Check a dependency graph; `noun` names its nodes in messages. The
/// first dependency (in node order) that names no node is reported;
/// otherwise duplicate ids or a cycle are reported as a cycle.
pub fn validate_graph(nodes: &Vec<DagNode>, noun: &str) -> (r: Result<(), String>)
    ensures
        r is Ok <==> valid_graph(nodes@),
        r matches Err(m) ==> if some_missing(nodes@) {
            exists|i: int, j: int| first_missing(nodes@, i, j) && m@ == missing_message(
                noun@,
                nodes@[i].id@,
                nodes@[i].dependencies@[j]@,
            )
        } else {
            m@ == cycle_message(noun@)
        },
{
    let n = nodes.len();
    let mut i: usize = 0;
    while i < n
        invariant
            n == nodes@.len(),
            i <= n,
            forall|a: int, b: int| #[trigger] missing(nodes@, a, b) ==> a >= i,
        decreases n - i,
    {
        let deps = &nodes[i].dependencies;
        let mut j: usize = 0;
        while j < deps.len()
            invariant
                n == nodes@.len(),
                i < n,
                *deps == nodes@[i as int].dependencies,
                j <= deps@.len(),
                forall|a: int, b: int| #[trigger] missing(nodes@, a, b) ==> a > i || (a == i && b >= j),
            decreases deps@.len() - j,
        {
            if find_id(nodes, deps[j].as_str()).is_none() {
                assert(missing(nodes@, i as int, j as int));
                assert(first_missing(nodes@, i as int, j as int));
                let mut m = noun.to_string();
                m.push_str(" '");
                m.push_str(nodes[i].id.as_str());
                m.push_str("' depends on '");
                m.push_str(deps[j].as_str());
                m.push_str("' which doesn't exist");
                return Err(m);
            }
            j += 1;
        }
        i += 1;
    }
    assert(!some_missing(nodes@));
    let mut cycle = "cycle detected in ".to_string();
    cycle.push_str(noun);
    cycle.push_str(" DAG");
    // Ids must be distinct.
    let mut a: usize = 0;
    while a < n
        invariant
            n == nodes@.len(),
            a <= n,
            !some_missing(nodes@),
            cycle@ == cycle_message(noun@),
            forall|x: int, y: int| 0 <= x < a && x < y < n ==> (#[trigger] nodes@[x]).id@ != (#[trigger] nodes@[y]).id@,
        decreases n - a,
    {
        let mut b: usize = a + 1;
        while b < n
            invariant
                n == nodes@.len(),
                a < n,
                !some_missing(nodes@),
                cycle@ == cycle_message(noun@),
                a + 1 <= b <= n,
                forall|x: int, y: int| 0 <= x < a && x < y < n ==> (#[trigger] nodes@[x]).id@ != (#[trigger] nodes@[y]).id@,
                forall|y: int| a < y < b ==> nodes@[a as int].id@ != (#[trigger] nodes@[y]).id@,
            decreases n - b,
        {
            if str_eq(nodes[a].id.as_str(), nodes[b].id.as_str()) {
                assert(!distinct_ids(nodes@));
                return Err(cycle);
            }
            b += 1;
        }
        a += 1;
    }
    assert(distinct_ids(nodes@));
    match topo_order(nodes) {
        Some(_) => Ok(()),
        None => Err(cycle),
    }
}

/// An order of the nodes after their dependencies, placing at each turn
/// the first ready node; None when none is ready before all are placed.
pub fn topo_order(nodes: &Vec<DagNode>) -> (r: Option<Vec<usize>>)
    requires
        distinct_ids(nodes@),
    ensures
        r is Some <==> acyclic(nodes@),
        r matches Some(o) ==> is_topo_order(nodes@, o@.map_values(|x: usize| x as int)),
        r matches Some(o) ==> forall|a: int, b: int| 0 <= a < b < o@.len() ==> o@[a] != o@[b],
{
    let n = nodes.len();
    let mut placed: Vec<bool> = Vec::new();
    let mut k: usize = 0;
    while k < n
        invariant
            k <= n,
            placed@.len() == k,
            forall|x: int| 0 <= x < k ==> !placed@[x],
        decreases n - k,
    {
        placed.push(false);
        k += 1;
    }
    let mut order: Vec<usize> = Vec::new();
    let ghost mut ord: Seq<int> = Seq::empty();
    proof {
        lemma_count_false_none(placed@);
    }
    loop
        invariant
            n == nodes@.len(),
            distinct_ids(nodes@),
            placed@.len() == n,
            ord == order@.map_values(|x: usize| x as int),
            forall|p: int| 0 <= p < ord.len() ==> 0 <= #[trigger] ord[p] < n,
            forall|x: int| 0 <= x < n ==> (placed@[x] <==> ord.contains(x)),
            forall|p: int| 0 <= p < ord.len() ==> #[trigger] deps_before(nodes@, ord, p),
            ord.len() + count_false(placed@) == n,
            forall|a: int, b: int| 0 <= a < b < ord.len() ==> ord[a] != ord[b],
        decreases count_false(placed@),
    {
        let mut i: usize = 0;
        let mut found: Option<usize> = None;
        let mut any_unplaced: Option<usize> = None;
        while i < n
            invariant_except_break
                found is None,
            invariant
                n == nodes@.len(),
                distinct_ids(nodes@),
                placed@.len() == n,
                i <= n,
                any_unplaced matches Some(u) ==> u < n && !placed@[u as int],
                any_unplaced is None ==> forall|x: int| 0 <= x < i ==> placed@[x],
                forall|x: int| 0 <= x < i && !placed@[x] ==> !#[trigger] ready(nodes@, placed@, x),
            ensures
                found matches Some(u) ==> u < n && !placed@[u as int] && ready(nodes@, placed@, u as int),
                found is None ==> i >= n,
            decreases n - i,
        {
            if !placed[i] {
                any_unplaced = Some(i);
                if is_ready(nodes, &placed, i) {
                    found = Some(i);
                    break;
                }
            }
            i += 1;
        }
        match found {
            Some(u) => {
                proof {
                    assert(ready(nodes@, placed@, u as int));
                    let p = ord.len() as int;
                    let ord2 = ord.push(u as int);
                    assert forall|j: int| 0 <= j < nodes@[ord2[p]].dependencies@.len() implies #[trigger] id_before(nodes@, ord2, p, nodes@[ord2[p]].dependencies@[j]@) by {
                        assert(id_placed(nodes@, placed@, nodes@[u as int].dependencies@[j]@));
                        let k = choose|k: int| 0 <= k < nodes@.len() && placed@[k] && (#[trigger] nodes@[k]).id@ == nodes@[u as int].dependencies@[j]@;
                        assert(ord.contains(k));
                        let q = choose|q: int| 0 <= q < ord.len() && ord[q] == k;
                        assert(ord2[q] == k);
                        assert(nodes@[ord2[q]].id@ == nodes@[ord2[p]].dependencies@[j]@);
                    }
                    assert(deps_before(nodes@, ord2, p));
                    assert forall|p2: int| 0 <= p2 < ord.len() implies #[trigger] deps_before(nodes@, ord2, p2) by {
                        assert(deps_before(nodes@, ord, p2));
                        assert forall|j: int| 0 <= j < nodes@[ord2[p2]].dependencies@.len() implies #[trigger] id_before(nodes@, ord2, p2, nodes@[ord2[p2]].dependencies@[j]@) by {
                            assert(ord2[p2] == ord[p2]);
                            assert(id_before(nodes@, ord, p2, nodes@[ord[p2]].dependencies@[j]@));
                            let q = choose|q: int| 0 <= q < p2 && (#[trigger] nodes@[ord[q]]).id@ == nodes@[ord[p2]].dependencies@[j]@;
                            assert(ord2[q] == ord[q]);
                            assert(nodes@[ord2[q]].id@ == nodes@[ord2[p2]].dependencies@[j]@);
                        }
                    }
                    lemma_count_false_set(placed@, u as int);
                }
                placed.set(u, true);
                order.push(u);
                proof {
                    let old_ord = ord;
                    assert(!old_ord.contains(u as int));
                    ord = ord.push(u as int);
                    assert(ord == order@.map_values(|x: usize| x as int));
                    assert forall|x: int| 0 <= x < n implies (placed@[x] <==> ord.contains(x)) by {
                        if x == u as int {
                            assert(ord[old_ord.len() as int] == x);
                        } else {
                            if ord.contains(x) {
                                let q = choose|q: int| 0 <= q < ord.len() && ord[q] == x;
                                assert(q < old_ord.len());
                                assert(old_ord[q] == x);
                            }
                            if old_ord.contains(x) {
                                let q = choose|q: int| 0 <= q < old_ord.len() && old_ord[q] == x;
                                assert(ord[q] == x);
                            }
                        }
                    }
                }
            },
            None => {
                match any_unplaced {
                    Some(u) => {
                        proof {
                            lemma_stuck_means_cycle(nodes@, placed@, u as int);
                        }
                        return None;
                    },
                    None => {
                        proof {
                            assert forall|x: int| 0 <= x < n implies #[trigger] ord.contains(x) by {
                                assert(placed@[x]);
                            }
                            lemma_count_false_all_placed(placed@);
                            assert(is_topo_order(nodes@, ord));
                        }
                        assert forall|a: int, b: int| 0 <= a < b < order@.len() implies order@[a] != order@[b] by {
                            assert(ord[a] == order@[a] as int);
                            assert(ord[b] == order@[b] as int);
                        }
                        return Some(order);
                    },
                }
            },
        }
    }
}

proof fn lemma_count_false_none(s: Seq<bool>)
    requires
        forall|x: int| 0 <= x < s.len() ==> !s[x],
    ensures
        count_false(s) == s.len(),
    decreases s.len(),
{
    if s.len() > 0 {
        lemma_count_false_none(s.drop_last());
    }
}

proof fn lemma_count_false_all_placed(s: Seq<bool>)
    requires
        forall|x: int| 0 <= x < s.len() ==> s[x],
    ensures
        count_false(s) == 0,
    decreases s.len(),
{
    if s.len() > 0 {
        lemma_count_false_all_placed(s.drop_last());
    }
}

/// The index of the node with an id.
pub open spec fn index_of(nodes: Seq<DagNode>, d: Seq<char>) -> int {
    choose|k: int| 0 <= k < nodes.len() && nodes[k].id@ == d
}

/// One above the highest level among the first `j` dependencies of node
/// `i`, or 0.
pub open spec fn dep_max(nodes: Seq<DagNode>, lv: Seq<usize>, i: int, j: int) -> int
    decreases j,
{
    if j <= 0 {
        0
    } else {
        let prev = dep_max(nodes, lv, i, j - 1);
        let here = lv[index_of(nodes, nodes[i].dependencies@[j - 1]@)] + 1;
        if prev >= here {
            prev
        } else {
            here
        }
    }
}

/// The level of every node is one above the highest level of its
/// dependencies, or 0 when it has none.
pub open spec fn levels_fit(nodes: Seq<DagNode>, lv: Seq<usize>) -> bool {
    &&& lv.len() == nodes.len()
    &&& forall|i: int| 0 <= i < nodes.len() ==> #[trigger] lv[i] == dep_max(nodes, lv, i, nodes[i].dependencies@.len() as int)
}

/// The groups of node indices by level: group `k` holds, in increasing
/// order, the nodes at level `k`, and there is a group up to the highest
/// level.
pub open spec fn grouped(lv: Seq<usize>, levels: Seq<Vec<usize>>) -> bool {
    &&& forall|i: int| 0 <= i < lv.len() ==> lv[i] < levels.len()
    &&& (lv.len() == 0 ==> levels.len() == 1)
    &&& (lv.len() > 0 ==> exists|i: int| 0 <= i < lv.len() && lv[i] + 1 == levels.len())
    &&& forall|k: int, t: int| 0 <= k < levels.len() && 0 <= t < levels[k]@.len() ==> #[trigger] levels[k]@[t] < lv.len()
        && lv[levels[k]@[t] as int] == k
    &&& forall|k: int, a: int, b: int| 0 <= k < levels.len() && 0 <= a < b < levels[k]@.len() ==> #[trigger] levels[k]@[a]
        < #[trigger] levels[k]@[b]
    &&& forall|i: int| 0 <= i < lv.len() ==> #[trigger] levels[lv[i] as int]@.contains(i as usize)
}

proof fn lemma_index_of(nodes: Seq<DagNode>, k: int)
    requires
        distinct_ids(nodes),
        0 <= k < nodes.len(),
    ensures
        index_of(nodes, nodes[k].id@) == k,
{
    let d = nodes[k].id@;
    let x = index_of(nodes, d);
    assert(0 <= x < nodes.len() && nodes[x].id@ == d);
    if x < k {
        assert(nodes[x].id@ != nodes[k].id@);
    } else if x > k {
        assert(nodes[k].id@ != nodes[x].id@);
    }
}

proof fn lemma_dep_max_frame(nodes: Seq<DagNode>, lv: Seq<usize>, i: int, j: int, u: int, m: usize)
    requires
        0 <= u < lv.len(),
        forall|x: int| 0 <= x < j ==> index_of(nodes, #[trigger] nodes[i].dependencies@[x]@) != u
            && 0 <= index_of(nodes, nodes[i].dependencies@[x]@) < lv.len(),
    ensures
        dep_max(nodes, lv.update(u, m), i, j) == dep_max(nodes, lv, i, j),
    decreases j,
{
    if j > 0 {
        lemma_dep_max_frame(nodes, lv, i, j - 1, u, m);
        assert(index_of(nodes, nodes[i].dependencies@[j - 1]@) != u);
    }
}

/// The level of every node of a valid graph.
pub fn node_levels(nodes: &Vec<DagNode>) -> (lv: Vec<usize>)
    requires
        valid_graph(nodes@),
    ensures
        levels_fit(nodes@, lv@),
        forall|i: int| 0 <= i < lv@.len() ==> lv@[i] < nodes@.len(),
{
    let n = nodes.len();
    let order = match topo_order(nodes) {
        Some(o) => o,
        None => {
            proof {
                assert(false);
            }
            Vec::new()
        },
    };
    let ghost ord = order@.map_values(|x: usize| x as int);
    let mut lv: Vec<usize> = Vec::new();
    let mut k: usize = 0;
    while k < n
        invariant
            k <= n,
            lv@.len() == k,
            forall|x: int| 0 <= x < k ==> lv@[x] == 0,
        decreases n - k,
    {
        lv.push(0);
        k += 1;
    }
    let mut p: usize = 0;
    while p < n
        invariant
            n == nodes@.len(),
            valid_graph(nodes@),
            is_topo_order(nodes@, ord),
            ord == order@.map_values(|x: usize| x as int),
            order@.len() == n,
            forall|a: int, b: int| 0 <= a < b < order@.len() ==> order@[a] != order@[b],
            lv@.len() == n,
            p <= n,
            forall|q: int| 0 <= q < p ==> #[trigger] lv@[ord[q]] <= q,
            forall|q: int| 0 <= q < p ==> #[trigger] lv@[ord[q]] == dep_max(nodes@, lv@, ord[q], nodes@[ord[q]].dependencies@.len() as int),
        decreases n - p,
    {
        let u = order[p];
        assert(ord[p as int] == u as int);
        assert(0 <= ord[p as int] < n);
        assert(deps_before(nodes@, ord, p as int));
        let deps = &nodes[u].dependencies;
        let mut m: usize = 0;
        let mut j: usize = 0;
        while j < deps.len()
            invariant
                n == nodes@.len(),
                valid_graph(nodes@),
                is_topo_order(nodes@, ord),
                deps_before(nodes@, ord, p as int),
                ord[p as int] == u as int,
                u < n,
                p < n,
                *deps == nodes@[u as int].dependencies,
                lv@.len() == n,
                forall|q: int| 0 <= q < p ==> #[trigger] lv@[ord[q]] <= q,
                j <= deps@.len(),
                m == dep_max(nodes@, lv@, u as int, j as int),
                m <= p,
            decreases deps@.len() - j,
        {
            assert(id_before(nodes@, ord, p as int, nodes@[ord[p as int]].dependencies@[j as int]@));
            let k = match find_id(nodes, deps[j].as_str()) {
                Some(k) => k,
                None => {
                    proof {
                        assert(missing(nodes@, u as int, j as int));
                    }
                    0
                },
            };
            proof {
                lemma_index_of(nodes@, k as int);
                let q = choose|q: int| 0 <= q < p && (#[trigger] nodes@[ord[q]]).id@ == nodes@[ord[p as int]].dependencies@[j as int]@;
                assert(0 <= ord[q] < n);
                lemma_index_of(nodes@, ord[q]);
                assert(ord[q] == k as int);
                assert(lv@[ord[q]] <= q);
            }
            let here = lv[k] + 1;
            if here > m {
                m = here;
            }
            j += 1;
        }
        proof {
            assert forall|q: int| 0 <= q < p implies #[trigger] lv@.update(u as int, m)[ord[q]] == dep_max(nodes@, lv@.update(u as int, m), ord[q], nodes@[ord[q]].dependencies@.len() as int) by {
                assert(ord[q] != u as int) by {
                    assert(order@[q] != order@[p as int]);
                }
                assert(deps_before(nodes@, ord, q));
                assert forall|x: int| 0 <= x < nodes@[ord[q]].dependencies@.len() implies index_of(nodes@, #[trigger] nodes@[ord[q]].dependencies@[x]@) != u as int
                    && 0 <= index_of(nodes@, nodes@[ord[q]].dependencies@[x]@) < lv@.len() by {
                    assert(id_before(nodes@, ord, q, nodes@[ord[q]].dependencies@[x]@));
                    let q2 = choose|q2: int| 0 <= q2 < q && (#[trigger] nodes@[ord[q2]]).id@ == nodes@[ord[q]].dependencies@[x]@;
                    assert(0 <= ord[q2] < n);
                    lemma_index_of(nodes@, ord[q2]);
                    assert(order@[q2] != order@[p as int]);
                }
                lemma_dep_max_frame(nodes@, lv@, ord[q], nodes@[ord[q]].dependencies@.len() as int, u as int, m);
            }
            assert forall|x: int| 0 <= x < nodes@[u as int].dependencies@.len() implies index_of(nodes@, #[trigger] nodes@[u as int].dependencies@[x]@) != u as int
                && 0 <= index_of(nodes@, nodes@[u as int].dependencies@[x]@) < lv@.len() by {
                assert(id_before(nodes@, ord, p as int, nodes@[ord[p as int]].dependencies@[x]@));
                let q2 = choose|q2: int| 0 <= q2 < p && (#[trigger] nodes@[ord[q2]]).id@ == nodes@[ord[p as int]].dependencies@[x]@;
                assert(0 <= ord[q2] < n);
                lemma_index_of(nodes@, ord[q2]);
                assert(order@[q2] != order@[p as int]);
            }
            lemma_dep_max_frame(nodes@, lv@, u as int, nodes@[u as int].dependencies@.len() as int, u as int, m);
        }
        lv.set(u, m);
        p += 1;
    }
    proof {
        assert forall|i: int| 0 <= i < nodes@.len() implies #[trigger] lv@[i] == dep_max(nodes@, lv@, i, nodes@[i].dependencies@.len() as int) by {
            assert(ord.contains(i));
            let q = choose|q: int| 0 <= q < ord.len() && ord[q] == i;
            assert(lv@[ord[q]] == dep_max(nodes@, lv@, ord[q], nodes@[ord[q]].dependencies@.len() as int));
        }
        assert forall|i: int| 0 <= i < lv@.len() implies lv@[i] < nodes@.len() by {
            assert(ord.contains(i));
            let q = choose|q: int| 0 <= q < ord.len() && ord[q] == i;
            assert(lv@[ord[q]] <= q);
        }
    }
    lv
}

/// Group node indices by level, in increasing order within a level.
pub fn group_by_level(lv: &Vec<usize>) -> (levels: Vec<Vec<usize>>)
    requires
        forall|i: int| 0 <= i < lv@.len() ==> lv@[i] < usize::MAX,
    ensures
        grouped(lv@, levels@),
{
    let n = lv.len();
    let mut max_level: usize = 0;
    let mut i: usize = 0;
    let ghost mut arg: int = -1;
    while i < n
        invariant
            n == lv@.len(),
            i <= n,
            forall|x: int| 0 <= x < i ==> lv@[x] <= max_level,
            arg == -1 ==> max_level == 0 && i == 0,
            arg != -1 ==> 0 <= arg < i && lv@[arg] == max_level,
        decreases n - i,
    {
        if i == 0 || lv[i] > max_level {
            max_level = lv[i];
            proof {
                arg = i as int;
            }
        }
        i += 1;
    }
    let mut levels: Vec<Vec<usize>> = Vec::new();
    let mut k: usize = 0;
    while k <= max_level
        invariant
            n == lv@.len(),
            forall|x: int| 0 <= x < n ==> lv@[x] <= max_level,
            forall|x: int| 0 <= x < n ==> lv@[x] < usize::MAX,
            n > 0 ==> 0 <= arg < n && lv@[arg] == max_level,
            n == 0 ==> max_level == 0,
            k <= max_level + 1,
            levels@.len() == k,
            forall|k2: int, t: int| 0 <= k2 < k && 0 <= t < levels@[k2]@.len() ==> #[trigger] levels@[k2]@[t] < n
                && lv@[levels@[k2]@[t] as int] == k2,
            forall|k2: int, a: int, b: int| 0 <= k2 < k && 0 <= a < b < levels@[k2]@.len() ==> #[trigger] levels@[k2]@[a]
                < #[trigger] levels@[k2]@[b],
            forall|x: int| 0 <= x < n && lv@[x] < k ==> #[trigger] levels@[lv@[x] as int]@.contains(x as usize),
        decreases max_level + 1 - k,
    {
        let mut group: Vec<usize> = Vec::new();
        let mut x: usize = 0;
        while x < n
            invariant
                n == lv@.len(),
                x <= n,
                forall|t: int| 0 <= t < group@.len() ==> #[trigger] group@[t] < x && lv@[group@[t] as int] == k,
                forall|a: int, b: int| 0 <= a < b < group@.len() ==> #[trigger] group@[a] < #[trigger] group@[b],
                forall|y: int| 0 <= y < x && lv@[y] == k ==> #[trigger] group@.contains(y as usize),
            decreases n - x,
        {
            if lv[x] == k {
                let ghost g0 = group@;
                group.push(x);
                proof {
                    assert(group@[group@.len() - 1] == x);
                    assert forall|y: int| 0 <= y < x + 1 && lv@[y] == k implies #[trigger] group@.contains(y as usize) by {
                        if y < x {
                            assert(g0.contains(y as usize));
                            let t = choose|t: int| 0 <= t < g0.len() && g0[t] == y as usize;
                            assert(group@[t] == y as usize);
                        }
                    }
                }
            }
            x += 1;
        }
        let ghost before = levels@;
        levels.push(group);
        proof {
            assert(levels@ == before.push(group));
            assert forall|y: int| 0 <= y < n && lv@[y] < k + 1 implies #[trigger] levels@[lv@[y] as int]@.contains(y as usize) by {
                if lv@[y] == k {
                    assert(levels@[k as int]@ == group@);
                } else {
                    assert(levels@[lv@[y] as int] == before[lv@[y] as int]);
                }
            }
            assert forall|k2: int, t: int| 0 <= k2 < k + 1 && 0 <= t < levels@[k2]@.len() implies #[trigger] levels@[k2]@[t] < n
                && lv@[levels@[k2]@[t] as int] == k2 by {
                if k2 < k {
                    assert(levels@[k2] == before[k2]);
                }
            }
            assert forall|k2: int, a: int, b: int| 0 <= k2 < k + 1 && 0 <= a < b < levels@[k2]@.len() implies #[trigger] levels@[k2]@[a]
                < #[trigger] levels@[k2]@[b] by {
                if k2 < k {
                    assert(levels@[k2] == before[k2]);
                }
            }
        }
        k += 1;
    }
    levels
}

/// The node indices of a valid graph grouped by level: nodes of one
/// level depend only on nodes of lower levels and can run in parallel.
pub fn compute_levels(nodes: &Vec<DagNode>) -> (levels: Vec<Vec<usize>>)
    requires
        valid_graph(nodes@),
    ensures
        exists|lv: Seq<usize>| levels_fit(nodes@, lv) && grouped(lv, levels@),
{
    let n = nodes.len();
    let lv = node_levels(nodes);
    assert(forall|i: int| 0 <= i < lv@.len() ==> lv@[i] < n);
    let levels = group_by_level(&lv);
    assert(levels_fit(nodes@, lv@) && grouped(lv@, levels@));
    levels
}

proof fn lemma_dep_max_ge(nodes: Seq<DagNode>, lv: Seq<usize>, i: int, j: int, x: int)
    requires
        0 <= x < j,
    ensures
        dep_max(nodes, lv, i, j) >= lv[index_of(nodes, nodes[i].dependencies@[x]@)] + 1,
    decreases j,
{
    if x < j - 1 {
        lemma_dep_max_ge(nodes, lv, i, j - 1, x);
    }
}

/// In a valid graph with its levels, every node is at a higher level than
/// each of its dependencies, so a level only needs results of lower ones.
pub proof fn law_dependencies_at_lower_levels(nodes: Seq<DagNode>, lv: Seq<usize>, i: int, j: int)
    requires
        valid_graph(nodes),
        levels_fit(nodes, lv),
        0 <= i < nodes.len(),
        0 <= j < nodes[i].dependencies@.len(),
    ensures
        nodes[index_of(nodes, nodes[i].dependencies@[j]@)].id@ == nodes[i].dependencies@[j]@,
        lv[index_of(nodes, nodes[i].dependencies@[j]@)] < lv[i],
{
    assert(!missing(nodes, i, j));
    assert(has_id(nodes, nodes[i].dependencies@[j]@));
    lemma_dep_max_ge(nodes, lv, i, nodes[i].dependencies@.len() as int, j);
}

proof fn lemma_dep_max_agree(nodes: Seq<DagNode>, lv1: Seq<usize>, lv2: Seq<usize>, i: int, j: int)
    requires
        forall|x: int| 0 <= x < j ==> lv1[index_of(nodes, #[trigger] nodes[i].dependencies@[x]@)]
            == lv2[index_of(nodes, nodes[i].dependencies@[x]@)],
    ensures
        dep_max(nodes, lv1, i, j) == dep_max(nodes, lv2, i, j),
    decreases j,
{
    if j > 0 {
        lemma_dep_max_agree(nodes, lv1, lv2, i, j - 1);
    }
}

proof fn lemma_levels_agree_upto(nodes: Seq<DagNode>, order: Seq<int>, lv1: Seq<usize>, lv2: Seq<usize>, p: int)
    requires
        valid_graph(nodes),
        is_topo_order(nodes, order),
        levels_fit(nodes, lv1),
        levels_fit(nodes, lv2),
        0 <= p < order.len(),
    ensures
        forall|q: int| 0 <= q <= p ==> lv1[#[trigger] order[q]] == lv2[order[q]],
    decreases p,
{
    if p > 0 {
        lemma_levels_agree_upto(nodes, order, lv1, lv2, p - 1);
    }
    let i = order[p];
    assert(deps_before(nodes, order, p));
    assert forall|x: int| 0 <= x < nodes[i].dependencies@.len() implies lv1[index_of(nodes, #[trigger] nodes[i].dependencies@[x]@)]
        == lv2[index_of(nodes, nodes[i].dependencies@[x]@)] by {
        let d = nodes[i].dependencies@[x]@;
        assert(id_before(nodes, order, p, d));
        let q = choose|q: int| 0 <= q < p && (#[trigger] nodes[order[q]]).id@ == d;
        lemma_index_of(nodes, order[q]);
    }
    lemma_dep_max_agree(nodes, lv1, lv2, i, nodes[i].dependencies@.len() as int);
}

/// The levels of a valid graph are determined by the graph: there is one
/// assignment in which every node sits one above its highest dependency.
pub proof fn law_levels_unique(nodes: Seq<DagNode>, lv1: Seq<usize>, lv2: Seq<usize>)
    requires
        valid_graph(nodes),
        levels_fit(nodes, lv1),
        levels_fit(nodes, lv2),
    ensures
        lv1 == lv2,
{
    let order = choose|order: Seq<int>| is_topo_order(nodes, order);
    if order.len() > 0 {
        lemma_levels_agree_upto(nodes, order, lv1, lv2, order.len() - 1);
    }
    assert forall|k: int| 0 <= k < lv1.len() implies lv1[k] == lv2[k] by {
        assert(order.contains(k));
        let p = choose|p: int| 0 <= p < order.len() && order[p] == k;
    }
    assert(lv1 =~= lv2);
}

/// A graph of steps, each with the ids of the steps whose results it
/// needs. The steps' work is kept by the caller, by index.
pub struct DagExecutor {
    steps: Vec<DagNode>,
}

impl DagExecutor {
    /// The registered steps, in order.
    pub closed spec fn nodes(&self) -> Seq<DagNode> {
        self.steps@
    }

    /// An empty graph.
    pub fn new() -> (d: Self)
        ensures
            d.nodes() == Seq::<DagNode>::empty(),
    {
        DagExecutor { steps: Vec::new() }
    }

    /// Register a step with its dependencies; its index is the number of
    /// steps registered before it.
    pub fn add_step(&mut self, id: String, dependencies: Vec<String>)
        ensures
            final(self).nodes() == old(self).nodes().push(DagNode { id, dependencies }),
    {
        self.steps.push(DagNode { id, dependencies });
    }

    /// The registered steps.
    pub fn steps(&self) -> (s: &Vec<DagNode>)
        ensures
            s@ == self.nodes(),
    {
        &self.steps
    }

    /// Validate the graph (missing dependencies, duplicate ids, cycles).
    pub fn validate(&self) -> (r: Result<(), String>)
        ensures
            r is Ok <==> valid_graph(self.nodes()),
            r matches Err(m) ==> if some_missing(self.nodes()) {
                exists|i: int, j: int| first_missing(self.nodes(), i, j) && m@ == missing_message(
                    "step"@,
                    self.nodes()[i].id@,
                    self.nodes()[i].dependencies@[j]@,
                )
            } else {
                m@ == cycle_message("step"@)
            },
    {
        validate_graph(&self.steps, "step")
    }

    /// The step indices grouped by level, for a valid graph.
    pub fn compute_levels(&self) -> (levels: Vec<Vec<usize>>)
        requires
            valid_graph(self.nodes()),
        ensures
            exists|lv: Seq<usize>| levels_fit(self.nodes(), lv) && grouped(lv, levels@),
    {
        compute_levels(&self.steps)
    }
}

impl Default for DagExecutor {
    fn default() -> (d: Self)
        ensures
            d.nodes() == Seq::<DagNode>::empty(),
    {
        Self::new()
    }
}

} // verus!
