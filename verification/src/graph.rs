//! The dependency filter: which packages of the universe are in scope for
//! the consuming package.
//!
//! The resolved graph is walked from the root node with an explicit
//! frontier and a visited set, never recursion, so graph depth cannot grow
//! the call stack and shared sub-dependencies are visited once. The root
//! is in scope itself, so its own declarations stay visible to it.
use vstd::prelude::*;
use vstd::string::*;

use crate::errors::CollationError;
use crate::json::str_eq;
use crate::specifications::{DependencyNode, PackageDetails, PackageModel};

verus! {

/// An edge of the graph: some node bears identity `a` and names `b` among
/// its direct dependencies.
pub open spec fn spec_edge(nodes: Seq<DependencyNode>, a: Seq<char>, b: Seq<char>) -> bool {
    exists|i: int, k: int|
        {
            &&& 0 <= i < nodes.len()
            &&& 0 <= k < nodes[i].dependencies@.len()
            &&& nodes[i].id@ == a
            &&& (#[trigger] nodes[i].dependencies@[k])@ == b
        }
}

/// A chain of identities whose every step is an edge.
pub open spec fn spec_is_path(nodes: Seq<DependencyNode>, p: Seq<Seq<char>>) -> bool {
    forall|k: int| 0 <= k < p.len() - 1 ==> spec_edge(nodes, #[trigger] p[k], p[k + 1])
}

/// `to` is reachable from `from`: some chain leads there. Every identity
/// reaches itself by the one-element chain.
pub open spec fn spec_reaches(nodes: Seq<DependencyNode>, from: Seq<char>, to: Seq<char>) -> bool {
    exists|p: Seq<Seq<char>>|
        {
            &&& #[trigger] spec_is_path(nodes, p)
            &&& p.len() > 0
            &&& p[0] == from
            &&& p.last() == to
        }
}

/// The graph holds a node of the identity.
pub open spec fn spec_has_node(nodes: Seq<DependencyNode>, id: Seq<char>) -> bool {
    exists|i: int| 0 <= i < nodes.len() && (#[trigger] nodes[i]).id@ == id
}

/// The universe holds a package of the identity.
pub open spec fn spec_has_package(packages: Seq<PackageModel>, id: Seq<char>) -> bool {
    exists|i: int| 0 <= i < packages.len() && (#[trigger] packages[i]).id@ == id
}

/// The graph is complete for the consumer's closure: the root has a node,
/// and every reachable identity has both a package and a node.
pub open spec fn spec_graph_complete(
    packages: Seq<PackageModel>,
    nodes: Seq<DependencyNode>,
    root: Seq<char>,
) -> bool {
    &&& spec_has_node(nodes, root)
    &&& forall|id: Seq<char>| #[trigger]
        spec_reaches(nodes, root, id) ==> spec_has_package(packages, id) && spec_has_node(
            nodes,
            id,
        )
}

/// Node identities are unique.
pub open spec fn spec_unique_node_ids(nodes: Seq<DependencyNode>) -> bool {
    forall|i: int, j: int|
        0 <= i < j < nodes.len() ==> (#[trigger] nodes[i]).id@ != (#[trigger] nodes[j]).id@
}

/// Package identities are unique.
pub open spec fn spec_unique_package_ids(packages: Seq<PackageModel>) -> bool {
    forall|i: int, j: int|
        0 <= i < j < packages.len() ==> (#[trigger] packages[i]).id@ != (
        #[trigger] packages[j]).id@
}

/// Some visited node bears the identity.
pub open spec fn spec_processed_id(
    nodes: Seq<DependencyNode>,
    processed: Seq<bool>,
    id: Seq<char>,
) -> bool {
    exists|i: int| 0 <= i < nodes.len() && processed[i] && (#[trigger] nodes[i]).id@ == id
}

/// Some marked package bears the identity.
pub open spec fn spec_marked_id(
    packages: Seq<PackageModel>,
    marked: Seq<bool>,
    id: Seq<char>,
) -> bool {
    exists|i: int| 0 <= i < packages.len() && marked[i] && (#[trigger] packages[i]).id@ == id
}

/// Some frontier entry names a node of the identity.
pub open spec fn spec_pending_id(
    nodes: Seq<DependencyNode>,
    pending: Seq<usize>,
    id: Seq<char>,
) -> bool {
    exists|t: int|
        0 <= t < pending.len() && pending[t] < nodes.len() && nodes[(
        #[trigger] pending[t]) as int].id@ == id
}

/// Every dependency of a visited node is visited itself or waits on the
/// frontier.
pub open spec fn spec_closed_except_pending(
    nodes: Seq<DependencyNode>,
    processed: Seq<bool>,
    pending: Seq<usize>,
) -> bool {
    forall|i: int, k: int|
        (0 <= i < nodes.len() && processed[i] && 0 <= k < nodes[i].dependencies@.len()) ==> {
            ||| spec_processed_id(nodes, processed, (#[trigger] nodes[i].dependencies@[k])@)
            ||| spec_pending_id(nodes, pending, nodes[i].dependencies@[k]@)
        }
}

/// A grown frontier keeps every identity the old frontier named.
proof fn lemma_pending_id_grow(
    nodes: Seq<DependencyNode>,
    p1: Seq<usize>,
    p2: Seq<usize>,
    id: Seq<char>,
)
    requires
        spec_pending_id(nodes, p1, id),
        forall|t: int| 0 <= t < p1.len() ==> p2.contains(#[trigger] p1[t]),
    ensures
        spec_pending_id(nodes, p2, id),
{
    let t = choose|t: int|
        0 <= t < p1.len() && p1[t] < nodes.len() && nodes[(#[trigger] p1[t]) as int].id@ == id;
    assert(p2.contains(p1[t]));
    let u = choose|u: int| 0 <= u < p2.len() && p2[u] == p1[t];
    assert(spec_pending_id(nodes, p2, id));
}

/// A grown frontier keeps the visited set closed.
proof fn lemma_closed_pending_grow(
    nodes: Seq<DependencyNode>,
    processed: Seq<bool>,
    p1: Seq<usize>,
    p2: Seq<usize>,
)
    requires
        spec_closed_except_pending(nodes, processed, p1),
        forall|t: int| 0 <= t < p1.len() ==> p2.contains(#[trigger] p1[t]),
    ensures
        spec_closed_except_pending(nodes, processed, p2),
{
    assert forall|i: int, k: int|
        (0 <= i < nodes.len() && processed[i] && 0 <= k < nodes[i].dependencies@.len()) implies {
        ||| spec_processed_id(nodes, processed, (#[trigger] nodes[i].dependencies@[k])@)
        ||| spec_pending_id(nodes, p2, nodes[i].dependencies@[k]@)
    } by {
        let dep_id = nodes[i].dependencies@[k]@;
        if !spec_processed_id(nodes, processed, dep_id) {
            assert(spec_pending_id(nodes, p1, dep_id));
            lemma_pending_id_grow(nodes, p1, p2, dep_id);
        }
    }
}

/// Extending a reachable identity across one edge keeps it reachable.
pub proof fn lemma_reaches_step(
    nodes: Seq<DependencyNode>,
    root: Seq<char>,
    a: Seq<char>,
    b: Seq<char>,
)
    requires
        spec_reaches(nodes, root, a),
        spec_edge(nodes, a, b),
    ensures
        spec_reaches(nodes, root, b),
{
    let p = choose|p: Seq<Seq<char>>|
        {
            &&& #[trigger] spec_is_path(nodes, p)
            &&& p.len() > 0
            &&& p[0] == root
            &&& p.last() == a
        };
    let q = p.push(b);
    assert forall|k: int| 0 <= k < q.len() - 1 implies spec_edge(
        nodes,
        #[trigger] q[k],
        q[k + 1],
    ) by {
        if k < p.len() - 1 {
            assert(q[k] == p[k] && q[k + 1] == p[k + 1]);
            assert(spec_edge(nodes, p[k], p[k + 1]));
        } else {
            assert(q[k] == p.last() && q[k + 1] == b);
        }
    }
    assert(spec_is_path(nodes, q) && q.len() > 0 && q[0] == root && q.last() == b);
}

/// Every identity reaches itself.
pub proof fn lemma_reaches_self(nodes: Seq<DependencyNode>, id: Seq<char>)
    ensures
        spec_reaches(nodes, id, id),
{
    let p = seq![id];
    assert(spec_is_path(nodes, p) && p.len() > 0 && p[0] == id && p.last() == id);
}

/// A path starting in a closed visited set ends in it.
proof fn lemma_path_stays(nodes: Seq<DependencyNode>, processed: Seq<bool>, p: Seq<Seq<char>>)
    requires
        processed.len() == nodes.len(),
        spec_unique_node_ids(nodes),
        spec_closed_except_pending(nodes, processed, Seq::<usize>::empty()),
        spec_is_path(nodes, p),
        p.len() > 0,
        spec_processed_id(nodes, processed, p[0]),
    ensures
        spec_processed_id(nodes, processed, p.last()),
    decreases p.len(),
{
    if p.len() > 1 {
        assert(spec_edge(nodes, p[0], p[1]));
        let (i, k) = choose|i: int, k: int|
            {
                &&& 0 <= i < nodes.len()
                &&& 0 <= k < nodes[i].dependencies@.len()
                &&& nodes[i].id@ == p[0]
                &&& (#[trigger] nodes[i].dependencies@[k])@ == p[1]
            };
        let i2 = choose|i2: int|
            0 <= i2 < nodes.len() && processed[i2] && (#[trigger] nodes[i2]).id@ == p[0];
        assert(i == i2);
        assert(spec_processed_id(nodes, processed, p[1])
            || spec_pending_id(nodes, Seq::<usize>::empty(), p[1]));
        assert(!spec_pending_id(nodes, Seq::<usize>::empty(), p[1]));
        let q = p.drop_first();
        assert forall|k2: int| 0 <= k2 < q.len() - 1 implies spec_edge(
            nodes,
            #[trigger] q[k2],
            q[k2 + 1],
        ) by {
            assert(q[k2] == p[k2 + 1] && q[k2 + 1] == p[k2 + 2]);
            assert(spec_edge(nodes, p[k2 + 1], p[k2 + 2]));
        }
        lemma_path_stays(nodes, processed, q);
        assert(q.last() == p.last());
    }
}

/// Everything reachable from an identity of a closed visited set is in it.
proof fn lemma_reachable_processed(
    nodes: Seq<DependencyNode>,
    processed: Seq<bool>,
    root: Seq<char>,
    id: Seq<char>,
)
    requires
        processed.len() == nodes.len(),
        spec_unique_node_ids(nodes),
        spec_closed_except_pending(nodes, processed, Seq::<usize>::empty()),
        spec_processed_id(nodes, processed, root),
        spec_reaches(nodes, root, id),
    ensures
        spec_processed_id(nodes, processed, id),
{
    let p = choose|p: Seq<Seq<char>>|
        {
            &&& #[trigger] spec_is_path(nodes, p)
            &&& p.len() > 0
            &&& p[0] == root
            &&& p.last() == id
        };
    lemma_path_stays(nodes, processed, p);
}

/// A vector of `n` false flags.
fn vec_false(n: usize) -> (r: Vec<bool>)
    ensures
        r@.len() == n,
        forall|i: int| 0 <= i < n ==> !r@[i],
{
    let mut r: Vec<bool> = Vec::new();
    let mut i: usize = 0;
    while i < n
        invariant
            i <= n,
            r@.len() == i,
            forall|j: int| 0 <= j < i ==> !r@[j],
        decreases n - i,
    {
        r.push(false);
        i = i + 1;
    }
    r
}

/// How many flags are still false.
pub open spec fn count_false(s: Seq<bool>) -> int
    decreases s.len(),
{
    if s.len() == 0 {
        0
    } else {
        (if s[0] {
            0int
        } else {
            1int
        }) + count_false(s.drop_first())
    }
}

proof fn lemma_count_false_nonneg(s: Seq<bool>)
    ensures
        count_false(s) >= 0,
    decreases s.len(),
{
    if s.len() > 0 {
        lemma_count_false_nonneg(s.drop_first());
    }
}

proof fn lemma_count_false_update(s: Seq<bool>, i: int)
    requires
        0 <= i < s.len(),
        !s[i],
    ensures
        count_false(s.update(i, true)) == count_false(s) - 1,
    decreases s.len(),
{
    let t = s.update(i, true);
    if i == 0 {
        assert(t.drop_first() =~= s.drop_first());
    } else {
        assert(t.drop_first() =~= s.drop_first().update(i - 1, true));
        lemma_count_false_update(s.drop_first(), i - 1);
    }
}

fn find_node_index(nodes: &Vec<DependencyNode>, id: &str) -> (r: Option<usize>)
    ensures
        match r {
            Some(i) => i < nodes@.len() && nodes@[i as int].id@ == id@,
            None => !spec_has_node(nodes@, id@),
        },
{
    let n = nodes.len();
    let mut i: usize = 0;
    while i < n
        invariant
            i <= n,
            n == nodes@.len(),
            forall|j: int| 0 <= j < i ==> (#[trigger] nodes@[j]).id@ != id@,
        decreases n - i,
    {
        if str_eq(nodes[i].id.as_str(), id) {
            return Some(i);
        }
        i = i + 1;
    }
    None
}

fn find_package_index(packages: &Vec<PackageModel>, id: &str) -> (r: Option<usize>)
    ensures
        match r {
            Some(i) => i < packages@.len() && packages@[i as int].id@ == id@,
            None => !spec_has_package(packages@, id@),
        },
{
    let n = packages.len();
    let mut i: usize = 0;
    while i < n
        invariant
            i <= n,
            n == packages@.len(),
            forall|j: int| 0 <= j < i ==> (#[trigger] packages@[j]).id@ != id@,
        decreases n - i,
    {
        if str_eq(packages[i].id.as_str(), id) {
            return Some(i);
        }
        i = i + 1;
    }
    None
}

/// Build the details of every package of the universe, marking exactly
/// those in the consumer's dependency closure: the root package itself and
/// everything transitively reachable from its node. Fails when the graph
/// lacks the root's node, or lacks a package or a node for a reachable
/// identity: the graph is assumed complete for every declared package.
#[verifier::loop_isolation(false)]
pub fn get_package_details(
    packages: Vec<PackageModel>,
    nodes: &Vec<DependencyNode>,
    root_id: &String,
) -> (r: Result<Vec<PackageDetails>, CollationError>)
    requires
        spec_unique_package_ids(packages@),
        spec_unique_node_ids(nodes@),
    ensures
        r is Ok <==> spec_graph_complete(packages@, nodes@, root_id@),
        r matches Ok(details) ==> {
            &&& details@.len() == packages@.len()
            &&& forall|i: int|
                0 <= i < packages@.len() ==> (#[trigger] details@[i]).package == packages@[i]
            &&& forall|i: int|
                0 <= i < packages@.len() ==> ((#[trigger] details@[i]).spec_is_dependency()
                    <==> spec_reaches(nodes@, root_id@, packages@[i].id@))
        },
        r matches Err(e) ==> e is MetadataError,
        !spec_has_node(nodes@, root_id@) ==> (r matches Err(e) && e.spec_message()
            == "Missing dependency node"@),
{
    let n_pkgs = packages.len();
    let n_nodes = nodes.len();
    let mut marked = vec_false(n_pkgs);
    let mut processed = vec_false(n_nodes);
    let root_idx = match find_node_index(nodes, root_id.as_str()) {
        Some(i) => i,
        None => {
            return Err(CollationError::MetadataError("Missing dependency node".to_owned()));
        },
    };
    let mut pending: Vec<usize> = Vec::new();
    pending.push(root_idx);
    proof {
        lemma_reaches_self(nodes@, root_id@);
        assert(pending@[0] == root_idx);
        assert(pending@.contains(root_idx));
    }
    while pending.len() > 0
        invariant
            processed@.len() == n_nodes,
            marked@.len() == n_pkgs,
            forall|t: int| 0 <= t < pending@.len() ==> (#[trigger] pending@[t]) < n_nodes,
            forall|t: int|
                0 <= t < pending@.len() ==> spec_reaches(
                    nodes@,
                    root_id@,
                    nodes@[(#[trigger] pending@[t]) as int].id@,
                ),
            forall|i: int|
                0 <= i < n_nodes && processed@[i] ==> spec_reaches(
                    nodes@,
                    root_id@,
                    (#[trigger] nodes@[i]).id@,
                ),
            forall|i: int|
                0 <= i < n_pkgs && marked@[i] ==> spec_reaches(
                    nodes@,
                    root_id@,
                    (#[trigger] packages@[i]).id@,
                ),
            forall|i: int|
                0 <= i < n_nodes && processed@[i] ==> spec_marked_id(
                    packages@,
                    marked@,
                    (#[trigger] nodes@[i]).id@,
                ),
            forall|i: int|
                0 <= i < n_pkgs && marked@[i] ==> spec_processed_id(
                    nodes@,
                    processed@,
                    (#[trigger] packages@[i]).id@,
                ),
            spec_closed_except_pending(nodes@, processed@, pending@),
            processed@[root_idx as int] || pending@.contains(root_idx),
        decreases count_false(processed@), pending@.len(),
    {
        let ghost pending0 = pending@;
        let idx = match pending.pop() {
            Some(x) => x,
            None => {
                return Err(CollationError::MetadataError("Missing dependency node".to_owned()));
            },
        };
        let ghost pending_after_pop = pending@;
        proof {
            assert(pending0 =~= pending_after_pop.push(idx));
            lemma_count_false_nonneg(processed@);
        }
        let ghost pending_before_pop = pending_after_pop.push(idx);
        proof {
            assert(pending_before_pop =~= pending_after_pop.push(idx));
        }
        if !processed[idx] {
            let pi = match find_package_index(&packages, nodes[idx].id.as_str()) {
                Some(pi) => pi,
                None => {
                    return Err(CollationError::MetadataError("Missing details.".to_owned()));
                },
            };
            marked[pi] = true;
            let nd = nodes[idx].dependencies.len();
            let mut k: usize = 0;
            while k < nd
                invariant
                    nd == nodes@[idx as int].dependencies@.len(),
                    marked@.len() == n_pkgs,
                    marked@[pi as int],
                    forall|t: int| 0 <= t < pending@.len() ==> (#[trigger] pending@[t]) < n_nodes,
                    forall|t: int|
                        0 <= t < pending@.len() ==> spec_reaches(
                            nodes@,
                            root_id@,
                            nodes@[(#[trigger] pending@[t]) as int].id@,
                        ),
                    forall|i: int|
                        0 <= i < n_pkgs && marked@[i] ==> spec_reaches(
                            nodes@,
                            root_id@,
                            (#[trigger] packages@[i]).id@,
                        ),
                    spec_closed_except_pending(nodes@, processed@, pending@.push(idx)),
                    forall|k2: int|
                        0 <= k2 < k ==> {
                            ||| spec_processed_id(
                                nodes@,
                                processed@,
                                (#[trigger] nodes@[idx as int].dependencies@[k2])@,
                            )
                            ||| spec_pending_id(
                                nodes@,
                                pending@,
                                nodes@[idx as int].dependencies@[k2]@,
                            )
                        },
                    processed@[root_idx as int] || pending@.contains(root_idx) || idx
                        == root_idx,
                decreases nd - k,
            {
                let ghost pending_k = pending@;
                let dep_missing = {
                    let dep = &nodes[idx].dependencies[k];
                    match find_node_index(nodes, dep.as_str()) {
                        Some(di) => {
                            if !processed[di] {
                                pending.push(di);
                                proof {
                                    assert(spec_edge(nodes@, nodes@[idx as int].id@, dep@));
                                    lemma_reaches_step(
                                        nodes@,
                                        root_id@,
                                        nodes@[idx as int].id@,
                                        dep@,
                                    );
                                    assert(pending@.last() == di);
                                    assert(spec_pending_id(nodes@, pending@, dep@));
                                    assert(spec_pending_id(
                                        nodes@,
                                        pending@,
                                        (nodes@[idx as int].dependencies@[k as int])@,
                                    ));
                                }
                            } else {
                                proof {
                                    assert(spec_processed_id(nodes@, processed@, dep@));
                                    assert(spec_processed_id(
                                        nodes@,
                                        processed@,
                                        (nodes@[idx as int].dependencies@[k as int])@,
                                    ));
                                }
                            }
                            false
                        },
                        None => true,
                    }
                };
                if dep_missing {
                    proof {
                        let dep_id = nodes@[idx as int].dependencies@[k as int]@;
                        assert(spec_edge(nodes@, nodes@[idx as int].id@, dep_id));
                        lemma_reaches_step(nodes@, root_id@, nodes@[idx as int].id@, dep_id);
                        assert(spec_reaches(nodes@, root_id@, dep_id));
                        assert(!spec_has_node(nodes@, dep_id));
                    }
                    return Err(CollationError::MetadataError("Missing details.".to_owned()));
                }
                proof {
                    assert forall|t: int| 0 <= t < pending_k.len() implies pending@.contains(
                        #[trigger] pending_k[t],
                    ) by {
                        assert(pending@[t] == pending_k[t]);
                    }
                    assert forall|t: int|
                        0 <= t < pending_k.push(idx).len() implies pending@.push(idx).contains(
                        #[trigger] pending_k.push(idx)[t],
                    ) by {
                        if t < pending_k.len() {
                            assert(pending@[t] == pending_k[t]);
                            assert(pending@.push(idx)[t] == pending_k.push(idx)[t]);
                        } else {
                            assert(pending_k.push(idx)[t] == idx);
                            assert(pending@.push(idx).last() == idx);
                        }
                    }
                    lemma_closed_pending_grow(
                        nodes@,
                        processed@,
                        pending_k.push(idx),
                        pending@.push(idx),
                    );
                    assert forall|k2: int| 0 <= k2 < k + 1 implies {
                        ||| spec_processed_id(
                            nodes@,
                            processed@,
                            (#[trigger] nodes@[idx as int].dependencies@[k2])@,
                        )
                        ||| spec_pending_id(nodes@, pending@, nodes@[idx as int].dependencies@[k2]@)
                    } by {
                        if k2 < k {
                            if !spec_processed_id(
                                nodes@,
                                processed@,
                                nodes@[idx as int].dependencies@[k2]@,
                            ) {
                                lemma_pending_id_grow(
                                    nodes@,
                                    pending_k,
                                    pending@,
                                    nodes@[idx as int].dependencies@[k2]@,
                                );
                            }
                        }
                    }
                }
                k = k + 1;
            }
            proof {
                lemma_count_false_update(processed@, idx as int);
            }
            let ghost processed_before = processed@;
            processed[idx] = true;
            proof {
                lemma_count_false_nonneg(processed@);
                assert forall|i: int, k2: int|
                    (0 <= i < nodes@.len() && processed@[i] && 0 <= k2
                        < nodes@[i].dependencies@.len()) implies {
                    ||| spec_processed_id(
                        nodes@,
                        processed@,
                        (#[trigger] nodes@[i].dependencies@[k2])@,
                    )
                    ||| spec_pending_id(nodes@, pending@, nodes@[i].dependencies@[k2]@)
                } by {
                    let dep_id = nodes@[i].dependencies@[k2]@;
                    if i == idx as int {
                        assert(spec_processed_id(nodes@, processed_before, dep_id)
                            || spec_pending_id(nodes@, pending@, dep_id));
                        if spec_processed_id(nodes@, processed_before, dep_id) {
                            let w = choose|w: int|
                                0 <= w < nodes@.len() && processed_before[w] && (
                                #[trigger] nodes@[w]).id@ == dep_id;
                            assert(processed@[w]);
                            assert(spec_processed_id(nodes@, processed@, dep_id));
                        }
                    } else {
                        assert(processed_before[i]);
                        assert(spec_processed_id(nodes@, processed_before, dep_id)
                            || spec_pending_id(nodes@, pending@.push(idx), dep_id));
                        if spec_processed_id(nodes@, processed_before, dep_id) {
                            let w = choose|w: int|
                                0 <= w < nodes@.len() && processed_before[w] && (
                                #[trigger] nodes@[w]).id@ == dep_id;
                            assert(processed@[w]);
                            assert(spec_processed_id(nodes@, processed@, dep_id));
                        } else {
                            let t = choose|t: int|
                                0 <= t < pending@.push(idx).len() && pending@.push(idx)[t]
                                    < nodes@.len() && nodes@[(#[trigger] pending@.push(
                                    idx,
                                )[t]) as int].id@ == dep_id;
                            if t < pending@.len() {
                                assert(pending@[t] == pending@.push(idx)[t]);
                                assert(spec_pending_id(nodes@, pending@, dep_id));
                            } else {
                                assert(pending@.push(idx)[t] == idx);
                                assert(nodes@[idx as int].id@ == dep_id);
                                assert(spec_processed_id(nodes@, processed@, dep_id));
                            }
                        }
                    }
                }
                if !(processed@[root_idx as int] || pending@.contains(root_idx)) {
                    assert(idx != root_idx);
                    assert(processed_before[root_idx as int] || pending_before_pop.contains(
                        root_idx,
                    ));
                    if pending_before_pop.contains(root_idx) {
                        let t = choose|t: int|
                            0 <= t < pending_before_pop.len() && pending_before_pop[t] == root_idx;
                        assert(t < pending_after_pop.len());
                        assert(pending_after_pop[t] == root_idx);
                        assert(pending@.contains(root_idx));
                    }
                }
            }
        }
    }
    proof {
        assert(pending@.len() == 0);
        assert(spec_closed_except_pending(nodes@, processed@, Seq::<usize>::empty())) by {
            assert(pending@ =~= Seq::<usize>::empty());
        }
        assert(processed@[root_idx as int]);
        assert(spec_processed_id(nodes@, processed@, root_id@));
        assert forall|id: Seq<char>| #[trigger]
            spec_reaches(nodes@, root_id@, id) implies spec_has_package(packages@, id)
            && spec_has_node(nodes@, id) by {
            lemma_reachable_processed(nodes@, processed@, root_id@, id);
            let i = choose|i: int|
                0 <= i < nodes@.len() && processed@[i] && (#[trigger] nodes@[i]).id@ == id;
            assert(spec_marked_id(packages@, marked@, id));
        }
        assert(spec_graph_complete(packages@, nodes@, root_id@));
        assert forall|i: int| 0 <= i < n_pkgs implies (marked@[i] <==> spec_reaches(
            nodes@,
            root_id@,
            packages@[i].id@,
        )) by {
            if marked@[i] {
            } else {
                if spec_reaches(nodes@, root_id@, packages@[i].id@) {
                    lemma_reachable_processed(
                        nodes@,
                        processed@,
                        root_id@,
                        packages@[i].id@,
                    );
                    let ni = choose|ni: int|
                        0 <= ni < nodes@.len() && processed@[ni] && (#[trigger] nodes@[ni]).id@
                            == packages@[i].id@;
                    let mi = choose|mi: int|
                        0 <= mi < packages@.len() && marked@[mi] && (#[trigger] packages@[mi]).id@
                            == packages@[i].id@;
                    assert(mi == i);
                }
            }
        }
    }
    let ghost packages0 = packages@;
    let ghost marked0 = marked@;
    let mut remaining = packages;
    let mut details: Vec<PackageDetails> = Vec::new();
    while remaining.len() > 0
        invariant
            details@.len() + remaining@.len() == packages0.len(),
            marked@ == marked0,
            forall|j: int|
                0 <= j < remaining@.len() ==> #[trigger] remaining@[j] == packages0[details@.len()
                    + j],
            forall|i: int|
                0 <= i < details@.len() ==> (#[trigger] details@[i]).package == packages0[i],
            forall|i: int|
                0 <= i < details@.len() ==> ((#[trigger] details@[i]).spec_is_dependency()
                    <==> marked0[i]),
        decreases remaining@.len(),
    {
        let p = remaining.remove(0);
        let di = details.len();
        let mut d = PackageDetails::new(p);
        if marked[di] {
            d.set_is_dependency();
        }
        details.push(d);
    }
    proof {
        assert(details@.len() == packages0.len());
    }
    Ok(details)
}

} // verus!
