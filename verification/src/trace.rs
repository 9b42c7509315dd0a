//! Tracing: the transitive closure over the object graph.
//!
//! The marker runs a worklist over object nodes and their edges. Its
//! result is exactly the set of nodes reachable from the roots, so two
//! full traces over one heap state mark the same set.

use vstd::prelude::*;

verus! {

/// Whether every edge of the graph stays inside the graph.
pub open spec fn spec_graph_wf(g: Seq<Seq<usize>>) -> bool {
    forall|i: int, k: int|
        0 <= i < g.len() && 0 <= k < g[i].len() ==> (#[trigger] g[i][k]) < g.len()
}

/// One breadth step: the nodes of `s` and everything one edge away.
pub open spec fn spec_step(g: Seq<Seq<usize>>, s: Set<int>) -> Set<int> {
    s.union(
        Set::new(
            |j: int|
                exists|i: int, k: int|
                    s.contains(i) && 0 <= i < g.len() && 0 <= k < g[i].len() && g[i][k] == j,
        ),
    )
}

/// The nodes within `n` edges of the roots.
pub open spec fn spec_reach_n(g: Seq<Seq<usize>>, roots: Set<int>, n: nat) -> Set<int>
    decreases n,
{
    if n == 0 {
        roots
    } else {
        spec_step(g, spec_reach_n(g, roots, (n - 1) as nat))
    }
}

/// Whether a node is reachable from the roots.
pub open spec fn spec_reachable(g: Seq<Seq<usize>>, roots: Set<int>, j: int) -> bool {
    exists|n: nat| spec_reach_n(g, roots, n).contains(j)
}

/// The root set of a root list.
pub open spec fn spec_root_set(roots: Seq<usize>) -> Set<int> {
    Set::new(|j: int| exists|k: int| 0 <= k < roots.len() && roots[k] == j)
}

/// A reachable node's successor is reachable.
pub proof fn lemma_reachable_successor(
    g: Seq<Seq<usize>>,
    roots: Set<int>,
    i: int,
    k: int,
)
    requires
        spec_reachable(g, roots, i),
        0 <= i < g.len(),
        0 <= k < g[i].len(),
    ensures
        spec_reachable(g, roots, g[i][k] as int),
{
    let n = choose|n: nat| spec_reach_n(g, roots, n).contains(i);
    assert(spec_reach_n(g, roots, n + 1).contains(g[i][k] as int));
}

/// Every set that contains the roots and is closed under edges holds
/// every reach set.
pub proof fn lemma_closed_contains_reach(
    g: Seq<Seq<usize>>,
    roots: Set<int>,
    m: Set<int>,
    n: nat,
)
    requires
        roots.subset_of(m),
        forall|i: int, k: int|
            m.contains(i) && 0 <= i < g.len() && 0 <= k < g[i].len() ==> m.contains(
                #[trigger] g[i][k] as int,
            ),
    ensures
        spec_reach_n(g, roots, n).subset_of(m),
    decreases n,
{
    if n > 0 {
        lemma_closed_contains_reach(g, roots, m, (n - 1) as nat);
        assert forall|j: int| spec_reach_n(g, roots, n).contains(j) implies m.contains(j) by {
            if !spec_reach_n(g, roots, (n - 1) as nat).contains(j) {
                let (i, k): (int, int) = choose|i: int, k: int|
                    spec_reach_n(g, roots, (n - 1) as nat).contains(i) && 0 <= i < g.len() && 0
                        <= k < g[i].len() && g[i][k] == j;
                assert(m.contains(i));
            }
        }
    }
}

/// How many entries of the mark vector are still false.
pub open spec fn spec_count_false(marks: Seq<bool>) -> int
    decreases marks.len(),
{
    if marks.len() == 0 {
        0
    } else {
        spec_count_false(marks.drop_last()) + (if marks.last() {
            0int
        } else {
            1int
        })
    }
}

/// Setting a false entry to true lowers the false count by one.
pub proof fn lemma_count_false_update(marks: Seq<bool>, i: int)
    requires
        0 <= i < marks.len(),
        !marks[i],
    ensures
        spec_count_false(marks.update(i, true)) == spec_count_false(marks) - 1,
        spec_count_false(marks) >= 1,
    decreases marks.len(),
{
    lemma_count_false_nonneg(marks.drop_last());
    if i == marks.len() - 1 {
        assert(marks.update(i, true).drop_last() =~= marks.drop_last());
    } else {
        assert(marks.update(i, true).drop_last() =~= marks.drop_last().update(i, true));
        lemma_count_false_update(marks.drop_last(), i);
    }
}

/// The false count is never negative.
pub proof fn lemma_count_false_nonneg(marks: Seq<bool>)
    ensures
        spec_count_false(marks) >= 0,
    decreases marks.len(),
{
    if marks.len() > 0 {
        lemma_count_false_nonneg(marks.drop_last());
    }
}

/// Run a full trace: mark exactly the nodes reachable from the roots.
/// Running it again on the same graph and roots yields the same marks,
/// since the result is a function of the reachable set alone.
#[verifier::rlimit(100)]
#[verifier::spinoff_prover]
#[verifier::loop_isolation(false)]
pub fn full_trace(graph: &Vec<Vec<usize>>, roots: &Vec<usize>) -> (marked: Vec<bool>)
    requires
        spec_graph_wf(graph.deep_view()),
        forall|k: int| 0 <= k < roots@.len() ==> #[trigger] roots@[k] < graph@.len(),
    ensures
        marked@.len() == graph@.len(),
        forall|j: int|
            0 <= j < graph@.len() ==> (#[trigger] marked@[j] <==> spec_reachable(
                graph.deep_view(),
                spec_root_set(roots@),
                j,
            )),
{
    let ghost g = graph.deep_view();
    let ghost rset = spec_root_set(roots@);
    let n = graph.len();
    let mut marked: Vec<bool> = Vec::new();
    let mut i: usize = 0;
    while i < n
        invariant
            i <= n,
            marked@.len() == i,
            forall|j: int| 0 <= j < i ==> !(#[trigger] marked@[j]),
        decreases n - i,
    {
        marked.push(false);
        i = i + 1;
    }
    let mut stack: Vec<usize> = Vec::new();
    let mut r: usize = 0;
    while r < roots.len()
        invariant
            r <= roots@.len(),
            marked@.len() == n,
            forall|j: int| 0 <= j < stack@.len() ==> (#[trigger] stack@[j]) < n,
            forall|j: int| 0 <= j < stack@.len() ==> marked@[#[trigger] stack@[j] as int],
            forall|j: int|
                0 <= j < n && #[trigger] marked@[j] ==> spec_reachable(g, rset, j),
            forall|j: int|
                0 <= j < n && #[trigger] marked@[j] ==> stack@.contains(j as usize),
            forall|k: int| 0 <= k < r ==> marked@[#[trigger] roots@[k] as int],
        decreases roots@.len() - r,
    {
        let node = roots[r];
        if !marked[node] {
            let ghost pre_push = stack@;
            marked.set(node, true);
            stack.push(node);
            proof {
                assert(spec_reach_n(g, rset, 0).contains(node as int));
                assert(stack@[stack@.len() - 1] == node);
                assert(stack@.contains(node));
                assert forall|x: usize| pre_push.contains(x) implies stack@.contains(x) by {
                    let idx = choose|idx: int| 0 <= idx < pre_push.len() && pre_push[idx] == x;
                    assert(stack@[idx] == x);
                }
            }
        }
        r = r + 1;
    }
    while stack.len() > 0
        invariant
            marked@.len() == n,
            forall|j: int| 0 <= j < stack@.len() ==> (#[trigger] stack@[j]) < n,
            forall|j: int| 0 <= j < stack@.len() ==> marked@[#[trigger] stack@[j] as int],
            forall|j: int|
                0 <= j < n && #[trigger] marked@[j] ==> spec_reachable(g, rset, j),
            forall|k: int| 0 <= k < roots@.len() ==> marked@[#[trigger] roots@[k] as int],
            forall|u: int, k: int|
                0 <= u < n && marked@[u] && !stack@.contains(u as usize) && 0 <= k
                    < g[u].len() ==> marked@[#[trigger] g[u][k] as int],
        decreases spec_count_false(marked@), stack@.len(),
    {
        let ghost marked_at_head = marked@;
        let ghost stack_at_head = stack@;
        let popped = stack.pop();
        let u = match popped {
            Some(u) => u,
            None => {
                proof {
                    assert(false);
                }
                0
            },
        };
        proof {
            assert forall|w: int, kk: int|
                0 <= w < n && marked@[w] && !stack@.contains(w as usize) && w != u as int && 0
                    <= kk < g[w].len() implies marked@[#[trigger] g[w][kk] as int] by {
                if stack_at_head.contains(w as usize) {
                    let idx = choose|idx: int|
                        0 <= idx < stack_at_head.len() && stack_at_head[idx] == w as usize;
                    if idx < stack_at_head.len() - 1 {
                        assert(stack@[idx] == w as usize);
                        assert(stack@.contains(w as usize));
                    } else {
                        assert(stack_at_head[stack_at_head.len() - 1] == u);
                    }
                }
            }
        }
        let edges = &graph[u];
        let mut k: usize = 0;
        while k < edges.len()
            invariant
                edges@ == graph@[u as int]@,
                u < n,
                marked@.len() == n,
                marked@[u as int],
                spec_count_false(marked@) <= spec_count_false(marked_at_head),
                spec_count_false(marked@) < spec_count_false(marked_at_head) || stack@.len()
                    == stack_at_head.len() - 1,
                forall|j: int| 0 <= j < stack@.len() ==> (#[trigger] stack@[j]) < n,
                forall|j: int| 0 <= j < stack@.len() ==> marked@[#[trigger] stack@[j] as int],
                forall|j: int|
                    0 <= j < n && #[trigger] marked@[j] ==> spec_reachable(g, rset, j),
                forall|kk: int| 0 <= kk < roots@.len() ==> marked@[#[trigger] roots@[kk] as int],
                forall|w: int, kk: int|
                    0 <= w < n && marked@[w] && !stack@.contains(w as usize) && w != u && 0 <= kk
                        < g[w].len() ==> marked@[#[trigger] g[w][kk] as int],
                forall|kk: int| 0 <= kk < k ==> marked@[#[trigger] g[u as int][kk] as int],
            decreases edges@.len() - k,
        {
            let v = edges[k];
            proof {
                assert(g[u as int][k as int] == v);
            }
            if !marked[v] {
                proof {
                    lemma_count_false_update(marked@, v as int);
                    lemma_reachable_successor(g, rset, u as int, k as int);
                }
                let ghost pre_push = stack@;
                marked.set(v, true);
                stack.push(v);
                proof {
                    assert(stack@[stack@.len() - 1] == v);
                    assert(stack@.contains(v));
                    assert forall|x: usize| pre_push.contains(x) implies stack@.contains(x) by {
                        let idx = choose|idx: int|
                            0 <= idx < pre_push.len() && pre_push[idx] == x;
                        assert(stack@[idx] == x);
                    }
                }
            }
            k = k + 1;
        }
        proof {
            lemma_count_false_nonneg(marked@);
        }
    }
    proof {
        assert forall|j: int|
            0 <= j < n && spec_reachable(g, rset, j) implies marked@[j] by {
            let m = Set::new(|jj: int| 0 <= jj < n && marked@[jj]);
            assert(rset.subset_of(m)) by {
                assert forall|jj: int| rset.contains(jj) implies m.contains(jj) by {
                    let kk = choose|kk: int| 0 <= kk < roots@.len() && roots@[kk] == jj;
                    assert(marked@[roots@[kk] as int]);
                }
            }
            assert forall|ii: int, kk: int|
                m.contains(ii) && 0 <= ii < g.len() && 0 <= kk < g[ii].len() implies m.contains(
                #[trigger] g[ii][kk] as int,
            ) by {
                assert(!stack@.contains(ii as usize));
            }
            let nn = choose|nn: nat| spec_reach_n(g, rset, nn).contains(j);
            lemma_closed_contains_reach(g, rset, m, nn);
            assert(m.contains(j));
        }
    }
    marked
}

/// Two full traces over one heap state mark the same set: the mark
/// vector is determined by the graph and the roots alone.
pub proof fn lemma_trace_idempotent(
    g: Seq<Seq<usize>>,
    roots: Seq<usize>,
    first: Seq<bool>,
    second: Seq<bool>,
)
    requires
        first.len() == g.len(),
        second.len() == g.len(),
        forall|j: int|
            0 <= j < g.len() ==> (#[trigger] first[j] <==> spec_reachable(
                g,
                spec_root_set(roots),
                j,
            )),
        forall|j: int|
            0 <= j < g.len() ==> (#[trigger] second[j] <==> spec_reachable(
                g,
                spec_root_set(roots),
                j,
            )),
    ensures
        first =~= second,
{
}

} // verus!
