//! Dependency resolver.
//!
//! Reads only `dep.*` fields from the Component Index, builds a dependency
//! graph over the desired components, detects cycles, and returns the
//! components in an order where every component comes after all of its
//! dependencies.
use vstd::prelude::*;
use crate::component_index::{ComponentIndex, ComponentMeta};
use crate::id::CanonicalComponentId;
use crate::strmap::StrMap;
use crate::text::{eq_str, join_with, join_strings, strictly_sorted, seq_lt, lemma_seq_lt_asymmetric, lemma_seq_lt_irreflexive, first_where, lemma_first_where_found, lemma_first_where_none};

verus! {

// ---------------------------------------------------------------------------
// Topological order of an index graph by depth-first search
// ---------------------------------------------------------------------------

/// Whether `adj` is a graph on nodes `0..n`.
pub open spec fn is_graph(n: nat, adj: Seq<Seq<usize>>) -> bool {
    adj.len() == n && forall|u: int, j: int| 0 <= u < n && 0 <= j < adj[u].len() ==> #[trigger] adj[u][j] < n
}

/// Whether `order` lists the nodes `0..n` once each, every node after all of its successors.
pub open spec fn is_topo_order(n: nat, adj: Seq<Seq<usize>>, order: Seq<usize>) -> bool {
    &&& order.len() == n
    &&& order.no_duplicates()
    &&& forall|a: int| 0 <= a < n ==> #[trigger] order[a] < n
    &&& forall|b: int| 0 <= b < n ==> #[trigger] deps_before(order, b, adj)
}

/// Whether `v` occurs in `order` before position `b`.
pub open spec fn occurs_before(order: Seq<usize>, b: int, v: usize) -> bool {
    exists|a: int| 0 <= a < b && order[a] == v
}

/// Whether each successor of `order[b]` occurs in `order` before position `b`.
pub open spec fn deps_before(order: Seq<usize>, b: int, adj: Seq<Seq<usize>>) -> bool {
    forall|j: int| 0 <= j < adj[order[b] as int].len() ==> #[trigger] occurs_before(order, b, adj[order[b] as int][j])
}

proof fn lemma_deps_before_extend(old: Seq<usize>, x: usize, b: int, adj: Seq<Seq<usize>>)
    requires
        0 <= b < old.len(),
        deps_before(old, b, adj),
    ensures
        deps_before(old.push(x), b, adj),
{
    let new = old.push(x);
    assert(new[b] == old[b]);
    assert forall|j: int| 0 <= j < adj[new[b] as int].len() implies #[trigger] occurs_before(new, b, adj[new[b] as int][j]) by {
        assert(occurs_before(old, b, adj[old[b] as int][j]));
        let a = choose|a: int| 0 <= a < b && old[a] == adj[old[b] as int][j];
        assert(new[a] == old[a]);
    }
}

/// Whether `w` is a walk in `adj` that returns to a node it visited.
pub open spec fn is_cycle_walk(n: nat, adj: Seq<Seq<usize>>, w: Seq<usize>) -> bool {
    &&& w.len() >= 2
    &&& forall|k: int| 0 <= k < w.len() ==> #[trigger] w[k] < n
    &&& forall|k: int| 0 <= k < w.len() - 1 ==> adj[w[k] as int].contains(#[trigger] w[k + 1])
    &&& exists|k: int| 0 <= k < w.len() - 1 && w[k] == w.last()
}

/// Number of occurrences of `x` in `s`.
pub open spec fn count_eq(s: Seq<u8>, x: u8) -> nat
    decreases s.len(),
{
    if s.len() == 0 { 0 } else { count_eq(s.drop_last(), x) + if s.last() == x { 1nat } else { 0nat } }
}

proof fn lemma_count_update(s: Seq<u8>, i: int, v: u8, x: u8)
    requires
        0 <= i < s.len(),
    ensures
        count_eq(s.update(i, v), x) + (if s[i] == x { 1nat } else { 0nat }) == count_eq(s, x) + (if v == x { 1nat } else { 0nat }),
    decreases s.len(),
{
    if i < s.len() - 1 {
        lemma_count_update(s.drop_last(), i, v, x);
        assert(s.update(i, v).drop_last() =~= s.drop_last().update(i, v));
    } else {
        assert(s.update(i, v).drop_last() =~= s.drop_last());
    }
}

/// The nodes on a DFS stack.
pub open spec fn stack_nodes(st: Seq<(usize, usize)>) -> Seq<usize> {
    st.map_values(|f: (usize, usize)| f.0)
}

/// The state of a depth-first search: each node's colour (0 not reached,
/// 1 on the stack, 2 finished), the stack of (node, index of its next
/// successor), the postorder so far, and the next start node.
pub struct DfsState {
    pub color: Seq<u8>,
    pub stack: Seq<(usize, usize)>,
    pub result: Seq<usize>,
    pub start: int,
}

/// What one search step leads to.
pub enum DfsStep {
    Running(DfsState),
    Finished(Seq<usize>),
    Cycle(Seq<usize>),
}

/// The search before its first step.
pub open spec fn dfs_init(n: nat) -> DfsState {
    DfsState { color: Seq::new(n, |i: int| 0u8), stack: Seq::empty(), result: Seq::empty(), start: 0 }
}

/// One step of the depth-first search of a graph on `0..n`: with an empty
/// stack, start from the next start node not yet reached (or finish);
/// otherwise look at the next successor of the node on top of the stack —
/// skip it when finished, report the cycle when it is on the stack, push it
/// when not reached — or, with no successor left, finish the node.
pub open spec fn dfs_step(n: nat, g: Seq<Seq<usize>>, st: DfsState) -> DfsStep {
    if st.stack.len() == 0 {
        if st.start >= n {
            DfsStep::Finished(st.result)
        } else if st.color[st.start] == 0u8 {
            DfsStep::Running(DfsState { color: st.color.update(st.start, 1u8), stack: seq![(st.start as usize, 0usize)], result: st.result, start: st.start })
        } else {
            DfsStep::Running(DfsState { color: st.color, stack: st.stack, result: st.result, start: st.start + 1 })
        }
    } else {
        let top = st.stack.len() - 1;
        let node = st.stack[top].0;
        let next = st.stack[top].1;
        if next < g[node as int].len() {
            let dep = g[node as int][next as int];
            let stack1 = st.stack.update(top, (node, (next + 1) as usize));
            if st.color[dep as int] == 2u8 {
                DfsStep::Running(DfsState { color: st.color, stack: stack1, result: st.result, start: st.start })
            } else if st.color[dep as int] == 1u8 {
                DfsStep::Cycle(stack_nodes(stack1).push(dep))
            } else {
                DfsStep::Running(DfsState { color: st.color.update(dep as int, 1u8), stack: stack1.push((dep, 0usize)), result: st.result, start: st.start })
            }
        } else {
            DfsStep::Running(DfsState { color: st.color.update(node as int, 2u8), stack: st.stack.drop_last(), result: st.result.push(node), start: st.start })
        }
    }
}

/// The outcome of the search from `st` within `fuel` steps, or `None` when it needs more.
pub open spec fn dfs_within(n: nat, g: Seq<Seq<usize>>, st: DfsState, fuel: nat) -> Option<Result<Seq<usize>, Seq<usize>>>
    decreases fuel,
{
    match dfs_step(n, g, st) {
        DfsStep::Finished(r) => Some(Ok(r)),
        DfsStep::Cycle(w) => Some(Err(w)),
        DfsStep::Running(s2) => if fuel == 0 { None } else { dfs_within(n, g, s2, (fuel - 1) as nat) },
    }
}

/// The outcome of the depth-first search of a graph on `0..n`: its postorder,
/// or the walk that closes the first cycle met.
pub open spec fn dfs_outcome(n: nat, g: Seq<Seq<usize>>) -> Result<Seq<usize>, Seq<usize>> {
    match dfs_within(n, g, dfs_init(n), choose|f: nat| #[trigger] dfs_within(n, g, dfs_init(n), f) is Some) {
        Some(r) => r,
        None => Err(Seq::empty()),
    }
}

/// Whether the search, `steps` steps after its start, is at state `cur`.
#[verifier::opaque]
spec fn dfs_reached(n: nat, g: Seq<Seq<usize>>, cur: DfsState, steps: nat) -> bool {
    forall|f: nat| #[trigger] dfs_within(n, g, cur, f) == dfs_within(n, g, dfs_init(n), f + steps)
}

proof fn lemma_dfs_start(n: nat, g: Seq<Seq<usize>>)
    ensures
        dfs_reached(n, g, dfs_init(n), 0),
{
    reveal(dfs_reached);
}

proof fn lemma_dfs_advance(n: nat, g: Seq<Seq<usize>>, cur: DfsState, nxt: DfsState, steps: nat)
    requires
        dfs_reached(n, g, cur, steps),
        dfs_step(n, g, cur) == DfsStep::Running(nxt),
    ensures
        dfs_reached(n, g, nxt, steps + 1),
{
    reveal(dfs_reached);
    assert forall|f: nat| #[trigger] dfs_within(n, g, nxt, f) == dfs_within(n, g, dfs_init(n), f + (steps + 1)) by {
        assert(dfs_within(n, g, cur, f + 1) == dfs_within(n, g, dfs_init(n), (f + 1) + steps));
        assert(dfs_within(n, g, cur, f + 1) == dfs_within(n, g, nxt, f));
    }
}

/// Two fuels that both suffice give the same outcome.
proof fn lemma_dfs_within_agree(n: nat, g: Seq<Seq<usize>>, st: DfsState, f1: nat, f2: nat)
    requires
        dfs_within(n, g, st, f1) is Some,
        dfs_within(n, g, st, f2) is Some,
    ensures
        dfs_within(n, g, st, f1) == dfs_within(n, g, st, f2),
    decreases f1,
{
    if let DfsStep::Running(s2) = dfs_step(n, g, st) {
        lemma_dfs_within_agree(n, g, s2, (f1 - 1) as nat, (f2 - 1) as nat);
    }
}

/// A search that ends at `cur` with outcome `r` has outcome `r`.
proof fn lemma_dfs_done(n: nat, g: Seq<Seq<usize>>, cur: DfsState, steps: nat, r: Result<Seq<usize>, Seq<usize>>)
    requires
        dfs_reached(n, g, cur, steps),
        dfs_within(n, g, cur, 0) == Some(r),
    ensures
        dfs_outcome(n, g) == r,
{
    reveal(dfs_reached);
    assert(dfs_within(n, g, dfs_init(n), steps) == Some(r));
    let f = choose|f: nat| #[trigger] dfs_within(n, g, dfs_init(n), f) is Some;
    lemma_dfs_within_agree(n, g, dfs_init(n), f, steps);
}

/// The nodes `0..n` in increasing order.
pub open spec fn node_range(n: nat) -> Seq<usize> {
    Seq::new(n, |i: int| i as usize)
}

/// Depth-first topological sort of a graph on `0..n`, trying start nodes in
/// increasing order and each node's successors in list order. Returns the
/// postorder, or a walk that closes a cycle. A graph without edges comes out
/// as its nodes in increasing order.
pub fn topo_dfs(n: usize, adj: &Vec<Vec<usize>>) -> (r: Result<Vec<usize>, Vec<usize>>)
    requires
        is_graph(n as nat, adj@.map_values(|a: Vec<usize>| a@)),
    ensures
        match r {
            Ok(order) => is_topo_order(n as nat, adj@.map_values(|a: Vec<usize>| a@), order@),
            Err(w) => is_cycle_walk(n as nat, adj@.map_values(|a: Vec<usize>| a@), w@),
        },
        (forall|u: int| 0 <= u < n ==> #[trigger] adj@[u]@.len() == 0) ==> (r matches Ok(order) && order@ == node_range(n as nat)),
        match r {
            Ok(order) => dfs_outcome(n as nat, adj@.map_values(|a: Vec<usize>| a@)) == Ok::<Seq<usize>, Seq<usize>>(order@),
            Err(w) => dfs_outcome(n as nat, adj@.map_values(|a: Vec<usize>| a@)) == Err::<Seq<usize>, Seq<usize>>(w@),
        },
{
    let ghost g = adj@.map_values(|a: Vec<usize>| a@);
    let ghost no_edges = forall|u: int| 0 <= u < n ==> #[trigger] adj@[u]@.len() == 0;
    let mut color: Vec<u8> = Vec::new();
    let mut c: usize = 0;
    while c < n
        invariant
            c <= n,
            color@.len() == c,
            forall|v: int| 0 <= v < c ==> color@[v] == 0u8,
        decreases n - c,
    {
        color.push(0u8);
        c = c + 1;
    }
    let mut result: Vec<usize> = Vec::new();
    let mut start: usize = 0;
    let ghost mut steps: nat = 0;
    proof {
        assert(color@ =~= dfs_init(n as nat).color);
        assert(result@ =~= Seq::<usize>::empty());
        lemma_dfs_start(n as nat, g);
    }
    while start < n
        invariant
            dfs_reached(n as nat, g, DfsState { color: color@, stack: Seq::empty(), result: result@, start: start as int }, steps),
            start <= n,
            g == adj@.map_values(|a: Vec<usize>| a@),
            is_graph(n as nat, g),
            color@.len() == n,
            forall|v: int| 0 <= v < n ==> #[trigger] color@[v] == 0u8 || color@[v] == 2u8,
            forall|v: int| 0 <= v < start ==> #[trigger] color@[v] == 2u8,
            forall|v: int| 0 <= v < n ==> (#[trigger] color@[v] == 2u8 <==> result@.contains(v as usize)),
            forall|a: int| 0 <= a < result@.len() ==> #[trigger] result@[a] < n,
            result@.no_duplicates(),
            forall|b: int| 0 <= b < result@.len() ==> #[trigger] deps_before(result@, b, g),
            forall|u: int, j: int| 0 <= u < n && color@[u] == 2u8 && 0 <= j < g[u].len() ==> #[trigger] color@[g[u][j] as int] == 2u8,
            no_edges ==> forall|u: int| 0 <= u < n ==> #[trigger] g[u].len() == 0,
            no_edges ==> result@ == node_range(start as nat),
        decreases n - start,
    {
        if color[start] == 2u8 {
            proof {
                lemma_dfs_advance(n as nat, g, DfsState { color: color@, stack: Seq::empty(), result: result@, start: start as int },
                    DfsState { color: color@, stack: Seq::empty(), result: result@, start: start + 1 }, steps);
                steps = steps + 1;
                if no_edges {
                    assert(result@.contains(start));
                    let a = choose|a: int| 0 <= a < result@.len() && result@[a] == start;
                    assert(result@[a] == node_range(start as nat)[a]);
                }
            }
            start = start + 1;
            continue;
        }
        let mut stack: Vec<(usize, usize)> = Vec::new();
        proof { lemma_count_update(color@, start as int, 1u8, 0u8); }
        let ghost before_color = color@;
        let ghost s_outer = DfsState { color: color@, stack: Seq::empty(), result: result@, start: start as int };
        color.set(start, 1u8);
        stack.push((start, 0));
        proof {
            assert(stack@ =~= seq![(start, 0usize)]);
            lemma_dfs_advance(n as nat, g, s_outer, DfsState { color: color@, stack: stack@, result: result@, start: start as int }, steps);
            steps = steps + 1;
            assert(stack_nodes(stack@) =~= seq![start]);
            assert forall|v: int| 0 <= v < n implies (#[trigger] color@[v] == 1u8 <==> stack_nodes(stack@).contains(v as usize)) by {
                if v != start {
                    assert(color@[v] == before_color[v]);
                    if stack_nodes(stack@).contains(v as usize) {
                        assert(stack_nodes(stack@)[0] == start);
                    }
                } else {
                    assert(stack_nodes(stack@)[0] == start);
                }
            }
            assert forall|v: int| 0 <= v < n implies (#[trigger] color@[v] == 2u8 <==> result@.contains(v as usize)) by {
                if v != start {
                    assert(color@[v] == before_color[v]);
                } else {
                    assert(before_color[v] == 0u8);
                }
            }
        }
        while stack.len() > 0
            invariant
                start < n,
                g == adj@.map_values(|a: Vec<usize>| a@),
                is_graph(n as nat, g),
                color@.len() == n,
                forall|v: int| 0 <= v < n ==> #[trigger] color@[v] == 0u8 || color@[v] == 1u8 || color@[v] == 2u8,
                forall|v: int| 0 <= v < start ==> #[trigger] color@[v] == 2u8,
                stack@.len() == 0 ==> color@[start as int] == 2u8,
                stack@.len() > 0 ==> stack@[0].0 == start,
                forall|v: int| 0 <= v < n ==> (#[trigger] color@[v] == 2u8 <==> result@.contains(v as usize)),
                forall|v: int| 0 <= v < n ==> (#[trigger] color@[v] == 1u8 <==> stack_nodes(stack@).contains(v as usize)),
                stack_nodes(stack@).no_duplicates(),
                forall|k: int| 0 <= k < stack@.len() ==> #[trigger] stack@[k].0 < n && stack@[k].1 <= g[stack@[k].0 as int].len(),
                forall|k: int| 0 <= k < stack@.len() - 1 ==> #[trigger] stack@[k].1 >= 1
                    && g[stack@[k].0 as int][stack@[k].1 - 1] == stack@[k + 1].0,
                forall|k: int, j: int| 0 <= k < stack@.len() && 0 <= j < stack@[k].1 && !(k < stack@.len() - 1 && j == stack@[k].1 - 1)
                    ==> #[trigger] color@[g[stack@[k].0 as int][j] as int] == 2u8,
                forall|a: int| 0 <= a < result@.len() ==> #[trigger] result@[a] < n,
                result@.no_duplicates(),
                forall|b: int| 0 <= b < result@.len() ==> #[trigger] deps_before(result@, b, g),
                forall|u: int, j: int| 0 <= u < n && color@[u] == 2u8 && 0 <= j < g[u].len() ==> #[trigger] color@[g[u][j] as int] == 2u8,
                no_edges ==> forall|u: int| 0 <= u < n ==> #[trigger] g[u].len() == 0,
                no_edges && stack@.len() > 0 ==> stack@ == seq![(start, 0usize)] && result@ == node_range(start as nat),
                no_edges && stack@.len() == 0 ==> result@ == node_range((start + 1) as nat),
                dfs_reached(n as nat, g, DfsState { color: color@, stack: stack@, result: result@, start: start as int }, steps),
            decreases count_eq(color@, 0u8), stack@.len(), if stack@.len() > 0 { g[stack@.last().0 as int].len() - stack@.last().1 } else { 0 },
        {
            let ghost s0 = DfsState { color: color@, stack: stack@, result: result@, start: start as int };
            let top = stack.len() - 1;
            let (node, next) = stack[top];
            let deps = &adj[node];
            assert(deps@ == g[node as int]);
            assert(no_edges ==> deps@.len() == 0);
            if next < deps.len() {
                let dep = deps[next];
                let ghost old_stack = stack@;
                stack.set(top, (node, next + 1));
                assert(stack_nodes(stack@) =~= stack_nodes(old_stack));
                if color[dep] == 2u8 {
                    // already done
                    proof {
                        lemma_dfs_advance(n as nat, g, s0, DfsState { color: color@, stack: stack@, result: result@, start: start as int }, steps);
                        steps = steps + 1;
                    }
                } else if color[dep] == 1u8 {
                    // back edge: the stack path followed by `dep` closes a cycle
                    let mut walk: Vec<usize> = Vec::new();
                    let mut k: usize = 0;
                    while k < stack.len()
                        invariant
                            k <= stack@.len(),
                            walk@ == stack_nodes(stack@).subrange(0, k as int),
                        decreases stack@.len() - k,
                    {
                        walk.push(stack[k].0);
                        assert(walk@ =~= stack_nodes(stack@).subrange(0, k + 1));
                        k = k + 1;
                    }
                    walk.push(dep);
                    proof {
                        let sn = stack_nodes(stack@);
                        assert(walk@ =~= sn.push(dep));
                        assert(sn.contains(dep));
                        let q = choose|q: int| 0 <= q < sn.len() && sn[q] == dep;
                        assert(walk@[q] == walk@.last());
                        assert forall|m: int| 0 <= m < walk@.len() - 1 implies g[walk@[m] as int].contains(#[trigger] walk@[m + 1]) by {
                            if m < stack@.len() - 1 {
                                assert(stack@[m].1 >= 1);
                                assert(g[stack@[m].0 as int][stack@[m].1 - 1] == stack@[m + 1].0);
                            } else {
                                assert(g[node as int][next as int] == dep);
                            }
                        }
                        assert forall|m: int| 0 <= m < walk@.len() implies #[trigger] walk@[m] < n by {
                            if m < stack@.len() {
                                assert(stack@[m].0 < n);
                            }
                        }
                    }
                    proof {
                        assert(dfs_step(n as nat, g, s0) == DfsStep::Cycle(walk@));
                        lemma_dfs_done(n as nat, g, s0, steps, Err(walk@));
                    }
                    return Err(walk);
                } else {
                    proof { lemma_count_update(color@, dep as int, 1u8, 0u8); }
                    let ghost pre_color = color@;
                    color.set(dep, 1u8);
                    let ghost mid = stack@;
                    stack.push((dep, 0));
                    proof {
                        assert(stack_nodes(stack@) =~= stack_nodes(mid).push(dep));
                        assert(!stack_nodes(mid).contains(dep));
                        lemma_gray_push(pre_color, color@, stack_nodes(mid), stack_nodes(stack@), dep, n as nat);
                        lemma_dfs_advance(n as nat, g, s0, DfsState { color: color@, stack: stack@, result: result@, start: start as int }, steps);
                        steps = steps + 1;
                    }
                }
            } else {
                let ghost old_stack = stack@;
                let ghost old_result = result@;
                let ghost old_color = color@;
                proof {
                    lemma_count_update(color@, node as int, 2u8, 0u8);
                    assert(stack_nodes(old_stack)[top as int] == node);
                    assert(stack_nodes(old_stack).contains(node));
                    assert(old_color[node as int] == 1u8);
                }
                color.set(node, 2u8);
                result.push(node);
                stack.pop();
                proof {
                    if no_edges {
                        assert(result@ =~= node_range((start + 1) as nat));
                    }
                    assert(stack@ =~= old_stack.drop_last());
                    lemma_dfs_advance(n as nat, g, s0, DfsState { color: color@, stack: stack@, result: result@, start: start as int }, steps);
                    steps = steps + 1;
                    assert(stack_nodes(stack@) =~= stack_nodes(old_stack).drop_last());
                    assert(stack_nodes(old_stack).last() == node);
                    assert(!old_result.contains(node));
                    assert forall|v: int| 0 <= v < n implies (#[trigger] color@[v] == 2u8 <==> result@.contains(v as usize)) by {
                        if v != node as int {
                            assert(color@[v] == old_color[v]);
                            assert(result@ =~= old_result.push(node));
                            if result@.contains(v as usize) {
                                let a = choose|a: int| 0 <= a < result@.len() && result@[a] == v as usize;
                                assert(a < old_result.len());
                                assert(old_result[a] == v as usize);
                            }
                            if old_result.contains(v as usize) {
                                let a = choose|a: int| 0 <= a < old_result.len() && old_result[a] == v as usize;
                                assert(result@[a] == v as usize);
                            }
                        } else {
                            assert(result@[old_result.len() as int] == node);
                        }
                    }
                    assert forall|v: int| 0 <= v < n implies (#[trigger] color@[v] == 1u8 <==> stack_nodes(stack@).contains(v as usize)) by {
                        let so = stack_nodes(old_stack);
                        if v != node as int {
                            assert(color@[v] == old_color[v]);
                            if so.contains(v as usize) {
                                let k = choose|k: int| 0 <= k < so.len() && so[k] == v as usize;
                                assert(k != top as int);
                                assert(stack_nodes(stack@)[k] == v as usize);
                            }
                            if stack_nodes(stack@).contains(v as usize) {
                                let k = choose|k: int| 0 <= k < stack_nodes(stack@).len() && stack_nodes(stack@)[k] == v as usize;
                                assert(so[k] == v as usize);
                            }
                        } else {
                            if stack_nodes(stack@).contains(v as usize) {
                                let k = choose|k: int| 0 <= k < stack_nodes(stack@).len() && stack_nodes(stack@)[k] == v as usize;
                                assert(so[k] == node);
                                assert(so[top as int] == node);
                            }
                        }
                    }
                    assert(result@ =~= old_result.push(node));
                    assert(deps_before(result@, old_result.len() as int, g)) by {
                        assert(result@[old_result.len() as int] == node);
                        assert forall|j: int| 0 <= j < g[node as int].len() implies #[trigger] occurs_before(result@, old_result.len() as int, g[node as int][j]) by {
                            assert(color@[g[node as int][j] as int] == 2u8);
                            let v = g[node as int][j];
                            assert(old_color[v as int] == 2u8);
                            assert(old_result.contains(v));
                            let a = choose|a: int| 0 <= a < old_result.len() && old_result[a] == v;
                            assert(result@[a] == v);
                        }
                    }
                    assert forall|b: int| 0 <= b < result@.len() implies #[trigger] deps_before(result@, b, g) by {
                        if b < old_result.len() {
                            lemma_deps_before_extend(old_result, node, b, g);
                        }
                    }
                    assert forall|k: int, j: int| 0 <= k < stack@.len() && 0 <= j < stack@[k].1 && !(k < stack@.len() - 1 && j == stack@[k].1 - 1)
                        implies #[trigger] color@[g[stack@[k].0 as int][j] as int] == 2u8 by {
                        assert(stack@[k] == old_stack[k]);
                        if k == stack@.len() - 1 && j == stack@[k].1 - 1 {
                            assert(g[old_stack[k].0 as int][old_stack[k].1 - 1] == old_stack[k + 1].0);
                        }
                    }
                }
            }
        }
        proof {
            assert(stack@ =~= Seq::<(usize, usize)>::empty());
            lemma_dfs_advance(n as nat, g, DfsState { color: color@, stack: Seq::empty(), result: result@, start: start as int },
                DfsState { color: color@, stack: Seq::empty(), result: result@, start: start + 1 }, steps);
            steps = steps + 1;
        }
        start = start + 1;
    }
    proof {
        lemma_dfs_done(n as nat, g, DfsState { color: color@, stack: Seq::empty(), result: result@, start: start as int }, steps, Ok(result@));
        assert forall|v: usize| (v as int) < n implies #[trigger] result@.contains(v) by {
            assert(color@[v as int] == 2u8);
        }
        lemma_perm_len(n as nat, result@);
    }
    assert(no_edges ==> forall|u: int| 0 <= u < n ==> #[trigger] adj@[u]@.len() == 0);
    Ok(result)
}

/// Marking a white node gray and pushing it keeps gray nodes and stack nodes in step.
proof fn lemma_gray_push(c0: Seq<u8>, c1: Seq<u8>, s0: Seq<usize>, s1: Seq<usize>, d: usize, n: nat)
    requires
        n <= usize::MAX,
        c0.len() == n,
        (d as int) < n,
        c1 == c0.update(d as int, 1u8),
        s1 == s0.push(d),
        c0[d as int] == 0u8,
        forall|v: int| 0 <= v < n ==> (#[trigger] c0[v] == 1u8 <==> s0.contains(v as usize)),
    ensures
        forall|v: int| 0 <= v < n ==> (#[trigger] c1[v] == 1u8 <==> s1.contains(v as usize)),
{
    assert forall|v: int| 0 <= v < n implies (#[trigger] c1[v] == 1u8 <==> s1.contains(v as usize)) by {
        if v == d as int {
            assert(s1[s0.len() as int] == d);
        } else {
            assert(c1[v] == c0[v]);
            if s1.contains(v as usize) {
                let k = choose|k: int| 0 <= k < s1.len() && s1[k] == v as usize;
                assert(s1[s0.len() as int] == d);
                assert(k < s0.len());
                assert(s0[k] == v as usize);
            }
            if s0.contains(v as usize) {
                let k = choose|k: int| 0 <= k < s0.len() && s0[k] == v as usize;
                assert(s1[k] == v as usize);
            }
        }
    }
}

/// A duplicate-free list of nodes below `n` that contains each of them has length `n`.
proof fn lemma_perm_len(n: nat, s: Seq<usize>)
    requires
        n <= usize::MAX,
        s.no_duplicates(),
        forall|a: int| 0 <= a < s.len() ==> #[trigger] s[a] < n,
        forall|v: usize| (v as int) < n ==> #[trigger] s.contains(v),
    ensures
        s.len() == n,
{
    let ss = s.to_set();
    let full = Set::new(|v: usize| (v as int) < n);
    assert(ss =~= full) by {
        assert forall|v: usize| ss.contains(v) <==> full.contains(v) by {
            if (v as int) < n {
                assert(s.contains(v));
            }
        }
    }
    s.unique_seq_to_set();
    lemma_range_set_len(n);
}

/// The set of `usize` values below `n` has `n` elements.
proof fn lemma_range_set_len(n: nat)
    requires
        n <= usize::MAX + 1,
    ensures
        Set::new(|v: usize| (v as int) < n).finite(),
        Set::new(|v: usize| (v as int) < n).len() == n,
    decreases n,
{
    let s = Set::new(|v: usize| (v as int) < n);
    if n == 0 {
        assert(s =~= Set::empty());
    } else {
        lemma_range_set_len((n - 1) as nat);
        let t = Set::new(|v: usize| (v as int) < n - 1);
        let last = (n - 1) as usize;
        assert(s =~= t.insert(last));
        assert(!t.contains(last));
    }
}


// ---------------------------------------------------------------------------
// Resolution
// ---------------------------------------------------------------------------

/// Errors produced by the resolver.
#[derive(Debug, PartialEq)]
pub enum ResolverError {
    /// A component listed in the desired set is not present in the Component Index.
    ComponentNotFound { id: String },
    /// An explicit `dep.depends` entry points to a component not in the desired set.
    MissingDependency { dependent: String, dependency: String },
    /// A dependency cycle was detected; install order cannot be determined.
    Cycle { cycle: String },
}

impl ResolverError {
    /// The message of each error.
    pub open spec fn message_spec(&self) -> Seq<char> {
        match self {
            ResolverError::ComponentNotFound { id } => "component '"@ + id@ + "' is not present in the Component Index"@,
            ResolverError::MissingDependency { dependent, dependency } =>
                "component '"@ + dependent@ + "' depends on '"@ + dependency@ + "', but '"@ + dependency@ + "' is not in the desired set"@,
            ResolverError::Cycle { cycle } => "dependency cycle detected: "@ + cycle@,
        }
    }

    /// The human-readable message.
    pub fn message(&self) -> (r: String)
        ensures
            r@ == self.message_spec(),
    {
        match self {
            ResolverError::ComponentNotFound { id } => {
                let parts = vec!["component '", id.as_str(), "' is not present in the Component Index"];
                let r = crate::text::concat_all(&parts);
                proof {
                    reveal_with_fuel(crate::text::concat_seq, 4);
                    assert(parts@.map_values(|p: &str| p@) =~= seq!["component '"@, id@, "' is not present in the Component Index"@]);
                }
                r
            },
            ResolverError::MissingDependency { dependent, dependency } => {
                let parts = vec!["component '", dependent.as_str(), "' depends on '", dependency.as_str(), "', but '", dependency.as_str(), "' is not in the desired set"];
                let r = crate::text::concat_all(&parts);
                proof {
                    reveal_with_fuel(crate::text::concat_seq, 8);
                    assert(parts@.map_values(|p: &str| p@) =~= seq!["component '"@, dependent@, "' depends on '"@, dependency@, "', but '"@, dependency@, "' is not in the desired set"@]);
                }
                r
            },
            ResolverError::Cycle { cycle } => crate::text::concat2("dependency cycle detected: ", cycle.as_str()),
        }
    }
}

/// The ids of the desired components.
pub open spec fn desired_ids(desired: Seq<CanonicalComponentId>) -> Seq<Seq<char>> {
    desired.map_values(|c: CanonicalComponentId| c@)
}

/// The metadata of component `u`.
pub open spec fn meta_of(ci: &ComponentIndex, u: Seq<char>) -> ComponentMeta {
    ci.components@[u]
}

/// Whether desired component `i` is absent from the index.
pub open spec fn not_found_pred(ci: &ComponentIndex, d: Seq<Seq<char>>) -> spec_fn(int) -> bool {
    |i: int| !ci.components@.contains_key(d[i])
}

/// Whether dependency `j` of component `u` is outside the desired set.
pub open spec fn outside_pred(ci: &ComponentIndex, d: Seq<Seq<char>>, u: Seq<char>) -> spec_fn(int) -> bool {
    |j: int| !d.contains(meta_of(ci, u).dep.depends@[j]@)
}

/// Whether desired component `i` depends on a component outside the desired set.
pub open spec fn missing_pred(ci: &ComponentIndex, d: Seq<Seq<char>>) -> spec_fn(int) -> bool {
    |i: int| first_where(meta_of(ci, d[i]).dep.depends@.len(), outside_pred(ci, d, d[i])) is Some
}

/// Whether component `v` provides a capability that component `u` requires.
pub open spec fn serves(ci: &ComponentIndex, u: Seq<char>, v: Seq<char>) -> bool {
    exists|r: int, c: int| 0 <= r < meta_of(ci, u).dep.requires@.len() && 0 <= c < meta_of(ci, v).dep.provides@.len()
        && #[trigger] meta_of(ci, u).dep.requires@[r].name@ == #[trigger] meta_of(ci, v).dep.provides@[c].name@
}

/// Whether component `u` must come after component `v`: `v` is desired and
/// either listed in `u`'s `depends` or, being another component, provides a
/// capability `u` requires.
pub open spec fn dep_edge(ci: &ComponentIndex, d: Seq<Seq<char>>, u: Seq<char>, v: Seq<char>) -> bool {
    d.contains(v) && (meta_of(ci, u).dep.depends@.map_values(|x: String| x@).contains(v) || (v != u && serves(ci, u, v)))
}

/// Whether `w` walks along dependency edges and returns to a component it visited.
pub open spec fn is_dep_cycle(ci: &ComponentIndex, d: Seq<Seq<char>>, w: Seq<Seq<char>>) -> bool {
    &&& w.len() >= 2
    &&& forall|k: int| 0 <= k < w.len() - 1 ==> dep_edge(ci, d, #[trigger] w[k], w[k + 1])
    &&& exists|k: int| 0 <= k < w.len() - 1 && w[k] == w.last()
}

/// Whether `order` lists the desired components once each, each after all its dependencies.
pub open spec fn is_dep_order(ci: &ComponentIndex, d: Seq<Seq<char>>, order: Seq<Seq<char>>) -> bool {
    &&& order.no_duplicates()
    &&& forall|v: Seq<char>| #[trigger] order.contains(v) <==> d.contains(v)
    &&& forall|b: int, v: Seq<char>| 0 <= b < order.len() && #[trigger] dep_edge(ci, d, order[b], v) ==>
        exists|a: int| 0 <= a < b && order[a] == v
}

/// The separator between cycle members in messages.
pub open spec fn arrow() -> Seq<char> {
    " → "@
}


/// Whether `s` is a desired component id.
fn desired_contains(desired: &Vec<CanonicalComponentId>, s: &str) -> (r: bool)
    ensures
        r == desired_ids(desired@).contains(s@),
{
    let ghost d = desired_ids(desired@);
    let mut i: usize = 0;
    while i < desired.len()
        invariant
            i <= desired.len(),
            d == desired_ids(desired@),
            forall|j: int| 0 <= j < i ==> d[j] != s@,
        decreases desired.len() - i,
    {
        if eq_str(desired[i].as_str(), s) {
            assert(d[i as int] == s@);
            return true;
        }
        i = i + 1;
    }
    false
}

/// Whether component `v` provides capability `name`.
pub open spec fn provides_name(ci: &ComponentIndex, v: Seq<char>, name: Seq<char>) -> bool {
    exists|c: int| 0 <= c < meta_of(ci, v).dep.provides@.len() && #[trigger] meta_of(ci, v).dep.provides@[c].name@ == name
}

/// Whether `meta` provides capability `name`.
fn provides_cap(meta: &ComponentMeta, name: &str) -> (r: bool)
    ensures
        r == exists|c: int| 0 <= c < meta.dep.provides@.len() && #[trigger] meta.dep.provides@[c].name@ == name@,
{
    let mut c: usize = 0;
    while c < meta.dep.provides.len()
        invariant
            c <= meta.dep.provides@.len(),
            forall|k: int| 0 <= k < c ==> meta.dep.provides@[k].name@ != name@,
        decreases meta.dep.provides@.len() - c,
    {
        if eq_str(meta.dep.provides[c].name.as_str(), name) {
            return true;
        }
        c = c + 1;
    }
    false
}

/// Facts about the node map shared by the successor computations.
pub open spec fn node_map_ok(ci: &ComponentIndex, d: Seq<Seq<char>>, pos: &StrMap<usize>) -> bool {
    &&& forall|k: Seq<char>| #[trigger] pos@.contains_key(k) <==> d.contains(k)
    &&& forall|i: int| 0 <= i < d.len() ==> ci.components@.contains_key(#[trigger] d[i])
    &&& pos.keys().no_duplicates()
    &&& pos.keys().len() <= usize::MAX
    &&& forall|x: int| 0 <= x < pos.keys().len() ==> #[trigger] pos@.contains_key(pos.keys()[x])
}

/// The nodes of `meta`'s `depends` entries, in order.
fn depends_nodes(ci: &ComponentIndex, d: Ghost<Seq<Seq<char>>>, pos: &StrMap<usize>, meta: &ComponentMeta) -> (r: Vec<usize>)
    requires
        node_map_ok(ci, d@, pos),
        forall|t: int| 0 <= t < meta.dep.depends@.len() ==> d@.contains(#[trigger] meta.dep.depends@[t]@),
    ensures
        r@.len() == meta.dep.depends@.len(),
        forall|t: int| 0 <= t < r@.len() ==> #[trigger] r@[t] < pos.keys().len() && pos.keys()[r@[t] as int] == meta.dep.depends@[t]@,
{
    let mut out: Vec<usize> = Vec::new();
    let mut j: usize = 0;
    while j < meta.dep.depends.len()
        invariant
            j <= meta.dep.depends@.len(),
            node_map_ok(ci, d@, pos),
            forall|t: int| 0 <= t < meta.dep.depends@.len() ==> d@.contains(#[trigger] meta.dep.depends@[t]@),
            out@.len() == j,
            forall|t: int| 0 <= t < j ==> #[trigger] out@[t] < pos.keys().len() && pos.keys()[out@[t] as int] == meta.dep.depends@[t]@,
        decreases meta.dep.depends@.len() - j,
    {
        let name = meta.dep.depends[j].as_str();
        assert(d@.contains(meta.dep.depends@[j as int]@));
        match pos.index_of(name) {
            Some(x) => { out.push(x); },
            None => { proof { assert(pos@.contains_key(name@)); } },
        }
        j = j + 1;
    }
    out
}

/// The nodes of the components of `d` other than `ku` providing `name`, in desired order.
pub open spec fn provider_list(ci: &ComponentIndex, d: Seq<Seq<char>>, keys: Seq<Seq<char>>, ku: Seq<char>, name: Seq<char>) -> Seq<usize>
    decreases d.len(),
{
    if d.len() == 0 {
        Seq::empty()
    } else {
        let rest = provider_list(ci, d.drop_last(), keys, ku, name);
        if d.last() != ku && provides_name(ci, d.last(), name) { rest.push(index_in(keys, d.last())) } else { rest }
    }
}

/// The provider nodes of the first `r` capabilities that `ku` requires, one list after the other.
pub open spec fn required_providers(ci: &ComponentIndex, d: Seq<Seq<char>>, keys: Seq<Seq<char>>, ku: Seq<char>, r: nat) -> Seq<usize>
    decreases r,
{
    if r == 0 {
        Seq::empty()
    } else {
        required_providers(ci, d, keys, ku, (r - 1) as nat) + provider_list(ci, d, keys, ku, meta_of(ci, ku).dep.requires@[r - 1].name@)
    }
}

/// The successor list of component `ku`: the nodes of its `depends` entries,
/// then, for each capability it requires in turn, the nodes of the other
/// desired components providing it, in desired order.
pub open spec fn succ_list(ci: &ComponentIndex, d: Seq<Seq<char>>, keys: Seq<Seq<char>>, ku: Seq<char>) -> Seq<usize> {
    meta_of(ci, ku).dep.depends@.map_values(|x: String| index_in(keys, x@))
        + required_providers(ci, d, keys, ku, meta_of(ci, ku).dep.requires@.len())
}

/// The nodes of the desired components other than `ku` providing `name`, in desired order.
fn provider_nodes(ci: &ComponentIndex, desired: &Vec<CanonicalComponentId>, pos: &StrMap<usize>, ku: &str, name: &str) -> (r: Vec<usize>)
    requires
        node_map_ok(ci, desired_ids(desired@), pos),
    ensures
        forall|t: int| 0 <= t < r@.len() ==> #[trigger] r@[t] < pos.keys().len() && pos.keys()[r@[t] as int] != ku@
            && provides_name(ci, pos.keys()[r@[t] as int], name@) && desired_ids(desired@).contains(pos.keys()[r@[t] as int]),
        forall|i: int| 0 <= i < desired@.len() && desired_ids(desired@)[i] != ku@ && provides_name(ci, desired_ids(desired@)[i], name@)
            ==> r@.contains(index_in(pos.keys(), #[trigger] desired_ids(desired@)[i])),
        r@ == provider_list(ci, desired_ids(desired@), pos.keys(), ku@, name@),
{
    let ghost d = desired_ids(desired@);
    assert(d.subrange(0, 0) =~= Seq::<Seq<char>>::empty());
    let mut out: Vec<usize> = Vec::new();
    let mut i: usize = 0;
    while i < desired.len()
        invariant
            i <= desired@.len(),
            d == desired_ids(desired@),
            node_map_ok(ci, d, pos),
            forall|t: int| 0 <= t < out@.len() ==> #[trigger] out@[t] < pos.keys().len() && pos.keys()[out@[t] as int] != ku@
                && provides_name(ci, pos.keys()[out@[t] as int], name@) && d.contains(pos.keys()[out@[t] as int]),
            forall|i2: int| 0 <= i2 < i && d[i2] != ku@ && provides_name(ci, d[i2], name@) ==> out@.contains(index_in(pos.keys(), #[trigger] d[i2])),
            out@ == provider_list(ci, d.subrange(0, i as int), pos.keys(), ku@, name@),
        decreases desired@.len() - i,
    {
        assert(d.subrange(0, i + 1).drop_last() =~= d.subrange(0, i as int));
        assert(d.subrange(0, i + 1).last() == d[i as int]);
        let p = desired[i].as_str();
        assert(d[i as int] == p@);
        if !eq_str(p, ku) {
            assert(ci.components@.contains_key(d[i as int]));
            let pm = match ci.components.get(p) {
                Some(m) => m,
                None => { proof { assert(false); } return out; },
            };
            if provides_cap(pm, name) {
                match pos.index_of(p) {
                    Some(x) => {
                        let ghost before = out@;
                        proof {
                            lemma_index_in(pos.keys(), x as int, p@);
                            assert(d.contains(p@));
                        }
                        out.push(x);
                        proof {
                            assert forall|i2: int| 0 <= i2 < i + 1 && d[i2] != ku@ && provides_name(ci, d[i2], name@)
                                implies out@.contains(index_in(pos.keys(), #[trigger] d[i2])) by {
                                if i2 < i {
                                    let t = choose|t: int| 0 <= t < before.len() && before[t] == index_in(pos.keys(), d[i2]);
                                    assert(out@[t] == before[t]);
                                } else {
                                    assert(out@[before.len() as int] == x);
                                }
                            }
                        }
                    },
                    None => { proof { assert(d.contains(p@)); } },
                }
            }
        }
        i = i + 1;
    }
    assert(d.subrange(0, d.len() as int) =~= d);
    out
}

/// The successors of node `u`: its `depends` entries, then, for each required
/// capability in turn, every other desired component providing it (in desired order).
fn successors(ci: &ComponentIndex, desired: &Vec<CanonicalComponentId>, pos: &StrMap<usize>, u: usize) -> (r: Vec<usize>)
    requires
        u < pos.keys().len(),
        node_map_ok(ci, desired_ids(desired@), pos),
        forall|i: int| #![trigger desired_ids(desired@)[i]] 0 <= i < desired@.len() ==>
            first_where(meta_of(ci, desired_ids(desired@)[i]).dep.depends@.len(), outside_pred(ci, desired_ids(desired@), desired_ids(desired@)[i])) is None,
    ensures
        forall|j: int| 0 <= j < r@.len() ==> #[trigger] r@[j] < pos.keys().len(),
        forall|x: int| 0 <= x < pos.keys().len() ==> (r@.contains(x as usize) <==> dep_edge(ci, desired_ids(desired@), pos.keys()[u as int], #[trigger] pos.keys()[x])),
        r@ == succ_list(ci, desired_ids(desired@), pos.keys(), pos.keys()[u as int]),
{
    let ghost d = desired_ids(desired@);
    let key = pos.key_at(u);
    let ghost ku = key@;
    assert(pos@.contains_key(ku));
    let meta = match ci.components.get(key.as_str()) {
        Some(m) => m,
        None => {
            proof {
                let i = choose|i: int| 0 <= i < d.len() && d[i] == ku;
                assert(ci.components@.contains_key(d[i]));
            }
            return Vec::new();
        },
    };
    proof {
        let i = choose|i: int| 0 <= i < d.len() && d[i] == ku;
        assert(first_where(meta.dep.depends@.len(), outside_pred(ci, d, ku)) is None);
        crate::text::lemma_first_where(meta.dep.depends@.len(), outside_pred(ci, d, ku));
        assert forall|t: int| 0 <= t < meta.dep.depends@.len() implies d.contains(#[trigger] meta.dep.depends@[t]@) by {
            assert(!outside_pred(ci, d, ku)(t));
        }
    }
    let mut out = depends_nodes(ci, Ghost(d), pos, meta);
    let ghost n_deps = out@.len();
    let ghost dep_part = meta.dep.depends@.map_values(|x: String| index_in(pos.keys(), x@));
    proof {
        assert forall|t: int| 0 <= t < n_deps implies out@[t] == dep_part[t] by {
            lemma_index_in(pos.keys(), out@[t] as int, meta.dep.depends@[t]@);
        }
        assert(out@ =~= dep_part + required_providers(ci, d, pos.keys(), ku, 0));
    }
    let mut r: usize = 0;
    while r < meta.dep.requires.len()
        invariant
            r <= meta.dep.requires@.len(),
            d == desired_ids(desired@),
            node_map_ok(ci, d, pos),
            *meta == meta_of(ci, ku),
            ku == key@,
            n_deps == meta.dep.depends@.len(),
            n_deps <= out@.len(),
            dep_part == meta.dep.depends@.map_values(|x: String| index_in(pos.keys(), x@)),
            out@ == dep_part + required_providers(ci, d, pos.keys(), ku, r as nat),
            forall|t: int| 0 <= t < n_deps ==> #[trigger] out@[t] < pos.keys().len() && pos.keys()[out@[t] as int] == meta.dep.depends@[t]@,
            forall|t: int| n_deps <= t < out@.len() ==> #[trigger] out@[t] < pos.keys().len() && pos.keys()[out@[t] as int] != ku
                && serves(ci, ku, pos.keys()[out@[t] as int]) && d.contains(pos.keys()[out@[t] as int]),
            forall|rr: int, i: int| 0 <= rr < r && 0 <= i < d.len() && d[i] != ku && #[trigger] provides_name(ci, d[i], meta.dep.requires@[rr].name@)
                ==> out@.contains(index_in(pos.keys(), d[i])),
        decreases meta.dep.requires@.len() - r,
    {
        let more = provider_nodes(ci, desired, pos, key.as_str(), meta.dep.requires[r].name.as_str());
        let ghost before = out@;
        let mut k: usize = 0;
        while k < more.len()
            invariant
                k <= more@.len(),
                r < meta.dep.requires@.len(),
                n_deps <= before.len(),
                out@ == before + more@.subrange(0, k as int),
            decreases more@.len() - k,
        {
            out.push(more[k]);
            assert(out@ =~= before + more@.subrange(0, k + 1));
            k = k + 1;
        }
        proof {
            assert(more@.subrange(0, more@.len() as int) =~= more@);
            assert(out@ =~= dep_part + required_providers(ci, d, pos.keys(), ku, (r + 1) as nat));
            assert forall|t: int| n_deps <= t < out@.len() implies #[trigger] out@[t] < pos.keys().len() && pos.keys()[out@[t] as int] != ku
                && serves(ci, ku, pos.keys()[out@[t] as int]) && d.contains(pos.keys()[out@[t] as int]) by {
                if t >= before.len() {
                    let m = t - before.len();
                    assert(out@[t] == more@[m]);
                    let v = pos.keys()[more@[m] as int];
                    assert(provides_name(ci, v, meta.dep.requires@[r as int].name@));
                    let c = choose|c: int| 0 <= c < meta_of(ci, v).dep.provides@.len() && #[trigger] meta_of(ci, v).dep.provides@[c].name@ == meta.dep.requires@[r as int].name@;
                    assert(meta_of(ci, ku).dep.requires@[r as int].name@ == meta_of(ci, v).dep.provides@[c].name@);
                } else {
                    assert(out@[t] == before[t]);
                }
            }
            assert forall|t: int| 0 <= t < n_deps implies #[trigger] out@[t] < pos.keys().len() && pos.keys()[out@[t] as int] == meta.dep.depends@[t]@ by {
                assert(out@[t] == before[t]);
            }
            assert forall|rr: int, i: int| 0 <= rr < r + 1 && 0 <= i < d.len() && d[i] != ku && #[trigger] provides_name(ci, d[i], meta.dep.requires@[rr].name@)
                implies out@.contains(index_in(pos.keys(), d[i])) by {
                if rr < r {
                    let t = choose|t: int| 0 <= t < before.len() && before[t] == index_in(pos.keys(), d[i]);
                    assert(out@[t] == before[t]);
                } else {
                    let t = choose|t: int| 0 <= t < more@.len() && more@[t] == index_in(pos.keys(), d[i]);
                    assert(out@[before.len() + t] == more@[t]);
                }
            }
        }
        r = r + 1;
    }
    proof {
        let keys = pos.keys();
        let deps = meta.dep.depends@.map_values(|x: String| x@);
        assert forall|x: int| 0 <= x < keys.len() implies (out@.contains(x as usize) <==> dep_edge(ci, d, keys[u as int], #[trigger] keys[x])) by {
            lemma_index_in(keys, x, keys[x]);
            assert(pos@.contains_key(pos.keys()[x]));
            assert(d.contains(keys[x]));
            if out@.contains(x as usize) {
                let t = choose|t: int| 0 <= t < out@.len() && out@[t] == x as usize;
                if t < n_deps {
                    assert(deps[t] == keys[x]);
                    assert(deps.contains(keys[x]));
                }
            }
            if dep_edge(ci, d, keys[u as int], keys[x]) {
                if deps.contains(keys[x]) {
                    let t = choose|t: int| 0 <= t < deps.len() && deps[t] == keys[x];
                    assert(keys[out@[t] as int] == keys[x]);
                    lemma_index_in(keys, out@[t] as int, keys[x]);
                    assert(out@[t] == x as usize);
                } else {
                    assert(serves(ci, ku, keys[x]));
                    let (rr, c) = choose|rr: int, c: int| 0 <= rr < meta_of(ci, ku).dep.requires@.len() && 0 <= c < meta_of(ci, keys[x]).dep.provides@.len()
                        && #[trigger] meta_of(ci, ku).dep.requires@[rr].name@ == #[trigger] meta_of(ci, keys[x]).dep.provides@[c].name@;
                    let i2 = choose|i2: int| 0 <= i2 < d.len() && d[i2] == keys[x];
                    assert(provides_name(ci, d[i2], meta.dep.requires@[rr].name@));
                    assert(out@.contains(index_in(keys, d[i2])));
                }
            }
        }
    }
    out
}

/// The position of key `k` among `keys` (the first one).
pub open spec fn index_in(keys: Seq<Seq<char>>, k: Seq<char>) -> usize {
    keys.index_of(k) as usize
}

proof fn lemma_index_in(keys: Seq<Seq<char>>, x: int, k: Seq<char>)
    requires
        keys.no_duplicates(),
        0 <= x < keys.len(),
        keys[x] == k,
        keys.len() <= usize::MAX,
    ensures
        index_in(keys, k) == x as usize,
{
    assert(keys.contains(k));
    let y = keys.index_of(k);
    assert(keys[y] == k);
}


/// Whether `succ` lists exactly the successors of node `a`, all below the node count.
pub open spec fn succ_ok(ci: &ComponentIndex, d: Seq<Seq<char>>, keys: Seq<Seq<char>>, a: int, succ: Seq<usize>) -> bool {
    &&& forall|j: int| 0 <= j < succ.len() ==> #[trigger] succ[j] < keys.len()
    &&& forall|x: int| 0 <= x < keys.len() ==> (succ.contains(x as usize) <==> dep_edge(ci, d, keys[a], #[trigger] keys[x]))
}

/// What resolving `d` against `ci` yields: the first desired component missing
/// from the index; else the first dependency outside the desired set; else a
/// cycle; else an order with every component after its dependencies.
pub open spec fn resolve_outcome(ci: &ComponentIndex, d: Seq<Seq<char>>, r: Result<Vec<CanonicalComponentId>, ResolverError>) -> bool {
    match first_where(d.len(), not_found_pred(ci, d)) {
        Some(i) => r matches Err(ResolverError::ComponentNotFound { id }) && id@ == d[i],
        None => match first_where(d.len(), missing_pred(ci, d)) {
            Some(i) => r matches Err(ResolverError::MissingDependency { dependent, dependency })
                && dependent@ == d[i]
                && dependency@ == meta_of(ci, d[i]).dep.depends@[first_where(meta_of(ci, d[i]).dep.depends@.len(), outside_pred(ci, d, d[i]))->0]@,
            None => match r {
                Ok(order) => is_dep_order(ci, d, desired_ids(order@)),
                Err(ResolverError::Cycle { cycle }) => exists|w: Seq<Seq<char>>| is_dep_cycle(ci, d, w) && cycle@ == join_with(w, arrow()),
                _ => false,
            },
        },
    }
}

/// The distinct ids of `d` in ascending order.
pub open spec fn ascending_ids(d: Seq<Seq<char>>) -> Seq<Seq<char>> {
    choose|s: Seq<Seq<char>>| strictly_sorted(s) && forall|k: Seq<char>| #[trigger] s.contains(k) <==> d.contains(k)
}

/// The dependency graph of the desired components `d`, each numbered by its
/// position in ascending id order and listing its successors in `succ_list` order.
pub open spec fn dep_graph(ci: &ComponentIndex, d: Seq<Seq<char>>) -> Seq<Seq<usize>> {
    Seq::new(ascending_ids(d).len(), |u: int| succ_list(ci, d, ascending_ids(d), ascending_ids(d)[u]))
}

/// The ids of a list of nodes.
pub open spec fn node_ids(keys: Seq<Seq<char>>, nodes: Seq<usize>) -> Seq<Seq<char>> {
    nodes.map_values(|x: usize| keys[x as int])
}

/// The depth-first search of the dependency graph of `d`, trying components
/// in ascending id order: the postorder as ids, or the ids of the walk that
/// closes the first cycle met.
pub open spec fn dfs_ids(ci: &ComponentIndex, d: Seq<Seq<char>>) -> Result<Seq<Seq<char>>, Seq<Seq<char>>> {
    match dfs_outcome(ascending_ids(d).len(), dep_graph(ci, d)) {
        Ok(o) => Ok(node_ids(ascending_ids(d), o)),
        Err(w) => Err(node_ids(ascending_ids(d), w)),
    }
}

/// Two strictly sorted lists with the same elements are the same list.
proof fn lemma_sorted_unique(s1: Seq<Seq<char>>, s2: Seq<Seq<char>>)
    requires
        strictly_sorted(s1),
        strictly_sorted(s2),
        forall|k: Seq<char>| s1.contains(k) <==> s2.contains(k),
    ensures
        s1 == s2,
    decreases s1.len(),
{
    if s1.len() == 0 {
        if s2.len() > 0 {
            assert(s2.contains(s2[0]));
        }
        assert(s1 =~= s2);
    } else {
        assert(s1.contains(s1[0]));
        assert(s2.len() > 0);
        assert(s2.contains(s2[0]));
        let a = s1[0];
        let b = s2[0];
        if a != b {
            let j = choose|j: int| 0 <= j < s1.len() && s1[j] == b;
            let i = choose|i: int| 0 <= i < s2.len() && s2[i] == a;
            assert(j > 0 && i > 0);
            assert(seq_lt(s1[0], s1[j]));
            assert(seq_lt(s2[0], s2[i]));
            lemma_seq_lt_asymmetric(a, b);
        }
        let t1 = s1.drop_first();
        let t2 = s2.drop_first();
        assert forall|k: Seq<char>| t1.contains(k) <==> t2.contains(k) by {
            if t1.contains(k) {
                let x = choose|x: int| 0 <= x < t1.len() && t1[x] == k;
                assert(s1[x + 1] == k);
                assert(seq_lt(s1[0], s1[x + 1]));
                lemma_seq_lt_irreflexive(k);
                assert(s2.contains(k));
                let y = choose|y: int| 0 <= y < s2.len() && s2[y] == k;
                assert(y > 0);
                assert(t2[y - 1] == k);
            }
            if t2.contains(k) {
                let x = choose|x: int| 0 <= x < t2.len() && t2[x] == k;
                assert(s2[x + 1] == k);
                assert(seq_lt(s2[0], s2[x + 1]));
                lemma_seq_lt_irreflexive(k);
                assert(s1.contains(k));
                let y = choose|y: int| 0 <= y < s1.len() && s1[y] == k;
                assert(y > 0);
                assert(t1[y - 1] == k);
            }
        }
        assert(strictly_sorted(t1)) by {
            assert forall|i: int, j: int| 0 <= i < j < t1.len() implies seq_lt(#[trigger] t1[i], #[trigger] t1[j]) by {
                assert(t1[i] == s1[i + 1] && t1[j] == s1[j + 1]);
            }
        }
        assert(strictly_sorted(t2)) by {
            assert forall|i: int, j: int| 0 <= i < j < t2.len() implies seq_lt(#[trigger] t2[i], #[trigger] t2[j]) by {
                assert(t2[i] == s2[i + 1] && t2[j] == s2[j + 1]);
            }
        }
        lemma_sorted_unique(t1, t2);
        assert(s1 =~= seq![a] + t1);
        assert(s2 =~= seq![b] + t2);
    }
}

/// Whether no desired component has to come after another one.
pub open spec fn no_dep_edges(ci: &ComponentIndex, d: Seq<Seq<char>>) -> bool {
    forall|u: Seq<char>, v: Seq<char>| d.contains(u) ==> !#[trigger] dep_edge(ci, d, u, v)
}

/// Resolve the dependency order of `desired_components` using `component_index`.
///
/// Fails when a desired component is not in the index, when an explicit
/// dependency is not desired, or when the dependencies form a cycle. A
/// required capability with no desired provider adds no ordering constraint.
/// Otherwise returns each desired component once, every component after all
/// of its dependencies: the depth-first postorder of the dependency graph,
/// starting from the components in ascending id order and following each
/// component's successors in `succ_list` order (`dfs_ids`); a cycle is the
/// walk that closes the first cycle this search meets. Components that depend
/// on none of the others come out once each in ascending id order.
pub fn resolve(component_index: &ComponentIndex, desired_components: &Vec<CanonicalComponentId>) -> (r: Result<Vec<CanonicalComponentId>, ResolverError>)
    ensures
        resolve_outcome(component_index, desired_ids(desired_components@), r),
        first_where(desired_components@.len(), not_found_pred(component_index, desired_ids(desired_components@))) is None
            && first_where(desired_components@.len(), missing_pred(component_index, desired_ids(desired_components@))) is None
            && no_dep_edges(component_index, desired_ids(desired_components@))
            ==> (r matches Ok(order) && strictly_sorted(desired_ids(order@))),
        first_where(desired_components@.len(), not_found_pred(component_index, desired_ids(desired_components@))) is None
            && first_where(desired_components@.len(), missing_pred(component_index, desired_ids(desired_components@))) is None
            ==> match r {
                Ok(order) => dfs_ids(component_index, desired_ids(desired_components@)) == Ok::<Seq<Seq<char>>, Seq<Seq<char>>>(desired_ids(order@)),
                Err(ResolverError::Cycle { cycle }) => dfs_ids(component_index, desired_ids(desired_components@)) matches Err(w)
                    && cycle@ == join_with(w, arrow()),
                _ => false,
            },
{
    let ghost d = desired_ids(desired_components@);
    let n_desired = desired_components.len();

    // Every desired component is in the index.
    let mut i: usize = 0;
    while i < n_desired
        invariant
            i <= n_desired == desired_components@.len(),
            d == desired_ids(desired_components@),
            forall|j: int| 0 <= j < i ==> component_index.components@.contains_key(#[trigger] d[j]),
        decreases n_desired - i,
    {
        assert(d[i as int] == desired_components@[i as int]@);
        if !component_index.components.contains_key(desired_components[i].as_str()) {
            proof {
                assert(not_found_pred(component_index, d)(i as int));
                assert forall|j: int| 0 <= j < i implies !#[trigger] not_found_pred(component_index, d)(j) by {
                    assert(component_index.components@.contains_key(d[j]));
                }
                lemma_first_where_found(d.len(), not_found_pred(component_index, d), i as int);
            }
            return Err(ResolverError::ComponentNotFound { id: desired_components[i].as_str().to_owned() });
        }
        i = i + 1;
    }
    proof {
        assert forall|j: int| 0 <= j < d.len() implies !#[trigger] not_found_pred(component_index, d)(j) by {
            assert(component_index.components@.contains_key(d[j]));
        }
        lemma_first_where_none(d.len(), not_found_pred(component_index, d));
    }

    // Every explicit dependency is desired.
    let mut i: usize = 0;
    while i < n_desired
        invariant
            i <= n_desired == desired_components@.len(),
            d == desired_ids(desired_components@),
            first_where(d.len(), not_found_pred(component_index, d)) is None,
            forall|j: int| 0 <= j < d.len() ==> component_index.components@.contains_key(#[trigger] d[j]),
            forall|j: int| 0 <= j < i ==> !#[trigger] missing_pred(component_index, d)(j),
        decreases n_desired - i,
    {
        let id = desired_components[i].as_str();
        assert(d[i as int] == desired_components@[i as int]@);
        assert(d[i as int] == id@);
        let meta = match component_index.components.get(id) {
            Some(m) => m,
            None => { proof { assert(component_index.components@.contains_key(d[i as int])); } return Err(ResolverError::Cycle { cycle: String::new() }); },
        };
        let mut j: usize = 0;
        while j < meta.dep.depends.len()
            invariant
                j <= meta.dep.depends@.len(),
                i < d.len(),
                d == desired_ids(desired_components@),
                *meta == meta_of(component_index, d[i as int]),
                id@ == d[i as int],
                first_where(d.len(), not_found_pred(component_index, d)) is None,
                forall|k: int| 0 <= k < i ==> !#[trigger] missing_pred(component_index, d)(k),
                forall|t: int| 0 <= t < j ==> !#[trigger] outside_pred(component_index, d, d[i as int])(t),
            decreases meta.dep.depends@.len() - j,
        {
            let dep = meta.dep.depends[j].as_str();
            if !desired_contains(desired_components, dep) {
                proof {
                    assert(outside_pred(component_index, d, d[i as int])(j as int));
                    lemma_first_where_found(meta.dep.depends@.len(), outside_pred(component_index, d, d[i as int]), j as int);
                    assert(missing_pred(component_index, d)(i as int));
                    lemma_first_where_found(d.len(), missing_pred(component_index, d), i as int);
                }
                return Err(ResolverError::MissingDependency { dependent: id.to_owned(), dependency: dep.to_owned() });
            }
            proof { assert(!outside_pred(component_index, d, d[i as int])(j as int)); }
            j = j + 1;
        }
        proof {
            lemma_first_where_none(meta.dep.depends@.len(), outside_pred(component_index, d, d[i as int]));
        }
        i = i + 1;
    }
    proof { lemma_first_where_none(d.len(), missing_pred(component_index, d)); }

    // Distinct components, in ascending id order, each mapped to a desired position.
    let mut pos: StrMap<usize> = StrMap::new();
    let mut i: usize = 0;
    while i < n_desired
        invariant
            i <= n_desired == desired_components@.len(),
            d == desired_ids(desired_components@),
            forall|k: Seq<char>| #[trigger] pos@.contains_key(k) <==> d.subrange(0, i as int).contains(k),
            forall|k: Seq<char>| pos@.contains_key(k) ==> #[trigger] pos@[k] < i && d[pos@[k] as int] == k,
        decreases n_desired - i,
    {
        let ghost before = pos@;
        assert(d[i as int] == desired_components@[i as int]@);
        pos.insert(desired_components[i].as_str().to_owned(), i);
        proof {
            let s0 = d.subrange(0, i as int);
            let s1 = d.subrange(0, i + 1);
            assert(s1 =~= s0.push(d[i as int]));
            assert forall|k: Seq<char>| #[trigger] pos@.contains_key(k) <==> s1.contains(k) by {
                if s0.contains(k) {
                    let t = choose|t: int| 0 <= t < s0.len() && s0[t] == k;
                    assert(s1[t] == k);
                }
                if s1.contains(k) {
                    let t = choose|t: int| 0 <= t < s1.len() && s1[t] == k;
                    if t < i {
                        assert(s0[t] == k);
                    }
                }
                if k == d[i as int] {
                    assert(s1[i as int] == k);
                }
            }
        }
        i = i + 1;
    }
    pos.lemma_shape();
    let n = pos.len();
    proof {
        assert(d.subrange(0, d.len() as int) =~= d);
    }
    let ghost keys = pos.keys();
    proof {
        assert forall|k: Seq<char>| #[trigger] keys.contains(k) <==> d.contains(k) by {
            assert(pos@.contains_key(k) <==> keys.contains(k));
        }
        let asc = ascending_ids(d);
        assert(strictly_sorted(asc) && forall|k: Seq<char>| #[trigger] asc.contains(k) <==> d.contains(k));
        lemma_sorted_unique(asc, keys);
    }

    // The graph.
    proof {
        assert forall|i2: int| #![trigger d[i2]] 0 <= i2 < d.len() implies
            first_where(meta_of(component_index, d[i2]).dep.depends@.len(), outside_pred(component_index, d, d[i2])) is None by {
            assert(!missing_pred(component_index, d)(i2));
        }
    }
    let mut adj: Vec<Vec<usize>> = Vec::new();
    let mut u: usize = 0;
    while u < n
        invariant
            u <= n == keys.len(),
            keys == pos.keys(),
            d == desired_ids(desired_components@),
            node_map_ok(component_index, d, &pos),
            forall|i2: int| #![trigger d[i2]] 0 <= i2 < d.len() ==>
                first_where(meta_of(component_index, d[i2]).dep.depends@.len(), outside_pred(component_index, d, d[i2])) is None,
            adj@.len() == u,
            forall|a: int| 0 <= a < u ==> succ_ok(component_index, d, keys, a, #[trigger] adj@[a]@),
            forall|a: int| 0 <= a < u ==> #[trigger] adj@[a]@ == succ_list(component_index, d, keys, keys[a]),
        decreases n - u,
    {
        let succ = successors(component_index, desired_components, &pos, u);
        adj.push(succ);
        proof {
            assert(adj@[u as int]@ == succ@);
        }
        u = u + 1;
    }
    let ghost g = adj@.map_values(|a: Vec<usize>| a@);
    proof {
        assert(g =~= dep_graph(component_index, d)) by {
            assert forall|a: int| 0 <= a < n implies g[a] == dep_graph(component_index, d)[a] by {
                assert(adj@[a]@ == succ_list(component_index, d, keys, keys[a]));
            }
        }
        assert forall|a: int, j: int| 0 <= a < n && 0 <= j < g[a].len() implies #[trigger] g[a][j] < n by {
            assert(g[a] == adj@[a]@);
            assert(succ_ok(component_index, d, keys, a, adj@[a]@));
        }
        assert forall|a: int, x: int| 0 <= a < keys.len() && 0 <= x < keys.len() implies (g[a].contains(x as usize) <==> #[trigger] dep_edge(component_index, d, keys[a], keys[x])) by {
            assert(g[a] == adj@[a]@);
            assert(succ_ok(component_index, d, keys, a, adj@[a]@));
        }
    }
    let ghost flat = no_dep_edges(component_index, d);
    proof {
        if flat {
            assert forall|a: int| 0 <= a < n implies #[trigger] adj@[a]@.len() == 0 by {
                assert(g[a] == adj@[a]@);
                if adj@[a]@.len() > 0 {
                    let x = g[a][0];
                    assert(g[a].contains(x));
                    assert(pos@.contains_key(keys[a]));
                    assert(d.contains(keys[a]));
                    assert(!dep_edge(component_index, d, keys[a], keys[x as int]));
                }
            }
        }
    }
    match topo_dfs(n, &adj) {
        Ok(order) => {
            let mut out: Vec<CanonicalComponentId> = Vec::new();
            let mut b: usize = 0;
            while b < order.len()
                invariant
                    b <= order@.len(),
                    is_topo_order(n as nat, g, order@),
                    keys == pos.keys(),
                    n == keys.len(),
                    d == desired_ids(desired_components@),
                    forall|k: Seq<char>| pos@.contains_key(k) ==> #[trigger] pos@[k] < d.len() && d[pos@[k] as int] == k,
                    forall|x: int| 0 <= x < keys.len() ==> #[trigger] pos@[keys[x]] == pos.vals()[x],
                    keys.len() == pos.vals().len(),
                    forall|x: int| 0 <= x < keys.len() ==> #[trigger] pos@.contains_key(keys[x]),
                    out@.len() == b,
                    forall|t: int| 0 <= t < b ==> #[trigger] out@[t]@ == keys[order@[t] as int],
                    flat ==> order@ == node_range(n as nat),
                    strictly_sorted(keys),
                decreases order@.len() - b,
            {
                let x = order[b];
                let at = *pos.value_at(x);
                proof {
                    assert(pos@.contains_key(keys[x as int]));
                    assert(pos@[keys[x as int]] == at);
                }
                let id = desired_components[at].clone();
                out.push(id);
                proof {
                    assert(d[at as int] == desired_components@[at as int]@);
                }
                b = b + 1;
            }
            proof {
                let o = desired_ids(out@);
                assert forall|t: int| 0 <= t < o.len() implies #[trigger] o[t] == keys[order@[t] as int] by {
                    assert(o[t] == out@[t]@);
                }
                lemma_order_transfer(component_index, d, &pos, g, order@, o);
                assert(o =~= node_ids(keys, order@));
                if flat {
                    assert(o =~= keys) by {
                        assert forall|t: int| 0 <= t < o.len() implies o[t] == keys[t] by {
                            assert(order@[t] == node_range(n as nat)[t]);
                        }
                    }
                }
            }
            Ok(out)
        },
        Err(walk) => {
            assert(!flat);
            let mut names: Vec<String> = Vec::new();
            let mut k: usize = 0;
            while k < walk.len()
                invariant
                    k <= walk@.len(),
                    is_cycle_walk(n as nat, g, walk@),
                    keys == pos.keys(),
                    n == keys.len(),
                    names@.len() == k,
                    forall|t: int| 0 <= t < k ==> #[trigger] names@[t]@ == keys[walk@[t] as int],
                decreases walk@.len() - k,
            {
                names.push(pos.key_at(walk[k]).clone());
                k = k + 1;
            }
            let cycle = join_strings(&names, " → ");
            proof {
                let w = names@.map_values(|x: String| x@);
                assert forall|t: int| 0 <= t < w.len() implies #[trigger] w[t] == keys[walk@[t] as int] by {}
                lemma_cycle_transfer(component_index, d, &pos, g, walk@, w);
                assert(w =~= node_ids(keys, walk@));
            }
            Err(ResolverError::Cycle { cycle })
        },
    }
}

/// A topological order of the node graph is a dependency order of the components.
proof fn lemma_order_transfer(ci: &ComponentIndex, d: Seq<Seq<char>>, pos: &StrMap<usize>, g: Seq<Seq<usize>>, order: Seq<usize>, o: Seq<Seq<char>>)
    requires
        is_topo_order(pos.keys().len(), g, order),
        node_map_ok(ci, d, pos),
        o.len() == order.len(),
        forall|t: int| 0 <= t < o.len() ==> #[trigger] o[t] == pos.keys()[order[t] as int],
        forall|a: int, x: int| 0 <= a < pos.keys().len() && 0 <= x < pos.keys().len() ==> (g[a].contains(x as usize) <==> #[trigger] dep_edge(ci, d, pos.keys()[a], pos.keys()[x])),
    ensures
        is_dep_order(ci, d, o),
{
    let keys = pos.keys();
    let n = keys.len();
    assert forall|a: int, b: int| 0 <= a < o.len() && 0 <= b < o.len() && a != b implies o[a] != o[b] by {
        assert(order[a] != order[b]);
    }
    assert forall|v: Seq<char>| #[trigger] o.contains(v) <==> d.contains(v) by {
        if o.contains(v) {
            let t = choose|t: int| 0 <= t < o.len() && o[t] == v;
            assert(pos@.contains_key(keys[order[t] as int]));
        }
        if d.contains(v) {
            assert(pos@.contains_key(v));
            let x = choose|x: int| 0 <= x < keys.len() && keys[x] == v;
            assert(order.contains(x as usize)) by {
                let s = order.to_set();
                order.unique_seq_to_set();
                assert(s.len() == n);
                assert(s.subset_of(Set::new(|y: usize| (y as int) < n)));
                lemma_range_set_len(n);
                vstd::set_lib::lemma_subset_equality(s, Set::new(|y: usize| (y as int) < n));
                assert(Set::new(|y: usize| (y as int) < n).contains(x as usize));
            }
            let t = choose|t: int| 0 <= t < order.len() && order[t] == x as usize;
            assert(o[t] == v);
        }
    }
    assert forall|b: int, v: Seq<char>| 0 <= b < o.len() && #[trigger] dep_edge(ci, d, o[b], v) implies exists|a: int| 0 <= a < b && o[a] == v by {
        assert(d.contains(v));
        assert(pos@.contains_key(v));
        let x = choose|x: int| 0 <= x < keys.len() && keys[x] == v;
        let ob = order[b] as int;
        assert(dep_edge(ci, d, keys[ob], keys[x]));
        assert(g[ob].contains(x as usize));
        let j = choose|j: int| 0 <= j < g[ob].len() && g[ob][j] == x as usize;
        assert(deps_before(order, b, g));
        assert(occurs_before(order, b, g[ob][j]));
        let a = choose|a: int| 0 <= a < b && order[a] == g[ob][j];
        assert(o[a] == v);
    }
}

/// A cycle walk in the node graph is a dependency cycle of the components.
proof fn lemma_cycle_transfer(ci: &ComponentIndex, d: Seq<Seq<char>>, pos: &StrMap<usize>, g: Seq<Seq<usize>>, walk: Seq<usize>, w: Seq<Seq<char>>)
    requires
        is_cycle_walk(pos.keys().len(), g, walk),
        w.len() == walk.len(),
        forall|t: int| 0 <= t < w.len() ==> #[trigger] w[t] == pos.keys()[walk[t] as int],
        forall|a: int, x: int| 0 <= a < pos.keys().len() && 0 <= x < pos.keys().len() ==> (g[a].contains(x as usize) <==> #[trigger] dep_edge(ci, d, pos.keys()[a], pos.keys()[x])),
    ensures
        is_dep_cycle(ci, d, w),
{
    let keys = pos.keys();
    assert forall|k: int| 0 <= k < w.len() - 1 implies dep_edge(ci, d, #[trigger] w[k], w[k + 1]) by {
        assert(g[walk[k] as int].contains(walk[k + 1]));
        assert(walk[k + 1] < keys.len());
        assert(dep_edge(ci, d, keys[walk[k] as int], keys[walk[k + 1] as int]));
    }
    let k = choose|k: int| 0 <= k < walk.len() - 1 && walk[k] == walk.last();
    assert(w[k] == w.last());
}


/// Law: a dependency order and a dependency cycle never coexist, so the
/// resolver reports a cycle exactly when the dependencies have one.
pub proof fn law_order_excludes_cycle(ci: &ComponentIndex, d: Seq<Seq<char>>, o: Seq<Seq<char>>, w: Seq<Seq<char>>)
    requires
        is_dep_order(ci, d, o),
    ensures
        !is_dep_cycle(ci, d, w),
{
    if is_dep_cycle(ci, d, w) {
        let k0 = choose|k: int| 0 <= k < w.len() - 1 && w[k] == w.last();
        // every node after the first is in the order, and each comes before its predecessor
        assert forall|k: int| 0 < k < w.len() implies #[trigger] o.contains(w[k]) by {
            assert(dep_edge(ci, d, w[k - 1], w[k]));
        }
        let last = w.last();
        assert(o.contains(last)) by { assert(o.contains(w[w.len() - 1])); }
        let pl = choose|p: int| 0 <= p < o.len() && o[p] == last;
        lemma_walk_descends(ci, d, o, w, k0, pl);
        let q = choose|p: int| 0 <= p < pl && o[p] == w[w.len() - 1];
        assert(o[q] == o[pl]);
    }
}

/// Along a walk of dependency edges, positions in a dependency order strictly decrease.
proof fn lemma_walk_descends(ci: &ComponentIndex, d: Seq<Seq<char>>, o: Seq<Seq<char>>, w: Seq<Seq<char>>, k0: int, p0: int)
    requires
        is_dep_order(ci, d, o),
        0 <= k0 < w.len() - 1,
        forall|k: int| 0 <= k < w.len() - 1 ==> dep_edge(ci, d, #[trigger] w[k], w[k + 1]),
        0 <= p0 < o.len(),
        o[p0] == w[k0],
    ensures
        forall|k: int| #![trigger w[k]] k0 < k < w.len() ==> exists|p: int| 0 <= p < p0 && o[p] == w[k],
    decreases w.len() - k0,
{
    assert(dep_edge(ci, d, w[k0], w[k0 + 1]));
    assert(exists|a: int| 0 <= a < p0 && o[a] == w[k0 + 1]);
    let p1 = choose|a: int| 0 <= a < p0 && o[a] == w[k0 + 1];
    if k0 + 1 < w.len() - 1 {
        lemma_walk_descends(ci, d, o, w, k0 + 1, p1);
    }
    assert forall|k: int| #![trigger w[k]] k0 < k < w.len() implies exists|p: int| 0 <= p < p0 && o[p] == w[k] by {
        if k == k0 + 1 {
            assert(o[p1] == w[k]);
        } else {
            let p = choose|p: int| 0 <= p < p1 && o[p] == w[k];
            assert(o[p] == w[k]);
        }
    }
}

/// Law: in a dependency order every component comes after each of its listed
/// dependencies that is desired, and after every other desired component that
/// provides a capability it requires.
pub proof fn law_order_respects_dependencies(ci: &ComponentIndex, d: Seq<Seq<char>>, o: Seq<Seq<char>>)
    requires
        is_dep_order(ci, d, o),
    ensures
        forall|b: int, j: int| 0 <= b < o.len() && 0 <= j < meta_of(ci, o[b]).dep.depends@.len()
            && d.contains(#[trigger] meta_of(ci, o[b]).dep.depends@[j]@)
            ==> exists|a: int| 0 <= a < b && o[a] == meta_of(ci, o[b]).dep.depends@[j]@,
        forall|b: int, v: Seq<char>| 0 <= b < o.len() && d.contains(v) && v != o[b] && #[trigger] serves(ci, o[b], v)
            ==> exists|a: int| 0 <= a < b && o[a] == v,
{
    assert forall|b: int, j: int| 0 <= b < o.len() && 0 <= j < meta_of(ci, o[b]).dep.depends@.len()
        && d.contains(#[trigger] meta_of(ci, o[b]).dep.depends@[j]@)
        implies exists|a: int| 0 <= a < b && o[a] == meta_of(ci, o[b]).dep.depends@[j]@ by {
        let deps = meta_of(ci, o[b]).dep.depends@;
        let v = deps[j]@;
        assert(deps.map_values(|x: String| x@)[j] == v);
        assert(dep_edge(ci, d, o[b], v));
    }
    assert forall|b: int, v: Seq<char>| 0 <= b < o.len() && d.contains(v) && v != o[b] && #[trigger] serves(ci, o[b], v)
        implies exists|a: int| 0 <= a < b && o[a] == v by {
        assert(dep_edge(ci, d, o[b], v));
    }
}

} // verus!
