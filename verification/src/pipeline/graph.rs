//! Topological ordering of a dependency graph by Kahn's algorithm.
//!
//! A graph on nodes `0..n` is given column-wise: `g[v][u]` holds when node
//! `u` must run before node `v`.

use vstd::prelude::*;
use vstd::set_lib::*;
use vstd::seq_lib::*;

verus! {

/// `g` is an `n`-by-`n` dependency matrix.
pub open spec fn is_matrix(g: Seq<Seq<bool>>, n: int) -> bool {
    &&& g.len() == n
    &&& forall|v: int| 0 <= v < n ==> #[trigger] g[v].len() == n
}

/// The rows of a boolean matrix, as sequences.
pub open spec fn matrix_view(g: Seq<Vec<bool>>) -> Seq<Seq<bool>> {
    g.map_values(|row: Vec<bool>| row@)
}

/// `u` must run before `v`.
pub open spec fn edge(g: Seq<Seq<bool>>, u: int, v: int) -> bool {
    0 <= u < g.len() && 0 <= v < g.len() && g[v][u]
}

/// `order` lists every node `0..n` exactly once.
pub open spec fn is_permutation(order: Seq<usize>, n: int) -> bool {
    &&& order.len() == n
    &&& order.no_duplicates()
    &&& forall|i: int| 0 <= i < order.len() ==> #[trigger] order[i] < n
}

/// `order` is a permutation of the nodes in which every node comes after all
/// the nodes it depends on.
pub open spec fn is_topological_order(g: Seq<Seq<bool>>, order: Seq<usize>) -> bool {
    &&& is_permutation(order, g.len() as int)
    &&& forall|a: int, b: int|
        0 <= a < order.len() && 0 <= b < order.len() && #[trigger] edge(
            g,
            order[b] as int,
            order[a] as int,
        ) ==> b < a
}

/// A non-empty set of nodes each of which depends on another node of the set:
/// no order can start with any of them, which is what a cycle amounts to.
pub open spec fn is_stuck_set(g: Seq<Seq<bool>>, s: Set<int>) -> bool {
    &&& s.len() > 0
    &&& s.finite()
    &&& forall|v: int| #[trigger] s.contains(v) ==> 0 <= v < g.len()
    &&& forall|v: int| #[trigger] s.contains(v) ==> exists|u: int| s.contains(u) && edge(g, u, v)
}

/// The graph has a cycle of dependencies.
pub open spec fn has_cycle(g: Seq<Seq<bool>>) -> bool {
    exists|s: Set<int>| is_stuck_set(g, s)
}

/// Number of nodes `u < k` with `row[u]` set and `done[u]` clear.
pub open spec fn pending_count(row: Seq<bool>, done: Seq<bool>, k: int) -> nat
    decreases k,
{
    if k <= 0 {
        0
    } else {
        pending_count(row, done, k - 1) + if row[k - 1] && !done[k - 1] {
            1nat
        } else {
            0nat
        }
    }
}

proof fn lemma_pending_count_zero(row: Seq<bool>, done: Seq<bool>, k: int)
    requires
        0 <= k,
    ensures
        pending_count(row, done, k) == 0 <==> forall|u: int|
            0 <= u < k ==> !(row[u] && !done[u]),
        pending_count(row, done, k) <= k,
    decreases k,
{
    if k > 0 {
        lemma_pending_count_zero(row, done, k - 1);
        if pending_count(row, done, k) == 0 {
            assert forall|u: int| 0 <= u < k implies !(row[u] && !done[u]) by {
                if u < k - 1 {
                }
            }
        }
    }
}

proof fn lemma_pending_count_update(row: Seq<bool>, done: Seq<bool>, x: int, k: int)
    requires
        0 <= x < done.len(),
        0 <= k <= done.len(),
    ensures
        pending_count(row, done.update(x, true), k) + (if x < k && row[x] && !done[x] {
            1nat
        } else {
            0nat
        }) == pending_count(row, done, k),
    decreases k,
{
    if k > 0 {
        lemma_pending_count_update(row, done, x, k - 1);
        if k - 1 != x {
            assert(done.update(x, true)[k - 1] == done[k - 1]);
        }
    }
}

/// The naturals below `n`, as a set of `usize`.
proof fn lemma_usize_range(n: int)
    requires
        0 <= n <= usize::MAX + 1,
    ensures
        Set::new(|x: usize| x < n).finite(),
        Set::new(|x: usize| x < n).len() == n,
    decreases n,
{
    if n == 0 {
        assert(Set::new(|x: usize| x < n) =~= Set::<usize>::empty());
    } else {
        lemma_usize_range(n - 1);
        let prev = Set::new(|x: usize| x < n - 1);
        assert(Set::new(|x: usize| x < n) =~= prev.insert((n - 1) as usize));
    }
}

/// A duplicate-free sequence of nodes below `n` has at most `n` entries, and
/// exactly `n` only when it holds every node.
proof fn lemma_distinct_nodes_len(s: Seq<usize>, n: int)
    requires
        s.no_duplicates(),
        0 <= n <= usize::MAX + 1,
        forall|i: int| 0 <= i < s.len() ==> #[trigger] s[i] < n,
    ensures
        s.len() <= n,
        (forall|v: usize| v < n ==> #[trigger] s.contains(v)) ==> s.len() == n,
{
    let st = s.to_set();
    s.unique_seq_to_set();
    let range = Set::new(|x: usize| x < n);
    lemma_usize_range(n);
    assert(st.subset_of(range)) by {
        assert forall|x: usize| st.contains(x) implies range.contains(x) by {
            let i = choose|i: int| 0 <= i < s.len() && s[i] == x;
        }
    }
    lemma_len_subset(st, range);
    if forall|v: usize| v < n ==> #[trigger] s.contains(v) {
        assert(range.subset_of(st)) by {
            assert forall|x: usize| range.contains(x) implies st.contains(x) by {
                assert(s.contains(x));
            }
        }
        lemma_len_subset(range, st);
    }
}

proof fn lemma_permutation_contains(order: Seq<usize>, n: int, v: int)
    requires
        is_permutation(order, n),
        0 <= v < n <= usize::MAX + 1,
    ensures
        order.contains(v as usize),
{
    if !order.contains(v as usize) {
        let st = order.to_set();
        order.unique_seq_to_set();
        lemma_usize_range(n);
        let full = Set::new(|x: usize| x < n);
        let range = full.remove(v as usize);
        assert(st.subset_of(range)) by {
            assert forall|x: usize| st.contains(x) implies range.contains(x) by {
                let i = choose|i: int| 0 <= i < order.len() && order[i] == x;
            }
        }
        lemma_len_subset(st, range);
    }
}

/// In a topological order, no node of a stuck set occurs among the first `a`.
proof fn lemma_prefix_outside_stuck(g: Seq<Seq<bool>>, order: Seq<usize>, s: Set<int>, a: int)
    requires
        is_topological_order(g, order),
        is_stuck_set(g, s),
        g.len() <= usize::MAX + 1,
        0 <= a < order.len(),
    ensures
        !s.contains(order[a] as int),
    decreases a,
{
    if s.contains(order[a] as int) {
        let u = choose|u: int| s.contains(u) && edge(g, u, order[a] as int);
        lemma_permutation_contains(order, g.len() as int, u);
        let b = choose|b: int| 0 <= b < order.len() && order[b] == u as usize;
        assert(edge(g, order[b] as int, order[a] as int));
        assert(b < a);
        lemma_prefix_outside_stuck(g, order, s, b);
    }
}

/// A graph that has a topological order has no cycle.
pub proof fn lemma_topological_order_excludes_cycle(g: Seq<Seq<bool>>, order: Seq<usize>)
    requires
        g.len() <= usize::MAX + 1,
        is_topological_order(g, order),
    ensures
        !has_cycle(g),
{
    assert forall|s: Set<int>| !is_stuck_set(g, s) by {
        if is_stuck_set(g, s) {
            let v = s.choose();
            assert(s.contains(v)) by {
                if !s.contains(v) {
                    assert(s =~= Set::<int>::empty());
                }
            }
            lemma_permutation_contains(order, g.len() as int, v);
            let a = choose|a: int| 0 <= a < order.len() && order[a] == v as usize;
            lemma_prefix_outside_stuck(g, order, s, a);
        }
    }
}

proof fn lemma_push_distinct(s: Seq<usize>, x: usize)
    requires
        s.no_duplicates(),
        !s.contains(x),
    ensures
        s.push(x).no_duplicates(),
        forall|y: usize| #[trigger] s.push(x).contains(y) <==> (s.contains(y) || y == x),
{
    let t = s.push(x);
    assert forall|i: int, j: int| 0 <= i < t.len() && 0 <= j < t.len() && i != j implies t[i]
        != t[j] by {
        if i == s.len() {
            assert(s.contains(t[j]));
        } else if j == s.len() {
            assert(s.contains(t[i]));
        }
    }
    assert forall|y: usize| #[trigger] t.contains(y) <==> (s.contains(y) || y == x) by {
        if t.contains(y) && y != x {
            let i = choose|i: int| 0 <= i < t.len() && t[i] == y;
            assert(s[i] == y);
        }
        if s.contains(y) {
            let i = choose|i: int| 0 <= i < s.len() && s[i] == y;
            assert(t[i] == y);
        }
        if y == x {
            assert(t[s.len() as int] == y);
        }
    }
}

/// The nodes below `k`, in increasing order, that have node `node` as a
/// dependency and no dependency left undone: those that become ready when
/// `node` is done.
pub open spec fn released(gv: Seq<Seq<bool>>, done: Seq<bool>, node: int, k: int) -> Seq<usize>
    decreases k,
{
    if k <= 0 {
        Seq::empty()
    } else {
        released(gv, done, node, k - 1) + if gv[k - 1][node] && pending_count(gv[k - 1], done, gv.len() as int)
            == 0 {
            seq![(k - 1) as usize]
        } else {
            Seq::empty()
        }
    }
}

/// The nodes below `k`, in increasing order, whose in-degree is zero.
pub open spec fn zero_degree(in_degree: Seq<usize>, k: int) -> Seq<usize>
    decreases k,
{
    if k <= 0 {
        Seq::empty()
    } else {
        zero_degree(in_degree, k - 1) + if in_degree[k - 1] == 0 {
            seq![(k - 1) as usize]
        } else {
            Seq::empty()
        }
    }
}

/// The nodes below `k`, in increasing order, with no dependency left undone.
pub open spec fn unblocked(gv: Seq<Seq<bool>>, done: Seq<bool>, k: int) -> Seq<usize>
    decreases k,
{
    if k <= 0 {
        Seq::empty()
    } else {
        unblocked(gv, done, k - 1) + if pending_count(gv[k - 1], done, gv.len() as int) == 0 {
            seq![(k - 1) as usize]
        } else {
            Seq::empty()
        }
    }
}

/// A state of Kahn's algorithm: which nodes are done, the stack of ready
/// nodes, and the order so far.
pub type KahnState = (Seq<bool>, Seq<usize>, Seq<usize>);

/// One step: the most recently readied node is taken, marked done and
/// appended to the order; the nodes it releases are stacked in increasing
/// order. With nothing ready, nothing changes.
pub open spec fn kahn_step(gv: Seq<Seq<bool>>, st: KahnState) -> KahnState {
    if st.1.len() == 0 {
        st
    } else {
        let node = st.1.last();
        let nd = st.0.update(node as int, true);
        (nd, st.1.drop_last() + released(gv, nd, node as int, gv.len() as int), st.2.push(node))
    }
}

/// The state after `steps` steps.
pub open spec fn kahn_run(gv: Seq<Seq<bool>>, st: KahnState, steps: nat) -> KahnState
    decreases steps,
{
    if steps == 0 {
        st
    } else {
        kahn_step(gv, kahn_run(gv, st, (steps - 1) as nat))
    }
}

/// The start: nothing done, the nodes without dependencies stacked in
/// increasing order.
pub open spec fn kahn_start(gv: Seq<Seq<bool>>) -> KahnState {
    let none = Seq::new(gv.len(), |i: int| false);
    (none, unblocked(gv, none, gv.len() as int), Seq::empty())
}

/// The order Kahn's algorithm produces, taking the most recently readied
/// node first.
pub open spec fn kahn_order(gv: Seq<Seq<bool>>) -> Seq<usize> {
    kahn_run(gv, kahn_start(gv), gv.len() as nat).2
}

proof fn lemma_zero_degree_unblocked(gv: Seq<Seq<bool>>, in_degree: Seq<usize>, done: Seq<bool>, k: int)
    requires
        degrees_match(gv, in_degree, done),
        0 <= k <= gv.len(),
    ensures
        zero_degree(in_degree, k) == unblocked(gv, done, k),
    decreases k,
{
    if k > 0 {
        lemma_zero_degree_unblocked(gv, in_degree, done, k - 1);
    }
}

proof fn lemma_run_settles(gv: Seq<Seq<bool>>, st: KahnState, k: nat, j: nat)
    requires
        kahn_run(gv, st, k).1.len() == 0,
    ensures
        kahn_run(gv, st, k + j) == kahn_run(gv, st, k),
    decreases j,
{
    if j > 0 {
        lemma_run_settles(gv, st, k, (j - 1) as nat);
        assert(kahn_run(gv, st, k + j) == kahn_step(gv, kahn_run(gv, st, (k + j - 1) as nat)));
    }
}


/// Every node's in-degree counts its dependencies that are not yet done.
pub open spec fn degrees_match(gv: Seq<Seq<bool>>, in_degree: Seq<usize>, done: Seq<bool>) -> bool {
    &&& in_degree.len() == gv.len()
    &&& done.len() == gv.len()
    &&& forall|x: int|
        0 <= x < gv.len() ==> #[trigger] in_degree[x] == pending_count(gv[x], done, gv.len() as int)
}

/// The queue holds exactly the nodes not yet done whose in-degree is zero.
pub open spec fn queue_ready(n: int, in_degree: Seq<usize>, done: Seq<bool>, queue: Seq<usize>) -> bool {
    &&& queue.no_duplicates()
    &&& forall|i: int| 0 <= i < queue.len() ==> #[trigger] queue[i] < n
    &&& forall|i: int| 0 <= i < queue.len() ==> !done[#[trigger] queue[i] as int]
    &&& forall|i: int| 0 <= i < queue.len() ==> in_degree[#[trigger] queue[i] as int] == 0
    &&& forall|x: usize| x < n && !done[x as int] && in_degree[x as int] == 0 ==> #[trigger] queue.contains(x)
}

/// The nodes done so far are those of `order`, each placed after its
/// dependencies, and every dependency of a done node is done.
pub open spec fn order_so_far(gv: Seq<Seq<bool>>, done: Seq<bool>, order: Seq<usize>) -> bool {
    &&& order.no_duplicates()
    &&& forall|i: int| 0 <= i < order.len() ==> #[trigger] order[i] < gv.len()
    &&& forall|x: usize| x < gv.len() ==> (done[x as int] <==> #[trigger] order.contains(x))
    &&& forall|a: int, b: int|
        0 <= a < order.len() && 0 <= b < order.len() && #[trigger] edge(
            gv,
            order[b] as int,
            order[a] as int,
        ) ==> b < a
    &&& forall|x: int, u: int| 0 <= x < gv.len() && done[x] && #[trigger] edge(gv, u, x) ==> done[u]
}

/// In-degree of every node, before any node is done.
fn initial_degrees(g: &Vec<Vec<bool>>, done: &Vec<bool>) -> (in_degree: Vec<usize>)
    requires
        is_matrix(matrix_view(g@), g@.len() as int),
        done@.len() == g@.len(),
    ensures
        degrees_match(matrix_view(g@), in_degree@, done@),
{
    let ghost gv = matrix_view(g@);
    let n = g.len();
    let mut in_degree: Vec<usize> = Vec::new();
    let mut v: usize = 0;
    while v < n
        invariant
            n == g@.len(),
            gv == matrix_view(g@),
            is_matrix(gv, n as int),
            done@.len() == n,
            v <= n,
            in_degree@.len() == v,
            forall|w: int|
                0 <= w < v ==> #[trigger] in_degree@[w] == pending_count(gv[w], done@, n as int),
        decreases n - v,
    {
        let row = &g[v];
        assert(row@ == gv[v as int]);
        let mut count: usize = 0;
        let mut u: usize = 0;
        while u < n
            invariant
                n == g@.len(),
                row@ == gv[v as int],
                row@.len() == n,
                done@.len() == n,
                u <= n,
                count == pending_count(row@, done@, u as int),
            decreases n - u,
        {
            proof {
                lemma_pending_count_zero(row@, done@, u as int);
            }
            if row[u] && !done[u] {
                count = count + 1;
            }
            u = u + 1;
        }
        in_degree.push(count);
        v = v + 1;
    }
    in_degree
}

/// The nodes whose in-degree is zero, in increasing order.
fn ready_nodes(in_degree: &Vec<usize>, done: &Vec<bool>) -> (queue: Vec<usize>)
    requires
        done@.len() == in_degree@.len(),
        forall|i: int| 0 <= i < done@.len() ==> !(#[trigger] done@[i]),
    ensures
        queue_ready(in_degree@.len() as int, in_degree@, done@, queue@),
        queue@ == zero_degree(in_degree@, in_degree@.len() as int),
{
    let n = in_degree.len();
    let mut queue: Vec<usize> = Vec::new();
    let mut w: usize = 0;
    while w < n
        invariant
            n == in_degree@.len(),
            done@.len() == n,
            forall|i: int| 0 <= i < n ==> !(#[trigger] done@[i]),
            w <= n,
            queue@.no_duplicates(),
            forall|i: int| 0 <= i < queue@.len() ==> #[trigger] queue@[i] < w,
            forall|i: int| 0 <= i < queue@.len() ==> in_degree@[#[trigger] queue@[i] as int] == 0,
            forall|x: usize| x < w && in_degree@[x as int] == 0 ==> #[trigger] queue@.contains(x),
            queue@ == zero_degree(in_degree@, w as int),
        decreases n - w,
    {
        if in_degree[w] == 0 {
            proof {
                lemma_push_distinct(queue@, w);
            }
            queue.push(w);
        }
        w = w + 1;
    }
    queue
}

/// After `node` is done, lowers the in-degree of the nodes waiting on it and
/// queues those left with none.
fn release_dependents(
    g: &Vec<Vec<bool>>,
    node: usize,
    done: &Vec<bool>,
    in_degree: &mut Vec<usize>,
    queue: &mut Vec<usize>,
)
    requires
        is_matrix(matrix_view(g@), g@.len() as int),
        node < g@.len(),
        done@.len() == g@.len(),
        done@[node as int],
        degrees_match(
            matrix_view(g@),
            old(in_degree)@,
            done@.update(node as int, false),
        ),
        forall|u: int|
            #[trigger] edge(matrix_view(g@), u, node as int) ==> done@[u] && u
                != node,
        forall|x: int, u: int|
            0 <= x < g@.len() && done@.update(node as int, false)[x] && #[trigger] edge(
                matrix_view(g@),
                u,
                x,
            ) ==> done@.update(node as int, false)[u],
        queue_ready(g@.len() as int, old(in_degree)@, done@, old(queue)@),
    ensures
        degrees_match(matrix_view(g@), final(in_degree)@, done@),
        queue_ready(g@.len() as int, final(in_degree)@, done@, final(queue)@),
        final(queue)@ == old(queue)@ + released(matrix_view(g@), done@, node as int, g@.len() as int),
{
    let ghost gv = matrix_view(g@);
    let ghost before = done@.update(node as int, false);
    let n = g.len();
    proof {
        assert(done@ == before.update(node as int, true));
    }
    let mut i: usize = 0;
    while i < n
        invariant
            n == g@.len(),
            gv == matrix_view(g@),
            is_matrix(gv, n as int),
            node < n,
            i <= n,
            in_degree@.len() == n,
            done@.len() == n,
            before.len() == n,
            done@ == before.update(node as int, true),
            !before[node as int],
            forall|x: int|
                0 <= x < i ==> #[trigger] in_degree@[x] == pending_count(gv[x], done@, n as int),
            forall|x: int|
                i <= x < n ==> #[trigger] in_degree@[x] == pending_count(gv[x], before, n as int),
            forall|u: int| #[trigger] edge(gv, u, node as int) ==> done@[u] && u != node,
            forall|x: int, u: int| 0 <= x < n && before[x] && #[trigger] edge(gv, u, x) ==> before[u],
            queue_ready(n as int, in_degree@, done@, queue@),
            queue@ == old(queue)@ + released(gv, done@, node as int, i as int),
        decreases n - i,
    {
        let row = &g[i];
        assert(row@ == gv[i as int]);
        proof {
            lemma_pending_count_update(gv[i as int], before, node as int, n as int);
            lemma_pending_count_zero(gv[i as int], before, n as int);
        }
        if row[node] {
            proof {
                assert(edge(gv, node as int, i as int));
                if before[i as int] {
                    assert(before[node as int]);
                }
                assert(i != node) by {
                    if i == node {
                        assert(edge(gv, node as int, node as int));
                    }
                }
            }
            let d = in_degree[i] - 1;
            in_degree.set(i, d);
            if d == 0 {
                proof {
                    assert(!queue@.contains(i)) by {
                        if queue@.contains(i) {
                            let j = choose|j: int| 0 <= j < queue@.len() && queue@[j] == i;
                            assert(in_degree@[queue@[j] as int] == 0);
                        }
                    }
                    lemma_push_distinct(queue@, i);
                }
                queue.push(i);
            }
        }
        i = i + 1;
    }
}

/// Orders the nodes of `g` so that each comes after the nodes it depends on
/// (Kahn's algorithm, taking ready nodes last-in first-out). Returns `None`
/// exactly when the dependencies form a cycle.
pub fn topological_order(g: &Vec<Vec<bool>>) -> (r: Option<Vec<usize>>)
    requires
        is_matrix(matrix_view(g@), g@.len() as int),
    ensures
        ({
            let gv = matrix_view(g@);
            match r {
                Some(order) => is_topological_order(gv, order@) && order@ == kahn_order(gv),
                None => has_cycle(gv),
            }
        }),
{
    let ghost gv = matrix_view(g@);
    let n = g.len();
    let mut done: Vec<bool> = Vec::new();
    let mut k: usize = 0;
    while k < n
        invariant
            k <= n,
            done@.len() == k,
            forall|i: int| 0 <= i < k ==> !(#[trigger] done@[i]),
        decreases n - k,
    {
        done.push(false);
        k = k + 1;
    }
    let mut in_degree = initial_degrees(g, &done);
    let mut queue = ready_nodes(&in_degree, &done);
    let mut order: Vec<usize> = Vec::new();
    proof {
        assert(order@.len() == 0);
        assert(done@ =~= Seq::new(gv.len(), |i: int| false));
        lemma_zero_degree_unblocked(gv, in_degree@, done@, n as int);
        assert(order@ =~= Seq::<usize>::empty());
        assert((done@, queue@, order@) == kahn_run(gv, kahn_start(gv), 0));
    }
    while queue.len() > 0
        invariant
            n == g@.len(),
            gv == matrix_view(g@),
            is_matrix(gv, n as int),
            degrees_match(gv, in_degree@, done@),
            queue_ready(n as int, in_degree@, done@, queue@),
            order_so_far(gv, done@, order@),
            (done@, queue@, order@) == kahn_run(gv, kahn_start(gv), order@.len() as nat),
        decreases n - order@.len(),
    {
        let ghost old_queue = queue@;
        let ghost old_done = done@;
        let ghost old_order = order@;
        let node = queue.pop().unwrap();
        proof {
            assert(old_queue == queue@.push(node));
            lemma_ready_node(gv, in_degree@, old_done, old_queue);
            lemma_order_step(gv, old_done, old_order, node);
            lemma_queue_pop(n as int, in_degree@, old_done, old_queue);
        }
        order.push(node);
        done.set(node, true);
        proof {
            assert(done@.update(node as int, false) == old_done);
        }
        release_dependents(g, node, &done, &mut in_degree, &mut queue);
        proof {
            let prev = kahn_run(gv, kahn_start(gv), old_order.len() as nat);
            assert(prev == (old_done, old_queue, old_order));
            assert(kahn_run(gv, kahn_start(gv), order@.len() as nat) == kahn_step(gv, prev));
            assert(old_queue.last() == node);
        }
    }
    proof {
        lemma_distinct_nodes_len(order@, n as int);
        lemma_run_settles(gv, kahn_start(gv), order@.len() as nat, (n - order@.len()) as nat);
    }
    if order.len() == n {
        Some(order)
    } else {
        proof {
            lemma_leftover_cycle(gv, in_degree@, done@, queue@, order@);
        }
        None
    }
}

/// The last queued node is ready: its dependencies are all done.
proof fn lemma_ready_node(gv: Seq<Seq<bool>>, in_degree: Seq<usize>, done: Seq<bool>, queue: Seq<usize>)
    requires
        is_matrix(gv, gv.len() as int),
        degrees_match(gv, in_degree, done),
        queue_ready(gv.len() as int, in_degree, done, queue),
        queue.len() > 0,
    ensures
        forall|u: int|
            #[trigger] edge(gv, u, queue.last() as int) ==> done[u] && u != queue.last(),
        !done[queue.last() as int],
        queue.last() < gv.len(),
{
    let node = queue.last();
    let n = gv.len() as int;
    assert(queue[queue.len() - 1] == node);
    lemma_pending_count_zero(gv[node as int], done, n);
    assert forall|u: int| #[trigger] edge(gv, u, node as int) implies done[u] && u != node by {
        assert(gv[node as int][u]);
    }
}

/// Appending a ready node keeps the order a valid prefix.
proof fn lemma_order_step(gv: Seq<Seq<bool>>, done: Seq<bool>, order: Seq<usize>, node: usize)
    requires
        is_matrix(gv, gv.len() as int),
        gv.len() <= usize::MAX,
        done.len() == gv.len(),
        order_so_far(gv, done, order),
        node < gv.len(),
        !done[node as int],
        forall|u: int| #[trigger] edge(gv, u, node as int) ==> done[u] && u != node,
    ensures
        order_so_far(gv, done.update(node as int, true), order.push(node)),
        order.push(node).len() <= gv.len(),
{
    let n = gv.len() as int;
    let nd = done.update(node as int, true);
    let no = order.push(node);
    assert(!order.contains(node));
    lemma_push_distinct(order, node);
    assert forall|a: int, b: int|
        0 <= a < no.len() && 0 <= b < no.len() && #[trigger] edge(
            gv,
            no[b] as int,
            no[a] as int,
        ) implies b < a by {
        let last = no.len() - 1;
        if b == last && a != last {
            assert(order[a] == no[a]);
            assert(order.contains(no[a]));
            assert(done[no[a] as int]);
            assert(done[node as int]);
        } else if a == last && b == last {
            assert(edge(gv, node as int, node as int));
        } else if a != last && b != last {
            assert(order[a] == no[a]);
            assert(order[b] == no[b]);
        }
    }
    assert forall|x: int, u: int| 0 <= x < n && nd[x] && #[trigger] edge(gv, u, x) implies nd[u] by {
        if x != node {
            assert(done[x]);
        }
    }
    assert forall|x: usize| x < n implies (nd[x as int] <==> #[trigger] no.contains(x)) by {
        if x != node {
            assert(done[x as int] <==> order.contains(x));
        }
    }
    assert forall|i: int| 0 <= i < no.len() implies #[trigger] no[i] < n by {
        if i < order.len() {
            assert(no[i] == order[i]);
        }
    }
    lemma_distinct_nodes_len(no, n);
}

/// Popping the last queued node, once it is marked done, keeps the queue exact.
proof fn lemma_queue_pop(n: int, in_degree: Seq<usize>, done: Seq<bool>, queue: Seq<usize>)
    requires
        queue_ready(n, in_degree, done, queue),
        queue.len() > 0,
        done.len() == n,
    ensures
        queue_ready(n, in_degree, done.update(queue.last() as int, true), queue.drop_last()),
{
    let node = queue.last();
    let nd = done.update(node as int, true);
    let q = queue.drop_last();
    assert(queue[queue.len() - 1] == node);
    assert forall|i: int| 0 <= i < q.len() implies #[trigger] q[i] != node by {
        assert(queue[i] == q[i]);
    }
    assert forall|i: int| 0 <= i < q.len() implies in_degree[#[trigger] q[i] as int] == 0
        && !nd[q[i] as int] && q[i] < n by {
        assert(queue[i] == q[i]);
    }
    assert forall|x: usize| x < n && !nd[x as int] && in_degree[x as int] == 0
        implies #[trigger] q.contains(x) by {
        assert(queue.contains(x));
        let j = choose|j: int| 0 <= j < queue.len() && queue[j] == x;
        assert(j != queue.len() - 1);
        assert(q[j] == x);
    }
    assert(q.no_duplicates()) by {
        assert forall|i: int, j: int|
            0 <= i < q.len() && 0 <= j < q.len() && i != j implies q[i] != q[j] by {
            assert(queue[i] == q[i]);
            assert(queue[j] == q[j]);
        }
    }
}

/// When the queue runs dry before every node is ordered, the nodes left over
/// each wait on another left-over node.
proof fn lemma_leftover_cycle(
    gv: Seq<Seq<bool>>,
    in_degree: Seq<usize>,
    done: Seq<bool>,
    queue: Seq<usize>,
    order: Seq<usize>,
)
    requires
        is_matrix(gv, gv.len() as int),
        gv.len() <= usize::MAX,
        degrees_match(gv, in_degree, done),
        queue_ready(gv.len() as int, in_degree, done, queue),
        queue.len() == 0,
        order_so_far(gv, done, order),
        order.len() != gv.len(),
    ensures
        has_cycle(gv),
{
    let n = gv.len() as int;
    lemma_distinct_nodes_len(order, n);
    let s = Set::new(|x: int| 0 <= x < n && !done[x]);
    let x0 = choose|x: usize| x < n && !order.contains(x);
    assert(s.contains(x0 as int));
    assert(s.subset_of(set_int_range(0, n)));
    lemma_int_range(0, n);
    lemma_len_subset(s, set_int_range(0, n));
    assert(s.len() > 0) by {
        if s.len() == 0 {
            s.lemma_len0_is_empty();
        }
    }
    assert forall|v: int| #[trigger] s.contains(v) implies exists|u: int|
        s.contains(u) && edge(gv, u, v) by {
        assert(!queue.contains(v as usize));
        assert(in_degree[v] != 0);
        lemma_pending_count_zero(gv[v], done, n);
        let u = choose|u: int| 0 <= u < n && gv[v][u] && !done[u];
        assert(s.contains(u) && edge(gv, u, v));
    }
    assert(is_stuck_set(gv, s));
}

} // verus!
