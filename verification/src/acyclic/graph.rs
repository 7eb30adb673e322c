//! Index-based view of a directed graph and the verified algorithms run on it:
//! Kahn's topological sort (with the set of nodes left on or behind cycles) and
//! reachability from a start node.
use vstd::prelude::*;

verus! {

/// Adjacency lists of node indices: `g[u]` lists the targets of the edges
/// leaving `u`, with multiplicity. Every target is a node of the graph.
pub open spec fn wf_graph(g: Seq<Seq<usize>>) -> bool {
    forall|u: int, k: int| 0 <= u < g.len() && 0 <= k < g[u].len() ==> #[trigger] g[u][k] < g.len()
}

/// Whether there is an edge from `u` to `v`.
pub open spec fn has_edge(g: Seq<Seq<usize>>, u: usize, v: usize) -> bool {
    u < g.len() && g[u as int].contains(v)
}

/// `order` lists every node exactly once and every edge goes forward in it.
pub open spec fn is_topo_order(g: Seq<Seq<usize>>, order: Seq<usize>) -> bool {
    &&& order.no_duplicates()
    &&& forall|i: int| 0 <= i < order.len() ==> #[trigger] order[i] < g.len()
    &&& forall|v: usize| v < g.len() ==> #[trigger] order.contains(v)
    &&& forall|a: int, b: int|
        0 <= a < order.len() && 0 <= b < order.len() && #[trigger] has_edge(g, order[a], order[b]) ==> a < b
}

/// The graph has no cycle: its nodes can be put in topological order.
pub open spec fn is_acyclic(g: Seq<Seq<usize>>) -> bool {
    exists|order: Seq<usize>| is_topo_order(g, order)
}

/// Every node of `s` is a node of `g` and has a predecessor in `s`
/// (such a nonempty set is a cycle or lies behind one).
pub open spec fn pred_closed(g: Seq<Seq<usize>>, s: Set<usize>) -> bool {
    forall|v: usize| #[trigger] s.contains(v) ==> v < g.len() && exists|u: usize| s.contains(u) && has_edge(g, u, v)
}

/// The number of occurrences of `v` in `s`.
pub open spec fn occ(s: Seq<usize>, v: usize) -> nat
    decreases s.len(),
{
    if s.len() == 0 {
        0
    } else {
        (if s[0] == v { 1nat } else { 0nat }) + occ(s.drop_first(), v)
    }
}

/// The number of edges into `v` from the nodes below `upto` that are not in `done`.
pub open spec fn cnt(g: Seq<Seq<usize>>, done: Set<usize>, v: usize, upto: int) -> nat
    decreases upto,
{
    if upto <= 0 {
        0
    } else {
        cnt(g, done, v, upto - 1) + (if done.contains((upto - 1) as usize) { 0nat } else { occ(g[upto - 1], v) })
    }
}

proof fn lemma_occ_pos(s: Seq<usize>, v: usize)
    ensures
        (occ(s, v) > 0) == s.contains(v),
    decreases s.len(),
{
    if s.len() > 0 {
        lemma_occ_pos(s.drop_first(), v);
        if s[0] != v && s.contains(v) {
            let k = choose|k: int| 0 <= k < s.len() && s[k] == v;
            assert(s.drop_first()[k - 1] == v);
        }
        if s.drop_first().contains(v) {
            let k = choose|k: int| 0 <= k < s.drop_first().len() && s.drop_first()[k] == v;
            assert(s[k + 1] == v);
        }
    }
}

proof fn lemma_occ_le_len(s: Seq<usize>, v: usize)
    ensures
        occ(s, v) <= s.len(),
    decreases s.len(),
{
    if s.len() > 0 {
        lemma_occ_le_len(s.drop_first(), v);
    }
}

proof fn lemma_occ_skip(s: Seq<usize>, k: int, v: usize)
    requires
        0 <= k < s.len(),
    ensures
        occ(s.skip(k), v) == (if s[k] == v { 1nat } else { 0nat }) + occ(s.skip(k + 1), v),
{
    assert(s.skip(k).drop_first() =~= s.skip(k + 1));
}

proof fn lemma_occ_concat(a: Seq<usize>, b: Seq<usize>, v: usize)
    ensures
        occ(a + b, v) == occ(a, v) + occ(b, v),
    decreases a.len(),
{
    if a.len() > 0 {
        lemma_occ_concat(a.drop_first(), b, v);
        assert((a + b).drop_first() =~= a.drop_first() + b);
    } else {
        assert(a + b =~= b);
    }
}

proof fn lemma_occ_take(s: Seq<usize>, k: int, v: usize)
    requires
        0 <= k < s.len(),
    ensures
        occ(s.take(k + 1), v) == occ(s.take(k), v) + (if s[k] == v { 1nat } else { 0nat }),
{
    assert(s.take(k + 1) =~= s.take(k) + seq![s[k]]);
    lemma_occ_concat(s.take(k), seq![s[k]], v);
    assert(seq![s[k]].drop_first() =~= Seq::<usize>::empty());
    assert(occ(Seq::<usize>::empty(), v) == 0);
    assert(occ(seq![s[k]], v) == (if s[k] == v { 1nat } else { 0nat }) + occ(seq![s[k]].drop_first(), v));
}

proof fn lemma_cnt_zero(g: Seq<Seq<usize>>, done: Set<usize>, v: usize, upto: int)
    requires
        upto <= g.len(),
        g.len() <= usize::MAX,
    ensures
        (cnt(g, done, v, upto) == 0) == (forall|u: usize| u < upto && !done.contains(u) ==> !#[trigger] g[u as int].contains(v)),
    decreases upto,
{
    if upto > 0 {
        lemma_cnt_zero(g, done, v, upto - 1);
        lemma_occ_pos(g[upto - 1], v);
        let w = (upto - 1) as usize;
        assert(w as int == upto - 1);
        if !done.contains(w) && g[upto - 1].contains(v) {
            assert(g[w as int].contains(v));
        }
    }
}

proof fn lemma_cnt_insert(g: Seq<Seq<usize>>, done: Set<usize>, u: usize, v: usize, upto: int)
    requires
        !done.contains(u),
        upto <= g.len(),
        g.len() <= usize::MAX,
    ensures
        cnt(g, done, v, upto) == cnt(g, done.insert(u), v, upto) + (if u < upto { occ(g[u as int], v) } else { 0nat }),
    decreases upto,
{
    if upto > 0 {
        lemma_cnt_insert(g, done, u, v, upto - 1);
        let w = (upto - 1) as usize;
        assert(w as int == upto - 1);
        if w == u {
            assert(done.insert(u).contains(w));
        } else {
            assert(done.insert(u).contains(w) == done.contains(w));
        }
    }
}

proof fn lemma_cnt_bound(g: Seq<Seq<usize>>, done: Set<usize>, v: usize, upto: int)
    requires
        0 <= upto <= g.len(),
        forall|w: int| 0 <= w < upto ==> #[trigger] g[w].len() <= usize::MAX,
    ensures
        cnt(g, done, v, upto) <= upto * (usize::MAX as int),
    decreases upto,
{
    if upto > 0 {
        lemma_cnt_bound(g, done, v, upto - 1);
        lemma_occ_le_len(g[upto - 1], v);
        assert(g[upto - 1].len() <= usize::MAX);
        let m = usize::MAX as int;
        assert((upto - 1) * m + m == upto * m) by (nonlinear_arith);
    }
}

/// A sequence of distinct values below `n` has at most `n` elements.
pub proof fn lemma_nodup_bounded(s: Seq<usize>, n: nat)
    requires
        s.no_duplicates(),
        forall|i: int| 0 <= i < s.len() ==> #[trigger] s[i] < n,
    ensures
        s.len() <= n,
    decreases n,
{
    if n == 0 {
        if s.len() > 0 {
            assert(s[0] < 0);
        }
    } else {
        let top = (n - 1) as usize;
        if s.contains(top) {
            let k = choose|k: int| 0 <= k < s.len() && s[k] == top;
            let r = s.remove(k);
            assert forall|i: int| 0 <= i < r.len() implies #[trigger] r[i] < n - 1 by {
                if i < k {
                    assert(r[i] == s[i]);
                } else {
                    assert(r[i] == s[i + 1]);
                }
            }
            assert forall|i: int, j: int| 0 <= i < r.len() && 0 <= j < r.len() && i != j implies r[i] != r[j] by {
                let si = if i < k { i } else { i + 1 };
                let sj = if j < k { j } else { j + 1 };
                assert(r[i] == s[si]);
                assert(r[j] == s[sj]);
            }
            lemma_nodup_bounded(r, (n - 1) as nat);
        } else {
            assert forall|i: int| 0 <= i < s.len() implies #[trigger] s[i] < n - 1 by {
                if s[i] == top {
                    assert(s.contains(top));
                }
            }
            lemma_nodup_bounded(s, (n - 1) as nat);
        }
    }
}

/// A topological order cannot exist when some nonempty set of nodes is closed
/// under predecessors.
pub proof fn lemma_pred_closed_blocks_order(g: Seq<Seq<usize>>, s: Set<usize>, w: usize, order: Seq<usize>)
    requires
        pred_closed(g, s),
        s.contains(w),
    ensures
        !is_topo_order(g, order),
{
    if is_topo_order(g, order) {
        assert(w < g.len());
        assert(order.contains(w));
        let a0 = choose|a: int| 0 <= a < order.len() && order[a] == w;
        lemma_first_in_set(g, s, order, a0);
    }
}

proof fn lemma_first_in_set(g: Seq<Seq<usize>>, s: Set<usize>, order: Seq<usize>, a: int)
    requires
        pred_closed(g, s),
        is_topo_order(g, order),
        0 <= a < order.len(),
    ensures
        !s.contains(order[a]),
    decreases a,
{
    let v = order[a];
    if s.contains(v) {
        let u = choose|u: usize| s.contains(u) && has_edge(g, u, v);
        assert(u < g.len());
        assert(order.contains(u));
        let b = choose|b: int| 0 <= b < order.len() && order[b] == u;
        assert(has_edge(g, order[b], order[a]));
        lemma_first_in_set(g, s, order, b);
    }
}

/// What Kahn's algorithm computes on `g`: `order` lists without repetition the nodes
/// that lie on no cycle and behind none, every edge among them going forward; `stuck`
/// lists the other nodes in increasing order, and is the greatest predecessor-closed set.
pub open spec fn kahn_result(g: Seq<Seq<usize>>, order: Seq<usize>, stuck: Seq<usize>) -> bool {
    &&& order.no_duplicates()
    &&& forall|i: int| 0 <= i < order.len() ==> #[trigger] order[i] < g.len()
    &&& forall|i: int, j: int| 0 <= i < j < stuck.len() ==> stuck[i] < stuck[j]
    &&& forall|i: int| 0 <= i < stuck.len() ==> #[trigger] stuck[i] < g.len()
    &&& forall|v: usize| v < g.len() ==> (#[trigger] order.contains(v) != stuck.contains(v))
    &&& forall|a: int, b: int|
        0 <= a < order.len() && 0 <= b < order.len() && #[trigger] has_edge(g, order[a], order[b]) ==> a < b
    &&& pred_closed(g, stuck.to_set())
    &&& forall|s: Set<usize>| #[trigger] pred_closed(g, s) ==> s.subset_of(stuck.to_set())
}

/// With no node left over, Kahn's order is a topological order; with some left
/// over, the graph has no topological order.
pub proof fn lemma_kahn_decides(g: Seq<Seq<usize>>, order: Seq<usize>, stuck: Seq<usize>)
    requires
        kahn_result(g, order, stuck),
    ensures
        stuck.len() == 0 ==> is_topo_order(g, order),
        stuck.len() == 0 <==> is_acyclic(g),
{
    if stuck.len() == 0 {
        assert forall|v: usize| v < g.len() implies #[trigger] order.contains(v) by {
            assert(order.contains(v) != stuck.contains(v));
        }
        assert(is_topo_order(g, order));
    } else {
        let w = stuck[0];
        assert(stuck.to_set().contains(w));
        assert forall|o: Seq<usize>| !is_topo_order(g, o) by {
            lemma_pred_closed_blocks_order(g, stuck.to_set(), w, o);
        }
    }
}

/// The index model of an adjacency list.
pub open spec fn model(g: Seq<Vec<usize>>) -> Seq<Seq<usize>> {
    g.map_values(|v: Vec<usize>| v@)
}

/// The state of Kahn's algorithm between steps: `queue` holds, in the order they
/// were found, the nodes whose in-degree dropped to zero.
pub open spec fn queue_inv(m: Seq<Seq<usize>>, indeg: Seq<u128>, queue: Seq<usize>) -> bool {
    &&& indeg.len() == m.len()
    &&& queue.no_duplicates()
    &&& forall|i: int| 0 <= i < queue.len() ==> #[trigger] queue[i] < m.len()
    &&& forall|w: usize| w < m.len() ==> (indeg[w as int] == 0) == #[trigger] queue.contains(w)
    &&& forall|i: int, w: usize| 0 <= i < queue.len() && #[trigger] has_edge(m, w, queue[i])
        ==> exists|j: int| 0 <= j < i && queue[j] == w
    &&& forall|s: Set<usize>, i: int| #![trigger pred_closed(m, s), queue[i]]
        pred_closed(m, s) && 0 <= i < queue.len() ==> !s.contains(queue[i])
}

/// `done` is the set of the first `head` nodes of `queue`.
pub open spec fn done_inv(queue: Seq<usize>, head: int, done: Set<usize>) -> bool {
    &&& 0 <= head <= queue.len()
    &&& forall|x: usize| #[trigger] done.contains(x) == (exists|j: int| 0 <= j < head && queue[j] == x)
}

fn kahn_indegrees(g: &Vec<Vec<usize>>) -> (indeg: Vec<u128>)
    requires
        wf_graph(model(g@)),
    ensures
        indeg@.len() == g@.len(),
        forall|v: usize| v < g@.len() ==> #[trigger] indeg@[v as int] == cnt(model(g@), Set::empty(), v, g@.len() as int),
{
    let ghost m = model(g@);
    let n = g.len();
    let mut indeg: Vec<u128> = Vec::new();
    let mut i: usize = 0;
    while i < n
        invariant
            i <= n,
            indeg@.len() == i,
            forall|j: int| 0 <= j < i ==> indeg@[j] == 0,
        decreases n - i,
    {
        indeg.push(0);
        i += 1;
    }
    let mut u: usize = 0;
    while u < n
        invariant
            u <= n,
            n == g.len(),
            m == model(g@),
            m.len() == n,
            wf_graph(m),
            indeg@.len() == n,
            forall|v: usize| v < n ==> #[trigger] indeg@[v as int] == cnt(m, Set::empty(), v, u as int),
            forall|w: int| 0 <= w < u ==> #[trigger] m[w].len() <= usize::MAX,
        decreases n - u,
    {
        let len = g[u].len();
        assert(m[u as int] == g@[u as int]@);
        let mut k: usize = 0;
        while k < len
            invariant
                k <= len,
                u < n,
                n == g.len(),
                m.len() == n,
                len == m[u as int].len(),
                m == model(g@),
                wf_graph(m),
                indeg@.len() == n,
                forall|v: usize| v < n ==> #[trigger] indeg@[v as int] == cnt(m, Set::empty(), v, u as int) + occ(m[u as int].take(k as int), v),
                forall|w: int| 0 <= w <= u ==> #[trigger] m[w].len() <= usize::MAX,
            decreases len - k,
        {
            let t = g[u][k];
            assert(m[u as int][k as int] == t);
            proof {
                assert forall|v: usize| v < n implies occ(m[u as int].take(k as int + 1), v)
                    == occ(m[u as int].take(k as int), v) + (if m[u as int][k as int] == v { 1nat } else { 0nat }) by {
                    lemma_occ_take(m[u as int], k as int, v);
                }
                lemma_cnt_bound(m, Set::empty(), t, u as int);
                lemma_occ_le_len(m[u as int].take(k as int), t);
                let mx = usize::MAX as int;
                assert((u as int) * mx <= mx * mx) by (nonlinear_arith)
                    requires u <= mx, mx >= 0;
                assert(mx * mx + mx < u128::MAX) by (nonlinear_arith)
                    requires 0 <= mx <= u64::MAX;
            }
            let cur = indeg[t];
            indeg.set(t, cur + 1);
            k += 1;
        }
        assert(m[u as int].take(len as int) =~= m[u as int]);
        u += 1;
    }
    indeg
}

fn kahn_initial_queue(g: &Vec<Vec<usize>>, indeg: &Vec<u128>) -> (queue: Vec<usize>)
    requires
        wf_graph(model(g@)),
        indeg@.len() == g@.len(),
        forall|v: usize| v < g@.len() ==> #[trigger] indeg@[v as int] == cnt(model(g@), Set::empty(), v, g@.len() as int),
    ensures
        queue_inv(model(g@), indeg@, queue@),
{
    let ghost m = model(g@);
    let n = g.len();
    let mut queue: Vec<usize> = Vec::new();
    let mut v: usize = 0;
    while v < n
        invariant
            v <= n,
            n == g.len(),
            m == model(g@),
            m.len() == n,
            indeg@.len() == n,
            queue@.no_duplicates(),
            forall|i: int| 0 <= i < queue@.len() ==> #[trigger] queue@[i] < v,
            forall|w: usize| w < v ==> (indeg@[w as int] == 0) == #[trigger] queue@.contains(w),
            forall|i: int| 0 <= i < queue@.len() ==> #[trigger] indeg@[queue@[i] as int] == 0,
        decreases n - v,
    {
        let ghost q0 = queue@;
        if indeg[v] == 0 {
            queue.push(v);
            proof {
                assert forall|w: usize| w < v + 1 implies (indeg@[w as int] == 0) == #[trigger] queue@.contains(w) by {
                    if w < v {
                        if q0.contains(w) {
                            let j = choose|j: int| 0 <= j < q0.len() && q0[j] == w;
                            assert(queue@[j] == w);
                        }
                        if queue@.contains(w) {
                            let j = choose|j: int| 0 <= j < queue@.len() && queue@[j] == w;
                            assert(j < q0.len());
                            assert(q0[j] == w);
                        }
                    } else {
                        assert(queue@[q0.len() as int] == w);
                    }
                }
            }
        } else {
            assert forall|w: usize| w < v + 1 implies (indeg@[w as int] == 0) == #[trigger] queue@.contains(w) by {
                if w == v && queue@.contains(w) {
                    let j = choose|j: int| 0 <= j < queue@.len() && queue@[j] == w;
                }
            }
        }
        v += 1;
    }
    proof {
        assert forall|i: int, w: usize| 0 <= i < queue@.len() && #[trigger] has_edge(m, w, queue@[i])
            implies exists|j: int| 0 <= j < i && queue@[j] == w by {
            let x = queue@[i];
            assert(indeg@[x as int] == 0);
            lemma_cnt_zero(m, Set::empty(), x, n as int);
            assert(m[w as int].contains(x));
            assert(!Set::<usize>::empty().contains(w));
        }
        assert forall|s: Set<usize>, i: int| #![trigger pred_closed(m, s), queue@[i]]
            pred_closed(m, s) && 0 <= i < queue@.len() implies !s.contains(queue@[i]) by {
            let x = queue@[i];
            assert(indeg@[x as int] == 0);
            lemma_cnt_zero(m, Set::empty(), x, n as int);
            if s.contains(x) {
                let w = choose|w: usize| s.contains(w) && has_edge(m, w, x);
                assert(m[w as int].contains(x));
                assert(!Set::<usize>::empty().contains(w));
            }
        }
    }
    queue
}

/// Pushing a node whose remaining in-degree dropped to zero keeps the queue invariant.
proof fn lemma_queue_push(m: Seq<Seq<usize>>, indeg: Seq<u128>, q0: Seq<usize>, t: usize, head: int, done: Set<usize>)
    requires
        queue_inv(m, indeg.update(t as int, 1), q0),
        done_inv(q0, head, done),
        t < m.len(),
        indeg[t as int] == 0,
        indeg.len() == m.len(),
        m.len() <= usize::MAX,
        cnt(m, done, t, m.len() as int) == 0,
    ensures
        queue_inv(m, indeg, q0.push(t)),
        done_inv(q0.push(t), head, done),
{
    let queue = q0.push(t);
    let old_indeg = indeg.update(t as int, 1);
    assert(!q0.contains(t)) by {
        assert(old_indeg[t as int] != 0);
    }
    lemma_cnt_zero(m, done, t, m.len() as int);
    assert forall|w: usize| w < m.len() implies (indeg[w as int] == 0) == #[trigger] queue.contains(w) by {
        if w != t {
            assert(old_indeg[w as int] == indeg[w as int]);
            if q0.contains(w) {
                let j = choose|j: int| 0 <= j < q0.len() && q0[j] == w;
                assert(queue[j] == w);
            }
            if queue.contains(w) {
                let j = choose|j: int| 0 <= j < queue.len() && queue[j] == w;
                assert(j < q0.len());
                assert(q0[j] == w);
            }
        } else {
            assert(queue[q0.len() as int] == t);
        }
    }
    assert forall|i: int, w: usize| 0 <= i < queue.len() && #[trigger] has_edge(m, w, queue[i])
        implies exists|j: int| 0 <= j < i && queue[j] == w by {
        if i < q0.len() {
            assert(queue[i] == q0[i]);
            assert(has_edge(m, w, q0[i]));
            let j = choose|j: int| 0 <= j < i && q0[j] == w;
            assert(queue[j] == w);
        } else {
            assert(queue[i] == t);
            assert(m[w as int].contains(t));
            assert(done.contains(w));
            let j = choose|j: int| 0 <= j < head && q0[j] == w;
            assert(queue[j] == w);
        }
    }
    assert forall|s: Set<usize>, i: int| #![trigger pred_closed(m, s), queue[i]]
        pred_closed(m, s) && 0 <= i < queue.len() implies !s.contains(queue[i]) by {
        if i < q0.len() {
            assert(queue[i] == q0[i]);
        } else if s.contains(t) {
            assert(queue[i] == t);
            let w = choose|w: usize| s.contains(w) && has_edge(m, w, t);
            assert(m[w as int].contains(t));
            assert(done.contains(w));
            let j = choose|j: int| 0 <= j < head && q0[j] == w;
            assert(!s.contains(q0[j]));
        }
    }
    assert forall|i: int| 0 <= i < queue.len() implies #[trigger] queue[i] < m.len() by {
        if i < q0.len() { assert(queue[i] == q0[i]); }
    }
    assert(queue.no_duplicates()) by {
        assert forall|i: int, j: int| 0 <= i < queue.len() && 0 <= j < queue.len() && i != j implies queue[i] != queue[j] by {
            if i < q0.len() && j < q0.len() {
                assert(queue[i] == q0[i] && queue[j] == q0[j]);
            } else if i < q0.len() {
                assert(q0.contains(q0[i]));
                assert(queue[i] == q0[i]);
            } else if j < q0.len() {
                assert(q0.contains(q0[j]));
                assert(queue[j] == q0[j]);
            }
        }
    }
    assert forall|x: usize| #[trigger] done.contains(x) == (exists|j: int| 0 <= j < head && queue[j] == x) by {
        if done.contains(x) {
            let j = choose|j: int| 0 <= j < head && q0[j] == x;
            assert(queue[j] == x);
        }
        if exists|j: int| 0 <= j < head && queue[j] == x {
            let j = choose|j: int| 0 <= j < head && queue[j] == x;
            assert(q0[j] == x);
        }
    }
}

fn kahn_relax(g: &Vec<Vec<usize>>, u: usize, indeg: &mut Vec<u128>, queue: &mut Vec<usize>, Ghost(head): Ghost<int>, Ghost(done): Ghost<Set<usize>>)
    requires
        wf_graph(model(g@)),
        u < g@.len(),
        queue_inv(model(g@), old(indeg)@, old(queue)@),
        done_inv(old(queue)@, head, done),
        done.contains(u),
        forall|v: usize| v < g@.len() ==> #[trigger] old(indeg)@[v as int] == cnt(model(g@), done, v, g@.len() as int) + occ(model(g@)[u as int], v),
    ensures
        queue_inv(model(g@), final(indeg)@, final(queue)@),
        done_inv(final(queue)@, head, done),
        forall|v: usize| v < g@.len() ==> #[trigger] final(indeg)@[v as int] == cnt(model(g@), done, v, g@.len() as int),
        old(queue)@.len() <= final(queue)@.len(),
{
    let ghost m = model(g@);
    let n = g.len();
    let len = g[u].len();
    assert(m[u as int] == g@[u as int]@);
    assert(m[u as int].skip(0) =~= m[u as int]);
    let mut k: usize = 0;
    while k < len
        invariant
            k <= len,
            u < n,
            n == g.len(),
            m == model(g@),
            m.len() == n,
            wf_graph(m),
            len == m[u as int].len(),
            queue_inv(m, indeg@, queue@),
            done_inv(queue@, head, done),
            old(queue)@.len() <= queue@.len(),
            forall|v: usize| v < n ==> #[trigger] indeg@[v as int] == cnt(m, done, v, n as int) + occ(m[u as int].skip(k as int), v),
        decreases len - k,
    {
        let t = g[u][k];
        assert(m[u as int][k as int] == t);
        proof {
            lemma_occ_skip(m[u as int], k as int, t);
            assert forall|v: usize| v < n && v != t implies occ(m[u as int].skip(k as int), v) == occ(m[u as int].skip(k as int + 1), v) by {
                lemma_occ_skip(m[u as int], k as int, v);
            }
        }
        let cur = indeg[t];
        let ghost i0 = indeg@;
        indeg.set(t, cur - 1);
        if cur - 1 == 0 {
            proof {
                assert(indeg@.update(t as int, 1) =~= i0.update(t as int, 1));
                assert forall|w: usize| w < n implies (i0.update(t as int, 1)[w as int] == 0) == (i0[w as int] == 0) by {}
                assert(queue_inv(m, indeg@.update(t as int, 1), queue@));
                lemma_cnt_zero(m, done, t, n as int);
            }
            let ghost q0 = queue@;
            queue.push(t);
            proof {
                lemma_queue_push(m, indeg@, q0, t, head, done);
            }
        } else {
            proof {
                assert forall|w: usize| w < n implies (indeg@[w as int] == 0) == #[trigger] queue@.contains(w) by {
                    if w != t {
                        assert(indeg@[w as int] == i0[w as int]);
                    }
                }
            }
        }
        k += 1;
    }
    assert(m[u as int].skip(len as int) =~= Seq::<usize>::empty());
}

fn kahn_stuck(indeg: &Vec<u128>) -> (stuck: Vec<usize>)
    ensures
        forall|i: int, j: int| 0 <= i < j < stuck@.len() ==> stuck@[i] < stuck@[j],
        forall|i: int| 0 <= i < stuck@.len() ==> #[trigger] stuck@[i] < indeg@.len(),
        forall|w: usize| w < indeg@.len() ==> (indeg@[w as int] > 0) == #[trigger] stuck@.contains(w),
{
    let n = indeg.len();
    let mut stuck: Vec<usize> = Vec::new();
    let mut v: usize = 0;
    while v < n
        invariant
            v <= n,
            n == indeg@.len(),
            forall|i: int, j: int| 0 <= i < j < stuck@.len() ==> stuck@[i] < stuck@[j],
            forall|i: int| 0 <= i < stuck@.len() ==> #[trigger] stuck@[i] < v,
            forall|w: usize| w < v ==> (indeg@[w as int] > 0) == #[trigger] stuck@.contains(w),
        decreases n - v,
    {
        let ghost s0 = stuck@;
        if indeg[v] > 0 {
            stuck.push(v);
            proof {
                assert forall|w: usize| w < v + 1 implies (indeg@[w as int] > 0) == #[trigger] stuck@.contains(w) by {
                    if w < v {
                        if s0.contains(w) {
                            let j = choose|j: int| 0 <= j < s0.len() && s0[j] == w;
                            assert(stuck@[j] == w);
                        }
                        if stuck@.contains(w) {
                            let j = choose|j: int| 0 <= j < stuck@.len() && stuck@[j] == w;
                            assert(j < s0.len());
                            assert(s0[j] == w);
                        }
                    } else {
                        assert(stuck@[s0.len() as int] == w);
                    }
                }
            }
        } else {
            proof {
                assert forall|w: usize| w < v + 1 implies (indeg@[w as int] > 0) == #[trigger] stuck@.contains(w) by {
                    if w == v && stuck@.contains(w) {
                        let j = choose|j: int| 0 <= j < stuck@.len() && stuck@[j] == w;
                    }
                }
            }
        }
        v += 1;
    }
    stuck
}

/// Kahn's algorithm: the nodes in a topological order of the part of the graph that
/// is on no cycle and behind none (the order in which their in-degree drops to
/// zero), and, in increasing order, the other nodes.
pub fn kahn(g: &Vec<Vec<usize>>) -> (res: (Vec<usize>, Vec<usize>))
    requires
        wf_graph(model(g@)),
    ensures
        kahn_result(model(g@), res.0@, res.1@),
{
    let ghost m = model(g@);
    let n = g.len();
    let mut indeg = kahn_indegrees(g);
    let mut queue = kahn_initial_queue(g, &indeg);
    let mut head: usize = 0;
    let ghost mut done: Set<usize> = Set::empty();
    while head < queue.len()
        invariant
            n == g.len(),
            m == model(g@),
            m.len() == n,
            wf_graph(m),
            queue_inv(m, indeg@, queue@),
            done_inv(queue@, head as int, done),
            forall|v: usize| v < n ==> #[trigger] indeg@[v as int] == cnt(m, done, v, n as int),
        decreases n - head,
    {
        proof {
            lemma_nodup_bounded(queue@, n as nat);
        }
        let u = queue[head];
        let ghost done0 = done;
        proof {
            if done0.contains(u) {
                let j = choose|j: int| 0 <= j < head && queue@[j] == u;
                assert(queue@[j] == queue@[head as int]);
            }
            done = done0.insert(u);
            assert forall|v: usize| v < n implies cnt(m, done0, v, n as int) == cnt(m, done, v, n as int) + occ(m[u as int], v) by {
                lemma_cnt_insert(m, done0, u, v, n as int);
            }
            assert forall|x: usize| #[trigger] done.contains(x) == (exists|j: int| 0 <= j < head + 1 && queue@[j] == x) by {
                if done.contains(x) && x != u {
                    let j = choose|j: int| 0 <= j < head && queue@[j] == x;
                }
                if exists|j: int| 0 <= j < head + 1 && queue@[j] == x {
                    let j = choose|j: int| 0 <= j < head + 1 && queue@[j] == x;
                    if j < head {
                        assert(done0.contains(x));
                    }
                }
            }
        }
        head += 1;
        kahn_relax(g, u, &mut indeg, &mut queue, Ghost(head as int), Ghost(done));
    }
    let stuck = kahn_stuck(&indeg);
    proof {
        assert forall|x: usize| #[trigger] done.contains(x) == queue@.contains(x) by {
            if queue@.contains(x) {
                let j = choose|j: int| 0 <= j < queue@.len() && queue@[j] == x;
            }
        }
        assert forall|a: int, b: int|
            0 <= a < queue@.len() && 0 <= b < queue@.len() && #[trigger] has_edge(m, queue@[a], queue@[b]) implies a < b by {
            let j = choose|j: int| 0 <= j < b && queue@[j] == queue@[a];
        }
        assert forall|v: usize| v < m.len() implies (#[trigger] queue@.contains(v) != stuck@.contains(v)) by {}
        assert forall|x: usize| #[trigger] stuck@.to_set().contains(x)
            implies x < m.len() && exists|w: usize| stuck@.to_set().contains(w) && has_edge(m, w, x) by {
            assert(stuck@.contains(x));
            let jx = choose|j: int| 0 <= j < stuck@.len() && stuck@[j] == x;
            assert(x < n);
            lemma_cnt_zero(m, done, x, n as int);
            let w = choose|w: usize| w < n && !done.contains(w) && #[trigger] m[w as int].contains(x);
            assert(!queue@.contains(w));
            assert(stuck@.contains(w));
            assert(has_edge(m, w, x));
        }
        assert forall|s: Set<usize>| #[trigger] pred_closed(m, s) implies s.subset_of(stuck@.to_set()) by {
            assert forall|x: usize| s.contains(x) implies stuck@.to_set().contains(x) by {
                if queue@.contains(x) {
                    let i = choose|i: int| 0 <= i < queue@.len() && queue@[i] == x;
                    assert(!s.contains(queue@[i]));
                }
                assert(stuck@.contains(x));
            }
        }
    }
    (queue, stuck)
}

/// `path` is a walk along edges of `g` from `path[0]` to its last node.
pub open spec fn is_path(g: Seq<Seq<usize>>, path: Seq<usize>) -> bool {
    &&& path.len() >= 1
    &&& forall|i: int| 0 <= i < path.len() ==> #[trigger] path[i] < g.len()
    &&& forall|i: int| 0 <= i < path.len() - 1 ==> #[trigger] has_edge(g, path[i], path[i + 1])
}

/// `t` can be reached from `s` by following edges (every node reaches itself).
pub open spec fn reachable(g: Seq<Seq<usize>>, s: usize, t: usize) -> bool {
    exists|path: Seq<usize>| is_path(g, path) && path[0] == s && path.last() == t
}

/// The number of `false` entries.
pub open spec fn count_false(v: Seq<bool>) -> nat
    decreases v.len(),
{
    if v.len() == 0 {
        0
    } else {
        count_false(v.drop_last()) + (if v.last() { 0nat } else { 1nat })
    }
}

proof fn lemma_count_false_set(v: Seq<bool>, i: int)
    requires
        0 <= i < v.len(),
        !v[i],
    ensures
        count_false(v.update(i, true)) + 1 == count_false(v),
    decreases v.len(),
{
    if i < v.len() - 1 {
        lemma_count_false_set(v.drop_last(), i);
        assert(v.update(i, true).drop_last() =~= v.drop_last().update(i, true));
    } else {
        assert(v.update(i, true).drop_last() =~= v.drop_last());
    }
}

proof fn lemma_reach_extend(g: Seq<Seq<usize>>, s: usize, v: usize, w: usize)
    requires
        reachable(g, s, v),
        has_edge(g, v, w),
        wf_graph(g),
    ensures
        reachable(g, s, w),
{
    let p = choose|p: Seq<usize>| is_path(g, p) && p[0] == s && p.last() == v;
    let q = p.push(w);
    assert(g[v as int].contains(w));
    let k = choose|k: int| 0 <= k < g[v as int].len() && g[v as int][k] == w;
    assert(w < g.len());
    assert forall|i: int| 0 <= i < q.len() - 1 implies #[trigger] has_edge(g, q[i], q[i + 1]) by {
        if i < p.len() - 1 {
            assert(q[i] == p[i] && q[i + 1] == p[i + 1]);
        }
    }
    assert(q[0] == s);
    assert(q.last() == w);
    assert forall|i: int| 0 <= i < q.len() implies #[trigger] q[i] < g.len() by {
        if i < p.len() { assert(q[i] == p[i]); }
    }
    assert(is_path(g, q));
}

proof fn lemma_closed_contains_reachable(g: Seq<Seq<usize>>, vis: Seq<bool>, path: Seq<usize>)
    requires
        vis.len() == g.len(),
        is_path(g, path),
        vis[path[0] as int],
        forall|v: usize, w: usize| v < g.len() && vis[v as int] && #[trigger] has_edge(g, v, w) ==> vis[w as int],
    ensures
        vis[path.last() as int],
    decreases path.len(),
{
    if path.len() > 1 {
        let p = path.drop_last();
        assert forall|i: int| 0 <= i < p.len() - 1 implies #[trigger] has_edge(g, p[i], p[i + 1]) by {
            assert(has_edge(g, path[i], path[i + 1]));
        }
        lemma_closed_contains_reachable(g, vis, p);
        let i = path.len() - 2;
        assert(has_edge(g, path[i], path[i + 1]));
        assert(p.last() == path[i]);
    }
}

/// The nodes reachable from `s`, as one flag per node.
pub fn reach(g: &Vec<Vec<usize>>, s: usize) -> (vis: Vec<bool>)
    requires
        wf_graph(model(g@)),
        s < g@.len(),
    ensures
        vis@.len() == g@.len(),
        forall|v: usize| v < g@.len() ==> #[trigger] vis@[v as int] == reachable(model(g@), s, v),
{
    let ghost m = model(g@);
    let n = g.len();
    let mut vis: Vec<bool> = Vec::new();
    let mut i: usize = 0;
    while i < n
        invariant
            i <= n,
            vis@.len() == i,
            forall|j: int| 0 <= j < i ==> !vis@[j],
        decreases n - i,
    {
        vis.push(false);
        i += 1;
    }
    let mut stack: Vec<usize> = Vec::new();
    proof {
        lemma_count_false_set(vis@, s as int);
    }
    vis.set(s, true);
    stack.push(s);
    proof {
        let p = seq![s];
        assert(is_path(m, p));
        assert(p[0] == s && p.last() == s);
        assert(reachable(m, s, s));
        assert forall|v: usize| v < n && #[trigger] vis@[v as int] implies v == s by {}
        assert(stack@[0] == s);
    }
    while stack.len() > 0
        invariant
            n == g.len(),
            m == model(g@),
            m.len() == n,
            wf_graph(m),
            s < n,
            vis@.len() == n,
            vis@[s as int],
            forall|i: int| 0 <= i < stack@.len() ==> #[trigger] stack@[i] < n && vis@[stack@[i] as int],
            stack@.no_duplicates(),
            forall|v: usize| v < n && #[trigger] vis@[v as int] ==> reachable(m, s, v),
            forall|v: usize, w: usize| v < n && vis@[v as int] && !stack@.contains(v) && #[trigger] has_edge(m, v, w) ==> vis@[w as int],
        decreases 2 * count_false(vis@) + stack@.len(),
    {
        let ghost measure0 = 2 * count_false(vis@) + stack@.len();
        let ghost full = stack@;
        let v = stack.pop().unwrap();
        assert(stack@ =~= full.drop_last());
        assert(v == full.last());
        assert(!stack@.contains(v)) by {
            if stack@.contains(v) {
                let j = choose|j: int| 0 <= j < stack@.len() && stack@[j] == v;
                assert(full[j] == full[full.len() - 1]);
            }
        }
        assert forall|x: usize, w: usize| x < n && x != v && vis@[x as int] && !stack@.contains(x) && #[trigger] has_edge(m, x, w) implies vis@[w as int] by {
            if full.contains(x) {
                let j = choose|j: int| 0 <= j < full.len() && full[j] == x;
                if j < full.len() - 1 {
                    assert(stack@[j] == x);
                }
            }
        }
        let len = g[v].len();
        assert(m[v as int] == g@[v as int]@);
        let mut k: usize = 0;
        while k < len
            invariant
                k <= len,
                v < n,
                n == g.len(),
                m == model(g@),
                m.len() == n,
                wf_graph(m),
                len == m[v as int].len(),
                s < n,
                vis@.len() == n,
                vis@[s as int],
                vis@[v as int],
                reachable(m, s, v),
                !stack@.contains(v),
                forall|i: int| 0 <= i < stack@.len() ==> #[trigger] stack@[i] < n && vis@[stack@[i] as int],
                stack@.no_duplicates(),
                forall|x: usize| x < n && #[trigger] vis@[x as int] ==> reachable(m, s, x),
                forall|x: usize, w: usize| x < n && x != v && vis@[x as int] && !stack@.contains(x) && #[trigger] has_edge(m, x, w) ==> vis@[w as int],
                forall|j: int| 0 <= j < k ==> vis@[#[trigger] m[v as int][j] as int],
                2 * count_false(vis@) + stack@.len() < measure0,
            decreases len - k,
        {
            let w = g[v][k];
            assert(m[v as int][k as int] == w);
            if !vis[w] {
                proof {
                    lemma_count_false_set(vis@, w as int);
                    assert(has_edge(m, v, w));
                    lemma_reach_extend(m, s, v, w);
                }
                let ghost s1 = stack@;
                vis.set(w, true);
                stack.push(w);
                proof {
                    assert forall|i: int| 0 <= i < stack@.len() implies #[trigger] stack@[i] < n && vis@[stack@[i] as int] by {
                        if i < s1.len() { assert(stack@[i] == s1[i]); }
                    }
                    assert(!s1.contains(w)) by {
                        if s1.contains(w) {
                            let j = choose|j: int| 0 <= j < s1.len() && s1[j] == w;
                        }
                    }
                    assert forall|a: int, b: int| 0 <= a < stack@.len() && 0 <= b < stack@.len() && a != b implies stack@[a] != stack@[b] by {
                        if a < s1.len() && b < s1.len() {
                        } else if a < s1.len() {
                            assert(stack@[a] == s1[a]);
                        } else if b < s1.len() {
                            assert(stack@[b] == s1[b]);
                        }
                    }
                    assert(!stack@.contains(v)) by {
                        if stack@.contains(v) {
                            let j = choose|j: int| 0 <= j < stack@.len() && stack@[j] == v;
                            if j < s1.len() {
                                assert(s1[j] == v);
                            }
                        }
                    }
                    assert forall|x: usize, y: usize| x < n && x != v && vis@[x as int] && !stack@.contains(x) && #[trigger] has_edge(m, x, y) implies vis@[y as int] by {
                        if x != w {
                            assert(!s1.contains(x)) by {
                                if s1.contains(x) {
                                    let j = choose|j: int| 0 <= j < s1.len() && s1[j] == x;
                                    assert(stack@[j] == x);
                                }
                            }
                        } else {
                            assert(stack@[s1.len() as int] == w);
                        }
                    }
                }
            }
            k += 1;
        }
        proof {
            assert forall|x: usize, y: usize| x < n && vis@[x as int] && !stack@.contains(x) && #[trigger] has_edge(m, x, y) implies vis@[y as int] by {
                if x == v {
                    let j = choose|j: int| 0 <= j < m[v as int].len() && m[v as int][j] == y;
                }
            }
        }
    }
    proof {
        assert forall|v: usize| v < n implies #[trigger] vis@[v as int] == reachable(m, s, v) by {
            if reachable(m, s, v) {
                let p = choose|p: Seq<usize>| is_path(m, p) && p[0] == s && p.last() == v;
                lemma_closed_contains_reachable(m, vis@, p);
            }
        }
    }
    vis
}

/// Whether `v` lies on a cycle or can be reached from one: it belongs to a set of
/// nodes in which every node has a predecessor.
pub open spec fn on_or_behind_cycle(g: Seq<Seq<usize>>, v: usize) -> bool {
    exists|s: Set<usize>| #[trigger] pred_closed(g, s) && s.contains(v)
}

/// The nodes Kahn's algorithm leaves over are exactly those on or behind a cycle.
pub proof fn lemma_stuck_is_cycle_part(m: Seq<Seq<usize>>, order: Seq<usize>, stuck: Seq<usize>)
    requires
        kahn_result(m, order, stuck),
    ensures
        forall|v: usize| v < m.len() ==> (#[trigger] stuck.contains(v) == on_or_behind_cycle(m, v)),
{
    assert forall|v: usize| v < m.len() implies (#[trigger] stuck.contains(v) == on_or_behind_cycle(m, v)) by {
        lemma_stuck_member(m, order, stuck, v);
    }
}

proof fn lemma_stuck_member(m: Seq<Seq<usize>>, order: Seq<usize>, stuck: Seq<usize>, v: usize)
    requires
        kahn_result(m, order, stuck),
    ensures
        stuck.contains(v) == on_or_behind_cycle(m, v),
{
    if stuck.contains(v) {
        lemma_stuck_member_fwd(m, order, stuck, v);
    }
    if on_or_behind_cycle(m, v) {
        lemma_stuck_member_bwd(m, order, stuck, v);
    }
}

proof fn lemma_stuck_member_fwd(m: Seq<Seq<usize>>, order: Seq<usize>, stuck: Seq<usize>, v: usize)
    requires
        pred_closed(m, stuck.to_set()),
        stuck.contains(v),
    ensures
        on_or_behind_cycle(m, v),
{
    let st = stuck.to_set();
    assert(st.contains(v));
}

proof fn lemma_stuck_member_bwd(m: Seq<Seq<usize>>, order: Seq<usize>, stuck: Seq<usize>, v: usize)
    requires
        forall|s: Set<usize>| #[trigger] pred_closed(m, s) ==> s.subset_of(stuck.to_set()),
        on_or_behind_cycle(m, v),
    ensures
        stuck.contains(v),
{
    let s = choose|s: Set<usize>| #[trigger] pred_closed(m, s) && s.contains(v);
    assert(s.subset_of(stuck.to_set()));
    assert(stuck.to_set().contains(v));
}

} // verus!
