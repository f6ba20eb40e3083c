//! Handler ordering for one event: a topological sort of the handlers by
//! their declared `before` / `after` constraints (Kahn's algorithm), with
//! ties broken by the hash of the plugin id and then by registration index.
//! Handlers caught in a cycle are appended in the same (hash, index) order.
use vstd::prelude::*;
use crate::event::{HandlerId, HandlerOrdering, OrderingConstraint};

verus! {

broadcast use vstd::seq_lib::group_seq_properties;

/// A handler as the host records it.
pub struct HandlerRecord {
    pub plugin_id: String,
    pub handler: HandlerId,
    pub receive_cancelled: bool,
    pub orderings: Vec<HandlerOrdering>,
}

// ── Plugin id hash ──────────────────────────────────────────────────

/// The value that std's `DefaultHasher` (as created by `DefaultHasher::new`)
/// finishes with after hashing the plugin id as a `str`.
pub uninterp spec fn spec_plugin_id_hash(plugin_id: Seq<char>) -> u64;

/// Calls `std::hash::BuildHasher::hash_one` on the builder of
/// `std::hash::DefaultHasher`, which std documents as making a
/// `DefaultHasher::new()` hasher, feeding it the id through `<str as Hash>::hash`
/// and returning `Hasher::finish`. The contract claims only that the result
/// is a function of the id's characters: std documents that every hasher made
/// by `DefaultHasher::new` is the same (it is not seeded per process), while
/// it leaves the algorithm itself unspecified (it may change between releases
/// of std), so nothing more is stated.
#[verifier::external_body]
fn plugin_id_hash(plugin_id: &str) -> (h: u64)
    ensures
        h == spec_plugin_id_hash(plugin_id@),
{
    std::hash::BuildHasher::hash_one(&std::hash::BuildHasherDefault::<std::hash::DefaultHasher>::default(), plugin_id)
}

// ── The specification of the order ──────────────────────────────────

/// The tiebreak key of handler `i`: the hash of its plugin id.
pub open spec fn hash_key(recs: Seq<HandlerRecord>, i: int) -> u64 {
    spec_plugin_id_hash(recs[i].plugin_id@)
}

/// Handler `a` comes before handler `b` on the key (hash of plugin id, index).
pub open spec fn key_lt(recs: Seq<HandlerRecord>, a: int, b: int) -> bool {
    ||| hash_key(recs, a) < hash_key(recs, b)
    ||| hash_key(recs, a) == hash_key(recs, b) && a < b
}

/// Ordering `k` of handler `a` names the plugin of handler `b`.
pub open spec fn names(recs: Seq<HandlerRecord>, a: int, k: int, b: int) -> bool {
    recs[a].orderings@[k].plugin_id@ == recs[b].plugin_id@
}

/// The constraints require handler `a` to run before handler `b`:
/// `a` declared `before` the plugin of `b`, or `b` declared `after` the plugin of `a`.
pub open spec fn constraint_edge(recs: Seq<HandlerRecord>, a: int, b: int) -> bool {
    &&& 0 <= a < recs.len()
    &&& 0 <= b < recs.len()
    &&& {
        ||| exists|k: int|
            0 <= k < recs[a].orderings@.len() && #[trigger] names(recs, a, k, b)
                && recs[a].orderings@[k].constraint == OrderingConstraint::Before
        ||| exists|k: int|
            0 <= k < recs[b].orderings@.len() && #[trigger] names(recs, b, k, a)
                && recs[b].orderings@[k].constraint == OrderingConstraint::After
    }
}

/// Handler `i` is not yet placed and every handler that must precede it is.
pub open spec fn is_ready(recs: Seq<HandlerRecord>, placed: Seq<usize>, i: int) -> bool {
    &&& 0 <= i < recs.len()
    &&& !placed.contains(i as usize)
    &&& forall|a: int| #[trigger] constraint_edge(recs, a, i) ==> placed.contains(a as usize)
}

/// `x` is the ready handler with the least (hash, index) key.
pub open spec fn is_next_ready(recs: Seq<HandlerRecord>, placed: Seq<usize>, x: int) -> bool {
    &&& is_ready(recs, placed, x)
    &&& forall|q: int| #[trigger] is_ready(recs, placed, q) && q != x ==> key_lt(recs, x, q)
}

/// `r` is the run order of the handlers `recs`: a permutation of their indices
/// whose first `resolved` entries are each the least-keyed ready handler given
/// those before it; at `resolved` no handler is ready (unless all are placed),
/// and the rest follow in increasing (hash, index) order.
pub open spec fn handler_order(recs: Seq<HandlerRecord>, r: Seq<usize>, resolved: nat) -> bool {
    &&& r.len() == recs.len()
    &&& r.no_duplicates()
    &&& forall|p: int| 0 <= p < r.len() ==> r[p] < recs.len()
    &&& resolved <= r.len()
    &&& forall|p: int|
        0 <= p < resolved ==> #[trigger] is_next_ready(recs, r.take(p), r[p] as int)
    &&& resolved < r.len() ==> forall|q: int| !#[trigger] is_ready(recs, r.take(resolved as int), q)
    &&& forall|p: int, q: int|
        resolved <= p < q < r.len() ==> key_lt(recs, #[trigger] r[p] as int, #[trigger] r[q] as int)
}

/// `r` is the run order of `recs` (for some length of its constraint-resolved prefix).
pub open spec fn is_order_of(recs: Seq<HandlerRecord>, r: Seq<usize>) -> bool {
    exists|resolved: nat| handler_order(recs, r, resolved)
}

// ── Proof helpers ───────────────────────────────────────────────────

/// `a` precedes `b` on the (hash, index) key, over a vector of hashes.
spec fn hkey_lt(hashes: Seq<u64>, a: int, b: int) -> bool {
    hashes[a] < hashes[b] || (hashes[a] == hashes[b] && a < b)
}

/// The edge that ordering `k` of handler `a` produces towards handler `b`.
spec fn produced(recs: Seq<HandlerRecord>, a: int, k: int, b: int) -> (usize, usize) {
    if recs[a].orderings@[k].constraint == OrderingConstraint::Before {
        (a as usize, b as usize)
    } else {
        (b as usize, a as usize)
    }
}

/// Every edge is a constraint edge between valid indices.
spec fn edges_sound(recs: Seq<HandlerRecord>, edges: Seq<(usize, usize)>) -> bool {
    forall|k: int|
        0 <= k < edges.len() ==> {
            &&& (#[trigger] edges[k]).0 < recs.len()
            &&& edges[k].1 < recs.len()
            &&& constraint_edge(recs, edges[k].0 as int, edges[k].1 as int)
        }
}

/// Every constraint edge is in the list.
spec fn edges_complete(recs: Seq<HandlerRecord>, edges: Seq<(usize, usize)>) -> bool {
    forall|a: int, b: int|
        #[trigger] constraint_edge(recs, a, b) ==> edges.contains((a as usize, b as usize))
}

/// The number of edges among the first `m` that enter `b` from an unplaced handler.
spec fn pending(edges: Seq<(usize, usize)>, m: int, placed: Seq<bool>, b: usize) -> nat
    decreases m,
{
    if m <= 0 {
        0
    } else {
        pending(edges, m - 1, placed, b) + if edges[m - 1].1 == b && !placed[edges[m - 1].0 as int] {
            1nat
        } else {
            0nat
        }
    }
}

/// The number of handlers not yet placed.
spec fn unplaced_count(placed: Seq<bool>) -> nat
    decreases placed.len(),
{
    if placed.len() == 0 {
        0
    } else {
        unplaced_count(placed.drop_last()) + if placed.last() {
            0nat
        } else {
            1nat
        }
    }
}

proof fn lemma_pending_zero(edges: Seq<(usize, usize)>, m: int, placed: Seq<bool>, b: usize)
    requires
        0 <= m <= edges.len(),
    ensures
        pending(edges, m, placed, b) == 0 <==> forall|k: int|
            0 <= k < m && (#[trigger] edges[k]).1 == b ==> placed[edges[k].0 as int],
    decreases m,
{
    if m > 0 {
        lemma_pending_zero(edges, m - 1, placed, b);
    }
}

proof fn lemma_pending_mono(edges: Seq<(usize, usize)>, m1: int, m2: int, placed: Seq<bool>, b: usize)
    requires
        0 <= m1 <= m2,
    ensures
        pending(edges, m1, placed, b) <= pending(edges, m2, placed, b),
    decreases m2,
{
    if m2 > m1 {
        lemma_pending_mono(edges, m1, m2 - 1, placed, b);
    }
}

proof fn lemma_pending_le(edges: Seq<(usize, usize)>, m: int, placed: Seq<bool>, b: usize)
    requires
        0 <= m,
    ensures
        pending(edges, m, placed, b) <= m,
    decreases m,
{
    if m > 0 {
        lemma_pending_le(edges, m - 1, placed, b);
    }
}

proof fn lemma_unplaced_place(placed: Seq<bool>, i: int)
    requires
        0 <= i < placed.len(),
        !placed[i],
    ensures
        unplaced_count(placed.update(i, true)) + 1 == unplaced_count(placed),
    decreases placed.len(),
{
    let np = placed.update(i, true);
    if i == placed.len() - 1 {
        assert(np.drop_last() =~= placed.drop_last());
    } else {
        lemma_unplaced_place(placed.drop_last(), i);
        assert(np.drop_last() =~= placed.drop_last().update(i, true));
    }
}

proof fn lemma_unplaced_all_placed(placed: Seq<bool>)
    requires
        forall|i: int| 0 <= i < placed.len() ==> placed[i],
    ensures
        unplaced_count(placed) == 0,
    decreases placed.len(),
{
    if placed.len() > 0 {
        lemma_unplaced_all_placed(placed.drop_last());
    }
}

proof fn lemma_unplaced_none_placed(placed: Seq<bool>)
    requires
        forall|i: int| 0 <= i < placed.len() ==> !placed[i],
    ensures
        unplaced_count(placed) == placed.len(),
    decreases placed.len(),
{
    if placed.len() > 0 {
        lemma_unplaced_none_placed(placed.drop_last());
    }
}

/// With the in-degree counters kept exact, "ready" is "unplaced with in-degree zero".
proof fn lemma_ready_iff(
    recs: Seq<HandlerRecord>,
    edges: Seq<(usize, usize)>,
    r: Seq<usize>,
    placed: Seq<bool>,
    in_degree: Seq<usize>,
    q: int,
)
    requires
        recs.len() <= usize::MAX,
        placed.len() == recs.len(),
        in_degree.len() == recs.len(),
        0 <= q < recs.len(),
        forall|i: int| 0 <= i < recs.len() ==> placed[i] == r.contains(i as usize),
        edges_sound(recs, edges),
        edges_complete(recs, edges),
        in_degree[q] == pending(edges, edges.len() as int, placed, q as usize),
    ensures
        is_ready(recs, r, q) <==> (!placed[q] && in_degree[q] == 0),
{
    lemma_pending_zero(edges, edges.len() as int, placed, q as usize);
    if !placed[q] && in_degree[q] == 0 {
        assert forall|a: int| #[trigger] constraint_edge(recs, a, q) implies r.contains(a as usize) by {
            assert(edges.contains((a as usize, q as usize)));
            let k = choose|k: int| 0 <= k < edges.len() && edges[k] == (a as usize, q as usize);
            assert(edges[k].1 == q as usize);
        }
    }
    if is_ready(recs, r, q) {
        assert forall|k: int|
            0 <= k < edges.len() && (#[trigger] edges[k]).1 == q as usize implies placed[edges[k].0 as int] by {
            assert(constraint_edge(recs, edges[k].0 as int, q));
            assert(placed[edges[k].0 as int] == r.contains(edges[k].0));
        }
    }
}

// ── The computation ──────────────────────────────────────────────────

/// All constraint edges between the handlers, one per (handler, ordering,
/// target handler) whose plugin the ordering names.
fn build_edges(handlers: &Vec<HandlerRecord>) -> (edges: Vec<(usize, usize)>)
    ensures
        edges_sound(handlers@, edges@),
        edges_complete(handlers@, edges@),
{
    let ghost recs = handlers@;
    let n = handlers.len();
    let mut edges: Vec<(usize, usize)> = Vec::new();
    let mut i: usize = 0;
    while i < n
        invariant
            n == handlers.len(),
            recs == handlers@,
            i <= n,
            edges_sound(recs, edges@),
            forall|a: int, k: int, b: int|
                0 <= a < i && 0 <= k < recs[a].orderings@.len() && 0 <= b < n && #[trigger] names(
                    recs,
                    a,
                    k,
                    b,
                ) ==> edges@.contains(produced(recs, a, k, b)),
        decreases n - i,
    {
        let rec = &handlers[i];
        let m = rec.orderings.len();
        let mut k: usize = 0;
        while k < m
            invariant
                n == handlers.len(),
                recs == handlers@,
                i < n,
                *rec == recs[i as int],
                m == rec.orderings@.len(),
                k <= m,
                edges_sound(recs, edges@),
                forall|a: int, kk: int, b: int|
                    0 <= a < i && 0 <= kk < recs[a].orderings@.len() && 0 <= b < n && #[trigger] names(
                        recs,
                        a,
                        kk,
                        b,
                    ) ==> edges@.contains(produced(recs, a, kk, b)),
                forall|kk: int, b: int|
                    0 <= kk < k && 0 <= b < n && #[trigger] names(recs, i as int, kk, b)
                        ==> edges@.contains(produced(recs, i as int, kk, b)),
            decreases m - k,
        {
            let o = &rec.orderings[k];
            let mut j: usize = 0;
            while j < n
                invariant
                    n == handlers.len(),
                    recs == handlers@,
                    i < n,
                    *rec == recs[i as int],
                    m == rec.orderings@.len(),
                    k < m,
                    *o == rec.orderings@[k as int],
                    j <= n,
                    edges_sound(recs, edges@),
                    forall|a: int, kk: int, b: int|
                        0 <= a < i && 0 <= kk < recs[a].orderings@.len() && 0 <= b < n
                            && #[trigger] names(recs, a, kk, b) ==> edges@.contains(
                            produced(recs, a, kk, b),
                        ),
                    forall|kk: int, b: int|
                        0 <= kk < k && 0 <= b < n && #[trigger] names(recs, i as int, kk, b)
                            ==> edges@.contains(produced(recs, i as int, kk, b)),
                    forall|b: int|
                        0 <= b < j && #[trigger] names(recs, i as int, k as int, b)
                            ==> edges@.contains(produced(recs, i as int, k as int, b)),
                decreases n - j,
            {
                if handlers[j].plugin_id == o.plugin_id {
                    let ghost old_edges = edges@;
                    assert(names(recs, i as int, k as int, j as int));
                    let e = match o.constraint {
                        OrderingConstraint::Before => (i, j),
                        OrderingConstraint::After => (j, i),
                    };
                    edges.push(e);
                    assert(edges@[old_edges.len() as int] == produced(recs, i as int, k as int, j as int));
                    assert(constraint_edge(recs, e.0 as int, e.1 as int));
                    assert forall|x: (usize, usize)| old_edges.contains(x) implies edges@.contains(x) by {
                        let t = choose|t: int| 0 <= t < old_edges.len() && old_edges[t] == x;
                        assert(edges@[t] == x);
                    }
                }
                j += 1;
            }
            k += 1;
        }
        i += 1;
    }
    assert forall|a: int, b: int| #[trigger] constraint_edge(recs, a, b) implies edges@.contains(
        (a as usize, b as usize),
    ) by {
        if exists|k: int|
            0 <= k < recs[a].orderings@.len() && #[trigger] names(recs, a, k, b)
                && recs[a].orderings@[k].constraint == OrderingConstraint::Before {
            let k = choose|k: int|
                0 <= k < recs[a].orderings@.len() && #[trigger] names(recs, a, k, b)
                    && recs[a].orderings@[k].constraint == OrderingConstraint::Before;
            assert(produced(recs, a, k, b) == (a as usize, b as usize));
        } else {
            let k = choose|k: int|
                0 <= k < recs[b].orderings@.len() && #[trigger] names(recs, b, k, a)
                    && recs[b].orderings@[k].constraint == OrderingConstraint::After;
            assert(produced(recs, b, k, a) == (a as usize, b as usize));
        }
    }
    edges
}

/// For each handler, the number of edges that enter it.
fn initial_in_degree(n: usize, edges: &Vec<(usize, usize)>, Ghost(placed): Ghost<Seq<bool>>) -> (in_degree: Vec<usize>)
    requires
        placed.len() == n,
        forall|k: int| 0 <= k < edges@.len() ==> (#[trigger] edges@[k]).0 < n && edges@[k].1 < n,
        forall|i: int| 0 <= i < n ==> !placed[i],
    ensures
        in_degree@.len() == n,
        forall|b: int| 0 <= b < n ==> in_degree@[b] == pending(edges@, edges@.len() as int, placed, b as usize),
{
    let mut in_degree: Vec<usize> = Vec::new();
    let mut i: usize = 0;
    while i < n
        invariant
            i <= n,
            in_degree@.len() == i,
            forall|b: int| 0 <= b < i ==> in_degree@[b] == 0,
        decreases n - i,
    {
        in_degree.push(0);
        i += 1;
    }
    let mut k: usize = 0;
    while k < edges.len()
        invariant
            k <= edges@.len(),
            in_degree@.len() == n,
            placed.len() == n,
            forall|kk: int| 0 <= kk < edges@.len() ==> (#[trigger] edges@[kk]).0 < n && edges@[kk].1 < n,
            forall|i: int| 0 <= i < n ==> !placed[i],
            forall|b: int| 0 <= b < n ==> in_degree@[b] == pending(edges@, k as int, placed, b as usize),
        decreases edges@.len() - k,
    {
        let t = edges[k].1;
        let ghost prev = in_degree@;
        proof {
            lemma_pending_le(edges@, k as int, placed, t);
        }
        let d = in_degree[t];
        in_degree.set(t, d + 1);
        proof {
            assert forall|b: int| 0 <= b < n implies in_degree@[b] == pending(edges@, k + 1, placed, b as usize) by {
                assert(pending(edges@, k + 1, placed, b as usize) == pending(edges@, k as int, placed, b as usize)
                    + if edges@[k as int].1 == b as usize && !placed[edges@[k as int].0 as int] { 1nat } else { 0nat });
            }
        }
        k += 1;
    }
    in_degree
}

/// The unplaced handler with the least (hash, index) key, among those with
/// in-degree zero when `need_ready` holds, or among all unplaced ones otherwise.
fn select_min(hashes: &Vec<u64>, placed: &Vec<bool>, in_degree: &Vec<usize>, need_ready: bool) -> (best: Option<usize>)
    requires
        placed@.len() == hashes@.len(),
        in_degree@.len() == hashes@.len(),
    ensures
        best is None ==> forall|i: int|
            0 <= i < hashes@.len() ==> !(!placed@[i] && (!need_ready || in_degree@[i] == 0)),
        best matches Some(b) ==> {
            &&& b < hashes@.len()
            &&& !placed@[b as int]
            &&& (!need_ready || in_degree@[b as int] == 0)
            &&& forall|i: int|
                0 <= i < hashes@.len() && !placed@[i] && (!need_ready || in_degree@[i] == 0) && i
                    != b ==> hkey_lt(hashes@, b as int, i)
        },
{
    let n = hashes.len();
    let mut best: Option<usize> = None;
    let mut j: usize = 0;
    while j < n
        invariant
            n == hashes@.len(),
            placed@.len() == n,
            in_degree@.len() == n,
            j <= n,
            best matches Some(b) ==> b < j && !placed@[b as int] && (!need_ready || in_degree@[b as int]
                == 0),
            forall|i: int|
                0 <= i < j && !placed@[i] && (!need_ready || in_degree@[i] == 0) ==> (best matches Some(b)
                    && (i == b || hkey_lt(hashes@, b as int, i))),
        decreases n - j,
    {
        if !placed[j] && (!need_ready || in_degree[j] == 0) {
            match best {
                None => {
                    best = Some(j);
                },
                Some(b) => {
                    if hashes[j] < hashes[b] {
                        best = Some(j);
                    }
                },
            }
        }
        j += 1;
    }
    best
}

/// After `best` has been placed, lower the in-degree of every handler that
/// `best` must precede.
fn release_edges(edges: &Vec<(usize, usize)>, in_degree: &mut Vec<usize>, best: usize, Ghost(placed): Ghost<Seq<bool>>)
    requires
        placed.len() <= usize::MAX,
        0 <= best < placed.len(),
        placed[best as int],
        old(in_degree)@.len() == placed.len(),
        forall|k: int|
            0 <= k < edges@.len() ==> (#[trigger] edges@[k]).0 < placed.len() && edges@[k].1 < placed.len(),
        forall|b: int|
            0 <= b < placed.len() ==> old(in_degree)@[b] == pending(
                edges@,
                edges@.len() as int,
                placed.update(best as int, false),
                b as usize,
            ),
    ensures
        final(in_degree)@.len() == placed.len(),
        forall|b: int|
            0 <= b < placed.len() ==> final(in_degree)@[b] == pending(edges@, edges@.len() as int, placed, b as usize),
{
    let ghost before = placed.update(best as int, false);
    let ghost total = edges@.len() as int;
    let mut k: usize = 0;
    while k < edges.len()
        invariant
            k <= edges@.len(),
            total == edges@.len(),
            placed.len() <= usize::MAX,
            0 <= best < placed.len(),
            placed[best as int],
            before == placed.update(best as int, false),
            in_degree@.len() == placed.len(),
            forall|kk: int|
                0 <= kk < edges@.len() ==> (#[trigger] edges@[kk]).0 < placed.len() && edges@[kk].1 < placed.len(),
            forall|b: int|
                0 <= b < placed.len() ==> in_degree@[b] + pending(edges@, k as int, before, b as usize)
                    == pending(edges@, k as int, placed, b as usize) + pending(edges@, total, before, b as usize),
        decreases edges@.len() - k,
    {
        let (s, t) = edges[k];
        let ghost prev = in_degree@;
        proof {
            lemma_pending_mono(edges@, k + 1, total, before, t);
        }
        if s == best {
            let d = in_degree[t];
            in_degree.set(t, d - 1);
        }
        proof {
            assert forall|b: int| 0 <= b < placed.len() implies in_degree@[b] + pending(edges@, k + 1, before, b as usize)
                == pending(edges@, k + 1, placed, b as usize) + pending(edges@, total, before, b as usize) by {
                assert(prev[b] + pending(edges@, k as int, before, b as usize)
                    == pending(edges@, k as int, placed, b as usize) + pending(edges@, total, before, b as usize));
                assert(pending(edges@, k + 1, placed, b as usize) == pending(edges@, k as int, placed, b as usize)
                    + if edges@[k as int].1 == b as usize && !placed[edges@[k as int].0 as int] { 1nat } else { 0nat });
                assert(pending(edges@, k + 1, before, b as usize) == pending(edges@, k as int, before, b as usize)
                    + if edges@[k as int].1 == b as usize && !before[edges@[k as int].0 as int] { 1nat } else { 0nat });
            }
        }
        k += 1;
    }
}

/// Topological sort with hash-based tiebreaking (Kahn's algorithm).
/// Returns ordered indices into the handlers vec, and whether every handler
/// was placed by the constraints (false when a cycle left some unresolved;
/// those follow in hash order).
pub fn compute_order(handlers: &Vec<HandlerRecord>) -> (res: (Vec<usize>, bool))
    ensures
        exists|resolved: nat|
            handler_order(handlers@, res.0@, resolved) && (res.1 <==> resolved == handlers@.len()),
{
    let ghost recs = handlers@;
    let n = handlers.len();
    let edges = build_edges(handlers);

    let mut hashes: Vec<u64> = Vec::new();
    let mut placed: Vec<bool> = Vec::new();
    let mut i: usize = 0;
    while i < n
        invariant
            n == handlers.len(),
            recs == handlers@,
            i <= n,
            hashes@.len() == i,
            placed@.len() == i,
            forall|x: int| 0 <= x < i ==> hashes@[x] == hash_key(recs, x),
            forall|x: int| 0 <= x < i ==> !placed@[x],
        decreases n - i,
    {
        hashes.push(plugin_id_hash(handlers[i].plugin_id.as_str()));
        placed.push(false);
        i += 1;
    }
    proof {
        lemma_unplaced_none_placed(placed@);
    }
    let mut in_degree = initial_in_degree(n, &edges, Ghost(placed@));
    let mut result: Vec<usize> = Vec::new();

    // Phase one: repeatedly place the least-keyed ready handler.
    loop
        invariant
            n == handlers.len(),
            recs == handlers@,
            hashes@.len() == n,
            placed@.len() == n,
            in_degree@.len() == n,
            forall|x: int| 0 <= x < n ==> hashes@[x] == hash_key(recs, x),
            edges_sound(recs, edges@),
            edges_complete(recs, edges@),
            forall|x: int| 0 <= x < n ==> placed@[x] == result@.contains(x as usize),
            result@.no_duplicates(),
            forall|p: int| 0 <= p < result@.len() ==> result@[p] < n,
            result@.len() + unplaced_count(placed@) == n,
            forall|b: int|
                0 <= b < n ==> in_degree@[b] == pending(edges@, edges@.len() as int, placed@, b as usize),
            forall|p: int|
                0 <= p < result@.len() ==> #[trigger] is_next_ready(
                    recs,
                    result@.take(p),
                    result@[p] as int,
                ),
        ensures
            forall|q: int| !#[trigger] is_ready(recs, result@, q),
        decreases unplaced_count(placed@),
    {
        let found = select_min(&hashes, &placed, &in_degree, true);
        match found {
            None => {
                assert forall|q: int| !#[trigger] is_ready(recs, result@, q) by {
                    if 0 <= q < n {
                        lemma_ready_iff(recs, edges@, result@, placed@, in_degree@, q);
                    }
                }
                break;
            },
            Some(best) => {
                let ghost old_result = result@;
                let ghost old_placed = placed@;
                proof {
                    lemma_ready_iff(recs, edges@, result@, placed@, in_degree@, best as int);
                    assert forall|q: int|
                        #[trigger] is_ready(recs, old_result, q) && q != best implies key_lt(
                            recs,
                            best as int,
                            q,
                        ) by {
                        lemma_ready_iff(recs, edges@, result@, placed@, in_degree@, q);
                    }
                    assert(is_next_ready(recs, old_result, best as int));
                    lemma_unplaced_place(placed@, best as int);
                }
                result.push(best);
                placed.set(best, true);
                proof {
                    assert(placed@.update(best as int, false) =~= old_placed);
                    assert(result@.take(old_result.len() as int) =~= old_result);
                    assert forall|p: int| 0 <= p < old_result.len() implies result@.take(p)
                        =~= old_result.take(p) by {}
                    assert forall|x: int| 0 <= x < n implies placed@[x] == result@.contains(x as usize) by {
                        if x != best {
                            assert(result@.contains(x as usize) ==> old_result.contains(x as usize));
                        } else {
                            assert(result@[old_result.len() as int] == best);
                        }
                    }
                    assert forall|p: int|
                        0 <= p < result@.len() implies #[trigger] is_next_ready(
                        recs,
                        result@.take(p),
                        result@[p] as int,
                    ) by {
                        if p < old_result.len() {
                            assert(result@.take(p) =~= old_result.take(p));
                        }
                    }
                }
                release_edges(&edges, &mut in_degree, best, Ghost(placed@));
            },
        }
    }
    let resolved = result.len() == n;
    let ghost kl = result@.len();
    assert(result@.take(kl as int) =~= result@);

    // Phase two: the handlers left unresolved follow in (hash, index) order.
    loop
        invariant
            n == handlers.len(),
            recs == handlers@,
            hashes@.len() == n,
            placed@.len() == n,
            in_degree@.len() == n,
            forall|x: int| 0 <= x < n ==> hashes@[x] == hash_key(recs, x),
            forall|x: int| 0 <= x < n ==> placed@[x] == result@.contains(x as usize),
            result@.no_duplicates(),
            forall|p: int| 0 <= p < result@.len() ==> result@[p] < n,
            result@.len() + unplaced_count(placed@) == n,
            kl <= result@.len(),
            resolved == (kl == n),
            forall|p: int|
                0 <= p < kl ==> #[trigger] is_next_ready(recs, result@.take(p), result@[p] as int),
            forall|q: int| !#[trigger] is_ready(recs, result@.take(kl as int), q),
            forall|p: int, q: int|
                kl <= p < q < result@.len() ==> key_lt(
                    recs,
                    #[trigger] result@[p] as int,
                    #[trigger] result@[q] as int,
                ),
            forall|p: int, u: int|
                kl <= p < result@.len() && 0 <= u < n && !#[trigger] placed@[u] ==> key_lt(
                    recs,
                    #[trigger] result@[p] as int,
                    u,
                ),
        ensures
            result@.len() == n,
        decreases unplaced_count(placed@),
    {
        let found = select_min(&hashes, &placed, &in_degree, false);
        match found {
            None => {
                proof {
                    lemma_unplaced_all_placed(placed@);
                }
                break;
            },
            Some(best) => {
                let ghost old_result = result@;
                let ghost old_placed = placed@;
                proof {
                    lemma_unplaced_place(placed@, best as int);
                }
                result.push(best);
                placed.set(best, true);
                proof {
                    assert forall|p: int| 0 <= p <= kl implies result@.take(p) =~= old_result.take(p) by {}
                    assert forall|x: int| 0 <= x < n implies placed@[x] == result@.contains(x as usize) by {
                        if x != best {
                            assert(result@.contains(x as usize) ==> old_result.contains(x as usize));
                        } else {
                            assert(result@[old_result.len() as int] == best);
                        }
                    }
                    assert forall|p: int|
                        0 <= p < kl implies #[trigger] is_next_ready(
                        recs,
                        result@.take(p),
                        result@[p] as int,
                    ) by {
                        assert(result@.take(p) =~= old_result.take(p));
                    }
                    assert(result@.take(kl as int) =~= old_result.take(kl as int));
                }
            },
        }
    }
    proof {
        assert(handler_order(recs, result@, kl));
        assert(handler_order(handlers@, result@, kl) && (resolved <==> kl == handlers@.len()));
    }
    let res = (result, resolved);
    assert(handler_order(handlers@, res.0@, kl) && (res.1 <==> kl == handlers@.len()));
    res
}

// ── Laws of the order ────────────────────────────────────────────────

/// `a` and `b` cannot each come before the other on the (hash, index) key.
proof fn lemma_key_lt_asym(recs: Seq<HandlerRecord>, a: int, b: int)
    ensures
        !(key_lt(recs, a, b) && key_lt(recs, b, a)),
{
}

/// A run order places every handler: each index below `n` occurs in it.
proof fn lemma_order_covers(r: Seq<usize>, n: int)
    requires
        r.len() == n,
        r.no_duplicates(),
        forall|p: int| 0 <= p < n ==> r[p] < n,
    ensures
        forall|i: usize| (i as int) < n ==> #[trigger] r.contains(i),
{
    let ri = r.map_values(|x: usize| x as int);
    assert(ri.no_duplicates()) by {
        assert forall|a: int, b: int| 0 <= a < ri.len() && 0 <= b < ri.len() && a != b implies ri[a]
            != ri[b] by {
            assert(r[a] != r[b]);
        }
    }
    ri.unique_seq_to_set();
    let s = ri.to_set();
    vstd::set_lib::lemma_int_range(0, n);
    assert forall|i: usize| (i as int) < n implies #[trigger] r.contains(i) by {
        if !r.contains(i) {
            let full = vstd::set_lib::set_int_range(0, n);
            assert forall|x: int| s.contains(x) implies full.remove(i as int).contains(x) by {
                assert(ri.contains(x));
                let p = choose|p: int| 0 <= p < ri.len() && ri[p] == x;
                assert(r[p] as int == x);
                if x == i as int {
                    assert(r[p] == i);
                }
            }
            vstd::set_lib::lemma_len_subset(s, full.remove(i as int));
        }
    }
}

/// Two run orders of the same handlers agree on their first `p` entries while
/// both are still resolving constraints.
proof fn lemma_resolved_prefix_agree(
    recs: Seq<HandlerRecord>,
    r1: Seq<usize>,
    k1: nat,
    r2: Seq<usize>,
    k2: nat,
    p: int,
)
    requires
        handler_order(recs, r1, k1),
        handler_order(recs, r2, k2),
        0 <= p <= k1,
        p <= k2,
    ensures
        r1.take(p) =~= r2.take(p),
    decreases p,
{
    if p > 0 {
        lemma_resolved_prefix_agree(recs, r1, k1, r2, k2, p - 1);
        let pre = r1.take(p - 1);
        assert(is_next_ready(recs, r1.take(p - 1), r1[p - 1] as int));
        assert(is_next_ready(recs, r2.take(p - 1), r2[p - 1] as int));
        if r1[p - 1] != r2[p - 1] {
            assert(is_ready(recs, pre, r2[p - 1] as int));
            assert(is_ready(recs, pre, r1[p - 1] as int));
            lemma_key_lt_asym(recs, r1[p - 1] as int, r2[p - 1] as int);
        }
        assert(r1.take(p) =~= r1.take(p - 1).push(r1[p - 1]));
        assert(r2.take(p) =~= r2.take(p - 1).push(r2[p - 1]));
    }
}

/// Two run orders of the same handlers that agree on their first `p` entries,
/// from the end of their resolved prefix on, agree everywhere.
proof fn lemma_sorted_suffix_agree(recs: Seq<HandlerRecord>, r1: Seq<usize>, r2: Seq<usize>, k: nat, p: int)
    requires
        recs.len() <= usize::MAX,
        handler_order(recs, r1, k),
        handler_order(recs, r2, k),
        k <= p <= recs.len(),
        r1.take(p) =~= r2.take(p),
    ensures
        r1 =~= r2,
    decreases recs.len() - p,
{
    let n = recs.len() as int;
    if p == n {
        assert(r1.take(p) =~= r1);
        assert(r2.take(p) =~= r2);
    } else {
        lemma_order_covers(r1, n);
        lemma_order_covers(r2, n);
        let x = r1[p];
        let y = r2[p];
        if x != y {
            // x sits later in r2, and y later in r1: each would precede the other.
            assert(r2.contains(x));
            let t = choose|t: int| 0 <= t < r2.len() && r2[t] == x;
            if t < p {
                assert(r2.take(p)[t] == x);
                assert(r1.take(p)[t] == x);
                assert(r1[t] == r1[p]);
            }
            assert(key_lt(recs, y as int, x as int));
            assert(r1.contains(y));
            let t2 = choose|t2: int| 0 <= t2 < r1.len() && r1[t2] == y;
            if t2 < p {
                assert(r1.take(p)[t2] == y);
                assert(r2.take(p)[t2] == y);
                assert(r2[t2] == r2[p]);
            }
            assert(key_lt(recs, x as int, y as int));
            lemma_key_lt_asym(recs, x as int, y as int);
        }
        assert(r1.take(p + 1) =~= r1.take(p).push(x));
        assert(r2.take(p + 1) =~= r2.take(p).push(y));
        lemma_sorted_suffix_agree(recs, r1, r2, k, p + 1);
    }
}

/// The run order is determined by the handlers: any two orders that meet the
/// specification of `compute_order` for the same handlers are equal, and so
/// are their resolved lengths.
pub proof fn lemma_order_unique(recs: Seq<HandlerRecord>, r1: Seq<usize>, k1: nat, r2: Seq<usize>, k2: nat)
    requires
        recs.len() <= usize::MAX,
        handler_order(recs, r1, k1),
        handler_order(recs, r2, k2),
    ensures
        r1 == r2,
        k1 == k2,
{
    if k1 < k2 {
        lemma_resolved_prefix_agree(recs, r1, k1, r2, k2, k1 as int);
        assert(is_next_ready(recs, r2.take(k1 as int), r2[k1 as int] as int));
        assert(!is_ready(recs, r1.take(k1 as int), r2[k1 as int] as int));
    } else if k2 < k1 {
        lemma_resolved_prefix_agree(recs, r1, k1, r2, k2, k2 as int);
        assert(is_next_ready(recs, r1.take(k2 as int), r1[k2 as int] as int));
        assert(!is_ready(recs, r2.take(k2 as int), r1[k2 as int] as int));
    } else {
        lemma_resolved_prefix_agree(recs, r1, k1, r2, k2, k1 as int);
        lemma_sorted_suffix_agree(recs, r1, r2, k1, k1 as int);
    }
}

/// When every handler was placed by the constraints, each constraint is
/// honoured: if handler `a` must run before handler `b`, `a` comes first.
pub proof fn lemma_resolved_order_respects_constraints(recs: Seq<HandlerRecord>, r: Seq<usize>, p: int, q: int)
    requires
        handler_order(recs, r, recs.len()),
        0 <= p < recs.len(),
        0 <= q < recs.len(),
        constraint_edge(recs, r[p] as int, r[q] as int),
    ensures
        p < q,
{
    assert(is_next_ready(recs, r.take(q), r[q] as int));
    assert(r.take(q).contains(r[p]));
    let t = choose|t: int| 0 <= t < q && r.take(q)[t] == r[p];
    assert(r[t] == r[p]);
}

/// Without any ordering constraint, handlers run in increasing order of
/// (hash of plugin id, registration index).
pub proof fn lemma_unconstrained_order_sorted(recs: Seq<HandlerRecord>, r: Seq<usize>, k: nat, p: int, q: int)
    requires
        forall|i: int| 0 <= i < recs.len() ==> (#[trigger] recs[i]).orderings@.len() == 0,
        handler_order(recs, r, k),
        0 <= p < q < recs.len(),
    ensures
        key_lt(recs, r[p] as int, r[q] as int),
        k == recs.len(),
{
    assert forall|a: int, b: int| !#[trigger] constraint_edge(recs, a, b) by {
        if 0 <= a < recs.len() && 0 <= b < recs.len() {
            assert(recs[a].orderings@.len() == 0);
            assert(recs[b].orderings@.len() == 0);
        }
    }
    if k < recs.len() {
        assert(!r.take(k as int).contains(r[k as int])) by {
            if r.take(k as int).contains(r[k as int]) {
                let t = choose|t: int| 0 <= t < k && r.take(k as int)[t] == r[k as int];
                assert(r[t] == r[k as int]);
            }
        }
        assert(is_ready(recs, r.take(k as int), r[k as int] as int));
    }
    assert(!r.take(p).contains(r[q])) by {
        if r.take(p).contains(r[q]) {
            let t = choose|t: int| 0 <= t < p && r.take(p)[t] == r[q];
            assert(r[t] == r[q]);
        }
    }
    assert(is_ready(recs, r.take(p), r[q] as int));
    assert(is_next_ready(recs, r.take(p), r[p] as int));
}

/// The run order of a list of handlers is unique: a cached order and a
/// freshly computed one for the same handlers are the same order.
pub proof fn lemma_order_of_unique(recs: Seq<HandlerRecord>, o1: Seq<usize>, o2: Seq<usize>)
    requires
        recs.len() <= usize::MAX,
        is_order_of(recs, o1),
        is_order_of(recs, o2),
    ensures
        o1 == o2,
{
    let k1 = choose|k: nat| handler_order(recs, o1, k);
    let k2 = choose|k: nat| handler_order(recs, o2, k);
    lemma_order_unique(recs, o1, k1, o2, k2);
}

/// `rank` numbers the handlers so that every constraint goes from a lower to
/// a higher number.
pub open spec fn ranked_by(recs: Seq<HandlerRecord>, rank: spec_fn(int) -> nat) -> bool {
    forall|a: int, b: int| #[trigger] constraint_edge(recs, a, b) ==> rank(a) < rank(b)
}

/// The constraints have no cycle: some numbering of the handlers makes every
/// constraint go from a lower to a higher number.
pub open spec fn constraints_acyclic(recs: Seq<HandlerRecord>) -> bool {
    exists|rank: spec_fn(int) -> nat| ranked_by(recs, rank)
}

/// Below an unplaced handler, following unplaced predecessors down the
/// numbering ends at a ready handler.
proof fn lemma_some_ready(recs: Seq<HandlerRecord>, placed: Seq<usize>, x: int, rank: spec_fn(int) -> nat)
    requires
        0 <= x < recs.len(),
        !placed.contains(x as usize),
        ranked_by(recs, rank),
    ensures
        exists|q: int| #[trigger] is_ready(recs, placed, q),
    decreases rank(x),
{
    if !is_ready(recs, placed, x) {
        let a = choose|a: int| #[trigger] constraint_edge(recs, a, x) && !placed.contains(a as usize);
        assert(rank(a) < rank(x));
        lemma_some_ready(recs, placed, a, rank);
    }
}

/// Without a cycle in the constraints, every handler is placed by them (so no
/// warning is due) and the run order honours every constraint.
pub proof fn lemma_acyclic_constraints_resolve(recs: Seq<HandlerRecord>, r: Seq<usize>, k: nat)
    requires
        handler_order(recs, r, k),
        constraints_acyclic(recs),
    ensures
        k == recs.len(),
        forall|p: int, q: int|
            0 <= p < recs.len() && 0 <= q < recs.len() && constraint_edge(recs, #[trigger] r[p] as int, #[trigger] r[q] as int)
                ==> p < q,
{
    let rank = choose|rank: spec_fn(int) -> nat| ranked_by(recs, rank);
    if k < recs.len() {
        assert(!r.take(k as int).contains(r[k as int])) by {
            if r.take(k as int).contains(r[k as int]) {
                let t = choose|t: int| 0 <= t < k && r.take(k as int)[t] == r[k as int];
                assert(r[t] == r[k as int]);
            }
        }
        lemma_some_ready(recs, r.take(k as int), r[k as int] as int, rank);
    }
    assert forall|p: int, q: int|
        0 <= p < recs.len() && 0 <= q < recs.len() && constraint_edge(recs, #[trigger] r[p] as int, #[trigger] r[q] as int)
            implies p < q by {
        lemma_resolved_order_respects_constraints(recs, r, p, q);
    }
}

/// When every handler was placed by the constraints, they have no cycle: the
/// position in the run order is a numbering that every constraint climbs.
pub proof fn lemma_resolved_constraints_acyclic(recs: Seq<HandlerRecord>, r: Seq<usize>)
    requires
        recs.len() <= usize::MAX,
        handler_order(recs, r, recs.len()),
    ensures
        constraints_acyclic(recs),
{
    let n = recs.len() as int;
    lemma_order_covers(r, n);
    let rank = |a: int| (choose|p: int| 0 <= p < n && r[p] == a as usize) as nat;
    assert forall|a: int, b: int| #[trigger] constraint_edge(recs, a, b) implies rank(a) < rank(b) by {
        assert(r.contains(a as usize));
        assert(r.contains(b as usize));
        let p = choose|p: int| 0 <= p < n && r[p] == a as usize;
        let q = choose|q: int| 0 <= q < n && r[q] == b as usize;
        lemma_resolved_order_respects_constraints(recs, r, p, q);
    }
    assert(ranked_by(recs, rank));
}

/// A cycle is left unresolved, and a warning is due, exactly when the
/// constraints have a cycle.
pub proof fn lemma_resolved_iff_acyclic(recs: Seq<HandlerRecord>, r: Seq<usize>, k: nat)
    requires
        recs.len() <= usize::MAX,
        handler_order(recs, r, k),
    ensures
        k == recs.len() <==> constraints_acyclic(recs),
{
    if k == recs.len() {
        lemma_resolved_constraints_acyclic(recs, r);
    }
    if constraints_acyclic(recs) {
        lemma_acyclic_constraints_resolve(recs, r, k);
    }
}

/// The tiebreak key is (hash of the plugin id, registration index), compared
/// lexicographically; and a constraint edge from `a` to `b` is exactly `a`
/// declaring `before` the plugin of `b` or `b` declaring `after` the plugin of `a`.
pub proof fn lemma_key_and_edges(recs: Seq<HandlerRecord>, a: int, b: int, k: int)
    ensures
        key_lt(recs, a, b) <==> (spec_plugin_id_hash(recs[a].plugin_id@) < spec_plugin_id_hash(
            recs[b].plugin_id@) || (spec_plugin_id_hash(recs[a].plugin_id@) == spec_plugin_id_hash(
            recs[b].plugin_id@) && a < b)),
        0 <= a < recs.len() && 0 <= b < recs.len() && 0 <= k < recs[a].orderings@.len()
            && recs[a].orderings@[k].constraint == OrderingConstraint::Before
            && recs[a].orderings@[k].plugin_id@ == recs[b].plugin_id@ ==> constraint_edge(recs, a, b),
        0 <= a < recs.len() && 0 <= b < recs.len() && 0 <= k < recs[b].orderings@.len()
            && recs[b].orderings@[k].constraint == OrderingConstraint::After
            && recs[b].orderings@[k].plugin_id@ == recs[a].plugin_id@ ==> constraint_edge(recs, a, b),
        constraint_edge(recs, a, b) ==> 0 <= a < recs.len() && 0 <= b < recs.len(),
{
    if 0 <= a < recs.len() && 0 <= b < recs.len() && 0 <= k < recs[a].orderings@.len()
        && recs[a].orderings@[k].constraint == OrderingConstraint::Before
        && recs[a].orderings@[k].plugin_id@ == recs[b].plugin_id@ {
        assert(names(recs, a, k, b));
    }
    if 0 <= a < recs.len() && 0 <= b < recs.len() && 0 <= k < recs[b].orderings@.len()
        && recs[b].orderings@[k].constraint == OrderingConstraint::After
        && recs[b].orderings@[k].plugin_id@ == recs[a].plugin_id@ {
        assert(names(recs, b, k, a));
    }
}

} // verus!
