//! Four-cycles of the Hough intersection graph and their canonical form.

use vstd::prelude::*;

verus! {

/// Lexicographic strict order on corner-index cycles.
pub open spec fn cycle_less(a: Seq<usize>, b: Seq<usize>) -> bool {
    ||| a[0] < b[0]
    ||| a[0] == b[0] && a[1] < b[1]
    ||| a[0] == b[0] && a[1] == b[1] && a[2] < b[2]
    ||| a[0] == b[0] && a[1] == b[1] && a[2] == b[2] && a[3] < b[3]
}

/// The `j`-th traversal of cycle `c`: it starts at corner `j / 2` and runs
/// forward when `j` is even, backward when `j` is odd.
pub open spec fn traversal(c: Seq<usize>, j: int) -> Seq<usize> {
    let s = j / 2;
    if j % 2 == 0 {
        seq![c[s % 4], c[(s + 1) % 4], c[(s + 2) % 4], c[(s + 3) % 4]]
    } else {
        seq![c[s % 4], c[(s + 3) % 4], c[(s + 2) % 4], c[(s + 1) % 4]]
    }
}

/// `s` walks around the same four corners as `c`, starting anywhere and in
/// either direction.
pub open spec fn same_cycle(s: Seq<usize>, c: Seq<usize>) -> bool {
    &&& s.len() == 4
    &&& c.len() == 4
    &&& exists|j: int| 0 <= j < 8 && s == #[trigger] traversal(c, j)
}

/// The lesser of two cycles in the lexicographic order.
pub open spec fn cycle_min(a: Seq<usize>, b: Seq<usize>) -> Seq<usize> {
    if cycle_less(b, a) {
        b
    } else {
        a
    }
}

/// The least of the first `n` traversals of `c`.
pub open spec fn least_traversal(c: Seq<usize>, n: nat) -> Seq<usize>
    decreases n,
{
    if n <= 1 {
        traversal(c, 0)
    } else {
        cycle_min(least_traversal(c, (n - 1) as nat), traversal(c, n - 1))
    }
}

/// The canonical form of a four-cycle: its lexicographically least traversal.
pub open spec fn canonical_form(c: Seq<usize>) -> Seq<usize> {
    least_traversal(c, 8)
}

fn cycle_less_exec(a: &[usize; 4], b: &[usize; 4]) -> (r: bool)
    ensures
        r == cycle_less(a@, b@),
{
    if a[0] != b[0] {
        return a[0] < b[0];
    }
    if a[1] != b[1] {
        return a[1] < b[1];
    }
    if a[2] != b[2] {
        return a[2] < b[2];
    }
    a[3] < b[3]
}

/// Representative shared by all traversals of the same four-cycle.
pub fn canonical_cycle(cycle: [usize; 4]) -> (r: [usize; 4])
    ensures
        r@ == canonical_form(cycle@),
{
    let mut best = [cycle[0], cycle[1], cycle[2], cycle[3]];
    assert(best@ =~= traversal(cycle@, 0));
    let mut shift: usize = 0;
    while shift < 4
        invariant
            0 <= shift <= 4,
            shift == 0 ==> best@ == traversal(cycle@, 0),
            shift > 0 ==> best@ == least_traversal(cycle@, (2 * shift) as nat),
        decreases 4 - shift,
    {
        let forward = [
            cycle[shift],
            cycle[(shift + 1) % 4],
            cycle[(shift + 2) % 4],
            cycle[(shift + 3) % 4],
        ];
        let backward = [
            cycle[shift],
            cycle[(shift + 3) % 4],
            cycle[(shift + 2) % 4],
            cycle[(shift + 1) % 4],
        ];
        assert(forward@ =~= traversal(cycle@, 2 * shift as int));
        assert(backward@ =~= traversal(cycle@, 2 * shift as int + 1));
        if shift > 0 && cycle_less_exec(&forward, &best) {
            best = forward;
        }
        if cycle_less_exec(&backward, &best) {
            best = backward;
        }
        proof {
            let n = (2 * shift + 2) as nat;
            assert(least_traversal(cycle@, n) == cycle_min(
                least_traversal(cycle@, (n - 1) as nat),
                traversal(cycle@, n - 1),
            ));
            assert(least_traversal(cycle@, (n - 1) as nat) == if n - 1 <= 1 {
                traversal(cycle@, 0)
            } else {
                cycle_min(least_traversal(cycle@, (n - 2) as nat), traversal(cycle@, n - 2))
            });
        }
        shift = shift + 1;
    }
    best
}

proof fn lemma_traversal_elements(c: Seq<usize>, j: int)
    requires
        0 <= j < 8,
    ensures
        traversal(c, j).len() == 4,
        j == 0 ==> traversal(c, j) == seq![c[0], c[1], c[2], c[3]],
        j == 1 ==> traversal(c, j) == seq![c[0], c[3], c[2], c[1]],
        j == 2 ==> traversal(c, j) == seq![c[1], c[2], c[3], c[0]],
        j == 3 ==> traversal(c, j) == seq![c[1], c[0], c[3], c[2]],
        j == 4 ==> traversal(c, j) == seq![c[2], c[3], c[0], c[1]],
        j == 5 ==> traversal(c, j) == seq![c[2], c[1], c[0], c[3]],
        j == 6 ==> traversal(c, j) == seq![c[3], c[0], c[1], c[2]],
        j == 7 ==> traversal(c, j) == seq![c[3], c[2], c[1], c[0]],
{
}

/// Composing two traversals is a traversal: walking a walk of `c` is a walk of `c`.
#[verifier::spinoff_prover]
#[verifier::rlimit(40)]
proof fn lemma_traversal_compose(c: Seq<usize>, i: int, j: int) -> (k: int)
    requires
        c.len() == 4,
        0 <= i < 8,
        0 <= j < 8,
    ensures
        0 <= k < 8,
        traversal(traversal(c, i), j) == traversal(c, k),
{
    lemma_traversal_elements(c, i);
    let t = traversal(c, i);
    lemma_traversal_elements(t, j);
    let u = traversal(t, j);
    let k = if u[0] == c[0] && u[1] == c[1] && u[2] == c[2] && u[3] == c[3] {
        0
    } else if u[0] == c[0] && u[1] == c[3] && u[2] == c[2] && u[3] == c[1] {
        1
    } else if u[0] == c[1] && u[1] == c[2] && u[2] == c[3] && u[3] == c[0] {
        2
    } else if u[0] == c[1] && u[1] == c[0] && u[2] == c[3] && u[3] == c[2] {
        3
    } else if u[0] == c[2] && u[1] == c[3] && u[2] == c[0] && u[3] == c[1] {
        4
    } else if u[0] == c[2] && u[1] == c[1] && u[2] == c[0] && u[3] == c[3] {
        5
    } else if u[0] == c[3] && u[1] == c[0] && u[2] == c[1] && u[3] == c[2] {
        6
    } else {
        7
    };
    lemma_traversal_elements(c, k);
    assert(u =~= traversal(c, k));
    k
}

/// Every walk can be walked back: `c` is a traversal of each of its traversals.
proof fn lemma_traversal_inverse(c: Seq<usize>, i: int) -> (k: int)
    requires
        c.len() == 4,
        0 <= i < 8,
    ensures
        0 <= k < 8,
        traversal(traversal(c, i), k) == c,
{
    let k = if i == 2 {
        6
    } else if i == 6 {
        2
    } else {
        i
    };
    lemma_traversal_elements(c, i);
    lemma_traversal_elements(traversal(c, i), k);
    assert(traversal(traversal(c, i), k) =~= c);
    k
}

proof fn lemma_least_traversal(c: Seq<usize>, n: nat) -> (k: int)
    requires
        1 <= n <= 8,
    ensures
        0 <= k < n,
        least_traversal(c, n) == traversal(c, k),
        forall|j: int| 0 <= j < n ==> !cycle_less(#[trigger] traversal(c, j), least_traversal(c, n)),
    decreases n,
{
    if n == 1 {
        0
    } else {
        let k0 = lemma_least_traversal(c, (n - 1) as nat);
        let prev = least_traversal(c, (n - 1) as nat);
        let last = traversal(c, n - 1);
        assert forall|j: int| 0 <= j < n implies !cycle_less(
            #[trigger] traversal(c, j),
            least_traversal(c, n),
        ) by {
            if j < n - 1 {
                assert(!cycle_less(traversal(c, j), prev));
            }
        }
        if cycle_less(last, prev) {
            n - 1
        } else {
            k0
        }
    }
}

proof fn lemma_cycle_order_antisymmetric(a: Seq<usize>, b: Seq<usize>)
    requires
        a.len() == 4,
        b.len() == 4,
        !cycle_less(a, b),
        !cycle_less(b, a),
    ensures
        a == b,
{
    assert(a =~= b);
}

/// The canonical form of a cycle is one of its traversals, and no traversal
/// of the cycle precedes it.
pub proof fn lemma_canonical_form_is_least_traversal(c: Seq<usize>)
    requires
        c.len() == 4,
    ensures
        same_cycle(canonical_form(c), c),
        forall|s: Seq<usize>| same_cycle(s, c) ==> !cycle_less(s, canonical_form(c)),
{
    let k = lemma_least_traversal(c, 8);
    lemma_traversal_elements(c, k);
    assert(canonical_form(c) == traversal(c, k));
}

/// Law: two traversals of the same four-cycle have the same canonical form.
pub proof fn lemma_same_cycle_same_canonical_form(a: Seq<usize>, b: Seq<usize>)
    requires
        same_cycle(a, b),
    ensures
        canonical_form(a) == canonical_form(b),
{
    let i = choose|i: int| 0 <= i < 8 && a == #[trigger] traversal(b, i);
    lemma_canonical_form_is_least_traversal(a);
    lemma_canonical_form_is_least_traversal(b);
    let ca = canonical_form(a);
    let cb = canonical_form(b);
    // ca walks a, which walks b
    let ja = choose|j: int| 0 <= j < 8 && ca == #[trigger] traversal(a, j);
    lemma_traversal_compose(b, i, ja);
    assert(same_cycle(ca, b));
    // cb walks b, which walks a
    let jb = choose|j: int| 0 <= j < 8 && cb == #[trigger] traversal(b, j);
    let back = lemma_traversal_inverse(b, i);
    lemma_traversal_compose(a, back, jb);
    assert(traversal(a, back) == b);
    assert(same_cycle(cb, a));
    lemma_cycle_order_antisymmetric(ca, cb);
}

/// Law: equal canonical forms mean the same four-cycle.
pub proof fn lemma_same_canonical_form_same_cycle(a: Seq<usize>, b: Seq<usize>)
    requires
        a.len() == 4,
        b.len() == 4,
        canonical_form(a) == canonical_form(b),
    ensures
        same_cycle(a, b),
{
    lemma_canonical_form_is_least_traversal(a);
    lemma_canonical_form_is_least_traversal(b);
    let c = canonical_form(a);
    let ja = choose|j: int| 0 <= j < 8 && c == #[trigger] traversal(a, j);
    let jb = choose|j: int| 0 <= j < 8 && c == #[trigger] traversal(b, j);
    // a walks c, c walks b
    let back = lemma_traversal_inverse(a, ja);
    lemma_traversal_compose(b, jb, back);
    assert(traversal(traversal(b, jb), back) == a);
}

/// Law: the canonical form is its own canonical form.
pub proof fn lemma_canonical_form_idempotent(c: Seq<usize>)
    requires
        c.len() == 4,
    ensures
        canonical_form(canonical_form(c)) == canonical_form(c),
{
    lemma_canonical_form_is_least_traversal(c);
    lemma_same_cycle_same_canonical_form(canonical_form(c), c);
    lemma_canonical_form_is_least_traversal(canonical_form(c));
    let k = choose|j: int| 0 <= j < 8 && canonical_form(c) == #[trigger] traversal(c, j);
    lemma_traversal_inverse(c, k);
    assert(same_cycle(c, canonical_form(c)));
    lemma_same_cycle_same_canonical_form(c, canonical_form(c));
}

/// Every neighbour named in the adjacency lists is a node of the graph.
pub open spec fn adjacency_in_bounds(graph: Seq<Vec<usize>>) -> bool {
    forall|i: int, k: int|
        0 <= i < graph.len() && 0 <= k < graph[i]@.len() ==> #[trigger] graph[i]@[k] < graph.len()
}

/// `graph` has an edge from `a` to `b`.
pub open spec fn has_edge(graph: Seq<Vec<usize>>, a: usize, b: usize) -> bool {
    graph[a as int]@.contains(b)
}

/// Consecutive nodes `i` and `i + 1` of `path` are joined by an edge.
pub open spec fn linked(graph: Seq<Vec<usize>>, path: Seq<usize>, i: int) -> bool {
    has_edge(graph, path[i], path[i + 1])
}

/// A non-empty walk through the graph that never revisits a node.
pub open spec fn is_simple_path(graph: Seq<Vec<usize>>, path: Seq<usize>) -> bool {
    &&& 1 <= path.len()
    &&& forall|i: int| 0 <= i < path.len() ==> #[trigger] path[i] < graph.len()
    &&& forall|i: int, j: int| 0 <= i < j < path.len() ==> path[i] != path[j]
    &&& forall|i: int| 0 <= i < path.len() - 1 ==> #[trigger] linked(graph, path, i)
}

/// Four distinct nodes, each joined to the next and the last to the first.
pub open spec fn is_four_cycle(graph: Seq<Vec<usize>>, c: Seq<usize>) -> bool {
    &&& c.len() == 4
    &&& is_simple_path(graph, c)
    &&& has_edge(graph, c[3], c[0])
}

/// The cycles of `out`, as sequences of node indices.
pub open spec fn listed(out: Seq<[usize; 4]>) -> Seq<Seq<usize>> {
    out.map_values(|a: [usize; 4]| a@)
}

/// Strictly increasing in the lexicographic order, hence free of repeats.
pub open spec fn strictly_sorted(out: Seq<[usize; 4]>) -> bool {
    forall|i: int, j: int| 0 <= i < j < out.len() ==> cycle_less(#[trigger] out[i]@, #[trigger] out[j]@)
}

/// `s` is the canonical form of some four-cycle of `graph`.
pub open spec fn is_cycle_form(graph: Seq<Vec<usize>>, s: Seq<usize>) -> bool {
    exists|c: Seq<usize>| #[trigger] is_four_cycle(graph, c) && canonical_form(c) == s
}

pub open spec fn all_cycle_forms(graph: Seq<Vec<usize>>, out: Seq<[usize; 4]>) -> bool {
    forall|i: int| 0 <= i < out.len() ==> is_cycle_form(graph, #[trigger] out[i]@)
}

fn contains_node(nodes: &Vec<usize>, node: usize) -> (r: bool)
    ensures
        r == nodes@.contains(node),
{
    let mut i: usize = 0;
    while i < nodes.len()
        invariant
            0 <= i <= nodes.len(),
            forall|k: int| 0 <= k < i ==> nodes@[k] != node,
        decreases nodes.len() - i,
    {
        if nodes[i] == node {
            return true;
        }
        i = i + 1;
    }
    false
}

/// Adds `item` to a strictly sorted list of cycles unless it is already there.
fn insert_sorted(out: &mut Vec<[usize; 4]>, item: [usize; 4])
    requires
        strictly_sorted(old(out)@),
    ensures
        strictly_sorted(final(out)@),
        forall|s: Seq<usize>|
            #[trigger] listed(final(out)@).contains(s) <==> (listed(old(out)@).contains(s) || s == item@),
        final(out)@.len() == old(out)@.len() + if listed(old(out)@).contains(item@) {
            0int
        } else {
            1int
        },
{
    let ghost before = out@;
    let mut i: usize = 0;
    while i < out.len() && cycle_less_exec(&out[i], &item)
        invariant
            0 <= i <= out.len(),
            out@ == before,
            strictly_sorted(before),
            forall|k: int| 0 <= k < i ==> cycle_less(#[trigger] before[k]@, item@),
        decreases out.len() - i,
    {
        i = i + 1;
    }
    if i < out.len() && !cycle_less_exec(&item, &out[i]) {
        proof {
            lemma_cycle_order_antisymmetric(out@[i as int]@, item@);
        }
        assert forall|s: Seq<usize>|
            #[trigger] listed(out@).contains(s) <==> (listed(before).contains(s) || s == item@) by {
            if s == item@ {
                assert(listed(out@)[i as int] == s);
            }
        }
        return;
    }
    assert(!listed(before).contains(item@)) by {
        if listed(before).contains(item@) {
            let k = choose|k: int| 0 <= k < listed(before).len() && listed(before)[k] == item@;
            assert(before[k]@ == item@);
            if k < i {
                assert(cycle_less(before[k]@, item@));
            } else {
                assert(!cycle_less(before[i as int]@, item@));
                if k > i {
                    assert(cycle_less(before[i as int]@, before[k]@));
                }
            }
        }
    }
    out.insert(i, item);
    assert forall|a: int, b: int| 0 <= a < b < out@.len() implies cycle_less(
        #[trigger] out@[a]@,
        #[trigger] out@[b]@,
    ) by {
        if b < i {
        } else if b == i {
        } else if a < i {
            assert(cycle_less(before[a]@, item@));
            assert(!cycle_less(before[i as int]@, item@));
            if b - 1 > i {
                assert(cycle_less(before[i as int]@, before[b - 1]@));
            }
        } else if a == i {
            assert(!cycle_less(before[i as int]@, item@));
            assert(!cycle_less(item@, before[i as int]@) ==> false);
            if b - 1 > i {
                assert(cycle_less(before[i as int]@, before[b - 1]@));
            }
        } else {
        }
    }
    assert forall|s: Seq<usize>|
        #[trigger] listed(out@).contains(s) <==> (listed(before).contains(s) || s == item@) by {
        if listed(out@).contains(s) {
            let k = choose|k: int| 0 <= k < listed(out@).len() && listed(out@)[k] == s;
            if k < i {
                assert(listed(before)[k] == s);
            } else if k > i {
                assert(listed(before)[k - 1] == s);
            }
        }
        if listed(before).contains(s) {
            let k = choose|k: int| 0 <= k < listed(before).len() && listed(before)[k] == s;
            if k < i {
                assert(listed(out@)[k] == s);
            } else {
                assert(listed(out@)[k + 1] == s);
            }
        }
        if s == item@ {
            assert(listed(out@)[i as int] == s);
        }
    }
}

/// The four-cycles that complete `path`, in the order a depth-first search
/// meets them: neighbours in adjacency-list order, skipping nodes already on
/// the path, and a four-node path closing when its last node links back to
/// its first.
pub open spec fn cycles_found(graph: Seq<Vec<usize>>, path: Seq<usize>) -> Seq<Seq<usize>>
    decreases 4 - path.len(), 1int, 0int,
{
    if path.len() >= 4 {
        if has_edge(graph, path[3], path[0]) {
            seq![path]
        } else {
            seq![]
        }
    } else {
        cycles_found_via(graph, path, graph[path.last() as int]@.len() as int)
    }
}

/// The four-cycles that complete `path` through its last node's first `k` neighbours.
pub open spec fn cycles_found_via(graph: Seq<Vec<usize>>, path: Seq<usize>, k: int) -> Seq<Seq<usize>>
    decreases 4 - path.len(), 0int, k,
{
    if k <= 0 || path.len() >= 4 || path.len() == 0 {
        seq![]
    } else {
        let next = graph[path.last() as int]@[k - 1];
        let earlier = cycles_found_via(graph, path, k - 1);
        if path.contains(next) {
            earlier
        } else {
            earlier + cycles_found(graph, path.push(next))
        }
    }
}

/// The four-cycles met by searches started from nodes `0..n` in turn.
pub open spec fn cycles_found_from_starts(graph: Seq<Vec<usize>>, n: int) -> Seq<Seq<usize>>
    decreases n,
{
    if n <= 0 {
        seq![]
    } else {
        cycles_found_from_starts(graph, n - 1) + cycles_found(graph, seq![(n - 1) as usize])
    }
}

/// The canonical forms of `found`, in order, appended to `kept` when new and
/// while fewer than `maximum` are kept.
pub open spec fn gather(kept: Seq<Seq<usize>>, found: Seq<Seq<usize>>, maximum: nat) -> Seq<Seq<usize>>
    decreases found.len(),
{
    if found.len() == 0 {
        kept
    } else {
        let form = canonical_form(found[0]);
        let next = if kept.len() < maximum && !kept.contains(form) {
            kept.push(form)
        } else {
            kept
        };
        gather(next, found.drop_first(), maximum)
    }
}

/// `out` lists exactly the cycles of `kept`, as many of them.
pub open spec fn same_forms(out: Seq<[usize; 4]>, kept: Seq<Seq<usize>>) -> bool {
    &&& out.len() == kept.len()
    &&& forall|s: Seq<usize>| #[trigger] listed(out).contains(s) <==> kept.contains(s)
}

proof fn lemma_gather_concat(kept: Seq<Seq<usize>>, a: Seq<Seq<usize>>, b: Seq<Seq<usize>>, maximum: nat)
    ensures
        gather(kept, a + b, maximum) == gather(gather(kept, a, maximum), b, maximum),
    decreases a.len(),
{
    if a.len() > 0 {
        let form = canonical_form(a[0]);
        let next = if kept.len() < maximum && !kept.contains(form) {
            kept.push(form)
        } else {
            kept
        };
        assert((a + b).drop_first() =~= a.drop_first() + b);
        assert((a + b)[0] == a[0]);
        lemma_gather_concat(next, a.drop_first(), b, maximum);
    } else {
        assert(a + b =~= b);
    }
}

proof fn lemma_gather_full(kept: Seq<Seq<usize>>, found: Seq<Seq<usize>>, maximum: nat)
    requires
        kept.len() >= maximum,
    ensures
        gather(kept, found, maximum) == kept,
    decreases found.len(),
{
    if found.len() > 0 {
        lemma_gather_full(kept, found.drop_first(), maximum);
    }
}

proof fn lemma_via_prefix(graph: Seq<Vec<usize>>, path: Seq<usize>, m: int, n: int) -> (tail: Seq<Seq<usize>>)
    requires
        0 <= m <= n,
    ensures
        cycles_found_via(graph, path, n) == cycles_found_via(graph, path, m) + tail,
    decreases n - m,
{
    if n == m {
        assert(cycles_found_via(graph, path, n) =~= cycles_found_via(graph, path, m) + seq![]);
        seq![]
    } else {
        let tail = lemma_via_prefix(graph, path, m, n - 1);
        let whole = cycles_found_via(graph, path, n);
        let earlier = cycles_found_via(graph, path, n - 1);
        if n <= 0 || path.len() >= 4 || path.len() == 0 {
            assert(whole =~= cycles_found_via(graph, path, m) + tail);
            tail
        } else {
            let next = graph[path.last() as int]@[n - 1];
            if path.contains(next) {
                assert(whole == earlier);
                tail
            } else {
                let step = cycles_found(graph, path.push(next));
                assert(whole == earlier + step);
                assert(whole =~= cycles_found_via(graph, path, m) + (tail + step));
                tail + step
            }
        }
    }
}

proof fn lemma_starts_prefix(graph: Seq<Vec<usize>>, m: int, n: int) -> (tail: Seq<Seq<usize>>)
    requires
        0 <= m <= n,
    ensures
        cycles_found_from_starts(graph, n) == cycles_found_from_starts(graph, m) + tail,
    decreases n - m,
{
    if n == m {
        assert(cycles_found_from_starts(graph, n) =~= cycles_found_from_starts(graph, m) + seq![]);
        seq![]
    } else {
        let tail = lemma_starts_prefix(graph, m, n - 1);
        let step = cycles_found(graph, seq![(n - 1) as usize]);
        assert(cycles_found_from_starts(graph, n) =~= cycles_found_from_starts(graph, m) + (tail + step));
        tail + step
    }
}

/// The search from `path`, with `kept` gathered so far, reads only adjacency
/// lists that exist: until `maximum` cycles are kept, every node it steps on
/// names a row of `graph`.
pub open spec fn search_reads_rows(graph: Seq<Vec<usize>>, path: Seq<usize>, kept: Seq<Seq<usize>>, maximum: nat) -> bool
    decreases 4 - path.len(), 1int, 0int,
{
    if kept.len() >= maximum {
        true
    } else if path.len() == 0 || path.last() >= graph.len() {
        false
    } else if path.len() >= 4 {
        true
    } else {
        neighbours_read_rows(graph, path, kept, maximum, graph[path.last() as int]@.len() as int)
    }
}

/// The searches through the first `k` neighbours of `path`'s last node read
/// only adjacency lists that exist.
pub open spec fn neighbours_read_rows(
    graph: Seq<Vec<usize>>,
    path: Seq<usize>,
    kept: Seq<Seq<usize>>,
    maximum: nat,
    k: int,
) -> bool
    decreases 4 - path.len(), 0int, k,
{
    if k <= 0 || path.len() >= 4 || path.len() == 0 {
        true
    } else {
        let next = graph[path.last() as int]@[k - 1];
        let before = gather(kept, cycles_found_via(graph, path, k - 1), maximum);
        &&& neighbours_read_rows(graph, path, kept, maximum, k - 1)
        &&& (path.contains(next) || search_reads_rows(graph, path.push(next), before, maximum))
    }
}

/// The whole enumeration, start after start, reads only adjacency lists that
/// exist before `maximum` cycles are kept.
pub open spec fn enumeration_reads_rows(graph: Seq<Vec<usize>>, maximum: nat) -> bool {
    forall|start: int|
        0 <= start < graph.len() ==> #[trigger] search_reads_rows(
            graph,
            seq![start as usize],
            gather(Seq::empty(), cycles_found_from_starts(graph, start), maximum),
            maximum,
        )
}

proof fn lemma_neighbours_prefix(
    graph: Seq<Vec<usize>>,
    path: Seq<usize>,
    kept: Seq<Seq<usize>>,
    maximum: nat,
    j: int,
    k: int,
)
    requires
        0 <= j <= k,
        neighbours_read_rows(graph, path, kept, maximum, k),
    ensures
        neighbours_read_rows(graph, path, kept, maximum, j),
    decreases k - j,
{
    if j < k {
        lemma_neighbours_prefix(graph, path, kept, maximum, j, k - 1);
    }
}

/// With every adjacency entry naming a node of the graph, every search from a
/// node of the graph reads only adjacency lists that exist.
proof fn lemma_rows_in_bounds_are_read_safely(
    graph: Seq<Vec<usize>>,
    path: Seq<usize>,
    kept: Seq<Seq<usize>>,
    maximum: nat,
)
    requires
        adjacency_in_bounds(graph),
        1 <= path.len(),
        path.last() < graph.len(),
    ensures
        search_reads_rows(graph, path, kept, maximum),
    decreases 4 - path.len(), 1int, 0int,
{
    if kept.len() < maximum && path.len() < 4 {
        lemma_neighbours_in_bounds_are_read_safely(
            graph,
            path,
            kept,
            maximum,
            graph[path.last() as int]@.len() as int,
        );
    }
}

proof fn lemma_neighbours_in_bounds_are_read_safely(
    graph: Seq<Vec<usize>>,
    path: Seq<usize>,
    kept: Seq<Seq<usize>>,
    maximum: nat,
    k: int,
)
    requires
        adjacency_in_bounds(graph),
        1 <= path.len() < 4,
        path.last() < graph.len(),
        k <= graph[path.last() as int]@.len(),
    ensures
        neighbours_read_rows(graph, path, kept, maximum, k),
    decreases 4 - path.len(), 0int, k,
{
    if k > 0 {
        lemma_neighbours_in_bounds_are_read_safely(graph, path, kept, maximum, k - 1);
        let next = graph[path.last() as int]@[k - 1];
        let before = gather(kept, cycles_found_via(graph, path, k - 1), maximum);
        assert(next < graph.len());
        lemma_rows_in_bounds_are_read_safely(graph, path.push(next), before, maximum);
    }
}

/// Law: when every adjacency entry names a node of the graph, the enumeration
/// reads only adjacency lists that exist, whatever its limit.
pub proof fn lemma_enumeration_in_bounds_reads_rows(graph: Seq<Vec<usize>>, maximum: nat)
    requires
        adjacency_in_bounds(graph),
    ensures
        enumeration_reads_rows(graph, maximum),
{
    assert forall|start: int| 0 <= start < graph.len() implies #[trigger] search_reads_rows(
        graph,
        seq![start as usize],
        gather(Seq::empty(), cycles_found_from_starts(graph, start), maximum),
        maximum,
    ) by {
        lemma_rows_in_bounds_are_read_safely(
            graph,
            seq![start as usize],
            gather(Seq::empty(), cycles_found_from_starts(graph, start), maximum),
            maximum,
        );
    }
}

/// Every four-cycle whose first `path.len()` nodes are `path` has its
/// canonical form in `out`.
pub open spec fn covers_extensions(graph: Seq<Vec<usize>>, path: Seq<usize>, out: Seq<[usize; 4]>) -> bool {
    forall|c: Seq<usize>|
        #[trigger] is_four_cycle(graph, c) && c.subrange(0, path.len() as int) == path
            ==> listed(out).contains(canonical_form(c))
}

/// Depth-first search for four-cycles that start with `path`, stopping once
/// `output` holds `maximum_cycles` cycles.
fn visit(
    graph: &[Vec<usize>],
    start: usize,
    path: &mut Vec<usize>,
    output: &mut Vec<[usize; 4]>,
    maximum_cycles: usize,
    Ghost(kept): Ghost<Seq<Seq<usize>>>,
)
    requires
        same_forms(old(output)@, kept),
        search_reads_rows(graph@, old(path)@, kept, maximum_cycles as nat),
        is_simple_path(graph@, old(path)@),
        old(path)@.len() <= 4,
        old(path)@[0] == start,
        strictly_sorted(old(output)@),
        all_cycle_forms(graph@, old(output)@),
        old(output)@.len() <= maximum_cycles,
    ensures
        same_forms(final(output)@, gather(kept, cycles_found(graph@, old(path)@), maximum_cycles as nat)),
        final(path)@ == old(path)@,
        strictly_sorted(final(output)@),
        all_cycle_forms(graph@, final(output)@),
        old(output)@.len() <= final(output)@.len() <= maximum_cycles,
        forall|s: Seq<usize>|
            listed(old(output)@).contains(s) ==> #[trigger] listed(final(output)@).contains(s),
        final(output)@.len() < maximum_cycles ==> covers_extensions(graph@, old(path)@, final(output)@),
    decreases 4 - old(path)@.len(),
{
    if output.len() >= maximum_cycles {
        proof {
            lemma_gather_full(kept, cycles_found(graph@, path@), maximum_cycles as nat);
        }
        return;
    }
    let current = path[path.len() - 1];
    if path.len() == 4 {
        if contains_node(&graph[current], start) {
            let found = [path[0], path[1], path[2], path[3]];
            assert(found@ =~= path@);
            assert(is_four_cycle(graph@, path@));
            let form = canonical_cycle(found);
            insert_sorted(output, form);
            proof {
                let met = cycles_found(graph@, path@);
                assert(met == seq![path@]);
                assert(met.drop_first() =~= Seq::<Seq<usize>>::empty());
                let next = if kept.len() < maximum_cycles && !kept.contains(form@) {
                    kept.push(form@)
                } else {
                    kept
                };
                assert(gather(kept, met, maximum_cycles as nat) == gather(next, met.drop_first(), maximum_cycles as nat));
                assert forall|s: Seq<usize>| #[trigger] listed(output@).contains(s) <==> next.contains(s) by {
                    if s == form@ && !kept.contains(form@) {
                        assert(next[next.len() - 1] == s);
                    }
                    if next.contains(s) && !kept.contains(s) {
                        let k = choose|k: int| 0 <= k < next.len() && next[k] == s;
                        assert(k == next.len() - 1);
                    }
                    if kept.contains(s) && !kept.contains(form@) {
                        let k = choose|k: int| 0 <= k < kept.len() && kept[k] == s;
                        assert(next[k] == s);
                    }
                }
            }
            assert forall|i: int| 0 <= i < output@.len() implies is_cycle_form(
                graph@,
                #[trigger] output@[i]@,
            ) by {
                if output@[i]@ != form@ {
                    assert(listed(output@).contains(output@[i]@)) by {
                        assert(listed(output@)[i] == output@[i]@);
                    }
                    let k = choose|k: int| 0 <= k < old(output)@.len() && listed(old(output)@)[k] == output@[i]@;
                    assert(is_cycle_form(graph@, old(output)@[k]@));
                }
            }
            assert forall|c: Seq<usize>|
                #[trigger] is_four_cycle(graph@, c) && c.subrange(0, 4) == path@ implies listed(
                output@,
            ).contains(canonical_form(c)) by {
                assert(c =~= path@);
            }
        } else {
            assert forall|c: Seq<usize>|
                #[trigger] is_four_cycle(graph@, c) && c.subrange(0, 4) == path@ implies listed(
                output@,
            ).contains(canonical_form(c)) by {
                assert(c =~= path@);
            }
            assert(cycles_found(graph@, path@) =~= Seq::<Seq<usize>>::empty());
        }
        return;
    }
    let ghost entry_path = path@;
    let ghost entry_output = output@;
    let neighbours = &graph[current];
    let mut k: usize = 0;
    while k < neighbours.len()
        invariant
            neighbours_read_rows(graph@, entry_path, kept, maximum_cycles as nat, neighbours@.len() as int),
            neighbours@ == graph@[current as int]@,
            current == entry_path[entry_path.len() - 1],
            is_simple_path(graph@, entry_path),
            entry_path.len() < 4,
            entry_path[0] == start,
            path@ == entry_path,
            entry_path == old(path)@,
            entry_output == old(output)@,
            0 <= k <= neighbours.len(),
            same_forms(
                output@,
                gather(kept, cycles_found_via(graph@, entry_path, k as int), maximum_cycles as nat),
            ),
            strictly_sorted(output@),
            all_cycle_forms(graph@, output@),
            entry_output.len() <= output@.len() < maximum_cycles,
            forall|s: Seq<usize>|
                listed(entry_output).contains(s) ==> #[trigger] listed(output@).contains(s),
            forall|c: Seq<usize>|
                #[trigger] is_four_cycle(graph@, c) && c.subrange(0, entry_path.len() as int)
                    == entry_path && neighbours@.subrange(0, k as int).contains(
                    c[entry_path.len() as int],
                ) ==> listed(output@).contains(canonical_form(c)),
        decreases neighbours.len() - k,
    {
        let next = neighbours[k];
        let ghost before = output@;
        let ghost kept_so_far = gather(kept, cycles_found_via(graph@, entry_path, k as int), maximum_cycles as nat);
        if !contains_node(path, next) {
            proof {
                lemma_neighbours_prefix(graph@, entry_path, kept, maximum_cycles as nat, k + 1, neighbours@.len() as int);
                assert(entry_path.last() == current);
                assert(neighbours_read_rows(graph@, entry_path, kept, maximum_cycles as nat, k + 1));
                assert(search_reads_rows(graph@, entry_path.push(next), kept_so_far, maximum_cycles as nat));
            }
            path.push(next);
            assert(is_simple_path(graph@, path@)) by {
                assert forall|i: int| 0 <= i < path@.len() - 1 implies #[trigger] linked(
                    graph@,
                    path@,
                    i,
                ) by {
                    if i < path@.len() - 2 {
                        assert(linked(graph@, entry_path, i));
                    } else {
                        assert(neighbours@[k as int] == next);
                    }
                }
            }
            visit(graph, start, path, output, maximum_cycles, Ghost(kept_so_far));
            path.pop();
            assert(path@ =~= entry_path);
            proof {
                let child = cycles_found(graph@, entry_path.push(next));
                assert(entry_path.last() == current);
                assert(cycles_found_via(graph@, entry_path, k + 1) == cycles_found_via(
                    graph@,
                    entry_path,
                    k as int,
                ) + child);
                lemma_gather_concat(kept, cycles_found_via(graph@, entry_path, k as int), child, maximum_cycles as nat);
            }
            if output.len() >= maximum_cycles {
                proof {
                    let all = neighbours@.len() as int;
                    let tail = lemma_via_prefix(graph@, entry_path, k + 1, all);
                    lemma_gather_concat(kept, cycles_found_via(graph@, entry_path, k + 1), tail, maximum_cycles as nat);
                    lemma_gather_full(
                        gather(kept, cycles_found_via(graph@, entry_path, k + 1), maximum_cycles as nat),
                        tail,
                        maximum_cycles as nat,
                    );
                    assert(cycles_found(graph@, entry_path) == cycles_found_via(graph@, entry_path, all));
                }
                return;
            }
            assert forall|c: Seq<usize>|
                #[trigger] is_four_cycle(graph@, c) && c.subrange(0, entry_path.len() as int)
                    == entry_path && neighbours@.subrange(0, k + 1).contains(
                    c[entry_path.len() as int],
                ) implies listed(output@).contains(canonical_form(c)) by {
                let n = c[entry_path.len() as int];
                let upto = neighbours@.subrange(0, k + 1);
                let j = choose|j: int| 0 <= j < upto.len() && upto[j] == n;
                if j < k {
                    assert(neighbours@.subrange(0, k as int)[j] == n);
                    assert(listed(before).contains(canonical_form(c)));
                } else {
                    assert(c.subrange(0, entry_path.len() as int + 1) =~= entry_path.push(next));
                }
            }
        } else {
            assert(entry_path.last() == current);
            assert(cycles_found_via(graph@, entry_path, k + 1) == cycles_found_via(graph@, entry_path, k as int));
            assert forall|c: Seq<usize>|
                #[trigger] is_four_cycle(graph@, c) && c.subrange(0, entry_path.len() as int)
                    == entry_path && neighbours@.subrange(0, k + 1).contains(
                    c[entry_path.len() as int],
                ) implies listed(output@).contains(canonical_form(c)) by {
                let n = c[entry_path.len() as int];
                let upto = neighbours@.subrange(0, k + 1);
                let j = choose|j: int| 0 <= j < upto.len() && upto[j] == n;
                if j < k {
                    assert(neighbours@.subrange(0, k as int)[j] == n);
                } else {
                    let p = choose|p: int| 0 <= p < entry_path.len() && entry_path[p] == next;
                    assert(c[p] == entry_path[p]);
                }
            }
        }
        k = k + 1;
    }
    assert forall|c: Seq<usize>|
        #[trigger] is_four_cycle(graph@, c) && c.subrange(0, entry_path.len() as int) == entry_path
            implies listed(output@).contains(canonical_form(c)) by {
        let last = (entry_path.len() - 1) as int;
        assert(linked(graph@, c, last));
        assert(c[last] == entry_path[last]);
        assert(neighbours@.subrange(0, neighbours@.len() as int) =~= neighbours@);
    }
    assert(cycles_found(graph@, entry_path) == cycles_found_via(graph@, entry_path, neighbours@.len() as int));
}

/// Law: no two cycles listed by the enumeration are traversals of the same
/// cycle, so each four-cycle of the graph is reported at most once.
pub proof fn lemma_listed_cycles_are_unique(graph: Seq<Vec<usize>>, out: Seq<[usize; 4]>, i: int, j: int)
    requires
        strictly_sorted(out),
        all_cycle_forms(graph, out),
        0 <= i < j < out.len(),
    ensures
        !same_cycle(out[i]@, out[j]@),
{
    assert(is_cycle_form(graph, out[i]@));
    assert(is_cycle_form(graph, out[j]@));
    let ci = choose|c: Seq<usize>| #[trigger] is_four_cycle(graph, c) && canonical_form(c) == out[i]@;
    let cj = choose|c: Seq<usize>| #[trigger] is_four_cycle(graph, c) && canonical_form(c) == out[j]@;
    lemma_canonical_form_idempotent(ci);
    lemma_canonical_form_idempotent(cj);
    lemma_canonical_form_is_least_traversal(ci);
    lemma_canonical_form_is_least_traversal(cj);
    if same_cycle(out[i]@, out[j]@) {
        lemma_same_cycle_same_canonical_form(out[i]@, out[j]@);
        assert(cycle_less(out[i]@, out[j]@));
    }
}

/// All distinct four-cycles of `graph`, each in canonical form, in increasing
/// lexicographic order; the search stops once `maximum_cycles` are found.
/// The search must never step onto a node that has no adjacency list before
/// it stops (always so when every entry names a node of the graph, see
/// `lemma_enumeration_in_bounds_reads_rows`).
pub fn enumerate_cycles(graph: &[Vec<usize>], maximum_cycles: usize) -> (cycles: Vec<[usize; 4]>)
    requires
        enumeration_reads_rows(graph@, maximum_cycles as nat),
    ensures
        same_forms(
            cycles@,
            gather(
                Seq::empty(),
                cycles_found_from_starts(graph@, graph@.len() as int),
                maximum_cycles as nat,
            ),
        ),
        cycles@.len() <= maximum_cycles,
        strictly_sorted(cycles@),
        all_cycle_forms(graph@, cycles@),
        cycles@.len() < maximum_cycles ==> forall|c: Seq<usize>|
            #[trigger] is_four_cycle(graph@, c) ==> listed(cycles@).contains(canonical_form(c)),
{
    let mut cycles: Vec<[usize; 4]> = Vec::new();
    let mut start: usize = 0;
    while start < graph.len() && cycles.len() < maximum_cycles
        invariant
            enumeration_reads_rows(graph@, maximum_cycles as nat),
            0 <= start <= graph@.len(),
            same_forms(
                cycles@,
                gather(Seq::empty(), cycles_found_from_starts(graph@, start as int), maximum_cycles as nat),
            ),
            strictly_sorted(cycles@),
            all_cycle_forms(graph@, cycles@),
            cycles@.len() <= maximum_cycles,
            cycles@.len() < maximum_cycles ==> forall|c: Seq<usize>|
                #[trigger] is_four_cycle(graph@, c) && c[0] < start ==> listed(cycles@).contains(
                    canonical_form(c),
                ),
        decreases graph@.len() - start,
    {
        let ghost before = cycles@;
        let ghost kept_so_far = gather(
            Seq::empty(),
            cycles_found_from_starts(graph@, start as int),
            maximum_cycles as nat,
        );
        let mut path: Vec<usize> = Vec::new();
        path.push(start);
        assert(is_simple_path(graph@, path@));
        assert(path@ =~= seq![start]);
        assert(search_reads_rows(graph@, seq![(start as int) as usize], kept_so_far, maximum_cycles as nat));
        visit(graph, start, &mut path, &mut cycles, maximum_cycles, Ghost(kept_so_far));
        proof {
            assert(path@ =~= seq![start]);
            assert(cycles_found_from_starts(graph@, start + 1) == cycles_found_from_starts(graph@, start as int)
                + cycles_found(graph@, seq![start]));
            lemma_gather_concat(
                Seq::empty(),
                cycles_found_from_starts(graph@, start as int),
                cycles_found(graph@, seq![start]),
                maximum_cycles as nat,
            );
        }
        assert forall|c: Seq<usize>|
            #[trigger] is_four_cycle(graph@, c) && c[0] < start + 1 && cycles@.len() < maximum_cycles
                implies listed(cycles@).contains(canonical_form(c)) by {
            if c[0] < start {
                assert(listed(before).contains(canonical_form(c)));
            } else {
                assert(c.subrange(0, 1) =~= path@);
            }
        }
        start = start + 1;
    }
    proof {
        let all = graph@.len() as int;
        if start < all {
            let tail = lemma_starts_prefix(graph@, start as int, all);
            let so_far = gather(Seq::empty(), cycles_found_from_starts(graph@, start as int), maximum_cycles as nat);
            lemma_gather_concat(Seq::empty(), cycles_found_from_starts(graph@, start as int), tail, maximum_cycles as nat);
            lemma_gather_full(so_far, tail, maximum_cycles as nat);
        }
    }
    cycles
}

} // verus!
