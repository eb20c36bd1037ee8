//! The intersection graph of the Hough fallback: intersections are nodes, and
//! two of them are joined when they lie on a common line and are far enough apart.

use vstd::prelude::*;
use crate::cycles::adjacency_in_bounds;

verus! {

/// Two intersections, each named by the pair of line indices it lies on,
/// share a line.
pub open spec fn lines_shared(first: (usize, usize), second: (usize, usize)) -> bool {
    ||| first.0 == second.0
    ||| first.0 == second.1
    ||| first.1 == second.0
    ||| first.1 == second.1
}

/// Whether two intersections lie on a common Hough line.
pub fn shares_line(first: (usize, usize), second: (usize, usize)) -> (r: bool)
    ensures
        r == lines_shared(first, second),
{
    first.0 == second.0 || first.0 == second.1 || first.1 == second.0 || first.1 == second.1
}

/// Each adjacency list is strictly increasing.
pub open spec fn rows_increasing(graph: Seq<Vec<usize>>) -> bool {
    forall|v: int, a: int, b: int|
        0 <= v < graph.len() && 0 <= a < b < graph[v]@.len() ==> #[trigger] graph[v]@[a]
            < #[trigger] graph[v]@[b]
}

/// No node is its own neighbour.
pub open spec fn loop_free(graph: Seq<Vec<usize>>) -> bool {
    forall|v: int, k: int| 0 <= v < graph.len() && 0 <= k < graph[v]@.len() ==> #[trigger] graph[v]@[k] != v
}

/// The pair `(i, j)`, `i < j`, was examined before position `(first, second)`.
pub open spec fn examined(i: int, j: int, first: int, second: int) -> bool {
    i < first || (i == first && j < second)
}

/// For the examined pairs `i < j`, the edge is present in both directions
/// exactly when the two intersections share a line and `far_apart(i, j)`
/// answered `true`.
pub open spec fn edges_decided<F: Fn(usize, usize) -> bool>(
    graph: Seq<Vec<usize>>,
    source_lines: Seq<(usize, usize)>,
    far_apart: F,
    first: int,
    second: int,
) -> bool {
    forall|i: usize, j: usize|
        #![trigger graph[i as int]@.contains(j)]
        #![trigger graph[j as int]@.contains(i)]
        i < j < graph.len() && examined(i as int, j as int, first, second) ==> {
            &&& graph[i as int]@.contains(j) <==> graph[j as int]@.contains(i)
            &&& graph[i as int]@.contains(j) ==> lines_shared(source_lines[i as int], source_lines[j as int])
                && far_apart.ensures((i, j), true)
            &&& !graph[i as int]@.contains(j) && lines_shared(source_lines[i as int], source_lines[j as int])
                ==> far_apart.ensures((i, j), false)
        }
}

/// Every listed edge joins an examined pair.
pub open spec fn edges_examined(graph: Seq<Vec<usize>>, first: int, second: int) -> bool {
    forall|v: int, k: int|
        0 <= v < graph.len() && 0 <= k < graph[v]@.len() ==> {
            let w = #[trigger] graph[v]@[k] as int;
            if w < v {
                examined(w, v, first, second)
            } else {
                examined(v, w, first, second)
            }
        }
}

proof fn lemma_push_contains(s: Seq<usize>, x: usize, y: usize)
    ensures
        s.push(x).contains(y) <==> (s.contains(y) || x == y),
{
    if s.contains(y) {
        let k = choose|k: int| 0 <= k < s.len() && s[k] == y;
        assert(s.push(x)[k] == y);
    }
    if x == y {
        assert(s.push(x)[s.len() as int] == y);
    }
    if s.push(x).contains(y) {
        let k = choose|k: int| 0 <= k < s.push(x).len() && s.push(x)[k] == y;
        if k < s.len() {
            assert(s[k] == y);
        }
    }
}

/// Adjacency lists of the intersection graph. `source_lines[i]` names the two
/// lines through intersection `i`; `far_apart(i, j)` is asked, for `i < j`
/// sharing a line, whether the two intersections are far enough apart.
pub fn build_graph<F: Fn(usize, usize) -> bool>(
    source_lines: &[(usize, usize)],
    far_apart: F,
) -> (graph: Vec<Vec<usize>>)
    requires
        forall|i: usize, j: usize| far_apart.requires((i, j)),
    ensures
        graph@.len() == source_lines@.len(),
        adjacency_in_bounds(graph@),
        loop_free(graph@),
        rows_increasing(graph@),
        // every pair of intersections is decided
        edges_decided(graph@, source_lines@, far_apart, graph@.len() as int, 0),
{
    let n = source_lines.len();
    let mut graph: Vec<Vec<usize>> = Vec::new();
    while graph.len() < n
        invariant
            graph@.len() <= n,
            forall|v: int| 0 <= v < graph@.len() ==> (#[trigger] graph@[v])@.len() == 0,
        decreases n - graph@.len(),
    {
        graph.push(Vec::new());
    }
    let mut first: usize = 0;
    while first < n
        invariant
            n == source_lines@.len(),
            graph@.len() == n,
            0 <= first <= n,
            forall|i: usize, j: usize| far_apart.requires((i, j)),
            adjacency_in_bounds(graph@),
            loop_free(graph@),
            rows_increasing(graph@),
            edges_examined(graph@, first as int, 0),
            edges_decided(graph@, source_lines@, far_apart, first as int, 0),
        decreases n - first,
    {
        let mut second: usize = first + 1;
        while second < n
            invariant
                n == source_lines@.len(),
                graph@.len() == n,
                first < n,
                first + 1 <= second <= n,
                forall|i: usize, j: usize| far_apart.requires((i, j)),
                adjacency_in_bounds(graph@),
                loop_free(graph@),
                rows_increasing(graph@),
                edges_examined(graph@, first as int, second as int),
                edges_decided(graph@, source_lines@, far_apart, first as int, second as int),
            decreases n - second,
        {
            let ghost before = graph@;
            let shared = shares_line(source_lines[first], source_lines[second]);
            let mut joined = false;
            if shared {
                joined = far_apart(first, second);
            }
            if joined {
                graph[first].push(second);
                graph[second].push(first);
                assert(graph@[first as int]@ == before[first as int]@.push(second));
                assert(graph@[second as int]@ == before[second as int]@.push(first));
                assert forall|v: int| 0 <= v < n && v != first && v != second implies graph@[v]
                    == before[v] by {}
            }
            assert forall|i: usize, j: usize|
                #![trigger graph@[i as int]@.contains(j)]
                #![trigger graph@[j as int]@.contains(i)]
                i < j < graph@.len() && examined(i as int, j as int, first as int, second + 1) implies {
                    &&& graph@[i as int]@.contains(j) <==> graph@[j as int]@.contains(i)
                    &&& graph@[i as int]@.contains(j) ==> lines_shared(source_lines@[i as int], source_lines@[j as int])
                        && far_apart.ensures((i, j), true)
                    &&& !graph@[i as int]@.contains(j) && lines_shared(source_lines@[i as int], source_lines@[j as int])
                        ==> far_apart.ensures((i, j), false)
                } by {
                if i == first && j == second {
                    if joined {
                        assert(graph@[i as int]@[before[i as int]@.len() as int] == j);
                        assert(graph@[j as int]@[before[j as int]@.len() as int] == i);
                    } else {
                        assert(!before[i as int]@.contains(j)) by {
                            if before[i as int]@.contains(j) {
                                let k = choose|k: int| 0 <= k < before[i as int]@.len() && before[i as int]@[k] == j;
                                assert(examined(i as int, j as int, first as int, second as int));
                            }
                        }
                    }
                } else {
                    assert(examined(i as int, j as int, first as int, second as int));
                    if joined {
                        if i == first || i == second {
                            lemma_push_contains(before[i as int]@, if i == first { second } else { first }, j);
                        }
                        if j == first || j == second {
                            lemma_push_contains(before[j as int]@, if j == first { second } else { first }, i);
                        }
                    }
                }
            }
            second = second + 1;
        }
        first = first + 1;
    }
    graph
}

} // verus!
