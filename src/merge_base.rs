//! The breadth-first merge base over a commit graph given as parent lists:
//! commits are numbered `0..n`, `parents[c]` lists the parents of `c`.
use vstd::prelude::*;

verus! {

/// The parent lists as sequences.
pub open spec fn graph_of(parents: Seq<Vec<usize>>) -> Seq<Seq<usize>> {
    parents.map_values(|p: Vec<usize>| p@)
}

/// Some commit is an ancestor of both.
pub open spec fn have_common_ancestor(g: Seq<Seq<usize>>, a: int, b: int) -> bool {
    exists|c: int| #[trigger] is_common_ancestor(g, a, b, c)
}

pub open spec fn graph_ok(g: Seq<Seq<usize>>) -> bool {
    forall|c: int, k: int| 0 <= c < g.len() && 0 <= k < g[c].len() ==> #[trigger] g[c][k] < g.len()
}

/// `y` is a parent of `z`.
pub open spec fn edge(g: Seq<Seq<usize>>, z: int, y: int) -> bool {
    0 <= z < g.len() && exists|j: int| 0 <= j < g[z].len() && #[trigger] g[z][j] as int == y
}

/// `p` goes from commits to parents, one step at a time.
pub open spec fn is_path(g: Seq<Seq<usize>>, p: Seq<int>) -> bool {
    p.len() > 0 && forall|i: int| 0 <= i < p.len() - 1 ==> edge(g, #[trigger] p[i], p[i + 1])
}

/// `y` is `x` or one of its ancestors.
pub open spec fn is_ancestor(g: Seq<Seq<usize>>, x: int, y: int) -> bool {
    exists|p: Seq<int>| #[trigger] is_path(g, p) && p[0] == x && p.last() == y
}

/// `c` is an ancestor (or the commit itself) of both `a` and `b`.
pub open spec fn is_common_ancestor(g: Seq<Seq<usize>>, a: int, b: int, c: int) -> bool {
    0 <= c < g.len() && is_ancestor(g, a, c) && is_ancestor(g, b, c)
}

pub open spec fn count_unvisited(v: Seq<bool>) -> nat
    decreases v.len(),
{
    if v.len() == 0 {
        0
    } else {
        count_unvisited(v.drop_last()) + if v.last() {
            0nat
        } else {
            1nat
        }
    }
}

proof fn lemma_count_mark(v: Seq<bool>, i: int)
    requires
        0 <= i < v.len(),
        !v[i],
    ensures
        count_unvisited(v.update(i, true)) + 1 == count_unvisited(v),
    decreases v.len(),
{
    if i < v.len() - 1 {
        assert(v.update(i, true).drop_last() =~= v.drop_last().update(i, true));
        lemma_count_mark(v.drop_last(), i);
    } else {
        assert(v.update(i, true).drop_last() =~= v.drop_last());
    }
}

proof fn lemma_path_step(g: Seq<Seq<usize>>, x: int, z: int, y: int)
    requires
        is_ancestor(g, x, z),
        edge(g, z, y),
    ensures
        is_ancestor(g, x, y),
{
    let p = choose|p: Seq<int>| #[trigger] is_path(g, p) && p[0] == x && p.last() == z;
    let q = p.push(y);
    assert forall|i: int| 0 <= i < q.len() - 1 implies edge(g, #[trigger] q[i], q[i + 1]) by {
        if i < p.len() - 1 {
            assert(q[i] == p[i] && q[i + 1] == p[i + 1]);
        } else {
            assert(q[i] == z);
        }
    }
    assert(is_path(g, q));
}

/// A set of commits that holds `x` and every parent of its members holds
/// the end of every path from `x`.
proof fn lemma_closed_holds_path(g: Seq<Seq<usize>>, vis: Seq<bool>, p: Seq<int>)
    requires
        graph_ok(g),
        vis.len() == g.len(),
        is_path(g, p),
        0 <= p[0] < g.len(),
        vis[p[0]],
        forall|c: int, j: int|
            0 <= c < g.len() && vis[c] && 0 <= j < g[c].len() ==> vis[#[trigger] g[c][j] as int],
    ensures
        0 <= p.last() < g.len() && vis[p.last()],
    decreases p.len(),
{
    if p.len() > 1 {
        let q = p.drop_last();
        assert forall|i: int| 0 <= i < q.len() - 1 implies edge(g, #[trigger] q[i], q[i + 1]) by {
            assert(q[i] == p[i] && q[i + 1] == p[i + 1]);
        }
        lemma_closed_holds_path(g, vis, q);
        let z = q.last();
        assert(edge(g, p[p.len() - 2], p[p.len() - 1]));
        let j = choose|j: int| 0 <= j < g[z].len() && #[trigger] g[z][j] as int == p.last();
        assert(vis[g[z][j] as int]);
        assert(g[z][j] < g.len());
    }
}

/// The commits `start` reaches, and the order in which a breadth-first walk
/// meets them.
fn ancestors(parents: &Vec<Vec<usize>>, start: usize) -> (r: (Vec<bool>, Vec<usize>))
    requires
        graph_ok(graph_of(parents@)),
        start < parents.len(),
    ensures
        r.0@.len() == parents@.len(),
        forall|c: int|
            0 <= c < parents@.len() ==> (#[trigger] r.0@[c] <==> is_ancestor(
                graph_of(parents@),
                start as int,
                c,
            )),
        forall|k: int| 0 <= k < r.1@.len() ==> #[trigger] r.1@[k] < parents@.len() && r.0@[r.1@[k] as int],
        forall|c: int| 0 <= c < parents@.len() && #[trigger] r.0@[c] ==> r.1@.contains(c as usize),
        r.1@.len() > 0 && r.1@[0] == start,
{
    let ghost g = graph_of(parents@);
    let n = parents.len();
    let mut visited: Vec<bool> = Vec::new();
    for i in 0..n
        invariant
            visited@.len() == i,
            forall|q: int| 0 <= q < i ==> !#[trigger] visited@[q],
    {
        visited.push(false);
    }
    proof {
        lemma_count_mark(visited@, start as int);
        assert(is_path(g, seq![start as int]));
    }
    visited.set(start, true);
    let mut queue: Vec<usize> = vec![start];
    let mut head: usize = 0;
    while head < queue.len()
        invariant
            g == graph_of(parents@),
            graph_ok(g),
            n == parents@.len(),
            g.len() == n,
            visited@.len() == n,
            start < n,
            visited@[start as int],
            queue@.len() > 0 && queue@[0] == start,
            head <= queue@.len(),
            forall|k: int| 0 <= k < queue@.len() ==> #[trigger] queue@[k] < n && visited@[queue@[k] as int],
            forall|c: int| 0 <= c < n && #[trigger] visited@[c] ==> queue@.contains(c as usize),
            forall|c: int| 0 <= c < n && #[trigger] visited@[c] ==> is_ancestor(g, start as int, c),
            forall|k: int, j: int|
                0 <= k < head && 0 <= j < g[queue@[k] as int].len() ==> visited@[#[trigger] g[queue@[k] as int][j] as int],
        decreases 2 * count_unvisited(visited@) + queue@.len() - head,
    {
        let x = queue[head];
        let ps = &parents[x];
        assert(g[x as int] == ps@);
        let ghost q_before = queue@;
        let ghost v_before = visited@;
        for j in 0..ps.len()
            invariant
                g == graph_of(parents@),
                graph_ok(g),
                n == parents@.len(),
                g.len() == n,
                ps@ == g[x as int],
                x < n,
                visited@.len() == n,
                visited@[start as int],
                visited@[x as int],
                head < queue@.len(),
                queue@[head as int] == x,
                queue@.len() > 0 && queue@[0] == start,
                queue@.len() >= q_before.len(),
                queue@.subrange(0, q_before.len() as int) == q_before,
                2 * count_unvisited(visited@) + queue@.len() <= 2 * count_unvisited(v_before)
                    + q_before.len(),
                forall|k: int| 0 <= k < queue@.len() ==> #[trigger] queue@[k] < n && visited@[queue@[k] as int],
                forall|c: int| 0 <= c < n && #[trigger] visited@[c] ==> queue@.contains(c as usize),
                forall|c: int| 0 <= c < n && #[trigger] visited@[c] ==> is_ancestor(g, start as int, c),
                forall|k: int, jj: int|
                    0 <= k < head && 0 <= jj < g[queue@[k] as int].len() ==> visited@[#[trigger] g[queue@[k] as int][jj] as int],
                forall|jj: int| 0 <= jj < j ==> visited@[#[trigger] ps@[jj] as int],
        {
            let p = ps[j];
            assert(p < n) by {
                assert(g[x as int][j as int] < g.len());
            }
            if !visited[p] {
                proof {
                    lemma_count_mark(visited@, p as int);
                    assert(is_ancestor(g, start as int, x as int));
                    assert(edge(g, x as int, p as int)) by {
                        assert(g[x as int][j as int] as int == p as int);
                    }
                    lemma_path_step(g, start as int, x as int, p as int);
                }
                visited.set(p, true);
                let ghost q0 = queue@;
                queue.push(p);
                proof {
                    assert(queue@.subrange(0, q_before.len() as int) =~= q0.subrange(0, q_before.len() as int));
                    assert forall|c: int| 0 <= c < n && #[trigger] visited@[c] implies queue@.contains(c as usize) by {
                        if c == p {
                            assert(queue@[queue@.len() - 1] == p);
                        } else {
                            assert(q0.contains(c as usize));
                            let w = choose|w: int| 0 <= w < q0.len() && q0[w] == c as usize;
                            assert(queue@[w] == c as usize);
                        }
                    }
                }
            }
        }
        proof {
            assert(ps@ == g[x as int]);
        }
        head = head + 1;
        proof {
            assert forall|k: int, j: int|
                0 <= k < head && 0 <= j < g[queue@[k] as int].len() implies visited@[#[trigger] g[queue@[k] as int][j] as int] by {
                if k == head - 1 {
                    assert(queue@[k] == x);
                    assert(g[x as int][j] == ps@[j]);
                }
            }
        }
    }
    proof {
        assert forall|c: int, j: int|
            0 <= c < g.len() && visited@[c] && 0 <= j < g[c].len() implies visited@[#[trigger] g[c][j] as int] by {
            let w = choose|w: int| 0 <= w < queue@.len() && queue@[w] == c as usize;
            assert(g[queue@[w] as int][j] == g[c][j]);
        }
        assert forall|c: int| 0 <= c < parents@.len() implies (#[trigger] visited@[c] <==> is_ancestor(g, start as int, c)) by {
            if is_ancestor(g, start as int, c) {
                let p = choose|p: Seq<int>| #[trigger] is_path(g, p) && p[0] == start as int && p.last() == c;
                lemma_closed_holds_path(g, visited@, p);
            }
        }
    }
    (visited, queue)
}

/// No two distinct commits are each other's ancestors.
pub open spec fn acyclic(g: Seq<Seq<usize>>) -> bool {
    forall|x: int, y: int|
        0 <= x < g.len() && 0 <= y < g.len() && x != y && #[trigger] is_ancestor(g, x, y)
            ==> !#[trigger] is_ancestor(g, y, x)
}

/// A common ancestor that is not an ancestor of another common ancestor:
/// what `git merge-base` reports.
pub open spec fn is_best_common(g: Seq<Seq<usize>>, a: int, b: int, c: int) -> bool {
    &&& is_common_ancestor(g, a, b, c)
    &&& forall|d: int| d != c && #[trigger] is_common_ancestor(g, a, b, d) ==> !is_ancestor(g, d, c)
}

pub open spec fn have_best_common(g: Seq<Seq<usize>>, a: int, b: int) -> bool {
    exists|c: int| #[trigger] is_best_common(g, a, b, c)
}

/// The merge base of `a` and `b` by breadth-first search: the first of
/// `a`'s ancestors, in breadth-first order, that is a best common ancestor
/// (else the first common ancestor); `a` itself when there is none.
pub fn merge_base_bfs(parents: &Vec<Vec<usize>>, a: usize, b: usize) -> (r: usize)
    requires
        graph_ok(graph_of(parents@)),
        a < parents.len(),
        b < parents.len(),
    ensures
        r < parents.len(),
        have_common_ancestor(graph_of(parents@), a as int, b as int)
            ==> is_common_ancestor(graph_of(parents@), a as int, b as int, r as int),
        have_best_common(graph_of(parents@), a as int, b as int)
            ==> is_best_common(graph_of(parents@), a as int, b as int, r as int),
        !have_common_ancestor(graph_of(parents@), a as int, b as int) ==> r == a,
{
    let ghost g = graph_of(parents@);
    let n = parents.len();
    let (from_a, order) = ancestors(parents, a);
    let (from_b, _) = ancestors(parents, b);
    let mut first: Option<usize> = None;
    let mut k: usize = 0;
    while k < order.len()
        invariant
            g == graph_of(parents@),
            graph_ok(g),
            n == parents@.len(),
            a < n,
            b < n,
            forall|c: int| 0 <= c < n ==> (#[trigger] from_a@[c] <==> is_ancestor(g, a as int, c)),
            forall|c: int| 0 <= c < n ==> (#[trigger] from_b@[c] <==> is_ancestor(g, b as int, c)),
            forall|c: int| 0 <= c < n && #[trigger] from_a@[c] ==> order@.contains(c as usize),
            from_a@.len() == n,
            from_b@.len() == n,
            forall|j: int| 0 <= j < order@.len() ==> #[trigger] order@[j] < n && from_a@[order@[j] as int],
            forall|j: int| 0 <= j < k ==> !is_best_common(g, a as int, b as int, #[trigger] order@[j] as int),
            match first {
                Some(f) => f < n && is_common_ancestor(g, a as int, b as int, f as int),
                None => forall|j: int| 0 <= j < k ==> !from_b@[#[trigger] order@[j] as int],
            },
        decreases order.len() - k,
    {
        let c = order[k];
        if from_b[c] {
            proof {
                assert(is_common_ancestor(g, a as int, b as int, c as int));
            }
            if first.is_none() {
                first = Some(c);
            }
            let mut best = true;
            let mut d: usize = 0;
            while d < n
                invariant
                    g == graph_of(parents@),
                    graph_ok(g),
                    n == parents@.len(),
                    c < n,
                    forall|x: int| 0 <= x < n ==> (#[trigger] from_a@[x] <==> is_ancestor(g, a as int, x)),
                    forall|x: int| 0 <= x < n ==> (#[trigger] from_b@[x] <==> is_ancestor(g, b as int, x)),
                    from_a@.len() == n,
                    from_b@.len() == n,
                    best ==> forall|e: int| 0 <= e < d && e != c && #[trigger] is_common_ancestor(g, a as int, b as int, e)
                        ==> !is_ancestor(g, e, c as int),
                    !best ==> !is_best_common(g, a as int, b as int, c as int),
                decreases n - d,
            {
                if d != c && from_a[d] && from_b[d] {
                    let (anc_d, _) = ancestors(parents, d);
                    if anc_d[c] {
                        proof {
                            assert(is_common_ancestor(g, a as int, b as int, d as int));
                        }
                        best = false;
                    }
                }
                d = d + 1;
            }
            if best {
                proof {
                    assert forall|e: int| e != c && #[trigger] is_common_ancestor(g, a as int, b as int, e)
                        implies !is_ancestor(g, e, c as int) by {}
                }
                return c;
            }
        }
        k = k + 1;
    }
    proof {
        assert forall|c: int| !is_best_common(g, a as int, b as int, c) by {
            if is_best_common(g, a as int, b as int, c) {
                assert(from_a@[c]);
                let w = choose|w: int| 0 <= w < order@.len() && order@[w] == c as usize;
                assert(!is_best_common(g, a as int, b as int, order@[w] as int));
            }
        }
    }
    match first {
        Some(f) => f,
        None => {
            proof {
                assert forall|c: int| !is_common_ancestor(g, a as int, b as int, c) by {
                    if is_common_ancestor(g, a as int, b as int, c) {
                        assert(from_a@[c]);
                        let w = choose|w: int| 0 <= w < order@.len() && order@[w] == c as usize;
                        assert(!from_b@[order@[w] as int]);
                    }
                }
            }
            a
        },
    }
}

/// When `b` is an ancestor of `a` in a commit graph, `b` is their one best
/// common ancestor, so the merge base is `b` itself and the diff from it to
/// `b` is empty.
pub proof fn lemma_ancestor_is_merge_base(g: Seq<Seq<usize>>, a: int, b: int)
    requires
        acyclic(g),
        0 <= a < g.len(),
        0 <= b < g.len(),
        is_ancestor(g, a, b),
    ensures
        is_best_common(g, a, b, b),
        forall|c: int| #[trigger] is_best_common(g, a, b, c) ==> c == b,
{
    assert(is_path(g, seq![b]));
    assert(is_ancestor(g, b, b));
    assert forall|d: int| d != b && #[trigger] is_common_ancestor(g, a, b, d) implies !is_ancestor(g, d, b) by {
        assert(is_ancestor(g, b, d));
    }
    assert forall|c: int| #[trigger] is_best_common(g, a, b, c) implies c == b by {
        if c != b {
            assert(is_common_ancestor(g, a, b, b));
            assert(is_ancestor(g, b, c));
            assert(!is_ancestor(g, b, c));
        }
    }
}

} // verus!
