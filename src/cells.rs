//! Row-major numbering of the cells of an `n`-wide grid, and the order of
//! cells by growing square layers.
use vstd::prelude::*;

verus! {

/// A move between neighbouring cells, or none.
#[derive(Clone, Copy, Debug, PartialEq, Eq, Structural)]
pub enum Dir {
    Up,
    Down,
    Left,
    Right,
    Stay,
}

/// The index of cell `xy` on an `n`-wide grid.
pub fn twod_to_oned(xy: (usize, usize), n: usize) -> (r: usize)
    requires
        xy.0 * n + xy.1 <= usize::MAX,
    ensures
        r == xy.0 * n + xy.1,
{
    xy.0 * n + xy.1
}

/// The cell of index `xy` on an `n`-wide grid.
pub fn oned_to_twod(xy: usize, n: usize) -> (r: (usize, usize))
    requires
        n > 0,
    ensures
        r.0 == xy / n,
        r.1 == xy % n,
{
    (xy / n, xy % n)
}

/// The direction from cell `a` to its neighbour `b`; `Stay` when they are
/// not neighbours.
pub open spec fn dir_between(a: (int, int), b: (int, int)) -> Dir {
    if b.0 == a.0 - 1 && b.1 == a.1 {
        Dir::Up
    } else if b.0 == a.0 + 1 && b.1 == a.1 {
        Dir::Down
    } else if b.0 == a.0 && b.1 == a.1 - 1 {
        Dir::Left
    } else if b.0 == a.0 && b.1 == a.1 + 1 {
        Dir::Right
    } else {
        Dir::Stay
    }
}

/// The direction of the move from cell index `pfrom` to cell index `pto`.
pub fn move_dir_from_1d(pfrom: usize, pto: usize, n: usize) -> (r: Dir)
    requires
        n > 0,
    ensures
        r == dir_between(
            ((pfrom / n) as int, (pfrom % n) as int),
            ((pto / n) as int, (pto % n) as int),
        ),
{
    let a = oned_to_twod(pfrom, n);
    let b = oned_to_twod(pto, n);
    if a.0 > 0 && b.0 == a.0 - 1 && b.1 == a.1 {
        Dir::Up
    } else if a.0 < usize::MAX && b.0 == a.0 + 1 && b.1 == a.1 {
        Dir::Down
    } else if b.0 == a.0 && a.1 > 0 && b.1 == a.1 - 1 {
        Dir::Left
    } else if b.0 == a.0 && a.1 < usize::MAX && b.1 == a.1 + 1 {
        Dir::Right
    } else {
        Dir::Stay
    }
}

/// The `i`-th cell when cells are ordered by the layer `max(x, y)` and,
/// within layer `m`, first `(0, m) ..= (m, m)`, then `(m, 0) .. (m, m - 1)`.
pub open spec fn square_coord(i: int, m: int) -> (int, int) {
    let t = i - m * m;
    if m == 0 {
        (0, 0)
    } else if t <= m {
        (t, m)
    } else {
        (m, t - (m + 1))
    }
}

pub fn ith_square_coord(i: usize) -> (r: (usize, usize))
    ensures
        exists|m: int|
            0 <= m && m * m <= i < (m + 1) * (m + 1) && (r.0 as int, r.1 as int) == square_coord(i as int, m),
{
    let mut m: usize = 0;
    while m + 1 <= i / (m + 1)
        invariant
            m * m <= i,
            m < usize::MAX,
        decreases i - m,
    {
        proof {
            let mi = m as int + 1;
            let ii = i as int;
            assert(mi * mi <= ii) by (nonlinear_arith)
                requires mi <= ii / mi, mi > 0;
            assert(mi <= ii) by (nonlinear_arith)
                requires mi * mi <= ii, mi > 0;
            assert(mi < usize::MAX) by (nonlinear_arith)
                requires mi * mi <= ii, ii <= usize::MAX, mi > 0;
        }
        m += 1;
    }
    proof {
        let mi = m as int + 1;
        let ii = i as int;
        assert(ii < mi * mi) by (nonlinear_arith)
            requires mi > ii / mi, mi > 0;
    }
    let start = m * m;
    let t = i - start;
    let ghost mm = m as int;
    assert(0 <= mm && mm * mm <= i < (mm + 1) * (mm + 1));
    if m == 0 {
        assert((0int, 0int) == square_coord(i as int, mm));
        return (0, 0);
    }
    proof {
        assert(t <= 2 * m) by (nonlinear_arith)
            requires i < (m + 1) * (m + 1), t == i - m * m;
    }
    if t <= m {
        assert((t as int, m as int) == square_coord(i as int, mm));
        (t, m)
    } else {
        assert((m as int, (t - (m + 1)) as int) == square_coord(i as int, mm));
        (m, t - (m + 1))
    }
}

/// `p` follows edges of `edges` from its first vertex to its last.
pub open spec fn is_edge_path(edges: Seq<Vec<usize>>, p: Seq<usize>) -> bool {
    forall|k: int| 0 <= k < p.len() - 1 ==> edges[p[k] as int]@.contains(#[trigger] p[k + 1])
}

pub open spec fn graph_ok(edges: Seq<Vec<usize>>) -> bool {
    forall|v: int, k: int| 0 <= v < edges.len() && 0 <= k < edges[v]@.len() ==> #[trigger] edges[v]@[k] < edges.len()
}

/// `p` is a path along edges that starts at `ps`.
pub open spec fn path_from(edges: Seq<Vec<usize>>, ps: usize, p: Seq<usize>) -> bool {
    p.len() >= 1 && p[0] == ps && is_edge_path(edges, p)
}

/// `v` can be reached from `ps` along at most `d` edges.
pub open spec fn g_reach(edges: Seq<Vec<usize>>, ps: usize, v: usize, d: int) -> bool {
    exists|p: Seq<usize>| #[trigger] path_from(edges, ps, p) && p.len() <= d + 1 && p.last() == v
}

proof fn lemma_g_reach_grows(edges: Seq<Vec<usize>>, ps: usize, v: usize, a: int, b: int)
    requires
        a <= b,
        g_reach(edges, ps, v, a),
    ensures
        g_reach(edges, ps, v, b),
{
    let p = choose|p: Seq<usize>| #[trigger] path_from(edges, ps, p) && p.len() <= a + 1 && p.last() == v;
    assert(path_from(edges, ps, p) && p.len() <= b + 1 && p.last() == v);
}

proof fn lemma_path_in_range(edges: Seq<Vec<usize>>, ps: usize, p: Seq<usize>)
    requires
        path_from(edges, ps, p),
        ps < edges.len(),
        graph_ok(edges),
    ensures
        forall|k: int| 0 <= k < p.len() ==> #[trigger] p[k] < edges.len(),
    decreases p.len(),
{
    if p.len() > 1 {
        let q = p.drop_last();
        assert forall|k: int| 0 <= k < q.len() - 1 implies edges[q[k] as int]@.contains(#[trigger] q[k + 1]) by {
            assert(q[k] == p[k] && q[k + 1] == p[k + 1]);
        }
        lemma_path_in_range(edges, ps, q);
        assert forall|k: int| 0 <= k < p.len() implies #[trigger] p[k] < edges.len() by {
            if k < q.len() {
                assert(p[k] == q[k]);
            } else {
                assert(edges[p[k - 1] as int]@.contains(p[k - 1 + 1]));
                let row = edges[p[k - 1] as int]@;
                let j = choose|j: int| 0 <= j < row.len() && #[trigger] row[j] == p[k];
                assert(q[k - 1] < edges.len());
            }
        }
    }
}

/// The last edge of a shortest path: a vertex reached along `d + 1` edges
/// but not along `d` has a neighbour-predecessor reached along `d`.
proof fn lemma_g_reach_split(edges: Seq<Vec<usize>>, ps: usize, v: usize, d: int) -> (u: usize)
    requires
        d >= 0,
        g_reach(edges, ps, v, d + 1),
        !g_reach(edges, ps, v, d),
    ensures
        g_reach(edges, ps, u, d),
        edges[u as int]@.contains(v),
{
    let p = choose|p: Seq<usize>| #[trigger] path_from(edges, ps, p) && p.len() <= d + 2 && p.last() == v;
    if p.len() <= d + 1 {
        assert(path_from(edges, ps, p) && p.len() <= d + 1 && p.last() == v);
    }
    let q = p.drop_last();
    assert forall|k: int| 0 <= k < q.len() - 1 implies edges[q[k] as int]@.contains(#[trigger] q[k + 1]) by {
        assert(q[k] == p[k] && q[k + 1] == p[k + 1]);
    }
    assert(path_from(edges, ps, q) && q.len() <= d + 1 && q.last() == q.last());
    assert(edges[p[p.len() - 2] as int]@.contains(p[p.len() - 2 + 1]));
    q.last()
}

/// A shortest path by breadth-first search from `ps` to `gs`, both ends
/// included, neighbours taken in the order `edges` lists them. When `gs`
/// cannot be reached along at most `edges.len()` edges (a shortest path
/// never needs more) the result is just `[gs]`; when `ps == gs` it is
/// `[ps, ps]`.
pub fn shortest_path(ps: usize, gs: usize, edges: &Vec<Vec<usize>>) -> (r: Vec<usize>)
    requires
        ps < edges@.len(),
        gs < edges@.len(),
        graph_ok(edges@),
    ensures
        ps == gs ==> r@ == seq![ps, ps],
        ps != gs ==> (r@ == seq![gs] <==> !g_reach(edges@, ps, gs, edges@.len() as int)),
        ps != gs && r@ != seq![gs] ==> path_from(edges@, ps, r@) && r@.last() == gs
            && !g_reach(edges@, ps, gs, r@.len() - 2),
{
    let n = edges.len();
    let ghost e = edges@;
    if ps == gs {
        return vec![ps, ps];
    }
    let mut paths: Vec<Vec<usize>> = Vec::new();
    let mut reached: Vec<bool> = Vec::new();
    let mut k: usize = 0;
    while k < n
        invariant
            k <= n,
            n == edges@.len(),
            paths@.len() == k,
            reached@.len() == k,
            forall|m: int| 0 <= m < k ==> !reached@[m],
        decreases n - k,
    {
        paths.push(Vec::new());
        reached.push(false);
        k += 1;
    }
    paths.set(ps, vec![ps]);
    reached.set(ps, true);
    let mut frontier: Vec<usize> = vec![ps];
    proof {
        assert(paths@[ps as int]@ =~= seq![ps]);
        assert(path_from(e, ps, seq![ps]));
        assert forall|v: usize| v < n && #[trigger] g_reach(e, ps, v, 0) implies reached@[v as int] by {
            let p = choose|p: Seq<usize>| #[trigger] path_from(e, ps, p) && p.len() <= 1 && p.last() == v;
        }
        assert(g_reach(e, ps, ps, 0)) by {
            assert(path_from(e, ps, seq![ps]) && seq![ps].len() <= 1 && seq![ps].last() == ps);
        }
    }
    let mut round: usize = 0;
    while round < n && !reached[gs]
        invariant
            round <= n,
            n == edges@.len(),
            e == edges@,
            ps < n,
            gs < n,
            ps != gs,
            graph_ok(edges@),
            paths@.len() == n,
            reached@.len() == n,
            forall|m: int| 0 <= m < frontier@.len() ==> #[trigger] frontier@[m] < n && reached@[frontier@[m] as int]
                && paths@[frontier@[m] as int]@.len() == round + 1,
            forall|v: int| 0 <= v < n && #[trigger] reached@[v] && paths@[v]@.len() == round + 1 ==> frontier@.contains(v as usize),
            forall|v: int| 0 <= v < n && #[trigger] reached@[v] ==> path_from(e, ps, paths@[v]@)
                && paths@[v]@.last() == v && paths@[v]@.len() <= round + 1
                && !g_reach(e, ps, v as usize, paths@[v]@.len() - 2),
            forall|v: usize| v < n && #[trigger] g_reach(e, ps, v, round as int) ==> reached@[v as int],
            forall|v: int| 0 <= v < n && #[trigger] reached@[v] && paths@[v]@.len() < round + 1
                ==> forall|j: int| 0 <= j < edges@[v]@.len() ==> reached@[#[trigger] edges@[v]@[j] as int],
        decreases n - round,
    {
        let mut next: Vec<usize> = Vec::new();
        let mut f: usize = 0;
        while f < frontier.len()
            invariant
                round < n,
                n == edges@.len(),
                e == edges@,
                ps < n,
                gs < n,
                graph_ok(edges@),
                paths@.len() == n,
                reached@.len() == n,
                f <= frontier@.len(),
                forall|m: int| 0 <= m < frontier@.len() ==> #[trigger] frontier@[m] < n && reached@[frontier@[m] as int]
                    && paths@[frontier@[m] as int]@.len() == round + 1,
                forall|v: int| 0 <= v < n && #[trigger] reached@[v] && paths@[v]@.len() == round + 1 ==> frontier@.contains(v as usize),
                forall|m: int| 0 <= m < next@.len() ==> #[trigger] next@[m] < n && reached@[next@[m] as int]
                    && paths@[next@[m] as int]@.len() == round + 2,
                forall|v: int| 0 <= v < n && #[trigger] reached@[v] && paths@[v]@.len() == round + 2 ==> next@.contains(v as usize),
                forall|v: int| 0 <= v < n && #[trigger] reached@[v] ==> path_from(e, ps, paths@[v]@)
                    && paths@[v]@.last() == v && paths@[v]@.len() <= round + 2
                    && !g_reach(e, ps, v as usize, paths@[v]@.len() - 2),
                forall|v: usize| v < n && #[trigger] g_reach(e, ps, v, round as int) ==> reached@[v as int],
                forall|v: int| 0 <= v < n && #[trigger] reached@[v] && (paths@[v]@.len() < round + 1 || (paths@[v]@.len() == round + 1
                    && frontier@.subrange(0, f as int).contains(v as usize)))
                    ==> forall|j: int| 0 <= j < edges@[v]@.len() ==> reached@[#[trigger] edges@[v]@[j] as int],
            decreases frontier@.len() - f,
        {
            let v = frontier[f];
            let mut t: usize = 0;
            while t < edges[v].len()
                invariant
                    round < n,
                    n == edges@.len(),
                    e == edges@,
                    ps < n,
                    gs < n,
                    graph_ok(edges@),
                    paths@.len() == n,
                    reached@.len() == n,
                    f < frontier@.len(),
                    v == frontier@[f as int],
                    v < n,
                    reached@[v as int],
                    paths@[v as int]@.len() == round + 1,
                    forall|m: int| 0 <= m < frontier@.len() ==> #[trigger] frontier@[m] < n && reached@[frontier@[m] as int]
                        && paths@[frontier@[m] as int]@.len() == round + 1,
                    forall|w: int| 0 <= w < n && #[trigger] reached@[w] && paths@[w]@.len() == round + 1 ==> frontier@.contains(w as usize),
                    forall|m: int| 0 <= m < next@.len() ==> #[trigger] next@[m] < n && reached@[next@[m] as int]
                        && paths@[next@[m] as int]@.len() == round + 2,
                    forall|w: int| 0 <= w < n && #[trigger] reached@[w] && paths@[w]@.len() == round + 2 ==> next@.contains(w as usize),
                    forall|w: int| 0 <= w < n && #[trigger] reached@[w] ==> path_from(e, ps, paths@[w]@)
                        && paths@[w]@.last() == w && paths@[w]@.len() <= round + 2
                        && !g_reach(e, ps, w as usize, paths@[w]@.len() - 2),
                    forall|w: usize| w < n && #[trigger] g_reach(e, ps, w, round as int) ==> reached@[w as int],
                    forall|w: int| 0 <= w < n && #[trigger] reached@[w] && (paths@[w]@.len() < round + 1 || (paths@[w]@.len() == round + 1
                        && frontier@.subrange(0, f as int).contains(w as usize)))
                        ==> forall|j: int| 0 <= j < edges@[w]@.len() ==> reached@[#[trigger] edges@[w]@[j] as int],
                    forall|j: int| 0 <= j < t ==> reached@[#[trigger] edges@[v as int]@[j] as int],
                decreases edges@[v as int]@.len() - t,
            {
                let w = edges[v][t];
                if !reached[w] {
                    let mut p: Vec<usize> = Vec::new();
                    let mut q: usize = 0;
                    while q < paths[v].len()
                        invariant
                            v < n,
                            paths@.len() == n,
                            q <= paths@[v as int]@.len(),
                            p@ == paths@[v as int]@.take(q as int),
                        decreases paths@[v as int]@.len() - q,
                    {
                        p.push(paths[v][q]);
                        q += 1;
                        assert(p@ =~= paths@[v as int]@.take(q as int));
                    }
                    let ghost pv = paths@[v as int]@;
                    assert(pv.take(pv.len() as int) =~= pv);
                    assert(edges@[v as int]@.contains(w)) by {
                        assert(edges@[v as int]@[t as int] == w);
                    }
                    p.push(w);
                    let ghost pw = p@;
                    proof {
                        assert forall|m: int| 0 <= m < pw.len() - 1 implies edges@[pw[m] as int]@.contains(#[trigger] pw[m + 1]) by {
                            if m < pv.len() - 1 {
                                assert(pw[m] == pv[m] && pw[m + 1] == pv[m + 1]);
                            } else {
                                assert(pw[m] == v);
                            }
                        }
                        assert(!g_reach(e, ps, w, round as int));
                    }
                    let ghost before = reached@;
                    let ghost next_before = next@;
                    paths.set(w, p);
                    reached.set(w, true);
                    next.push(w);
                    proof {
                        assert(paths@[w as int]@ == pw);
                        assert(next@[next@.len() - 1] == w);
                        assert forall|x: int| 0 <= x < n && #[trigger] reached@[x] && paths@[x]@.len() == round + 2 implies next@.contains(x as usize) by {
                            if x != w as int {
                                assert(next_before.contains(x as usize));
                                let y = choose|y: int| 0 <= y < next_before.len() && next_before[y] == x as usize;
                                assert(next@[y] == x as usize);
                            }
                        }
                        assert forall|x: int| 0 <= x < n && #[trigger] reached@[x] && paths@[x]@.len() == round + 1 implies frontier@.contains(x as usize) by {
                            assert(x != w as int);
                        }
                        assert forall|x: int| 0 <= x < n && #[trigger] reached@[x] && (paths@[x]@.len() < round + 1 || (paths@[x]@.len() == round + 1
                            && frontier@.subrange(0, f as int).contains(x as usize)))
                            implies forall|j: int| 0 <= j < edges@[x]@.len() ==> reached@[#[trigger] edges@[x]@[j] as int] by {
                            assert(x != w as int);
                            assert forall|j: int| 0 <= j < edges@[x]@.len() implies reached@[#[trigger] edges@[x]@[j] as int] by {
                                assert(before[edges@[x]@[j] as int]);
                            }
                        }
                    }
                }
                t += 1;
            }
            proof {
                assert(frontier@.subrange(0, f as int + 1) =~= frontier@.subrange(0, f as int).push(v));
                assert forall|x: int| 0 <= x < n && #[trigger] reached@[x] && (paths@[x]@.len() < round + 1 || (paths@[x]@.len() == round + 1
                    && frontier@.subrange(0, f as int + 1).contains(x as usize)))
                    implies forall|j: int| 0 <= j < edges@[x]@.len() ==> reached@[#[trigger] edges@[x]@[j] as int] by {
                    if x != v as int && paths@[x]@.len() == round + 1 {
                        let sub = frontier@.subrange(0, f as int + 1);
                        let y = choose|y: int| 0 <= y < sub.len() && #[trigger] sub[y] == x as usize;
                        if y == f as int {
                            assert(x == v as int);
                        }
                        assert(frontier@.subrange(0, f as int)[y] == x as usize);
                    }
                }
            }
            f += 1;
        }
        proof {
            assert(frontier@.subrange(0, frontier@.len() as int) =~= frontier@);
            assert forall|x: usize| x < n && #[trigger] g_reach(e, ps, x, round as int + 1) implies reached@[x as int] by {
                if !g_reach(e, ps, x, round as int) {
                    let u = lemma_g_reach_split(e, ps, x, round as int);
                    let pu = choose|p: Seq<usize>| #[trigger] path_from(e, ps, p) && p.len() <= round + 1 && p.last() == u;
                    assert(u < n) by {
                        lemma_path_in_range(e, ps, pu);
                    }
                    assert(reached@[u as int]);
                    let lu = paths@[u as int]@.len();
                    if lu > round + 1 {
                        lemma_g_reach_grows(e, ps, u, round as int, lu - 2);
                    }
                    let j = choose|j: int| 0 <= j < e[u as int]@.len() && e[u as int]@[j] == x;
                    assert(reached@[e[u as int]@[j] as int]);
                }
            }
        }
        frontier = next;
        round += 1;
    }
    if reached[gs] {
        let mut r: Vec<usize> = Vec::new();
        let mut q: usize = 0;
        while q < paths[gs].len()
            invariant
                gs < n,
                paths@.len() == n,
                q <= paths@[gs as int]@.len(),
                r@ == paths@[gs as int]@.take(q as int),
            decreases paths@[gs as int]@.len() - q,
        {
            r.push(paths[gs][q]);
            q += 1;
            assert(r@ =~= paths@[gs as int]@.take(q as int));
        }
        assert(paths@[gs as int]@.take(paths@[gs as int]@.len() as int) =~= paths@[gs as int]@);
        proof {
            assert(r@.len() >= 2) by {
                assert(r@[0] == ps && r@.last() == gs);
            }
            assert(r@ != seq![gs]) by {
                assert(r@.len() != 1);
            }
            let pr = r@;
            assert(path_from(e, ps, pr) && pr.len() <= n + 1 && pr.last() == gs);
        }
        r
    } else {
        proof {
            assert(!g_reach(e, ps, gs, n as int));
        }
        let r = vec![gs];
        assert(r@ =~= seq![gs]);
        r
    }
}

} // verus!
