//! Linking servers of the same kind on a grid with straight cables.
use vstd::prelude::*;

verus! {

/// A cable from cell (`0`, `1`) to cell (`2`, `3`).
#[derive(Clone, Copy, Debug, PartialEq, Eq, Structural)]
pub struct Connect(pub usize, pub usize, pub usize, pub usize);

/// `cnn` is an `n` by `n` grid, `n >= 1`; `'0'` marks an empty cell and any
/// other character a server of that kind.
pub open spec fn square_grid(cnn: Seq<Vec<char>>) -> bool {
    &&& cnn.len() >= 1
    &&& forall|i: int| 0 <= i < cnn.len() ==> (#[trigger] cnn[i])@.len() == cnn.len()
}

/// A straight cable to the right or downwards between two servers of one
/// kind, over empty cells only.
pub open spec fn links_same_kind(cnn: Seq<Vec<char>>, c: Connect) -> bool {
    &&& c.2 < cnn.len() && c.3 < cnn.len()
    &&& ((c.0 == c.2 && c.1 < c.3) || (c.1 == c.3 && c.0 < c.2))
    &&& cnn[c.0 as int]@[c.1 as int] != '0'
    &&& cnn[c.0 as int]@[c.1 as int] == cnn[c.2 as int]@[c.3 as int]
    &&& forall|j: int| c.1 < j < c.3 ==> #[trigger] cnn[c.0 as int]@[j] == '0'
    &&& forall|i: int| c.0 < i < c.2 ==> #[trigger] cnn[i]@[c.1 as int] == '0'
}

/// Every cell that horizontal cable `c` spans is marked in `cable`.
pub open spec fn marked(cable: Seq<Vec<char>>, c: Connect) -> bool {
    forall|jj: int| c.1 <= jj <= c.3 ==> #[trigger] cable[c.0 as int]@[jj] != '0'
}

/// Vertical cable `v` passes through a cell that horizontal cable `h` spans.
pub open spec fn crosses(h: Connect, v: Connect) -> bool {
    v.0 < h.0 < v.2 && h.1 <= v.1 <= h.3
}

/// Greedy cabling: along each row, link every server to the previous server
/// of the row when they are of one kind; then down each column likewise,
/// where a cable laid along a row breaks the run. Stops once `available_k`
/// cables are laid.
pub fn greedy_ans(available_k: usize, cnn: &Vec<Vec<char>>) -> (r: Vec<Connect>)
    requires
        square_grid(cnn@),
    ensures
        r@.len() <= available_k,
        forall|k: int| 0 <= k < r@.len() ==> links_same_kind(cnn@, #[trigger] r@[k]),
        forall|a: int, b: int|
            0 <= a < r@.len() && 0 <= b < r@.len() && (#[trigger] r@[a]).0 == r@[a].2 && (#[trigger] r@[b]).1 == r@[b].3
                && r@[b].0 < r@[b].2 ==> !crosses(r@[a], r@[b]),
{
    let n = cnn[0].len();
    let mut y_connect: Vec<Connect> = Vec::new();
    let mut cable: Vec<Vec<char>> = Vec::new();
    let mut q: usize = 0;
    while q < n
        invariant
            q <= n,
            n == cnn@.len(),
            cable@.len() == q,
            forall|a: int| 0 <= a < q ==> (#[trigger] cable@[a])@.len() == n,
        decreases n - q,
    {
        cable.push(vec!['0'; n]);
        q += 1;
    }
    let mut cur_k: usize = 0;
    let mut stop = false;
    let mut i: usize = 0;
    while i < n && !stop
        invariant
            square_grid(cnn@),
            n == cnn@.len(),
            i <= n,
            cable@.len() == n,
            forall|a: int| 0 <= a < n ==> (#[trigger] cable@[a])@.len() == n,
            cur_k == y_connect@.len(),
            cur_k <= available_k,
            forall|k: int| 0 <= k < y_connect@.len() ==> links_same_kind(cnn@, #[trigger] y_connect@[k]),
            forall|k: int| 0 <= k < y_connect@.len() ==> (#[trigger] y_connect@[k]).0 == y_connect@[k].2 && marked(cable@, y_connect@[k]),
        decreases n - i,
    {
        let mut prev_c = cnn[i][0];
        let mut prev_j: usize = 0;
        let mut j: usize = 1;
        while j < n && !stop
            invariant
                square_grid(cnn@),
                n == cnn@.len(),
                i < n,
                1 <= j <= n,
                prev_j < j,
                prev_c == cnn@[i as int]@[prev_j as int],
                !stop ==> forall|q: int| prev_j < q < j ==> #[trigger] cnn@[i as int]@[q] == '0',
                cable@.len() == n,
                forall|a: int| 0 <= a < n ==> (#[trigger] cable@[a])@.len() == n,
                cur_k == y_connect@.len(),
                cur_k <= available_k,
                forall|k: int| 0 <= k < y_connect@.len() ==> links_same_kind(cnn@, #[trigger] y_connect@[k]),
                forall|k: int| 0 <= k < y_connect@.len() ==> (#[trigger] y_connect@[k]).0 == y_connect@[k].2 && marked(cable@, y_connect@[k]),
            decreases n - j,
        {
            if cnn[i][j] == '0' {
            } else if cnn[i][j] == prev_c {
                if cur_k >= available_k {
                    stop = true;
                } else {
                    y_connect.push(Connect(i, prev_j, i, j));
                    let ghost cable0 = cable@;
                    let mut jj: usize = prev_j;
                    while jj < j + 1
                        invariant
                            prev_j <= jj <= j + 1,
                            square_grid(cnn@),
                            n == cnn@.len(),
                            j < n,
                            i < n,
                            cnn@[i as int]@[j as int] != '0',
                            cable@.len() == n,
                            forall|a: int| 0 <= a < n ==> (#[trigger] cable@[a])@.len() == n,
                            forall|a: int, b: int| 0 <= a < n && 0 <= b < n && #[trigger] cable0[a]@[b] != '0' ==> cable@[a]@[b] != '0',
                            forall|b: int| prev_j <= b < jj ==> #[trigger] cable@[i as int]@[b] != '0',
                        decreases j + 1 - jj,
                    {
                        cable[i].set(jj, cnn[i][j]);
                        jj += 1;
                    }
                    proof {
                        assert forall|k: int| 0 <= k < y_connect@.len() implies (#[trigger] y_connect@[k]).0 == y_connect@[k].2
                            && marked(cable@, y_connect@[k]) by {
                            if k < y_connect@.len() - 1 {
                                let c = y_connect@[k];
                                assert forall|b: int| c.1 <= b <= c.3 implies #[trigger] cable@[c.0 as int]@[b] != '0' by {
                                    assert(cable0[c.0 as int]@[b] != '0');
                                }
                            }
                        }
                    }
                    cur_k += 1;
                    prev_j = j;
                }
            } else {
                prev_c = cnn[i][j];
                prev_j = j;
            }
            j += 1;
        }
        i += 1;
    }
    stop = false;
    let ghost h = y_connect@.len();
    let ghost horiz = y_connect@;
    let ghost cable1 = cable@;
    let mut j: usize = 0;
    while j < n && !stop
        invariant
            square_grid(cnn@),
            n == cnn@.len(),
            j <= n,
            cable@.len() == n,
            forall|a: int| 0 <= a < n ==> (#[trigger] cable@[a])@.len() == n,
            cur_k == y_connect@.len(),
            cur_k <= available_k,
            forall|k: int| 0 <= k < y_connect@.len() ==> links_same_kind(cnn@, #[trigger] y_connect@[k]),
            cable@ == cable1,
            h <= y_connect@.len(),
            forall|k: int| 0 <= k < h ==> #[trigger] y_connect@[k] == horiz[k],
            forall|k: int| 0 <= k < h ==> (#[trigger] horiz[k]).0 == horiz[k].2 && marked(cable1, horiz[k]),
            forall|k: int| h <= k < y_connect@.len() ==> (#[trigger] y_connect@[k]).0 != y_connect@[k].2
                && forall|a: int| 0 <= a < h ==> !crosses(#[trigger] horiz[a], y_connect@[k]),
        decreases n - j,
    {
        let mut prev_c = cnn[0][j];
        let mut prev_i: usize = 0;
        let mut i: usize = 1;
        while i < n && !stop
            invariant
                square_grid(cnn@),
                n == cnn@.len(),
                j < n,
                1 <= i <= n,
                prev_i < i,
                prev_c == '0' || prev_c == cnn@[prev_i as int]@[j as int],
                !stop ==> forall|q: int| prev_i < q < i ==> #[trigger] cnn@[q]@[j as int] == '0',
                cable@.len() == n,
                forall|a: int| 0 <= a < n ==> (#[trigger] cable@[a])@.len() == n,
                cur_k == y_connect@.len(),
                cur_k <= available_k,
                forall|k: int| 0 <= k < y_connect@.len() ==> links_same_kind(cnn@, #[trigger] y_connect@[k]),
                cable@ == cable1,
                h <= y_connect@.len(),
                forall|k: int| 0 <= k < h ==> #[trigger] y_connect@[k] == horiz[k],
                forall|k: int| 0 <= k < h ==> (#[trigger] horiz[k]).0 == horiz[k].2 && marked(cable1, horiz[k]),
                forall|k: int| h <= k < y_connect@.len() ==> (#[trigger] y_connect@[k]).0 != y_connect@[k].2
                    && forall|a: int| 0 <= a < h ==> !crosses(#[trigger] horiz[a], y_connect@[k]),
                !stop ==> forall|q: int| prev_i < q < i ==> #[trigger] cable1[q]@[j as int] == '0',
            decreases n - i,
        {
            if cnn[i][j] == '0' {
                if cable[i][j] != '0' {
                    prev_c = '0';
                    prev_i = i;
                }
            } else if cnn[i][j] == prev_c {
                if cur_k >= available_k {
                    stop = true;
                } else {
                    let ghost y0 = y_connect@;
                    y_connect.push(Connect(prev_i, j, i, j));
                    proof {
                        let v = Connect(prev_i, j, i, j);
                        assert forall|a: int| 0 <= a < h implies !crosses(#[trigger] horiz[a], v) by {
                            let hz = horiz[a];
                            if crosses(hz, v) {
                                assert(cable1[hz.0 as int]@[j as int] != '0');
                            }
                        }
                        assert forall|k: int| h <= k < y_connect@.len() implies (#[trigger] y_connect@[k]).0 != y_connect@[k].2
                            && forall|a: int| 0 <= a < h ==> !crosses(#[trigger] horiz[a], y_connect@[k]) by {
                            if k < y0.len() {
                                assert(y_connect@[k] == y0[k]);
                            }
                        }
                    }
                    cur_k += 1;
                    prev_i = i;
                }
            } else {
                prev_c = cnn[i][j];
                prev_i = i;
            }
            i += 1;
        }
        j += 1;
    }
    proof {
        assert forall|a: int, b: int|
            0 <= a < y_connect@.len() && 0 <= b < y_connect@.len() && (#[trigger] y_connect@[a]).0 == y_connect@[a].2
                && (#[trigger] y_connect@[b]).1 == y_connect@[b].3 && y_connect@[b].0 < y_connect@[b].2 implies !crosses(
            y_connect@[a],
            y_connect@[b],
        ) by {
            if a >= h {
                assert(y_connect@[a].0 != y_connect@[a].2);
            }
            if b < h {
                assert(horiz[b].0 == horiz[b].2);
            }
            assert(y_connect@[a] == horiz[a]);
        }
    }
    y_connect
}

} // verus!
