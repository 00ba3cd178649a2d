//! Counting the steps of a tour over shops and trees, where a tree may be
//! painted once.
use vstd::prelude::*;

verus! {

/// Steps of the prefix `ans[..j]`, and which trees it has painted: a move is
/// one step, and so is the first painting of a tree (a vertex `>= k`).
pub open spec fn steps_and_painted(ans: Seq<(isize, bool)>, k: int, j: int) -> (int, Set<int>)
    decreases j,
{
    if j <= 0 {
        (0, Set::empty())
    } else {
        let (s, painted) = steps_and_painted(ans, k, j - 1);
        let (a, do_paint) = ans[j - 1];
        let v = a as int;
        if v >= k && do_paint && !painted.contains(v) {
            (s + 2, painted.insert(v))
        } else {
            (s + 1, painted)
        }
    }
}

/// Total steps of a tour: one per move, plus one for the first painting of
/// each tree.
pub fn calc_steps(ans: &Vec<(isize, bool)>, n: usize, k: usize) -> (r: usize)
    requires
        forall|j: int| 0 <= j < ans@.len() ==> 0 <= (#[trigger] ans@[j]).0 < n,
        ans@.len() < usize::MAX / 2,
    ensures
        r == steps_and_painted(ans@, k as int, ans@.len() as int).0,
{
    let mut painted: Vec<bool> = vec![false; n];
    let mut steps: usize = 0;
    let mut j: usize = 0;
    while j < ans.len()
        invariant
            j <= ans@.len(),
            painted@.len() == n,
            ans@.len() < usize::MAX / 2,
            forall|q: int| 0 <= q < ans@.len() ==> 0 <= (#[trigger] ans@[q]).0 < n,
            steps == steps_and_painted(ans@, k as int, j as int).0,
            steps <= 2 * j,
            forall|v: int| 0 <= v < n ==> (#[trigger] painted@[v] <==> steps_and_painted(ans@, k as int, j as int).1.contains(v)),
            forall|v: int| steps_and_painted(ans@, k as int, j as int).1.contains(v) ==> 0 <= v < n,
        decreases ans@.len() - j,
    {
        let (a, do_paint) = ans[j];
        let v = a as usize;
        steps += 1;
        if v >= k && do_paint && !painted[v] {
            steps += 1;
            painted.set(v, true);
        }
        j += 1;
    }
    steps
}

/// The colours (white or not) of the trees along `path`, in order.
pub fn calc_icecream(path: &Vec<usize>, is_white: &Vec<bool>) -> (r: Vec<bool>)
    requires
        forall|j: int| 0 <= j < path@.len() ==> (#[trigger] path@[j]) < is_white@.len(),
    ensures
        r@ == path@.map_values(|p: usize| is_white@[p as int]),
{
    let mut ret: Vec<bool> = Vec::new();
    let mut j: usize = 0;
    while j < path.len()
        invariant
            j <= path@.len(),
            forall|q: int| 0 <= q < path@.len() ==> (#[trigger] path@[q]) < is_white@.len(),
            ret@ == path@.take(j as int).map_values(|p: usize| is_white@[p as int]),
        decreases path@.len() - j,
    {
        ret.push(is_white[path[j]]);
        j += 1;
        assert(ret@ =~= path@.take(j as int).map_values(|p: usize| is_white@[p as int]));
    }
    assert(path@.take(path@.len() as int) =~= path@);
    ret
}

/// One leg of a tour: from a shop, through trees, to a shop, painting at
/// most one tree on the way.
pub struct Segment {
    pub from_shop: usize,
    pub to_shop: usize,
    /// The trees passed, in order; shops are not listed.
    pub path: Vec<usize>,
    /// The position in `path` of the tree painted on this leg, if any.
    pub paint_at: Option<usize>,
}

/// A tour as a sequence of legs.
pub struct Solution {
    pub segments: Vec<Segment>,
}

/// The last vertex before leg `s` reaches its shop.
pub open spec fn last_before_shop(s: Segment) -> usize {
    if s.path@.len() == 0 {
        s.from_shop
    } else {
        s.path@.last()
    }
}

/// The first vertex after leg `s` leaves its shop.
pub open spec fn first_after_shop(s: Segment) -> usize {
    if s.path@.len() == 0 {
        s.to_shop
    } else {
        s.path@[0]
    }
}

/// Steps of the first `j` legs, and the trees they painted: one per tree
/// passed and per shop reached, plus one for the first painting of a tree.
pub open spec fn legs_steps(segs: Seq<Segment>, j: int) -> (int, Set<usize>)
    decreases j,
{
    if j <= 0 {
        (0, Set::empty())
    } else {
        let (s, painted) = legs_steps(segs, j - 1);
        let (t, p) = leg_steps(segs[j - 1], painted, segs[j - 1].path@.len() as int);
        (s + t + 1, p)
    }
}

/// Steps of the first `k` trees of leg `seg`, given the trees painted before.
pub open spec fn leg_steps(seg: Segment, painted: Set<usize>, k: int) -> (int, Set<usize>)
    decreases k,
{
    if k <= 0 {
        (0, painted)
    } else {
        let (s, p) = leg_steps(seg, painted, k - 1);
        let v = seg.path@[k - 1];
        if seg.paint_at == Some((k - 1) as usize) && !p.contains(v) {
            (s + 2, p.insert(v))
        } else {
            (s + 1, p)
        }
    }
}

proof fn lemma_leg_steps_grow(seg: Segment, painted: Set<usize>, a: int, b: int)
    requires
        0 <= a <= b,
    ensures
        leg_steps(seg, painted, a).0 <= leg_steps(seg, painted, b).0,
    decreases b - a,
{
    if a < b {
        lemma_leg_steps_grow(seg, painted, a, b - 1);
    }
}

proof fn lemma_legs_steps_grow(segs: Seq<Segment>, a: int, b: int)
    requires
        0 <= a <= b,
    ensures
        legs_steps(segs, a).0 <= legs_steps(segs, b).0,
    decreases b - a,
{
    if a < b {
        lemma_legs_steps_grow(segs, a, b - 1);
        let painted = legs_steps(segs, b - 1).1;
        lemma_leg_steps_grow(segs[b - 1], painted, 0, segs[b - 1].path@.len() as int);
    }
}

impl Solution {
    pub open spec fn connected(&self) -> bool {
        forall|i: int| 1 <= i < self.segments@.len() ==> (#[trigger] self.segments@[i]).from_shop
            == self.segments@[i - 1].to_shop
    }

    pub open spec fn no_immediate_return(&self) -> bool {
        forall|i: int| 1 <= i < self.segments@.len() ==> first_after_shop(#[trigger] self.segments@[i])
            != last_before_shop(self.segments@[i - 1])
    }

    /// Every leg starts at the shop where the previous one ended.
    pub fn is_connected(&self) -> (r: bool)
        ensures
            r == self.connected(),
    {
        let mut i: usize = 1;
        while i < self.segments.len()
            invariant
                1 <= i,
                forall|k: int| 1 <= k < i && k < self.segments@.len() ==> (#[trigger] self.segments@[k]).from_shop
                    == self.segments@[k - 1].to_shop,
            decreases self.segments@.len() - i,
        {
            if self.segments[i - 1].to_shop != self.segments[i].from_shop {
                return false;
            }
            i += 1;
        }
        true
    }

    /// No leg starts by going back to the vertex from which the previous leg
    /// entered the shop.
    pub fn check_no_immediate_return(&self, k: usize) -> (r: bool)
        ensures
            r == self.no_immediate_return(),
    {
        let mut i: usize = 1;
        while i < self.segments.len()
            invariant
                1 <= i,
                forall|q: int| 1 <= q < i && q < self.segments@.len() ==> first_after_shop(#[trigger] self.segments@[q])
                    != last_before_shop(self.segments@[q - 1]),
            decreases self.segments@.len() - i,
        {
            let prev_seg = &self.segments[i - 1];
            let cur_seg = &self.segments[i];
            let prev_last = if prev_seg.path.len() == 0 {
                prev_seg.from_shop
            } else {
                prev_seg.path[prev_seg.path.len() - 1]
            };
            let cur_first = if cur_seg.path.len() == 0 {
                cur_seg.to_shop
            } else {
                cur_seg.path[0]
            };
            if cur_first == prev_last {
                return false;
            }
            i += 1;
        }
        true
    }

    /// Total steps of the tour; see `legs_steps`.
    pub fn calc_steps(&self, n: usize) -> (r: usize)
        requires
            forall|i: int, j: int|
                0 <= i < self.segments@.len() && 0 <= j < self.segments@[i].path@.len() ==> #[trigger] self.segments@[i].path@[j] < n,
            legs_steps(self.segments@, self.segments@.len() as int).0 <= usize::MAX,
        ensures
            r == legs_steps(self.segments@, self.segments@.len() as int).0,
    {
        let mut painted: Vec<bool> = vec![false; n];
        let mut steps: usize = 0;
        let mut i: usize = 0;
        while i < self.segments.len()
            invariant
                i <= self.segments@.len(),
                painted@.len() == n,
                legs_steps(self.segments@, self.segments@.len() as int).0 <= usize::MAX,
                forall|a: int, b: int|
                    0 <= a < self.segments@.len() && 0 <= b < self.segments@[a].path@.len() ==> #[trigger] self.segments@[a].path@[b] < n,
                steps == legs_steps(self.segments@, i as int).0,
                forall|v: int| 0 <= v < n ==> (#[trigger] painted@[v] <==> legs_steps(self.segments@, i as int).1.contains(v as usize)),
            decreases self.segments@.len() - i,
        {
            let seg = &self.segments[i];
            let ghost before = legs_steps(self.segments@, i as int);
            proof {
                lemma_legs_steps_grow(self.segments@, i as int + 1, self.segments@.len() as int);
                lemma_leg_steps_grow(*seg, before.1, 0, seg.path@.len() as int);
            }
            let mut j: usize = 0;
            let mut leg: usize = 0;
            while j < seg.path.len()
                invariant
                    j <= seg.path@.len(),
                    painted@.len() == n,
                    steps + leg_steps(*seg, before.1, seg.path@.len() as int).0 + 1 <= usize::MAX,
                    steps == before.0,
                    forall|b: int| 0 <= b < seg.path@.len() ==> #[trigger] seg.path@[b] < n,
                    leg == leg_steps(*seg, before.1, j as int).0,
                    forall|v: int| 0 <= v < n ==> (#[trigger] painted@[v] <==> leg_steps(*seg, before.1, j as int).1.contains(v as usize)),
                decreases seg.path@.len() - j,
            {
                let v = seg.path[j];
                proof {
                    lemma_leg_steps_grow(*seg, before.1, j as int + 1, seg.path@.len() as int);
                }
                leg += 1;
                if seg.paint_at == Some(j) && !painted[v] {
                    leg += 1;
                    painted.set(v, true);
                }
                j += 1;
            }
            steps = steps + leg + 1;
            i += 1;
        }
        steps
    }

    /// Whether the tour starts at shop 0, is connected, never turns straight
    /// back at a shop, and takes at most `t` steps.
    pub fn is_valid(&self, t: usize, n: usize, k: usize) -> (r: bool)
        requires
            forall|i: int, j: int|
                0 <= i < self.segments@.len() && 0 <= j < self.segments@[i].path@.len() ==> #[trigger] self.segments@[i].path@[j] < n,
            legs_steps(self.segments@, self.segments@.len() as int).0 <= usize::MAX,
        ensures
            r == (self.segments@.len() == 0 || (self.segments@[0].from_shop == 0 && self.connected()
                && self.no_immediate_return() && legs_steps(self.segments@, self.segments@.len() as int).0 <= t)),
    {
        if self.segments.len() == 0 {
            return true;
        }
        if self.segments[0].from_shop != 0 {
            return false;
        }
        if !self.is_connected() {
            return false;
        }
        if !self.check_no_immediate_return(k) {
            return false;
        }
        if self.calc_steps(n) > t {
            return false;
        }
        true
    }
}

/// The visits of leg `s`: each tree with whether the leg paints there, then
/// the shop it reaches.
pub open spec fn leg_visits(s: Segment) -> Seq<(usize, bool)> {
    Seq::new(s.path@.len(), |q: int| (s.path@[q], s.paint_at == Some(q as usize))) + seq![(s.to_shop, false)]
}

/// The visits of the first `j` legs, in order.
pub open spec fn visits(segs: Seq<Segment>, j: int) -> Seq<(usize, bool)>
    decreases j,
{
    if j <= 0 {
        Seq::empty()
    } else {
        visits(segs, j - 1) + leg_visits(segs[j - 1])
    }
}

/// Whether one of the first `j` visits already painted vertex `v`.
pub open spec fn painted_before(vs: Seq<(usize, bool)>, j: int, v: usize) -> bool {
    exists|q: int| 0 <= q < j && #[trigger] vs[q] == (v, true)
}

/// The flat form of visit `j`: the vertex, and whether it is painted there,
/// which only its first requested painting does.
pub open spec fn flat_visit(vs: Seq<(usize, bool)>, j: int) -> (isize, bool) {
    (vs[j].0 as isize, vs[j].1 && !painted_before(vs, j, vs[j].0))
}

proof fn lemma_painted_prefix(done: Seq<(usize, bool)>, ext: Seq<(usize, bool)>, m: int, v: usize)
    requires
        0 <= m <= done.len(),
    ensures
        painted_before(done + ext, m, v) == painted_before(done, m, v),
{
    let all = done + ext;
    if painted_before(all, m, v) {
        let q = choose|q: int| 0 <= q < m && #[trigger] all[q] == (v, true);
        assert(done[q] == (v, true));
    }
    if painted_before(done, m, v) {
        let q = choose|q: int| 0 <= q < m && #[trigger] done[q] == (v, true);
        assert(all[q] == (v, true));
    }
}

impl Solution {
    /// The tour as a flat list of visits: the trees of each leg, then its
    /// shop, each with whether it is painted there.
    pub fn to_ans(&self, n: usize) -> (r: Vec<(isize, bool)>)
        requires
            n <= isize::MAX,
            forall|i: int, j: int|
                0 <= i < self.segments@.len() && 0 <= j < self.segments@[i].path@.len() ==> #[trigger] self.segments@[i].path@[j] < n,
            forall|i: int| 0 <= i < self.segments@.len() ==> (#[trigger] self.segments@[i]).to_shop <= isize::MAX,
        ensures
            r@.len() == visits(self.segments@, self.segments@.len() as int).len(),
            forall|j: int| 0 <= j < r@.len() ==> #[trigger] r@[j] == flat_visit(visits(self.segments@, self.segments@.len() as int), j),
    {
        let ghost all = visits(self.segments@, self.segments@.len() as int);
        let mut painted: Vec<bool> = vec![false; n];
        let mut ans: Vec<(isize, bool)> = Vec::new();
        let mut i: usize = 0;
        while i < self.segments.len()
            invariant
                i <= self.segments@.len(),
                n <= isize::MAX,
                painted@.len() == n,
                forall|a: int, b: int|
                    0 <= a < self.segments@.len() && 0 <= b < self.segments@[a].path@.len() ==> #[trigger] self.segments@[a].path@[b] < n,
                forall|a: int| 0 <= a < self.segments@.len() ==> (#[trigger] self.segments@[a]).to_shop <= isize::MAX,
                ans@.len() == visits(self.segments@, i as int).len(),
                forall|j: int| 0 <= j < ans@.len() ==> #[trigger] ans@[j] == flat_visit(visits(self.segments@, i as int), j),
                forall|v: int| 0 <= v < n ==> (#[trigger] painted@[v] <==> painted_before(visits(self.segments@, i as int), ans@.len() as int, v as usize)),
            decreases self.segments@.len() - i,
        {
            let seg = &self.segments[i];
            let ghost done = visits(self.segments@, i as int);
            let ghost next = visits(self.segments@, i as int + 1);
            assert(next == done + leg_visits(*seg));
            proof {
                assert forall|q: int| 0 <= q < ans@.len() implies #[trigger] ans@[q] == flat_visit(next, q) by {
                    lemma_painted_prefix(done, leg_visits(*seg), q, done[q].0);
                    assert(next[q] == done[q]);
                }
                assert forall|v: int| 0 <= v < n implies (#[trigger] painted@[v] <==> painted_before(next, ans@.len() as int, v as usize)) by {
                    lemma_painted_prefix(done, leg_visits(*seg), ans@.len() as int, v as usize);
                }
            }
            let mut j: usize = 0;
            while j < seg.path.len()
                invariant
                    j <= seg.path@.len(),
                    n <= isize::MAX,
                    painted@.len() == n,
                    forall|b: int| 0 <= b < seg.path@.len() ==> #[trigger] seg.path@[b] < n,
                    next == done + leg_visits(*seg),
                    ans@.len() == done.len() + j,
                    forall|q: int| 0 <= q < ans@.len() ==> #[trigger] ans@[q] == flat_visit(next, q),
                    forall|v: int| 0 <= v < n ==> (#[trigger] painted@[v] <==> painted_before(next, ans@.len() as int, v as usize)),
                decreases seg.path@.len() - j,
            {
                let v = seg.path[j];
                let ghost pos = ans@.len() as int;
                assert(next[pos] == (v, seg.paint_at == Some(j)));
                let do_paint = seg.paint_at == Some(j) && !painted[v];
                if do_paint {
                    painted.set(v, true);
                }
                ans.push((v as isize, do_paint));
                proof {
                    assert(ans@[pos] == flat_visit(next, pos));
                    assert forall|w: int| 0 <= w < n implies (#[trigger] painted@[w] <==> painted_before(next, pos + 1, w as usize)) by {
                        if painted_before(next, pos + 1, w as usize) && !painted_before(next, pos, w as usize) {
                            assert(next[pos] == (w as usize, true));
                        }
                        if painted_before(next, pos, w as usize) {
                            let q = choose|q: int| 0 <= q < pos && #[trigger] next[q] == (w as usize, true);
                            assert(0 <= q < pos + 1 && next[q] == (w as usize, true));
                        }
                    }
                }
                j += 1;
            }
            let ghost pos = ans@.len() as int;
            assert(next[pos] == (seg.to_shop, false));
            ans.push((seg.to_shop as isize, false));
            proof {
                assert(ans@[pos] == flat_visit(next, pos));
                assert(ans@.len() == next.len());
                assert forall|w: int| 0 <= w < n implies (#[trigger] painted@[w] <==> painted_before(next, pos + 1, w as usize)) by {
                    if painted_before(next, pos, w as usize) {
                        let q = choose|q: int| 0 <= q < pos && #[trigger] next[q] == (w as usize, true);
                        assert(0 <= q < pos + 1 && next[q] == (w as usize, true));
                    }
                }
                assert forall|q: int| 0 <= q < ans@.len() implies #[trigger] ans@[q] == flat_visit(next, q) by {}
            }
            i += 1;
        }
        ans
    }
}

/// A leg as plain values: from, to, trees passed, painting position.
pub type LegView = (usize, usize, Seq<usize>, Option<usize>);

pub open spec fn leg_view(s: Segment) -> LegView {
    (s.from_shop, s.to_shop, s.path@, s.paint_at)
}

/// Reading the first `j` visits of a flat tour: the legs closed so far, and
/// the open leg's start shop, trees and painting position. A vertex below
/// `k` is a shop and closes the open leg; the last painting of a leg wins.
pub open spec fn read_legs(ans: Seq<(isize, bool)>, k: int, j: int) -> (Seq<LegView>, usize, Seq<usize>, Option<usize>)
    decreases j,
{
    if j <= 0 {
        (Seq::empty(), 0, Seq::empty(), None)
    } else {
        let (legs, from, path, paint_at) = read_legs(ans, k, j - 1);
        let (a, do_paint) = ans[j - 1];
        let v = a as usize;
        if (v as int) < k {
            (legs.push((from, v, path, paint_at)), v, Seq::empty(), None)
        } else {
            (legs, from, path.push(v), if do_paint { Some(path.len() as usize) } else { paint_at })
        }
    }
}

impl Solution {
    /// Cuts a flat tour into legs at every shop; see `read_legs`. Visits
    /// after the last shop belong to no leg.
    pub fn from_ans(ans: &Vec<(isize, bool)>, k: usize) -> (r: Solution)
        requires
            forall|j: int| 0 <= j < ans@.len() ==> 0 <= (#[trigger] ans@[j]).0,
        ensures
            r.segments@.map_values(|s: Segment| leg_view(s)) == read_legs(ans@, k as int, ans@.len() as int).0,
    {
        let mut segments: Vec<Segment> = Vec::new();
        let mut current_from: usize = 0;
        let mut current_path: Vec<usize> = Vec::new();
        let mut current_paint_at: Option<usize> = None;
        let mut i: usize = 0;
        while i < ans.len()
            invariant
                i <= ans@.len(),
                forall|j: int| 0 <= j < ans@.len() ==> 0 <= (#[trigger] ans@[j]).0,
                segments@.map_values(|s: Segment| leg_view(s)) == read_legs(ans@, k as int, i as int).0,
                current_from == read_legs(ans@, k as int, i as int).1,
                current_path@ == read_legs(ans@, k as int, i as int).2,
                current_paint_at == read_legs(ans@, k as int, i as int).3,
            decreases ans@.len() - i,
        {
            let (a, do_paint) = ans[i];
            let v = a as usize;
            if v < k {
                let path = current_path;
                let ghost before = segments@;
                segments.push(Segment { from_shop: current_from, to_shop: v, path, paint_at: current_paint_at });
                assert(segments@.map_values(|s: Segment| leg_view(s)) =~= before.map_values(|s: Segment| leg_view(s)).push(
                    leg_view(segments@.last()),
                ));
                current_from = v;
                current_path = Vec::new();
                current_paint_at = None;
            } else {
                if do_paint {
                    current_paint_at = Some(current_path.len());
                }
                current_path.push(v);
            }
            i += 1;
        }
        Solution { segments }
    }
}

/// The state after the first `j` visits of a flat tour over `n` vertices
/// with shops `0..k`: which trees are still white, the set of distinct
/// harvests each shop has received, and the harvest being carried. A tree
/// visit adds the tree's colour to the harvest, then paints the tree if
/// asked; a shop visit delivers the harvest and starts a new one.
pub open spec fn harvest(ans: Seq<(isize, bool)>, n: int, k: int, j: int) -> (Seq<bool>, Seq<Set<Seq<bool>>>, Seq<bool>)
    decreases j,
{
    if j <= 0 {
        (Seq::new(n as nat, |_v: int| true), Seq::new(k as nat, |_s: int| Set::empty()), Seq::empty())
    } else {
        let (white, sets, cur) = harvest(ans, n, k, j - 1);
        let (a, do_paint) = ans[j - 1];
        let v = a as int;
        if v < k {
            (white, sets.update(v, sets[v].insert(cur)), Seq::empty())
        } else {
            (if do_paint && white[v] { white.update(v, false) } else { white }, sets, cur.push(white[v]))
        }
    }
}

pub open spec fn sum_sizes(sets: Seq<Set<Seq<bool>>>, m: int) -> int
    decreases m,
{
    if m <= 0 {
        0
    } else {
        sum_sizes(sets, m - 1) + sets[m - 1].len()
    }
}

proof fn lemma_sum_sizes_update(sets: Seq<Set<Seq<bool>>>, m: int, v: int, s: Set<Seq<bool>>)
    requires
        0 <= v < m <= sets.len(),
    ensures
        sum_sizes(sets.update(v, s), m) == sum_sizes(sets, m) + s.len() - sets[v].len(),
    decreases m,
{
    if m - 1 > v {
        lemma_sum_sizes_update(sets, m - 1, v, s);
    } else {
        lemma_sum_sizes_same(sets, sets.update(v, s), m - 1);
    }
}

proof fn lemma_sum_sizes_same(a: Seq<Set<Seq<bool>>>, b: Seq<Set<Seq<bool>>>, m: int)
    requires
        0 <= m <= a.len(),
        m <= b.len(),
        forall|q: int| 0 <= q < m ==> a[q] == b[q],
    ensures
        sum_sizes(a, m) == sum_sizes(b, m),
    decreases m,
{
    if m > 0 {
        lemma_sum_sizes_same(a, b, m - 1);
    }
}

pub open spec fn distinct_view(l: Seq<Vec<bool>>) -> Seq<Seq<bool>> {
    l.map_values(|x: Vec<bool>| x@)
}

fn same_bools(a: &Vec<bool>, b: &Vec<bool>) -> (r: bool)
    ensures
        r == (a@ == b@),
{
    if a.len() != b.len() {
        return false;
    }
    let mut i: usize = 0;
    while i < a.len()
        invariant
            i <= a@.len(),
            a@.len() == b@.len(),
            forall|q: int| 0 <= q < i ==> a@[q] == b@[q],
        decreases a@.len() - i,
    {
        if a[i] != b[i] {
            return false;
        }
        i += 1;
    }
    assert(a@ =~= b@);
    true
}

fn holds_seq(l: &Vec<Vec<bool>>, x: &Vec<bool>) -> (r: bool)
    ensures
        r == distinct_view(l@).contains(x@),
{
    let mut i: usize = 0;
    while i < l.len()
        invariant
            i <= l@.len(),
            forall|q: int| 0 <= q < i ==> l@[q]@ != x@,
        decreases l@.len() - i,
    {
        if same_bools(&l[i], x) {
            assert(distinct_view(l@)[i as int] == x@);
            return true;
        }
        i += 1;
    }
    assert forall|q: int| 0 <= q < distinct_view(l@).len() implies distinct_view(l@)[q] != x@ by {
        assert(distinct_view(l@)[q] == l@[q]@);
    }
    false
}

/// Number of distinct harvests delivered over all shops; see `harvest`.
pub fn calc_score(ans: &Vec<(isize, bool)>, n: usize, k: usize) -> (r: usize)
    requires
        forall|j: int| 0 <= j < ans@.len() ==> 0 <= (#[trigger] ans@[j]).0 < n,
    ensures
        r == sum_sizes(harvest(ans@, n as int, k as int, ans@.len() as int).1, k as int),
{
    let mut is_white: Vec<bool> = vec![true; n];
    let mut icecreams: Vec<Vec<Vec<bool>>> = Vec::new();
    let mut s: usize = 0;
    while s < k
        invariant
            s <= k,
            icecreams@.len() == s,
            forall|q: int| 0 <= q < s ==> (#[trigger] icecreams@[q])@.len() == 0,
        decreases k - s,
    {
        icecreams.push(Vec::new());
        s += 1;
    }
    let mut icecur: Vec<bool> = Vec::new();
    let mut total: usize = 0;
    proof {
        let h = harvest(ans@, n as int, k as int, 0);
        assert(is_white@ =~= h.0);
        assert forall|q: int| 0 <= q < k implies distinct_view(#[trigger] icecreams@[q]@).no_duplicates()
            && distinct_view(icecreams@[q]@).to_set() == h.1[q] by {
            assert(distinct_view(icecreams@[q]@).to_set() =~= Set::empty());
        }
        lemma_sum_sizes_zero(h.1, k as int);
    }
    let mut j: usize = 0;
    while j < ans.len()
        invariant
            j <= ans@.len(),
            forall|q: int| 0 <= q < ans@.len() ==> 0 <= (#[trigger] ans@[q]).0 < n,
            icecreams@.len() == k,
            is_white@.len() == n,
            is_white@ == harvest(ans@, n as int, k as int, j as int).0,
            harvest(ans@, n as int, k as int, j as int).1.len() == k,
            forall|q: int| 0 <= q < k ==> distinct_view(#[trigger] icecreams@[q]@).no_duplicates()
                && distinct_view(icecreams@[q]@).to_set() == harvest(ans@, n as int, k as int, j as int).1[q],
            icecur@ == harvest(ans@, n as int, k as int, j as int).2,
            total == sum_sizes(harvest(ans@, n as int, k as int, j as int).1, k as int),
            total <= j,
        decreases ans@.len() - j,
    {
        let ghost h = harvest(ans@, n as int, k as int, j as int);
        let (a, do_paint) = ans[j];
        let v = a as usize;
        if v < k {
            let ghost before = icecreams@[v as int]@;
            let found = holds_seq(&icecreams[v], &icecur);
            proof {
                vstd::seq_lib::seq_to_set_is_finite(distinct_view(before));
            }
            if !found {
                let mut copy: Vec<bool> = Vec::new();
                let mut q: usize = 0;
                while q < icecur.len()
                    invariant
                        q <= icecur@.len(),
                        copy@ == icecur@.take(q as int),
                    decreases icecur@.len() - q,
                {
                    copy.push(icecur[q]);
                    q += 1;
                    assert(copy@ =~= icecur@.take(q as int));
                }
                assert(icecur@.take(icecur@.len() as int) =~= icecur@);
                icecreams[v].push(copy);
                total += 1;
                proof {
                    let dv = distinct_view(before);
                    assert(distinct_view(icecreams@[v as int]@) =~= dv + seq![icecur@]);
                    Seq::lemma_to_set_insert_commutes(dv, icecur@);
                    assert(!dv.to_set().contains(icecur@));
                    lemma_sum_sizes_update(h.1, k as int, v as int, h.1[v as int].insert(icecur@));
                }
            } else {
                proof {
                    assert(h.1[v as int].insert(icecur@) =~= h.1[v as int]);
                    assert(h.1.update(v as int, h.1[v as int].insert(icecur@)) =~= h.1);
                }
            }
            icecur.clear();
            proof {
                let h2 = harvest(ans@, n as int, k as int, j as int + 1);
                assert(icecur@ =~= h2.2);
                assert forall|q: int| 0 <= q < k implies distinct_view(#[trigger] icecreams@[q]@).no_duplicates()
                    && distinct_view(icecreams@[q]@).to_set() == h2.1[q] by {
                    if q != v as int {
                        assert(h2.1[q] == h.1[q]);
                    }
                }
            }
        } else {
            let w = is_white[v];
            icecur.push(w);
            if do_paint && w {
                is_white.set(v, false);
            }
        }
        j += 1;
    }
    total
}

proof fn lemma_sum_sizes_zero(sets: Seq<Set<Seq<bool>>>, m: int)
    requires
        0 <= m <= sets.len(),
        forall|q: int| 0 <= q < m ==> #[trigger] sets[q] == Set::<Seq<bool>>::empty(),
    ensures
        sum_sizes(sets, m) == 0,
    decreases m,
{
    if m > 0 {
        lemma_sum_sizes_zero(sets, m - 1);
    }
}

} // verus!
