use vstd::prelude::*;
use vstd::set_lib::{
    lemma_int_range, lemma_len_subset, lemma_set_difference_len, set_int_range,
};
use crate::around::{adjacent, around, lemma_around};
use crate::board::{bombs_between, bombs_near, counts_ok, hits, mines};
use crate::map::{content_of, Cell, Content, Surface};

verus! {

/// Square `p` lies on the grid and is covered.
pub open spec fn covered(g: Seq<Cell>, p: int) -> bool {
    0 <= p < g.len() && g[p].surface == Surface::Cover
}

/// A chain along which opening spreads: covered squares, each next to the one before it, and
/// every one but the last with no bomb around it.
pub open spec fn chain(h: int, w: int, g: Seq<Cell>, c: Seq<int>) -> bool {
    &&& c.len() > 0
    &&& forall|i: int| 0 <= i < c.len() ==> covered(g, #[trigger] c[i])
    &&& forall|i: int|
        0 <= i < c.len() - 1 ==> g[#[trigger] c[i]].content == Content::Zero && adjacent(
            h,
            w,
            c[i],
            c[i + 1],
        )
}

/// Opening `start` reaches `p`: a chain leads from the one to the other.
pub open spec fn reached(h: int, w: int, g: Seq<Cell>, start: int, p: int) -> bool {
    exists|c: Seq<int>| #[trigger] chain(h, w, g, c) && c[0] == start && c.last() == p
}

/// The squares that a click on `start` opens.
pub open spec fn region(h: int, w: int, g: Seq<Cell>, start: int) -> Set<int> {
    Set::new(|p: int| reached(h, w, g, start, p))
}

/// The grid after a click on `start`: the squares of the region open, the others as they
/// were.
pub open spec fn opened(h: int, w: int, g: Seq<Cell>, start: int) -> Seq<Cell> {
    Seq::new(
        g.len(),
        |p: int|
            if reached(h, w, g, start, p) {
                Cell { content: g[p].content, surface: Surface::Open }
            } else {
                g[p]
            },
    )
}

/// A covered square is reached from itself.
pub proof fn lemma_reach_self(h: int, w: int, g: Seq<Cell>, start: int)
    requires
        covered(g, start),
    ensures
        reached(h, w, g, start, start),
{
    let c = seq![start];
    assert(chain(h, w, g, c));
}

/// From a reached square with no bomb around it, opening goes on to every covered neighbour.
pub proof fn lemma_reach_step(h: int, w: int, g: Seq<Cell>, start: int, p: int, r: int)
    requires
        reached(h, w, g, start, p),
        g[p].content == Content::Zero,
        adjacent(h, w, p, r),
        covered(g, r),
    ensures
        reached(h, w, g, start, r),
{
    let c = choose|c: Seq<int>| #[trigger] chain(h, w, g, c) && c[0] == start && c.last() == p;
    let d = c.push(r);
    assert(chain(h, w, g, d));
}

/// Only covered squares of the grid are reached.
pub proof fn lemma_reached_covered(h: int, w: int, g: Seq<Cell>, start: int, p: int)
    requires
        reached(h, w, g, start, p),
    ensures
        covered(g, p),
        covered(g, start),
{
    let c = choose|c: Seq<int>| #[trigger] chain(h, w, g, c) && c[0] == start && c.last() == p;
}

/// The region is finite, and no larger than the grid.
pub proof fn lemma_region_finite(h: int, w: int, g: Seq<Cell>, start: int)
    ensures
        region(h, w, g, start).finite(),
        region(h, w, g, start).len() <= g.len(),
{
    let r = region(h, w, g, start);
    let all = set_int_range(0, g.len() as int);
    lemma_int_range(0, g.len() as int);
    assert forall|p: int| r.contains(p) implies all.contains(p) by {
        lemma_reached_covered(h, w, g, start, p);
    }
    lemma_len_subset(r, all);
}

/// From a square that shows a number or a bomb, or that is not covered, opening goes nowhere
/// else.
pub proof fn lemma_reach_stops(h: int, w: int, g: Seq<Cell>, start: int, p: int)
    requires
        reached(h, w, g, start, p),
        g[start].content != Content::Zero,
    ensures
        p == start,
{
    let c = choose|c: Seq<int>| #[trigger] chain(h, w, g, c) && c[0] == start && c.last() == p;
}

/// A list that counts no bomb names no square with a bomb.
pub proof fn lemma_hits_zero(s: Seq<usize>, m: Seq<bool>, k: int, i: int)
    requires
        hits(s, m, k) == 0,
        0 <= i < k,
        s[i] < m.len(),
    ensures
        !m[s[i] as int],
    decreases k,
{
    if i < k - 1 {
        lemma_hits_zero(s, m, k - 1, i);
    }
}

/// On a grid with the right counts, no bomb lies next to a square that shows none around it.
pub proof fn lemma_zero_has_no_bomb_near(h: int, w: int, g: Seq<Cell>, p: int, r: int)
    requires
        counts_ok(h, w, g),
        h * w <= usize::MAX,
        0 <= p < g.len(),
        g[p].content == Content::Zero,
        adjacent(h, w, p, r),
    ensures
        g[r].content != Content::Bomb,
{
    let s = around(h, w, p);
    lemma_around(h, w, p);
    assert(s.contains(r as usize));
    let i = choose|i: int| 0 <= i < s.len() && s[i] == r as usize;
    lemma_hits_zero(s, mines(g), s.len() as int, i);
}

/// On a grid with the right counts, opening reaches no bomb but one on the clicked square
/// itself.
pub proof fn lemma_reached_bomb_is_start(h: int, w: int, g: Seq<Cell>, start: int, p: int)
    requires
        counts_ok(h, w, g),
        h * w <= usize::MAX,
        reached(h, w, g, start, p),
        g[p].content == Content::Bomb,
    ensures
        p == start,
{
    let c = choose|c: Seq<int>| #[trigger] chain(h, w, g, c) && c[0] == start && c.last() == p;
    if c.len() > 1 {
        let i = c.len() - 2;
        lemma_zero_has_no_bomb_near(h, w, g, c[i], p);
    }
}

/// The squares that the fill has opened so far.
pub open spec fn done(g: Seq<Cell>, cur: Seq<Cell>) -> Set<int> {
    Set::new(
        |p: int|
            0 <= p < g.len() && g[p].surface == Surface::Cover && cur[p].surface
                == Surface::Open,
    )
}

/// The state of a fill of `g` from `start` between two steps: `cur` is the grid by now, `q`
/// the squares that wait.
///
/// Only reached squares have been opened; every square that waits is, if covered at the
/// outset, a reached one; the clicked square and every covered neighbour of an opened square
/// with no bomb around it are open by now or wait.
pub open spec fn filling(
    h: int,
    w: int,
    g: Seq<Cell>,
    start: int,
    cur: Seq<Cell>,
    q: Seq<usize>,
) -> bool {
    &&& cur.len() == g.len()
    &&& g.len() <= usize::MAX
    &&& forall|p: int| 0 <= p < g.len() ==> (#[trigger] cur[p]).content == g[p].content
    &&& forall|p: int|
        0 <= p < g.len() ==> (#[trigger] cur[p]).surface == g[p].surface || (cur[p].surface
            == Surface::Open && reached(h, w, g, start, p))
    &&& forall|i: int|
        0 <= i < q.len() ==> (#[trigger] q[i]) < g.len() && (covered(g, q[i] as int) ==> reached(
            h,
            w,
            g,
            start,
            q[i] as int,
        ))
    &&& covered(g, start) ==> cur[start].surface == Surface::Open || q.contains(start as usize)
    &&& forall|p: int, r: int|
        #![trigger adjacent(h, w, p, r)]
        done(g, cur).contains(p) && g[p].content == Content::Zero && adjacent(h, w, p, r)
            && covered(g, r) ==> cur[r].surface == Surface::Open || q.contains(r as usize)
}

/// What is left to do in a fill: nine for each square still to open, one for each that waits.
pub open spec fn fill_work(
    h: int,
    w: int,
    g: Seq<Cell>,
    start: int,
    cur: Seq<Cell>,
    q: Seq<usize>,
) -> int {
    9 * (region(h, w, g, start).len() - done(g, cur).len()) + q.len()
}

/// The opened squares are finitely many and belong to the region.
pub proof fn lemma_done_in_region(
    h: int,
    w: int,
    g: Seq<Cell>,
    start: int,
    cur: Seq<Cell>,
    q: Seq<usize>,
)
    requires
        filling(h, w, g, start, cur, q),
    ensures
        done(g, cur).subset_of(region(h, w, g, start)),
        done(g, cur).finite(),
        region(h, w, g, start).finite(),
        done(g, cur).len() <= region(h, w, g, start).len(),
{
    lemma_region_finite(h, w, g, start);
    assert forall|p: int| done(g, cur).contains(p) implies region(h, w, g, start).contains(p) by {
        assert(cur[p].surface == g[p].surface || (cur[p].surface == Surface::Open && reached(
            h,
            w,
            g,
            start,
            p,
        )));
    }
    lemma_len_subset(done(g, cur), region(h, w, g, start));
}

/// A fill starts with the clicked square waiting and the grid untouched.
pub proof fn lemma_fill_begins(h: int, w: int, g: Seq<Cell>, start: usize)
    requires
        start < g.len() <= usize::MAX,
    ensures
        filling(h, w, g, start as int, g, seq![start]),
{
    let q = seq![start];
    assert(q[0] == start);
    if covered(g, start as int) {
        lemma_reach_self(h, w, g, start as int);
    }
}

/// A waiting square that is open or flagged when its turn comes is passed over.
pub proof fn lemma_fill_skips(
    h: int,
    w: int,
    g: Seq<Cell>,
    start: int,
    cur: Seq<Cell>,
    q: Seq<usize>,
)
    requires
        filling(h, w, g, start, cur, q),
        q.len() > 0,
        cur[q[0] as int].surface != Surface::Cover,
    ensures
        filling(h, w, g, start, cur, q.drop_first()),
{
    let one = q[0];
    let rest = q.drop_first();
    assert(cur[one as int].surface == g[one as int].surface || cur[one as int].surface
        == Surface::Open);
    assert forall|r: usize| q.contains(r) && r != one implies rest.contains(r) by {
        let i = choose|i: int| 0 <= i < q.len() && q[i] == r;
        assert(rest[i - 1] == r);
    }
}

/// A waiting square that is covered when its turn comes is opened; if it has no bomb around
/// it, its covered neighbours join the queue.
pub proof fn lemma_fill_opens(
    h: int,
    w: int,
    g: Seq<Cell>,
    start: int,
    cur: Seq<Cell>,
    q: Seq<usize>,
    next: Seq<Cell>,
    q2: Seq<usize>,
)
    requires
        filling(h, w, g, start, cur, q),
        q.len() > 0,
        cur[q[0] as int].surface == Surface::Cover,
        next == cur.update(
            q[0] as int,
            Cell { content: cur[q[0] as int].content, surface: Surface::Open },
        ),
        q.len() - 1 <= q2.len(),
        forall|i: int| 0 <= i < q.len() - 1 ==> q2[i] == q[i + 1],
        forall|i: int|
            q.len() - 1 <= i < q2.len() ==> g[q[0] as int].content == Content::Zero && adjacent(
                h,
                w,
                q[0] as int,
                #[trigger] q2[i] as int,
            ) && covered(next, q2[i] as int),
        g[q[0] as int].content == Content::Zero ==> forall|r: usize|
            #![trigger adjacent(h, w, q[0] as int, r as int)]
            adjacent(h, w, q[0] as int, r as int) && covered(next, r as int) ==> q2.contains(r),
    ensures
        filling(h, w, g, start, next, q2),
        reached(h, w, g, start, q[0] as int),
        !done(g, cur).contains(q[0] as int),
        done(g, next) == done(g, cur).insert(q[0] as int),
{
    let one = q[0];
    let o = one as int;
    assert forall|r: usize| q.contains(r) && r != one implies q2.contains(r) by {
        let i = choose|i: int| 0 <= i < q.len() && q[i] == r;
        assert(q2[i - 1] == r);
    }
    assert forall|i: int| 0 <= i < q2.len() implies (#[trigger] q2[i]) < g.len() && (covered(
        g,
        q2[i] as int,
    ) ==> reached(h, w, g, start, q2[i] as int)) by {
        if i >= q.len() - 1 {
            lemma_reach_step(h, w, g, start, o, q2[i] as int);
        }
    }
}

/// Every square of a chain is open once nothing waits any more.
proof fn lemma_chain_opened(
    h: int,
    w: int,
    g: Seq<Cell>,
    start: int,
    cur: Seq<Cell>,
    c: Seq<int>,
    i: int,
)
    requires
        filling(h, w, g, start, cur, Seq::<usize>::empty()),
        chain(h, w, g, c),
        c[0] == start,
        0 <= i < c.len(),
    ensures
        cur[c[i]].surface == Surface::Open,
    decreases i,
{
    if i > 0 {
        lemma_chain_opened(h, w, g, start, cur, c, i - 1);
    }
}

/// When nothing waits any more, the region is open and nothing else has changed.
pub proof fn lemma_fill_ends(h: int, w: int, g: Seq<Cell>, start: int, cur: Seq<Cell>)
    requires
        filling(h, w, g, start, cur, Seq::<usize>::empty()),
    ensures
        cur == opened(h, w, g, start),
        done(g, cur) == region(h, w, g, start),
{
    assert forall|p: int| reached(h, w, g, start, p) implies 0 <= p < g.len() && g[p].surface
        == Surface::Cover && cur[p].surface == Surface::Open by {
        let c = choose|c: Seq<int>| #[trigger]
            chain(h, w, g, c) && c[0] == start && c.last() == p;
        lemma_chain_opened(h, w, g, start, cur, c, c.len() - 1);
    }
    lemma_done_in_region(h, w, g, start, cur, Seq::<usize>::empty());
    assert forall|p: int| 0 <= p < g.len() implies cur[p] == opened(h, w, g, start)[p] by {
        assert(cur[p].surface == g[p].surface || (cur[p].surface == Surface::Open && reached(
            h,
            w,
            g,
            start,
            p,
        )));
    }
}

/// A click on a covered square that does not show an empty count opens that square and no
/// other.
pub proof fn lemma_fill_single(h: int, w: int, g: Seq<Cell>, start: int)
    requires
        covered(g, start),
        g[start].content != Content::Zero,
    ensures
        region(h, w, g, start) == set![start],
        opened(h, w, g, start) == g.update(
            start,
            Cell { content: g[start].content, surface: Surface::Open },
        ),
{
    lemma_reach_self(h, w, g, start);
    assert forall|p: int| reached(h, w, g, start, p) implies p == start by {
        lemma_reach_stops(h, w, g, start, p);
    }
    assert(opened(h, w, g, start) =~= g.update(
        start,
        Cell { content: g[start].content, surface: Surface::Open },
    ));
}

/// The squares of a grid that are not open: covered or flagged.
pub open spec fn unopened(g: Seq<Cell>) -> Set<int> {
    Set::new(|p: int| 0 <= p < g.len() && g[p].surface != Surface::Open)
}

/// The squares of a grid that hold a bomb.
pub open spec fn bomb_squares(g: Seq<Cell>) -> Set<int> {
    Set::new(|p: int| 0 <= p < g.len() && g[p].content == Content::Bomb)
}

/// There are no more squares that are not open than squares.
pub proof fn lemma_unopened_finite(g: Seq<Cell>)
    ensures
        unopened(g).finite(),
        unopened(g).len() <= g.len(),
{
    lemma_int_range(0, g.len() as int);
    lemma_len_subset(unopened(g), set_int_range(0, g.len() as int));
}

/// On a grid with no open square, every square counts as not open.
pub proof fn lemma_unopened_all(g: Seq<Cell>)
    requires
        forall|p: int| 0 <= p < g.len() ==> (#[trigger] g[p]).surface != Surface::Open,
    ensures
        unopened(g).len() == g.len(),
{
    lemma_int_range(0, g.len() as int);
    assert(unopened(g) =~= set_int_range(0, g.len() as int));
}

/// A click takes the squares of its region, and no others, out of those that are not open.
pub proof fn lemma_unopened_after(h: int, w: int, g: Seq<Cell>, start: int)
    ensures
        region(h, w, g, start).subset_of(unopened(g)),
        region(h, w, g, start).len() <= unopened(g).len(),
        unopened(opened(h, w, g, start)).len() == unopened(g).len() - region(h, w, g, start).len(),
{
    let r = region(h, w, g, start);
    let u = unopened(g);
    let after = unopened(opened(h, w, g, start));
    lemma_region_finite(h, w, g, start);
    lemma_unopened_finite(g);
    assert forall|p: int| r.contains(p) implies u.contains(p) by {
        lemma_reached_covered(h, w, g, start, p);
    }
    lemma_len_subset(r, u);
    assert(after =~= u.difference(r));
    lemma_set_difference_len(u, r);
    assert(u.intersect(r) =~= r);
}

/// Counting the bombs square by square gives the size of the set of squares with a bomb.
pub proof fn lemma_bombs_as_set(g: Seq<Cell>, n: int)
    requires
        0 <= n <= g.len(),
    ensures
        bomb_squares(g.take(n)).finite(),
        bombs_between(mines(g), 0, n) == bomb_squares(g.take(n)).len(),
    decreases n,
{
    if n == 0 {
        assert(bomb_squares(g.take(0)) =~= Set::<int>::empty());
    } else {
        lemma_bombs_as_set(g, n - 1);
        let before = bomb_squares(g.take(n - 1));
        let now = bomb_squares(g.take(n));
        if g[n - 1].content == Content::Bomb {
            assert(now =~= before.insert(n - 1));
        } else {
            assert(now =~= before);
        }
    }
}

} // verus!
