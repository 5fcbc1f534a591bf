use rand::rngs::ThreadRng;
use vstd::prelude::*;
use crate::around::{adjacent, around, check_around_fn, lemma_adjacent_symmetric, lemma_around};
use crate::board::{
    board_of, bombs, bombs_between, bombs_near, counts_ok, hits, lemma_bombs_bound,
    lemma_bombs_near_bound, lemma_bombs_same, lemma_bombs_split, lemma_hits_step,
    lemma_mines_below_all, mines, mines_below,
};
use crate::config::GameConfig;
use crate::map::{Cell, Content, Surface};
use crate::rng::gen_below;

verus! {

/// The number that marks a bomb in a layout.
pub const BOMB: i8 = 9;

/// Where the bombs of a layout lie.
pub open spec fn marked(s: Seq<i8>) -> Seq<bool> {
    Seq::new(s.len(), |i: int| s[i] == BOMB)
}

/// The number of bombs that placement lays when asked for `bomb`: a request for none still
/// lays one.
pub open spec fn placed(bomb: int) -> int {
    if bomb <= 1 {
        1
    } else {
        bomb
    }
}

/// A stretch `lo..hi` of a layout on which `bomb` bombs were laid by halves: one bomb on
/// the whole stretch when at most one was asked for; otherwise the lower half of the request
/// on the lower half of the stretch, and the rest on the rest.
pub open spec fn balanced(m: Seq<bool>, bomb: int, lo: int, hi: int) -> bool
    decreases bomb,
{
    if bomb <= 1 {
        bombs_between(m, lo, hi) == 1
    } else {
        let mid = lo + (hi - lo) / 2;
        balanced(m, bomb / 2, lo, mid) && balanced(m, bomb - bomb / 2, mid, hi)
    }
}

/// Whether a stretch is laid by halves depends on that stretch alone.
pub proof fn lemma_balanced_same(a: Seq<bool>, b: Seq<bool>, bomb: int, lo: int, hi: int)
    requires
        lo <= hi,
        forall|i: int| lo <= i < hi ==> a[i] == b[i],
    ensures
        balanced(a, bomb, lo, hi) == balanced(b, bomb, lo, hi),
    decreases bomb,
{
    if bomb <= 1 {
        lemma_bombs_same(a, b, lo, hi);
    } else {
        let mid = lo + (hi - lo) / 2;
        lemma_balanced_same(a, b, bomb / 2, lo, mid);
        lemma_balanced_same(a, b, bomb - bomb / 2, mid, hi);
    }
}

/// A stretch laid by halves holds as many bombs as placement lays.
pub proof fn lemma_balanced_count(m: Seq<bool>, bomb: int, lo: int, hi: int)
    requires
        lo <= hi,
        balanced(m, bomb, lo, hi),
    ensures
        bombs_between(m, lo, hi) == placed(bomb),
    decreases bomb,
{
    if bomb > 1 {
        let mid = lo + (hi - lo) / 2;
        lemma_balanced_count(m, bomb / 2, lo, mid);
        lemma_balanced_count(m, bomb - bomb / 2, mid, hi);
        lemma_bombs_split(m, lo, mid, hi);
    }
}

/// Lays bombs on the squares `lo..hi` of a layout: one, on a square drawn at random, when at
/// most one is asked for; otherwise half of them on each half of the stretch.
pub fn binary_random(rng: &mut ThreadRng, bomb: usize, map: &mut Vec<i8>, lo: usize, hi: usize)
    requires
        lo < hi <= old(map).len(),
        bomb <= hi - lo,
        forall|i: int| lo <= i < hi ==> old(map)[i] != BOMB,
    ensures
        final(map).len() == old(map).len(),
        forall|i: int| 0 <= i < lo || hi <= i < old(map).len() ==> final(map)[i] == old(map)[i],
        forall|i: int| lo <= i < hi ==> final(map)[i] == old(map)[i] || final(map)[i] == BOMB,
        balanced(marked(final(map)@), bomb as int, lo as int, hi as int),
        bombs_between(marked(final(map)@), lo as int, hi as int) == placed(bomb as int),
    decreases bomb,
{
    if bomb <= 1 {
        let rand_pos = gen_below(rng, hi - lo);
        map[lo + rand_pos] = BOMB;
        proof {
            let m = marked(map@);
            let at = lo + rand_pos;
            lemma_bombs_split(m, lo as int, at, hi as int);
            lemma_bombs_split(m, at, at + 1, hi as int);
            lemma_bombs_bound(m, lo as int, at);
            lemma_bombs_bound(m, at + 1, hi as int);
            assert(bombs_between(m, at, at + 1) == 1) by {
                assert(bombs_between(m, at, at) == 0);
            }
        }
        return ;
    }
    let mid = lo + (hi - lo) / 2;
    binary_random(rng, bomb / 2, map, lo, mid);
    let ghost left = marked(map@);
    binary_random(rng, bomb - bomb / 2, map, mid, hi);
    proof {
        let m = marked(map@);
        lemma_balanced_same(left, m, bomb as int / 2, lo as int, mid as int);
        lemma_balanced_count(m, bomb as int, lo as int, hi as int);
    }
}

/// The first square from `from` on that holds no bomb, or the length of the layout if there is
/// none.
pub open spec fn first_clear(m: Seq<bool>, from: int) -> int
    decreases m.len() - from,
{
    if from >= m.len() {
        m.len() as int
    } else if from >= 0 && !m[from] {
        from
    } else {
        first_clear(m, from + 1)
    }
}

/// The layout made safe for a first click on `first`: a bomb found there changes places with
/// the first square that has none.
pub open spec fn safe_layout(m: Seq<bool>, first: int) -> Seq<bool> {
    if m[first] {
        m.update(first, false).update(first_clear(m, 0), true)
    } else {
        m
    }
}

pub proof fn lemma_first_clear(m: Seq<bool>, from: int)
    requires
        0 <= from,
    ensures
        from <= first_clear(m, from) <= m.len() || (from > m.len() && first_clear(m, from)
            == m.len()),
        first_clear(m, from) < m.len() ==> !m[first_clear(m, from)],
        forall|i: int| from <= i < first_clear(m, from) ==> m[i],
    decreases m.len() - from,
{
    if from < m.len() && m[from] {
        lemma_first_clear(m, from + 1);
    }
}

/// No list counts a bomb on a board that has none.
pub proof fn lemma_hits_none(s: Seq<usize>, m: Seq<bool>, k: int)
    requires
        forall|i: int| 0 <= i < m.len() ==> !m[i],
    ensures
        hits(s, m, k) == 0,
    decreases k,
{
    if k > 0 {
        lemma_hits_none(s, m, k - 1);
    }
}

/// The numbers of a layout: the bomb mark where a bomb lies, elsewhere the count of bombs
/// around.
pub open spec fn numbered(h: int, w: int, m: Seq<bool>) -> Seq<i8> {
    Seq::new(
        m.len(),
        |p: int|
            if m[p] {
                BOMB
            } else {
                bombs_near(h, w, m, p) as i8
            },
    )
}

/// While the neighbours of the bomb on `idx` are being told of it: the count of square `p`
/// once the first `j` of them have been.
pub open spec fn tally(h: int, w: int, m: Seq<bool>, idx: int, j: int, p: int) -> int {
    if m[p] {
        if p <= idx {
            BOMB as int
        } else {
            0
        }
    } else {
        bombs_near(h, w, mines_below(m, idx), p) + if around(h, w, idx).take(j).contains(
            p as usize,
        ) {
            1int
        } else {
            0int
        }
    }
}

/// Once every neighbour of the bomb on `idx` has been told, the counts are those of the
/// layout up to and including `idx`.
proof fn lemma_tally_done(h: int, w: int, m: Seq<bool>, idx: usize, p: usize)
    requires
        w > 0,
        h * w <= usize::MAX,
        m.len() == h * w,
        idx < m.len(),
        p < m.len(),
        m[idx as int],
        !m[p as int],
    ensures
        tally(h, w, m, idx as int, around(h, w, idx as int).len() as int, p as int) == bombs_near(
            h,
            w,
            mines_below(m, idx + 1),
            p as int,
        ),
        bombs_near(h, w, mines_below(m, idx + 1), p as int) <= 8,
{
    let nb = around(h, w, idx as int);
    let s = around(h, w, p as int);
    lemma_around(h, w, idx as int);
    lemma_around(h, w, p as int);
    assert(nb.take(nb.len() as int) =~= nb);
    assert(s.take(s.len() as int) =~= s);
    lemma_hits_step(s, m, idx, s.len() as int);
    lemma_adjacent_symmetric(h, w, idx as int, p as int);
    lemma_bombs_near_bound(h, w, mines_below(m, idx + 1), p as int);
}

/// Counts, for every square of a layout without a bomb, the bombs around it.
fn count_around(conf: &GameConfig, map: &Vec<i8>) -> (out: Vec<i8>)
    requires
        conf.width > 0,
        conf.size() <= usize::MAX,
        map.len() == conf.size(),
    ensures
        out@ == numbered(conf.height as int, conf.width as int, marked(map@)),
{
    let n = map.len();
    let ghost h = conf.height as int;
    let ghost w = conf.width as int;
    let ghost m = marked(map@);
    let mut out: Vec<i8> = vec![0i8; n];
    let mut idx: usize = 0;
    proof {
        assert forall|p: int| 0 <= p < n && !m[p] implies bombs_near(h, w, mines_below(m, 0), p)
            == 0 by {
            lemma_hits_none(around(h, w, p), mines_below(m, 0), around(h, w, p).len() as int);
        }
    }
    while idx < n
        invariant
            w > 0,
            h == conf.height,
            w == conf.width,
            h * w <= usize::MAX,
            n == map.len(),
            n == h * w,
            m == marked(map@),
            out.len() == n,
            idx <= n,
            forall|p: int|
                0 <= p < n ==> #[trigger] out[p] == if m[p] {
                    if p < idx {
                        BOMB as int
                    } else {
                        0
                    }
                } else {
                    bombs_near(h, w, mines_below(m, idx as int), p) as int
                },
        decreases n - idx,
    {
        if map[idx] == BOMB {
            out[idx] = BOMB;
            let nb = check_around_fn(conf.height, conf.width, idx);
            let mut j: usize = 0;
            proof {
                lemma_around(h, w, idx as int);
            }
            while j < nb.len()
                invariant
                    w > 0,
                    h == conf.height,
                    w == conf.width,
                    h * w <= usize::MAX,
                    n == map.len(),
                    n == h * w,
                    m == marked(map@),
                    out.len() == n,
                    idx < n,
                    m[idx as int],
                    j <= nb.len(),
                    nb@ == around(h, w, idx as int),
                    nb@.no_duplicates(),
                    forall|q: usize| #[trigger]
                        nb@.contains(q) <==> adjacent(h, w, idx as int, q as int),
                    forall|p: int|
                        0 <= p < n ==> #[trigger] out[p] == tally(h, w, m, idx as int, j as int, p),
                decreases nb.len() - j,
            {
                let pos = nb[j];
                proof {
                    assert(nb@.contains(pos));
                    let now = nb@.take(j as int);
                    let next = nb@.take(j + 1);
                    assert(!now.contains(pos)) by {
                        if now.contains(pos) {
                            let i = choose|i: int| 0 <= i < now.len() && now[i] == pos;
                        }
                    }
                    assert forall|q: usize| #[trigger]
                        next.contains(q) <==> now.contains(q) || q == pos by {
                        if now.contains(q) {
                            let i = choose|i: int| 0 <= i < now.len() && now[i] == q;
                        }
                        if q == pos {
                            assert(next[j as int] == q);
                        }
                        if next.contains(q) {
                            let i = choose|i: int| 0 <= i < next.len() && next[i] == q;
                        }
                    }
                }
                if map[pos] != BOMB {
                    proof {
                        assert(tally(h, w, m, idx as int, j + 1, pos as int) == tally(
                            h,
                            w,
                            m,
                            idx as int,
                            j as int,
                            pos as int,
                        ) + 1);
                        lemma_tally_bound(h, w, m, idx, j + 1, pos);
                    }
                    out[pos] = out[pos] + 1;
                }
                j += 1;
            }
            proof {
                assert forall|p: int| 0 <= p < n && !m[p] implies #[trigger] out[p] == bombs_near(
                    h,
                    w,
                    mines_below(m, idx + 1),
                    p,
                ) as int by {
                    lemma_tally_done(h, w, m, idx, p as usize);
                }
            }
        } else {
            assert(mines_below(m, idx + 1) =~= mines_below(m, idx as int));
        }
        idx += 1;
    }
    proof {
        lemma_mines_below_all(m);
        assert forall|p: int| 0 <= p < n implies out@[p] == numbered(h, w, m)[p] by {
            lemma_bombs_near_bound(h, w, m, p);
        }
    }
    out
}

/// While the neighbours of a bomb are being told of it, no count has gone beyond the count
/// that the square will have in the end.
proof fn lemma_tally_bound(h: int, w: int, m: Seq<bool>, idx: usize, j: int, p: usize)
    requires
        w > 0,
        h * w <= usize::MAX,
        m.len() == h * w,
        idx < m.len(),
        p < m.len(),
        m[idx as int],
        !m[p as int],
        0 <= j <= around(h, w, idx as int).len(),
    ensures
        tally(h, w, m, idx as int, j, p as int) <= 8,
{
    let nb = around(h, w, idx as int);
    lemma_tally_done(h, w, m, idx, p);
    if nb.take(j).contains(p) {
        let i = choose|i: int| 0 <= i < nb.take(j).len() && nb.take(j)[i] == p;
    }
}

/// Changing one square of a stretch changes its number of bombs by what was taken and what
/// was put.
pub proof fn lemma_bombs_update(m: Seq<bool>, i: int, v: bool, lo: int, hi: int)
    requires
        0 <= lo <= i < hi <= m.len(),
    ensures
        bombs_between(m.update(i, v), lo, hi) + (if m[i] {
            1int
        } else {
            0int
        }) == bombs_between(m, lo, hi) + (if v {
            1int
        } else {
            0int
        }),
{
    let u = m.update(i, v);
    lemma_bombs_split(m, lo, i, hi);
    lemma_bombs_split(m, i, i + 1, hi);
    lemma_bombs_split(u, lo, i, hi);
    lemma_bombs_split(u, i, i + 1, hi);
    lemma_bombs_same(m, u, lo, i);
    lemma_bombs_same(m, u, i + 1, hi);
    assert(bombs_between(m, i, i) == 0);
    assert(bombs_between(u, i, i) == 0);
}

/// Making a layout safe for the first click moves a bomb at most: the number of bombs stays,
/// and the clicked square is free of one, provided that some square was.
pub proof fn lemma_safe_layout(m: Seq<bool>, first: int)
    requires
        0 <= first < m.len(),
        bombs(m) < m.len(),
    ensures
        safe_layout(m, first).len() == m.len(),
        bombs(safe_layout(m, first)) == bombs(m),
        !safe_layout(m, first)[first],
{
    lemma_first_clear(m, 0);
    lemma_bombs_bound(m, 0, m.len() as int);
    if m[first] {
        let fc = first_clear(m, 0);
        assert(fc < m.len()) by {
            if fc >= m.len() {
                lemma_bombs_all(m, 0, m.len() as int);
            }
        }
        let a = m.update(first, false);
        lemma_bombs_update(m, first, false, 0, m.len() as int);
        lemma_bombs_update(a, fc, true, 0, m.len() as int);
    }
}

/// A stretch with a bomb on every square holds as many bombs as squares.
pub proof fn lemma_bombs_all(m: Seq<bool>, lo: int, hi: int)
    requires
        lo <= hi,
        forall|i: int| lo <= i < hi ==> m[i],
    ensures
        bombs_between(m, lo, hi) == hi - lo,
    decreases hi - lo,
{
    if lo < hi {
        lemma_bombs_all(m, lo, hi - 1);
    }
}

/// The grid of a layout has its bombs where the layout has them, shows the right count on
/// every other square, and is covered all over.
pub proof fn lemma_board_of(h: int, w: int, m: Seq<bool>)
    requires
        w > 0,
        m.len() == h * w,
        h * w <= usize::MAX,
    ensures
        board_of(h, w, m).len() == m.len(),
        mines(board_of(h, w, m)) == m,
        counts_ok(h, w, board_of(h, w, m)),
        forall|p: int|
            0 <= p < m.len() ==> (#[trigger] board_of(h, w, m)[p]).surface == Surface::Cover,
{
    let g = board_of(h, w, m);
    assert forall|p: int| 0 <= p < m.len() implies (g[p].content == Content::Bomb) == m[p] by {
        lemma_bombs_near_bound(h, w, m, p);
    }
}

/// Turns a layout of bombs into the grid of a new game whose first click falls on `init_pos`:
/// a bomb on the clicked square changes places with the first square that has none, and every
/// square without a bomb gets the number of bombs around it.
pub fn lay_map(init_pos: usize, conf: &GameConfig, map: Vec<i8>) -> (out: Vec<Cell>)
    requires
        conf.size() <= usize::MAX,
        map.len() == conf.size(),
        init_pos < map.len(),
        exists|i: int| 0 <= i < map.len() && map[i] != BOMB,
    ensures
        out@ == board_of(
            conf.height as int,
            conf.width as int,
            safe_layout(marked(map@), init_pos as int),
        ),
{
    let ghost h = conf.height as int;
    let ghost w = conf.width as int;
    let ghost m0 = marked(map@);
    let ghost safe = safe_layout(m0, init_pos as int);
    let mut map = map;
    assert(conf.width > 0) by (nonlinear_arith)
        requires
            conf.height * conf.width > 0,
    ;
    if map[init_pos] == BOMB {
        let mut idx: usize = 0;
        proof {
            lemma_first_clear(m0, 0);
            let free = choose|i: int| 0 <= i < map.len() && map[i] != BOMB;
            assert(!m0[free]);
        }
        while map[idx] == BOMB
            invariant
                idx < map.len(),
                m0 == marked(map@),
                first_clear(m0, 0) == first_clear(m0, idx as int),
                first_clear(m0, 0) < map.len(),
            decreases map.len() - idx,
        {
            proof {
                lemma_first_clear(m0, idx + 1);
            }
            idx += 1;
        }
        let kept = map[idx];
        map[idx] = BOMB;
        map[init_pos] = kept;
        assert(marked(map@) =~= safe);
    }
    let counts = count_around(conf, &map);
    let n = counts.len();
    let mut out: Vec<Cell> = Vec::new();
    let mut i: usize = 0;
    while i < n
        invariant
            w > 0,
            h * w <= usize::MAX,
            n == h * w,
            safe.len() == n,
            counts.len() == n,
            counts@ == numbered(h, w, safe),
            i <= n,
            out.len() == i,
            forall|p: int| 0 <= p < i ==> out[p] == board_of(h, w, safe)[p],
        decreases n - i,
    {
        proof {
            lemma_bombs_near_bound(h, w, safe, i as int);
        }
        out.push(Cell::new(Content::from_i8(counts[i]), Surface::Cover));
        i += 1;
    }
    out
}

} // verus!
