use vstd::prelude::*;
use vstd::set_lib::lemma_subset_equality;
use crate::around::{adjacent, around, lemma_around};
use crate::board::{bombs, bombs_near, hits, mines};
use crate::config::GameConfig;
use crate::event::{outcome_of, revealed, Game, RevealOutcome};
use crate::fill::{
    bomb_squares, covered, lemma_bombs_as_set, lemma_fill_single, lemma_reach_self,
    lemma_reach_step, lemma_reached_covered, lemma_unopened_finite, opened, reached, region,
    unopened,
};
use crate::map::{
    content_of, flag_moves, flags_after, fresh_board, toggled, Cell, Content, Surface,
};

verus! {

/// A new board has exactly the bombs asked for whenever at least one is asked for, none of
/// them under the first click, and on every square without a bomb the number of bombs on the
/// squares around it.
pub proof fn lemma_fresh_board(conf: GameConfig, first: int, g: Seq<Cell>)
    requires
        fresh_board(conf, first, g),
    ensures
        conf.bomb >= 1 ==> bombs(mines(g)) == conf.bomb,
        conf.bomb >= 1 ==> bomb_squares(g).len() == conf.bomb,
        g[first].content != Content::Bomb,
        forall|p: int|
            0 <= p < g.len() && g[p].content != Content::Bomb ==> #[trigger] g[p].content
                == content_of(
                bombs_near(conf.height as int, conf.width as int, mines(g), p) as int,
            ),
{
    lemma_bombs_as_set(g, g.len() as int);
    assert(g.take(g.len() as int) =~= g);
}

/// The squares with a bomb among the first `k` that a list names.
pub open spec fn hit_squares(s: Seq<usize>, m: Seq<bool>, k: int) -> Set<usize> {
    Set::new(|q: usize| s.take(k).contains(q) && q < m.len() && m[q as int])
}

/// A list that names no square twice counts as many bombs as there are squares with a bomb
/// among those that it names.
pub proof fn lemma_hits_as_set(s: Seq<usize>, m: Seq<bool>, k: int)
    requires
        s.no_duplicates(),
        0 <= k <= s.len(),
    ensures
        hit_squares(s, m, k).finite(),
        hits(s, m, k) == hit_squares(s, m, k).len(),
    decreases k,
{
    if k == 0 {
        assert(s.take(0).len() == 0);
        assert(hit_squares(s, m, 0) =~= Set::<usize>::empty());
    } else {
        lemma_hits_as_set(s, m, k - 1);
        let before = hit_squares(s, m, k - 1);
        let now = hit_squares(s, m, k);
        let x = s[k - 1];
        let t = s.take(k - 1);
        let u = s.take(k);
        assert(u[k - 1] == x);
        assert(!t.contains(x)) by {
            if t.contains(x) {
                let i = choose|i: int| 0 <= i < t.len() && t[i] == x;
                assert(s[i] == s[k - 1]);
            }
        }
        assert forall|q: usize| u.contains(q) <==> t.contains(q) || q == x by {
            if t.contains(q) {
                let i = choose|i: int| 0 <= i < t.len() && t[i] == q;
                assert(u[i] == q);
            }
            if u.contains(q) {
                let i = choose|i: int| 0 <= i < u.len() && u[i] == q;
                if i < k - 1 {
                    assert(t[i] == q);
                }
            }
        }
        if x < m.len() && m[x as int] {
            assert(now =~= before.insert(x));
        } else {
            assert(now =~= before);
        }
    }
}

/// The number of bombs around a square is the number of squares adjacent to it that hold a
/// bomb.
pub proof fn lemma_bombs_near_by_scan(h: int, w: int, m: Seq<bool>, p: int)
    requires
        w > 0,
        m.len() == h * w,
        h * w <= usize::MAX,
        0 <= p < m.len(),
    ensures
        bombs_near(h, w, m, p) == Set::new(
            |q: usize| adjacent(h, w, p, q as int) && m[q as int],
        ).len(),
{
    let s = around(h, w, p);
    lemma_around(h, w, p);
    lemma_hits_as_set(s, m, s.len() as int);
    assert(s.take(s.len() as int) =~= s);
    assert(hit_squares(s, m, s.len() as int) =~= Set::new(
        |q: usize| adjacent(h, w, p, q as int) && m[q as int],
    ));
}

/// A second click on the same square changes nothing: after a click, the square opens no
/// region, and the grid stays as the first click left it.
pub proof fn lemma_reveal_twice(h: int, w: int, g: Seq<Cell>, start: int)
    requires
        0 <= start < g.len(),
    ensures
        region(h, w, opened(h, w, g, start), start) == Set::<int>::empty(),
        opened(h, w, opened(h, w, g, start), start) == opened(h, w, g, start),
{
    let once = opened(h, w, g, start);
    if covered(g, start) {
        lemma_reach_self(h, w, g, start);
    }
    lemma_not_covered_opens_nothing(h, w, once, start);
}

/// A click on a square that is open or flagged opens nothing and leaves the grid as it is.
pub proof fn lemma_not_covered_opens_nothing(h: int, w: int, g: Seq<Cell>, start: int)
    requires
        !covered(g, start),
    ensures
        region(h, w, g, start) == Set::<int>::empty(),
        opened(h, w, g, start) == g,
{
    assert forall|p: int| !reached(h, w, g, start, p) by {
        if reached(h, w, g, start, p) {
            lemma_reached_covered(h, w, g, start, p);
        }
    }
}

/// A click on a square that is open already is answered as often as it is made with the same
/// grid, the same count of cells not open, and the same outcome.
pub proof fn lemma_reveal_open_again(
    conf: GameConfig,
    g: Seq<Cell>,
    start: int,
    left: int,
    out: Seq<Cell>,
    left_out: int,
    outcome: RevealOutcome,
)
    requires
        0 <= start < g.len(),
        g[start].surface == Surface::Open,
        revealed(conf, start, g, left, out, left_out, outcome),
    ensures
        out == g,
        left_out == left,
        outcome != RevealOutcome::BombHit,
        revealed(conf, start, out, left_out, out, left_out, outcome),
{
    lemma_not_covered_opens_nothing(conf.height as int, conf.width as int, g, start);
}

/// Next to an open square with no bomb around it, nothing is covered. This holds of a new
/// board, and clicks and new flags keep it; only a flag taken away can leave a covered
/// square next to such a square.
pub open spec fn settled(h: int, w: int, g: Seq<Cell>) -> bool {
    forall|p: int, r: int|
        #![trigger adjacent(h, w, p, r)]
        0 <= p < g.len() && g[p].surface == Surface::Open && g[p].content == Content::Zero
            && adjacent(h, w, p, r) && 0 <= r < g.len() ==> g[r].surface != Surface::Cover
}

/// A grid with no open square is settled.
pub proof fn lemma_settled_at_first(h: int, w: int, g: Seq<Cell>)
    requires
        forall|p: int| 0 <= p < g.len() ==> (#[trigger] g[p]).surface != Surface::Open,
    ensures
        settled(h, w, g),
{
}

/// A flag put on a covered cell keeps a grid settled.
pub proof fn lemma_settled_flagged(h: int, w: int, g: Seq<Cell>, at: int, flags: int, bomb: int)
    requires
        settled(h, w, g),
        0 <= at < g.len(),
        g[at].surface == Surface::Cover,
    ensures
        settled(h, w, g.update(at, toggled(g[at], flags, bomb))),
{
}

/// A click keeps a grid settled.
pub proof fn lemma_settled_kept(h: int, w: int, g: Seq<Cell>, start: int)
    requires
        settled(h, w, g),
    ensures
        settled(h, w, opened(h, w, g, start)),
{
    let out = opened(h, w, g, start);
    assert forall|p: int, r: int|
        #![trigger adjacent(h, w, p, r)]
        0 <= p < out.len() && out[p].surface == Surface::Open && out[p].content == Content::Zero
            && adjacent(h, w, p, r) && 0 <= r < out.len() implies out[r].surface
        != Surface::Cover by {
        if out[r].surface == Surface::Cover {
            if reached(h, w, g, start, p) {
                lemma_reach_step(h, w, g, start, p, r);
            }
        }
    }
}

/// On a settled grid, a click on a square with no bomb around it opens every square that a
/// chain of such squares, none of them flagged, joins to it, and every covered square next
/// to one of them.
pub proof fn lemma_zero_region_opened(h: int, w: int, g: Seq<Cell>, c: Seq<int>, r: int)
    requires
        settled(h, w, g),
        c.len() > 0,
        forall|i: int|
            0 <= i < c.len() ==> 0 <= #[trigger] c[i] < g.len() && g[c[i]].content
                == Content::Zero && g[c[i]].surface != Surface::Flag,
        forall|i: int| 0 <= i < c.len() - 1 ==> adjacent(h, w, #[trigger] c[i], c[i + 1]),
        adjacent(h, w, c.last(), r),
        covered(g, r),
    ensures
        forall|i: int|
            0 <= i < c.len() ==> (#[trigger] opened(h, w, g, c[0])[c[i]]).surface
                == Surface::Open,
        opened(h, w, g, c[0])[r].surface == Surface::Open,
{
    let out = opened(h, w, g, c[0]);
    assert forall|i: int| 0 <= i < c.len() implies (#[trigger] out[c[i]]).surface
        == Surface::Open by {
        lemma_chain_square_opened(h, w, g, c, i);
    }
    let last = c.len() - 1;
    lemma_chain_square_opened(h, w, g, c, last);
    if reached(h, w, g, c[0], c[last]) {
        lemma_reach_step(h, w, g, c[0], c[last], r);
    }
}

/// On a settled grid, the click on the first square of a chain of squares with no bomb around
/// them, none of them flagged, opens the square `i` of the chain.
proof fn lemma_chain_square_opened(h: int, w: int, g: Seq<Cell>, c: Seq<int>, i: int)
    requires
        settled(h, w, g),
        forall|k: int|
            0 <= k < c.len() ==> 0 <= #[trigger] c[k] < g.len() && g[c[k]].content
                == Content::Zero && g[c[k]].surface != Surface::Flag,
        forall|k: int| 0 <= k < c.len() - 1 ==> adjacent(h, w, #[trigger] c[k], c[k + 1]),
        0 <= i < c.len(),
    ensures
        opened(h, w, g, c[0])[c[i]].surface == Surface::Open,
        g[c[i]].surface == Surface::Open || reached(h, w, g, c[0], c[i]),
    decreases i,
{
    if i == 0 {
        if covered(g, c[0]) {
            lemma_reach_self(h, w, g, c[0]);
        }
    } else {
        lemma_chain_square_opened(h, w, g, c, i - 1);
        let p = c[i - 1];
        if covered(g, c[i]) {
            if reached(h, w, g, c[0], p) {
                lemma_reach_step(h, w, g, c[0], p, c[i]);
            }
        }
    }
}

/// Unless a bomb was hit, the game is won exactly when as many cells are left unopened as
/// there are bombs.
pub proof fn lemma_all_clear(before: Cell, left: int, bomb: int)
    ensures
        outcome_of(before, left, bomb) == RevealOutcome::BombHit <==> before.surface
            == Surface::Cover && before.content == Content::Bomb,
        outcome_of(before, left, bomb) != RevealOutcome::BombHit ==> (outcome_of(
            before,
            left,
            bomb,
        ) == RevealOutcome::AllClear <==> left == bomb),
{
}

/// A click on a covered bomb is reported as a hit; it opens the bomb and nothing else, and
/// takes one off the count of cells not open.
pub proof fn lemma_bomb_hit(
    conf: GameConfig,
    g: Seq<Cell>,
    start: int,
    left: int,
    out: Seq<Cell>,
    left_out: int,
    outcome: RevealOutcome,
)
    requires
        covered(g, start),
        g[start].content == Content::Bomb,
        revealed(conf, start, g, left, out, left_out, outcome),
    ensures
        outcome == RevealOutcome::BombHit,
        left_out == left - 1,
        out == g.update(start, Cell { content: Content::Bomb, surface: Surface::Open }),
{
    lemma_fill_single(conf.height as int, conf.width as int, g, start);
}

/// A flag key never takes the number of placed flags out of the range from none to the
/// number of bombs.
pub proof fn lemma_flags_in_budget(c: Cell, flags: int, bomb: int)
    requires
        0 <= flags <= bomb,
    ensures
        0 <= flags_after(c, flags, bomb) <= bomb,
{
}

/// Two flag keys on a covered cell leave the cell covered and the number of placed flags as
/// it was.
pub proof fn lemma_flag_twice(c: Cell, flags: int, bomb: int)
    requires
        c.surface == Surface::Cover,
        0 <= flags <= bomb,
    ensures
        toggled(toggled(c, flags, bomb), flags_after(c, flags, bomb), bomb) == c,
        flags_after(toggled(c, flags, bomb), flags_after(c, flags, bomb), bomb) == flags,
{
}

/// With no flag left to place, a flag key on a covered cell is refused: the cell and the
/// number of placed flags stay.
pub proof fn lemma_flag_refused(c: Cell, bomb: int)
    requires
        c.surface == Surface::Cover,
    ensures
        !flag_moves(c, bomb, bomb),
        toggled(c, bomb, bomb) == c,
        flags_after(c, bomb, bomb) == bomb,
{
}

/// While no bomb has been opened, as many cells are left unopened as there are bombs exactly
/// when every cell without a bomb is open.
pub proof fn lemma_win_condition(g: Seq<Cell>)
    requires
        forall|p: int|
            0 <= p < g.len() && g[p].content == Content::Bomb ==> (#[trigger] g[p]).surface
                != Surface::Open,
    ensures
        unopened(g).len() == bombs(mines(g)) <==> forall|p: int|
            0 <= p < g.len() && g[p].content != Content::Bomb ==> (#[trigger] g[p]).surface
                == Surface::Open,
{
    lemma_bombs_as_set(g, g.len() as int);
    assert(g.take(g.len() as int) =~= g);
    lemma_unopened_finite(g);
    let b = bomb_squares(g);
    let u = unopened(g);
    if u.len() == b.len() {
        lemma_subset_equality(b, u);
        assert forall|p: int| 0 <= p < g.len() && g[p].content != Content::Bomb implies (
        #[trigger] g[p]).surface == Surface::Open by {
            assert(!b.contains(p));
        }
    }
    if forall|p: int|
        0 <= p < g.len() && g[p].content != Content::Bomb ==> (#[trigger] g[p]).surface
            == Surface::Open {
        assert(u =~= b);
    }
}

/// In a game that goes on after its first click, on a board that was asked to hold a bomb at
/// least, as many cells are left unopened as the board has bombs exactly when every cell
/// without a bomb is open.
pub proof fn lemma_game_cleared(game: Game)
    requires
        game.sound(),
        !game.fresh(),
        !game.over(),
        game.conf().bomb >= 1,
    ensures
        game.left() == game.conf().bomb <==> forall|p: int|
            0 <= p < game.grid().len() && game.grid()[p].content != Content::Bomb ==> (
            #[trigger] game.grid()[p]).surface == Surface::Open,
{
    lemma_win_condition(game.grid());
}

} // verus!
