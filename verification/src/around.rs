use vstd::prelude::*;
use vstd::arithmetic::div_mod::lemma_fundamental_div_mod;
use vstd::arithmetic::div_mod::lemma_fundamental_div_mod_converse;

verus! {

/// Two distinct squares of an `h` by `w` board, stored row by row, that touch by a side or a
/// corner.
pub open spec fn adjacent(h: int, w: int, a: int, b: int) -> bool {
    &&& w > 0
    &&& 0 <= a < h * w
    &&& 0 <= b < h * w
    &&& a != b
    &&& -1 <= a / w - b / w <= 1
    &&& -1 <= a % w - b % w <= 1
}

/// Row offset of the `d`-th of the eight directions, which run row by row from the upper left.
pub open spec fn dir_row(d: int) -> int {
    if d < 3 {
        -1
    } else if d < 5 {
        0
    } else {
        1
    }
}

/// Column offset of the `d`-th direction.
pub open spec fn dir_col(d: int) -> int {
    if d == 0 || d == 3 || d == 5 {
        -1
    } else if d == 1 || d == 6 {
        0
    } else {
        1
    }
}

/// The square one step from `pos` in direction `d`, if the board has one there.
pub open spec fn toward(h: int, w: int, pos: int, d: int) -> Option<int> {
    let r = pos / w + dir_row(d);
    let c = pos % w + dir_col(d);
    if 0 <= r < h && 0 <= c < w {
        Some(r * w + c)
    } else {
        None
    }
}

/// The squares reached from `pos` by the first `d` directions, in that order.
pub open spec fn around_upto(h: int, w: int, pos: int, d: int) -> Seq<usize>
    decreases d,
{
    if d <= 0 {
        Seq::empty()
    } else {
        let rest = around_upto(h, w, pos, d - 1);
        match toward(h, w, pos, d - 1) {
            Some(q) => rest.push(q as usize),
            None => rest,
        }
    }
}

/// The neighbours of `pos`: up to eight squares, clipped to the board.
pub open spec fn around(h: int, w: int, pos: int) -> Seq<usize> {
    around_upto(h, w, pos, 8)
}

/// A step in a direction changes the row and the column by that direction's offsets.
pub proof fn lemma_toward(h: int, w: int, pos: int, d: int)
    requires
        w > 0,
        0 <= d < 8,
        toward(h, w, pos, d) is Some,
    ensures
        0 <= toward(h, w, pos, d).unwrap() < h * w,
        toward(h, w, pos, d).unwrap() / w == pos / w + dir_row(d),
        toward(h, w, pos, d).unwrap() % w == pos % w + dir_col(d),
{
    let r = pos / w + dir_row(d);
    let c = pos % w + dir_col(d);
    lemma_fundamental_div_mod_converse(r * w + c, w, r, c);
    assert(r * w + c < h * w) by (nonlinear_arith)
        requires
            0 <= r < h,
            0 <= c < w,
    ;
    assert(0 <= r * w + c) by (nonlinear_arith)
        requires
            0 <= r,
            0 <= c,
            0 < w,
    ;
}

/// What the first `d` directions reach: each square once, and only squares that a direction
/// below `d` leads to.
pub proof fn lemma_around_upto(h: int, w: int, pos: int, d: int)
    requires
        w > 0,
        h * w <= usize::MAX,
        0 <= d <= 8,
    ensures
        around_upto(h, w, pos, d).len() <= d,
        around_upto(h, w, pos, d).no_duplicates(),
        forall|q: usize| #[trigger]
            around_upto(h, w, pos, d).contains(q) <==> exists|e: int|
                0 <= e < d && #[trigger] toward(h, w, pos, e) == Some(q as int),
    decreases d,
{
    if d > 0 {
        lemma_around_upto(h, w, pos, d - 1);
        let rest = around_upto(h, w, pos, d - 1);
        let all = around_upto(h, w, pos, d);
        match toward(h, w, pos, d - 1) {
            Some(t) => {
                lemma_toward(h, w, pos, d - 1);
                assert(!rest.contains(t as usize)) by {
                    if rest.contains(t as usize) {
                        let e = choose|e: int|
                            0 <= e < d - 1 && #[trigger] toward(h, w, pos, e) == Some(t);
                        lemma_toward(h, w, pos, e);
                    }
                }
                assert forall|i: int, j: int| 0 <= i < all.len() && 0 <= j < all.len() && i != j
                    implies all[i] != all[j] by {
                    if i == all.len() - 1 {
                        assert(rest.contains(rest[j]));
                    }
                    if j == all.len() - 1 {
                        assert(rest.contains(rest[i]));
                    }
                }
                assert forall|q: usize| #[trigger]
                    all.contains(q) <==> exists|e: int|
                        0 <= e < d && #[trigger] toward(h, w, pos, e) == Some(q as int) by {
                    if all.contains(q) {
                        let i = choose|i: int| 0 <= i < all.len() && all[i] == q;
                        if i < rest.len() {
                            assert(rest.contains(rest[i]));
                            let e = choose|e: int|
                                0 <= e < d - 1 && #[trigger] toward(h, w, pos, e) == Some(
                                    q as int,
                                );
                            assert(0 <= e < d && toward(h, w, pos, e) == Some(q as int));
                        } else {
                            assert(toward(h, w, pos, d - 1) == Some(q as int));
                        }
                    }
                    if exists|e: int|
                        0 <= e < d && #[trigger] toward(h, w, pos, e) == Some(q as int) {
                        let e = choose|e: int|
                            0 <= e < d && #[trigger] toward(h, w, pos, e) == Some(q as int);
                        if e < d - 1 {
                            assert(rest.contains(q));
                            let i = choose|i: int| 0 <= i < rest.len() && rest[i] == q;
                            assert(all[i] == q);
                        } else {
                            assert(all[all.len() - 1] == q);
                        }
                    }
                }
            },
            None => {
                assert forall|q: usize| #[trigger]
                    all.contains(q) <==> exists|e: int|
                        0 <= e < d && #[trigger] toward(h, w, pos, e) == Some(q as int) by {
                    if all.contains(q) {
                        let e = choose|e: int|
                            0 <= e < d - 1 && #[trigger] toward(h, w, pos, e) == Some(q as int);
                        assert(0 <= e < d && toward(h, w, pos, e) == Some(q as int));
                    }
                }
            },
        }
    }
}

/// The neighbours of a square are exactly the squares adjacent to it, each listed once.
pub proof fn lemma_around(h: int, w: int, pos: int)
    requires
        w > 0,
        h * w <= usize::MAX,
        0 <= pos < h * w,
    ensures
        around(h, w, pos).len() <= 8,
        around(h, w, pos).no_duplicates(),
        forall|q: usize| #[trigger]
            around(h, w, pos).contains(q) <==> adjacent(h, w, pos, q as int),
{
    lemma_around_upto(h, w, pos, 8);
    assert forall|q: usize| #[trigger]
        around(h, w, pos).contains(q) <==> adjacent(h, w, pos, q as int) by {
        if around(h, w, pos).contains(q) {
            let e = choose|e: int| 0 <= e < 8 && #[trigger] toward(h, w, pos, e) == Some(q as int);
            lemma_toward(h, w, pos, e);
        }
        if adjacent(h, w, pos, q as int) {
            let qi = q as int;
            let dr = qi / w - pos / w;
            let dc = qi % w - pos % w;
            let k = (dr + 1) * 3 + (dc + 1);
            let e = if k < 4 {
                k
            } else {
                k - 1
            };
            lemma_fundamental_div_mod(qi, w);
            lemma_fundamental_div_mod(pos, w);
            assert(dir_row(e) == dr && dir_col(e) == dc);
            assert(0 <= qi / w < h) by (nonlinear_arith)
                requires
                    0 <= qi < h * w,
                    w > 0,
            ;
            assert(toward(h, w, pos, e) == Some(qi));
        }
    }
}

/// Adjacency does not depend on which of the two squares is named first.
pub proof fn lemma_adjacent_symmetric(h: int, w: int, a: int, b: int)
    ensures
        adjacent(h, w, a, b) == adjacent(h, w, b, a),
{
}

/// `x` moved by `delta`, if that stays below `bound`.
fn nudge(x: usize, delta: i8, bound: usize) -> (res: Option<usize>)
    requires
        -1 <= delta <= 1,
    ensures
        res == if 0 <= x + delta < bound {
            Some((x + delta) as usize)
        } else {
            None::<usize>
        },
{
    if delta < 0 {
        if x >= 1 && x - 1 < bound {
            Some(x - 1)
        } else {
            None
        }
    } else if delta == 0 {
        if x < bound {
            Some(x)
        } else {
            None
        }
    } else {
        if x < bound && x + 1 < bound {
            Some(x + 1)
        } else {
            None
        }
    }
}

/// The row and column offsets of direction `d`.
fn direction(d: usize) -> (res: (i8, i8))
    requires
        d < 8,
    ensures
        res.0 == dir_row(d as int),
        res.1 == dir_col(d as int),
{
    let dr: i8 = if d < 3 {
        -1
    } else if d < 5 {
        0
    } else {
        1
    };
    let dc: i8 = if d == 0 || d == 3 || d == 5 {
        -1
    } else if d == 1 || d == 6 {
        0
    } else {
        1
    };
    (dr, dc)
}

/// Lists the squares around `pos` on an `h` by `w` board, row by row from the upper left.
pub fn check_around_fn(h: usize, w: usize, pos: usize) -> (out: Vec<usize>)
    requires
        w > 0,
        h * w <= usize::MAX,
    ensures
        out@ == around(h as int, w as int, pos as int),
{
    let r = pos / w;
    let c = pos % w;
    let mut out: Vec<usize> = Vec::new();
    let mut d: usize = 0;
    while d < 8
        invariant
            w > 0,
            h * w <= usize::MAX,
            r == pos / w,
            c == pos % w,
            d <= 8,
            out@ == around_upto(h as int, w as int, pos as int, d as int),
        decreases 8 - d,
    {
        let (dr, dc) = direction(d);
        match (nudge(r, dr, h), nudge(c, dc, w)) {
            (Some(a), Some(b)) => {
                assert(a * w + b < h * w) by (nonlinear_arith)
                    requires
                        a < h,
                        b < w,
                ;
                out.push(a * w + b);
            },
            _ => {},
        }
        d += 1;
    }
    out
}

} // verus!
