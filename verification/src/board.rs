use vstd::prelude::*;
use crate::around::{around, lemma_around};
use crate::map::{content_of, Cell, Content, Surface};

verus! {

/// Where the bombs of a grid lie.
pub open spec fn mines(g: Seq<Cell>) -> Seq<bool> {
    Seq::new(g.len(), |i: int| g[i].content == Content::Bomb)
}

/// The number of bombs on the squares `lo..hi`.
pub open spec fn bombs_between(m: Seq<bool>, lo: int, hi: int) -> nat
    decreases hi - lo,
{
    if hi <= lo {
        0
    } else {
        bombs_between(m, lo, hi - 1) + if m[hi - 1] {
            1nat
        } else {
            0nat
        }
    }
}

/// The number of bombs on the whole board.
pub open spec fn bombs(m: Seq<bool>) -> nat {
    bombs_between(m, 0, m.len() as int)
}

/// How many of the first `k` squares listed in `s` hold a bomb.
pub open spec fn hits(s: Seq<usize>, m: Seq<bool>, k: int) -> nat
    decreases k,
{
    if k <= 0 {
        0
    } else {
        hits(s, m, k - 1) + if 0 <= s[k - 1] < m.len() && m[s[k - 1] as int] {
            1nat
        } else {
            0nat
        }
    }
}

/// The number of bombs on the squares around `p`.
pub open spec fn bombs_near(h: int, w: int, m: Seq<bool>, p: int) -> nat {
    hits(around(h, w, p), m, around(h, w, p).len() as int)
}

/// The grid that a layout of bombs stands for: every square covered, a bomb where the layout
/// has one, and elsewhere the number of bombs around.
pub open spec fn board_of(h: int, w: int, m: Seq<bool>) -> Seq<Cell> {
    Seq::new(
        m.len(),
        |p: int|
            Cell {
                content: if m[p] {
                    Content::Bomb
                } else {
                    content_of(bombs_near(h, w, m, p) as int)
                },
                surface: Surface::Cover,
            },
    )
}

/// A grid of an `h` by `w` board on which every square without a bomb shows the number of
/// bombs around it.
pub open spec fn counts_ok(h: int, w: int, g: Seq<Cell>) -> bool {
    &&& w > 0
    &&& g.len() == h * w
    &&& forall|p: int|
        0 <= p < g.len() && g[p].content != Content::Bomb ==> #[trigger] g[p].content
            == content_of(bombs_near(h, w, mines(g), p) as int)
}

/// The layout with every bomb from square `n` on taken away.
pub open spec fn mines_below(m: Seq<bool>, n: int) -> Seq<bool> {
    Seq::new(m.len(), |i: int| i < n && m[i])
}

pub proof fn lemma_hits_bound(s: Seq<usize>, m: Seq<bool>, k: int)
    requires
        0 <= k,
    ensures
        hits(s, m, k) <= k,
    decreases k,
{
    if k > 0 {
        lemma_hits_bound(s, m, k - 1);
    }
}

/// No square has more than eight bombs around it.
pub proof fn lemma_bombs_near_bound(h: int, w: int, m: Seq<bool>, p: int)
    requires
        w > 0,
        h * w <= usize::MAX,
        0 <= p < h * w,
    ensures
        bombs_near(h, w, m, p) <= 8,
{
    lemma_around(h, w, p);
    lemma_hits_bound(around(h, w, p), m, around(h, w, p).len() as int);
}

/// One more bomb, on square `n`, is one more hit for a list that names `n`, and none for a
/// list that does not.
pub proof fn lemma_hits_step(s: Seq<usize>, m: Seq<bool>, n: usize, k: int)
    requires
        s.no_duplicates(),
        0 <= k <= s.len(),
        n < m.len(),
    ensures
        hits(s, mines_below(m, n + 1), k) == hits(s, mines_below(m, n as int), k) + if m[n as int]
            && s.take(k).contains(n) {
            1nat
        } else {
            0nat
        },
    decreases k,
{
    let t = s.take(k - 1);
    let u = s.take(k);
    if k > 0 {
        lemma_hits_step(s, m, n, k - 1);
        if t.contains(n) {
            let i = choose|i: int| 0 <= i < t.len() && t[i] == n;
        } else if s[k - 1] == n {
            assert(u[k - 1] == n);
        } else {
            if u.contains(n) {
                let i = choose|i: int| 0 <= i < u.len() && u[i] == n;
            }
        }
    }
}

/// With every bomb kept, the truncated layout is the layout itself.
pub proof fn lemma_mines_below_all(m: Seq<bool>)
    ensures
        mines_below(m, m.len() as int) == m,
{
}

/// The bombs of two adjoining stretches add up.
pub proof fn lemma_bombs_split(m: Seq<bool>, lo: int, mid: int, hi: int)
    requires
        lo <= mid <= hi,
    ensures
        bombs_between(m, lo, hi) == bombs_between(m, lo, mid) + bombs_between(m, mid, hi),
    decreases hi - mid,
{
    if mid < hi {
        lemma_bombs_split(m, lo, mid, hi - 1);
    }
}

/// Layouts that agree on a stretch hold the same number of bombs there.
pub proof fn lemma_bombs_same(a: Seq<bool>, b: Seq<bool>, lo: int, hi: int)
    requires
        forall|i: int| lo <= i < hi ==> a[i] == b[i],
    ensures
        bombs_between(a, lo, hi) == bombs_between(b, lo, hi),
    decreases hi - lo,
{
    if lo < hi {
        lemma_bombs_same(a, b, lo, hi - 1);
    }
}

/// A stretch holds no more bombs than squares, and as many only if every square has one.
pub proof fn lemma_bombs_bound(m: Seq<bool>, lo: int, hi: int)
    requires
        lo <= hi,
    ensures
        bombs_between(m, lo, hi) <= hi - lo,
        bombs_between(m, lo, hi) == hi - lo ==> forall|i: int| lo <= i < hi ==> m[i],
        bombs_between(m, lo, hi) == 0 <==> forall|i: int| lo <= i < hi ==> !m[i],
    decreases hi - lo,
{
    if lo < hi {
        lemma_bombs_bound(m, lo, hi - 1);
    }
}

} // verus!
