use queues::Queue;
use rand::rngs::ThreadRng;
use vstd::prelude::*;
use vstd::string::*;
use crate::around::{adjacent, around, check_around_fn, lemma_around};
use crate::board::{board_of, bombs, counts_ok, mines};
use crate::config::GameConfig;
use crate::draw::Pos;
use crate::fifo::{queue_add, queue_new, queue_remove, queue_size, waiting};
use crate::fill::{
    covered, done, fill_work, filling, lemma_done_in_region, lemma_fill_begins, lemma_fill_ends,
    lemma_fill_opens, lemma_fill_single, lemma_fill_skips, lemma_reached_bomb_is_start, opened,
    region,
};
use crate::layout::{
    balanced, binary_random, lay_map, lemma_board_of, lemma_bombs_all, lemma_safe_layout, marked,
    placed, safe_layout, BOMB,
};
use crate::paint::{bg_code, bg_red, fg, fg_code, reset, reset_code, Tint};

verus! {

/// What lies under a cell: the number of bombs around it, or a bomb.
#[derive(Clone, Copy, Debug, PartialEq, Eq, Structural)]
pub enum Content {
    Zero,
    One,
    Two,
    Three,
    Four,
    Five,
    Six,
    Seven,
    Eight,
    Bomb,
}

/// What the player sees of a cell.
#[derive(Clone, Copy, Debug, PartialEq, Eq, Structural)]
pub enum Surface {
    Cover,
    Open,
    Flag,
}

/// One square of the board.
#[derive(Clone, Copy, Debug, PartialEq, Eq, Structural)]
pub struct Cell {
    pub content: Content,
    pub surface: Surface,
}

/// The content that stands for a count of bombs; every count outside 0..=8 is a bomb.
pub open spec fn content_of(num: int) -> Content {
    if num == 0 {
        Content::Zero
    } else if num == 1 {
        Content::One
    } else if num == 2 {
        Content::Two
    } else if num == 3 {
        Content::Three
    } else if num == 4 {
        Content::Four
    } else if num == 5 {
        Content::Five
    } else if num == 6 {
        Content::Six
    } else if num == 7 {
        Content::Seven
    } else if num == 8 {
        Content::Eight
    } else {
        Content::Bomb
    }
}

impl Content {
    pub fn from_i8(num: i8) -> (c: Content)
        ensures
            c == content_of(num as int),
    {
        match num {
            0 => Content::Zero,
            1 => Content::One,
            2 => Content::Two,
            3 => Content::Three,
            4 => Content::Four,
            5 => Content::Five,
            6 => Content::Six,
            7 => Content::Seven,
            8 => Content::Eight,
            _ => Content::Bomb,
        }
    }
}

/// The colour that a count is shown in; an empty square and a bomb have none of their own.
pub open spec fn tint_of(c: Content) -> Tint {
    match c {
        Content::One => Tint::LightBlue,
        Content::Two => Tint::LightGreen,
        Content::Three => Tint::LightRed,
        Content::Four => Tint::Magenta,
        Content::Five => Tint::Red,
        Content::Six => Tint::Green,
        Content::Seven => Tint::Blue,
        Content::Eight => Tint::Cyan,
        _ => Tint::Black,
    }
}

/// The digit that a count is shown as.
pub open spec fn digit_of(c: Content) -> char {
    match c {
        Content::One => '1',
        Content::Two => '2',
        Content::Three => '3',
        Content::Four => '4',
        Content::Five => '5',
        Content::Six => '6',
        Content::Seven => '7',
        Content::Eight => '8',
        _ => ' ',
    }
}

/// What is drawn for a content: a blank for an empty square, a coloured digit for a count, a
/// black star on red for a bomb.
pub open spec fn content_symbol(c: Content) -> Seq<char> {
    match c {
        Content::Zero => seq![' '],
        Content::Bomb => fg_code(Tint::Black) + bg_code(Tint::Red) + seq!['*'] + reset_code(),
        _ => fg_code(tint_of(c)) + seq![digit_of(c)] + reset_code(),
    }
}

/// What is drawn for a surface: a shaded block for a cover, a yellow `P` for a flag, a blank
/// for an open square.
pub open spec fn surface_symbol(s: Surface) -> Seq<char> {
    match s {
        Surface::Cover => seq!['\u{2593}'],
        Surface::Flag => fg_code(Tint::Yellow) + seq!['P'] + reset_code(),
        Surface::Open => seq![' '],
    }
}

/// What is drawn for a cell: its content once it is open, its surface until then.
pub open spec fn cell_symbol(c: Cell) -> Seq<char> {
    if c.surface == Surface::Open {
        content_symbol(c.content)
    } else {
        surface_symbol(c.surface)
    }
}

/// A digit in the given colour.
fn painted(tint: Tint, glyph: &str) -> (s: String)
    ensures
        s@ == fg_code(tint) + glyph@ + reset_code(),
{
    let r = reset();
    fg(tint).concat(glyph).concat(r.as_str())
}

impl Surface {
    pub fn to_string(&self) -> (s: String)
        ensures
            s@ == surface_symbol(*self),
    {
        proof {
            reveal_strlit("\u{2593}");
            reveal_strlit("P");
            reveal_strlit(" ");
        }
        match self {
            Surface::Cover => String::from_str("\u{2593}"),
            Surface::Flag => painted(Tint::Yellow, "P"),
            _ => String::from_str(" "),
        }
    }
}

impl Content {
    pub fn to_string(&self) -> (s: String)
        ensures
            s@ == content_symbol(*self),
    {
        proof {
            reveal_strlit(" ");
            reveal_strlit("1");
            reveal_strlit("2");
            reveal_strlit("3");
            reveal_strlit("4");
            reveal_strlit("5");
            reveal_strlit("6");
            reveal_strlit("7");
            reveal_strlit("8");
            reveal_strlit("*");
        }
        match self {
            Content::Zero => String::from_str(" "),
            Content::One => painted(Tint::LightBlue, "1"),
            Content::Two => painted(Tint::LightGreen, "2"),
            Content::Three => painted(Tint::LightRed, "3"),
            Content::Four => painted(Tint::Magenta, "4"),
            Content::Five => painted(Tint::Red, "5"),
            Content::Six => painted(Tint::Green, "6"),
            Content::Seven => painted(Tint::Blue, "7"),
            Content::Eight => painted(Tint::Cyan, "8"),
            Content::Bomb => {
                let b = bg_red();
                let r = reset();
                fg(Tint::Black).concat(b.as_str()).concat("*").concat(r.as_str())
            },
        }
    }
}

impl Cell {
    pub fn new(content: Content, surface: Surface) -> (c: Cell)
        ensures
            c.content == content,
            c.surface == surface,
    {
        Cell { content, surface }
    }

    pub fn get_content_symbol(&self) -> (s: String)
        ensures
            s@ == content_symbol(self.content),
    {
        self.content.to_string()
    }

    pub fn get_surface_symbol(&self) -> (s: String)
        ensures
            s@ == surface_symbol(self.surface),
    {
        self.surface.to_string()
    }

    pub fn to_string(&self) -> (s: String)
        ensures
            s@ == cell_symbol(*self),
    {
        match self.surface {
            Surface::Open => self.content.to_string(),
            _ => self.surface.to_string(),
        }
    }
}

/// The grid index of the square under the cursor at `now_at`, on a board whose upper left
/// square is drawn at `init_at`.
pub open spec fn cell_at(init_at: Pos, now_at: Pos, width: int) -> int {
    (now_at.1 - init_at.1) * width + (now_at.0 - init_at.0)
}

/// The cursor is not above or left of the board's upper left square.
pub open spec fn on_board(init_at: Pos, now_at: Pos) -> bool {
    init_at.0 <= now_at.0 && init_at.1 <= now_at.1
}

pub fn cell_index(init_at: &Pos, now_at: &Pos, conf: &GameConfig) -> (pos: usize)
    requires
        on_board(*init_at, *now_at),
        cell_at(*init_at, *now_at, conf.width as int) <= usize::MAX,
    ensures
        pos == cell_at(*init_at, *now_at, conf.width as int),
{
    let row = (now_at.1 - init_at.1) as usize;
    let col = (now_at.0 - init_at.0) as usize;
    assert(0 <= row * conf.width) by (nonlinear_arith)
        requires
            0 <= row,
            0 <= conf.width,
    ;
    row * conf.width + col
}

/// Why no board can be made.
#[derive(Clone, Copy, Debug, PartialEq, Eq, Structural)]
pub enum GenError {
    /// The bombs to lay would leave no square free.
    InvalidConfig,
}

/// A new board for `conf` whose square `first` is free of a bomb.
fn gen_at(first: usize, conf: &GameConfig, rng: &mut ThreadRng) -> (out: Vec<Cell>)
    requires
        conf.size() <= usize::MAX,
        first < conf.size(),
        placed(conf.bomb as int) < conf.size(),
    ensures
        fresh_board(*conf, first as int, out@),
{
    let size = conf.get_size();
    let mut map: Vec<i8> = vec![0i8; size];
    binary_random(rng, conf.bomb, &mut map, 0, size);
    proof {
        let m = marked(map@);
        if forall|i: int| 0 <= i < map.len() ==> map[i] == BOMB {
            lemma_bombs_all(m, 0, size as int);
        }
    }
    let out = lay_map(first, conf, map);
    proof {
        let h = conf.height as int;
        let w = conf.width as int;
        let m = marked(map@);
        assert(w > 0) by (nonlinear_arith)
            requires
                h * w > 0,
                h >= 0,
        ;
        lemma_safe_layout(m, first as int);
        lemma_board_of(h, w, safe_layout(m, first as int));
        assert(laid(*conf, first as int, m, out@));
    }
    out
}

/// Grid `g` is the board of the layout `m`, once the layout is made safe for a first click
/// on `first`, and `m` has its bombs laid by halves over the whole board.
pub open spec fn laid(conf: GameConfig, first: int, m: Seq<bool>, g: Seq<Cell>) -> bool {
    &&& m.len() == conf.size()
    &&& balanced(m, conf.bomb as int, 0, conf.size())
    &&& g == board_of(conf.height as int, conf.width as int, safe_layout(m, first))
}

/// What holds of every board that generation returns, wherever the bombs fell: it is the
/// board of a layout with its bombs laid by halves, made safe for the first click. So it has
/// one covered cell for each square, as many bombs as placement lays, none of them on the
/// square of the first click, and on every other square the number of bombs around it.
pub open spec fn fresh_board(conf: GameConfig, first: int, g: Seq<Cell>) -> bool {
    &&& exists|m: Seq<bool>| #[trigger] laid(conf, first, m, g)
    &&& g.len() == conf.size()
    &&& forall|p: int| 0 <= p < g.len() ==> (#[trigger] g[p]).surface == Surface::Cover
    &&& counts_ok(conf.height as int, conf.width as int, g)
    &&& bombs(mines(g)) == placed(conf.bomb as int)
    &&& 0 <= first < g.len()
    &&& g[first].content != Content::Bomb
}

/// Generate a random map with a specific position and game configs.
pub fn gen_map(init_at: &Pos, now_at: &Pos, conf: &GameConfig, rng: &mut ThreadRng) -> (out: Vec<
    Cell,
>)
    requires
        conf.size() <= usize::MAX,
        on_board(*init_at, *now_at),
        cell_at(*init_at, *now_at, conf.width as int) < conf.size(),
        placed(conf.bomb as int) < conf.size(),
    ensures
        fresh_board(*conf, cell_at(*init_at, *now_at, conf.width as int), out@),
{
    let init_pos = cell_index(init_at, now_at, conf);
    gen_at(init_pos, conf, rng)
}

/// A new board for `conf` whose square `first` is free of a bomb, or the reason why there is
/// none: the bombs to lay would cover every square.
pub fn generate(conf: &GameConfig, first: usize, rng: &mut ThreadRng) -> (res: Result<
    Vec<Cell>,
    GenError,
>)
    requires
        conf.size() <= usize::MAX,
        placed(conf.bomb as int) < conf.size() ==> first < conf.size(),
    ensures
        res is Err <==> placed(conf.bomb as int) >= conf.size(),
        res matches Ok(g) ==> fresh_board(*conf, first as int, g@),
        res matches Err(e) ==> e == GenError::InvalidConfig,
{
    let size = conf.get_size();
    if conf.bomb >= size || size <= 1 {
        return Err(GenError::InvalidConfig);
    }
    Ok(gen_at(first, conf, rng))
}

/// Puts the covered squares around `one` at the end of the queue, in the order of the
/// directions.
fn enqueue_covered(conf: &GameConfig, map: &Vec<Cell>, one: usize, queue: &mut Queue<usize>)
    requires
        conf.width > 0,
        map.len() == conf.size(),
        conf.size() <= usize::MAX,
        one < map.len(),
    ensures
        waiting(*old(queue)).len() <= waiting(*final(queue)).len(),
        waiting(*final(queue)).len() <= waiting(*old(queue)).len() + 8,
        forall|i: int|
            0 <= i < waiting(*old(queue)).len() ==> waiting(*final(queue))[i] == waiting(
                *old(queue),
            )[i],
        forall|i: int|
            waiting(*old(queue)).len() <= i < waiting(*final(queue)).len() ==> adjacent(
                conf.height as int,
                conf.width as int,
                one as int,
                #[trigger] waiting(*final(queue))[i] as int,
            ) && covered(map@, waiting(*final(queue))[i] as int),
        forall|r: usize|
            #![trigger adjacent(conf.height as int, conf.width as int, one as int, r as int)]
            adjacent(conf.height as int, conf.width as int, one as int, r as int) && covered(
                map@,
                r as int,
            ) ==> waiting(*final(queue)).contains(r),
{
    let ghost h = conf.height as int;
    let ghost w = conf.width as int;
    let ghost before = waiting(*queue);
    let nb = check_around_fn(conf.height, conf.width, one);
    proof {
        lemma_around(h, w, one as int);
    }
    let mut j: usize = 0;
    while j < nb.len()
        invariant
            j <= nb.len() <= 8,
            map.len() == h * w,
            nb@ == around(h, w, one as int),
            forall|q: usize| #[trigger] nb@.contains(q) <==> adjacent(h, w, one as int, q as int),
            before.len() <= waiting(*queue).len() <= before.len() + j,
            forall|i: int| 0 <= i < before.len() ==> waiting(*queue)[i] == before[i],
            forall|i: int|
                before.len() <= i < waiting(*queue).len() ==> nb@.contains(
                    #[trigger] waiting(*queue)[i],
                ) && covered(map@, waiting(*queue)[i] as int),
            forall|i: int|
                0 <= i < j && covered(map@, #[trigger] nb@[i] as int) ==> waiting(*queue).contains(
                    nb@[i],
                ),
        decreases nb.len() - j,
    {
        let pos = nb[j];
        let ghost was = waiting(*queue);
        proof {
            assert(nb@.contains(pos));
        }
        if map[pos].surface == Surface::Cover {
            queue_add(queue, pos);
            proof {
                let now = waiting(*queue);
                assert(now[was.len() as int] == pos);
                assert forall|i: int|
                    0 <= i < j && covered(map@, #[trigger] nb@[i] as int) implies now.contains(
                    nb@[i],
                ) by {
                    let k = choose|k: int| 0 <= k < was.len() && was[k] == nb@[i];
                    assert(now[k] == nb@[i]);
                }
            }
        }
        j += 1;
    }
    proof {
        let now = waiting(*queue);
        assert forall|r: usize|
            #![trigger adjacent(h, w, one as int, r as int)]
            adjacent(h, w, one as int, r as int) && covered(map@, r as int) implies now.contains(
            r,
        ) by {
            assert(nb@.contains(r));
            let i = choose|i: int| 0 <= i < nb@.len() && nb@[i] == r;
        }
    }
}

/// Open one cell in a specific position.
///
/// A covered square under the cursor is opened, and from a square with no bomb around it the
/// opening spreads to the covered neighbours, and on from those that have none around them
/// either. `left_cover` goes down by one for each square opened. A square that is open or
/// flagged stays as it is.
pub fn mine_map(
    init_at: &Pos,
    now_at: &Pos,
    conf: &GameConfig,
    map: Vec<Cell>,
    left_cover: &mut usize,
) -> (out: Vec<Cell>)
    requires
        counts_ok(conf.height as int, conf.width as int, map@),
        on_board(*init_at, *now_at),
        cell_at(*init_at, *now_at, conf.width as int) < map.len(),
        region(
            conf.height as int,
            conf.width as int,
            map@,
            cell_at(*init_at, *now_at, conf.width as int),
        ).len() <= *old(left_cover),
    ensures
        out@ == opened(
            conf.height as int,
            conf.width as int,
            map@,
            cell_at(*init_at, *now_at, conf.width as int),
        ),
        *final(left_cover) == *old(left_cover) - region(
            conf.height as int,
            conf.width as int,
            map@,
            cell_at(*init_at, *now_at, conf.width as int),
        ).len(),
{
    let pos = cell_index(init_at, now_at, conf);
    let ghost h = conf.height as int;
    let ghost w = conf.width as int;
    let ghost g = map@;
    let ghost start = pos as int;
    let ghost budget = *left_cover as int;
    let mut grid = map;
    let mut queue = queue_new();
    queue_add(&mut queue, pos);
    proof {
        lemma_fill_begins(h, w, g, pos);
        lemma_done_in_region(h, w, g, start, g, seq![pos]);
        assert(done(g, g) =~= Set::<int>::empty());
    }
    while queue_size(&queue) > 0
        invariant
            w > 0,
            h == conf.height,
            w == conf.width,
            h * w <= usize::MAX,
            g == map@,
            counts_ok(h, w, g),
            start == pos,
            start == cell_at(*init_at, *now_at, conf.width as int),
            budget == *old(left_cover),
            region(h, w, g, start).len() <= budget,
            filling(h, w, g, start, grid@, waiting(queue)),
            done(g, grid@).finite(),
            *left_cover == budget - done(g, grid@).len(),
        decreases fill_work(h, w, g, start, grid@, waiting(queue)),
    {
        let ghost cur = grid@;
        let ghost q = waiting(queue);
        proof {
            lemma_done_in_region(h, w, g, start, cur, q);
        }
        let one = match queue_remove(&mut queue) {
            Some(v) => v,
            // Never taken: something waited.
            None => {
                return grid;
            },
        };
        let cell = grid[one];
        if cell.surface == Surface::Cover {
            grid[one] = Cell { content: cell.content, surface: Surface::Open };
            if cell.content == Content::Zero {
                enqueue_covered(conf, &grid, one, &mut queue);
            }
            proof {
                lemma_fill_opens(h, w, g, start, cur, q, grid@, waiting(queue));
                lemma_done_in_region(h, w, g, start, grid@, waiting(queue));
            }
            *left_cover -= 1;
            if cell.content == Content::Bomb {
                proof {
                    lemma_reached_bomb_is_start(h, w, g, start, one as int);
                    lemma_fill_single(h, w, g, start);
                }
                return grid;
            }
        } else {
            proof {
                lemma_fill_skips(h, w, g, start, cur, q);
            }
        }
    }
    proof {
        lemma_fill_ends(h, w, g, start, grid@);
    }
    grid
}

/// Whether a flag key changes a cell: never an open one, a covered one while flags are left
/// (fewer placed than there are bombs), a flagged one while any flag is counted as placed.
pub open spec fn flag_moves(c: Cell, flags: int, bomb: int) -> bool {
    match c.surface {
        Surface::Open => false,
        Surface::Cover => flags != bomb,
        Surface::Flag => flags != 0,
    }
}

/// The cell after a flag key: where it changes, a covered cell gets a flag and a flagged one
/// loses it.
pub open spec fn toggled(c: Cell, flags: int, bomb: int) -> Cell {
    if flag_moves(c, flags, bomb) {
        Cell {
            content: c.content,
            surface: if c.surface == Surface::Cover {
                Surface::Flag
            } else {
                Surface::Cover
            },
        }
    } else {
        c
    }
}

/// The number of flags placed after a flag key on a cell.
pub open spec fn flags_after(c: Cell, flags: int, bomb: int) -> int {
    if !flag_moves(c, flags, bomb) {
        flags
    } else if c.surface == Surface::Cover {
        flags + 1
    } else {
        flags - 1
    }
}

/// Put a flag on specific position.
///
/// Returns the grid, and whether the cell under the cursor changed.
pub fn flag_map(
    init_at: &Pos,
    now_at: &Pos,
    conf: &GameConfig,
    map: Vec<Cell>,
    flag_num: &mut usize,
) -> (res: (Vec<Cell>, bool))
    requires
        on_board(*init_at, *now_at),
        cell_at(*init_at, *now_at, conf.width as int) < map.len(),
        *old(flag_num) <= conf.bomb,
    ensures
        res.0@ == map@.update(
            cell_at(*init_at, *now_at, conf.width as int),
            toggled(
                map[cell_at(*init_at, *now_at, conf.width as int)],
                *old(flag_num) as int,
                conf.bomb as int,
            ),
        ),
        res.1 == flag_moves(
            map[cell_at(*init_at, *now_at, conf.width as int)],
            *old(flag_num) as int,
            conf.bomb as int,
        ),
        *final(flag_num) == flags_after(
            map[cell_at(*init_at, *now_at, conf.width as int)],
            *old(flag_num) as int,
            conf.bomb as int,
        ),
        *final(flag_num) <= conf.bomb,
{
    let pos = cell_index(init_at, now_at, conf);
    let mut grid = map;
    let cell = grid[pos];
    match cell.surface {
        Surface::Open => {
            (grid, false)
        },
        Surface::Cover => {
            if *flag_num == conf.bomb {
                return (grid, false);
            }
            *flag_num += 1;
            grid[pos] = Cell { content: cell.content, surface: Surface::Flag };
            (grid, true)
        },
        Surface::Flag => {
            if *flag_num == 0 {
                return (grid, false);
            }
            *flag_num -= 1;
            grid[pos] = Cell { content: cell.content, surface: Surface::Cover };
            (grid, true)
        },
    }
}

} // verus!
