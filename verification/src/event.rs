use rand::rngs::ThreadRng;
use vstd::prelude::*;
use crate::around::around;
use crate::board::{bombs, bombs_near, counts_ok, mines};
use crate::config::{GameConfig, GameMode, GlobleConfig};
use crate::draw::{board_fits, padded, show_time_status, Glyph, Pos};
use crate::fill::{
    lemma_reached_bomb_is_start, lemma_reached_covered, lemma_region_finite,
    lemma_unopened_after, lemma_unopened_all, opened, reached, region, unopened,
};
use crate::layout::{lemma_hits_none, placed};
use crate::map::{
    cell_at, cell_index, content_of, flag_map, flag_moves, flags_after, fresh_board, gen_map,
    mine_map, on_board, toggled, Cell, Content, GenError, Surface,
};

verus! {

/// How the game stands after a click.
#[derive(Clone, Copy, Debug, PartialEq, Eq, Structural)]
pub enum RevealOutcome {
    /// The game goes on.
    Continue,
    /// The click opened a bomb: the game is lost.
    BombHit,
    /// Only the bombs are left unopened: the game is won.
    AllClear,
}

/// The outcome of a click on a cell that was `before`, after which `left` cells are not open,
/// on a board of `bomb` bombs.
pub open spec fn outcome_of(before: Cell, left: int, bomb: int) -> RevealOutcome {
    if before.surface == Surface::Cover && before.content == Content::Bomb {
        RevealOutcome::BombHit
    } else if left == bomb {
        RevealOutcome::AllClear
    } else {
        RevealOutcome::Continue
    }
}

/// A click on square `start` of grid `g`, with `left` cells not open before it, gives grid
/// `out`, leaves `left_out` cells not open, and ends as `outcome` says.
pub open spec fn revealed(
    conf: GameConfig,
    start: int,
    g: Seq<Cell>,
    left: int,
    out: Seq<Cell>,
    left_out: int,
    outcome: RevealOutcome,
) -> bool {
    &&& out == opened(conf.height as int, conf.width as int, g, start)
    &&& left_out == left - region(conf.height as int, conf.width as int, g, start).len()
    &&& outcome == outcome_of(g[start], left_out, conf.bomb as int)
}

/// Tells how the game stands after a click on the cell that was `before`.
pub fn judge(before: &Cell, left_cover: usize, conf: &GameConfig) -> (outcome: RevealOutcome)
    ensures
        outcome == outcome_of(*before, left_cover as int, conf.bomb as int),
{
    if before.surface == Surface::Cover && before.content == Content::Bomb {
        RevealOutcome::BombHit
    } else if left_cover == conf.bomb {
        RevealOutcome::AllClear
    } else {
        RevealOutcome::Continue
    }
}

/// A click on the square under the cursor. The first click of a game makes the board, with
/// the clicked square free of a bomb; every click then opens what it reaches.
pub fn mine_event(
    init_at: &Pos,
    now_at: &Pos,
    conf: &GameConfig,
    rng: &mut ThreadRng,
    init_mine: &mut bool,
    left_cover: &mut usize,
    graph_map: Vec<Cell>,
) -> (res: (Vec<Cell>, RevealOutcome))
    requires
        conf.size() <= usize::MAX,
        on_board(*init_at, *now_at),
        cell_at(*init_at, *now_at, conf.width as int) < conf.size(),
        *old(init_mine) ==> placed(conf.bomb as int) < conf.size() <= *old(left_cover),
        !*old(init_mine) ==> counts_ok(conf.height as int, conf.width as int, graph_map@)
            && region(
            conf.height as int,
            conf.width as int,
            graph_map@,
            cell_at(*init_at, *now_at, conf.width as int),
        ).len() <= *old(left_cover),
    ensures
        !*final(init_mine),
        exists|g: Seq<Cell>|
            (if *old(init_mine) {
                fresh_board(*conf, cell_at(*init_at, *now_at, conf.width as int), g)
            } else {
                g == graph_map@
            }) && #[trigger] revealed(
                *conf,
                cell_at(*init_at, *now_at, conf.width as int),
                g,
                *old(left_cover) as int,
                res.0@,
                *final(left_cover) as int,
                res.1,
            ),
{
    let ghost h = conf.height as int;
    let ghost w = conf.width as int;
    let ghost start = cell_at(*init_at, *now_at, conf.width as int);
    let mut grid = graph_map;
    if *init_mine {
        *init_mine = false;
        grid = gen_map(init_at, now_at, conf, rng);
        proof {
            lemma_region_finite(h, w, grid@, start);
        }
    }
    let ghost g = grid@;
    let pos = cell_index(init_at, now_at, conf);
    let before = grid[pos];
    let out = mine_map(init_at, now_at, conf, grid, left_cover);
    let outcome = judge(&before, *left_cover, conf);
    let res = (out, outcome);
    proof {
        assert(revealed(
            *conf,
            start,
            g,
            *old(left_cover) as int,
            res.0@,
            *left_cover as int,
            res.1,
        ));
    }
    res
}

/// A flag key on the square under the cursor. Before the first click of a game there is
/// nothing to flag.
pub fn flag_event(
    init_at: &Pos,
    now_at: &Pos,
    conf: &GameConfig,
    init_mine: bool,
    graph_map: Vec<Cell>,
    flag_num: &mut usize,
) -> (res: (Vec<Cell>, bool))
    requires
        !init_mine ==> on_board(*init_at, *now_at) && cell_at(
            *init_at,
            *now_at,
            conf.width as int,
        ) < graph_map.len() && *old(flag_num) <= conf.bomb,
    ensures
        init_mine ==> res.0@ == graph_map@ && !res.1 && *final(flag_num) == *old(flag_num),
        !init_mine ==> {
            let at = cell_at(*init_at, *now_at, conf.width as int);
            &&& res.0@ == graph_map@.update(
                at,
                toggled(graph_map[at], *old(flag_num) as int, conf.bomb as int),
            )
            &&& res.1 == flag_moves(graph_map[at], *old(flag_num) as int, conf.bomb as int)
            &&& *final(flag_num) == flags_after(
                graph_map[at],
                *old(flag_num) as int,
                conf.bomb as int,
            )
        },
{
    if init_mine {
        return (graph_map, false);
    }
    flag_map(init_at, now_at, conf, graph_map, flag_num)
}

/// A key of the keyboard, as far as the game tells keys apart.
#[derive(Clone, Copy, Debug, PartialEq, Eq, Structural)]
pub enum Key {
    Up,
    Down,
    Left,
    Right,
    Char(char),
    Other,
}

/// A button of the mouse.
#[derive(Clone, Copy, Debug, PartialEq, Eq, Structural)]
pub enum Button {
    Left,
    Right,
    WheelUp,
    WheelDown,
    Other,
}

/// What the terminal reports: a key, a mouse button pressed at a column and a row, or
/// something that the game has no use for.
#[derive(Clone, Copy, Debug, PartialEq, Eq, Structural)]
pub enum Event {
    Key(Key),
    Press(Button, u16, u16),
    Other,
}

/// What the player asks for with an event.
#[derive(Clone, Copy, Debug, PartialEq, Eq, Structural)]
pub enum Intent {
    Stay,
    Up,
    Down,
    Left,
    Right,
    Mine,
    Flag,
    Quit,
}

/// What a key asks for under a keymap. Where the keymap gives one character several
/// meanings, the first in the order up, down, left, right, open, flag, leave counts.
pub open spec fn key_intent(keys: GlobleConfig, key: Key) -> Intent {
    match key {
        Key::Up => Intent::Up,
        Key::Down => Intent::Down,
        Key::Left => Intent::Left,
        Key::Right => Intent::Right,
        Key::Char(c) => if c == keys.up_key {
            Intent::Up
        } else if c == keys.down_key {
            Intent::Down
        } else if c == keys.left_key {
            Intent::Left
        } else if c == keys.right_key {
            Intent::Right
        } else if c == keys.mine_key {
            Intent::Mine
        } else if c == keys.flag_key {
            Intent::Flag
        } else if c == keys.quit_key {
            Intent::Quit
        } else {
            Intent::Stay
        },
        Key::Other => Intent::Stay,
    }
}

/// What an event asks for in a game: a key by the keymap, the left button a click, the
/// right button a flag.
pub open spec fn intent_of(keys: GlobleConfig, event: Event) -> Intent {
    match event {
        Event::Key(key) => key_intent(keys, key),
        Event::Press(Button::Left, _, _) => Intent::Mine,
        Event::Press(Button::Right, _, _) => Intent::Flag,
        _ => Intent::Stay,
    }
}

/// The square of the board that is nearest to a place on the screen.
pub open spec fn nearest(init_at: Pos, conf: GameConfig, x: int, y: int) -> Pos {
    Pos(
        pinned(init_at.0 as int, init_at.0 + conf.width - 1, x) as u16,
        pinned(init_at.1 as int, init_at.1 + conf.height - 1, y) as u16,
    )
}

/// Where the cursor stands after an event: a step further in the direction of a movement
/// key, or on the square where the mouse was pressed, but never off the board.
pub open spec fn cursor_after(
    keys: GlobleConfig,
    init_at: Pos,
    conf: GameConfig,
    now_at: Pos,
    event: Event,
) -> Pos {
    match event {
        Event::Press(_, x, y) => nearest(init_at, conf, x as int, y as int),
        _ => match intent_of(keys, event) {
            Intent::Up => nearest(init_at, conf, now_at.0 as int, now_at.1 - 1),
            Intent::Down => nearest(init_at, conf, now_at.0 as int, now_at.1 + 1),
            Intent::Left => nearest(init_at, conf, now_at.0 - 1, now_at.1 as int),
            Intent::Right => nearest(init_at, conf, now_at.0 + 1, now_at.1 as int),
            _ => now_at,
        },
    }
}

/// What a key asks for under a keymap.
pub fn read_key(keys: &GlobleConfig, key: &Key) -> (intent: Intent)
    ensures
        intent == key_intent(*keys, *key),
{
    match key {
        Key::Up => Intent::Up,
        Key::Down => Intent::Down,
        Key::Left => Intent::Left,
        Key::Right => Intent::Right,
        Key::Char(c) => {
            if *c == keys.up_key {
                Intent::Up
            } else if *c == keys.down_key {
                Intent::Down
            } else if *c == keys.left_key {
                Intent::Left
            } else if *c == keys.right_key {
                Intent::Right
            } else if *c == keys.mine_key {
                Intent::Mine
            } else if *c == keys.flag_key {
                Intent::Flag
            } else if *c == keys.quit_key {
                Intent::Quit
            } else {
                Intent::Stay
            }
        },
        Key::Other => Intent::Stay,
    }
}

/// What an event did to a game.
#[derive(Clone, Copy, Debug, PartialEq, Eq, Structural)]
pub enum Step {
    /// The cursor may have moved; the board is as it was.
    Moved,
    /// A square was clicked, with this outcome.
    Mined(RevealOutcome),
    /// A flag was asked for; it was put or taken (`true`), or refused.
    Flagged(bool),
    /// The player leaves the game.
    Quit,
    /// The game was over before the event, which changed nothing.
    Over,
}

/// One game: the board, the counters, and the cursor.
pub struct Game {
    conf: GameConfig,
    map: Vec<Cell>,
    left_cover: usize,
    flag_num: usize,
    init_mine: bool,
    over: bool,
    init_at: Pos,
    now_at: Pos,
}

/// No cell with a bomb is open.
pub open spec fn no_bomb_open(g: Seq<Cell>) -> bool {
    forall|p: int|
        0 <= p < g.len() && g[p].content == Content::Bomb ==> (#[trigger] g[p]).surface
            != Surface::Open
}

/// A click that is not reported as a hit opens no bomb.
pub proof fn lemma_click_opens_no_bomb(h: int, w: int, g: Seq<Cell>, start: int)
    requires
        counts_ok(h, w, g),
        h * w <= usize::MAX,
        0 <= start < g.len(),
        no_bomb_open(g),
        !(g[start].surface == Surface::Cover && g[start].content == Content::Bomb),
    ensures
        no_bomb_open(opened(h, w, g, start)),
{
    let out = opened(h, w, g, start);
    assert forall|p: int| 0 <= p < out.len() && out[p].content == Content::Bomb implies (
    #[trigger] out[p]).surface != Surface::Open by {
        if reached(h, w, g, start, p) {
            lemma_reached_bomb_is_start(h, w, g, start, p);
            lemma_reached_covered(h, w, g, start, p);
        }
    }
}

/// A grid of `n` covered cells with nothing under them.
pub open spec fn blank(n: int) -> Seq<Cell> {
    Seq::new(n as nat, |p: int| Cell { content: Content::Zero, surface: Surface::Cover })
}

/// A blank grid shows the right count everywhere: no bomb, and no bomb around.
pub proof fn lemma_blank_counts(conf: GameConfig)
    requires
        conf.width > 0,
        0 <= conf.size(),
    ensures
        counts_ok(conf.height as int, conf.width as int, blank(conf.size())),
{
    let h = conf.height as int;
    let w = conf.width as int;
    let g = blank(conf.size());
    assert forall|p: int|
        0 <= p < g.len() && g[p].content != Content::Bomb implies #[trigger] g[p].content
        == content_of(bombs_near(h, w, mines(g), p) as int) by {
        lemma_hits_none(around(h, w, p), mines(g), around(h, w, p).len() as int);
    }
}

/// Opening and flagging leave the counts of a grid right: they change no content.
pub proof fn lemma_counts_kept(h: int, w: int, g: Seq<Cell>, out: Seq<Cell>)
    requires
        counts_ok(h, w, g),
        out.len() == g.len(),
        forall|p: int| 0 <= p < g.len() ==> (#[trigger] out[p]).content == g[p].content,
    ensures
        counts_ok(h, w, out),
        mines(out) == mines(g),
{
    assert(mines(out) =~= mines(g));
}

impl Game {
    #[verifier::type_invariant]
    closed spec fn inv(&self) -> bool {
        &&& self.init_at.0 >= 1
        &&& self.init_at.1 >= 1
        &&& self.init_at.0 + self.conf.width <= u16::MAX
        &&& self.init_at.1 + self.conf.height <= u16::MAX
        &&& self.conf.size() <= usize::MAX
        &&& placed(self.conf.bomb as int) < self.conf.size()
        &&& counts_ok(self.conf.height as int, self.conf.width as int, self.map@)
        &&& self.left_cover == unopened(self.map@).len()
        &&& self.init_mine ==> self.left_cover == self.conf.size()
        &&& self.flag_num <= self.conf.bomb
        &&& !self.init_mine ==> bombs(mines(self.map@)) == placed(self.conf.bomb as int)
        &&& !self.over ==> no_bomb_open(self.map@)
        &&& on_board(self.init_at, self.now_at)
        &&& self.now_at.0 - self.init_at.0 < self.conf.width
        &&& self.now_at.1 - self.init_at.1 < self.conf.height
    }

    /// The size of the board and its number of bombs.
    pub closed spec fn conf(&self) -> GameConfig {
        self.conf
    }

    /// The grid as it stands.
    pub closed spec fn grid(&self) -> Seq<Cell> {
        self.map@
    }

    /// The number of cells that are not open.
    pub closed spec fn left(&self) -> int {
        self.left_cover as int
    }

    /// The number of flags on the board.
    pub closed spec fn flags(&self) -> int {
        self.flag_num as int
    }

    /// No square has been clicked yet, so that no bomb has been laid.
    pub closed spec fn fresh(&self) -> bool {
        self.init_mine
    }

    /// The game is won, lost or left.
    pub closed spec fn over(&self) -> bool {
        self.over
    }

    /// Where the upper left square of the board is drawn.
    pub closed spec fn origin(&self) -> Pos {
        self.init_at
    }

    /// Where the cursor stands.
    pub closed spec fn cursor(&self) -> Pos {
        self.now_at
    }

    /// What holds of every game, whatever has happened in it: the grid has the size of the
    /// board and the right count on every square without a bomb, the counter of cells left
    /// is the number of cells that are not open, no more flags are placed than there are
    /// bombs, the bombs are as many as placement lays once they are laid, no bomb is open
    /// while the game goes on, and the cursor is on the board.
    pub open spec fn sound(&self) -> bool {
        &&& self.conf().size() <= usize::MAX
        &&& placed(self.conf().bomb as int) < self.conf().size()
        &&& counts_ok(self.conf().height as int, self.conf().width as int, self.grid())
        &&& self.left() == unopened(self.grid()).len()
        &&& 0 <= self.flags() <= self.conf().bomb
        &&& !self.fresh() ==> bombs(mines(self.grid())) == placed(self.conf().bomb as int)
        &&& !self.over() ==> no_bomb_open(self.grid())
        &&& on_board(self.origin(), self.cursor())
        &&& cell_at(self.origin(), self.cursor(), self.conf().width as int) < self.conf().size()
        &&& board_fits(
            Pos((self.origin().0 - 1) as u16, (self.origin().1 - 1) as u16),
            self.conf(),
        )
    }

    proof fn lemma_sound(&self)
        requires
            self.inv(),
        ensures
            self.sound(),
    {
        let r = self.now_at.1 - self.init_at.1;
        let c = self.now_at.0 - self.init_at.0;
        let w = self.conf.width as int;
        let h = self.conf.height as int;
        assert(r * w + c < h * w) by (nonlinear_arith)
            requires
                0 <= r < h,
                0 <= c < w,
        ;
    }

    /// A new game on a board whose frame is drawn from `pos` on: every cell covered, no bomb
    /// laid yet, the cursor on the upper left square. There is no game where the bombs to lay
    /// would leave no square free.
    pub fn new(conf: GameConfig, pos: Pos) -> (res: Result<Game, GenError>)
        requires
            board_fits(pos, conf),
        ensures
            res is Err <==> placed(conf.bomb as int) >= conf.size(),
            res matches Err(e) ==> e == GenError::InvalidConfig,
            res matches Ok(game) ==> {
                &&& game.conf() == conf
                &&& game.grid() == blank(conf.size())
                &&& game.left() == conf.size()
                &&& game.flags() == 0
                &&& game.fresh()
                &&& !game.over()
                &&& game.origin() == Pos((pos.0 + 1) as u16, (pos.1 + 1) as u16)
                &&& game.cursor() == game.origin()
                &&& game.sound()
            },
    {
        assert(conf.height * conf.width <= 0xffff * 0xffff) by (nonlinear_arith)
            requires
                conf.height <= 0xffff,
                conf.width <= 0xffff,
        ;
        let size = conf.get_size();
        if conf.bomb >= size || size <= 1 {
            return Err(GenError::InvalidConfig);
        }
        let mut map: Vec<Cell> = Vec::new();
        let mut i: usize = 0;
        while i < size
            invariant
                i <= size,
                map.len() == i,
                forall|p: int|
                    0 <= p < i ==> map[p] == (Cell {
                        content: Content::Zero,
                        surface: Surface::Cover,
                    }),
            decreases size - i,
        {
            map.push(Cell::new(Content::Zero, Surface::Cover));
            i += 1;
        }
        let init_at = Pos(pos.0 + 1, pos.1 + 1);
        proof {
            assert(map@ =~= blank(conf.size()));
            assert(conf.width > 0) by (nonlinear_arith)
                requires
                    conf.height * conf.width > 1,
            ;
            assert(conf.height > 0) by (nonlinear_arith)
                requires
                    conf.height * conf.width > 1,
            ;
            lemma_blank_counts(conf);
            lemma_unopened_all(map@);
        }
        let game = Game {
            conf,
            map,
            left_cover: size,
            flag_num: 0,
            init_mine: true,
            over: false,
            init_at,
            now_at: init_at,
        };
        proof {
            game.lemma_sound();
        }
        Ok(game)
    }

    pub fn get_conf(&self) -> (conf: GameConfig)
        ensures
            conf == self.conf(),
    {
        self.conf
    }

    pub fn get_map(&self) -> (map: &Vec<Cell>)
        ensures
            map@ == self.grid(),
    {
        &self.map
    }

    pub fn get_left_cover(&self) -> (left: usize)
        ensures
            left == self.left(),
    {
        self.left_cover
    }

    pub fn get_flag_num(&self) -> (flags: usize)
        ensures
            flags == self.flags(),
    {
        self.flag_num
    }

    /// The number of flags that can still be placed.
    pub fn bomb_budget(&self) -> (budget: usize)
        ensures
            budget == self.conf().bomb - self.flags(),
    {
        proof {
            use_type_invariant(self);
        }
        self.conf.bomb - self.flag_num
    }

    pub fn is_fresh(&self) -> (fresh: bool)
        ensures
            fresh == self.fresh(),
    {
        self.init_mine
    }

    pub fn is_over(&self) -> (over: bool)
        ensures
            over == self.over(),
    {
        self.over
    }

    pub fn get_init_at(&self) -> (at: Pos)
        ensures
            at == self.origin(),
    {
        self.init_at
    }

    pub fn get_now_at(&self) -> (at: Pos)
        ensures
            at == self.cursor(),
    {
        self.now_at
    }
}

/// What one event does to a game that is not over.
///
/// The cursor goes where the event sends it. A click opens what it reaches from the square
/// under the cursor, on the board as it stands or, if it is the first click, on a new board
/// that has no bomb there; a bomb hit or a board cleared ends the game. A flag key puts or
/// takes a flag there, but does nothing before the first click. The key for leaving ends the
/// game. Nothing else changes.
pub open spec fn stepped(
    before: Game,
    keys: GlobleConfig,
    event: Event,
    after: Game,
    step: Step,
) -> bool {
    let conf = before.conf();
    let at = cursor_after(keys, before.origin(), conf, before.cursor(), event);
    let idx = cell_at(before.origin(), at, conf.width as int);
    &&& after.conf() == conf
    &&& after.origin() == before.origin()
    &&& after.cursor() == at
    &&& match intent_of(keys, event) {
        Intent::Mine => {
            &&& step matches Step::Mined(outcome)
            &&& exists|g: Seq<Cell>|
                (if before.fresh() {
                    fresh_board(conf, idx, g)
                } else {
                    g == before.grid()
                }) && #[trigger] revealed(
                    conf,
                    idx,
                    g,
                    before.left(),
                    after.grid(),
                    after.left(),
                    outcome,
                )
            &&& after.flags() == before.flags()
            &&& !after.fresh()
            &&& after.over() == (outcome != RevealOutcome::Continue)
        },
        Intent::Flag => {
            &&& step matches Step::Flagged(ok)
            &&& if before.fresh() {
                &&& !ok
                &&& after.grid() == before.grid()
                &&& after.flags() == before.flags()
            } else {
                &&& ok == flag_moves(before.grid()[idx], before.flags(), conf.bomb as int)
                &&& after.grid() == before.grid().update(
                    idx,
                    toggled(before.grid()[idx], before.flags(), conf.bomb as int),
                )
                &&& after.flags() == flags_after(
                    before.grid()[idx],
                    before.flags(),
                    conf.bomb as int,
                )
            }
            &&& after.left() == before.left()
            &&& after.fresh() == before.fresh()
            &&& !after.over()
        },
        other => {
            &&& step == if other == Intent::Quit {
                Step::Quit
            } else {
                Step::Moved
            }
            &&& after.grid() == before.grid()
            &&& after.left() == before.left()
            &&& after.flags() == before.flags()
            &&& after.fresh() == before.fresh()
            &&& after.over() == (other == Intent::Quit)
        },
    }
}

/// Takes one event of a game and says what it did. A game that is over takes none.
pub fn game_event(game: Game, key_conf: &GlobleConfig, event: &Event, rng: &mut ThreadRng) -> (res:
    (Game, Step))
    ensures
        res.0.sound(),
        game.over() ==> res.0 == game && res.1 == Step::Over,
        !game.over() ==> stepped(game, *key_conf, *event, res.0, res.1),
{
    proof {
        use_type_invariant(&game);
        game.lemma_sound();
    }
    if game.over {
        return (game, Step::Over);
    }
    let ghost before = game;
    let Game { conf, map, left_cover, flag_num, init_mine, over, init_at, now_at } = game;
    let ghost h = conf.height as int;
    let ghost w = conf.width as int;
    let right = init_at.0 + (conf.width - 1) as u16;
    let bottom = init_at.1 + (conf.height - 1) as u16;
    let intent = match event {
        Event::Key(key) => read_key(key_conf, key),
        Event::Press(Button::Left, _, _) => Intent::Mine,
        Event::Press(Button::Right, _, _) => Intent::Flag,
        _ => Intent::Stay,
    };
    let at = match event {
        Event::Press(_, x, y) => Pos(pin(init_at.0, right, *x), pin(init_at.1, bottom, *y)),
        _ => match intent {
            Intent::Up => Pos(now_at.0, pin(init_at.1, bottom, now_at.1 - 1)),
            Intent::Down => Pos(now_at.0, pin(init_at.1, bottom, now_at.1 + 1)),
            Intent::Left => Pos(pin(init_at.0, right, now_at.0 - 1), now_at.1),
            Intent::Right => Pos(pin(init_at.0, right, now_at.0 + 1), now_at.1),
            _ => now_at,
        },
    };
    let ghost idx = cell_at(init_at, at, w);
    proof {
        let r = at.1 - init_at.1;
        let c = at.0 - init_at.0;
        assert(r * w + c < h * w) by (nonlinear_arith)
            requires
                0 <= r < h,
                0 <= c < w,
        ;
        lemma_unopened_after(h, w, map@, idx);
    }
    match intent {
        Intent::Mine => {
            let mut init_mine = init_mine;
            let mut left_cover = left_cover;
            let (out, outcome) = mine_event(
                &init_at,
                &at,
                &conf,
                rng,
                &mut init_mine,
                &mut left_cover,
                map,
            );
            proof {
                let g = choose|g: Seq<Cell>|
                    (if before.fresh() {
                        fresh_board(conf, idx, g)
                    } else {
                        g == before.grid()
                    }) && #[trigger] revealed(
                        conf,
                        idx,
                        g,
                        before.left(),
                        out@,
                        left_cover as int,
                        outcome,
                    );
                if before.fresh() {
                    lemma_unopened_all(g);
                }
                lemma_unopened_after(h, w, g, idx);
                lemma_counts_kept(h, w, g, out@);
                if outcome == RevealOutcome::Continue {
                    lemma_click_opens_no_bomb(h, w, g, idx);
                }
            }
            let after = Game {
                conf,
                map: out,
                left_cover,
                flag_num,
                init_mine,
                over: outcome != RevealOutcome::Continue,
                init_at,
                now_at: at,
            };
            proof {
                after.lemma_sound();
            }
            (after, Step::Mined(outcome))
        },
        Intent::Flag => {
            let mut flag_num = flag_num;
            let (out, ok) = flag_event(&init_at, &at, &conf, init_mine, map, &mut flag_num);
            proof {
                lemma_counts_kept(h, w, map@, out@);
                assert(unopened(out@) =~= unopened(map@));
            }
            let after = Game {
                conf,
                map: out,
                left_cover,
                flag_num,
                init_mine,
                over,
                init_at,
                now_at: at,
            };
            proof {
                after.lemma_sound();
            }
            (after, Step::Flagged(ok))
        },
        _ => {
            let quit = intent == Intent::Quit;
            let after = Game {
                conf,
                map,
                left_cover,
                flag_num,
                init_mine,
                over: quit,
                init_at,
                now_at: at,
            };
            proof {
                after.lemma_sound();
            }
            (
                after,
                if quit {
                    Step::Quit
                } else {
                    Step::Moved
                },
            )
        },
    }
}

/// What an event did to a menu.
#[derive(Clone, Copy, Debug, PartialEq, Eq, Structural)]
pub enum MenuStep {
    /// The menu stays, with this item selected.
    Browse(usize),
    /// This item was chosen; a click that chose it fell on this place of the menu.
    Chosen(usize, Option<Pos>),
    /// The player leaves.
    Quit,
}

/// `v` held down to `hi` and then up to `lo`.
pub open spec fn pinned(lo: int, hi: int, v: int) -> int {
    let m = if v < hi {
        v
    } else {
        hi
    };
    if m < lo {
        lo
    } else {
        m
    }
}

/// The item above `selected` in a menu of `items` items. The step up from the first item
/// wraps round the range of `usize` before it wraps round the menu.
pub open spec fn item_above(selected: usize, items: usize) -> int {
    (if selected == 0 {
        usize::MAX as int
    } else {
        selected - 1
    }) % (items as int)
}

/// The item below `selected` in a menu of `items` items.
pub open spec fn item_below(selected: usize, items: usize) -> int {
    (if selected == usize::MAX {
        0
    } else {
        selected + 1
    }) % (items as int)
}

/// The place inside a menu, drawn from `pos` to `last_pos`, that is nearest to a place on the
/// screen.
pub open spec fn menu_spot(pos: Pos, last_pos: Pos, x: u16, y: u16) -> Pos {
    Pos(
        pinned(pos.0 + 1, last_pos.0 - 1, x as int) as u16,
        pinned(pos.1 + 1, last_pos.1 - 1, y as int) as u16,
    )
}

/// What an event does to a menu of `items` items, drawn from `pos` to `last_pos`, in which
/// `selected` is selected.
///
/// The keys for up and down and the wheel of the mouse move the selection; the key for
/// opening chooses the selected item, the left button the item under the mouse; the key for
/// leaving and the right button leave. Any other key keeps the selection, wrapped round the
/// menu; any other event keeps it as it is.
pub open spec fn menu_step(
    keys: GlobleConfig,
    event: Event,
    selected: usize,
    items: usize,
    pos: Pos,
    last_pos: Pos,
) -> MenuStep {
    match event {
        Event::Key(key) => match key {
            Key::Up => MenuStep::Browse(item_above(selected, items) as usize),
            Key::Down => MenuStep::Browse(item_below(selected, items) as usize),
            Key::Char(c) => if c == keys.up_key {
                MenuStep::Browse(item_above(selected, items) as usize)
            } else if c == keys.down_key {
                MenuStep::Browse(item_below(selected, items) as usize)
            } else if c == keys.quit_key {
                MenuStep::Quit
            } else if c == keys.mine_key {
                MenuStep::Chosen(selected, None)
            } else {
                MenuStep::Browse((selected % items) as usize)
            },
            _ => MenuStep::Browse((selected % items) as usize),
        },
        Event::Press(button, x, y) => match button {
            Button::Left => MenuStep::Chosen(
                (menu_spot(pos, last_pos, x, y).1 - pos.1 - 1) as usize,
                Some(menu_spot(pos, last_pos, x, y)),
            ),
            Button::WheelUp => MenuStep::Browse(item_above(selected, items) as usize),
            Button::WheelDown => MenuStep::Browse(item_below(selected, items) as usize),
            Button::Right => MenuStep::Quit,
            Button::Other => MenuStep::Browse((selected % items) as usize),
        },
        Event::Other => MenuStep::Browse(selected),
    }
}

/// `v` held down to `hi` and then up to `lo`.
fn pin(lo: u16, hi: u16, v: u16) -> (r: u16)
    ensures
        r == pinned(lo as int, hi as int, v as int),
{
    let m = if v < hi {
        v
    } else {
        hi
    };
    if m < lo {
        lo
    } else {
        m
    }
}

/// Takes one event of a menu and says what it did.
pub fn menu_event(
    key_conf: &GlobleConfig,
    event: &Event,
    selected_item_idx: usize,
    items: usize,
    pos: &Pos,
    last_pos: &Pos,
) -> (step: MenuStep)
    requires
        items > 0,
        pos.0 < u16::MAX,
        pos.1 < u16::MAX,
        last_pos.0 > 0,
        last_pos.1 > 0,
    ensures
        step == menu_step(*key_conf, *event, selected_item_idx, items, *pos, *last_pos),
{
    let up = selected_item_idx.wrapping_sub(1) % items;
    let down = selected_item_idx.wrapping_add(1) % items;
    let same = selected_item_idx % items;
    match event {
        Event::Key(key) => match key {
            Key::Up => MenuStep::Browse(up),
            Key::Down => MenuStep::Browse(down),
            Key::Char(c) => {
                if *c == key_conf.up_key {
                    MenuStep::Browse(up)
                } else if *c == key_conf.down_key {
                    MenuStep::Browse(down)
                } else if *c == key_conf.quit_key {
                    MenuStep::Quit
                } else if *c == key_conf.mine_key {
                    MenuStep::Chosen(selected_item_idx, None)
                } else {
                    MenuStep::Browse(same)
                }
            },
            _ => MenuStep::Browse(same),
        },
        Event::Press(button, x, y) => match button {
            Button::Left => {
                let x = pin(pos.0 + 1, last_pos.0 - 1, *x);
                let y = pin(pos.1 + 1, last_pos.1 - 1, *y);
                MenuStep::Chosen((y - pos.1 - 1) as usize, Some(Pos(x, y)))
            },
            Button::WheelUp => MenuStep::Browse(up),
            Button::WheelDown => MenuStep::Browse(down),
            Button::Right => MenuStep::Quit,
            Button::Other => MenuStep::Browse(same),
        },
        Event::Other => MenuStep::Browse(selected_item_idx),
    }
}

/// What an event did to the menu of difficulties.
#[derive(Clone, Copy, Debug, PartialEq, Eq, Structural)]
pub enum EntryStep {
    /// The menu stays, with this item selected.
    Browse(usize),
    /// A game of this configuration starts; a click that chose it fell on this place.
    Start(GameConfig, Option<Pos>),
    /// The player leaves.
    Quit,
}

/// The configuration that the item `idx` of the menu of difficulties stands for.
pub open spec fn config_of(idx: usize) -> GameConfig {
    if idx == 0 {
        GameConfig { height: 9, width: 9, bomb: 10 }
    } else if idx == 1 {
        GameConfig { height: 16, width: 16, bomb: 40 }
    } else {
        GameConfig { height: 16, width: 30, bomb: 99 }
    }
}

/// Takes one event of the menu of the three difficulties, drawn from `pos` to `last_pos`: a
/// chosen item starts a game of its configuration.
pub fn entry_event(
    key_config: &GlobleConfig,
    event: &Event,
    selected_item_idx: usize,
    pos: &Pos,
    last_pos: &Pos,
) -> (step: EntryStep)
    requires
        pos.0 < u16::MAX,
        pos.1 < u16::MAX,
        last_pos.0 > 0,
        last_pos.1 > 0,
    ensures
        step == match menu_step(*key_config, *event, selected_item_idx, 3, *pos, *last_pos) {
            MenuStep::Browse(idx) => EntryStep::Browse(idx),
            MenuStep::Chosen(idx, at) => EntryStep::Start(config_of(idx), at),
            MenuStep::Quit => EntryStep::Quit,
        },
{
    match menu_event(key_config, event, selected_item_idx, 3, pos, last_pos) {
        MenuStep::Browse(idx) => EntryStep::Browse(idx),
        MenuStep::Chosen(idx, at) => {
            let game_mode = GameMode::from_usize(idx);
            EntryStep::Start(GameConfig::from_game_mode(game_mode), at)
        },
        MenuStep::Quit => EntryStep::Quit,
    }
}

/// What an event did to the menu at the end of a game.
#[derive(Clone, Copy, Debug, PartialEq, Eq, Structural)]
pub enum EndStep {
    /// The menu stays, with this item selected.
    Browse(usize),
    /// The menu is left with this answer: 0 for another game, 1 for the menu of
    /// difficulties, 255 for leaving the program.
    Done(usize),
}

/// End menu event, return usize meanings:
/// 0: retry
/// 1: back
pub fn end_event(
    key_conf: &GlobleConfig,
    event: &Event,
    selected_item_idx: usize,
    pos: &Pos,
    last_pos: &Pos,
) -> (step: EndStep)
    requires
        pos.0 < u16::MAX,
        pos.1 < u16::MAX,
        last_pos.0 > 0,
        last_pos.1 > 0,
    ensures
        step == match menu_step(*key_conf, *event, selected_item_idx, 2, *pos, *last_pos) {
            MenuStep::Browse(idx) => EndStep::Browse(idx),
            MenuStep::Chosen(idx, _) => EndStep::Done(idx),
            MenuStep::Quit => EndStep::Done(255),
        },
{
    match menu_event(key_conf, event, selected_item_idx, 2, pos, last_pos) {
        MenuStep::Browse(idx) => EndStep::Browse(idx),
        MenuStep::Chosen(idx, _) => EndStep::Done(idx),
        MenuStep::Quit => EndStep::Done(255),
    }
}

/// One tick of the clock that runs beside a game: counts one second more, and says what the
/// clock shows then, at the right end of the line above the board.
pub fn time_record_event(pos: &Pos, conf: &GameConfig, time: usize) -> (res: (usize, Glyph))
    requires
        time < usize::MAX,
        1 <= pos.0 + conf.width <= u16::MAX,
        pos.1 < u16::MAX,
    ensures
        res.0 == time + 1,
        res.1.at == Pos((pos.0 + conf.width - 1) as u16, pos.1),
        res.1.text@ == padded((time + 1) as nat, 3),
{
    let time = time + 1;
    let (shown, _) = show_time_status(pos, conf, time);
    (time, shown)
}

} // verus!
