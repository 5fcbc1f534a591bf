use vstd::prelude::*;
use vstd::string::*;
use vstd::utf8::encode_utf8;
use crate::config::GameConfig;
use crate::map::{cell_symbol, content_symbol, surface_symbol, Cell, Content, Surface};

verus! {

/// The position of 2d canvas (x, y).
#[derive(Clone, Copy, Debug, PartialEq, Eq, Structural)]
pub struct Pos(pub u16, pub u16);

/// How much of the board is shown.
#[derive(Clone, Copy, Debug, PartialEq, Eq, Structural)]
pub enum ShowMode {
    /// What the player has uncovered.
    Normal,
    /// Everything.
    All,
    /// A won game: a flag on every bomb, every other content.
    Win,
    /// A lost game: every bomb, and of the rest what the player has uncovered.
    Lose,
}

/// What is drawn for a cell in a given mode.
pub open spec fn shown(c: Cell, mode: ShowMode) -> Seq<char> {
    match mode {
        ShowMode::Normal => cell_symbol(c),
        ShowMode::All => content_symbol(c.content),
        ShowMode::Win => if c.content == Content::Bomb {
            surface_symbol(Surface::Flag)
        } else {
            content_symbol(c.content)
        },
        ShowMode::Lose => if c.content == Content::Bomb {
            content_symbol(c.content)
        } else {
            cell_symbol(c)
        },
    }
}

/// A piece of text and the place on the screen where it starts.
#[derive(Debug)]
pub struct Glyph {
    pub at: Pos,
    pub text: String,
}

/// Where the cell with index `idx` is drawn, on a board whose frame starts at `pos`.
pub open spec fn cell_pos(pos: Pos, width: int, idx: int) -> Pos {
    Pos((pos.0 + idx % width + 1) as u16, (pos.1 + idx / width + 1) as u16)
}

/// The frame around the board starting at `pos` stays on the screen's coordinates.
pub open spec fn board_fits(pos: Pos, conf: GameConfig) -> bool {
    &&& pos.0 + conf.width + 1 <= u16::MAX
    &&& pos.1 + conf.height + 1 <= u16::MAX
}

/// Show map, show_mode:
/// - normal show
/// - show all
/// - show win
/// - show lose
///
/// Returns, cell by cell, what to draw and where.
pub fn show_map(pos: &Pos, game_conf: &GameConfig, map: &Vec<Cell>, show_mode: ShowMode) -> (out:
    Vec<Glyph>)
    requires
        game_conf.width > 0,
        map.len() <= game_conf.size(),
        board_fits(*pos, *game_conf),
    ensures
        out.len() == map.len(),
        forall|i: int|
            0 <= i < map.len() ==> (#[trigger] out[i]).at == cell_pos(
                *pos,
                game_conf.width as int,
                i,
            ) && out[i].text@ == shown(map[i], show_mode),
{
    let mut out: Vec<Glyph> = Vec::new();
    let mut idx: usize = 0;
    while idx < map.len()
        invariant
            game_conf.width > 0,
            map.len() <= game_conf.size(),
            board_fits(*pos, *game_conf),
            idx <= map.len(),
            out.len() == idx,
            forall|i: int|
                0 <= i < idx ==> (#[trigger] out[i]).at == cell_pos(
                    *pos,
                    game_conf.width as int,
                    i,
                ) && out[i].text@ == shown(map[i], show_mode),
        decreases map.len() - idx,
    {
        let dx = idx % game_conf.width;
        let dy = idx / game_conf.width;
        assert(dy < game_conf.height) by (nonlinear_arith)
            requires
                idx < game_conf.height * game_conf.width,
                dy == idx / game_conf.width,
                game_conf.width > 0,
        ;
        let cell = &map[idx];
        let text = match show_mode {
            ShowMode::Normal => cell.to_string(),
            ShowMode::All => cell.get_content_symbol(),
            ShowMode::Win => match cell.content {
                Content::Bomb => Surface::Flag.to_string(),
                _ => cell.get_content_symbol(),
            },
            ShowMode::Lose => match cell.content {
                Content::Bomb => cell.get_content_symbol(),
                _ => cell.to_string(),
            },
        };
        out.push(Glyph { at: Pos(pos.0 + dx as u16 + 1, pos.1 + dy as u16 + 1), text });
        idx += 1;
    }
    out
}

/// Ferris the crab with something to say: the words, the face, and where the drawing ends.
#[derive(Clone, Copy, Debug)]
pub struct Ferris {
    pub words: &'static str,
    pub mouth: &'static str,
    pub leye: &'static str,
    pub reye: &'static str,
    pub end: Pos,
}

/// The drawing of Ferris is nine rows high, and they all fit below `pos`.
pub open spec fn ferris_fits(pos: Pos) -> bool {
    pos.1 + 9 <= u16::MAX
}

/// Where a drawing of Ferris that starts at `pos` ends: at the start of the row below it.
pub open spec fn below_ferris(pos: Pos) -> Pos {
    Pos(pos.0, (pos.1 + 9) as u16)
}

///  Draw a ferris with specific str, just like this:
///  ```text
///  __________________________
/// < Hello fellow Rustaceans! >
///  --------------------------
///         \
///          \
///             _~^~^~_
///         \) /  o o  \ (/
///           '_   -   _'
///           / '-----' \
/// ```
pub fn draw_ferris_with(
    pos: &Pos,
    words: &'static str,
    mouth: &'static str,
    leye: &'static str,
    reye: &'static str,
) -> (f: Ferris)
    requires
        ferris_fits(*pos),
    ensures
        f.words@ == words@,
        f.mouth@ == mouth@,
        f.leye@ == leye@,
        f.reye@ == reye@,
        f.end == below_ferris(*pos),
{
    Ferris { words, mouth, leye, reye, end: Pos(pos.0, pos.1 + 9) }
}

/// One of two sayings: the first for an even `idx`, the second for an odd one.
pub open spec fn one_of_two(first: Seq<char>, second: Seq<char>, idx: int) -> Seq<char> {
    if idx % 2 == 0 {
        first
    } else {
        second
    }
}

pub fn ferris_says_start(pos: &Pos) -> (f: Ferris)
    requires
        ferris_fits(*pos),
    ensures
        f.words@ == "Ready?"@,
        f.mouth@ == "v"@,
        f.leye@ == "0"@,
        f.reye@ == "0"@,
        f.end == below_ferris(*pos),
{
    draw_ferris_with(pos, "Ready?", "v", "0", "0")
}

pub fn ferris_says_win(pos: &Pos, idx: usize) -> (f: Ferris)
    requires
        ferris_fits(*pos),
    ensures
        f.words@ == one_of_two("Win!"@, "WOW, Genius!"@, idx as int),
        f.mouth@ == "3"@,
        f.leye@ == "^"@,
        f.reye@ == "^"@,
        f.end == below_ferris(*pos),
{
    let words = if idx % 2 == 0 {
        "Win!"
    } else {
        "WOW, Genius!"
    };
    draw_ferris_with(pos, words, "3", "^", "^")
}

pub fn ferris_says_lose(pos: &Pos, idx: usize) -> (f: Ferris)
    requires
        ferris_fits(*pos),
    ensures
        f.words@ == one_of_two("You Lose!"@, "BOOM!"@, idx as int),
        f.mouth@ == "x"@,
        f.leye@ == "#"@,
        f.reye@ == "#"@,
        f.end == below_ferris(*pos),
{
    let words = if idx % 2 == 0 {
        "You Lose!"
    } else {
        "BOOM!"
    };
    draw_ferris_with(pos, words, "x", "#", "#")
}

pub fn ferris_says_mine(pos: &Pos, idx: usize) -> (f: Ferris)
    requires
        ferris_fits(*pos),
    ensures
        f.words@ == one_of_two("You're safe."@, "Rua!!!"@, idx as int),
        f.mouth@ == "o"@,
        f.leye@ == "0"@,
        f.reye@ == "0"@,
        f.end == below_ferris(*pos),
{
    let words = if idx % 2 == 0 {
        "You're safe."
    } else {
        "Rua!!!"
    };
    draw_ferris_with(pos, words, "o", "0", "0")
}

pub fn ferris_says_flag(pos: &Pos, idx: usize) -> (f: Ferris)
    requires
        ferris_fits(*pos),
    ensures
        f.words@ == one_of_two("You can't flag here."@, "Good Flag."@, idx as int),
        f.mouth@ == "u"@,
        f.leye@ == "o"@,
        f.reye@ == "o"@,
        f.end == below_ferris(*pos),
{
    let words = if idx % 2 == 0 {
        "You can't flag here."
    } else {
        "Good Flag."
    };
    draw_ferris_with(pos, words, "u", "o", "o")
}

pub fn ferris_says_move(pos: &Pos, idx: usize) -> (f: Ferris)
    requires
        ferris_fits(*pos),
    ensures
        f.words@ == one_of_two("Move Move Move!"@, "Are you sure?"@, idx as int),
        f.mouth@ == "r"@,
        f.leye@ == "6"@,
        f.reye@ == "6"@,
        f.end == below_ferris(*pos),
{
    let words = if idx % 2 == 0 {
        "Move Move Move!"
    } else {
        "Are you sure?"
    };
    draw_ferris_with(pos, words, "r", "6", "6")
}

pub fn ferris_says_quit(pos: &Pos) -> (f: Ferris)
    requires
        ferris_fits(*pos),
    ensures
        f.words@ == "Bye~"@,
        f.mouth@ == "o"@,
        f.leye@ == "-"@,
        f.reye@ == "-"@,
        f.end == below_ferris(*pos),
{
    draw_ferris_with(pos, "Bye~", "o", "-", "-")
}

pub fn ferris_says_difficulty(pos: &Pos, idx: usize) -> (f: Ferris)
    requires
        ferris_fits(*pos),
    ensures
        f.words@ == if idx % 3 == 0 {
            "Eazy as fuck."@
        } else if idx % 3 == 1 {
            "It's OK."@
        } else {
            "Really?"@
        },
        f.mouth@ == "w"@,
        f.leye@ == "o"@,
        f.reye@ == "o"@,
        f.end == below_ferris(*pos),
{
    let words = if idx % 3 == 0 {
        "Eazy as fuck."
    } else if idx % 3 == 1 {
        "It's OK."
    } else {
        "Really?"
    };
    draw_ferris_with(pos, words, "w", "o", "o")
}

pub fn ferris_says_end(pos: &Pos, idx: usize) -> (f: Ferris)
    requires
        ferris_fits(*pos),
    ensures
        f.words@ == one_of_two("One more time!"@, "Back to menu."@, idx as int),
        f.mouth@ == "v"@,
        f.leye@ == "$"@,
        f.reye@ == "$"@,
        f.end == below_ferris(*pos),
{
    let words = if idx % 2 == 0 {
        "One more time!"
    } else {
        "Back to menu."
    };
    draw_ferris_with(pos, words, "v", "$", "$")
}

/// One line of a menu: where it starts, the letter that stands before the item, the number
/// of blanks that fill it up to the longest item, and whether it is the selected one.
#[derive(Clone, Copy, Debug, PartialEq, Eq, Structural)]
pub struct MenuLine {
    pub at: Pos,
    pub letter: char,
    pub pad: usize,
    pub focus: bool,
}

/// A menu laid out: its lines, the width inside its frame, and the lower right corner of the
/// frame.
#[derive(Debug)]
pub struct Menu {
    pub lines: Vec<MenuLine>,
    pub width: usize,
    pub end: Pos,
}

/// The number of bytes of an item.
pub open spec fn byte_len(item: String) -> usize {
    encode_utf8(item@).len() as usize
}

/// The number of bytes of the longest of the first `n` items.
pub open spec fn longest(opts: Seq<String>, n: int) -> usize
    decreases n,
{
    if n <= 0 {
        0
    } else if byte_len(opts[n - 1]) > longest(opts, n - 1) {
        byte_len(opts[n - 1])
    } else {
        longest(opts, n - 1)
    }
}

/// No item is longer than the longest.
pub proof fn lemma_longest(opts: Seq<String>, n: int, i: int)
    requires
        0 <= i < n,
    ensures
        byte_len(opts[i]) <= longest(opts, n),
    decreases n,
{
    if i < n - 1 {
        lemma_longest(opts, n - 1, i);
    }
}

/// The line of item `i` in a menu drawn from `pos`, in which item `focus_idx` is selected.
pub open spec fn menu_line(pos: Pos, opts: Seq<String>, focus_idx: int, i: int) -> MenuLine {
    MenuLine {
        at: Pos((pos.0 + 1) as u16, (pos.1 + 1 + i) as u16),
        letter: (97 + i) as u8 as char,
        pad: (longest(opts, opts.len() as int) - byte_len(opts[i])) as usize,
        focus: i == focus_idx,
    }
}

/// A menu can be drawn if it has at most 26 items, one of which is the selected one.
pub open spec fn menu_ok(opts: Seq<String>, focus_idx: int) -> bool {
    opts.len() <= 26 && focus_idx < opts.len()
}

/// The frame of the menu drawn from `pos` stays on the screen's coordinates.
pub open spec fn menu_fits(pos: Pos, opts: Seq<String>) -> bool {
    &&& pos.0 + 1 + longest(opts, opts.len() as int) + 4 <= u16::MAX
    &&& pos.1 + 1 + opts.len() <= u16::MAX
}

/// Draw a menu with given items(lenght limit: 26), just like this:
/// ```text
/// ┌─────────┐
/// │ a.one   │
/// │ b.two   │
/// │ c.three │
/// │ d.four  │
/// └─────────┘
/// ```
///
/// Returns the layout of the menu, or the reason why it has none.
pub fn show_menu(pos: &Pos, opts: &Vec<String>, focus_idx: usize) -> (res: Result<
    Menu,
    &'static str,
>)
    requires
        menu_ok(opts@, focus_idx as int) ==> menu_fits(*pos, opts@),
    ensures
        res is Ok <==> menu_ok(opts@, focus_idx as int),
        res matches Err(e) ==> e@ == if opts.len() > 26 {
            "The length of options should be between 1 and 26."@
        } else {
            "The focus idx should not be bigger then length of options"@
        },
        res matches Ok(menu) ==> {
            &&& menu.lines.len() == opts.len()
            &&& forall|i: int|
                0 <= i < opts.len() ==> #[trigger] menu.lines[i] == menu_line(
                    *pos,
                    opts@,
                    focus_idx as int,
                    i,
                )
            &&& menu.width == longest(opts@, opts.len() as int) + 4
            &&& menu.end == Pos((pos.0 + 1 + menu.width) as u16, (pos.1 + 1 + opts.len()) as u16)
        },
{
    if opts.len() > 26 {
        return Err("The length of options should be between 1 and 26.");
    }
    if focus_idx >= opts.len() {
        return Err("The focus idx should not be bigger then length of options");
    }
    let max_height = opts.len();
    let mut max_word_len: usize = 0;
    let mut k: usize = 0;
    while k < max_height
        invariant
            max_height == opts.len(),
            k <= max_height,
            max_word_len == longest(opts@, k as int),
        decreases max_height - k,
    {
        let len = opts[k].as_str().len();
        if len > max_word_len {
            max_word_len = len;
        }
        k += 1;
    }
    let max_width = max_word_len + 4;
    let mut lines: Vec<MenuLine> = Vec::new();
    let mut idx: usize = 0;
    while idx < max_height
        invariant
            max_height == opts.len(),
            max_height <= 26,
            menu_fits(*pos, opts@),
            max_word_len == longest(opts@, opts.len() as int),
            idx <= max_height,
            lines.len() == idx,
            forall|i: int|
                0 <= i < idx ==> #[trigger] lines[i] == menu_line(*pos, opts@, focus_idx as int, i),
        decreases max_height - idx,
    {
        proof {
            lemma_longest(opts@, opts.len() as int, idx as int);
        }
        let enum_char = (97u8 + idx as u8) as char;
        let pad = max_word_len - opts[idx].as_str().len();
        lines.push(
            MenuLine {
                at: Pos(pos.0 + 1, pos.1 + 1 + idx as u16),
                letter: enum_char,
                pad,
                focus: focus_idx == idx,
            },
        );
        idx += 1;
    }
    Ok(
        Menu {
            lines,
            width: max_width,
            end: Pos(pos.0 + 1 + max_width as u16, pos.1 + 1 + max_height as u16),
        },
    )
}

/// The character of a decimal digit.
pub open spec fn digit(d: int) -> char {
    if d == 0 {
        '0'
    } else if d == 1 {
        '1'
    } else if d == 2 {
        '2'
    } else if d == 3 {
        '3'
    } else if d == 4 {
        '4'
    } else if d == 5 {
        '5'
    } else if d == 6 {
        '6'
    } else if d == 7 {
        '7'
    } else if d == 8 {
        '8'
    } else {
        '9'
    }
}

/// A number in decimal digits.
pub open spec fn digits(n: nat) -> Seq<char>
    decreases n,
{
    if n < 10 {
        seq![digit(n as int)]
    } else {
        digits(n / 10).push(digit((n % 10) as int))
    }
}

/// A number in decimal digits, with zeros in front of it where it has fewer than `width`.
pub open spec fn padded(n: nat, width: nat) -> Seq<char> {
    if digits(n).len() >= width {
        digits(n)
    } else {
        Seq::new((width - digits(n).len()) as nat, |i: int| '0') + digits(n)
    }
}

/// The characters of a list of digits, the last of the list first.
pub open spec fn backwards(ds: Seq<usize>) -> Seq<char>
    decreases ds.len(),
{
    if ds.len() == 0 {
        Seq::empty()
    } else {
        seq![digit(ds.last() as int)] + backwards(ds.drop_last())
    }
}

/// A list of digits gives as many characters as it has digits.
pub proof fn lemma_backwards_len(ds: Seq<usize>)
    ensures
        backwards(ds).len() == ds.len(),
    decreases ds.len(),
{
    if ds.len() > 0 {
        lemma_backwards_len(ds.drop_last());
    }
}

/// One decimal digit as text.
fn digit_str(d: usize) -> (s: &'static str)
    requires
        d < 10,
    ensures
        s@ == seq![digit(d as int)],
{
    proof {
        reveal_strlit("0");
        reveal_strlit("1");
        reveal_strlit("2");
        reveal_strlit("3");
        reveal_strlit("4");
        reveal_strlit("5");
        reveal_strlit("6");
        reveal_strlit("7");
        reveal_strlit("8");
        reveal_strlit("9");
        assert("0"@ =~= seq!['0']);
        assert("1"@ =~= seq!['1']);
        assert("2"@ =~= seq!['2']);
        assert("3"@ =~= seq!['3']);
        assert("4"@ =~= seq!['4']);
        assert("5"@ =~= seq!['5']);
        assert("6"@ =~= seq!['6']);
        assert("7"@ =~= seq!['7']);
        assert("8"@ =~= seq!['8']);
        assert("9"@ =~= seq!['9']);
    }
    match d {
        0 => "0",
        1 => "1",
        2 => "2",
        3 => "3",
        4 => "4",
        5 => "5",
        6 => "6",
        7 => "7",
        8 => "8",
        _ => "9",
    }
}

/// Writes a number in decimal digits, with zeros in front of it where it has fewer than
/// `width`.
pub fn pad_number(n: usize, width: usize) -> (s: String)
    ensures
        s@ == padded(n as nat, width as nat),
{
    let mut ds: Vec<usize> = Vec::new();
    let mut m = n;
    loop
        invariant_except_break
            digits(n as nat) == digits(m as nat) + backwards(ds@),
            ds.len() <= n - m,
        invariant
            forall|i: int| 0 <= i < ds.len() ==> ds[i] < 10,
        ensures
            digits(n as nat) == backwards(ds@),
            0 < ds.len(),
        decreases m,
    {
        let d = m % 10;
        let ghost before = ds@;
        ds.push(d);
        proof {
            assert(ds@.drop_last() =~= before);
        }
        if m < 10 {
            break ;
        }
        proof {
            assert(digits(m as nat) =~= digits((m / 10) as nat) + seq![digit(d as int)]);
            assert(digits(n as nat) =~= digits((m / 10) as nat) + backwards(ds@));
        }
        m = m / 10;
    }
    let mut s = String::new();
    let mut k = ds.len();
    while k < width
        invariant
            ds.len() <= k,
            k <= width || k == ds.len(),
            s@ == Seq::new((k - ds.len()) as nat, |i: int| '0'),
        decreases width - k,
    {
        s.append("0");
        k += 1;
        proof {
            reveal_strlit("0");
            assert(s@ =~= Seq::new((k - ds.len()) as nat, |i: int| '0'));
        }
    }
    let ghost zeros = s@;
    let mut i = ds.len();
    proof {
        assert(ds@.take(i as int) =~= ds@);
    }
    while i > 0
        invariant
            i <= ds.len(),
            forall|j: int| 0 <= j < ds.len() ==> ds[j] < 10,
            s@ + backwards(ds@.take(i as int)) == zeros + backwards(ds@),
        decreases i,
    {
        let ghost part = ds@.take(i as int);
        i -= 1;
        s.append(digit_str(ds[i]));
        proof {
            assert(part.drop_last() =~= ds@.take(i as int));
            assert(s@ + backwards(ds@.take(i as int)) =~= zeros + backwards(ds@));
        }
    }
    proof {
        assert(ds@.take(0).len() == 0);
        assert(s@ =~= zeros + backwards(ds@));
        lemma_backwards_len(ds@);
    }
    s
}

/// The number of flags that can still be placed, in two digits at `pos`, and the place
/// below it.
pub fn show_bomb_status(pos: &Pos, flag_num: usize) -> (res: (Glyph, Pos))
    requires
        pos.1 < u16::MAX,
    ensures
        res.0.at == *pos,
        res.0.text@ == padded(flag_num as nat, 2),
        res.1 == Pos(pos.0, (pos.1 + 1) as u16),
{
    (Glyph { at: *pos, text: pad_number(flag_num, 2) }, Pos(pos.0, pos.1 + 1))
}

/// The seconds played, in three digits at the right end of the line that starts at `pos`
/// above the board, and the place below the start of that line.
pub fn show_time_status(pos: &Pos, conf: &GameConfig, time: usize) -> (res: (Glyph, Pos))
    requires
        1 <= pos.0 + conf.width <= u16::MAX,
        pos.1 < u16::MAX,
    ensures
        res.0.at == Pos((pos.0 + conf.width - 1) as u16, pos.1),
        res.0.text@ == padded(time as nat, 3),
        res.1 == Pos(pos.0, (pos.1 + 1) as u16),
{
    (
        Glyph { at: Pos(pos.0 + conf.width as u16 - 1, pos.1), text: pad_number(time, 3) },
        Pos(pos.0, pos.1 + 1),
    )
}

} // verus!
