use vstd::prelude::*;
use vstd::string::*;

verus! {

/// The basic configs for whole program, just some keymaps for now.
#[derive(Clone, Copy, Debug)]
pub struct GlobleConfig {
    pub up_key: char,
    pub down_key: char,
    pub left_key: char,
    pub right_key: char,
    pub mine_key: char,
    pub flag_key: char,
    pub quit_key: char,
}

/// The key that a setting names: the first character of its value, or of `default` where the
/// setting has no value.
pub open spec fn key_of(value: Option<String>, default: Seq<char>) -> char {
    match value {
        Some(v) => v@[0],
        None => default[0],
    }
}

/// A setting that can name a key: one that is absent, or whose value is not empty.
pub open spec fn names_key(value: Option<String>) -> bool {
    match value {
        Some(v) => v@.len() > 0,
        None => true,
    }
}

pub fn env_or_into_char(value: &Option<String>, default: &str) -> (c: char)
    requires
        names_key(*value),
        default@.len() > 0,
    ensures
        c == key_of(*value, default@),
{
    match value {
        Some(v) => v.as_str().get_char(0),
        None => default.get_char(0),
    }
}

/// The keymap that the seven settings give, each as read from the environment: the keys for
/// up, down, left, right, opening, flagging and leaving. For a setting without a value the
/// key is `k`, `j`, `h`, `l`, the space bar, `f` and `q`, in that order.
pub fn globle_config_from_env(
    up_key: &Option<String>,
    down_key: &Option<String>,
    left_key: &Option<String>,
    right_key: &Option<String>,
    mine_key: &Option<String>,
    flag_key: &Option<String>,
    quit_key: &Option<String>,
) -> (conf: GlobleConfig)
    requires
        names_key(*up_key),
        names_key(*down_key),
        names_key(*left_key),
        names_key(*right_key),
        names_key(*mine_key),
        names_key(*flag_key),
        names_key(*quit_key),
    ensures
        conf.up_key == key_of(*up_key, seq!['k']),
        conf.down_key == key_of(*down_key, seq!['j']),
        conf.left_key == key_of(*left_key, seq!['h']),
        conf.right_key == key_of(*right_key, seq!['l']),
        conf.mine_key == key_of(*mine_key, seq![' ']),
        conf.flag_key == key_of(*flag_key, seq!['f']),
        conf.quit_key == key_of(*quit_key, seq!['q']),
{
    proof {
        reveal_strlit("k");
        reveal_strlit("j");
        reveal_strlit("h");
        reveal_strlit("l");
        reveal_strlit(" ");
        reveal_strlit("f");
        reveal_strlit("q");
    }
    GlobleConfig {
        up_key: env_or_into_char(up_key, "k"),
        down_key: env_or_into_char(down_key, "j"),
        left_key: env_or_into_char(left_key, "h"),
        right_key: env_or_into_char(right_key, "l"),
        mine_key: env_or_into_char(mine_key, " "),
        flag_key: env_or_into_char(flag_key, "f"),
        quit_key: env_or_into_char(quit_key, "q"),
    }
}

/// The configs of game mode.
#[derive(Clone, Copy, Debug, PartialEq, Eq, Structural)]
pub struct GameConfig {
    pub height: usize,
    pub width: usize,
    pub bomb: usize,
}

impl GameConfig {
    /// The number of squares on the board.
    pub open spec fn size(&self) -> int {
        self.height * self.width
    }

    pub fn get_size(&self) -> (n: usize)
        requires
            self.size() <= usize::MAX,
        ensures
            n == self.size(),
    {
        self.height * self.width
    }

    /// new_game_config is used to make a game mode config.
    pub fn from_game_mode(mode: GameMode) -> (conf: GameConfig)
        ensures
            conf == match mode {
                GameMode::Simple => (GameConfig { height: 9, width: 9, bomb: 10 }),
                GameMode::Normal => (GameConfig { height: 16, width: 16, bomb: 40 }),
                GameMode::Hard => (GameConfig { height: 16, width: 30, bomb: 99 }),
            },
    {
        match mode {
            GameMode::Simple => GameConfig { height: 9, width: 9, bomb: 10 },
            GameMode::Normal => GameConfig { height: 16, width: 16, bomb: 40 },
            GameMode::Hard => GameConfig { height: 16, width: 30, bomb: 99 },
        }
    }
}

/// The three difficulties on offer.
#[derive(Clone, Copy, Debug, PartialEq, Eq, Structural)]
pub enum GameMode {
    Simple,
    Normal,
    Hard,
}

impl GameMode {
    pub fn from_usize(num: usize) -> (mode: GameMode)
        ensures
            mode == if num == 0 {
                GameMode::Simple
            } else if num == 1 {
                GameMode::Normal
            } else {
                GameMode::Hard
            },
    {
        match num {
            0 => GameMode::Simple,
            1 => GameMode::Normal,
            _ => GameMode::Hard,
        }
    }

    /// The name of the difficulty, as the menu shows it.
    pub open spec fn name(self) -> Seq<char> {
        match self {
            GameMode::Simple => "Simple"@,
            GameMode::Normal => "Normal"@,
            GameMode::Hard => "Hard"@,
        }
    }

    pub fn to_string(&self) -> (s: String)
        ensures
            s@ == self.name(),
    {
        match self {
            GameMode::Simple => String::from_str("Simple"),
            GameMode::Normal => String::from_str("Normal"),
            GameMode::Hard => String::from_str("Hard"),
        }
    }
}

} // verus!
