use rua::config::{env_or_into_char, globle_config_from_env, GameConfig, GameMode};

#[test]
fn the_board_has_height_times_width_squares() {
    assert_eq!(GameConfig { height: 9, width: 9, bomb: 10 }.get_size(), 81);
    assert_eq!(GameConfig { height: 16, width: 30, bomb: 99 }.get_size(), 480);
    assert_eq!(GameConfig { height: 0, width: 30, bomb: 0 }.get_size(), 0);
}

#[test]
fn the_three_difficulties() {
    assert_eq!(GameMode::from_usize(0), GameMode::Simple);
    assert_eq!(GameMode::from_usize(1), GameMode::Normal);
    assert_eq!(GameMode::from_usize(2), GameMode::Hard);
    assert_eq!(GameMode::from_usize(3), GameMode::Hard);
    assert_eq!(GameMode::from_usize(usize::MAX), GameMode::Hard);
    assert_eq!(
        GameConfig::from_game_mode(GameMode::Simple),
        GameConfig { height: 9, width: 9, bomb: 10 }
    );
    assert_eq!(
        GameConfig::from_game_mode(GameMode::Normal),
        GameConfig { height: 16, width: 16, bomb: 40 }
    );
    assert_eq!(
        GameConfig::from_game_mode(GameMode::Hard),
        GameConfig { height: 16, width: 30, bomb: 99 }
    );
    assert_eq!(GameMode::Simple.to_string(), "Simple");
    assert_eq!(GameMode::Normal.to_string(), "Normal");
    assert_eq!(GameMode::Hard.to_string(), "Hard");
}

#[test]
fn keys_without_a_setting() {
    let conf = globle_config_from_env(&None, &None, &None, &None, &None, &None, &None);
    assert_eq!(conf.up_key, 'k');
    assert_eq!(conf.down_key, 'j');
    assert_eq!(conf.left_key, 'h');
    assert_eq!(conf.right_key, 'l');
    assert_eq!(conf.mine_key, ' ');
    assert_eq!(conf.flag_key, 'f');
    assert_eq!(conf.quit_key, 'q');
}

#[test]
fn keys_from_settings() {
    let set = |s: &str| Some(s.to_string());
    let conf = globle_config_from_env(
        &set("w"),
        &set("s"),
        &set("a"),
        &set("d"),
        &set("enter"),
        &None,
        &set("\u{e9}t\u{e9}"),
    );
    assert_eq!(conf.up_key, 'w');
    assert_eq!(conf.down_key, 's');
    assert_eq!(conf.left_key, 'a');
    assert_eq!(conf.right_key, 'd');
    assert_eq!(conf.mine_key, 'e');
    assert_eq!(conf.flag_key, 'f');
    assert_eq!(conf.quit_key, '\u{e9}');
    assert_eq!(env_or_into_char(&set("xyz"), "k"), 'x');
    assert_eq!(env_or_into_char(&None, "kite"), 'k');
}
