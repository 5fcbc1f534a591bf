use rua::config::GameConfig;
use rua::draw::{
    draw_ferris_with, ferris_says_difficulty, ferris_says_end, ferris_says_flag, ferris_says_lose,
    ferris_says_mine, ferris_says_move, ferris_says_quit, ferris_says_start, ferris_says_win,
    pad_number, show_bomb_status, show_map, show_menu, show_time_status, Ferris, MenuLine, Pos,
    ShowMode,
};
use rua::layout::lay_map;
use rua::map::{Cell, Content, Surface};

fn face(f: &Ferris) -> (&'static str, &'static str, &'static str, &'static str) {
    (f.words, f.mouth, f.leye, f.reye)
}

#[test]
fn print_ferris() {
    let Pos(x, y) = draw_ferris_with(&Pos(1, 1), "just for test", "v", "O", "o").end;
    assert_eq!(1, x);
    assert_eq!(10, y);
}

#[test]
fn print_menu() {
    let opts = vec![
        "one".to_string(),
        "two".to_string(),
        "three".to_string(),
        "four".to_string(),
    ];
    show_menu(&Pos(1, 1), &opts, 2).unwrap();
}

#[test]
fn ferris_is_drawn_as_asked() {
    let f = draw_ferris_with(&Pos(4, 7), "just for test", "v", "O", "o");
    assert_eq!(face(&f), ("just for test", "v", "O", "o"));
    assert_eq!(f.end, Pos(4, 16));
}

#[test]
fn what_ferris_says() {
    let pos = Pos(1, 1);
    assert_eq!(face(&ferris_says_start(&pos)), ("Ready?", "v", "0", "0"));
    assert_eq!(face(&ferris_says_quit(&pos)), ("Bye~", "o", "-", "-"));
    assert_eq!(face(&ferris_says_win(&pos, 0)), ("Win!", "3", "^", "^"));
    assert_eq!(face(&ferris_says_win(&pos, 1)), ("WOW, Genius!", "3", "^", "^"));
    assert_eq!(face(&ferris_says_win(&pos, 2)), ("Win!", "3", "^", "^"));
    assert_eq!(face(&ferris_says_lose(&pos, 0)), ("You Lose!", "x", "#", "#"));
    assert_eq!(face(&ferris_says_lose(&pos, 1)), ("BOOM!", "x", "#", "#"));
    assert_eq!(face(&ferris_says_mine(&pos, 0)), ("You're safe.", "o", "0", "0"));
    assert_eq!(face(&ferris_says_mine(&pos, 1)), ("Rua!!!", "o", "0", "0"));
    assert_eq!(face(&ferris_says_flag(&pos, 0)), ("You can't flag here.", "u", "o", "o"));
    assert_eq!(face(&ferris_says_flag(&pos, 1)), ("Good Flag.", "u", "o", "o"));
    assert_eq!(face(&ferris_says_move(&pos, 0)), ("Move Move Move!", "r", "6", "6"));
    assert_eq!(face(&ferris_says_move(&pos, 1)), ("Are you sure?", "r", "6", "6"));
    assert_eq!(face(&ferris_says_end(&pos, 0)), ("One more time!", "v", "$", "$"));
    assert_eq!(face(&ferris_says_end(&pos, 1)), ("Back to menu.", "v", "$", "$"));
    assert_eq!(face(&ferris_says_difficulty(&pos, 0)), ("Eazy as fuck.", "w", "o", "o"));
    assert_eq!(face(&ferris_says_difficulty(&pos, 1)), ("It's OK.", "w", "o", "o"));
    assert_eq!(face(&ferris_says_difficulty(&pos, 2)), ("Really?", "w", "o", "o"));
    assert_eq!(face(&ferris_says_difficulty(&pos, 3)), ("Eazy as fuck.", "w", "o", "o"));
    assert_eq!(ferris_says_start(&pos).end, Pos(1, 10));
    assert_eq!(ferris_says_win(&Pos(3, 20), 5).end, Pos(3, 29));
}

#[test]
fn a_menu_is_laid_out() {
    let opts = vec![
        "one".to_string(),
        "two".to_string(),
        "three".to_string(),
        "four".to_string(),
    ];
    let menu = show_menu(&Pos(1, 1), &opts, 2).unwrap();
    assert_eq!(menu.width, 9);
    assert_eq!(menu.end, Pos(11, 6));
    assert_eq!(
        menu.lines,
        vec![
            MenuLine { at: Pos(2, 2), letter: 'a', pad: 2, focus: false },
            MenuLine { at: Pos(2, 3), letter: 'b', pad: 2, focus: false },
            MenuLine { at: Pos(2, 4), letter: 'c', pad: 0, focus: true },
            MenuLine { at: Pos(2, 5), letter: 'd', pad: 1, focus: false },
        ]
    );
}

#[test]
fn a_menu_measures_its_items_in_bytes() {
    let opts = vec!["\u{e9}t\u{e9}".to_string(), "four".to_string()];
    let menu = show_menu(&Pos(5, 5), &opts, 0).unwrap();
    assert_eq!(menu.width, 9);
    assert_eq!(menu.lines[0].pad, 0);
    assert_eq!(menu.lines[1].pad, 1);
    assert_eq!(menu.end, Pos(15, 8));
}

#[test]
fn a_menu_that_cannot_be_drawn() {
    let many: Vec<String> = (0..27).map(|i| i.to_string()).collect();
    assert_eq!(
        show_menu(&Pos(1, 1), &many, 0).err(),
        Some("The length of options should be between 1 and 26.")
    );
    assert_eq!(
        show_menu(&Pos(1, 1), &many, 40).err(),
        Some("The length of options should be between 1 and 26.")
    );
    let two = vec!["Retry".to_string(), "Go Back".to_string()];
    assert_eq!(
        show_menu(&Pos(1, 1), &two, 2).err(),
        Some("The focus idx should not be bigger then length of options")
    );
    assert_eq!(
        show_menu(&Pos(1, 1), &Vec::new(), 0).err(),
        Some("The focus idx should not be bigger then length of options")
    );
    let full: Vec<String> = (0..26).map(|i| i.to_string()).collect();
    let menu = show_menu(&Pos(1, 1), &full, 25).unwrap();
    assert_eq!(menu.lines[25].letter, 'z');
    assert!(menu.lines[25].focus);
}

#[test]
fn symbols_of_contents_and_surfaces() {
    assert_eq!(Content::Zero.to_string(), " ");
    assert_eq!(Content::One.to_string(), "\x1b[38;5;12m1\x1b[m");
    assert_eq!(Content::Two.to_string(), "\x1b[38;5;10m2\x1b[m");
    assert_eq!(Content::Three.to_string(), "\x1b[38;5;9m3\x1b[m");
    assert_eq!(Content::Four.to_string(), "\x1b[38;5;5m4\x1b[m");
    assert_eq!(Content::Five.to_string(), "\x1b[38;5;1m5\x1b[m");
    assert_eq!(Content::Six.to_string(), "\x1b[38;5;2m6\x1b[m");
    assert_eq!(Content::Seven.to_string(), "\x1b[38;5;4m7\x1b[m");
    assert_eq!(Content::Eight.to_string(), "\x1b[38;5;6m8\x1b[m");
    assert_eq!(Content::Bomb.to_string(), "\x1b[38;5;0m\x1b[48;5;1m*\x1b[m");
    assert_eq!(Surface::Cover.to_string(), "\u{2593}");
    assert_eq!(Surface::Flag.to_string(), "\x1b[38;5;3mP\x1b[m");
    assert_eq!(Surface::Open.to_string(), " ");
}

#[test]
fn a_cell_shows_its_content_once_it_is_open() {
    let open = Cell::new(Content::Two, Surface::Open);
    assert_eq!(open.to_string(), "\x1b[38;5;10m2\x1b[m");
    assert_eq!(open.get_content_symbol(), "\x1b[38;5;10m2\x1b[m");
    assert_eq!(open.get_surface_symbol(), " ");
    let covered = Cell::new(Content::Two, Surface::Cover);
    assert_eq!(covered.to_string(), "\u{2593}");
    assert_eq!(covered.get_content_symbol(), "\x1b[38;5;10m2\x1b[m");
    let flagged = Cell::new(Content::Bomb, Surface::Flag);
    assert_eq!(flagged.to_string(), "\x1b[38;5;3mP\x1b[m");
    assert_eq!(flagged.get_surface_symbol(), "\x1b[38;5;3mP\x1b[m");
}

#[test]
fn the_board_in_its_four_modes() {
    let conf = GameConfig { height: 2, width: 2, bomb: 1 };
    let mut map = lay_map(0, &conf, vec![0, 0, 0, 9]);
    map[0].surface = Surface::Open;
    map[1].surface = Surface::Flag;
    let texts = |mode: ShowMode| -> Vec<String> {
        show_map(&Pos(1, 11), &conf, &map, mode).into_iter().map(|g| g.text).collect()
    };
    let one = "\x1b[38;5;12m1\x1b[m".to_string();
    let flag = "\x1b[38;5;3mP\x1b[m".to_string();
    let cover = "\u{2593}".to_string();
    let bomb = "\x1b[38;5;0m\x1b[48;5;1m*\x1b[m".to_string();
    assert_eq!(
        texts(ShowMode::Normal),
        vec![one.clone(), flag.clone(), cover.clone(), cover.clone()]
    );
    assert_eq!(texts(ShowMode::All), vec![one.clone(), one.clone(), one.clone(), bomb.clone()]);
    assert_eq!(texts(ShowMode::Win), vec![one.clone(), one.clone(), one.clone(), flag.clone()]);
    assert_eq!(texts(ShowMode::Lose), vec![one.clone(), flag.clone(), cover.clone(), bomb.clone()]);
    let places: Vec<Pos> =
        show_map(&Pos(1, 11), &conf, &map, ShowMode::Normal).into_iter().map(|g| g.at).collect();
    assert_eq!(places, vec![Pos(2, 12), Pos(3, 12), Pos(2, 13), Pos(3, 13)]);
}

#[test]
fn numbers_are_filled_up_with_zeros() {
    assert_eq!(pad_number(0, 2), "00");
    assert_eq!(pad_number(7, 2), "07");
    assert_eq!(pad_number(10, 2), "10");
    assert_eq!(pad_number(99, 2), "99");
    assert_eq!(pad_number(100, 2), "100");
    assert_eq!(pad_number(5, 3), "005");
    assert_eq!(pad_number(42, 3), "042");
    assert_eq!(pad_number(1234, 3), "1234");
    assert_eq!(pad_number(0, 0), "0");
    assert_eq!(pad_number(9, 1), "9");
    assert_eq!(pad_number(1905, 6), "001905");
    assert_eq!(pad_number(usize::MAX, 3), usize::MAX.to_string());
    for n in 0..1200 {
        assert_eq!(pad_number(n, 2), format!("{:02}", n));
        assert_eq!(pad_number(n, 3), format!("{:03}", n));
    }
}

#[test]
fn the_status_line() {
    let (shown, next) = show_bomb_status(&Pos(1, 10), 10);
    assert_eq!((shown.at, shown.text.as_str(), next), (Pos(1, 10), "10", Pos(1, 11)));
    let (shown, next) = show_bomb_status(&Pos(4, 2), 3);
    assert_eq!((shown.at, shown.text.as_str(), next), (Pos(4, 2), "03", Pos(4, 3)));
    let conf = GameConfig { height: 16, width: 30, bomb: 99 };
    let (shown, next) = show_time_status(&Pos(1, 10), &conf, 7);
    assert_eq!((shown.at, shown.text.as_str(), next), (Pos(30, 10), "007", Pos(1, 11)));
}
