use rua::config::GameConfig;
use rua::draw::Pos;
use rua::event::{flag_event, judge, mine_event, RevealOutcome};
use rua::layout::lay_map;
use rua::map::{flag_map, mine_map, Cell, Content, Surface};

const ORIGIN: Pos = Pos(2, 12);

fn at(conf: &GameConfig, idx: usize) -> Pos {
    Pos(2 + (idx % conf.width) as u16, 12 + (idx / conf.width) as u16)
}

fn surfaces(map: &[Cell]) -> Vec<Surface> {
    map.iter().map(|c| c.surface).collect()
}

fn opened_at(map: &[Cell]) -> Vec<usize> {
    (0..map.len()).filter(|&i| map[i].surface == Surface::Open).collect()
}

/// A 4 by 4 board with one bomb in the lower right corner.
fn corner_board() -> (GameConfig, Vec<Cell>) {
    let conf = GameConfig { height: 4, width: 4, bomb: 1 };
    let mut layout = vec![0i8; 16];
    layout[15] = 9;
    let map = lay_map(0, &conf, layout);
    (conf, map)
}

/// A 1 by 7 board: two empty stretches parted by a bomb and its two counts.
fn strip_board() -> (GameConfig, Vec<Cell>) {
    let conf = GameConfig { height: 1, width: 7, bomb: 1 };
    let map = lay_map(0, &conf, vec![0, 0, 0, 9, 0, 0, 0]);
    (conf, map)
}

#[test]
fn fill_spreads_over_the_empty_region_and_its_rim() {
    let (conf, map) = corner_board();
    let mut left = 16;
    let map = mine_map(&ORIGIN, &at(&conf, 0), &conf, map, &mut left);
    assert_eq!(opened_at(&map), (0..15).collect::<Vec<usize>>());
    assert_eq!(map[15].surface, Surface::Cover);
    assert_eq!(left, 1);
}

#[test]
fn fill_stops_at_the_counts() {
    let (conf, map) = strip_board();
    let mut left = 7;
    let map = mine_map(&ORIGIN, &at(&conf, 0), &conf, map, &mut left);
    assert_eq!(opened_at(&map), vec![0, 1, 2]);
    assert_eq!(left, 4);
    let map = mine_map(&ORIGIN, &at(&conf, 6), &conf, map, &mut left);
    assert_eq!(opened_at(&map), vec![0, 1, 2, 4, 5, 6]);
    assert_eq!(left, 1);
}

#[test]
fn a_count_opens_alone() {
    let (conf, map) = strip_board();
    let mut left = 7;
    let map = mine_map(&ORIGIN, &at(&conf, 2), &conf, map, &mut left);
    assert_eq!(opened_at(&map), vec![2]);
    assert_eq!(map[2].content, Content::One);
    assert_eq!(left, 6);
}

#[test]
fn a_second_click_on_an_open_square_changes_nothing() {
    let (conf, map) = strip_board();
    let mut left = 7;
    let once = mine_map(&ORIGIN, &at(&conf, 1), &conf, map, &mut left);
    let left_once = left;
    let twice = mine_map(&ORIGIN, &at(&conf, 1), &conf, once.clone(), &mut left);
    assert_eq!(twice, once);
    assert_eq!(left, left_once);
    let first = judge(&once[1], left_once, &conf);
    let second = judge(&twice[1], left, &conf);
    assert_eq!(first, second);
    assert_eq!(first, RevealOutcome::Continue);
}

#[test]
fn a_click_on_a_flag_changes_nothing() {
    let (conf, map) = strip_board();
    let mut flags = 0;
    let (map, ok) = flag_map(&ORIGIN, &at(&conf, 1), &conf, map, &mut flags);
    assert!(ok);
    let mut left = 7;
    let after = mine_map(&ORIGIN, &at(&conf, 1), &conf, map.clone(), &mut left);
    assert_eq!(after, map);
    assert_eq!(left, 7);
}

#[test]
fn a_flag_holds_the_fill_back() {
    let conf = GameConfig { height: 1, width: 7, bomb: 1 };
    let map = lay_map(0, &conf, vec![0, 0, 0, 0, 0, 0, 9]);
    let mut flags = 0;
    let (map, _) = flag_map(&ORIGIN, &at(&conf, 2), &conf, map, &mut flags);
    let mut left = 7;
    let map = mine_map(&ORIGIN, &at(&conf, 0), &conf, map, &mut left);
    assert_eq!(
        surfaces(&map),
        vec![
            Surface::Open,
            Surface::Open,
            Surface::Flag,
            Surface::Cover,
            Surface::Cover,
            Surface::Cover,
            Surface::Cover,
        ]
    );
    assert_eq!(left, 5);
}

#[test]
fn a_bomb_opens_alone_and_costs_one() {
    let (conf, map) = strip_board();
    let mut left = 7;
    let before = map[3];
    let map = mine_map(&ORIGIN, &at(&conf, 3), &conf, map, &mut left);
    assert_eq!(opened_at(&map), vec![3]);
    assert_eq!(left, 6);
    assert_eq!(judge(&before, left, &conf), RevealOutcome::BombHit);
}

#[test]
fn a_bomb_hit_wins_over_a_cleared_count() {
    let conf = GameConfig { height: 1, width: 2, bomb: 1 };
    let covered_bomb = Cell::new(Content::Bomb, Surface::Cover);
    assert_eq!(judge(&covered_bomb, 1, &conf), RevealOutcome::BombHit);
    let covered_count = Cell::new(Content::One, Surface::Cover);
    assert_eq!(judge(&covered_count, 1, &conf), RevealOutcome::AllClear);
    assert_eq!(judge(&covered_count, 2, &conf), RevealOutcome::Continue);
    let open_bomb = Cell::new(Content::Bomb, Surface::Open);
    assert_eq!(judge(&open_bomb, 1, &conf), RevealOutcome::AllClear);
    let flagged_bomb = Cell::new(Content::Bomb, Surface::Flag);
    assert_eq!(judge(&flagged_bomb, 2, &conf), RevealOutcome::Continue);
}

#[test]
fn the_last_free_square_wins_the_game() {
    let (conf, map) = strip_board();
    let mut rng = rand::thread_rng();
    let mut first_click = false;
    let mut left = 7;
    let (map, outcome) =
        mine_event(&ORIGIN, &at(&conf, 0), &conf, &mut rng, &mut first_click, &mut left, map);
    assert_eq!(outcome, RevealOutcome::Continue);
    let (map, outcome) =
        mine_event(&ORIGIN, &at(&conf, 4), &conf, &mut rng, &mut first_click, &mut left, map);
    assert_eq!(outcome, RevealOutcome::Continue);
    assert_eq!(left, 3);
    let (map, outcome) =
        mine_event(&ORIGIN, &at(&conf, 5), &conf, &mut rng, &mut first_click, &mut left, map);
    assert_eq!(outcome, RevealOutcome::AllClear);
    assert_eq!(left, conf.bomb);
    assert_eq!(opened_at(&map), vec![0, 1, 2, 4, 5, 6]);
}

#[test]
fn a_click_on_a_bomb_loses_the_game() {
    let (conf, map) = strip_board();
    let mut rng = rand::thread_rng();
    let mut first_click = false;
    let mut left = 7;
    let (map, outcome) =
        mine_event(&ORIGIN, &at(&conf, 3), &conf, &mut rng, &mut first_click, &mut left, map);
    assert_eq!(outcome, RevealOutcome::BombHit);
    assert_eq!(left, 6);
    assert_eq!(map[3], Cell::new(Content::Bomb, Surface::Open));
}

#[test]
fn the_first_click_makes_the_board_and_opens_the_square() {
    let conf = GameConfig { height: 9, width: 9, bomb: 10 };
    let mut rng = rand::thread_rng();
    for _ in 0..30 {
        let blank = vec![Cell::new(Content::Zero, Surface::Cover); 81];
        let mut first_click = true;
        let mut left = 81;
        let click = at(&conf, 40);
        let (map, outcome) =
            mine_event(&ORIGIN, &click, &conf, &mut rng, &mut first_click, &mut left, blank);
        assert!(!first_click);
        assert_eq!(map.iter().filter(|c| c.content == Content::Bomb).count(), 10);
        assert_eq!(map[40].surface, Surface::Open);
        assert_ne!(map[40].content, Content::Bomb);
        assert_ne!(outcome, RevealOutcome::BombHit);
        assert_eq!(left, map.iter().filter(|c| c.surface != Surface::Open).count());
        assert_eq!(outcome == RevealOutcome::AllClear, left == 10);
    }
}

#[test]
fn every_empty_square_joined_to_the_click_is_open() {
    let conf = GameConfig { height: 16, width: 30, bomb: 99 };
    let mut rng = rand::thread_rng();
    for _ in 0..10 {
        let blank = vec![Cell::new(Content::Zero, Surface::Cover); 480];
        let mut first_click = true;
        let mut left = 480;
        let click = at(&conf, 200);
        let (map, _) =
            mine_event(&ORIGIN, &click, &conf, &mut rng, &mut first_click, &mut left, blank);
        for pos in 0..480 {
            if map[pos].surface == Surface::Open && map[pos].content == Content::Zero {
                for near in rua::around::check_around_fn(16, 30, pos) {
                    assert_eq!(map[near].surface, Surface::Open);
                }
            }
            if map[pos].surface == Surface::Open && pos != 200 {
                let joined = rua::around::check_around_fn(16, 30, pos)
                    .into_iter()
                    .any(|n| map[n].surface == Surface::Open && map[n].content == Content::Zero);
                assert!(joined);
            }
        }
    }
}

#[test]
fn flags_go_on_and_off() {
    let (conf, map) = strip_board();
    let mut flags = 0;
    let (map, ok) = flag_map(&ORIGIN, &at(&conf, 3), &conf, map, &mut flags);
    assert!(ok);
    assert_eq!(flags, 1);
    assert_eq!(map[3].surface, Surface::Flag);
    assert_eq!(map[3].content, Content::Bomb);
    let (map, ok) = flag_map(&ORIGIN, &at(&conf, 3), &conf, map, &mut flags);
    assert!(ok);
    assert_eq!(flags, 0);
    assert_eq!(map[3].surface, Surface::Cover);
    assert!(map.iter().all(|c| c.surface == Surface::Cover));
}

#[test]
fn no_flag_beyond_the_number_of_bombs() {
    let (conf, map) = strip_board();
    let mut flags = 0;
    let (map, _) = flag_map(&ORIGIN, &at(&conf, 0), &conf, map, &mut flags);
    assert_eq!(flags, conf.bomb);
    let (after, ok) = flag_map(&ORIGIN, &at(&conf, 1), &conf, map.clone(), &mut flags);
    assert!(!ok);
    assert_eq!(after, map);
    assert_eq!(after[1].surface, Surface::Cover);
    assert_eq!(flags, conf.bomb);
}

#[test]
fn no_flag_comes_off_when_none_is_counted() {
    let (conf, mut map) = strip_board();
    map[2].surface = Surface::Flag;
    let mut flags = 0;
    let (after, ok) = flag_map(&ORIGIN, &at(&conf, 2), &conf, map.clone(), &mut flags);
    assert!(!ok);
    assert_eq!(after, map);
    assert_eq!(flags, 0);
}

#[test]
fn no_flag_on_an_open_square() {
    let (conf, map) = strip_board();
    let mut left = 7;
    let map = mine_map(&ORIGIN, &at(&conf, 2), &conf, map, &mut left);
    let mut flags = 0;
    let (after, ok) = flag_map(&ORIGIN, &at(&conf, 2), &conf, map.clone(), &mut flags);
    assert!(!ok);
    assert_eq!(after, map);
    assert_eq!(flags, 0);
}

#[test]
fn no_flag_before_the_first_click() {
    let conf = GameConfig { height: 1, width: 7, bomb: 1 };
    let blank = vec![Cell::new(Content::Zero, Surface::Cover); 7];
    let mut flags = 0;
    let (after, ok) = flag_event(&ORIGIN, &at(&conf, 2), &conf, true, blank.clone(), &mut flags);
    assert!(!ok);
    assert_eq!(after, blank);
    assert_eq!(flags, 0);
    let (after, ok) = flag_event(&ORIGIN, &at(&conf, 2), &conf, false, blank, &mut flags);
    assert!(ok);
    assert_eq!(after[2].surface, Surface::Flag);
    assert_eq!(flags, 1);
}
