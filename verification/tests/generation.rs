use rua::around::check_around_fn;
use rua::config::GameConfig;
use rua::draw::Pos;
use rua::layout::{binary_random, lay_map, BOMB};
use rua::map::{cell_index, gen_map, generate, Cell, Content, GenError, Surface};

fn bombs_in(map: &[Cell]) -> usize {
    map.iter().filter(|c| c.content == Content::Bomb).count()
}

fn count_by_scan(conf: &GameConfig, map: &[Cell], pos: usize) -> i8 {
    let (r, c) = ((pos / conf.width) as isize, (pos % conf.width) as isize);
    let mut n = 0;
    for dr in -1isize..=1 {
        for dc in -1isize..=1 {
            let (a, b) = (r + dr, c + dc);
            let inside = a >= 0 && a < conf.height as isize && b >= 0 && b < conf.width as isize;
            if (dr, dc) != (0, 0) && inside {
                if map[a as usize * conf.width + b as usize].content == Content::Bomb {
                    n += 1;
                }
            }
        }
    }
    n
}

fn contents(map: &[Cell]) -> Vec<Content> {
    map.iter().map(|c| c.content).collect()
}

#[test]
fn nine_by_nine_first_click_in_the_middle() {
    let conf = GameConfig { height: 9, width: 9, bomb: 10 };
    let mut rng = rand::thread_rng();
    for _ in 0..50 {
        let map = gen_map(&Pos(2, 3), &Pos(6, 7), &conf, &mut rng);
        assert_eq!(map.len(), 81);
        assert_eq!(bombs_in(&map), 10);
        assert_ne!(map[40].content, Content::Bomb);
        assert!(map.iter().all(|c| c.surface == Surface::Cover));
    }
}

#[test]
fn every_count_is_the_number_of_bombs_around() {
    let mut rng = rand::thread_rng();
    for (height, width, bomb) in [(9, 9, 10), (16, 16, 40), (16, 30, 99), (1, 7, 3), (5, 1, 2)] {
        let conf = GameConfig { height, width, bomb };
        for first in [0, height * width / 2, height * width - 1] {
            let map = generate(&conf, first, &mut rng).unwrap();
            assert_eq!(bombs_in(&map), bomb);
            assert_ne!(map[first].content, Content::Bomb);
            for pos in 0..map.len() {
                if map[pos].content != Content::Bomb {
                    let expected = Content::from_i8(count_by_scan(&conf, &map, pos));
                    assert_eq!(map[pos].content, expected);
                }
            }
        }
    }
}

#[test]
fn first_click_is_safe_on_a_crowded_board() {
    let conf = GameConfig { height: 2, width: 2, bomb: 3 };
    let mut rng = rand::thread_rng();
    for first in 0..4 {
        for _ in 0..20 {
            let map = generate(&conf, first, &mut rng).unwrap();
            assert_eq!(bombs_in(&map), 3);
            assert_ne!(map[first].content, Content::Bomb);
            assert_eq!(map[first].content, Content::Three);
        }
    }
}

#[test]
fn a_request_for_no_bomb_still_lays_one() {
    let conf = GameConfig { height: 3, width: 3, bomb: 0 };
    let mut rng = rand::thread_rng();
    for _ in 0..20 {
        let map = generate(&conf, 4, &mut rng).unwrap();
        assert_eq!(bombs_in(&map), 1);
        assert_ne!(map[4].content, Content::Bomb);
    }
}

#[test]
fn a_board_without_a_free_square_is_refused() {
    let mut rng = rand::thread_rng();
    let full = GameConfig { height: 3, width: 3, bomb: 9 };
    assert_eq!(generate(&full, 0, &mut rng), Err(GenError::InvalidConfig));
    let more = GameConfig { height: 3, width: 3, bomb: 10 };
    assert_eq!(generate(&more, 0, &mut rng), Err(GenError::InvalidConfig));
    let empty = GameConfig { height: 0, width: 5, bomb: 0 };
    assert_eq!(generate(&empty, 0, &mut rng), Err(GenError::InvalidConfig));
    let single = GameConfig { height: 1, width: 1, bomb: 0 };
    assert_eq!(generate(&single, 0, &mut rng), Err(GenError::InvalidConfig));
    let nearly = GameConfig { height: 3, width: 3, bomb: 8 };
    assert!(generate(&nearly, 0, &mut rng).is_ok());
}

#[test]
fn placement_lays_each_bomb_in_its_own_stretch() {
    let mut rng = rand::thread_rng();
    for _ in 0..50 {
        let mut map = vec![0i8; 10];
        binary_random(&mut rng, 4, &mut map, 2, 10);
        assert_eq!(map[0], 0);
        assert_eq!(map[1], 0);
        let count = |lo: usize, hi: usize| map[lo..hi].iter().filter(|&&v| v == BOMB).count();
        assert_eq!(count(2, 4), 1);
        assert_eq!(count(4, 6), 1);
        assert_eq!(count(6, 8), 1);
        assert_eq!(count(8, 10), 1);
        assert!(map.iter().all(|&v| v == 0 || v == BOMB));
    }
}

#[test]
fn placement_of_one_bomb_stays_in_its_stretch() {
    let mut rng = rand::thread_rng();
    for _ in 0..50 {
        let mut map = vec![0i8; 6];
        binary_random(&mut rng, 1, &mut map, 3, 5);
        assert_eq!(map.iter().filter(|&&v| v == BOMB).count(), 1);
        assert!(map[3] == BOMB || map[4] == BOMB);
    }
}

#[test]
fn layout_becomes_counts() {
    let conf = GameConfig { height: 3, width: 3, bomb: 2 };
    let layout: Vec<i8> = vec![9, 0, 0, 0, 0, 0, 0, 0, 9];
    let map = lay_map(4, &conf, layout);
    assert_eq!(
        contents(&map),
        vec![
            Content::Bomb,
            Content::One,
            Content::Zero,
            Content::One,
            Content::Two,
            Content::One,
            Content::Zero,
            Content::One,
            Content::Bomb,
        ]
    );
    assert!(map.iter().all(|c| c.surface == Surface::Cover));
}

#[test]
fn a_bomb_under_the_first_click_moves_to_the_first_free_square() {
    let conf = GameConfig { height: 2, width: 3, bomb: 3 };
    let layout: Vec<i8> = vec![9, 9, 0, 0, 9, 0];
    let map = lay_map(4, &conf, layout);
    assert_eq!(
        contents(&map),
        vec![
            Content::Bomb,
            Content::Bomb,
            Content::Bomb,
            Content::Two,
            Content::Three,
            Content::Two,
        ]
    );
}

#[test]
fn a_square_can_have_eight_bombs_around() {
    let conf = GameConfig { height: 3, width: 3, bomb: 8 };
    let layout: Vec<i8> = vec![9, 9, 9, 9, 0, 9, 9, 9, 9];
    let map = lay_map(4, &conf, layout);
    assert_eq!(map[4].content, Content::Eight);
    let moved = lay_map(0, &conf, vec![9, 9, 9, 9, 0, 9, 9, 9, 9]);
    assert_eq!(moved[0].content, Content::Three);
    assert_eq!(moved[4].content, Content::Bomb);
}

#[test]
fn other_numbers_in_a_layout_count_as_free() {
    let conf = GameConfig { height: 1, width: 3, bomb: 1 };
    let map = lay_map(0, &conf, vec![5, 9, 7]);
    assert_eq!(contents(&map), vec![Content::One, Content::Bomb, Content::One]);
}

#[test]
fn neighbours_run_row_by_row() {
    assert_eq!(check_around_fn(3, 3, 4), vec![0, 1, 2, 3, 5, 6, 7, 8]);
    assert_eq!(check_around_fn(3, 3, 0), vec![1, 3, 4]);
    assert_eq!(check_around_fn(3, 3, 8), vec![4, 5, 7]);
    assert_eq!(check_around_fn(3, 3, 5), vec![1, 2, 4, 7, 8]);
    assert_eq!(check_around_fn(2, 4, 3), vec![2, 6, 7]);
    assert_eq!(check_around_fn(1, 1, 0), Vec::<usize>::new());
    assert_eq!(check_around_fn(1, 5, 2), vec![1, 3]);
    assert_eq!(check_around_fn(5, 1, 2), vec![1, 3]);
}

#[test]
fn cursor_gives_the_index_row_by_row() {
    let conf = GameConfig { height: 9, width: 9, bomb: 10 };
    assert_eq!(cell_index(&Pos(2, 12), &Pos(2, 12), &conf), 0);
    assert_eq!(cell_index(&Pos(2, 12), &Pos(6, 16), &conf), 40);
    assert_eq!(cell_index(&Pos(2, 12), &Pos(10, 20), &conf), 80);
    assert_eq!(cell_index(&Pos(2, 12), &Pos(3, 13), &conf), 10);
}

#[test]
fn numbers_become_contents() {
    let all = [
        Content::Zero,
        Content::One,
        Content::Two,
        Content::Three,
        Content::Four,
        Content::Five,
        Content::Six,
        Content::Seven,
        Content::Eight,
        Content::Bomb,
    ];
    for (num, content) in all.iter().enumerate() {
        assert_eq!(Content::from_i8(num as i8), *content);
    }
    assert_eq!(Content::from_i8(10), Content::Bomb);
    assert_eq!(Content::from_i8(-1), Content::Bomb);
    assert_eq!(Content::from_i8(i8::MIN), Content::Bomb);
    let cell = Cell::new(Content::Four, Surface::Flag);
    assert_eq!(cell.content, Content::Four);
    assert_eq!(cell.surface, Surface::Flag);
}
