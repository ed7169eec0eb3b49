use snake::{CellKind, Direction, Game, GameError, Notice, Pos};

fn new(height: usize, width: usize, base_speed: usize, rand: usize) -> Game {
    match Game::init(height, width, base_speed, rand) {
        Ok(g) => g,
        Err(e) => panic!("init failed: {:?}", e),
    }
}

fn at(g: &Game, x: usize, y: usize) -> CellKind {
    g.cell(x, y).expect("cell on the board")
}

fn count_kind(g: &Game, kind: CellKind) -> usize {
    let mut n = 0;
    for y in 0..g.height() {
        for x in 0..g.width() {
            if at(g, x, y) == kind {
                n += 1;
            }
        }
    }
    n
}

/// Steer the head towards `to` (one cell away) and tick once.
fn go(g: &mut Game, to: Pos) -> Vec<Notice> {
    let h = g.head();
    let d = if to.x + 1 == h.x {
        Direction::Left
    } else if to.x == h.x + 1 {
        Direction::Right
    } else if to.y + 1 == h.y {
        Direction::Up
    } else {
        Direction::Down
    };
    g.handle_input(d);
    g.tick(0)
}

#[test]
fn scenario_a_new_game_layout() {
    let g = new(21, 11, 21, 0);
    assert_eq!(g.height(), 21);
    assert_eq!(g.width(), 11);
    for x in 0..11 {
        assert_eq!(at(&g, x, 0), CellKind::Border);
        assert_eq!(at(&g, x, 20), CellKind::Border);
    }
    for y in 0..21 {
        assert_eq!(at(&g, 0, y), CellKind::Border);
        assert_eq!(at(&g, 10, y), CellKind::Border);
    }
    assert_eq!(g.head(), Pos { x: 5, y: 10 });
    assert_eq!(at(&g, 5, 10), CellKind::Head);
    assert_eq!(at(&g, 5, 9), CellKind::Body);
    assert_eq!(at(&g, 5, 8), CellKind::Body);
    assert_eq!(g.body(), vec![Pos { x: 5, y: 8 }, Pos { x: 5, y: 9 }]);
    assert_eq!(count_kind(&g, CellKind::Head), 1);
    assert_eq!(count_kind(&g, CellKind::Body), 2);
    assert_eq!(count_kind(&g, CellKind::Food), 1);
    let f = g.food().expect("food placed");
    assert_eq!(at(&g, f.x, f.y), CellKind::Food);
    assert_eq!(g.score(), 0);
    assert_eq!(g.lives(), 3);
    assert_eq!(g.tick_count(), 0);
    assert!(g.running());
    assert_eq!(g.direction(), Direction::Down);
}

#[test]
fn scenario_b_border_death_resets_board() {
    // Food goes to the first free cell, (1, 1): eat it, then run into the top border.
    let mut g = new(21, 11, 1, 0);
    assert_eq!(g.food(), Some(Pos { x: 1, y: 1 }));
    g.handle_input(Direction::Left);
    for _ in 0..4 {
        g.tick(0);
    }
    g.handle_input(Direction::Up);
    for _ in 0..9 {
        g.tick(0);
    }
    assert_eq!(g.score(), 1);
    assert_eq!(g.head(), Pos { x: 1, y: 1 });
    let out = g.tick(0);
    assert_eq!(g.lives(), 2);
    assert!(out.contains(&Notice::Died));
    assert!(out.contains(&Notice::Lives(2)));
    assert!(!out.contains(&Notice::GameOver));
    assert_eq!(g.score(), 0);
    assert!(g.running());
    assert_eq!(g.head(), Pos { x: 5, y: 10 });
    assert_eq!(g.body(), vec![Pos { x: 5, y: 8 }, Pos { x: 5, y: 9 }]);
    assert_eq!(g.tick_count(), 0);
    assert_eq!(g.direction(), Direction::Down);
    assert_eq!(count_kind(&g, CellKind::Food), 1);
    assert_eq!(at(&g, 1, 1), CellKind::Food);
}

#[test]
fn scenario_c_eating_grows_and_scores() {
    let mut g = new(21, 11, 1, 0);
    g.handle_input(Direction::Left);
    for _ in 0..4 {
        g.tick(0);
    }
    g.handle_input(Direction::Up);
    for _ in 0..8 {
        g.tick(0);
    }
    assert_eq!(g.head(), Pos { x: 1, y: 2 });
    let body_before = g.body();
    let tail = body_before[0];
    assert_eq!(at(&g, 2, 1), CellKind::Empty);
    let out = g.tick(7);
    assert_eq!(g.score(), 1);
    assert!(out.contains(&Notice::AteFood));
    assert!(out.contains(&Notice::Score(1)));
    assert!(out.contains(&Notice::FoodAdded));
    assert_eq!(g.body().len(), body_before.len() + 1);
    assert_eq!(g.body()[0], tail);
    assert_eq!(at(&g, tail.x, tail.y), CellKind::Body);
    assert_eq!(g.head(), Pos { x: 1, y: 1 });
    let f = g.food().expect("new food");
    assert_ne!(f, Pos { x: 1, y: 1 });
    assert_eq!(count_kind(&g, CellKind::Food), 1);
}

#[test]
fn new_food_goes_to_the_chosen_free_cell() {
    let mut g = new(21, 11, 1, 0);
    g.handle_input(Direction::Left);
    for _ in 0..4 {
        g.tick(0);
    }
    g.handle_input(Direction::Up);
    for _ in 0..8 {
        g.tick(0);
    }
    // Free cells in row-major order after eating at (1, 1): (2, 1), (3, 1), ...
    let out = g.tick(0);
    assert_eq!(g.food(), Some(Pos { x: 2, y: 1 }));
    assert!(out.contains(&Notice::Draw { row: 1, col: 2, kind: CellKind::Food }));
}

#[test]
fn scenario_d_game_over_after_last_life() {
    let mut g = new(6, 5, 1, 0);
    let mut game_overs = 0;
    let mut deaths = 0;
    for _ in 0..20 {
        let out = g.tick(0);
        game_overs += out.iter().filter(|n| **n == Notice::GameOver).count();
        deaths += out.iter().filter(|n| **n == Notice::Died).count();
    }
    assert_eq!(game_overs, 1);
    assert_eq!(deaths, 2);
    assert!(!g.running());
    assert_eq!(g.lives(), 0);
    let head = g.head();
    let count = g.tick_count();
    for _ in 0..5 {
        assert!(g.tick(3).is_empty());
    }
    g.handle_input(Direction::Left);
    assert_eq!(g.pending(), Direction::Down);
    assert_eq!(g.head(), head);
    assert_eq!(g.tick_count(), count);
}

#[test]
fn scenario_e_reversal_is_ignored() {
    let mut g = new(21, 11, 1, 0);
    g.handle_input(Direction::Up);
    assert_eq!(g.pending(), Direction::Down);
    g.tick(0);
    assert_eq!(g.direction(), Direction::Down);
    assert_eq!(g.head(), Pos { x: 5, y: 11 });
}

#[test]
fn scenario_f_board_full() {
    // A 4 × 4 inside; following this cycle the snake never meets itself.
    let cycle = [
        (3, 1), (3, 2), (3, 3), (2, 3), (2, 2), (2, 1), (1, 1), (1, 2),
        (1, 3), (1, 4), (2, 4), (3, 4), (4, 4), (4, 3), (4, 2), (4, 1),
    ];
    let mut g = new(6, 6, 1, 0);
    let mut full = false;
    for _ in 0..1000 {
        let h = g.head();
        let i = cycle.iter().position(|c| *c == (h.x, h.y)).expect("head on the cycle");
        let (x, y) = cycle[(i + 1) % cycle.len()];
        let out = go(&mut g, Pos { x, y });
        assert!(!out.contains(&Notice::Died));
        if out.contains(&Notice::BoardFull) {
            full = true;
            break;
        }
    }
    assert!(full);
    assert!(!g.running());
    assert_eq!(g.food(), None);
    assert_eq!(g.body().len(), 15);
    assert_eq!(g.score(), 13);
    assert_eq!(count_kind(&g, CellKind::Empty), 0);
    assert!(g.tick(0).is_empty());
}

#[test]
fn init_rejects_small_or_huge_boards() {
    assert!(matches!(Game::init(5, 5, 10, 0), Err(GameError::InvalidDimensions)));
    assert!(matches!(Game::init(6, 4, 10, 0), Err(GameError::InvalidDimensions)));
    assert!(matches!(Game::init(0, 0, 10, 0), Err(GameError::InvalidDimensions)));
    assert!(matches!(Game::init(usize::MAX, 6, 10, 0), Err(GameError::InvalidDimensions)));
    assert!(Game::init(6, 5, 10, 0).is_ok());
}

#[test]
fn plain_move_notices() {
    let mut g = new(21, 11, 1, 0);
    let out = g.tick(0);
    assert_eq!(
        out,
        vec![
            Notice::RenderPre,
            Notice::Draw { row: 8, col: 5, kind: CellKind::Empty },
            Notice::Draw { row: 10, col: 5, kind: CellKind::Body },
            Notice::Draw { row: 11, col: 5, kind: CellKind::Head },
            Notice::RenderPost,
        ]
    );
    assert_eq!(g.body(), vec![Pos { x: 5, y: 9 }, Pos { x: 5, y: 10 }]);
    assert_eq!(at(&g, 5, 8), CellKind::Empty);
}

#[test]
fn speed_gates_moves() {
    // base 5, body of 2: a move every 5 - 1 = 4 ticks.
    let mut g = new(21, 11, 5, 0);
    for _ in 0..3 {
        assert_eq!(g.tick(0), vec![Notice::RenderPre, Notice::RenderPost]);
        assert_eq!(g.head(), Pos { x: 5, y: 10 });
    }
    g.tick(0);
    assert_eq!(g.tick_count(), 4);
    assert_eq!(g.head(), Pos { x: 5, y: 11 });
}

#[test]
fn speed_never_drops_below_one() {
    let mut g = new(21, 11, 0, 0);
    g.tick(0);
    assert_eq!(g.head(), Pos { x: 5, y: 11 });
}

#[test]
fn food_choice_wraps_round_the_free_cells() {
    // 19 × 9 inside cells, 3 of them snake: 168 free.
    assert_eq!(new(21, 11, 1, 0).food(), Some(Pos { x: 1, y: 1 }));
    assert_eq!(new(21, 11, 1, 1).food(), Some(Pos { x: 2, y: 1 }));
    assert_eq!(new(21, 11, 1, 168).food(), Some(Pos { x: 1, y: 1 }));
    assert_eq!(new(21, 11, 1, 167).food(), Some(Pos { x: 9, y: 19 }));
}

#[test]
fn repeated_input_is_idempotent() {
    let mut g = new(21, 11, 1, 0);
    g.handle_input(Direction::Left);
    g.handle_input(Direction::Left);
    assert_eq!(g.pending(), Direction::Left);
    assert_eq!(g.direction(), Direction::Down);
    g.handle_input(Direction::Down);
    g.handle_input(Direction::Down);
    assert_eq!(g.pending(), Direction::Down);
    g.tick(0);
    assert_eq!(g.head(), Pos { x: 5, y: 11 });
}

#[test]
fn reset_starts_over() {
    let mut g = new(6, 5, 1, 0);
    g.tick(0);
    g.tick(0);
    assert_eq!(g.lives(), 2);
    let out = g.reset(1);
    assert_eq!(g.lives(), 3);
    assert_eq!(g.score(), 0);
    assert_eq!(g.head(), Pos { x: 2, y: 3 });
    assert_eq!(out[0], Notice::Lives(3));
    assert_eq!(out[1], Notice::Score(0));
    assert_eq!(out.len(), 2 + 30 + 2);
    assert_eq!(out[2], Notice::Draw { row: 0, col: 0, kind: CellKind::Border });
    // Free cells of row 1 are (1, 1) and (3, 1): the body covers (2, 1).
    assert_eq!(out[32], Notice::Draw { row: 1, col: 3, kind: CellKind::Food });
    assert_eq!(out[33], Notice::FoodAdded);
    assert_eq!(g.food(), Some(Pos { x: 3, y: 1 }));
}

#[test]
fn draw_grid_covers_every_cell() {
    let g = new(6, 5, 1, 0);
    let out = g.draw_grid();
    assert_eq!(out.len(), 30);
    assert_eq!(out[0], Notice::Draw { row: 0, col: 0, kind: CellKind::Border });
    assert_eq!(out[3 * 5 + 2], Notice::Draw { row: 3, col: 2, kind: CellKind::Head });
    assert_eq!(out[5 + 1], Notice::Draw { row: 1, col: 1, kind: CellKind::Food });
}

#[test]
fn cell_off_the_board_is_none() {
    let g = new(6, 5, 1, 0);
    assert_eq!(g.cell(5, 0), None);
    assert_eq!(g.cell(0, 6), None);
}
