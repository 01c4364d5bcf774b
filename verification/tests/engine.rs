use tetris_engine::cell::Cell;
use tetris_engine::game::{GameKey, GameState, BANNER_H, BANNER_REGION_H, BANNER_REGION_W, BANNER_W};
use tetris_engine::grid::{Grid, GRID_HEIGHT, GRID_WIDTH};
use tetris_engine::piece::Piece;
use tetris_engine::queue::{NextQueue, QUEUE_LEN};
use tetris_engine::shapes::{kind_from_index, random_kind, shape_cells, ShapeKind};

fn fixed_queue() -> NextQueue {
    NextQueue::from_kinds(vec![ShapeKind::O, ShapeKind::I, ShapeKind::T])
}

fn snapshot(s: &GameState) -> Vec<Cell> {
    let mut cells = Vec::new();
    for y in 0..GRID_HEIGHT {
        for x in 0..GRID_WIDTH {
            cells.push(s.cell(x, y));
        }
    }
    cells
}

#[test]
fn row_full_detection() {
    let mut g = Grid::new();
    for x in 0..GRID_WIDTH {
        g.set(x, 5, Cell::Occupied(ShapeKind::I));
    }
    assert!(g.is_row_full(5));
    assert!(!g.is_row_full(4));
    // exactly one empty cell makes the row not full
    g.set(3, 5, Cell::Empty);
    assert!(!g.is_row_full(5));
    // a shadow cell does not count as occupied either
    g.set(3, 5, Cell::Shadow);
    assert!(!g.is_row_full(5));
}

#[test]
fn remove_row_shifts_rows_down() {
    let mut g = Grid::new();
    g.set(2, 3, Cell::Occupied(ShapeKind::T));
    for x in 0..GRID_WIDTH {
        g.set(x, 4, Cell::Occupied(ShapeKind::O));
    }
    g.set(7, 10, Cell::Occupied(ShapeKind::L));
    g.remove_row(4);
    // the row above the cleared one slid down by exactly one
    assert_eq!(g.get(2, 4), Cell::Occupied(ShapeKind::T));
    assert_eq!(g.get(2, 3), Cell::Empty);
    // the vacated top row is empty
    for x in 0..GRID_WIDTH {
        assert_eq!(g.get(x, 0), Cell::Empty);
    }
    // rows below are untouched
    assert_eq!(g.get(7, 10), Cell::Occupied(ShapeKind::L));
}

#[test]
fn clear_full_rows_counts_and_compacts() {
    let mut g = Grid::new();
    for x in 0..GRID_WIDTH {
        g.set(x, 18, Cell::Occupied(ShapeKind::I));
        g.set(x, 19, Cell::Occupied(ShapeKind::J));
    }
    g.set(0, 17, Cell::Occupied(ShapeKind::S));
    let n = g.clear_full_rows();
    assert_eq!(n, 2);
    assert_eq!(g.get(0, 19), Cell::Occupied(ShapeKind::S));
    assert_eq!(g.get(0, 17), Cell::Empty);
    assert!(!g.is_row_full(18));
    assert!(!g.is_row_full(19));
}

#[test]
fn queue_pop_keeps_length_and_order() {
    let mut q = fixed_queue();
    let k = q.pop();
    assert_eq!(k, ShapeKind::O);
    assert_eq!(q.peek(0), ShapeKind::I);
    assert_eq!(q.peek(1), ShapeKind::T);
    // the queue still holds its full fixed length
    let _ = q.peek(QUEUE_LEN - 1);
    let k2 = q.pop();
    assert_eq!(k2, ShapeKind::I);
    assert_eq!(q.peek(0), ShapeKind::T);
}

#[test]
fn rotation_period_four() {
    let p = Piece { kind: ShapeKind::T, rot: 0, x: 4, y: 5 };
    let r = p.rotated().rotated().rotated().rotated();
    assert_eq!(r, p);
    assert_eq!(shape_cells(p.kind, p.rot), shape_cells(r.kind, r.rot));
    // a single quarter turn really changes the covered cells
    assert_ne!(shape_cells(ShapeKind::T, 0), shape_cells(ShapeKind::T, 1));
}

#[test]
fn shape_cells_base_and_turned() {
    assert_eq!(shape_cells(ShapeKind::I, 0), vec![(-1, 0), (0, 0), (1, 0), (2, 0)]);
    assert_eq!(shape_cells(ShapeKind::I, 1), vec![(0, -1), (0, 0), (0, 1), (0, 2)]);
    assert_eq!(shape_cells(ShapeKind::O, 0), vec![(1, 0), (0, 0), (0, 1), (1, 1)]);
}

#[test]
fn kind_lookup_covers_catalogue() {
    assert_eq!(kind_from_index(0), ShapeKind::I);
    assert_eq!(kind_from_index(1), ShapeKind::O);
    assert_eq!(kind_from_index(2), ShapeKind::T);
    assert_eq!(kind_from_index(3), ShapeKind::S);
    assert_eq!(kind_from_index(4), ShapeKind::Z);
    assert_eq!(kind_from_index(5), ShapeKind::J);
    assert_eq!(kind_from_index(6), ShapeKind::L);
}

#[test]
fn random_kind_varies() {
    let mut seen = std::collections::HashSet::new();
    for _ in 0..200 {
        seen.insert(format!("{:?}", random_kind()));
    }
    assert!(seen.len() >= 2);
}

#[test]
fn piece_falls_and_locks_at_bottom() {
    let mut s = GameState::with_parts(Grid::new(), fixed_queue());
    s.init();
    let p = s.active_piece().unwrap();
    assert_eq!(p.kind, ShapeKind::O);
    assert_eq!((p.x, p.y), (4, 0));
    let mut step = 0;
    loop {
        s.set_step(step);
        s.handle_keys_down(vec![GameKey::Down]);
        s.update();
        step += 1;
        assert!(step < 100, "piece never locked");
        if s.active_piece().unwrap().kind != ShapeKind::O {
            break;
        }
    }
    // the next queued kind became the active piece
    assert_eq!(s.active_piece().unwrap().kind, ShapeKind::I);
    // the square locked on the floor
    assert_eq!(s.cell(4, 19), Cell::Occupied(ShapeKind::O));
    assert_eq!(s.cell(5, 19), Cell::Occupied(ShapeKind::O));
    assert_eq!(s.cell(4, 18), Cell::Occupied(ShapeKind::O));
    assert_eq!(s.cell(5, 18), Cell::Occupied(ShapeKind::O));
    assert!(!s.is_game_over());
}

#[test]
fn line_clears_after_filling_gap() {
    let mut g = Grid::new();
    for x in 0..GRID_WIDTH {
        if x != 4 && x != 5 {
            g.set(x, 19, Cell::Occupied(ShapeKind::I));
        }
    }
    let mut s = GameState::with_parts(g, fixed_queue());
    s.init();
    assert_eq!(s.lines_cleared(), 0);
    s.hard_drop();
    // next gravity frame locks the square into the gap and clears the row
    s.set_step(0);
    s.update();
    assert_eq!(s.lines_cleared(), 1);
    // the cleared bottom row now holds what the row above held: the top
    // half of the square
    assert_eq!(s.cell(4, 19), Cell::Occupied(ShapeKind::O));
    assert_eq!(s.cell(5, 19), Cell::Occupied(ShapeKind::O));
    assert_eq!(s.cell(0, 19), Cell::Empty);
    for x in 0..GRID_WIDTH {
        assert!(!matches!(s.cell(x, 18), Cell::Occupied(_)));
    }
}

#[test]
fn four_rows_clear_at_once() {
    let mut g = Grid::new();
    for y in 16..GRID_HEIGHT {
        for x in 0..GRID_WIDTH {
            if x != 4 {
                g.set(x, y, Cell::Occupied(ShapeKind::J));
            }
        }
    }
    let q = NextQueue::from_kinds(vec![ShapeKind::I, ShapeKind::O, ShapeKind::T]);
    let mut s = GameState::with_parts(g, q);
    s.init();
    // one gravity step down, then turn the bar upright and drop it into
    // the one-column slot
    s.set_step(0);
    s.update();
    assert!(s.rotate());
    s.hard_drop();
    s.update();
    assert_eq!(s.lines_cleared(), 4);
    for y in 0..GRID_HEIGHT {
        for x in 0..GRID_WIDTH {
            assert!(!matches!(s.cell(x, y), Cell::Occupied(_)));
        }
    }
}

#[test]
fn fresh_game_runs() {
    let mut s = GameState::new();
    s.init();
    assert!(!s.is_game_over());
    for step in 0..50 {
        s.set_step(step);
        s.update();
    }
    assert!(s.active_piece().is_some());
    assert_eq!(s.lines_cleared(), 0);
}

#[test]
fn move_left_at_wall_is_rejected() {
    let mut s = GameState::with_parts(Grid::new(), fixed_queue());
    s.init();
    let mut guard = 0;
    while s.move_left() {
        guard += 1;
        assert!(guard < 20);
    }
    let p = s.active_piece().unwrap();
    assert_eq!(p.x, 0);
    let before = snapshot(&s);
    assert!(!s.move_left());
    assert_eq!(s.active_piece().unwrap(), p);
    assert_eq!(snapshot(&s), before);
}

#[test]
fn blocked_spawn_ends_game() {
    let mut g = Grid::new();
    for x in 0..GRID_WIDTH {
        g.set(x, 0, Cell::Occupied(ShapeKind::I));
        g.set(x, 1, Cell::Occupied(ShapeKind::I));
    }
    let mut s = GameState::with_parts(g, fixed_queue());
    s.init();
    assert!(s.is_game_over());
    assert!(s.active_piece().is_none());
    // the banner starts centered near the top of its bounce region
    assert_eq!(s.banner_pos(), ((BANNER_REGION_W - BANNER_W) / 2, 2));
}

#[test]
fn shadow_tracks_the_piece() {
    let mut s = GameState::with_parts(Grid::new(), fixed_queue());
    s.init();
    s.set_step(1);
    s.update();
    // the square projects straight down onto the floor
    for &(x, y) in &[(4, 18), (5, 18), (4, 19), (5, 19)] {
        assert_eq!(s.cell(x, y), Cell::Shadow);
    }
    assert!(s.move_right());
    s.update();
    // the old shadow is gone and the new one is shifted with the piece
    assert_eq!(s.cell(4, 19), Cell::Empty);
    assert_eq!(s.cell(4, 18), Cell::Empty);
    for &(x, y) in &[(5, 18), (6, 18), (5, 19), (6, 19)] {
        assert_eq!(s.cell(x, y), Cell::Shadow);
    }
}

#[test]
fn held_key_fires_every_other_frame() {
    let mut s = GameState::with_parts(Grid::new(), fixed_queue());
    s.init();
    let x0 = s.active_piece().unwrap().x;
    s.handle_keys_down(vec![GameKey::Left]);
    assert_eq!(s.active_piece().unwrap().x, x0 - 1);
    // the identical key on the next frame is suppressed
    s.handle_keys_down(vec![GameKey::Left]);
    assert_eq!(s.active_piece().unwrap().x, x0 - 1);
    // and fires again on the frame after
    s.handle_keys_down(vec![GameKey::Left]);
    assert_eq!(s.active_piece().unwrap().x, x0 - 2);
    // releasing all keys clears the suppression memory
    s.handle_keys_down(vec![GameKey::Left]);
    s.handle_keys_down(vec![]);
    s.handle_keys_down(vec![GameKey::Left]);
    assert_eq!(s.active_piece().unwrap().x, x0 - 3);
}

#[test]
fn rotation_key_auto_repeats() {
    let mut s = GameState::with_parts(Grid::new(), fixed_queue());
    s.init();
    // bring the piece low enough that both quarter turns are legal
    s.set_step(0);
    s.update();
    s.update();
    assert!(s.active_piece().unwrap().y >= 2);
    let r0 = s.active_piece().unwrap().rot;
    s.handle_keys_down(vec![GameKey::Up]);
    s.handle_keys_down(vec![GameKey::Up]);
    assert_eq!(s.active_piece().unwrap().rot, (r0 + 2) % 4);
}

#[test]
fn banner_bounces_inside_region() {
    let mut g = Grid::new();
    for x in 0..GRID_WIDTH {
        g.set(x, 0, Cell::Occupied(ShapeKind::I));
        g.set(x, 1, Cell::Occupied(ShapeKind::I));
    }
    let mut s = GameState::with_parts(g, fixed_queue());
    s.init();
    assert!(s.is_game_over());
    for step in 0..400 {
        s.set_step(step);
        s.update();
        let (x, y) = s.banner_pos();
        assert!(0 <= x && x + BANNER_W <= BANNER_REGION_W);
        assert!(0 <= y && y + BANNER_H <= BANNER_REGION_H);
    }
}
