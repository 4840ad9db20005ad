use blockfall::game_state::{create_new_7_bag, Coord, Direction, GamePhase, GameState};
use blockfall::game_state::{is_ghost_tile, is_player_tile};
use blockfall::shapes::{Rotation, Shape, ShapeColor};

const ALL_SHAPES: [Shape; 7] = [
    Shape::I,
    Shape::J,
    Shape::L,
    Shape::O,
    Shape::Z,
    Shape::T,
    Shape::S,
];

fn shape_counts(shapes: &[Shape]) -> [usize; 7] {
    let mut counts = [0usize; 7];
    for s in shapes {
        let idx = match s {
            Shape::I => 0,
            Shape::J => 1,
            Shape::L => 2,
            Shape::O => 3,
            Shape::Z => 4,
            Shape::T => 5,
            Shape::S => 6,
        };
        counts[idx] += 1;
    }
    counts
}

#[test]
fn direction_values() {
    assert_eq!(Direction::Left.to_value(), -1);
    assert_eq!(Direction::Right.to_value(), 1);
    assert_eq!(Direction::Up.to_value(), -1);
    assert_eq!(Direction::Down.to_value(), 1);
}

#[test]
fn new_game_starts_clean() {
    let gs = GameState::new();
    assert_eq!(gs.score, 0);
    assert_eq!(gs.game_phase, GamePhase::Playing);
    assert_eq!(gs.held, None);
    assert!(!gs.just_held);
    assert_eq!(gs.rotation, Rotation::R0);
    assert_eq!(gs.player_pos, gs.current_shape.get_spawn_offsets());
    assert_eq!(gs.shape_queue.len(), 7);
    assert_eq!(shape_counts(&gs.shape_queue), [1; 7]);
    for row in gs.board {
        for cell in row {
            assert_eq!(cell, ShapeColor::Empty);
        }
    }
}

#[test]
fn bag_is_a_permutation_of_all_seven() {
    for _ in 0..20 {
        let bag = create_new_7_bag();
        assert_eq!(shape_counts(&bag), [1; 7]);
    }
}

#[test]
fn can_place_rejects_out_of_bounds_and_overlap() {
    let mut gs = GameState::new();

    // In bounds on an empty board
    assert!(gs.can_place(&Shape::I, &Rotation::R0, &Coord { x: 3, y: 1 }));
    assert!(gs.can_place(&Shape::I, &Rotation::R0, &Coord { x: 6, y: 1 }));

    // Off the left, right, top and bottom edges
    assert!(!gs.can_place(&Shape::I, &Rotation::R0, &Coord { x: -1, y: 1 }));
    assert!(!gs.can_place(&Shape::I, &Rotation::R0, &Coord { x: 7, y: 1 }));
    assert!(!gs.can_place(&Shape::I, &Rotation::R0, &Coord { x: 3, y: -2 }));
    assert!(gs.can_place(&Shape::I, &Rotation::R90, &Coord { x: 0, y: 18 }));
    assert!(!gs.can_place(&Shape::I, &Rotation::R90, &Coord { x: 0, y: 19 }));

    // Collision with a settled block
    gs.board[21][3] = ShapeColor::Blue;
    assert!(!gs.can_place(&Shape::I, &Rotation::R0, &Coord { x: 3, y: 20 }));
    assert!(gs.can_place(&Shape::I, &Rotation::R0, &Coord { x: 4, y: 20 }));
}

#[test]
fn queue_refills_above_seven() {
    let mut gs = GameState::new();
    let front = gs.shape_queue[0];
    let second = gs.shape_queue[1];
    let drawn = gs.get_next_shape();
    assert_eq!(drawn, front);
    assert_eq!(gs.shape_queue[0], second);
    assert!(gs.shape_queue.len() >= 7);
    for _ in 0..20 {
        gs.get_next_shape();
        assert!(gs.shape_queue.len() >= 7);
    }
}

#[test]
fn clear_single_row_shifts_the_stack() {
    let mut gs = GameState::new();
    for x in 0..10 {
        gs.board[21][x] = ShapeColor::Blue;
    }
    gs.board[20][0] = ShapeColor::Red;

    let cleared = gs.clear_lines();
    assert_eq!(cleared, 1);
    assert_eq!(gs.score, 100);

    // Row 21 took row 20's old contents, row 20 took empty row 19
    assert_eq!(gs.board[21][0], ShapeColor::Red);
    for x in 1..10 {
        assert_eq!(gs.board[21][x], ShapeColor::Empty);
    }
    for x in 0..10 {
        assert_eq!(gs.board[20][x], ShapeColor::Empty);
        assert_eq!(gs.board[0][x], ShapeColor::Empty);
    }
}

#[test]
fn clear_two_rows_scores_twice() {
    let mut gs = GameState::new();
    for x in 0..10 {
        gs.board[21][x] = ShapeColor::Green;
        gs.board[19][x] = ShapeColor::Green;
    }
    gs.board[20][4] = ShapeColor::Red;
    let cleared = gs.clear_lines();
    assert_eq!(cleared, 2);
    assert_eq!(gs.score, 200);
    // The partial row between the two full ones settles at the bottom
    assert_eq!(gs.board[21][4], ShapeColor::Red);
    assert_eq!(gs.board[21][0], ShapeColor::Empty);
    assert_eq!(gs.board[20][4], ShapeColor::Empty);
}

#[test]
fn horizontal_moves_respect_walls_and_directions() {
    let mut gs = GameState::new();
    gs.current_shape = Shape::I;
    gs.rotation = Rotation::R0;
    gs.player_pos = Coord { x: 3, y: 1 };

    gs.move_player_horizontal(Direction::Right);
    assert_eq!(gs.player_pos, Coord { x: 4, y: 1 });
    gs.move_player_horizontal(Direction::Left);
    assert_eq!(gs.player_pos, Coord { x: 3, y: 1 });

    // Vertical arguments are ignored outright
    gs.move_player_horizontal(Direction::Up);
    gs.move_player_horizontal(Direction::Down);
    assert_eq!(gs.player_pos, Coord { x: 3, y: 1 });

    // Push against the left wall
    gs.player_pos = Coord { x: 0, y: 1 };
    gs.move_player_horizontal(Direction::Left);
    assert_eq!(gs.player_pos, Coord { x: 0, y: 1 });

    // And against the right wall
    gs.player_pos = Coord { x: 6, y: 1 };
    gs.move_player_horizontal(Direction::Right);
    assert_eq!(gs.player_pos, Coord { x: 6, y: 1 });
}

#[test]
fn fall_stops_at_the_floor() {
    let mut gs = GameState::new();
    gs.current_shape = Shape::I;
    gs.rotation = Rotation::R0;
    gs.player_pos = Coord { x: 3, y: 19 };

    assert!(gs.fall_player());
    assert_eq!(gs.player_pos, Coord { x: 3, y: 20 });
    assert!(!gs.fall_player());
    assert_eq!(gs.player_pos, Coord { x: 3, y: 20 });
}

#[test]
fn drop_position_on_empty_board() {
    let mut gs = GameState::new();
    gs.current_shape = Shape::I;
    gs.rotation = Rotation::R0;
    gs.player_pos = Coord { x: 3, y: 1 };
    let shape = gs.current_shape.get_shape(&gs.rotation);
    assert_eq!(gs.get_drop_position(&shape), 20);

    gs.rotation = Rotation::R90;
    let shape = gs.current_shape.get_shape(&gs.rotation);
    assert_eq!(gs.get_drop_position(&shape), 18);
}

#[test]
fn hard_drop_rests_piece_on_the_floor() {
    let mut gs = GameState::new();
    gs.current_shape = Shape::I;
    gs.rotation = Rotation::R0;
    gs.player_pos = Coord { x: 3, y: 1 };

    gs.hard_drop();

    // The bar lies across the bottom row
    for x in 3..7 {
        assert_eq!(gs.board[21][x], ShapeColor::Cyan);
    }
    assert_eq!(gs.board[20][3], ShapeColor::Empty);
    assert_eq!(gs.score, 0);
    assert_eq!(gs.game_phase, GamePhase::Playing);

    // A fresh piece spawned from the queue front
    assert_eq!(gs.player_pos, gs.current_shape.get_spawn_offsets());
    assert_eq!(gs.rotation, Rotation::R0);
}

#[test]
fn hard_drop_spawns_the_queued_piece() {
    let mut gs = GameState::new();
    gs.current_shape = Shape::I;
    gs.rotation = Rotation::R0;
    gs.player_pos = Coord { x: 3, y: 1 };
    let upcoming = gs.shape_queue[0];

    gs.hard_drop();
    assert_eq!(gs.current_shape, upcoming);
}

#[test]
fn second_placement_clears_the_notch() {
    let mut gs = GameState::new();

    // The bottom row is full except the two columns an O piece can fill
    for x in 0..10 {
        if x != 5 && x != 6 {
            gs.board[21][x] = ShapeColor::Blue;
        }
    }

    // First placement: an O dropped at the far left settles on the stack
    gs.current_shape = Shape::O;
    gs.rotation = Rotation::R0;
    gs.player_pos = Coord { x: 0, y: 1 };
    gs.hard_drop();
    assert_eq!(gs.score, 0);
    assert_eq!(gs.board[20][1], ShapeColor::Yellow);
    assert_eq!(gs.board[20][2], ShapeColor::Yellow);

    // Second placement: an O falls into the notch and completes row 21
    gs.current_shape = Shape::O;
    gs.rotation = Rotation::R0;
    gs.player_pos = Coord { x: 4, y: 1 };
    gs.hard_drop();

    assert_eq!(gs.score, 100);
    assert_eq!(gs.game_phase, GamePhase::Playing);

    // Row 21 now holds what row 20 held just before the clear
    assert_eq!(gs.board[21][1], ShapeColor::Yellow);
    assert_eq!(gs.board[21][2], ShapeColor::Yellow);
    assert_eq!(gs.board[21][5], ShapeColor::Yellow);
    assert_eq!(gs.board[21][6], ShapeColor::Yellow);
    assert_eq!(gs.board[21][0], ShapeColor::Empty);
    assert_eq!(gs.board[21][9], ShapeColor::Empty);
}

#[test]
fn rotation_takes_the_second_kick_when_the_first_is_blocked() {
    let mut gs = GameState::new();
    gs.current_shape = Shape::T;
    gs.rotation = Rotation::R0;
    gs.player_pos = Coord { x: 4, y: 10 };

    // Block the unshifted candidate; the (-1, 0) kick stays free
    gs.board[11][6] = ShapeColor::Blue;
    gs.rotate_player(Direction::Up);
    assert_eq!(gs.rotation, Rotation::R90);
    assert_eq!(gs.player_pos, Coord { x: 3, y: 10 });
}

#[test]
fn rotation_is_a_no_op_when_every_kick_is_blocked() {
    let mut gs = GameState::new();
    gs.current_shape = Shape::T;
    gs.rotation = Rotation::R0;
    gs.player_pos = Coord { x: 4, y: 10 };

    // One settled block inside each of the five kick candidates
    gs.board[10][5] = ShapeColor::Blue;
    gs.board[10][4] = ShapeColor::Blue;
    gs.board[11][4] = ShapeColor::Blue;
    gs.board[8][5] = ShapeColor::Blue;
    gs.board[8][4] = ShapeColor::Blue;

    gs.rotate_player(Direction::Up);
    assert_eq!(gs.rotation, Rotation::R0);
    assert_eq!(gs.player_pos, Coord { x: 4, y: 10 });
}

#[test]
fn rotation_ignores_horizontal_directions() {
    let mut gs = GameState::new();
    let pos = gs.player_pos;
    let rot = gs.rotation;
    gs.rotate_player(Direction::Left);
    gs.rotate_player(Direction::Right);
    assert_eq!(gs.player_pos, pos);
    assert_eq!(gs.rotation, rot);
}

#[test]
fn hold_swaps_once_then_blocks() {
    let mut gs = GameState::new();
    let active = gs.current_shape;
    let upcoming = gs.shape_queue[0];

    gs.hold();
    assert!(gs.just_held);
    assert_eq!(gs.held, Some(active));
    assert_eq!(gs.current_shape, upcoming);
    assert_eq!(gs.player_pos, gs.current_shape.get_spawn_offsets());
    assert_eq!(gs.rotation, Rotation::R0);

    // A second immediate hold changes nothing
    let held = gs.held;
    let shape = gs.current_shape;
    let pos = gs.player_pos;
    gs.hold();
    assert!(gs.just_held);
    assert_eq!(gs.held, held);
    assert_eq!(gs.current_shape, shape);
    assert_eq!(gs.player_pos, pos);
}

#[test]
fn hold_swaps_back_after_a_placement() {
    let mut gs = GameState::new();
    gs.current_shape = Shape::I;
    gs.rotation = Rotation::R0;
    gs.player_pos = Coord { x: 3, y: 1 };

    gs.hold();
    assert_eq!(gs.held, Some(Shape::I));

    // Placing the active piece re-arms the hold
    gs.hard_drop();
    assert!(!gs.just_held);
    let active = gs.current_shape;
    gs.hold();
    assert_eq!(gs.current_shape, Shape::I);
    assert_eq!(gs.held, Some(active));
}

#[test]
fn blocked_spawn_ends_the_game() {
    let mut gs = GameState::new();

    // Lock an O at its own spawn cells: whatever comes next collides there
    gs.current_shape = Shape::O;
    gs.rotation = Rotation::R0;
    gs.player_pos = Coord { x: 3, y: 1 };
    gs.place_and_reset();

    assert_eq!(gs.game_phase, GamePhase::GameOver);
    assert_eq!(gs.board[2][4], ShapeColor::Yellow);
    assert_eq!(gs.board[3][5], ShapeColor::Yellow);

    // Once the game is over, movement no longer touches the state
    let board = gs.board;
    let pos = gs.player_pos;
    let rot = gs.rotation;
    gs.move_player_horizontal(Direction::Left);
    gs.move_player_horizontal(Direction::Right);
    gs.rotate_player(Direction::Up);
    gs.rotate_player(Direction::Down);
    assert!(!gs.fall_player());
    assert_eq!(gs.board, board);
    assert_eq!(gs.player_pos, pos);
    assert_eq!(gs.rotation, rot);
    assert_eq!(gs.game_phase, GamePhase::GameOver);
}

#[test]
fn lock_on_an_invalid_cell_ends_the_game() {
    let mut gs = GameState::new();
    gs.current_shape = Shape::O;
    gs.rotation = Rotation::R0;
    gs.player_pos = Coord { x: 3, y: 1 };
    // The piece overlaps a settled block where it tries to lock
    gs.board[2][4] = ShapeColor::Blue;

    gs.place_and_reset();
    assert_eq!(gs.game_phase, GamePhase::GameOver);
}

#[test]
fn player_tile_overlap() {
    let shape = Shape::T.get_shape(&Rotation::R0);
    // T at anchor (3, 10): the top stud sits at (4, 10)
    assert!(is_player_tile(4, 10, 3, 10, &shape));
    assert!(is_player_tile(3, 11, 3, 10, &shape));
    assert!(!is_player_tile(3, 10, 3, 10, &shape));
    assert!(!is_player_tile(9, 9, 3, 10, &shape));
}

#[test]
fn ghost_tile_overlap() {
    let shape = Shape::T.get_shape(&Rotation::R0);
    assert!(is_ghost_tile(4, 20, 3, 20, &shape));
    assert!(is_ghost_tile(3, 21, 3, 20, &shape));
    assert!(!is_ghost_tile(3, 20, 3, 20, &shape));
    assert!(!is_ghost_tile(0, 0, 3, 20, &shape));
}

#[test]
fn player_to_top_resets_pose() {
    let mut gs = GameState::new();
    gs.current_shape = Shape::S;
    gs.rotation = Rotation::R180;
    gs.player_pos = Coord { x: 7, y: 15 };
    gs.player_to_top();
    assert_eq!(gs.player_pos, Coord { x: 3, y: 2 });
    assert_eq!(gs.rotation, Rotation::R0);
}

#[test]
fn all_shapes_reach_their_spawn() {
    for s in ALL_SHAPES {
        let mut gs = GameState::new();
        gs.current_shape = s;
        gs.player_to_top();
        assert_eq!(gs.player_pos, s.get_spawn_offsets());
    }
}

#[test]
fn clear_with_no_full_rows_is_a_no_op() {
    let mut gs = GameState::new();
    gs.board[21][0] = ShapeColor::Cyan;
    gs.board[10][9] = ShapeColor::Red;
    let before = gs.board;
    let cleared = gs.clear_lines();
    assert_eq!(cleared, 0);
    assert_eq!(gs.score, 0);
    assert_eq!(gs.board, before);
}

#[test]
fn clear_four_rows_at_once() {
    let mut gs = GameState::new();
    for y in 18..22 {
        for x in 0..10 {
            gs.board[y][x] = ShapeColor::Cyan;
        }
    }
    gs.board[17][3] = ShapeColor::Purple;
    let cleared = gs.clear_lines();
    assert_eq!(cleared, 4);
    assert_eq!(gs.score, 400);
    // The lone block above the cleared band lands on the floor
    assert_eq!(gs.board[21][3], ShapeColor::Purple);
    assert_eq!(gs.board[21][0], ShapeColor::Empty);
    assert_eq!(gs.board[20][3], ShapeColor::Empty);
}

#[test]
fn drop_position_of_a_resting_piece_is_its_own_row() {
    let mut gs = GameState::new();
    gs.current_shape = Shape::I;
    gs.rotation = Rotation::R0;
    gs.player_pos = Coord { x: 3, y: 20 };
    let shape = gs.current_shape.get_shape(&gs.rotation);
    assert_eq!(gs.get_drop_position(&shape), 20);
}

#[test]
fn clear_shifts_the_hidden_buffer_down() {
    let mut gs = GameState::new();
    // A block sits in the hidden buffer row when a line clears below it
    gs.board[0][7] = ShapeColor::Purple;
    for x in 0..10 {
        gs.board[21][x] = ShapeColor::Blue;
    }

    let cleared = gs.clear_lines();
    assert_eq!(cleared, 1);

    // Row 0 becomes empty; its block lands one row lower
    for x in 0..10 {
        assert_eq!(gs.board[0][x], ShapeColor::Empty);
    }
    assert_eq!(gs.board[1][7], ShapeColor::Purple);
    for x in 0..10 {
        if x != 7 {
            assert_eq!(gs.board[1][x], ShapeColor::Empty);
        }
    }
}
