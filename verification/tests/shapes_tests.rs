use blockfall::shapes::{Rotation, Shape, ShapeColor};

const ALL_SHAPES: [Shape; 7] = [
    Shape::I,
    Shape::J,
    Shape::L,
    Shape::O,
    Shape::Z,
    Shape::T,
    Shape::S,
];

const ALL_ROTATIONS: [Rotation; 4] = [Rotation::R0, Rotation::R90, Rotation::R180, Rotation::R270];

#[test]
fn rotation_cycles_clockwise() {
    assert_eq!(Rotation::R0.rotate_cw(), Rotation::R90);
    assert_eq!(Rotation::R90.rotate_cw(), Rotation::R180);
    assert_eq!(Rotation::R180.rotate_cw(), Rotation::R270);
    assert_eq!(Rotation::R270.rotate_cw(), Rotation::R0);
}

#[test]
fn rotation_cycles_counter_clockwise() {
    assert_eq!(Rotation::R0.rotate_ccw(), Rotation::R270);
    assert_eq!(Rotation::R90.rotate_ccw(), Rotation::R0);
    assert_eq!(Rotation::R180.rotate_ccw(), Rotation::R90);
    assert_eq!(Rotation::R270.rotate_ccw(), Rotation::R180);
}

#[test]
fn rotation_strings() {
    assert_eq!(Rotation::R0.get_string(), "0");
    assert_eq!(Rotation::R90.get_string(), "90");
    assert_eq!(Rotation::R180.get_string(), "180");
    assert_eq!(Rotation::R270.get_string(), "270");
}

#[test]
fn color_is_block() {
    assert!(!ShapeColor::Empty.is_block());
    assert!(ShapeColor::Cyan.is_block());
    assert!(ShapeColor::Blue.is_block());
    assert!(ShapeColor::Orange.is_block());
    assert!(ShapeColor::Yellow.is_block());
    assert!(ShapeColor::Green.is_block());
    assert!(ShapeColor::Purple.is_block());
    assert!(ShapeColor::Red.is_block());
}

#[test]
fn shape_colors() {
    assert_eq!(Shape::I.get_color(), ShapeColor::Cyan);
    assert_eq!(Shape::J.get_color(), ShapeColor::Blue);
    assert_eq!(Shape::L.get_color(), ShapeColor::Orange);
    assert_eq!(Shape::O.get_color(), ShapeColor::Yellow);
    assert_eq!(Shape::Z.get_color(), ShapeColor::Green);
    assert_eq!(Shape::T.get_color(), ShapeColor::Purple);
    assert_eq!(Shape::S.get_color(), ShapeColor::Red);
}

#[test]
fn shape_order_cycles() {
    assert_eq!(Shape::I.get_next_shape_ord(), Shape::J);
    assert_eq!(Shape::J.get_next_shape_ord(), Shape::L);
    assert_eq!(Shape::L.get_next_shape_ord(), Shape::O);
    assert_eq!(Shape::O.get_next_shape_ord(), Shape::Z);
    assert_eq!(Shape::Z.get_next_shape_ord(), Shape::T);
    assert_eq!(Shape::T.get_next_shape_ord(), Shape::S);
    assert_eq!(Shape::S.get_next_shape_ord(), Shape::I);
}

#[test]
fn spawn_offsets() {
    for s in ALL_SHAPES {
        let c = s.get_spawn_offsets();
        assert_eq!(c.x, 3);
        match s {
            Shape::I | Shape::O => assert_eq!(c.y, 1),
            _ => assert_eq!(c.y, 2),
        }
    }
}

#[test]
fn i_mask_r0_is_second_row() {
    let m = Shape::I.get_shape(&Rotation::R0);
    for dx in 0..4 {
        assert!(m[1][dx]);
        assert!(!m[0][dx]);
        assert!(!m[2][dx]);
        assert!(!m[3][dx]);
    }
}

#[test]
fn o_mask_is_rotation_invariant() {
    let base = Shape::O.get_shape(&Rotation::R0);
    for r in ALL_ROTATIONS {
        assert_eq!(Shape::O.get_shape(&r), base);
    }
    assert!(base[1][1] && base[1][2] && base[2][1] && base[2][2]);
    assert!(!base[0][0] && !base[3][3]);
}

#[test]
fn every_mask_has_four_cells() {
    for s in ALL_SHAPES {
        for r in ALL_ROTATIONS {
            let m = s.get_shape(&r);
            let mut count = 0;
            for row in m {
                for cell in row {
                    if cell {
                        count += 1;
                    }
                }
            }
            assert_eq!(count, 4);
        }
    }
}

#[test]
fn t_mask_r90_points_right() {
    let m = Shape::T.get_shape(&Rotation::R90);
    assert!(m[0][1] && m[1][1] && m[1][2] && m[2][1]);
    let mut count = 0;
    for row in m {
        for cell in row {
            if cell {
                count += 1;
            }
        }
    }
    assert_eq!(count, 4);
}

#[test]
fn o_kicks_are_all_zero() {
    for from in ALL_ROTATIONS {
        for to in ALL_ROTATIONS {
            assert_eq!(Shape::O.get_kick_data(&from, &to), [(0, 0); 5]);
        }
    }
}

#[test]
fn jlstz_kick_table_first_transition() {
    let ks = Shape::T.get_kick_data(&Rotation::R0, &Rotation::R90);
    assert_eq!(ks, [(0, 0), (-1, 0), (-1, 1), (0, -2), (-1, -2)]);
    let ks = Shape::J.get_kick_data(&Rotation::R90, &Rotation::R0);
    assert_eq!(ks, [(0, 0), (1, 0), (1, -1), (0, 2), (1, 2)]);
    let ks = Shape::S.get_kick_data(&Rotation::R180, &Rotation::R270);
    assert_eq!(ks, [(0, 0), (1, 0), (1, 1), (0, -2), (1, -2)]);
}

#[test]
fn i_kick_table_rows() {
    let ks = Shape::I.get_kick_data(&Rotation::R0, &Rotation::R90);
    assert_eq!(ks, [(0, 0), (-2, 0), (1, 0), (-2, -1), (1, 2)]);
    let ks = Shape::I.get_kick_data(&Rotation::R270, &Rotation::R0);
    assert_eq!(ks, [(0, 0), (1, 0), (-2, 0), (1, -2), (-2, 1)]);
}

#[test]
fn random_shape_is_one_of_seven() {
    for _ in 0..50 {
        let s = Shape::random();
        assert!(ALL_SHAPES.contains(&s));
    }
}
