use tetris::input::{parse_arrow, parse_rotation, same_text, Arrow, Rotation};
use tetris::tetromino::{catalog_entry, Tetromino, TetrominoShape, TetrominoShapeGenerator};

const NAMES: [char; 7] = ['I', 'J', 'L', 'O', 'S', 'T', 'Z'];

fn shape(name: char) -> TetrominoShape {
    TetrominoShapeGenerator::make(name).ok().expect("catalog shape")
}

#[test]
fn make_finds_every_catalog_shape() {
    for name in NAMES {
        let t = Tetromino::new((0, 0), shape(name));
        assert_eq!(t.get_shape_name(), name);
    }
}

#[test]
fn make_rejects_unknown_name() {
    assert!(TetrominoShapeGenerator::make('X').is_err());
    assert!(TetrominoShapeGenerator::make('i').is_err());
}

#[test]
fn catalog_entry_order() {
    for k in 0..7 {
        let t = Tetromino::new((0, 0), catalog_entry(k));
        assert_eq!(t.get_shape_name(), NAMES[k]);
    }
}

#[test]
fn occupied_positions_row_major() {
    let t = Tetromino::new((0, 3), shape('T'));
    assert_eq!(t.get_occupied_positions(), &vec![(1, 4), (1, 5), (1, 6), (2, 5)]);
    let s = Tetromino::new((5, -1), shape('S'));
    assert_eq!(s.get_occupied_positions(), &vec![(6, 1), (6, 2), (7, 0), (7, 1)]);
}

#[test]
fn move_pos_translates_cells() {
    let mut t = Tetromino::new((0, 0), shape('O'));
    t.move_pos((2, 3));
    assert_eq!(t.get_position(), (2, 3));
    assert_eq!(t.get_occupied_positions(), &vec![(3, 4), (3, 5), (4, 4), (4, 5)]);
    t.move_pos((-1, -4));
    assert_eq!(t.get_occupied_positions(), &vec![(2, 0), (2, 1), (3, 0), (3, 1)]);
}

#[test]
fn rotate_clockwise_turns_i_upright() {
    let mut t = Tetromino::new((0, 0), shape('I'));
    t.rotate("clockwise");
    assert_eq!(t.get_occupied_positions(), &vec![(0, 1), (1, 1), (2, 1), (3, 1)]);
    assert_eq!(t.get_position(), (0, 0));
}

#[test]
fn rotate_counter_clockwise_turns_i_upright() {
    let mut t = Tetromino::new((0, 0), shape('I'));
    t.rotate("counter-clockwise");
    assert_eq!(t.get_occupied_positions(), &vec![(0, 2), (1, 2), (2, 2), (3, 2)]);
}

#[test]
fn rotate_clockwise_j() {
    let mut t = Tetromino::new((0, 0), shape('J'));
    t.rotate("clockwise");
    // J: (1,1) (1,2) (1,3) (2,3) -> (r, c) goes to (c, 3 - r)
    assert_eq!(t.get_occupied_positions(), &vec![(1, 2), (2, 2), (3, 1), (3, 2)]);
}

#[test]
fn rotate_with_unknown_word_changes_nothing() {
    let mut t = Tetromino::new((4, 2), shape('L'));
    let before = t.get_occupied_positions().clone();
    t.rotate("sideways");
    assert_eq!(t.get_occupied_positions(), &before);
}

#[test]
fn four_rotations_restore_every_shape() {
    for name in NAMES {
        for word in ["clockwise", "counter-clockwise"] {
            let mut t = Tetromino::new((3, 3), shape(name));
            let before = t.get_occupied_positions().clone();
            for _ in 0..4 {
                t.rotate(word);
            }
            assert_eq!(t.get_occupied_positions(), &before);
        }
    }
}

#[test]
fn shape_rotations_compose_to_identity() {
    let mut s = shape('L');
    let before = Tetromino::new((0, 0), s).get_occupied_positions().clone();
    s.rotate_clockwise();
    assert_ne!(Tetromino::new((0, 0), s).get_occupied_positions(), &before);
    s.rotate_anti_clockwise();
    assert_eq!(Tetromino::new((0, 0), s).get_occupied_positions(), &before);
}

fn draw_names(g: &mut TetrominoShapeGenerator, n: usize) -> Vec<char> {
    (0..n).map(|_| Tetromino::new((0, 0), g.make_random()).get_shape_name()).collect()
}

#[test]
fn bag_hands_out_each_shape_once_per_seven() {
    let mut g = TetrominoShapeGenerator::new();
    for _ in 0..5 {
        let mut window = draw_names(&mut g, 7);
        window.sort();
        assert_eq!(window, vec!['I', 'J', 'L', 'O', 'S', 'T', 'Z']);
    }
}

#[test]
fn bag_order_is_shuffled() {
    let catalog_order: Vec<char> = NAMES.to_vec();
    let mut differs = false;
    for _ in 0..30 {
        let mut g = TetrominoShapeGenerator::new();
        if draw_names(&mut g, 7) != catalog_order {
            differs = true;
        }
    }
    assert!(differs);
}

#[test]
fn text_comparison() {
    assert!(same_text("ArrowDown", "ArrowDown"));
    assert!(!same_text("ArrowDown", "ArrowDow"));
    assert!(!same_text("ArrowDown", "arrowDown"));
    assert!(same_text("", ""));
}

#[test]
fn parse_words() {
    assert_eq!(parse_arrow("ArrowDown"), Some(Arrow::Down));
    assert_eq!(parse_arrow("ArrowLeft"), Some(Arrow::Left));
    assert_eq!(parse_arrow("ArrowRight"), Some(Arrow::Right));
    assert_eq!(parse_arrow("ArrowUp"), None);
    assert_eq!(parse_rotation("clockwise"), Some(Rotation::Clockwise));
    assert_eq!(parse_rotation("counter-clockwise"), Some(Rotation::CounterClockwise));
    assert_eq!(parse_rotation("anticlockwise"), None);
}
