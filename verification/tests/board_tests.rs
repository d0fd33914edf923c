use tetris::board::{Blocks, Board, Direction, Rotation, Shape, sample_shape};

fn block_at(cells: [(u8, u8); 4]) -> Blocks {
    Blocks { shape: Shape::ZBLOCK, color: (255, 0, 0), block_pos: cells, rotation: Rotation::NIN }
}

#[test]
fn shape_from_index_follows_distribution_order() {
    assert_eq!(Shape::from_index(0), Shape::IBLOCK);
    assert_eq!(Shape::from_index(1), Shape::LBLOCK);
    assert_eq!(Shape::from_index(2), Shape::RLBLOCK);
    assert_eq!(Shape::from_index(3), Shape::ZBLOCK);
    assert_eq!(Shape::from_index(4), Shape::RZBLOCK);
    assert_eq!(Shape::from_index(5), Shape::TBLOCK);
    assert_eq!(Shape::from_index(6), Shape::SQBLOCK);
}

#[test]
fn fresh_blocks_have_their_colours_and_cells() {
    let b = Blocks::from_shape(Shape::RLBLOCK);
    assert_eq!(b.color, (255, 100, 0));
    assert_eq!(b.block_pos, [(0, 0), (0, 1), (0, 1), (2, 2)]);
    assert_eq!(b.rotation, Rotation::NIN);
    let b = Blocks::from_shape(Shape::IBLOCK);
    assert_eq!(b.color, (0, 255, 255));
    assert_eq!(b.block_pos, [(1, 1), (1, 1), (0, 1), (2, 3)]);
    let b = Blocks::from_shape(Shape::SQBLOCK);
    assert_eq!(b.color, (255, 255, 50));
    assert_eq!(b.block_pos, [(0, 1), (0, 1), (0, 0), (1, 1)]);
    let b = Blocks::from_shape(Shape::TBLOCK);
    assert_eq!(b.color, (255, 0, 255));
    assert_eq!(b.block_pos, [(0, 1), (1, 2), (1, 1), (0, 1)]);
}

#[test]
fn sampled_shapes_are_never_the_square() {
    let mut seen = [false; 7];
    for _ in 0..2000 {
        let s = sample_shape();
        assert_ne!(s, Shape::SQBLOCK);
        seen[s as usize] = true;
        let b = Blocks::new();
        assert_ne!(b.shape, Shape::SQBLOCK);
        assert_eq!(b.rotation, Rotation::NIN);
    }
    // All six reachable shapes do come up.
    assert!(seen[..6].iter().all(|x| *x));
}

#[test]
fn new_board_is_empty() {
    let board = Board::new(Blocks::from_shape(Shape::LBLOCK));
    for x in 0..20 {
        for y in 0..10 {
            assert!(!board.cell(x, y));
        }
    }
    for y in 0..10 {
        assert_eq!(board.row_count(y), 0);
    }
    assert_eq!(board.level(), 0);
    assert_eq!(board.score(), 0);
    assert_eq!(board.lines(), 0);
    assert_eq!(board.next_block().shape, Shape::LBLOCK);
}

#[test]
fn place_leaves_the_board_unchanged() {
    let board = Board::new(Blocks::from_shape(Shape::IBLOCK));
    let piece = block_at([(2, 3), (3, 3), (2, 4), (3, 4)]);
    board.place([(2, 4), (1, 3), (4, 3), (9, 9)]);
    board.place([(255, 255), (0, 0), (0, 0), (0, 0)]);
    for x in 0..20 {
        for y in 0..10 {
            assert!(!board.cell(x, y));
        }
    }
    for y in 0..10 {
        assert_eq!(board.row_count(y), 0);
    }
    assert_eq!(board.next_block().shape, Shape::IBLOCK);
    assert!(board.can_move(Direction::DOWN, piece));
    assert!(board.can_move(Direction::LEFT, piece));
    assert!(board.can_move(Direction::RIGHT, piece));
}

#[test]
fn edges_stop_moves() {
    let board = Board::new(Blocks::from_shape(Shape::IBLOCK));
    assert!(!board.can_move(Direction::DOWN, block_at([(1, 19), (2, 19), (0, 0), (0, 0)])));
    assert!(!board.can_move(Direction::LEFT, block_at([(0, 5), (1, 5), (0, 0), (0, 0)])));
    assert!(!board.can_move(Direction::RIGHT, block_at([(8, 5), (9, 5), (0, 0), (0, 0)])));
    assert!(board.can_move(Direction::RIGHT, block_at([(8, 5), (8, 5), (0, 0), (0, 0)])));
}

#[test]
fn spawn_hands_out_the_waiting_piece() {
    let mut board = Board::new(Blocks::from_shape(Shape::SQBLOCK));
    let spawned = board.spawn_block();
    assert_eq!(spawned.shape, Shape::SQBLOCK);
    assert_eq!(spawned.block_pos, [(0, 1), (0, 1), (0, 0), (1, 1)]);
    assert_ne!(board.next_block().shape, Shape::SQBLOCK);
    assert!(!board.cell(1, 3));
    assert_eq!(board.row_count(3), 0);
}
