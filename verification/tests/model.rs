use l1t::direction::{reflect, Direction, Orientation};
use l1t::level::{Level, LevelError};
use l1t::node::{Node, NodeType};
use l1t::outcome::LevelStatus;

fn grid_of(lines: &[&str]) -> Vec<Vec<char>> {
    lines.iter().map(|l| l.chars().collect()).collect()
}

fn meta() -> (String, String, String) {
    (
        "a level".to_string(),
        "an author".to_string(),
        "a description".to_string(),
    )
}

#[test]
fn reflection_table_forward() {
    assert_eq!(reflect(Direction::Up, Orientation::Forward), Direction::Right);
    assert_eq!(reflect(Direction::Down, Orientation::Forward), Direction::Left);
    assert_eq!(reflect(Direction::Left, Orientation::Forward), Direction::Down);
    assert_eq!(reflect(Direction::Right, Orientation::Forward), Direction::Up);
}

#[test]
fn reflection_table_backward() {
    assert_eq!(reflect(Direction::Up, Orientation::Backward), Direction::Left);
    assert_eq!(reflect(Direction::Down, Orientation::Backward), Direction::Right);
    assert_eq!(reflect(Direction::Left, Orientation::Backward), Direction::Up);
    assert_eq!(reflect(Direction::Right, Orientation::Backward), Direction::Down);
}

#[test]
fn double_reflection_all_combinations() {
    let dirs = [Direction::Up, Direction::Down, Direction::Left, Direction::Right];
    let orients = [Orientation::Forward, Orientation::Backward];
    for &d in &dirs {
        for &o1 in &orients {
            for &o2 in &orients {
                let twice = reflect(reflect(d, o1), o2);
                let expected = if o1 == o2 { d } else { d.opposite() };
                assert_eq!(twice, expected);
            }
        }
    }
}

#[test]
fn symbol_player() {
    let n = Node::new('X', 3, 4);
    assert_eq!(n.row, 3);
    assert_eq!(n.col, 4);
    assert!(matches!(n.node_type, NodeType::Player(_)));
}

#[test]
fn symbol_block_and_wall() {
    assert!(matches!(Node::new('B', 1, 1).node_type, NodeType::Block(_)));
    assert!(matches!(Node::new('I', 1, 1).node_type, NodeType::Wall(_)));
    assert!(matches!(Node::new('?', 1, 1).node_type, NodeType::Wall(_)));
}

#[test]
fn symbol_toggle_kinds() {
    match Node::new('T', 1, 1).node_type {
        NodeType::ToggleBlock(t) => assert!(!t.passable),
        _ => panic!("expected a toggle block"),
    }
    match Node::new('b', 1, 1).node_type {
        NodeType::Button(b) => assert!(!b.pressed),
        _ => panic!("expected a button"),
    }
    match Node::new('s', 1, 1).node_type {
        NodeType::Switch(s) => assert!(!s.on),
        _ => panic!("expected a switch"),
    }
}

#[test]
fn symbol_statues_and_zapper() {
    match Node::new('S', 1, 1).node_type {
        NodeType::Statue(s) => {
            assert!(!s.lit);
            assert!(!s.reversed);
        }
        _ => panic!("expected a statue"),
    }
    match Node::new('R', 1, 1).node_type {
        NodeType::Statue(s) => {
            assert!(!s.lit);
            assert!(s.reversed);
        }
        _ => panic!("expected a reversed statue"),
    }
    match Node::new('Z', 1, 1).node_type {
        NodeType::Zapper(z) => assert!(!z.lit),
        _ => panic!("expected a zapper"),
    }
}

#[test]
fn symbol_mirrors() {
    match Node::new('/', 1, 1).node_type {
        NodeType::Mirror(m) => assert_eq!(m.orientation, Orientation::Forward),
        _ => panic!("expected a mirror"),
    }
    match Node::new('\\', 1, 1).node_type {
        NodeType::Mirror(m) => assert_eq!(m.orientation, Orientation::Backward),
        _ => panic!("expected a mirror"),
    }
}

#[test]
fn symbol_lasers() {
    let expectations = [
        ('1', true, Direction::Up),
        ('2', true, Direction::Down),
        ('3', true, Direction::Left),
        ('4', true, Direction::Right),
        ('5', false, Direction::Up),
        ('6', false, Direction::Down),
        ('7', false, Direction::Left),
        ('8', false, Direction::Right),
    ];
    for &(ch, enabled, dir) in &expectations {
        match Node::new(ch, 2, 2).node_type {
            NodeType::Laser(l) => {
                assert_eq!(l.enabled, enabled);
                assert_eq!(l.direction, dir);
                assert!(l.shooting_at.is_empty());
            }
            _ => panic!("expected a laser"),
        }
    }
}

#[test]
fn moveable_kinds() {
    assert!(Node::new('X', 1, 1).is_moveable());
    assert!(Node::new('B', 1, 1).is_moveable());
    assert!(Node::new('/', 1, 1).is_moveable());
    assert!(Node::new('1', 1, 1).is_moveable());
    assert!(!Node::new('I', 1, 1).is_moveable());
    assert!(!Node::new('S', 1, 1).is_moveable());
    assert!(!Node::new('T', 1, 1).is_moveable());
    assert!(!Node::new('s', 1, 1).is_moveable());
}

#[test]
fn toggleable_kinds() {
    assert!(Node::new('1', 1, 1).is_player_toggleable());
    assert!(Node::new('/', 1, 1).is_player_toggleable());
    assert!(Node::new('s', 1, 1).is_player_toggleable());
    assert!(!Node::new('B', 1, 1).is_player_toggleable());
    assert!(Node::new('1', 1, 1).is_laser_toggleable());
    assert!(Node::new('S', 1, 1).is_laser_toggleable());
    assert!(Node::new('Z', 1, 1).is_laser_toggleable());
    assert!(!Node::new('s', 1, 1).is_laser_toggleable());
}

#[test]
fn would_move_to_steps_and_clamps() {
    let mut block = Node::new('B', 2, 2);
    assert_eq!(block.would_move_to(Direction::Up), (1, 2));
    assert_eq!(block.would_move_to(Direction::Down), (3, 2));
    assert_eq!(block.would_move_to(Direction::Left), (2, 1));
    assert_eq!(block.would_move_to(Direction::Right), (2, 3));
    let mut edge = Node::new('B', 0, 0);
    assert_eq!(edge.would_move_to(Direction::Up), (0, 0));
    assert_eq!(edge.would_move_to(Direction::Left), (0, 0));
    let mut wall = Node::new('I', 2, 2);
    assert_eq!(wall.would_move_to(Direction::Up), (2, 2));
}

#[test]
fn move_in_dir_moves_movable_only() {
    let mut block = Node::new('B', 2, 2);
    block.move_in_dir(Direction::Down);
    assert_eq!((block.row, block.col), (3, 2));
    let mut wall = Node::new('I', 2, 2);
    wall.move_in_dir(Direction::Down);
    assert_eq!((wall.row, wall.col), (2, 2));
}

#[test]
fn toggle_flips_each_variant() {
    let mut laser = Node::new('1', 1, 1);
    laser.toggle();
    assert!(matches!(&laser.node_type, NodeType::Laser(l) if !l.enabled));
    laser.toggle();
    assert!(matches!(&laser.node_type, NodeType::Laser(l) if l.enabled));

    let mut mirror = Node::new('/', 1, 1);
    mirror.toggle();
    assert!(matches!(&mirror.node_type, NodeType::Mirror(m) if m.orientation == Orientation::Backward));

    let mut switch = Node::new('s', 1, 1);
    switch.toggle();
    assert!(matches!(&switch.node_type, NodeType::Switch(s) if s.on));

    let mut tb = Node::new('T', 1, 1);
    tb.toggle();
    assert!(matches!(&tb.node_type, NodeType::ToggleBlock(t) if t.passable));

    let mut statue = Node::new('S', 1, 1);
    statue.toggle();
    assert!(matches!(&statue.node_type, NodeType::Statue(s) if s.lit));

    let mut wall = Node::new('I', 1, 1);
    wall.toggle();
    assert!(matches!(&wall.node_type, NodeType::Wall(_)));
}

#[test]
fn turn_off_clears_each_variant() {
    let mut laser = Node::new('1', 1, 1);
    laser.turn_off();
    assert!(matches!(&laser.node_type, NodeType::Laser(l) if !l.enabled));

    let mut statue = Node::new('S', 1, 1);
    statue.toggle();
    statue.turn_off();
    assert!(matches!(&statue.node_type, NodeType::Statue(s) if !s.lit));

    let mut tb = Node::new('T', 1, 1);
    tb.turn_off();
    assert!(matches!(&tb.node_type, NodeType::ToggleBlock(t) if t.passable));
}

#[test]
fn set_shooting_at_touches_lasers_only() {
    let mut laser = Node::new('1', 1, 1);
    laser.set_shooting_at(vec![(2, 2, '|', '^')]);
    match &laser.node_type {
        NodeType::Laser(l) => assert_eq!(l.shooting_at, vec![(2, 2, '|', '^')]),
        _ => panic!("expected a laser"),
    }
    let mut block = Node::new('B', 1, 1);
    block.set_shooting_at(vec![(2, 2, '|', '^')]);
    assert!(matches!(&block.node_type, NodeType::Block(_)));
}

#[test]
fn new_accepts_a_single_player() {
    let (n, a, d) = meta();
    let nodes = vec![Node::new('X', 1, 1), Node::new('B', 2, 2)];
    let level = Level::new(n, a, d, 4, 4, nodes).expect("one player should load");
    assert_eq!(level.rows, 4);
    assert_eq!(level.cols, 4);
    assert_eq!(level.status, LevelStatus::InProgress);
    assert_eq!(level.nodes.len(), 2);
    assert_eq!(level.name, "a level");
}

#[test]
fn new_rejects_missing_player() {
    let (n, a, d) = meta();
    let nodes = vec![Node::new('B', 1, 1)];
    assert_eq!(Level::new(n, a, d, 4, 4, nodes).unwrap_err(), LevelError::MissingPlayer);
}

#[test]
fn new_rejects_duplicate_player() {
    let (n, a, d) = meta();
    let nodes = vec![Node::new('X', 1, 1), Node::new('X', 2, 2)];
    assert_eq!(
        Level::new(n, a, d, 4, 4, nodes).unwrap_err(),
        LevelError::DuplicatePlayer
    );
}

#[test]
fn new_rejects_malformed_dimensions() {
    let (n, a, d) = meta();
    assert_eq!(
        Level::new(n, a, d, 2, 8, vec![]).unwrap_err(),
        LevelError::MalformedDimensions
    );
}

#[test]
fn from_grid_reads_objects_row_major() {
    let (n, a, d) = meta();
    let g = grid_of(&["IIIII", "IX BI", "I/1sI", "IIIII"]);
    let level = Level::from_grid(n, a, d, g).expect("grid should load");
    assert_eq!(level.rows, 4);
    assert_eq!(level.cols, 5);
    assert_eq!(level.nodes.len(), 5);
    assert!(matches!(level.nodes[0].node_type, NodeType::Player(_)));
    assert_eq!((level.nodes[0].row, level.nodes[0].col), (1, 1));
    assert!(matches!(level.nodes[1].node_type, NodeType::Block(_)));
    assert_eq!((level.nodes[1].row, level.nodes[1].col), (1, 3));
    assert!(matches!(level.nodes[2].node_type, NodeType::Mirror(_)));
    assert_eq!((level.nodes[2].row, level.nodes[2].col), (2, 1));
    assert!(matches!(level.nodes[3].node_type, NodeType::Laser(_)));
    assert!(matches!(level.nodes[4].node_type, NodeType::Switch(_)));
}

#[test]
fn from_grid_accepts_the_smallest_arena() {
    let (n, a, d) = meta();
    let g = grid_of(&["III", "IXI", "III"]);
    let level = Level::from_grid(n, a, d, g).expect("smallest level should load");
    assert_eq!((level.rows, level.cols), (3, 3));
    assert_eq!(level.nodes.len(), 1);
    assert!(matches!(level.nodes[0].node_type, NodeType::Player(_)));
}

#[test]
fn from_grid_rejects_an_empty_grid() {
    let (n, a, d) = meta();
    let g: Vec<Vec<char>> = Vec::new();
    assert_eq!(
        Level::from_grid(n, a, d, g).unwrap_err(),
        LevelError::MalformedDimensions
    );
}

#[test]
fn from_grid_rejects_too_few_rows() {
    let (n, a, d) = meta();
    let g = grid_of(&["III", "III"]);
    assert_eq!(
        Level::from_grid(n, a, d, g).unwrap_err(),
        LevelError::MalformedDimensions
    );
}

#[test]
fn from_grid_rejects_ragged_rows() {
    let (n, a, d) = meta();
    let g = grid_of(&["IIII", "IXI", "IIII"]);
    assert_eq!(
        Level::from_grid(n, a, d, g).unwrap_err(),
        LevelError::MalformedDimensions
    );
}

#[test]
fn from_grid_rejects_unwalled_boundary() {
    let (n, a, d) = meta();
    let g = grid_of(&["IIII", "IX I", "II I"]);
    assert_eq!(
        Level::from_grid(n, a, d, g).unwrap_err(),
        LevelError::UnwalledBoundary
    );
}

#[test]
fn from_grid_rejects_unrecognized_symbol() {
    let (n, a, d) = meta();
    let g = grid_of(&["IIII", "IX?I", "IIII"]);
    assert_eq!(
        Level::from_grid(n, a, d, g).unwrap_err(),
        LevelError::UnrecognizedSymbol
    );
}

#[test]
fn from_grid_rejects_missing_and_duplicate_player() {
    let (n, a, d) = meta();
    let g = grid_of(&["IIII", "I  I", "IIII"]);
    assert_eq!(Level::from_grid(n, a, d, g).unwrap_err(), LevelError::MissingPlayer);
    let (n, a, d) = meta();
    let g = grid_of(&["IIII", "IXXI", "IIII"]);
    assert_eq!(
        Level::from_grid(n, a, d, g).unwrap_err(),
        LevelError::DuplicatePlayer
    );
}

#[test]
fn error_messages_are_readable() {
    assert_eq!(LevelError::MissingPlayer.message(), "level has no player");
    assert_eq!(
        LevelError::MalformedDimensions.message(),
        "level grid dimensions are malformed"
    );
    assert!(!LevelError::UnwalledBoundary.message().is_empty());
    assert!(!LevelError::UnrecognizedSymbol.message().is_empty());
    assert!(!LevelError::DuplicatePlayer.message().is_empty());
}

#[test]
fn lookup_by_position_and_player() {
    let (n, a, d) = meta();
    let g = grid_of(&["IIIII", "I XBI", "IIIII"]);
    let level = Level::from_grid(n, a, d, g).unwrap();
    let p = level.get_player().expect("player exists");
    assert_eq!((level.nodes[p].row, level.nodes[p].col), (1, 2));
    let b = level.get_node_by_position(1, 3).expect("block exists");
    assert!(matches!(level.nodes[b].node_type, NodeType::Block(_)));
    assert!(level.get_node_by_position(1, 1).is_none());
}

#[test]
fn set_player_position_respects_the_boundary() {
    let (n, a, d) = meta();
    let g = grid_of(&["IIIII", "IX  I", "I   I", "IIIII"]);
    let mut level = Level::from_grid(n, a, d, g).unwrap();
    level.set_player_position(2, 3);
    let p = level.get_player().unwrap();
    assert_eq!((level.nodes[p].row, level.nodes[p].col), (2, 3));
    level.set_player_position(0, 3);
    let p = level.get_player().unwrap();
    assert_eq!((level.nodes[p].row, level.nodes[p].col), (2, 3));
}
