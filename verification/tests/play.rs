use l1t::direction::Direction;
use l1t::level::Level;
use l1t::node::{Node, NodeType, ToggleBlock};
use l1t::outcome::{LevelLossReason, LevelStatus};

fn mk_level(rows: u16, cols: u16, nodes: Vec<Node>) -> Level {
    Level::new(
        "test".to_string(),
        "tester".to_string(),
        "a test level".to_string(),
        rows,
        cols,
        nodes,
    )
    .expect("test level should load")
}

fn player_pos(level: &Level) -> (u16, u16) {
    let p = level.get_player().expect("player exists");
    (level.nodes[p].row, level.nodes[p].col)
}

fn node_pos(level: &Level, i: usize) -> (u16, u16) {
    (level.nodes[i].row, level.nodes[i].col)
}

#[test]
fn walk_into_empty_cell() {
    let mut level = mk_level(4, 5, vec![Node::new('X', 1, 1)]);
    level.move_player(Direction::Right);
    assert_eq!(player_pos(&level), (1, 2));
    level.move_player(Direction::Down);
    assert_eq!(player_pos(&level), (2, 2));
}

#[test]
fn walk_into_boundary_is_a_no_op() {
    let mut level = mk_level(4, 5, vec![Node::new('X', 1, 1)]);
    level.move_player(Direction::Up);
    assert_eq!(player_pos(&level), (1, 1));
    level.move_player(Direction::Left);
    assert_eq!(player_pos(&level), (1, 1));
}

#[test]
fn walk_into_interior_wall_is_a_no_op() {
    let mut level = mk_level(4, 5, vec![Node::new('X', 1, 1), Node::new('I', 1, 2)]);
    level.move_player(Direction::Right);
    assert_eq!(player_pos(&level), (1, 1));
}

#[test]
fn push_block_into_empty_cell() {
    let mut level = mk_level(3, 5, vec![Node::new('X', 1, 1), Node::new('B', 1, 2)]);
    level.move_player(Direction::Right);
    assert_eq!(player_pos(&level), (1, 2));
    assert_eq!(node_pos(&level, 1), (1, 3));
}

#[test]
fn push_mirror_and_laser_too() {
    let mut level = mk_level(5, 5, vec![
        Node::new('X', 1, 1),
        Node::new('/', 1, 2),
        Node::new('5', 3, 1),
    ]);
    level.move_player(Direction::Right);
    assert_eq!(player_pos(&level), (1, 2));
    assert_eq!(node_pos(&level, 1), (1, 3));
    let mut level = mk_level(5, 5, vec![Node::new('X', 2, 1), Node::new('5', 2, 2)]);
    level.move_player(Direction::Right);
    assert_eq!(player_pos(&level), (2, 2));
    assert_eq!(node_pos(&level, 1), (2, 3));
}

#[test]
fn illegal_push_into_occupied_cell_is_rejected_twice() {
    let mut level = mk_level(3, 5, vec![
        Node::new('X', 1, 1),
        Node::new('B', 1, 2),
        Node::new('B', 1, 3),
    ]);
    level.move_player(Direction::Right);
    assert_eq!(player_pos(&level), (1, 1));
    assert_eq!(node_pos(&level, 1), (1, 2));
    assert_eq!(node_pos(&level, 2), (1, 3));
    level.move_player(Direction::Right);
    assert_eq!(player_pos(&level), (1, 1));
    assert_eq!(node_pos(&level, 1), (1, 2));
    assert_eq!(node_pos(&level, 2), (1, 3));
}

#[test]
fn illegal_push_into_boundary_is_rejected() {
    let mut level = mk_level(3, 4, vec![Node::new('X', 1, 1), Node::new('B', 1, 2)]);
    level.move_player(Direction::Right);
    assert_eq!(player_pos(&level), (1, 1));
    assert_eq!(node_pos(&level, 1), (1, 2));
}

#[test]
fn switch_toggles_every_toggle_block_and_toggling_twice_restores() {
    let mut level = mk_level(4, 6, vec![
        Node::new('X', 1, 1),
        Node::new('s', 1, 2),
        Node::new('T', 1, 4),
        Node::new('T', 2, 2),
    ]);
    level.move_player(Direction::Right);
    assert_eq!(player_pos(&level), (1, 1));
    assert!(matches!(&level.nodes[1].node_type, NodeType::Switch(s) if s.on));
    assert!(matches!(&level.nodes[2].node_type, NodeType::ToggleBlock(t) if t.passable));
    assert!(matches!(&level.nodes[3].node_type, NodeType::ToggleBlock(t) if t.passable));
    level.move_player(Direction::Right);
    assert_eq!(player_pos(&level), (1, 1));
    assert!(matches!(&level.nodes[1].node_type, NodeType::Switch(s) if !s.on));
    assert!(matches!(&level.nodes[2].node_type, NodeType::ToggleBlock(t) if !t.passable));
    assert!(matches!(&level.nodes[3].node_type, NodeType::ToggleBlock(t) if !t.passable));
}

#[test]
fn button_toggles_like_a_switch() {
    let mut level = mk_level(4, 5, vec![
        Node::new('X', 1, 1),
        Node::new('b', 1, 2),
        Node::new('T', 2, 2),
    ]);
    level.move_player(Direction::Right);
    assert_eq!(player_pos(&level), (1, 1));
    assert!(matches!(&level.nodes[1].node_type, NodeType::Button(b) if b.pressed));
    assert!(matches!(&level.nodes[2].node_type, NodeType::ToggleBlock(t) if t.passable));
}

#[test]
fn solid_toggle_block_blocks_and_passable_admits() {
    let mut level = mk_level(4, 5, vec![Node::new('X', 1, 1), Node::new('T', 1, 2)]);
    level.move_player(Direction::Right);
    assert_eq!(player_pos(&level), (1, 1));
    let mut level = mk_level(4, 5, vec![
        Node::new('X', 1, 1),
        Node {
            node_type: NodeType::ToggleBlock(ToggleBlock { passable: true }),
            row: 1,
            col: 2,
        },
    ]);
    level.move_player(Direction::Right);
    assert_eq!(player_pos(&level), (1, 2));
    assert_eq!(node_pos(&level, 1), (1, 2));
}

#[test]
fn beam_that_exits_has_no_terminal_and_no_effects() {
    let mut level = mk_level(7, 7, vec![
        Node::new('X', 5, 5),
        Node::new('1', 1, 1),
        Node::new('S', 3, 3),
    ]);
    let hit = level.set_lasers_looking_at();
    assert!(!hit);
    assert!(matches!(&level.nodes[1].node_type, NodeType::Laser(l) if l.shooting_at.is_empty()));
    assert!(matches!(&level.nodes[2].node_type, NodeType::Statue(s) if !s.lit));
    assert_eq!(level.evaluate_status(hit), LevelStatus::InProgress);
}

#[test]
fn beam_lights_statue_and_wins() {
    let mut level = mk_level(7, 7, vec![
        Node::new('X', 5, 5),
        Node::new('4', 1, 1),
        Node::new('S', 1, 3),
    ]);
    let hit = level.set_lasers_looking_at();
    assert!(!hit);
    assert!(matches!(&level.nodes[2].node_type, NodeType::Statue(s) if s.lit));
    match &level.nodes[1].node_type {
        NodeType::Laser(l) => {
            assert_eq!(l.shooting_at, vec![(1, 2, '-', '>'), (1, 3, '-', '>')]);
        }
        _ => panic!("expected a laser"),
    }
    assert_eq!(level.evaluate_status(hit), LevelStatus::Won);
}

#[test]
fn beam_lights_zapper_and_loses() {
    let mut level = mk_level(7, 7, vec![
        Node::new('X', 5, 5),
        Node::new('4', 1, 1),
        Node::new('Z', 1, 3),
    ]);
    let hit = level.set_lasers_looking_at();
    assert!(!hit);
    assert!(matches!(&level.nodes[2].node_type, NodeType::Zapper(z) if z.lit));
    assert_eq!(
        level.evaluate_status(hit),
        LevelStatus::Lost(LevelLossReason::Zapper)
    );
}

#[test]
fn statue_light_is_not_sticky() {
    let mut level = mk_level(7, 7, vec![
        Node::new('X', 5, 5),
        Node::new('4', 1, 1),
        Node::new('S', 1, 3),
    ]);
    level.set_lasers_looking_at();
    assert!(matches!(&level.nodes[2].node_type, NodeType::Statue(s) if s.lit));
    level.nodes[1].toggle();
    let hit = level.set_lasers_looking_at();
    assert!(matches!(&level.nodes[2].node_type, NodeType::Statue(s) if !s.lit));
    assert_eq!(level.evaluate_status(hit), LevelStatus::InProgress);
}

#[test]
fn beam_passes_through_passable_toggle_block() {
    let mut level = mk_level(7, 7, vec![
        Node::new('X', 5, 5),
        Node::new('4', 1, 1),
        Node {
            node_type: NodeType::ToggleBlock(ToggleBlock { passable: true }),
            row: 1,
            col: 2,
        },
        Node::new('S', 1, 4),
    ]);
    let hit = level.set_lasers_looking_at();
    assert!(!hit);
    assert!(matches!(&level.nodes[3].node_type, NodeType::Statue(s) if s.lit));
    assert_eq!(level.evaluate_status(hit), LevelStatus::Won);
}

#[test]
fn beam_stops_at_solid_toggle_block() {
    let mut level = mk_level(7, 7, vec![
        Node::new('X', 5, 5),
        Node::new('4', 1, 1),
        Node::new('T', 1, 2),
        Node::new('S', 1, 4),
    ]);
    let hit = level.set_lasers_looking_at();
    assert!(!hit);
    assert!(matches!(&level.nodes[3].node_type, NodeType::Statue(s) if !s.lit));
    assert_eq!(level.evaluate_status(hit), LevelStatus::InProgress);
}

#[test]
fn beam_zigzags_across_two_mirrors() {
    let mut level = mk_level(7, 7, vec![
        Node::new('X', 5, 5),
        Node::new('4', 1, 1),
        Node::new('\\', 1, 3),
        Node::new('/', 3, 3),
        Node::new('S', 3, 1),
    ]);
    let hit = level.set_lasers_looking_at();
    assert!(!hit);
    assert!(matches!(&level.nodes[4].node_type, NodeType::Statue(s) if s.lit));
    match &level.nodes[1].node_type {
        NodeType::Laser(l) => {
            assert_eq!(
                l.shooting_at,
                vec![
                    (1, 2, '-', '>'),
                    (1, 3, '-', '>'),
                    (2, 3, '|', 'v'),
                    (3, 3, '|', 'v'),
                    (3, 2, '-', '<'),
                    (3, 1, '-', '<'),
                ]
            );
        }
        _ => panic!("expected a laser"),
    }
    assert_eq!(level.evaluate_status(hit), LevelStatus::Won);
}

#[test]
fn win_needs_reversed_statues_dark_and_plain_statues_lit() {
    let mut level = mk_level(7, 7, vec![
        Node::new('X', 5, 5),
        Node::new('S', 1, 1),
        Node::new('R', 1, 3),
    ]);
    let set = |level: &mut Level, i: usize, lit: bool| match &mut level.nodes[i].node_type {
        NodeType::Statue(s) => s.lit = lit,
        _ => panic!("expected a statue"),
    };
    set(&mut level, 1, true);
    set(&mut level, 2, false);
    assert_eq!(level.evaluate_status(false), LevelStatus::Won);
    set(&mut level, 1, true);
    set(&mut level, 2, true);
    assert_eq!(level.evaluate_status(false), LevelStatus::InProgress);
    set(&mut level, 1, false);
    set(&mut level, 2, false);
    assert_eq!(level.evaluate_status(false), LevelStatus::InProgress);
    set(&mut level, 1, false);
    set(&mut level, 2, true);
    assert_eq!(level.evaluate_status(false), LevelStatus::InProgress);
    set(&mut level, 1, true);
    set(&mut level, 2, false);
    match &mut level.nodes[0].node_type {
        NodeType::Player(_) => {}
        _ => panic!("expected the player"),
    }
    let mut with_zapper = mk_level(7, 7, vec![
        Node::new('X', 5, 5),
        Node::new('S', 1, 1),
        Node::new('Z', 1, 3),
    ]);
    set(&mut with_zapper, 1, true);
    match &mut with_zapper.nodes[2].node_type {
        NodeType::Zapper(z) => z.lit = true,
        _ => panic!("expected a zapper"),
    }
    assert_eq!(
        with_zapper.evaluate_status(false),
        LevelStatus::Lost(LevelLossReason::Zapper)
    );
}

#[test]
fn death_takes_precedence_over_a_win() {
    let mut level = mk_level(7, 7, vec![
        Node::new('X', 2, 2),
        Node::new('3', 2, 4),
        Node::new('S', 4, 4),
        Node::new('4', 4, 1),
    ]);
    let hit = level.set_lasers_looking_at();
    assert!(hit);
    assert!(matches!(&level.nodes[2].node_type, NodeType::Statue(s) if s.lit));
    assert_eq!(
        level.evaluate_status(hit),
        LevelStatus::Lost(LevelLossReason::Death)
    );
}

#[test]
fn laser_disables_laser_and_stays_disabled() {
    let mut level = mk_level(7, 7, vec![
        Node::new('X', 5, 5),
        Node::new('4', 1, 1),
        Node::new('1', 1, 3),
    ]);
    let hit = level.set_lasers_looking_at();
    assert!(!hit);
    assert!(matches!(&level.nodes[2].node_type, NodeType::Laser(l) if !l.enabled));
    assert!(matches!(&level.nodes[2].node_type, NodeType::Laser(l) if l.shooting_at.is_empty()));
    level.set_lasers_looking_at();
    assert!(matches!(&level.nodes[2].node_type, NodeType::Laser(l) if !l.enabled));
    level.nodes[1].toggle();
    level.set_lasers_looking_at();
    assert!(matches!(&level.nodes[1].node_type, NodeType::Laser(l) if !l.enabled));
    assert!(matches!(&level.nodes[2].node_type, NodeType::Laser(l) if !l.enabled));
}

#[test]
fn backward_mirror_sends_beam_into_the_player() {
    let mut level = mk_level(7, 7, vec![
        Node::new('X', 2, 2),
        Node::new('\\', 2, 3),
        Node::new('1', 4, 3),
    ]);
    let hit = level.set_lasers_looking_at();
    assert!(hit);
    match &level.nodes[2].node_type {
        NodeType::Laser(l) => {
            assert_eq!(
                l.shooting_at,
                vec![(3, 3, '|', '^'), (2, 3, '|', '^'), (2, 2, '-', '<')]
            );
        }
        _ => panic!("expected a laser"),
    }
    assert_eq!(
        level.evaluate_status(hit),
        LevelStatus::Lost(LevelLossReason::Death)
    );
}

#[test]
fn apply_move_runs_a_whole_turn() {
    let mut level = mk_level(7, 7, vec![
        Node::new('X', 2, 2),
        Node::new('3', 2, 4),
        Node::new('S', 5, 1),
    ]);
    level.apply_move(Direction::Up);
    assert_eq!(player_pos(&level), (1, 2));
    assert_eq!(level.status, LevelStatus::InProgress);
    level.apply_move(Direction::Down);
    assert_eq!(player_pos(&level), (2, 2));
    assert_eq!(level.status, LevelStatus::Lost(LevelLossReason::Death));
}

#[test]
fn terminal_levels_accept_no_further_moves() {
    let mut level = mk_level(7, 7, vec![
        Node::new('X', 2, 2),
        Node::new('3', 2, 4),
        Node::new('S', 5, 1),
    ]);
    level.apply_move(Direction::Down);
    assert_eq!(player_pos(&level), (3, 2));
    assert_eq!(level.status, LevelStatus::InProgress);
    level.apply_move(Direction::Up);
    assert_eq!(level.status, LevelStatus::Lost(LevelLossReason::Death));
    level.apply_move(Direction::Down);
    assert_eq!(player_pos(&level), (2, 2));
    assert_eq!(level.status, LevelStatus::Lost(LevelLossReason::Death));
}

#[test]
fn pushing_a_mirror_redirects_the_next_cycle() {
    let mut level = mk_level(7, 7, vec![
        Node::new('X', 1, 4),
        Node::new('4', 1, 1),
        Node::new('\\', 1, 3),
        Node::new('S', 3, 3),
        Node::new('S', 3, 5),
    ]);
    let hit = level.set_lasers_looking_at();
    assert!(!hit);
    assert!(matches!(&level.nodes[3].node_type, NodeType::Statue(s) if s.lit));
    assert!(matches!(&level.nodes[4].node_type, NodeType::Statue(s) if !s.lit));
    level.apply_move(Direction::Left);
    assert_eq!(player_pos(&level), (1, 3));
    assert_eq!((level.nodes[2].row, level.nodes[2].col), (1, 2));
    assert!(matches!(&level.nodes[3].node_type, NodeType::Statue(s) if !s.lit));
    assert_eq!(level.status, LevelStatus::InProgress);
}

#[test]
fn player_blocks_a_beam_for_objects_behind() {
    let mut level = mk_level(7, 7, vec![
        Node::new('X', 1, 2),
        Node::new('4', 1, 1),
        Node::new('S', 1, 4),
    ]);
    let hit = level.set_lasers_looking_at();
    assert!(hit);
    assert!(matches!(&level.nodes[2].node_type, NodeType::Statue(s) if !s.lit));
    assert_eq!(
        level.evaluate_status(hit),
        LevelStatus::Lost(LevelLossReason::Death)
    );
}
