//! The grid object model: every typed object that can sit on a cell.

use vstd::prelude::*;
use crate::direction::{Direction, Orientation};

verus! {

/// The player; exactly one exists per level.
#[derive(Debug)]
pub struct Player;

/// A movable block: blocks beams and can be pushed.
#[derive(Debug)]
pub struct Block;

/// An immovable wall: blocks beams and movement.
#[derive(Debug)]
pub struct Wall;

/// An immovable switch, toggled when the player walks into its cell.
#[derive(Debug)]
pub struct Switch {
    pub on: bool,
}

/// An immovable block that blocks movement and beams only while it is
/// not passable; switches and buttons flip `passable`.
#[derive(Debug)]
pub struct ToggleBlock {
    pub passable: bool,
}

/// An immovable button, with the same toggle behaviour as a switch.
#[derive(Debug)]
pub struct Button {
    pub pressed: bool,
}

/// A movable mirror that redirects any beam entering its cell.
#[derive(Debug)]
pub struct Mirror {
    pub orientation: Orientation,
}

/// A movable laser. While enabled it emits a beam from its cell in
/// `direction`; `shooting_at` records the cells of its current beam,
/// each with the glyph and the arrow glyph used to draw it.
#[derive(Debug)]
pub struct Laser {
    pub enabled: bool,
    pub direction: Direction,
    pub shooting_at: Vec<(u16, u16, char, char)>,
}

/// An immovable statue. A non-reversed statue must be lit, a reversed
/// one unlit, for the level to be won.
#[derive(Debug)]
pub struct Statue {
    pub lit: bool,
    pub reversed: bool,
}

/// An immovable zapper: if it is ever lit, the level is lost.
#[derive(Debug)]
pub struct Zapper {
    pub lit: bool,
}

/// Tagged union over every kind of object.
#[derive(Debug)]
pub enum NodeType {
    Player(Player),
    Block(Block),
    Wall(Wall),
    Switch(Switch),
    ToggleBlock(ToggleBlock),
    Button(Button),
    Mirror(Mirror),
    Laser(Laser),
    Statue(Statue),
    Zapper(Zapper),
}

/// One object, placed on an integer (row, column) coordinate.
#[derive(Debug)]
pub struct Node {
    pub node_type: NodeType,
    pub row: u16,
    pub col: u16,
}

impl NodeType {
    /// The kinds the player can relocate: itself, and the three
    /// pushable kinds (blocks, mirrors, lasers).
    pub open spec fn is_movable_kind(self) -> bool {
        ||| self is Player
        ||| self is Block
        ||| self is Mirror
        ||| self is Laser
    }

    /// A beam passes straight through a passable toggle block, as if
    /// the cell were empty.
    pub open spec fn is_beam_transparent(self) -> bool {
        self matches NodeType::ToggleBlock(t) && t.passable
    }

    /// A laser that is currently emitting a beam.
    pub open spec fn is_enabled_laser(self) -> bool {
        self matches NodeType::Laser(l) && l.enabled
    }
}

/// What `Node::new` builds from each grid symbol. Unrecognized symbols
/// fall back to a wall; level construction rejects them beforehand.
pub open spec fn spec_symbol_node(nt: NodeType, ch: char) -> bool {
    if ch == 'X' {
        nt is Player
    } else if ch == 'B' {
        nt is Block
    } else if ch == 'T' {
        nt matches NodeType::ToggleBlock(t) && !t.passable
    } else if ch == 'b' {
        nt matches NodeType::Button(b) && !b.pressed
    } else if ch == 's' {
        nt matches NodeType::Switch(s) && !s.on
    } else if ch == 'S' {
        nt matches NodeType::Statue(s) && !s.lit && !s.reversed
    } else if ch == 'R' {
        nt matches NodeType::Statue(s) && !s.lit && s.reversed
    } else if ch == 'Z' {
        nt matches NodeType::Zapper(z) && !z.lit
    } else if ch == '/' {
        nt matches NodeType::Mirror(m) && m.orientation is Forward
    } else if ch == '\\' {
        nt matches NodeType::Mirror(m) && m.orientation is Backward
    } else if ch == '1' {
        spec_fresh_laser(nt, true, Direction::Up)
    } else if ch == '2' {
        spec_fresh_laser(nt, true, Direction::Down)
    } else if ch == '3' {
        spec_fresh_laser(nt, true, Direction::Left)
    } else if ch == '4' {
        spec_fresh_laser(nt, true, Direction::Right)
    } else if ch == '5' {
        spec_fresh_laser(nt, false, Direction::Up)
    } else if ch == '6' {
        spec_fresh_laser(nt, false, Direction::Down)
    } else if ch == '7' {
        spec_fresh_laser(nt, false, Direction::Left)
    } else if ch == '8' {
        spec_fresh_laser(nt, false, Direction::Right)
    } else {
        nt is Wall
    }
}

/// A laser as it comes out of level construction: no beam recorded yet.
pub open spec fn spec_fresh_laser(nt: NodeType, enabled: bool, direction: Direction) -> bool {
    &&& nt matches NodeType::Laser(l)
    &&& l.enabled == enabled
    &&& l.direction == direction
    &&& l.shooting_at@.len() == 0
}

/// How `toggle` rewrites an object's state: each variant flips its own
/// flag, a mirror flips its orientation, and the variants without a
/// togglable flag are left untouched.
pub open spec fn spec_toggle_rel(pre: NodeType, post: NodeType) -> bool {
    match pre {
        NodeType::Laser(l) => post matches NodeType::Laser(p)
            && p.enabled == !l.enabled
            && p.direction == l.direction
            && p.shooting_at == l.shooting_at,
        NodeType::Statue(s) => post matches NodeType::Statue(p)
            && p.lit == !s.lit
            && p.reversed == s.reversed,
        NodeType::Zapper(z) => post matches NodeType::Zapper(p) && p.lit == !z.lit,
        NodeType::Mirror(m) => post matches NodeType::Mirror(p)
            && p.orientation == (if m.orientation is Forward {
                Orientation::Backward
            } else {
                Orientation::Forward
            }),
        NodeType::Button(b) => post matches NodeType::Button(p) && p.pressed == !b.pressed,
        NodeType::Switch(s) => post matches NodeType::Switch(p) && p.on == !s.on,
        NodeType::ToggleBlock(t) => post matches NodeType::ToggleBlock(p)
            && p.passable == !t.passable,
        _ => post == pre,
    }
}

/// Toggling is an involution: applying `toggle` twice restores the
/// object exactly.
pub proof fn lemma_toggle_involution(a: NodeType, b: NodeType, c: NodeType)
    requires
        spec_toggle_rel(a, b),
        spec_toggle_rel(b, c),
    ensures
        c == a,
{
    match a {
        NodeType::Laser(l) => {
            assert(c matches NodeType::Laser(p) && p == l);
        }
        NodeType::Statue(s) => {
            assert(c matches NodeType::Statue(p) && p == s);
        }
        NodeType::Zapper(z) => {
            assert(c matches NodeType::Zapper(p) && p == z);
        }
        NodeType::Mirror(m) => {
            assert(c matches NodeType::Mirror(p) && p == m);
        }
        NodeType::Button(b2) => {
            assert(c matches NodeType::Button(p) && p == b2);
        }
        NodeType::Switch(s) => {
            assert(c matches NodeType::Switch(p) && p == s);
        }
        NodeType::ToggleBlock(t) => {
            assert(c matches NodeType::ToggleBlock(p) && p == t);
        }
        _ => {}
    }
}

impl Node {
    /// The row this node would reach by one step of `dir`, if it is
    /// movable and the step stays inside the coordinate range.
    pub open spec fn spec_target_row(self, dir: Direction) -> int {
        if self.node_type.is_movable_kind() && 0 <= self.row + dir.drow() <= 0xFFFF {
            self.row + dir.drow()
        } else {
            self.row as int
        }
    }

    /// The column this node would reach by one step of `dir`.
    pub open spec fn spec_target_col(self, dir: Direction) -> int {
        if self.node_type.is_movable_kind() && 0 <= self.col + dir.dcol() <= 0xFFFF {
            self.col + dir.dcol()
        } else {
            self.col as int
        }
    }

    /// Builds the object a grid symbol stands for, placed at
    /// `(row, col)`. Unrecognized symbols become walls.
    pub fn new(ch: char, row: u16, col: u16) -> (n: Node)
        ensures
            n.row == row,
            n.col == col,
            spec_symbol_node(n.node_type, ch),
    {
        let node_type = match ch {
            'X' => NodeType::Player(Player),
            'B' => NodeType::Block(Block),
            'T' => NodeType::ToggleBlock(ToggleBlock { passable: false }),
            'b' => NodeType::Button(Button { pressed: false }),
            's' => NodeType::Switch(Switch { on: false }),
            'S' => NodeType::Statue(Statue { lit: false, reversed: false }),
            'R' => NodeType::Statue(Statue { lit: false, reversed: true }),
            'Z' => NodeType::Zapper(Zapper { lit: false }),
            '/' => NodeType::Mirror(Mirror { orientation: Orientation::Forward }),
            '\\' => NodeType::Mirror(Mirror { orientation: Orientation::Backward }),
            '1' => NodeType::Laser(Laser {
                enabled: true,
                direction: Direction::Up,
                shooting_at: Vec::new(),
            }),
            '2' => NodeType::Laser(Laser {
                enabled: true,
                direction: Direction::Down,
                shooting_at: Vec::new(),
            }),
            '3' => NodeType::Laser(Laser {
                enabled: true,
                direction: Direction::Left,
                shooting_at: Vec::new(),
            }),
            '4' => NodeType::Laser(Laser {
                enabled: true,
                direction: Direction::Right,
                shooting_at: Vec::new(),
            }),
            '5' => NodeType::Laser(Laser {
                enabled: false,
                direction: Direction::Up,
                shooting_at: Vec::new(),
            }),
            '6' => NodeType::Laser(Laser {
                enabled: false,
                direction: Direction::Down,
                shooting_at: Vec::new(),
            }),
            '7' => NodeType::Laser(Laser {
                enabled: false,
                direction: Direction::Left,
                shooting_at: Vec::new(),
            }),
            '8' => NodeType::Laser(Laser {
                enabled: false,
                direction: Direction::Right,
                shooting_at: Vec::new(),
            }),
            _ => NodeType::Wall(Wall),
        };
        Node { node_type, row, col }
    }

    /// Where `move_in_dir` would put this node: one step of `dir` for a
    /// movable node when the step stays in range, its own cell otherwise.
    pub fn would_move_to(&mut self, dir: Direction) -> (rc: (u16, u16))
        ensures
            *final(self) == *old(self),
            rc.0 as int == old(self).spec_target_row(dir),
            rc.1 as int == old(self).spec_target_col(dir),
    {
        if !self.is_moveable() {
            return (self.row, self.col);
        }
        let row = match dir {
            Direction::Up => if self.row > 0 { self.row - 1 } else { self.row },
            Direction::Down => if self.row < 0xFFFF { self.row + 1 } else { self.row },
            _ => self.row,
        };
        let col = match dir {
            Direction::Left => if self.col > 0 { self.col - 1 } else { self.col },
            Direction::Right => if self.col < 0xFFFF { self.col + 1 } else { self.col },
            _ => self.col,
        };
        (row, col)
    }

    /// Moves a movable node one step in `dir`, when the step stays in
    /// the coordinate range; immovable nodes and out-of-range steps
    /// leave it in place.
    pub fn move_in_dir(&mut self, dir: Direction)
        ensures
            final(self).row as int == old(self).spec_target_row(dir),
            final(self).col as int == old(self).spec_target_col(dir),
            final(self).node_type == old(self).node_type,
    {
        if !self.is_moveable() {
            return;
        }
        match dir {
            Direction::Up => if self.row > 0 { self.row = self.row - 1 },
            Direction::Down => if self.row < 0xFFFF { self.row = self.row + 1 },
            Direction::Left => if self.col > 0 { self.col = self.col - 1 },
            Direction::Right => if self.col < 0xFFFF { self.col = self.col + 1 },
        }
    }

    /// Whether the player can relocate this node.
    pub fn is_moveable(&self) -> (r: bool)
        ensures
            r == self.node_type.is_movable_kind(),
    {
        match &self.node_type {
            NodeType::Player(_) => true,
            NodeType::Block(_) => true,
            NodeType::Mirror(_) => true,
            NodeType::Laser(_) => true,
            _ => false,
        }
    }

    /// Whether a player standing next to this node may toggle it.
    pub fn is_player_toggleable(&self) -> (r: bool)
        ensures
            r == (self.node_type is Laser || self.node_type is Mirror
                || self.node_type is Switch),
    {
        match &self.node_type {
            NodeType::Laser(_) => true,
            NodeType::Mirror(_) => true,
            NodeType::Switch(_) => true,
            _ => false,
        }
    }

    /// Whether a beam striking this node changes its state.
    pub fn is_laser_toggleable(&self) -> (r: bool)
        ensures
            r == (self.node_type is Laser || self.node_type is Statue
                || self.node_type is Zapper),
    {
        match &self.node_type {
            NodeType::Laser(_) => true,
            NodeType::Statue(_) => true,
            NodeType::Zapper(_) => true,
            _ => false,
        }
    }

    /// Clears whatever flag the variant carries: lasers stop shooting,
    /// statues and zappers go dark, buttons and switches release, and a
    /// toggle block withdraws (becomes passable).
    pub fn turn_off(&mut self)
        ensures
            final(self).row == old(self).row,
            final(self).col == old(self).col,
            match old(self).node_type {
                NodeType::Laser(l) => final(self).node_type matches NodeType::Laser(p)
                    && !p.enabled
                    && p.direction == l.direction
                    && p.shooting_at == l.shooting_at,
                NodeType::Statue(s) => final(self).node_type matches NodeType::Statue(p)
                    && !p.lit
                    && p.reversed == s.reversed,
                NodeType::Zapper(_) => final(self).node_type matches NodeType::Zapper(p)
                    && !p.lit,
                NodeType::Button(_) => final(self).node_type matches NodeType::Button(p)
                    && !p.pressed,
                NodeType::Switch(_) => final(self).node_type matches NodeType::Switch(p)
                    && !p.on,
                NodeType::ToggleBlock(_) => final(self).node_type
                    matches NodeType::ToggleBlock(p) && p.passable,
                _ => final(self).node_type == old(self).node_type,
            },
    {
        match &mut self.node_type {
            NodeType::Laser(l) => l.enabled = false,
            NodeType::Statue(s) => s.lit = false,
            NodeType::Zapper(z) => z.lit = false,
            NodeType::Button(b) => b.pressed = false,
            NodeType::Switch(s) => s.on = false,
            NodeType::ToggleBlock(t) => t.passable = true,
            _ => (),
        }
    }

    /// Flips whatever flag the variant carries, per `spec_toggle_rel`.
    pub fn toggle(&mut self)
        ensures
            final(self).row == old(self).row,
            final(self).col == old(self).col,
            spec_toggle_rel(old(self).node_type, final(self).node_type),
    {
        match &mut self.node_type {
            NodeType::Laser(l) => l.enabled = !l.enabled,
            NodeType::Statue(s) => s.lit = !s.lit,
            NodeType::Zapper(z) => z.lit = !z.lit,
            NodeType::Mirror(m) => {
                if matches!(m.orientation, Orientation::Forward) {
                    m.orientation = Orientation::Backward;
                } else {
                    m.orientation = Orientation::Forward;
                }
            }
            NodeType::Button(b) => b.pressed = !b.pressed,
            NodeType::Switch(s) => s.on = !s.on,
            NodeType::ToggleBlock(t) => t.passable = !t.passable,
            _ => (),
        }
    }

    /// Replaces a laser's recorded beam; every other variant is left
    /// untouched.
    pub fn set_shooting_at(&mut self, shooting_at: Vec<(u16, u16, char, char)>)
        ensures
            final(self).row == old(self).row,
            final(self).col == old(self).col,
            match old(self).node_type {
                NodeType::Laser(l) => final(self).node_type matches NodeType::Laser(p)
                    && p.enabled == l.enabled
                    && p.direction == l.direction
                    && p.shooting_at == shooting_at,
                _ => final(self).node_type == old(self).node_type,
            },
    {
        match &mut self.node_type {
            NodeType::Laser(l) => l.shooting_at = shooting_at,
            _ => (),
        }
    }
}

} // verus!
