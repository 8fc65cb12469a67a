//! The beam propagation engine: for a laser cell and a direction, the
//! ordered sequence of cells the beam traverses and the cell of the
//! object it strikes, if any.

use vstd::prelude::*;
use crate::direction::{reflect, spec_reflect, Direction, Orientation};
use crate::grid::{
    blocking_at, find_first_at, forward_mirror_at, interior, lemma_unique_at_cell, mirror_at,
    no_overlap, node_at, player_at_cell,
};
use crate::node::{Node, NodeType};

verus! {

/// The glyph a beam segment is drawn with while travelling in `d`.
pub open spec fn beam_glyph(d: Direction) -> char {
    if d is Up || d is Down {
        '|'
    } else {
        '-'
    }
}

/// The arrow glyph for the head of a beam travelling in `d`.
pub open spec fn beam_arrow(d: Direction) -> char {
    match d {
        Direction::Up => '^',
        Direction::Down => 'v',
        Direction::Left => '<',
        Direction::Right => '>',
    }
}

/// The orientation of the mirror on cell `(r, c)`; meaningful when a
/// mirror is there and the cell holds no second node.
pub open spec fn mirror_orientation_at(nodes: Seq<Node>, r: int, c: int) -> Orientation {
    if forward_mirror_at(nodes, r, c) {
        Orientation::Forward
    } else {
        Orientation::Backward
    }
}

/// Enough steps to outlast any beam that terminates at all: a beam
/// visits each of the at most `rows * cols` cells in at most 4
/// directions, so a longer walk must be cyclic.
pub open spec fn beam_fuel(rows: int, cols: int) -> nat {
    (rows * cols * 4 + 1) as nat
}

/// One beam, starting one step beyond `(r, c)` in direction `d`.
///
/// Each step advances one cell. A step out of the interior region ends
/// the beam with no struck cell (the boundary wall absorbs it). The
/// player's cell ends it on the player. A mirror redirects it without
/// stopping it; a passable toggle block and an empty cell let it pass;
/// any other occupied cell ends it there. The result is the recorded
/// path — each entry a cell with its drawing glyphs — and the cell of
/// the struck object, if one was struck. A beam caught in a mirror
/// cycle runs out of fuel and ends with no struck cell.
pub open spec fn spec_beam(
    nodes: Seq<Node>,
    rows: int,
    cols: int,
    r: int,
    c: int,
    d: Direction,
    fuel: nat,
) -> (Seq<(u16, u16, char, char)>, Option<(u16, u16)>)
    decreases fuel,
{
    if fuel == 0 {
        (Seq::empty(), None)
    } else {
        let nr = r + d.drow();
        let nc = c + d.dcol();
        if !interior(rows, cols, nr, nc) {
            (Seq::empty(), None)
        } else {
            let cell = (nr as u16, nc as u16, beam_glyph(d), beam_arrow(d));
            if player_at_cell(nodes, nr, nc) {
                (seq![cell], Some((nr as u16, nc as u16)))
            } else if mirror_at(nodes, nr, nc) {
                let d2 = spec_reflect(d, mirror_orientation_at(nodes, nr, nc));
                let rest = spec_beam(nodes, rows, cols, nr, nc, d2, (fuel - 1) as nat);
                (seq![cell] + rest.0, rest.1)
            } else if blocking_at(nodes, nr, nc) {
                (seq![cell], Some((nr as u16, nc as u16)))
            } else {
                let rest = spec_beam(nodes, rows, cols, nr, nc, d, (fuel - 1) as nat);
                (seq![cell] + rest.0, rest.1)
            }
        }
    }
}

/// What the beam engine and the occupancy invariant read of one node:
/// its cell, whether it is the player, a toggle block or a mirror, the
/// mirror's orientation, and whether it lets beams through. The
/// togglable flags and recorded beams play no part.
pub open spec fn same_geometry_node(a: Node, b: Node) -> bool {
    &&& a.row == b.row
    &&& a.col == b.col
    &&& (a.node_type is Player <==> b.node_type is Player)
    &&& (a.node_type is ToggleBlock <==> b.node_type is ToggleBlock)
    &&& (a.node_type is Mirror <==> b.node_type is Mirror)
    &&& (a.node_type matches NodeType::Mirror(m) ==> b.node_type matches NodeType::Mirror(p)
        && p.orientation == m.orientation)
    &&& (a.node_type.is_beam_transparent() <==> b.node_type.is_beam_transparent())
}

/// Two object sets that agree on everything the beam engine reads.
pub open spec fn same_geometry(a: Seq<Node>, b: Seq<Node>) -> bool {
    &&& a.len() == b.len()
    &&& forall |i: int| 0 <= i < a.len() ==> same_geometry_node(#[trigger] a[i], #[trigger] b[i])
}

/// Geometry agreement strings together.
pub proof fn lemma_same_geometry_trans(a: Seq<Node>, b: Seq<Node>, c: Seq<Node>)
    requires
        same_geometry(a, b),
        same_geometry(b, c),
    ensures
        same_geometry(a, c),
{
    assert forall |i: int| 0 <= i < a.len()
        implies same_geometry_node(#[trigger] a[i], #[trigger] c[i]) by {
        assert(same_geometry_node(a[i], b[i]));
        assert(same_geometry_node(b[i], c[i]));
    }
}

/// The cell predicates the beam engine branches on agree on object
/// sets with the same geometry.
pub proof fn lemma_geometry_cell_preds(a: Seq<Node>, b: Seq<Node>, r: int, c: int)
    requires
        same_geometry(a, b),
    ensures
        player_at_cell(a, r, c) == player_at_cell(b, r, c),
        mirror_at(a, r, c) == mirror_at(b, r, c),
        forward_mirror_at(a, r, c) == forward_mirror_at(b, r, c),
        blocking_at(a, r, c) == blocking_at(b, r, c),
{
    if player_at_cell(a, r, c) {
        let i = choose |i: int|
            0 <= i < a.len() && #[trigger] node_at(a[i], r, c) && a[i].node_type is Player;
        assert(node_at(b[i], r, c) && b[i].node_type is Player);
    }
    if player_at_cell(b, r, c) {
        let i = choose |i: int|
            0 <= i < b.len() && #[trigger] node_at(b[i], r, c) && b[i].node_type is Player;
        assert(node_at(a[i], r, c) && a[i].node_type is Player);
    }
    if mirror_at(a, r, c) {
        let i = choose |i: int|
            0 <= i < a.len() && #[trigger] node_at(a[i], r, c) && a[i].node_type is Mirror;
        assert(node_at(b[i], r, c) && b[i].node_type is Mirror);
    }
    if mirror_at(b, r, c) {
        let i = choose |i: int|
            0 <= i < b.len() && #[trigger] node_at(b[i], r, c) && b[i].node_type is Mirror;
        assert(node_at(a[i], r, c) && a[i].node_type is Mirror);
    }
    if forward_mirror_at(a, r, c) {
        let i = choose |i: int|
            0 <= i < a.len() && #[trigger] node_at(a[i], r, c)
                && (a[i].node_type matches NodeType::Mirror(m) && m.orientation is Forward);
        assert(node_at(b[i], r, c)
            && (b[i].node_type matches NodeType::Mirror(m) && m.orientation is Forward));
    }
    if forward_mirror_at(b, r, c) {
        let i = choose |i: int|
            0 <= i < b.len() && #[trigger] node_at(b[i], r, c)
                && (b[i].node_type matches NodeType::Mirror(m) && m.orientation is Forward);
        assert(node_at(a[i], r, c)
            && (a[i].node_type matches NodeType::Mirror(m) && m.orientation is Forward));
    }
    if blocking_at(a, r, c) {
        let i = choose |i: int|
            0 <= i < a.len() && #[trigger] node_at(a[i], r, c)
                && !a[i].node_type.is_beam_transparent();
        assert(node_at(b[i], r, c) && !b[i].node_type.is_beam_transparent());
    }
    if blocking_at(b, r, c) {
        let i = choose |i: int|
            0 <= i < b.len() && #[trigger] node_at(b[i], r, c)
                && !b[i].node_type.is_beam_transparent();
        assert(node_at(a[i], r, c) && !a[i].node_type.is_beam_transparent());
    }
}

/// A beam only depends on the geometry: recomputing it after flags
/// were flipped or recorded beams were rewritten changes nothing.
pub proof fn lemma_beam_same_geometry(
    a: Seq<Node>,
    b: Seq<Node>,
    rows: int,
    cols: int,
    r: int,
    c: int,
    d: Direction,
    fuel: nat,
)
    requires
        same_geometry(a, b),
    ensures
        spec_beam(a, rows, cols, r, c, d, fuel) == spec_beam(b, rows, cols, r, c, d, fuel),
    decreases fuel,
{
    if fuel > 0 {
        let nr = r + d.drow();
        let nc = c + d.dcol();
        if interior(rows, cols, nr, nc) {
            lemma_geometry_cell_preds(a, b, nr, nc);
            if player_at_cell(a, nr, nc) {
            } else if mirror_at(a, nr, nc) {
                let d2 = spec_reflect(d, mirror_orientation_at(a, nr, nc));
                lemma_beam_same_geometry(a, b, rows, cols, nr, nc, d2, (fuel - 1) as nat);
            } else if blocking_at(a, nr, nc) {
            } else {
                lemma_beam_same_geometry(a, b, rows, cols, nr, nc, d, (fuel - 1) as nat);
            }
        }
    }
}

/// A beam's struck cell, when there is one, is an interior cell that
/// really holds the player or a beam-stopping object: a beam that
/// leaves the interior strikes nothing.
pub proof fn lemma_beam_strikes_occupant(
    nodes: Seq<Node>,
    rows: int,
    cols: int,
    r: int,
    c: int,
    d: Direction,
    fuel: nat,
)
    ensures
        spec_beam(nodes, rows, cols, r, c, d, fuel).1 matches Some(cell) ==> {
            &&& interior(rows, cols, cell.0 as int, cell.1 as int)
            &&& player_at_cell(nodes, cell.0 as int, cell.1 as int)
                || blocking_at(nodes, cell.0 as int, cell.1 as int)
        },
    decreases fuel,
{
    if fuel > 0 {
        let nr = r + d.drow();
        let nc = c + d.dcol();
        if interior(rows, cols, nr, nc) {
            if player_at_cell(nodes, nr, nc) {
            } else if mirror_at(nodes, nr, nc) {
                let d2 = spec_reflect(d, mirror_orientation_at(nodes, nr, nc));
                lemma_beam_strikes_occupant(nodes, rows, cols, nr, nc, d2, (fuel - 1) as nat);
            } else if blocking_at(nodes, nr, nc) {
            } else {
                lemma_beam_strikes_occupant(nodes, rows, cols, nr, nc, d, (fuel - 1) as nat);
            }
        }
    }
}

/// Exec form of `beam_glyph`.
fn glyph_of(d: Direction) -> (g: char)
    ensures
        g == beam_glyph(d),
{
    match d {
        Direction::Up | Direction::Down => '|',
        _ => '-',
    }
}

/// Exec form of `beam_arrow`.
fn arrow_of(d: Direction) -> (g: char)
    ensures
        g == beam_arrow(d),
{
    match d {
        Direction::Up => '^',
        Direction::Down => 'v',
        Direction::Left => '<',
        Direction::Right => '>',
    }
}

/// Walks one beam across the object set, returning the recorded path
/// and the struck cell, exactly as `spec_beam` describes with the full
/// fuel budget. `(pr, pc)` is the cell of the unique player.
#[verifier::loop_isolation(false)]
pub fn trace_beam(
    nodes: &Vec<Node>,
    rows: u16,
    cols: u16,
    start_row: u16,
    start_col: u16,
    d: Direction,
    pr: u16,
    pc: u16,
) -> (res: (Vec<(u16, u16, char, char)>, Option<(u16, u16)>))
    requires
        3 <= rows,
        3 <= cols,
        interior(rows as int, cols as int, start_row as int, start_col as int),
        no_overlap(nodes@),
        player_at_cell(nodes@, pr as int, pc as int),
        forall |i: int|
            0 <= i < nodes@.len() && (#[trigger] nodes@[i].node_type) is Player
                ==> node_at(nodes@[i], pr as int, pc as int),
    ensures
        res.0@ == spec_beam(
            nodes@,
            rows as int,
            cols as int,
            start_row as int,
            start_col as int,
            d,
            beam_fuel(rows as int, cols as int),
        ).0,
        res.1 == spec_beam(
            nodes@,
            rows as int,
            cols as int,
            start_row as int,
            start_col as int,
            d,
            beam_fuel(rows as int, cols as int),
        ).1,
{
    let ghost full = spec_beam(
        nodes@,
        rows as int,
        cols as int,
        start_row as int,
        start_col as int,
        d,
        beam_fuel(rows as int, cols as int),
    );
    assert((rows as u64) * (cols as u64) * 4 + 1 <= 0xFFFFu64 * 0xFFFFu64 * 4 + 1)
        by (nonlinear_arith)
        requires rows <= 0xFFFF && cols <= 0xFFFF,
    ;
    let mut fuel: u64 = (rows as u64) * (cols as u64) * 4 + 1;
    assert(fuel as nat == beam_fuel(rows as int, cols as int));
    let mut path: Vec<(u16, u16, char, char)> = Vec::new();
    let mut r: u16 = start_row;
    let mut c: u16 = start_col;
    let mut dir: Direction = d;
    loop
        invariant
            interior(rows as int, cols as int, r as int, c as int),
            full.0 == path@ + spec_beam(
                nodes@,
                rows as int,
                cols as int,
                r as int,
                c as int,
                dir,
                fuel as nat,
            ).0,
            full.1 == spec_beam(
                nodes@,
                rows as int,
                cols as int,
                r as int,
                c as int,
                dir,
                fuel as nat,
            ).1,
        decreases fuel,
    {
        let ghost rest = spec_beam(
            nodes@,
            rows as int,
            cols as int,
            r as int,
            c as int,
            dir,
            fuel as nat,
        );
        if fuel == 0 {
            assert(rest.0 =~= Seq::empty());
            assert(full.0 =~= path@);
            return (path, None);
        }
        fuel = fuel - 1;
        let (nr, nc) = dir.step(r, c);
        let ghost rest2 = spec_beam(
            nodes@,
            rows as int,
            cols as int,
            nr as int,
            nc as int,
            dir,
            fuel as nat,
        );
        if !(nr >= 1 && nr <= rows - 2 && nc >= 1 && nc <= cols - 2) {
            assert(full.0 =~= path@);
            return (path, None);
        }
        let cell = (nr, nc, glyph_of(dir), arrow_of(dir));
        if nr == pr && nc == pc {
            path.push(cell);
            assert(full.0 =~= path@);
            return (path, Some((nr, nc)));
        }
        assert(!player_at_cell(nodes@, nr as int, nc as int)) by {
            if player_at_cell(nodes@, nr as int, nc as int) {
                let i = choose |i: int|
                    0 <= i < nodes@.len() && #[trigger] node_at(nodes@[i], nr as int, nc as int)
                        && nodes@[i].node_type is Player;
                assert(node_at(nodes@[i], pr as int, pc as int));
            }
        }
        match find_first_at(nodes, nr, nc) {
            None => {
                assert(!mirror_at(nodes@, nr as int, nc as int));
                assert(!blocking_at(nodes@, nr as int, nc as int));
                path.push(cell);
                proof {
                    assert(rest.0 == seq![cell] + rest2.0);
                    assert(full.0 =~= path@ + rest2.0);
                }
                r = nr;
                c = nc;
            }
            Some(i) => {
                proof {
                    assert forall |j: int|
                        0 <= j < nodes@.len()
                            && node_at(#[trigger] nodes@[j], nr as int, nc as int)
                        implies j == i by {
                        assert(!(nodes@[j].node_type is Player));
                        assert(!(nodes@[i as int].node_type is Player));
                        lemma_unique_at_cell(nodes@, i as int, j);
                    }
                }
                let mut is_mirror: bool = false;
                let mut orientation: Orientation = Orientation::Forward;
                let mut pass_through: bool = false;
                match &nodes[i].node_type {
                    NodeType::Mirror(m) => {
                        is_mirror = true;
                        orientation = m.orientation;
                    }
                    NodeType::ToggleBlock(t) => {
                        if t.passable {
                            pass_through = true;
                        }
                    }
                    _ => {}
                }
                if is_mirror {
                    proof {
                        assert(mirror_at(nodes@, nr as int, nc as int));
                        if forward_mirror_at(nodes@, nr as int, nc as int) {
                            let j = choose |j: int|
                                0 <= j < nodes@.len()
                                    && #[trigger] node_at(nodes@[j], nr as int, nc as int)
                                    && (nodes@[j].node_type matches NodeType::Mirror(m)
                                        && m.orientation is Forward);
                            assert(j == i);
                        }
                        assert(mirror_orientation_at(nodes@, nr as int, nc as int)
                            == orientation);
                    }
                    let d2 = reflect(dir, orientation);
                    path.push(cell);
                    proof {
                        let restm = spec_beam(
                            nodes@,
                            rows as int,
                            cols as int,
                            nr as int,
                            nc as int,
                            d2,
                            fuel as nat,
                        );
                        assert(rest.0 == seq![cell] + restm.0);
                        assert(full.0 =~= path@ + restm.0);
                    }
                    r = nr;
                    c = nc;
                    dir = d2;
                } else if pass_through {
                    proof {
                        assert(!mirror_at(nodes@, nr as int, nc as int)) by {
                            if mirror_at(nodes@, nr as int, nc as int) {
                                let j = choose |j: int|
                                    0 <= j < nodes@.len()
                                        && #[trigger] node_at(nodes@[j], nr as int, nc as int)
                                        && nodes@[j].node_type is Mirror;
                                assert(j == i);
                            }
                        }
                        assert(!blocking_at(nodes@, nr as int, nc as int)) by {
                            if blocking_at(nodes@, nr as int, nc as int) {
                                let j = choose |j: int|
                                    0 <= j < nodes@.len()
                                        && #[trigger] node_at(nodes@[j], nr as int, nc as int)
                                        && !nodes@[j].node_type.is_beam_transparent();
                                assert(j == i);
                            }
                        }
                    }
                    path.push(cell);
                    proof {
                        assert(rest.0 == seq![cell] + rest2.0);
                        assert(full.0 =~= path@ + rest2.0);
                    }
                    r = nr;
                    c = nc;
                } else {
                    proof {
                        assert(!mirror_at(nodes@, nr as int, nc as int)) by {
                            if mirror_at(nodes@, nr as int, nc as int) {
                                let j = choose |j: int|
                                    0 <= j < nodes@.len()
                                        && #[trigger] node_at(nodes@[j], nr as int, nc as int)
                                        && nodes@[j].node_type is Mirror;
                                assert(j == i);
                            }
                        }
                        assert(!nodes@[i as int].node_type.is_beam_transparent());
                        assert(blocking_at(nodes@, nr as int, nc as int));
                    }
                    path.push(cell);
                    assert(full.0 =~= path@);
                    return (path, Some((nr, nc)));
                }
            }
        }
    }
}

} // verus!
