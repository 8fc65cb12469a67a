//! Spec-level geometry of the arena: interior cells, occupancy, and the
//! uniqueness facts the resolver and the beam engine rely on.

use vstd::prelude::*;
use crate::node::{Node, NodeType};

verus! {

/// A cell strictly inside the walled boundary ring of a `rows x cols`
/// arena.
pub open spec fn interior(rows: int, cols: int, r: int, c: int) -> bool {
    &&& 1 <= r <= rows - 2
    &&& 1 <= c <= cols - 2
}

/// Whether node `n` sits on cell `(r, c)`.
pub open spec fn node_at(n: Node, r: int, c: int) -> bool {
    n.row == r && n.col == c
}

/// Some node occupies cell `(r, c)`.
pub open spec fn cell_occupied(nodes: Seq<Node>, r: int, c: int) -> bool {
    exists |i: int| 0 <= i < nodes.len() && #[trigger] node_at(nodes[i], r, c)
}

/// The player stands on cell `(r, c)`.
pub open spec fn player_at_cell(nodes: Seq<Node>, r: int, c: int) -> bool {
    exists |i: int|
        0 <= i < nodes.len() && #[trigger] node_at(nodes[i], r, c)
            && nodes[i].node_type is Player
}

/// A mirror sits on cell `(r, c)`.
pub open spec fn mirror_at(nodes: Seq<Node>, r: int, c: int) -> bool {
    exists |i: int|
        0 <= i < nodes.len() && #[trigger] node_at(nodes[i], r, c)
            && nodes[i].node_type is Mirror
}

/// A forward (`/`) mirror sits on cell `(r, c)`. Together with
/// `mirror_at` this determines the orientation of the mirror on a cell
/// that holds exactly one node.
pub open spec fn forward_mirror_at(nodes: Seq<Node>, r: int, c: int) -> bool {
    exists |i: int|
        0 <= i < nodes.len() && #[trigger] node_at(nodes[i], r, c)
            && (nodes[i].node_type matches NodeType::Mirror(m) && m.orientation is Forward)
}

/// Some node on cell `(r, c)` stops a beam: anything but a passable
/// toggle block.
pub open spec fn blocking_at(nodes: Seq<Node>, r: int, c: int) -> bool {
    exists |i: int|
        0 <= i < nodes.len() && #[trigger] node_at(nodes[i], r, c)
            && !nodes[i].node_type.is_beam_transparent()
}

/// A switch or a button sits on cell `(r, c)`.
pub open spec fn switch_or_button_at(nodes: Seq<Node>, r: int, c: int) -> bool {
    exists |i: int|
        0 <= i < nodes.len() && #[trigger] node_at(nodes[i], r, c)
            && (nodes[i].node_type is Switch || nodes[i].node_type is Button)
}

/// A passable toggle block sits on cell `(r, c)`.
pub open spec fn passable_tb_at(nodes: Seq<Node>, r: int, c: int) -> bool {
    exists |i: int|
        0 <= i < nodes.len() && #[trigger] node_at(nodes[i], r, c)
            && (nodes[i].node_type matches NodeType::ToggleBlock(t) && t.passable)
}

/// An impassable toggle block sits on cell `(r, c)`.
pub open spec fn solid_tb_at(nodes: Seq<Node>, r: int, c: int) -> bool {
    exists |i: int|
        0 <= i < nodes.len() && #[trigger] node_at(nodes[i], r, c)
            && (nodes[i].node_type matches NodeType::ToggleBlock(t) && !t.passable)
}

/// A pushable node (block, mirror or laser) sits on cell `(r, c)`.
pub open spec fn pushable_at(nodes: Seq<Node>, r: int, c: int) -> bool {
    exists |i: int|
        0 <= i < nodes.len() && #[trigger] node_at(nodes[i], r, c)
            && (nodes[i].node_type is Block || nodes[i].node_type is Mirror
                || nodes[i].node_type is Laser)
}

/// Every node sits strictly inside the boundary ring.
pub open spec fn nodes_in_interior(nodes: Seq<Node>, rows: int, cols: int) -> bool {
    forall |i: int|
        0 <= i < nodes.len() ==> interior(
            rows,
            cols,
            #[trigger] nodes[i].row as int,
            nodes[i].col as int,
        )
}

/// At most one node per cell, with the one exception the resolver
/// creates on purpose: the player may stand on a toggle block's cell
/// after walking onto it while it was passable.
pub open spec fn no_overlap(nodes: Seq<Node>) -> bool {
    forall |i: int, j: int|
        #![trigger nodes[i], nodes[j]]
        0 <= i < nodes.len() && 0 <= j < nodes.len() && i != j
            && nodes[i].row == nodes[j].row && nodes[i].col == nodes[j].col
            ==> (nodes[i].node_type is Player && nodes[j].node_type is ToggleBlock)
                || (nodes[i].node_type is ToggleBlock && nodes[j].node_type is Player)
}

/// No two nodes share a cell at all: the placement invariant a freshly
/// loaded level satisfies, stricter than `no_overlap`.
pub open spec fn distinct_cells(nodes: Seq<Node>) -> bool {
    forall |i: int, j: int|
        #![trigger nodes[i], nodes[j]]
        0 <= i < nodes.len() && 0 <= j < nodes.len() && i != j
            ==> !(nodes[i].row == nodes[j].row && nodes[i].col == nodes[j].col)
}

/// How many players the node list holds.
pub open spec fn player_count(nodes: Seq<Node>) -> nat
    decreases nodes.len(),
{
    if nodes.len() == 0 {
        0
    } else {
        player_count(nodes.drop_last()) + (if nodes.last().node_type is Player {
            1nat
        } else {
            0nat
        })
    }
}

/// The index the unique player stands at (meaningful when exactly one
/// player exists).
pub open spec fn player_index(nodes: Seq<Node>) -> int {
    choose |i: int| 0 <= i < nodes.len() && (#[trigger] nodes[i].node_type) is Player
}

/// The row the unique player stands on.
pub open spec fn player_row(nodes: Seq<Node>) -> int {
    nodes[player_index(nodes)].row as int
}

/// The column the unique player stands on.
pub open spec fn player_col(nodes: Seq<Node>) -> int {
    nodes[player_index(nodes)].col as int
}

/// The well-formed object set of a live level: every node interior, no
/// illegal overlap, exactly one player.
pub open spec fn nodes_wf(nodes: Seq<Node>, rows: int, cols: int) -> bool {
    &&& 3 <= rows <= 0xFFFF
    &&& 3 <= cols <= 0xFFFF
    &&& nodes_in_interior(nodes, rows, cols)
    &&& no_overlap(nodes)
    &&& player_count(nodes) == 1
}

/// There is a player somewhere if and only if the count is positive.
pub proof fn lemma_player_count_pos(nodes: Seq<Node>)
    ensures
        player_count(nodes) > 0 <==> exists |i: int|
            0 <= i < nodes.len() && (#[trigger] nodes[i].node_type) is Player,
    decreases nodes.len(),
{
    if nodes.len() > 0 {
        lemma_player_count_pos(nodes.drop_last());
        if nodes.last().node_type is Player {
            assert(nodes[nodes.len() - 1].node_type is Player);
        } else if player_count(nodes.drop_last()) > 0 {
            let i = choose |i: int|
                0 <= i < nodes.drop_last().len()
                    && (#[trigger] nodes.drop_last()[i].node_type) is Player;
            assert(nodes[i].node_type is Player);
        } else {
            assert forall |i: int|
                0 <= i < nodes.len() && (#[trigger] nodes[i].node_type) is Player
                implies false by {
                if i < nodes.len() - 1 {
                    assert(nodes.drop_last()[i].node_type is Player);
                }
            }
        }
    }
}

/// With a player count of one, any two player indices coincide.
pub proof fn lemma_single_player(nodes: Seq<Node>, i: int, j: int)
    requires
        player_count(nodes) == 1,
        0 <= i < nodes.len(),
        0 <= j < nodes.len(),
        nodes[i].node_type is Player,
        nodes[j].node_type is Player,
    ensures
        i == j,
    decreases nodes.len(),
{
    if i != j {
        let last = nodes.len() - 1;
        if i == last || j == last {
            let other = if i == last { j } else { i };
            lemma_player_count_pos(nodes.drop_last());
            assert(nodes.drop_last()[other].node_type is Player);
        } else {
            assert(nodes.drop_last()[i].node_type is Player);
            assert(nodes.drop_last()[j].node_type is Player);
            if nodes.last().node_type is Player {
                lemma_player_count_pos(nodes.drop_last());
            } else {
                lemma_single_player(nodes.drop_last(), i, j);
            }
        }
    }
}

/// Two node lists that agree pointwise on which entries are players
/// hold the same number of players.
pub proof fn lemma_player_count_pointwise(a: Seq<Node>, b: Seq<Node>)
    requires
        a.len() == b.len(),
        forall |i: int|
            0 <= i < a.len() ==> ((#[trigger] a[i].node_type) is Player
                <==> (#[trigger] b[i].node_type) is Player),
    ensures
        player_count(a) == player_count(b),
    decreases a.len(),
{
    if a.len() > 0 {
        lemma_player_count_pointwise(a.drop_last(), b.drop_last());
    }
}

/// Under the overlap rule, two nodes on one cell of which neither is a
/// player are the same node.
pub proof fn lemma_unique_at_cell(nodes: Seq<Node>, i: int, j: int)
    requires
        no_overlap(nodes),
        0 <= i < nodes.len(),
        0 <= j < nodes.len(),
        nodes[i].row == nodes[j].row,
        nodes[i].col == nodes[j].col,
        !(nodes[i].node_type is Player),
        !(nodes[j].node_type is Player),
    ensures
        i == j,
{
}

/// The lowest index of a node on cell `(row, col)`, if any node is
/// there: the library's positional lookup.
pub fn find_first_at(nodes: &Vec<Node>, row: u16, col: u16) -> (r: Option<usize>)
    ensures
        match r {
            Some(i) => i < nodes.len() && node_at(nodes@[i as int], row as int, col as int)
                && forall |j: int| 0 <= j < i ==> !node_at(#[trigger] nodes@[j], row as int, col as int),
            None => forall |j: int|
                0 <= j < nodes.len() ==> !node_at(#[trigger] nodes@[j], row as int, col as int),
        },
{
    let n = nodes.len();
    let mut k: usize = 0;
    while k < n
        invariant
            k <= n,
            n == nodes.len(),
            forall |j: int| 0 <= j < k ==> !node_at(#[trigger] nodes@[j], row as int, col as int),
        decreases n - k,
    {
        if nodes[k].row == row && nodes[k].col == col {
            return Some(k);
        }
        k = k + 1;
    }
    None
}

/// The lowest index of a player node, if one exists.
pub fn find_player(nodes: &Vec<Node>) -> (r: Option<usize>)
    ensures
        match r {
            Some(i) => i < nodes.len() && nodes@[i as int].node_type is Player
                && forall |j: int| 0 <= j < i ==> !((#[trigger] nodes@[j].node_type) is Player),
            None => forall |j: int|
                0 <= j < nodes.len() ==> !((#[trigger] nodes@[j].node_type) is Player),
        },
{
    let n = nodes.len();
    let mut k: usize = 0;
    while k < n
        invariant
            k <= n,
            n == nodes.len(),
            forall |j: int| 0 <= j < k ==> !((#[trigger] nodes@[j].node_type) is Player),
        decreases n - k,
    {
        match &nodes[k].node_type {
            NodeType::Player(_) => {
                return Some(k);
            }
            _ => {}
        }
        k = k + 1;
    }
    None
}

} // verus!
