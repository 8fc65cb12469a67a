//! The interaction resolver: what one directional player intent does to
//! the object set, as a total function on well-formed states.

use vstd::prelude::*;
use crate::direction::Direction;
use crate::grid::{
    cell_occupied, interior, lemma_player_count_pos, lemma_player_count_pointwise,
    lemma_single_player, lemma_unique_at_cell, node_at, nodes_wf, passable_tb_at, player_col,
    player_count, player_index, player_row, pushable_at, switch_or_button_at,
};
use crate::node::{Button, Node, NodeType, Switch, ToggleBlock};

verus! {

/// A node relocated to `(r, c)`, its state untouched.
pub open spec fn node_moved_to(n: Node, r: int, c: int) -> Node {
    Node { node_type: n.node_type, row: r as u16, col: c as u16 }
}

/// What the toggle wave centred on `(r, c)` does to one node: the
/// switch or button on that cell flips its own flag, every toggle
/// block in the level flips `passable`, and everything else stands.
pub open spec fn wave_node(n: Node, r: int, c: int) -> Node {
    if node_at(n, r, c) && (n.node_type is Switch || n.node_type is Button) {
        Node {
            node_type: match n.node_type {
                NodeType::Switch(s) => NodeType::Switch(Switch { on: !s.on }),
                NodeType::Button(b) => NodeType::Button(Button { pressed: !b.pressed }),
                _ => n.node_type,
            },
            row: n.row,
            col: n.col,
        }
    } else if n.node_type is ToggleBlock {
        Node {
            node_type: match n.node_type {
                NodeType::ToggleBlock(t) => NodeType::ToggleBlock(ToggleBlock {
                    passable: !t.passable,
                }),
                _ => n.node_type,
            },
            row: n.row,
            col: n.col,
        }
    } else {
        n
    }
}

/// The object set after the player walks into the switch or button on
/// `(r, c)`: a global toggle, not a targeted one.
pub open spec fn spec_toggle_wave(nodes: Seq<Node>, r: int, c: int) -> Seq<Node> {
    nodes.map(|i: int, n: Node| wave_node(n, r, c))
}

/// The object set after a legal push: the player steps onto the
/// occupant's cell `(tr, tc)` and the occupant moves on to `(br, bc)`.
pub open spec fn spec_push(nodes: Seq<Node>, p: int, tr: int, tc: int, br: int, bc: int)
    -> Seq<Node> {
    nodes.map(|i: int, n: Node|
        if i == p {
            node_moved_to(n, tr, tc)
        } else if node_at(n, tr, tc) {
            node_moved_to(n, br, bc)
        } else {
            n
        }
    )
}

/// One directional player intent, resolved on a well-formed object
/// set. In order: a step out of the interior, into a wall, a statue, a
/// zapper or an impassable toggle block is a silent no-op; an empty
/// cell is walked onto; a switch or button is toggled (with the global
/// toggle wave) without moving the player; a passable toggle block is
/// walked onto; a pushable occupant is pushed one cell when the cell
/// beyond is interior and empty, and otherwise nothing moves.
pub open spec fn spec_move_result(nodes: Seq<Node>, rows: int, cols: int, d: Direction)
    -> Seq<Node> {
    let p = player_index(nodes);
    let tr = player_row(nodes) + d.drow();
    let tc = player_col(nodes) + d.dcol();
    if !interior(rows, cols, tr, tc) {
        nodes
    } else if !cell_occupied(nodes, tr, tc) {
        nodes.update(p, node_moved_to(nodes[p], tr, tc))
    } else if switch_or_button_at(nodes, tr, tc) {
        spec_toggle_wave(nodes, tr, tc)
    } else if passable_tb_at(nodes, tr, tc) {
        nodes.update(p, node_moved_to(nodes[p], tr, tc))
    } else if pushable_at(nodes, tr, tc) {
        let br = tr + d.drow();
        let bc = tc + d.dcol();
        if interior(rows, cols, br, bc) && !cell_occupied(nodes, br, bc) {
            spec_push(nodes, p, tr, tc, br, bc)
        } else {
            nodes
        }
    } else {
        nodes
    }
}

/// The player index is a player on well-formed states.
pub proof fn lemma_player_index_valid(nodes: Seq<Node>)
    requires
        player_count(nodes) == 1,
    ensures
        0 <= player_index(nodes) < nodes.len(),
        nodes[player_index(nodes)].node_type is Player,
        forall |i: int|
            0 <= i < nodes.len() && (#[trigger] nodes[i].node_type) is Player
                ==> i == player_index(nodes),
{
    lemma_player_count_pos(nodes);
    let w = choose |i: int| 0 <= i < nodes.len() && (#[trigger] nodes[i].node_type) is Player;
    assert(nodes[w].node_type is Player);
    assert(nodes[player_index(nodes)].node_type is Player);
    assert forall |i: int|
        0 <= i < nodes.len() && (#[trigger] nodes[i].node_type) is Player
        implies i == player_index(nodes) by {
        lemma_single_player(nodes, i, player_index(nodes));
    }
}

/// A node at the player's target cell is not the player itself, and is
/// the only node on that cell.
pub proof fn lemma_target_occupant_unique(nodes: Seq<Node>, rows: int, cols: int, d: Direction, j: int)
    requires
        nodes_wf(nodes, rows, cols),
        0 <= j < nodes.len(),
        node_at(nodes[j], player_row(nodes) + d.drow(), player_col(nodes) + d.dcol()),
    ensures
        !(nodes[j].node_type is Player),
        forall |k: int|
            0 <= k < nodes.len()
                && node_at(#[trigger] nodes[k], player_row(nodes) + d.drow(),
                    player_col(nodes) + d.dcol())
                ==> k == j,
{
    let p = player_index(nodes);
    lemma_player_index_valid(nodes);
    assert(d.drow() != 0 || d.dcol() != 0);
    assert forall |k: int|
        0 <= k < nodes.len()
            && node_at(#[trigger] nodes[k], player_row(nodes) + d.drow(),
                player_col(nodes) + d.dcol())
        implies k == j by {
        assert(!(nodes[k].node_type is Player));
        lemma_unique_at_cell(nodes, j, k);
    }
}

/// Resolving an intent keeps the object set well formed, keeps its
/// length, and keeps the player the same entry.
pub proof fn lemma_move_result_wf(nodes: Seq<Node>, rows: int, cols: int, d: Direction)
    requires
        nodes_wf(nodes, rows, cols),
    ensures
        nodes_wf(spec_move_result(nodes, rows, cols, d), rows, cols),
        spec_move_result(nodes, rows, cols, d).len() == nodes.len(),
        player_index(spec_move_result(nodes, rows, cols, d)) == player_index(nodes),
{
    let p = player_index(nodes);
    lemma_player_index_valid(nodes);
    let tr = player_row(nodes) + d.drow();
    let tc = player_col(nodes) + d.dcol();
    let res = spec_move_result(nodes, rows, cols, d);
    assert(forall |i: int|
        0 <= i < res.len() ==> ((#[trigger] res[i].node_type) is Player
            <==> nodes[i].node_type is Player));
    lemma_player_count_pointwise(res, nodes);
    assert(player_count(res) == 1);
    if !interior(rows, cols, tr, tc) {
    } else if !cell_occupied(nodes, tr, tc) {
        assert forall |i: int, j: int|
            #![trigger res[i], res[j]]
            0 <= i < res.len() && 0 <= j < res.len() && i != j
                && res[i].row == res[j].row && res[i].col == res[j].col
            implies (res[i].node_type is Player && res[j].node_type is ToggleBlock)
                || (res[i].node_type is ToggleBlock && res[j].node_type is Player) by {
            if i == p {
                assert(node_at(nodes[j], tr, tc));
            } else if j == p {
                assert(node_at(nodes[i], tr, tc));
            }
        }
    } else if switch_or_button_at(nodes, tr, tc) {
    } else if passable_tb_at(nodes, tr, tc) {
        assert forall |i: int, j: int|
            #![trigger res[i], res[j]]
            0 <= i < res.len() && 0 <= j < res.len() && i != j
                && res[i].row == res[j].row && res[i].col == res[j].col
            implies (res[i].node_type is Player && res[j].node_type is ToggleBlock)
                || (res[i].node_type is ToggleBlock && res[j].node_type is Player) by {
            if i == p {
                assert(node_at(nodes[j], tr, tc));
                assert(nodes[j].node_type is ToggleBlock) by {
                    let w = choose |w: int|
                        0 <= w < nodes.len() && #[trigger] node_at(nodes[w], tr, tc)
                            && (nodes[w].node_type matches NodeType::ToggleBlock(t)
                                && t.passable);
                    lemma_target_occupant_unique(nodes, rows, cols, d, w);
                }
            } else if j == p {
                assert(node_at(nodes[i], tr, tc));
                assert(nodes[i].node_type is ToggleBlock) by {
                    let w = choose |w: int|
                        0 <= w < nodes.len() && #[trigger] node_at(nodes[w], tr, tc)
                            && (nodes[w].node_type matches NodeType::ToggleBlock(t)
                                && t.passable);
                    lemma_target_occupant_unique(nodes, rows, cols, d, w);
                }
            }
        }
    } else if pushable_at(nodes, tr, tc) {
        let br = tr + d.drow();
        let bc = tc + d.dcol();
        if interior(rows, cols, br, bc) && !cell_occupied(nodes, br, bc) {
            let w = choose |w: int|
                0 <= w < nodes.len() && #[trigger] node_at(nodes[w], tr, tc)
                    && (nodes[w].node_type is Block || nodes[w].node_type is Mirror
                        || nodes[w].node_type is Laser);
            lemma_target_occupant_unique(nodes, rows, cols, d, w);
            assert((tr, tc) != (br, bc));
            assert forall |i: int, j: int|
                #![trigger res[i], res[j]]
                0 <= i < res.len() && 0 <= j < res.len() && i != j
                    && res[i].row == res[j].row && res[i].col == res[j].col
                implies (res[i].node_type is Player && res[j].node_type is ToggleBlock)
                    || (res[i].node_type is ToggleBlock && res[j].node_type is Player) by {
                if i == p || j == p {
                    let o = if i == p { j } else { i };
                    assert(res[p].row == tr && res[p].col == tc);
                    if node_at(nodes[o], tr, tc) {
                        assert(o == w);
                        assert(res[o].row == br && res[o].col == bc);
                    } else {
                        assert(res[o] == nodes[o]);
                        assert(node_at(nodes[o], tr, tc));
                    }
                } else {
                    if node_at(nodes[i], tr, tc) {
                        assert(i == w);
                        if node_at(nodes[j], tr, tc) {
                            assert(j == w);
                        } else {
                            assert(res[j] == nodes[j]);
                            assert(node_at(nodes[j], br, bc));
                        }
                    } else if node_at(nodes[j], tr, tc) {
                        assert(j == w);
                        assert(res[i] == nodes[i]);
                        assert(node_at(nodes[i], br, bc));
                    } else {
                        assert(res[i] == nodes[i] && res[j] == nodes[j]);
                    }
                }
            }
        }
    }
}

/// The toggle wave is an involution: walking into the same switch or
/// button twice restores every object exactly, each toggle block's
/// `passable` flag having flipped exactly once per wave.
pub proof fn lemma_toggle_wave_involution(nodes: Seq<Node>, r: int, c: int)
    ensures
        spec_toggle_wave(spec_toggle_wave(nodes, r, c), r, c) == nodes,
{
    let once = spec_toggle_wave(nodes, r, c);
    let twice = spec_toggle_wave(once, r, c);
    assert forall |i: int| 0 <= i < nodes.len() implies #[trigger] twice[i] == nodes[i] by {
        assert(once[i] == wave_node(nodes[i], r, c));
        assert(twice[i] == wave_node(once[i], r, c));
    }
    assert(twice =~= nodes);
}

/// One toggle wave flips the `passable` flag of every toggle block in
/// the level exactly once, wherever the wave was centred.
pub proof fn lemma_toggle_wave_flips_each_block(nodes: Seq<Node>, r: int, c: int, i: int)
    requires
        0 <= i < nodes.len(),
    ensures
        nodes[i].node_type matches NodeType::ToggleBlock(t)
            ==> (spec_toggle_wave(nodes, r, c)[i].node_type matches NodeType::ToggleBlock(p)
                && p.passable == !t.passable),
{
}

/// An illegal push is rejected outright: when the player's target cell
/// holds a pushable object but the cell beyond is off the interior or
/// already occupied, the object set does not change, and resolving the
/// same intent twice leaves it equally unchanged both times.
pub proof fn lemma_illegal_push_rejected(nodes: Seq<Node>, rows: int, cols: int, d: Direction)
    requires
        nodes_wf(nodes, rows, cols),
        pushable_at(nodes, player_row(nodes) + d.drow(), player_col(nodes) + d.dcol()),
        !interior(rows, cols, player_row(nodes) + 2 * d.drow(), player_col(nodes) + 2 * d.dcol())
            || cell_occupied(nodes, player_row(nodes) + 2 * d.drow(),
                player_col(nodes) + 2 * d.dcol()),
    ensures
        spec_move_result(nodes, rows, cols, d) == nodes,
        spec_move_result(spec_move_result(nodes, rows, cols, d), rows, cols, d) == nodes,
{
    lemma_player_index_valid(nodes);
    let tr = player_row(nodes) + d.drow();
    let tc = player_col(nodes) + d.dcol();
    let w = choose |w: int|
        0 <= w < nodes.len() && #[trigger] node_at(nodes[w], tr, tc)
            && (nodes[w].node_type is Block || nodes[w].node_type is Mirror
                || nodes[w].node_type is Laser);
    lemma_target_occupant_unique(nodes, rows, cols, d, w);
    assert(interior(rows, cols, tr, tc));
    assert(cell_occupied(nodes, tr, tc));
    assert(!switch_or_button_at(nodes, tr, tc)) by {
        if switch_or_button_at(nodes, tr, tc) {
            let v = choose |v: int|
                0 <= v < nodes.len() && #[trigger] node_at(nodes[v], tr, tc)
                    && (nodes[v].node_type is Switch || nodes[v].node_type is Button);
            assert(v == w);
        }
    }
    assert(!passable_tb_at(nodes, tr, tc)) by {
        if passable_tb_at(nodes, tr, tc) {
            let v = choose |v: int|
                0 <= v < nodes.len() && #[trigger] node_at(nodes[v], tr, tc)
                    && (nodes[v].node_type matches NodeType::ToggleBlock(t) && t.passable);
            assert(v == w);
        }
    }
    assert(tr + d.drow() == player_row(nodes) + 2 * d.drow());
    assert(tc + d.dcol() == player_col(nodes) + 2 * d.dcol());
}

} // verus!
