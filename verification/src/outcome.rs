//! The outcome evaluator: one beam recomputation cycle over the object
//! set, and the classification of the level that follows it.

use vstd::prelude::*;
use crate::beam::{beam_fuel, same_geometry, same_geometry_node, spec_beam};
use crate::grid::{node_at, nodes_wf, player_at_cell, lemma_player_count_pointwise};
use crate::node::{Node, NodeType, Laser, Statue, Zapper};

verus! {

/// Why a level was lost.
#[derive(Clone, Copy, PartialEq, Eq, Structural, Debug)]
pub enum LevelLossReason {
    Zapper,
    Death,
    Quit,
}

/// The level's current standing. `Won` and `Lost` are terminal.
#[derive(Clone, Copy, PartialEq, Eq, Structural, Debug)]
pub enum LevelStatus {
    InProgress,
    Won,
    Lost(LevelLossReason),
}

/// Lighting is not sticky: each cycle starts with every statue and
/// zapper dark. Lasers keep their enabled flag; disabling is sticky.
pub open spec fn reset_flags_node(n: Node) -> Node {
    match n.node_type {
        NodeType::Statue(s) => Node {
            node_type: NodeType::Statue(Statue { lit: false, reversed: s.reversed }),
            row: n.row,
            col: n.col,
        },
        NodeType::Zapper(_) => Node {
            node_type: NodeType::Zapper(Zapper { lit: false }),
            row: n.row,
            col: n.col,
        },
        _ => n,
    }
}

/// The object set at the start of a cycle.
pub open spec fn spec_reset_flags(nodes: Seq<Node>) -> Seq<Node> {
    nodes.map(|i: int, n: Node| reset_flags_node(n))
}

/// What a beam striking the node on `(r, c)` does to it: a statue or
/// zapper lights up, a laser is disabled, anything else only stops the
/// beam.
pub open spec fn hit_node(n: Node, r: int, c: int) -> Node {
    if node_at(n, r, c) {
        match n.node_type {
            NodeType::Statue(s) => Node {
                node_type: NodeType::Statue(Statue { lit: true, reversed: s.reversed }),
                row: n.row,
                col: n.col,
            },
            NodeType::Zapper(_) => Node {
                node_type: NodeType::Zapper(Zapper { lit: true }),
                row: n.row,
                col: n.col,
            },
            NodeType::Laser(l) => Node {
                node_type: NodeType::Laser(Laser {
                    enabled: false,
                    direction: l.direction,
                    shooting_at: l.shooting_at,
                }),
                row: n.row,
                col: n.col,
            },
            _ => n,
        }
    } else {
        n
    }
}

/// The object set after a beam strikes cell `(r, c)`.
pub open spec fn spec_apply_hit(nodes: Seq<Node>, r: int, c: int) -> Seq<Node> {
    nodes.map(|i: int, n: Node| hit_node(n, r, c))
}

/// The direction a laser node shoots in.
pub open spec fn laser_direction(nt: NodeType) -> crate::direction::Direction {
    match nt {
        NodeType::Laser(l) => l.direction,
        _ => crate::direction::Direction::Up,
    }
}

/// The cycle's fold: the first `k` entries have taken their turn, in
/// index order. An entry that is an enabled laser at its turn fires:
/// its beam is traced on the current state, and the struck cell — if
/// any — takes the hit, or the run is marked lethal when the player
/// stands there. Lasers disabled by an earlier beam of the same cycle
/// no longer fire.
pub open spec fn spec_run(base: Seq<Node>, rows: int, cols: int, k: int) -> (Seq<Node>, bool)
    decreases k,
{
    if k <= 0 {
        (base, false)
    } else {
        let prev = spec_run(base, rows, cols, k - 1);
        let cur = prev.0;
        let i = k - 1;
        if 0 <= i < cur.len() && cur[i].node_type.is_enabled_laser() {
            let term = spec_beam(
                cur,
                rows,
                cols,
                cur[i].row as int,
                cur[i].col as int,
                laser_direction(cur[i].node_type),
                beam_fuel(rows, cols),
            ).1;
            match term {
                None => prev,
                Some(cell) => if player_at_cell(cur, cell.0 as int, cell.1 as int) {
                    (cur, true)
                } else {
                    (spec_apply_hit(cur, cell.0 as int, cell.1 as int), prev.1)
                },
            }
        } else {
            prev
        }
    }
}

/// One full evaluation cycle: reset the lighting, then let every laser
/// take its turn. Yields the resulting object set (up to recorded beam
/// paths) and whether a beam struck the player.
pub open spec fn spec_evaluate(nodes: Seq<Node>, rows: int, cols: int) -> (Seq<Node>, bool) {
    spec_run(spec_reset_flags(nodes), rows, cols, nodes.len() as int)
}

/// Whether the laser at entry `i` fires during the cycle.
pub open spec fn spec_fired(base: Seq<Node>, rows: int, cols: int, i: int) -> bool {
    let cur = spec_run(base, rows, cols, i).0;
    0 <= i < cur.len() && cur[i].node_type.is_enabled_laser()
}

/// The path the laser at entry `i` records when it fires.
pub open spec fn spec_laser_path(base: Seq<Node>, rows: int, cols: int, i: int)
    -> Seq<(u16, u16, char, char)> {
    let cur = spec_run(base, rows, cols, i).0;
    spec_beam(
        cur,
        rows,
        cols,
        cur[i].row as int,
        cur[i].col as int,
        laser_direction(cur[i].node_type),
        beam_fuel(rows, cols),
    ).0
}

/// Node equality up to the recorded beam path: same cell, and the same
/// state in every field a laser's path does not cover.
pub open spec fn eq_mod_path_node(a: Node, b: Node) -> bool {
    &&& a.row == b.row
    &&& a.col == b.col
    &&& match a.node_type {
        NodeType::Laser(l) => b.node_type matches NodeType::Laser(p)
            && p.enabled == l.enabled
            && p.direction == l.direction,
        _ => b.node_type == a.node_type,
    }
}

/// Pointwise equality up to recorded beam paths.
pub open spec fn eq_mod_paths(a: Seq<Node>, b: Seq<Node>) -> bool {
    &&& a.len() == b.len()
    &&& forall |i: int| 0 <= i < a.len() ==> eq_mod_path_node(#[trigger] a[i], #[trigger] b[i])
}

/// What the reset pass makes of one node: flags cleared as
/// `reset_flags_node` says, and a laser's recorded path emptied.
pub open spec fn reset_done_node(pre: Node, post: Node) -> bool {
    &&& eq_mod_path_node(post, reset_flags_node(pre))
    &&& (post.node_type matches NodeType::Laser(l) ==> l.shooting_at@.len() == 0)
}

/// The full contract of one evaluation cycle on a level whose object
/// set was `pre`: afterwards the set is `spec_evaluate`'s result up to
/// recorded paths, `hit` says whether a beam struck the player, every
/// laser that fired carries exactly its traced path, and every other
/// laser carries none.
pub open spec fn evaluate_rel(
    pre: Seq<Node>,
    post: Seq<Node>,
    rows: int,
    cols: int,
    hit: bool,
) -> bool {
    let base = spec_reset_flags(pre);
    let result = spec_run(base, rows, cols, pre.len() as int);
    &&& eq_mod_paths(post, result.0)
    &&& hit == result.1
    &&& forall |i: int|
        0 <= i < post.len() ==> ((#[trigger] post[i].node_type) matches NodeType::Laser(l)
            ==> l.shooting_at@ == if spec_fired(base, rows, cols, i) {
                spec_laser_path(base, rows, cols, i)
            } else {
                Seq::<(u16, u16, char, char)>::empty()
            })
}

/// Every statue satisfies its goal: lit exactly when not reversed.
pub open spec fn all_statues_correct(nodes: Seq<Node>) -> bool {
    forall |i: int|
        0 <= i < nodes.len() ==> ((#[trigger] nodes[i].node_type) matches NodeType::Statue(s)
            ==> s.lit == !s.reversed)
}

/// Some zapper is lit.
pub open spec fn any_zapper_lit(nodes: Seq<Node>) -> bool {
    exists |i: int|
        0 <= i < nodes.len() && ((#[trigger] nodes[i].node_type) matches NodeType::Zapper(z)
            && z.lit)
}

/// The level's standing after a cycle, with the fixed precedence
/// death, then zapper, then win: a lethal beam loses the level even in
/// an otherwise winning position.
pub open spec fn spec_status(nodes: Seq<Node>, player_hit: bool) -> LevelStatus {
    if player_hit {
        LevelStatus::Lost(LevelLossReason::Death)
    } else if any_zapper_lit(nodes) {
        LevelStatus::Lost(LevelLossReason::Zapper)
    } else if all_statues_correct(nodes) {
        LevelStatus::Won
    } else {
        LevelStatus::InProgress
    }
}

/// Death takes precedence: whenever a beam struck the player, the
/// cycle classifies the level as lost to death, whatever the statues
/// and zappers say.
pub proof fn lemma_death_precedence(nodes: Seq<Node>, player_hit: bool)
    requires
        player_hit,
    ensures
        spec_status(nodes, player_hit) == LevelStatus::Lost(LevelLossReason::Death),
{
}

/// Classification reads only the flags, so it agrees on object sets
/// that differ in recorded beam paths alone.
pub proof fn lemma_status_eq_mod_paths(a: Seq<Node>, b: Seq<Node>, player_hit: bool)
    requires
        eq_mod_paths(a, b),
    ensures
        spec_status(a, player_hit) == spec_status(b, player_hit),
{
    assert(any_zapper_lit(a) == any_zapper_lit(b)) by {
        if any_zapper_lit(a) {
            let i = choose |i: int|
                0 <= i < a.len() && ((#[trigger] a[i].node_type) matches NodeType::Zapper(z)
                    && z.lit);
            assert(b[i].node_type matches NodeType::Zapper(z) && z.lit);
        }
        if any_zapper_lit(b) {
            let i = choose |i: int|
                0 <= i < b.len() && ((#[trigger] b[i].node_type) matches NodeType::Zapper(z)
                    && z.lit);
            assert(a[i].node_type matches NodeType::Zapper(z) && z.lit);
        }
    }
    assert(all_statues_correct(a) == all_statues_correct(b)) by {
        if all_statues_correct(a) {
            assert forall |i: int|
                0 <= i < b.len()
                implies ((#[trigger] b[i].node_type) matches NodeType::Statue(s)
                    ==> s.lit == !s.reversed) by {
                assert(eq_mod_path_node(a[i], b[i]));
            }
        }
        if all_statues_correct(b) {
            assert forall |i: int|
                0 <= i < a.len()
                implies ((#[trigger] a[i].node_type) matches NodeType::Statue(s)
                    ==> s.lit == !s.reversed) by {
                assert(eq_mod_path_node(a[i], b[i]));
            }
        }
    }
}

/// Agreement up to recorded paths is agreement on everything the beam
/// engine reads.
pub proof fn lemma_eq_mod_paths_geometry(a: Seq<Node>, b: Seq<Node>)
    requires
        eq_mod_paths(a, b),
    ensures
        same_geometry(a, b),
{
    assert forall |i: int| 0 <= i < a.len() implies same_geometry_node(#[trigger] a[i], #[trigger] b[i]) by {
        assert(eq_mod_path_node(a[i], b[i]));
    }
}

/// The cycle never moves a node and never changes what the beam engine
/// reads: only lighting and enabled flags are touched.
pub proof fn lemma_run_geometry(base: Seq<Node>, rows: int, cols: int, k: int)
    ensures
        spec_run(base, rows, cols, k).0.len() == base.len(),
        same_geometry(spec_run(base, rows, cols, k).0, base),
    decreases k,
{
    if k <= 0 {
        assert forall |i: int| 0 <= i < base.len()
            implies same_geometry_node(#[trigger] base[i], #[trigger] base[i]) by {}
    } else {
        lemma_run_geometry(base, rows, cols, k - 1);
        let cur = spec_run(base, rows, cols, k - 1).0;
        let res = spec_run(base, rows, cols, k).0;
        assert forall |i: int| 0 <= i < res.len()
            implies same_geometry_node(#[trigger] res[i], #[trigger] base[i]) by {
            assert(same_geometry_node(cur[i], base[i]));
        }
    }
}

/// Resetting the lighting touches neither geometry nor players.
pub proof fn lemma_reset_geometry(nodes: Seq<Node>)
    ensures
        spec_reset_flags(nodes).len() == nodes.len(),
        same_geometry(spec_reset_flags(nodes), nodes),
{
    let base = spec_reset_flags(nodes);
    assert forall |i: int| 0 <= i < base.len()
        implies same_geometry_node(#[trigger] base[i], #[trigger] nodes[i]) by {}
}

/// Geometry agreement carries well-formedness across.
pub proof fn lemma_wf_same_geometry(a: Seq<Node>, b: Seq<Node>, rows: int, cols: int)
    requires
        nodes_wf(a, rows, cols),
        same_geometry(b, a),
    ensures
        nodes_wf(b, rows, cols),
{
    assert forall |i: int| 0 <= i < b.len()
        implies crate::grid::interior(rows, cols, (#[trigger] b[i]).row as int, b[i].col as int) by {
        assert(same_geometry_node(b[i], a[i]));
        assert(crate::grid::interior(rows, cols, a[i].row as int, a[i].col as int));
    }
    assert forall |i: int, j: int|
        #![trigger b[i], b[j]]
        0 <= i < b.len() && 0 <= j < b.len() && i != j
            && b[i].row == b[j].row && b[i].col == b[j].col
        implies (b[i].node_type is Player && b[j].node_type is ToggleBlock)
            || (b[i].node_type is ToggleBlock && b[j].node_type is Player) by {
        assert(same_geometry_node(b[i], a[i]));
        assert(same_geometry_node(b[j], a[j]));
    }
    assert forall |i: int| 0 <= i < b.len()
        implies ((#[trigger] b[i].node_type) is Player <==> (#[trigger] a[i].node_type) is Player) by {
        assert(same_geometry_node(b[i], a[i]));
    }
    lemma_player_count_pointwise(b, a);
}

/// A beam that strikes nothing has no effect at all: the laser's turn
/// leaves every object and the lethality of the cycle as they were.
pub proof fn lemma_no_strike_no_effect(base: Seq<Node>, rows: int, cols: int, k: int)
    requires
        0 <= k,
        spec_fired(base, rows, cols, k) ==> {
            let cur = spec_run(base, rows, cols, k).0;
            spec_beam(
                cur,
                rows,
                cols,
                cur[k].row as int,
                cur[k].col as int,
                laser_direction(cur[k].node_type),
                beam_fuel(rows, cols),
            ).1 is None
        },
    ensures
        spec_run(base, rows, cols, k + 1) == spec_run(base, rows, cols, k),
{
}

/// What a laser's strike does to the struck object, as one turn of
/// the cycle: a struck statue or zapper comes on, a struck laser is
/// disabled, and anything else merely stops the beam unchanged.
pub proof fn lemma_strike_effects(base: Seq<Node>, rows: int, cols: int, k: int, i: int)
    requires
        0 <= k,
        spec_fired(base, rows, cols, k),
        0 <= i < spec_run(base, rows, cols, k).0.len(),
        ({
            let cur = spec_run(base, rows, cols, k).0;
            let term = spec_beam(
                cur,
                rows,
                cols,
                cur[k].row as int,
                cur[k].col as int,
                laser_direction(cur[k].node_type),
                beam_fuel(rows, cols),
            ).1;
            &&& term matches Some(cell)
            &&& node_at(cur[i], cell.0 as int, cell.1 as int)
            &&& !player_at_cell(cur, cell.0 as int, cell.1 as int)
        }),
    ensures
        ({
            let cur = spec_run(base, rows, cols, k).0;
            let post = spec_run(base, rows, cols, k + 1).0[i];
            match cur[i].node_type {
                NodeType::Statue(s) => post.node_type matches NodeType::Statue(p)
                    && p.lit
                    && p.reversed == s.reversed,
                NodeType::Zapper(_) => post.node_type matches NodeType::Zapper(p) && p.lit,
                NodeType::Laser(_) => !post.node_type.is_enabled_laser(),
                _ => post == cur[i],
            }
        }),
{
}

/// A beam whose struck cell is the player's makes the cycle lethal.
pub proof fn lemma_strike_player_is_lethal(base: Seq<Node>, rows: int, cols: int, k: int)
    requires
        0 <= k,
        spec_fired(base, rows, cols, k),
        ({
            let cur = spec_run(base, rows, cols, k).0;
            let term = spec_beam(
                cur,
                rows,
                cols,
                cur[k].row as int,
                cur[k].col as int,
                laser_direction(cur[k].node_type),
                beam_fuel(rows, cols),
            ).1;
            term matches Some(cell) && player_at_cell(cur, cell.0 as int, cell.1 as int)
        }),
    ensures
        spec_run(base, rows, cols, k + 1).1,
{
}

/// Disabling is sticky within a cycle and across cycles: an entry that
/// is not an enabled laser never becomes one through evaluation.
pub proof fn lemma_run_never_enables(base: Seq<Node>, rows: int, cols: int, k: int, i: int)
    requires
        0 <= i < base.len(),
        !base[i].node_type.is_enabled_laser(),
    ensures
        !spec_run(base, rows, cols, k).0[i].node_type.is_enabled_laser(),
    decreases k,
{
    if k > 0 {
        lemma_run_never_enables(base, rows, cols, k - 1, i);
        lemma_run_geometry(base, rows, cols, k - 1);
    }
}

/// The same, stated for the whole cycle on a level's object set: a
/// disabled laser stays disabled through every later evaluation.
pub proof fn lemma_evaluate_never_enables(nodes: Seq<Node>, rows: int, cols: int, i: int)
    requires
        0 <= i < nodes.len(),
        !nodes[i].node_type.is_enabled_laser(),
    ensures
        !spec_evaluate(nodes, rows, cols).0[i].node_type.is_enabled_laser(),
{
    lemma_reset_geometry(nodes);
    assert(!spec_reset_flags(nodes)[i].node_type.is_enabled_laser());
    lemma_run_never_enables(spec_reset_flags(nodes), rows, cols, nodes.len() as int, i);
}

/// Nothing the resolver does enables a laser either: moving, pushing
/// and toggle waves keep a disabled laser disabled.
pub proof fn lemma_move_never_enables(nodes: Seq<Node>, rows: int, cols: int, d: crate::direction::Direction, i: int)
    requires
        nodes_wf(nodes, rows, cols),
        0 <= i < nodes.len(),
        !nodes[i].node_type.is_enabled_laser(),
    ensures
        !crate::resolver::spec_move_result(nodes, rows, cols, d)[i].node_type.is_enabled_laser(),
{
    crate::resolver::lemma_player_index_valid(nodes);
    let res = crate::resolver::spec_move_result(nodes, rows, cols, d);
    assert(res[i].node_type.is_enabled_laser() ==> nodes[i].node_type.is_enabled_laser());
}

} // verus!
