//! A level: its object set on a walled arena, the resolver and the
//! evaluator run against it, and its construction.

use vstd::prelude::*;
use crate::beam::{
    beam_fuel, lemma_beam_same_geometry, lemma_beam_strikes_occupant, lemma_geometry_cell_preds,
    lemma_same_geometry_trans, same_geometry_node, spec_beam, trace_beam,
};
use crate::direction::Direction;
use crate::grid::{
    blocking_at, cell_occupied, find_first_at, find_player, interior, node_at, nodes_wf,
    passable_tb_at, player_at_cell, player_count, player_index, pushable_at,
    switch_or_button_at,
};
use crate::node::{Node, NodeType};
use crate::outcome::{
    eq_mod_path_node, eq_mod_paths, evaluate_rel, hit_node, laser_direction,
    lemma_eq_mod_paths_geometry, lemma_reset_geometry, lemma_run_geometry,
    lemma_status_eq_mod_paths, lemma_wf_same_geometry, reset_done_node, reset_flags_node,
    spec_apply_hit, spec_evaluate, spec_fired, spec_laser_path, spec_reset_flags, spec_run,
    spec_status, LevelLossReason, LevelStatus,
};
use crate::resolver::{
    lemma_move_result_wf, lemma_player_index_valid, lemma_target_occupant_unique, node_moved_to,
    spec_move_result, spec_push, spec_toggle_wave, wave_node,
};

verus! {

/// Why a level failed to load.
#[derive(Clone, Copy, PartialEq, Eq, Structural, Debug)]
pub enum LevelError {
    MalformedDimensions,
    UnwalledBoundary,
    UnrecognizedSymbol,
    MissingPlayer,
    DuplicatePlayer,
}

impl LevelError {
    /// The human-readable reason construction failed.
    pub fn message(&self) -> (m: &'static str)
        ensures
            m@ == match self {
                LevelError::MalformedDimensions => "level grid dimensions are malformed"@,
                LevelError::UnwalledBoundary => "level boundary must be an even wall of I characters"@,
                LevelError::UnrecognizedSymbol => "level grid holds an unrecognized symbol"@,
                LevelError::MissingPlayer => "level has no player"@,
                LevelError::DuplicatePlayer => "level has more than one player"@,
            },
    {
        match self {
            LevelError::MalformedDimensions => "level grid dimensions are malformed",
            LevelError::UnwalledBoundary => "level boundary must be an even wall of I characters",
            LevelError::UnrecognizedSymbol => "level grid holds an unrecognized symbol",
            LevelError::MissingPlayer => "level has no player",
            LevelError::DuplicatePlayer => "level has more than one player",
        }
    }
}

/// A level in play: metadata, the arena size including its boundary
/// ring, the object set, and the current standing.
#[derive(Debug)]
pub struct Level {
    pub name: String,
    pub author: String,
    pub description: String,
    pub nodes: Vec<Node>,
    pub rows: u16,
    pub cols: u16,
    pub status: LevelStatus,
}

impl Level {
    /// The level invariant: a well-formed object set on this arena.
    pub open spec fn wf(&self) -> bool {
        nodes_wf(self.nodes@, self.rows as int, self.cols as int)
    }

    /// Builds a level from what a level loader supplies: the arena
    /// size and the initial object list. The caller answers for the
    /// placement invariants — interior coordinates, no two objects on
    /// one cell; construction itself checks the dimensions and that
    /// exactly one player was supplied, and fails with the reason
    /// otherwise.
    pub fn new(
        name: String,
        author: String,
        description: String,
        rows: u16,
        cols: u16,
        nodes: Vec<Node>,
    ) -> (res: Result<Level, LevelError>)
        requires
            crate::grid::nodes_in_interior(nodes@, rows as int, cols as int),
            crate::grid::distinct_cells(nodes@),
        ensures
            match res {
                Ok(l) => {
                    &&& rows >= 3 && cols >= 3
                    &&& player_count(nodes@) == 1
                    &&& l.nodes@ == nodes@
                    &&& l.rows == rows
                    &&& l.cols == cols
                    &&& l.name == name
                    &&& l.author == author
                    &&& l.description == description
                    &&& l.status is InProgress
                    &&& l.wf()
                },
                Err(e) => match e {
                    LevelError::MalformedDimensions => rows < 3 || cols < 3,
                    LevelError::MissingPlayer => rows >= 3 && cols >= 3
                        && player_count(nodes@) == 0,
                    LevelError::DuplicatePlayer => rows >= 3 && cols >= 3
                        && player_count(nodes@) >= 2,
                    _ => false,
                },
            },
            res is Err <==> (rows < 3 || cols < 3 || player_count(nodes@) != 1),
    {
        if rows < 3 || cols < 3 {
            return Err(LevelError::MalformedDimensions);
        }
        let n = nodes.len();
        let mut cnt: usize = 0;
        let mut k: usize = 0;
        while k < n
            invariant
                k <= n,
                n == nodes@.len(),
                cnt <= k,
                cnt == player_count(nodes@.subrange(0, k as int)),
            decreases n - k,
        {
            match &nodes[k].node_type {
                NodeType::Player(_) => {
                    cnt = cnt + 1;
                }
                _ => {}
            }
            proof {
                assert(nodes@.subrange(0, k as int + 1).drop_last()
                    =~= nodes@.subrange(0, k as int));
                assert(nodes@.subrange(0, k as int + 1).last() == nodes@[k as int]);
            }
            k = k + 1;
        }
        proof {
            assert(nodes@.subrange(0, n as int) =~= nodes@);
        }
        if cnt == 0 {
            return Err(LevelError::MissingPlayer);
        }
        if cnt >= 2 {
            return Err(LevelError::DuplicatePlayer);
        }
        Ok(Level {
            name,
            author,
            description,
            nodes,
            rows,
            cols,
            status: LevelStatus::InProgress,
        })
    }

    /// The lowest index of the node on `(row, col)`, if the cell is
    /// occupied.
    pub fn get_node_by_position(&self, row: u16, col: u16) -> (r: Option<usize>)
        ensures
            match r {
                Some(i) => i < self.nodes@.len()
                    && node_at(self.nodes@[i as int], row as int, col as int)
                    && forall |j: int|
                        0 <= j < i ==> !node_at(#[trigger] self.nodes@[j], row as int, col as int),
                None => forall |j: int|
                    0 <= j < self.nodes@.len()
                        ==> !node_at(#[trigger] self.nodes@[j], row as int, col as int),
            },
    {
        find_first_at(&self.nodes, row, col)
    }

    /// The index of the player. On a well-formed level this is always
    /// `Some` of the unique player entry.
    pub fn get_player(&self) -> (r: Option<usize>)
        ensures
            match r {
                Some(i) => i < self.nodes@.len() && self.nodes@[i as int].node_type is Player,
                None => forall |j: int|
                    0 <= j < self.nodes@.len()
                        ==> !((#[trigger] self.nodes@[j].node_type) is Player),
            },
            self.wf() ==> (r matches Some(i) && i == player_index(self.nodes@)),
    {
        let r = find_player(&self.nodes);
        proof {
            if self.wf() {
                lemma_player_index_valid(self.nodes@);
                match r {
                    Option::Some(i) => {}
                    Option::None => {
                        assert(self.nodes@[player_index(self.nodes@)].node_type is Player);
                    }
                }
            }
        }
        r
    }

    /// Relocates the player to `(row, col)` when that cell is interior;
    /// a boundary or out-of-range cell leaves the level untouched. The
    /// caller answers for the cell being free.
    pub fn set_player_position(&mut self, row: u16, col: u16)
        requires
            old(self).wf(),
        ensures
            interior(old(self).rows as int, old(self).cols as int, row as int, col as int)
                ==> final(self).nodes@ == old(self).nodes@.update(
                    player_index(old(self).nodes@),
                    node_moved_to(
                        old(self).nodes@[player_index(old(self).nodes@)],
                        row as int,
                        col as int,
                    ),
                ),
            !interior(old(self).rows as int, old(self).cols as int, row as int, col as int)
                ==> *final(self) == *old(self),
            final(self).rows == old(self).rows,
            final(self).cols == old(self).cols,
            final(self).status == old(self).status,
            final(self).name == old(self).name,
            final(self).author == old(self).author,
            final(self).description == old(self).description,
    {
        if row == 0 || row >= self.rows - 1 || col == 0 || col >= self.cols - 1 {
            return;
        }
        let p = match self.get_player() {
            Some(p) => p,
            None => {
                proof {
                    assert(false);
                }
                return;
            }
        };
        let node_ref = &mut self.nodes[p];
        node_ref.row = row;
        node_ref.col = col;
        proof {
            assert(final(self).nodes@ =~= old(self).nodes@.update(
                p as int,
                node_moved_to(old(self).nodes@[p as int], row as int, col as int),
            ));
        }
    }

    /// Runs the global toggle wave centred on `(r, c)`: the switch or
    /// button there flips, and every toggle block in the level flips.
    fn run_toggle_wave(&mut self, r: u16, c: u16)
        ensures
            final(self).nodes@ == spec_toggle_wave(old(self).nodes@, r as int, c as int),
            final(self).rows == old(self).rows,
            final(self).cols == old(self).cols,
            final(self).status == old(self).status,
            final(self).name == old(self).name,
            final(self).author == old(self).author,
            final(self).description == old(self).description,
    {
        let ghost pre = self.nodes@;
        let n = self.nodes.len();
        let mut k: usize = 0;
        while k < n
            invariant
                k <= n,
                n == self.nodes@.len(),
                pre.len() == n,
                self.rows == old(self).rows,
                self.cols == old(self).cols,
                self.status == old(self).status,
                self.name == old(self).name,
                self.author == old(self).author,
                self.description == old(self).description,
                forall |j: int|
                    0 <= j < k ==> #[trigger] self.nodes@[j] == wave_node(pre[j], r as int, c as int),
                forall |j: int| k <= j < n ==> #[trigger] self.nodes@[j] == pre[j],
            decreases n - k,
        {
            let at_cell = self.nodes[k].row == r && self.nodes[k].col == c;
            let node_ref = &mut self.nodes[k];
            match &mut node_ref.node_type {
                NodeType::Switch(s) => if at_cell {
                    s.on = !s.on;
                },
                NodeType::Button(b) => if at_cell {
                    b.pressed = !b.pressed;
                },
                NodeType::ToggleBlock(t) => {
                    t.passable = !t.passable;
                },
                _ => {}
            }
            k = k + 1;
        }
        proof {
            assert(final(self).nodes@ =~= spec_toggle_wave(pre, r as int, c as int));
        }
    }

    /// Resolves one directional intent, exactly as `spec_move_result`
    /// describes: walk, toggle, push, or a silent no-op.
    pub fn move_player(&mut self, dir: Direction)
        requires
            old(self).wf(),
        ensures
            final(self).nodes@ == spec_move_result(
                old(self).nodes@,
                old(self).rows as int,
                old(self).cols as int,
                dir,
            ),
            final(self).wf(),
            final(self).rows == old(self).rows,
            final(self).cols == old(self).cols,
            final(self).status == old(self).status,
            final(self).name == old(self).name,
            final(self).author == old(self).author,
            final(self).description == old(self).description,
    {
        proof {
            lemma_player_index_valid(old(self).nodes@);
            lemma_move_result_wf(
                old(self).nodes@,
                old(self).rows as int,
                old(self).cols as int,
                dir,
            );
        }
        let p = match self.get_player() {
            Some(p) => p,
            None => {
                proof {
                    assert(false);
                }
                return;
            }
        };
        let pr = self.nodes[p].row;
        let pc = self.nodes[p].col;
        proof {
            assert(interior(self.rows as int, self.cols as int, pr as int, pc as int));
        }
        let (tr, tc) = dir.step(pr, pc);
        if !(tr >= 1 && tr <= self.rows - 2 && tc >= 1 && tc <= self.cols - 2) {
            return;
        }
        match self.get_node_by_position(tr, tc) {
            None => {
                proof {
                    assert(!cell_occupied(self.nodes@, tr as int, tc as int));
                }
                let node_ref = &mut self.nodes[p];
                node_ref.row = tr;
                node_ref.col = tc;
                proof {
                    assert(final(self).nodes@ =~= old(self).nodes@.update(
                        p as int,
                        node_moved_to(old(self).nodes@[p as int], tr as int, tc as int),
                    ));
                }
            }
            Some(i) => {
                proof {
                    assert(cell_occupied(self.nodes@, tr as int, tc as int));
                    lemma_target_occupant_unique(
                        self.nodes@,
                        self.rows as int,
                        self.cols as int,
                        dir,
                        i as int,
                    );
                }
                let mut is_switch_or_button = false;
                let mut is_passable_tb = false;
                let mut is_pushable = false;
                match &self.nodes[i].node_type {
                    NodeType::Switch(_) | NodeType::Button(_) => {
                        is_switch_or_button = true;
                    }
                    NodeType::ToggleBlock(t) => {
                        if t.passable {
                            is_passable_tb = true;
                        }
                    }
                    NodeType::Block(_) | NodeType::Mirror(_) | NodeType::Laser(_) => {
                        is_pushable = true;
                    }
                    _ => {}
                }
                if is_switch_or_button {
                    proof {
                        assert(switch_or_button_at(self.nodes@, tr as int, tc as int));
                    }
                    self.run_toggle_wave(tr, tc);
                } else if is_passable_tb {
                    proof {
                        assert(passable_tb_at(self.nodes@, tr as int, tc as int));
                        assert(!switch_or_button_at(self.nodes@, tr as int, tc as int)) by {
                            if switch_or_button_at(self.nodes@, tr as int, tc as int) {
                                let v = choose |v: int|
                                    0 <= v < self.nodes@.len()
                                        && #[trigger] node_at(self.nodes@[v], tr as int, tc as int)
                                        && (self.nodes@[v].node_type is Switch
                                            || self.nodes@[v].node_type is Button);
                                assert(v == i);
                            }
                        }
                    }
                    let node_ref = &mut self.nodes[p];
                    node_ref.row = tr;
                    node_ref.col = tc;
                    proof {
                        assert(final(self).nodes@ =~= old(self).nodes@.update(
                            p as int,
                            node_moved_to(old(self).nodes@[p as int], tr as int, tc as int),
                        ));
                    }
                } else if is_pushable {
                    proof {
                        assert(pushable_at(self.nodes@, tr as int, tc as int));
                        assert(!switch_or_button_at(self.nodes@, tr as int, tc as int)) by {
                            if switch_or_button_at(self.nodes@, tr as int, tc as int) {
                                let v = choose |v: int|
                                    0 <= v < self.nodes@.len()
                                        && #[trigger] node_at(self.nodes@[v], tr as int, tc as int)
                                        && (self.nodes@[v].node_type is Switch
                                            || self.nodes@[v].node_type is Button);
                                assert(v == i);
                            }
                        }
                        assert(!passable_tb_at(self.nodes@, tr as int, tc as int)) by {
                            if passable_tb_at(self.nodes@, tr as int, tc as int) {
                                let v = choose |v: int|
                                    0 <= v < self.nodes@.len()
                                        && #[trigger] node_at(self.nodes@[v], tr as int, tc as int)
                                        && (self.nodes@[v].node_type matches NodeType::ToggleBlock(t)
                                            && t.passable);
                                assert(v == i);
                            }
                        }
                    }
                    let (br, bc) = dir.step(tr, tc);
                    if !(br >= 1 && br <= self.rows - 2 && bc >= 1 && bc <= self.cols - 2) {
                        return;
                    }
                    match self.get_node_by_position(br, bc) {
                        Some(_) => {
                            proof {
                                assert(cell_occupied(self.nodes@, br as int, bc as int));
                            }
                            return;
                        }
                        None => {
                            proof {
                                assert(!cell_occupied(self.nodes@, br as int, bc as int));
                            }
                            let pushed_ref = &mut self.nodes[i];
                            pushed_ref.row = br;
                            pushed_ref.col = bc;
                            let node_ref = &mut self.nodes[p];
                            node_ref.row = tr;
                            node_ref.col = tc;
                            proof {
                                assert(final(self).nodes@ =~= spec_push(
                                    old(self).nodes@,
                                    p as int,
                                    tr as int,
                                    tc as int,
                                    br as int,
                                    bc as int,
                                ));
                            }
                        }
                    }
                } else {
                    proof {
                        assert(!switch_or_button_at(self.nodes@, tr as int, tc as int)) by {
                            if switch_or_button_at(self.nodes@, tr as int, tc as int) {
                                let v = choose |v: int|
                                    0 <= v < self.nodes@.len()
                                        && #[trigger] node_at(self.nodes@[v], tr as int, tc as int)
                                        && (self.nodes@[v].node_type is Switch
                                            || self.nodes@[v].node_type is Button);
                                assert(v == i);
                            }
                        }
                        assert(!passable_tb_at(self.nodes@, tr as int, tc as int)) by {
                            if passable_tb_at(self.nodes@, tr as int, tc as int) {
                                let v = choose |v: int|
                                    0 <= v < self.nodes@.len()
                                        && #[trigger] node_at(self.nodes@[v], tr as int, tc as int)
                                        && (self.nodes@[v].node_type matches NodeType::ToggleBlock(t)
                                            && t.passable);
                                assert(v == i);
                            }
                        }
                        assert(!pushable_at(self.nodes@, tr as int, tc as int)) by {
                            if pushable_at(self.nodes@, tr as int, tc as int) {
                                let v = choose |v: int|
                                    0 <= v < self.nodes@.len()
                                        && #[trigger] node_at(self.nodes@[v], tr as int, tc as int)
                                        && (self.nodes@[v].node_type is Block
                                            || self.nodes@[v].node_type is Mirror
                                            || self.nodes@[v].node_type is Laser);
                                assert(v == i);
                            }
                        }
                    }
                    return;
                }
            }
        }
    }

    /// One full beam recomputation cycle, per `evaluate_rel`: every
    /// statue and zapper goes dark and every recorded path is cleared;
    /// then each laser still enabled at its turn fires, its path is
    /// recorded, and its beam lights what it strikes, disables a struck
    /// laser, or — the returned flag — strikes the player.
    pub fn set_lasers_looking_at(&mut self) -> (player_hit: bool)
        requires
            old(self).wf(),
        ensures
            evaluate_rel(
                old(self).nodes@,
                final(self).nodes@,
                old(self).rows as int,
                old(self).cols as int,
                player_hit,
            ),
            final(self).wf(),
            final(self).rows == old(self).rows,
            final(self).cols == old(self).cols,
            final(self).status == old(self).status,
            final(self).name == old(self).name,
            final(self).author == old(self).author,
            final(self).description == old(self).description,
    {
        let ghost pre = self.nodes@;
        let ghost rr = self.rows as int;
        let ghost cc = self.cols as int;
        proof {
            lemma_player_index_valid(pre);
        }
        let p = match self.get_player() {
            Some(p) => p,
            None => {
                proof {
                    assert(false);
                }
                return false;
            }
        };
        let pr = self.nodes[p].row;
        let pc = self.nodes[p].col;
        let n = self.nodes.len();

        let mut k: usize = 0;
        while k < n
            invariant
                k <= n,
                n == self.nodes@.len(),
                pre.len() == n,
                self.rows == old(self).rows,
                self.cols == old(self).cols,
                self.status == old(self).status,
                self.name == old(self).name,
                self.author == old(self).author,
                self.description == old(self).description,
                forall |j: int| 0 <= j < k ==> reset_done_node(pre[j], #[trigger] self.nodes@[j]),
                forall |j: int| k <= j < n ==> #[trigger] self.nodes@[j] == pre[j],
            decreases n - k,
        {
            let node_ref = &mut self.nodes[k];
            match &mut node_ref.node_type {
                NodeType::Statue(s) => s.lit = false,
                NodeType::Zapper(z) => z.lit = false,
                NodeType::Laser(l) => l.shooting_at = Vec::new(),
                _ => {}
            }
            k = k + 1;
        }
        let ghost base = spec_reset_flags(pre);
        proof {
            lemma_reset_geometry(pre);
            assert(eq_mod_paths(self.nodes@, base)) by {
                assert forall |j: int| 0 <= j < n
                    implies eq_mod_path_node(#[trigger] self.nodes@[j], #[trigger] base[j]) by {
                    assert(reset_done_node(pre[j], self.nodes@[j]));
                    assert(base[j] == reset_flags_node(pre[j]));
                }
            }
        }

        let mut hit = false;
        let mut k: usize = 0;
        while k < n
            invariant
                k <= n,
                n == self.nodes@.len(),
                pre.len() == n,
                base == spec_reset_flags(pre),
                base.len() == n,
                nodes_wf(pre, rr, cc),
                rr == self.rows as int,
                cc == self.cols as int,
                p < n,
                p == player_index(pre),
                pre[p as int].node_type is Player,
                pr == pre[p as int].row,
                pc == pre[p as int].col,
                self.rows == old(self).rows,
                self.cols == old(self).cols,
                self.status == old(self).status,
                self.name == old(self).name,
                self.author == old(self).author,
                self.description == old(self).description,
                eq_mod_paths(self.nodes@, spec_run(base, rr, cc, k as int).0),
                hit == spec_run(base, rr, cc, k as int).1,
                forall |j: int|
                    0 <= j < n ==> ((#[trigger] self.nodes@[j].node_type)
                        matches NodeType::Laser(l) ==> l.shooting_at@ == (
                        if j < k && spec_fired(base, rr, cc, j) {
                            spec_laser_path(base, rr, cc, j)
                        } else {
                            Seq::<(u16, u16, char, char)>::empty()
                        })),
            decreases n - k,
        {
            let ghost cur = spec_run(base, rr, cc, k as int).0;
            let ghost curhit = spec_run(base, rr, cc, k as int).1;
            proof {
                lemma_player_index_valid(pre);
                lemma_reset_geometry(pre);
                lemma_run_geometry(base, rr, cc, k as int);
                lemma_same_geometry_trans(cur, base, pre);
                lemma_eq_mod_paths_geometry(self.nodes@, cur);
                lemma_same_geometry_trans(self.nodes@, cur, base);
                lemma_same_geometry_trans(self.nodes@, base, pre);
                lemma_wf_same_geometry(pre, self.nodes@, rr, cc);
                assert(eq_mod_path_node(self.nodes@[k as int], cur[k as int]));
            }
            let mut fire = false;
            let mut ldir = Direction::Up;
            match &self.nodes[k].node_type {
                NodeType::Laser(l) => {
                    if l.enabled {
                        fire = true;
                        ldir = l.direction;
                    }
                }
                _ => {}
            }
            if fire {
                let lr = self.nodes[k].row;
                let lc = self.nodes[k].col;
                proof {
                    assert(cur[k as int].node_type.is_enabled_laser());
                    assert(laser_direction(cur[k as int].node_type) == ldir);
                    assert(cur[k as int].row == lr && cur[k as int].col == lc);
                    assert(interior(rr, cc, lr as int, lc as int));
                    assert(same_geometry_node(self.nodes@[p as int], pre[p as int]));
                    assert(player_at_cell(self.nodes@, pr as int, pc as int)) by {
                        assert(node_at(self.nodes@[p as int], pr as int, pc as int));
                    }
                    assert forall |j: int|
                        0 <= j < n && (#[trigger] self.nodes@[j].node_type) is Player
                        implies node_at(self.nodes@[j], pr as int, pc as int) by {
                        assert(same_geometry_node(self.nodes@[j], pre[j]));
                        assert(pre[j].node_type is Player);
                        assert(j == player_index(pre));
                    }
                }
                let traced = trace_beam(&self.nodes, self.rows, self.cols, lr, lc, ldir, pr, pc);
                let pathv = traced.0;
                let term = traced.1;
                let ghost pathspec = pathv@;
                let ghost traced_nodes = self.nodes@;
                proof {
                    lemma_beam_same_geometry(
                        traced_nodes,
                        cur,
                        rr,
                        cc,
                        lr as int,
                        lc as int,
                        ldir,
                        beam_fuel(rr, cc),
                    );
                    lemma_beam_strikes_occupant(
                        traced_nodes,
                        rr,
                        cc,
                        lr as int,
                        lc as int,
                        ldir,
                        beam_fuel(rr, cc),
                    );
                }
                let ghost specterm = spec_beam(
                    cur,
                    rr,
                    cc,
                    lr as int,
                    lc as int,
                    ldir,
                    beam_fuel(rr, cc),
                ).1;
                let node_ref = &mut self.nodes[k];
                node_ref.set_shooting_at(pathv);
                proof {
                    assert(spec_fired(base, rr, cc, k as int));
                    assert(pathspec == spec_laser_path(base, rr, cc, k as int));
                    assert(eq_mod_paths(self.nodes@, cur)) by {
                        assert forall |j: int| 0 <= j < n
                            implies eq_mod_path_node(#[trigger] self.nodes@[j], #[trigger] cur[j]) by {
                            if j != k {
                                assert(self.nodes@[j] == traced_nodes[j]);
                            }
                        }
                    }
                }
                match term {
                    None => {
                        proof {
                            assert(specterm is None);
                            assert(spec_run(base, rr, cc, k as int + 1)
                                == spec_run(base, rr, cc, k as int));
                        }
                    }
                    Some(cell) => {
                        let (tr2, tc2) = cell;
                        proof {
                            assert(specterm == Some((tr2, tc2)));
                        }
                        if tr2 == pr && tc2 == pc {
                            hit = true;
                            proof {
                                assert(player_at_cell(cur, tr2 as int, tc2 as int)) by {
                                    assert(same_geometry_node(cur[p as int], pre[p as int]));
                                    assert(node_at(cur[p as int], tr2 as int, tc2 as int));
                                }
                                assert(spec_run(base, rr, cc, k as int + 1)
                                    == (cur, true));
                            }
                        } else {
                            proof {
                                assert(!player_at_cell(cur, tr2 as int, tc2 as int)) by {
                                    if player_at_cell(cur, tr2 as int, tc2 as int) {
                                        let w = choose |w: int|
                                            0 <= w < cur.len()
                                                && #[trigger] node_at(cur[w], tr2 as int, tc2 as int)
                                                && cur[w].node_type is Player;
                                        assert(same_geometry_node(cur[w], pre[w]));
                                        assert(pre[w].node_type is Player);
                                        assert(w == player_index(pre));
                                        assert(node_at(pre[w], pr as int, pc as int));
                                    }
                                }
                                assert(spec_run(base, rr, cc, k as int + 1)
                                    == (spec_apply_hit(cur, tr2 as int, tc2 as int), curhit));
                                assert(!player_at_cell(self.nodes@, tr2 as int, tc2 as int)
                                    && blocking_at(self.nodes@, tr2 as int, tc2 as int)) by {
                                    lemma_geometry_cell_preds(
                                        traced_nodes,
                                        self.nodes@,
                                        tr2 as int,
                                        tc2 as int,
                                    );
                                    assert(eq_mod_paths(traced_nodes, cur));
                                    lemma_eq_mod_paths_geometry(traced_nodes, cur);
                                    lemma_geometry_cell_preds(traced_nodes, cur, tr2 as int, tc2 as int);
                                }
                            }
                            match find_first_at(&self.nodes, tr2, tc2) {
                                None => {
                                    proof {
                                        let w = choose |w: int|
                                            0 <= w < self.nodes@.len()
                                                && #[trigger] node_at(self.nodes@[w], tr2 as int, tc2 as int)
                                                && !self.nodes@[w].node_type.is_beam_transparent();
                                        assert(false);
                                    }
                                    return false;
                                }
                                Some(j) => {
                                    proof {
                                        assert(node_at(self.nodes@[j as int], tr2 as int, tc2 as int));
                                        assert(!(self.nodes@[j as int].node_type is Player));
                                        assert forall |m: int|
                                            0 <= m < n
                                                && node_at(#[trigger] self.nodes@[m], tr2 as int, tc2 as int)
                                            implies m == j as int by {
                                            assert(!(self.nodes@[m].node_type is Player));
                                            crate::grid::lemma_unique_at_cell(
                                                self.nodes@,
                                                j as int,
                                                m,
                                            );
                                        }
                                    }
                                    let ghost before_hit = self.nodes@;
                                    let hit_ref = &mut self.nodes[j];
                                    match &mut hit_ref.node_type {
                                        NodeType::Statue(s) => s.lit = true,
                                        NodeType::Zapper(z) => z.lit = true,
                                        NodeType::Laser(l) => l.enabled = false,
                                        _ => {}
                                    }
                                    proof {
                                        let applied = spec_apply_hit(cur, tr2 as int, tc2 as int);
                                        assert(eq_mod_paths(self.nodes@, applied)) by {
                                            assert forall |m: int| 0 <= m < n
                                                implies eq_mod_path_node(
                                                    #[trigger] self.nodes@[m],
                                                    #[trigger] applied[m],
                                                ) by {
                                                assert(applied[m] == hit_node(cur[m], tr2 as int, tc2 as int));
                                                assert(eq_mod_path_node(before_hit[m], cur[m]));
                                                if m == j as int {
                                                    assert(node_at(cur[m], tr2 as int, tc2 as int));
                                                } else {
                                                    assert(self.nodes@[m] == before_hit[m]);
                                                    assert(!node_at(before_hit[m], tr2 as int, tc2 as int));
                                                    assert(!node_at(cur[m], tr2 as int, tc2 as int));
                                                }
                                            }
                                        }
                                        assert(forall |m: int|
                                            0 <= m < n ==> ((#[trigger] self.nodes@[m].node_type)
                                                matches NodeType::Laser(l)
                                                ==> l.shooting_at@ == (
                                                if m < k + 1 && spec_fired(base, rr, cc, m) {
                                                    spec_laser_path(base, rr, cc, m)
                                                } else {
                                                    Seq::<(u16, u16, char, char)>::empty()
                                                })));
                                    }
                                }
                            }
                        }
                    }
                }
            } else {
                proof {
                    assert(!cur[k as int].node_type.is_enabled_laser());
                    assert(spec_run(base, rr, cc, k as int + 1) == spec_run(base, rr, cc, k as int));
                }
            }
            k = k + 1;
        }
        proof {
            assert(evaluate_rel(pre, self.nodes@, rr, cc, hit));
            lemma_run_geometry(base, rr, cc, n as int);
            lemma_eq_mod_paths_geometry(self.nodes@, spec_run(base, rr, cc, n as int).0);
            lemma_same_geometry_trans(
                self.nodes@,
                spec_run(base, rr, cc, n as int).0,
                base,
            );
            lemma_same_geometry_trans(self.nodes@, base, pre);
            lemma_wf_same_geometry(pre, self.nodes@, rr, cc);
        }
        hit
    }

    /// One whole turn of the state machine: on a level still in
    /// progress, resolve the intent, recompute every beam, and
    /// classify; a level already won or lost accepts no further moves.
    pub fn apply_move(&mut self, dir: Direction)
        requires
            old(self).wf(),
        ensures
            final(self).wf(),
            final(self).rows == old(self).rows,
            final(self).cols == old(self).cols,
            final(self).name == old(self).name,
            final(self).author == old(self).author,
            final(self).description == old(self).description,
            !(old(self).status is InProgress) ==> *final(self) == *old(self),
            old(self).status is InProgress ==> {
                let moved = spec_move_result(
                    old(self).nodes@,
                    old(self).rows as int,
                    old(self).cols as int,
                    dir,
                );
                let ev = spec_evaluate(moved, old(self).rows as int, old(self).cols as int);
                &&& evaluate_rel(moved, final(self).nodes@, old(self).rows as int,
                    old(self).cols as int, ev.1)
                &&& final(self).status == spec_status(ev.0, ev.1)
            },
    {
        match self.status {
            LevelStatus::InProgress => {}
            _ => {
                return;
            }
        }
        self.move_player(dir);
        let hit = self.set_lasers_looking_at();
        let st = self.evaluate_status(hit);
        self.status = st;
        proof {
            let moved = spec_move_result(
                old(self).nodes@,
                old(self).rows as int,
                old(self).cols as int,
                dir,
            );
            let ev = spec_evaluate(moved, old(self).rows as int, old(self).cols as int);
            assert(hit == ev.1);
            lemma_status_eq_mod_paths(self.nodes@, ev.0, hit);
        }
    }

    /// Classifies the level after a cycle, given whether a beam struck
    /// the player: death before zapper before win, else in progress.
    pub fn evaluate_status(&self, player_hit: bool) -> (st: LevelStatus)
        ensures
            st == spec_status(self.nodes@, player_hit),
    {
        if player_hit {
            return LevelStatus::Lost(LevelLossReason::Death);
        }
        let n = self.nodes.len();
        let mut k: usize = 0;
        let mut zapper_lit = false;
        let mut statues_ok = true;
        while k < n
            invariant
                k <= n,
                n == self.nodes@.len(),
                zapper_lit == exists |i: int|
                    0 <= i < k && ((#[trigger] self.nodes@[i].node_type)
                        matches NodeType::Zapper(z) && z.lit),
                statues_ok == forall |i: int|
                    0 <= i < k ==> ((#[trigger] self.nodes@[i].node_type)
                        matches NodeType::Statue(s) ==> s.lit == !s.reversed),
            decreases n - k,
        {
            match &self.nodes[k].node_type {
                NodeType::Zapper(z) => {
                    if z.lit {
                        zapper_lit = true;
                    }
                }
                NodeType::Statue(s) => {
                    if s.lit == s.reversed {
                        statues_ok = false;
                    }
                }
                _ => {}
            }
            k = k + 1;
        }
        if zapper_lit {
            LevelStatus::Lost(LevelLossReason::Zapper)
        } else if statues_ok {
            LevelStatus::Won
        } else {
            LevelStatus::InProgress
        }
    }
}

} // verus!
