//! Building a level from a parsed character grid: the boundary ring
//! must be an even wall, every interior symbol must be recognized, and
//! the objects are read off in row-major order.

use vstd::prelude::*;
use crate::grid::{distinct_cells, interior, node_at, nodes_in_interior, player_count};
use crate::level::{Level, LevelError};
use crate::node::{spec_symbol_node, Node};

verus! {

/// The grid's column count (the width of its first row).
pub open spec fn grid_cols(g: Seq<Vec<char>>) -> int {
    g[0]@.len() as int
}

/// A grid big enough to hold a walled ring around at least one cell,
/// with every row the same width, small enough for 16-bit coordinates.
pub open spec fn grid_dims_ok(g: Seq<Vec<char>>) -> bool {
    &&& 3 <= g.len() <= 0xFFFF
    &&& 3 <= grid_cols(g) <= 0xFFFF
    &&& forall |r: int| 0 <= r < g.len() ==> (#[trigger] g[r]@).len() == grid_cols(g)
}

/// A cell on the boundary ring of a `rows x cols` grid.
pub open spec fn on_boundary(rows: int, cols: int, r: int, c: int) -> bool {
    r == 0 || r == rows - 1 || c == 0 || c == cols - 1
}

/// Every boundary cell is the wall symbol `I`.
pub open spec fn grid_boundary_walled(g: Seq<Vec<char>>) -> bool {
    forall |r: int, c: int|
        #![trigger g[r]@[c]]
        0 <= r < g.len() && 0 <= c < grid_cols(g)
            && on_boundary(g.len() as int, grid_cols(g), r, c) ==> g[r]@[c] == 'I'
}

/// The symbols a grid may use: blank, wall, player, block, toggle
/// block, button, switch, the two statues, zapper, the two mirrors,
/// and the eight laser variants.
pub open spec fn recognized_symbol(ch: char) -> bool {
    ||| ch == ' '
    ||| ch == 'I'
    ||| ch == 'X'
    ||| ch == 'B'
    ||| ch == 'T'
    ||| ch == 'b'
    ||| ch == 's'
    ||| ch == 'S'
    ||| ch == 'R'
    ||| ch == 'Z'
    ||| ch == '/'
    ||| ch == '\\'
    ||| ch == '1'
    ||| ch == '2'
    ||| ch == '3'
    ||| ch == '4'
    ||| ch == '5'
    ||| ch == '6'
    ||| ch == '7'
    ||| ch == '8'
}

/// Every interior cell holds a recognized symbol.
pub open spec fn grid_symbols_ok(g: Seq<Vec<char>>) -> bool {
    forall |r: int, c: int|
        #![trigger g[r]@[c]]
        interior(g.len() as int, grid_cols(g), r, c) ==> recognized_symbol(g[r]@[c])
}

/// Player symbols in one row, over the columns `[1, c)` — column 0 is
/// boundary and never counted.
pub open spec fn row_players(row: Seq<char>, c: int) -> nat
    decreases c,
{
    if c <= 1 {
        0
    } else {
        row_players(row, c - 1) + (if row[c - 1] == 'X' {
            1nat
        } else {
            0nat
        })
    }
}

/// Player symbols on interior cells of rows `[1, r)`.
pub open spec fn grid_players_upto(g: Seq<Vec<char>>, r: int) -> nat
    decreases r,
{
    if r <= 1 {
        0
    } else {
        grid_players_upto(g, r - 1) + row_players(g[r - 1]@, grid_cols(g) - 1)
    }
}

/// Player symbols on all interior cells.
pub open spec fn grid_players(g: Seq<Vec<char>>) -> nat {
    grid_players_upto(g, g.len() - 1)
}

/// One parsed node agrees with its grid cell: an interior, non-blank
/// cell whose symbol builds exactly this node.
pub open spec fn node_matches_grid(g: Seq<Vec<char>>, n: Node) -> bool {
    &&& interior(g.len() as int, grid_cols(g), n.row as int, n.col as int)
    &&& g[n.row as int]@[n.col as int] != ' '
    &&& spec_symbol_node(n.node_type, g[n.row as int]@[n.col as int])
}

/// Strict row-major order on cells.
pub open spec fn lex_before(a: Node, b: Node) -> bool {
    a.row < b.row || (a.row == b.row && a.col < b.col)
}

/// The node list a grid parses to, pinned down: every node comes from
/// its cell, every non-blank interior cell is represented, and the
/// list is in strict row-major order.
pub open spec fn nodes_match_grid(g: Seq<Vec<char>>, nodes: Seq<Node>) -> bool {
    &&& forall |k: int| 0 <= k < nodes.len() ==> node_matches_grid(g, #[trigger] nodes[k])
    &&& forall |r: int, c: int|
        #![trigger g[r]@[c]]
        interior(g.len() as int, grid_cols(g), r, c) && g[r]@[c] != ' '
            ==> exists |k: int| 0 <= k < nodes.len() && node_at(#[trigger] nodes[k], r, c)
    &&& forall |k1: int, k2: int|
        #![trigger nodes[k1], nodes[k2]]
        0 <= k1 < k2 < nodes.len() ==> lex_before(nodes[k1], nodes[k2])
}

/// Whether every row has the width of the first.
fn rows_uniform(grid: &Vec<Vec<char>>) -> (ok: bool)
    requires
        grid@.len() > 0,
    ensures
        ok == forall |r: int| 0 <= r < grid@.len() ==> (#[trigger] grid@[r]@).len() == grid_cols(grid@),
{
    let cols = grid[0].len();
    let n = grid.len();
    let mut r: usize = 1;
    while r < n
        invariant
            1 <= r <= n,
            n == grid@.len(),
            n > 0,
            cols == grid_cols(grid@),
            forall |j: int| 0 <= j < r ==> (#[trigger] grid@[j]@).len() == grid_cols(grid@),
        decreases n - r,
    {
        if grid[r].len() != cols {
            return false;
        }
        r = r + 1;
    }
    true
}

/// Whether the boundary ring is an even wall of `I`.
#[verifier::loop_isolation(false)]
fn boundary_walled(grid: &Vec<Vec<char>>) -> (ok: bool)
    requires
        grid_dims_ok(grid@),
    ensures
        ok == grid_boundary_walled(grid@),
{
    let rows = grid.len();
    let cols = grid[0].len();
    let mut r: usize = 0;
    while r < rows
        invariant
            r <= rows,
            forall |r2: int, c2: int|
                #![trigger grid@[r2]@[c2]]
                0 <= r2 < r && 0 <= c2 < cols
                    && on_boundary(rows as int, cols as int, r2, c2)
                    ==> grid@[r2]@[c2] == 'I',
        decreases rows - r,
    {
        let row_ref = &grid[r];
        let mut c: usize = 0;
        while c < cols
            invariant
                c <= cols,
                r < rows,
                row_ref@ == grid@[r as int]@,
                forall |r2: int, c2: int|
                    #![trigger grid@[r2]@[c2]]
                    0 <= r2 < r && 0 <= c2 < cols
                        && on_boundary(rows as int, cols as int, r2, c2)
                        ==> grid@[r2]@[c2] == 'I',
                forall |c2: int|
                    0 <= c2 < c && on_boundary(rows as int, cols as int, r as int, c2)
                    ==> #[trigger] grid@[r as int]@[c2] == 'I',
            decreases cols - c,
        {
            if (r == 0 || r == rows - 1 || c == 0 || c == cols - 1) && row_ref[c] != 'I' {
                return false;
            }
            c = c + 1;
        }
        r = r + 1;
    }
    true
}

/// Whether every interior cell holds a recognized symbol.
#[verifier::loop_isolation(false)]
fn symbols_recognized(grid: &Vec<Vec<char>>) -> (ok: bool)
    requires
        grid_dims_ok(grid@),
    ensures
        ok == grid_symbols_ok(grid@),
{
    let rows = grid.len();
    let cols = grid[0].len();
    let mut r: usize = 1;
    while r < rows - 1
        invariant
            1 <= r <= rows - 1,
            forall |r2: int, c2: int|
                #![trigger grid@[r2]@[c2]]
                1 <= r2 < r && interior(rows as int, cols as int, r2, c2)
                    ==> recognized_symbol(grid@[r2]@[c2]),
        decreases rows - 1 - r,
    {
        let row_ref = &grid[r];
        let mut c: usize = 1;
        while c < cols - 1
            invariant
                1 <= c <= cols - 1,
                1 <= r < rows - 1,
                row_ref@ == grid@[r as int]@,
                forall |r2: int, c2: int|
                    #![trigger grid@[r2]@[c2]]
                    1 <= r2 < r && interior(rows as int, cols as int, r2, c2)
                        ==> recognized_symbol(grid@[r2]@[c2]),
                forall |c2: int|
                    1 <= c2 < c ==> recognized_symbol(#[trigger] grid@[r as int]@[c2]),
            decreases cols - 1 - c,
        {
            let ch = row_ref[c];
            let known = ch == ' ' || ch == 'I' || ch == 'X' || ch == 'B' || ch == 'T'
                || ch == 'b' || ch == 's' || ch == 'S' || ch == 'R' || ch == 'Z' || ch == '/'
                || ch == '\\' || ch == '1' || ch == '2' || ch == '3' || ch == '4' || ch == '5'
                || ch == '6' || ch == '7' || ch == '8';
            if !known {
                return false;
            }
            c = c + 1;
        }
        r = r + 1;
    }
    true
}

/// Reads the objects off the grid in row-major order.
#[verifier::loop_isolation(false)]
fn build_nodes(grid: &Vec<Vec<char>>) -> (nodes: Vec<Node>)
    requires
        grid_dims_ok(grid@),
    ensures
        nodes_match_grid(grid@, nodes@),
        player_count(nodes@) == grid_players(grid@),
{
    let rows = grid.len();
    let cols = grid[0].len();
    let mut nodes: Vec<Node> = Vec::new();
    let mut r: usize = 1;
    while r < rows - 1
        invariant
            1 <= r <= rows - 1,
            forall |k: int| 0 <= k < nodes@.len() ==> node_matches_grid(grid@, #[trigger] nodes@[k]),
            forall |k: int|
                0 <= k < nodes@.len() ==> (#[trigger] nodes@[k]).row < r,
            forall |k1: int, k2: int|
                #![trigger nodes@[k1], nodes@[k2]]
                0 <= k1 < k2 < nodes@.len() ==> lex_before(nodes@[k1], nodes@[k2]),
            forall |r2: int, c2: int|
                #![trigger grid@[r2]@[c2]]
                interior(rows as int, cols as int, r2, c2) && grid@[r2]@[c2] != ' ' && r2 < r
                    ==> exists |k: int| 0 <= k < nodes@.len() && node_at(#[trigger] nodes@[k], r2, c2),
            player_count(nodes@) == grid_players_upto(grid@, r as int),
        decreases rows - 1 - r,
    {
        let row_ref = &grid[r];
        let mut c: usize = 1;
        while c < cols - 1
            invariant
                1 <= c <= cols - 1,
                1 <= r < rows - 1,
                row_ref@ == grid@[r as int]@,
                forall |k: int| 0 <= k < nodes@.len() ==> node_matches_grid(grid@, #[trigger] nodes@[k]),
                forall |k: int|
                    0 <= k < nodes@.len() ==> ((#[trigger] nodes@[k]).row < r
                        || (nodes@[k].row == r && nodes@[k].col < c)),
                forall |k1: int, k2: int|
                    #![trigger nodes@[k1], nodes@[k2]]
                    0 <= k1 < k2 < nodes@.len() ==> lex_before(nodes@[k1], nodes@[k2]),
                forall |r2: int, c2: int|
                    #![trigger grid@[r2]@[c2]]
                    interior(rows as int, cols as int, r2, c2) && grid@[r2]@[c2] != ' '
                        && (r2 < r || (r2 == r && c2 < c))
                        ==> exists |k: int| 0 <= k < nodes@.len() && node_at(#[trigger] nodes@[k], r2, c2),
                player_count(nodes@) == grid_players_upto(grid@, r as int)
                    + row_players(grid@[r as int]@, c as int),
            decreases cols - 1 - c,
        {
            let ch = row_ref[c];
            if ch != ' ' {
                let ghost before = nodes@;
                let node = Node::new(ch, r as u16, c as u16);
                nodes.push(node);
                proof {
                    assert(nodes@.drop_last() =~= before);
                    assert(nodes@.last() == node);
                    assert(node_matches_grid(grid@, node));
                    if ch == 'X' {
                        assert(node.node_type is Player);
                    } else {
                        assert(!(node.node_type is Player));
                    }
                    assert forall |r2: int, c2: int|
                        interior(rows as int, cols as int, r2, c2)
                            && #[trigger] grid@[r2]@[c2] != ' '
                            && (r2 < r || (r2 == r && c2 < c + 1))
                        implies exists |k: int|
                            0 <= k < nodes@.len() && node_at(#[trigger] nodes@[k], r2, c2) by {
                        if r2 == r && c2 == c {
                            assert(node_at(nodes@[nodes@.len() - 1], r2, c2));
                        } else {
                            let k = choose |k: int|
                                0 <= k < before.len() && node_at(#[trigger] before[k], r2, c2);
                            assert(node_at(nodes@[k], r2, c2));
                        }
                    }
                }
            } else {
                proof {
                    assert forall |r2: int, c2: int|
                        interior(rows as int, cols as int, r2, c2)
                            && #[trigger] grid@[r2]@[c2] != ' '
                            && (r2 < r || (r2 == r && c2 < c + 1))
                        implies exists |k: int|
                            0 <= k < nodes@.len() && node_at(#[trigger] nodes@[k], r2, c2) by {
                        if r2 == r && c2 == c {
                            assert(grid@[r2]@[c2] == ' ');
                        }
                    }
                }
            }
            proof {
                assert(row_players(grid@[r as int]@, c as int + 1)
                    == row_players(grid@[r as int]@, c as int)
                        + (if grid@[r as int]@[c as int] == 'X' { 1nat } else { 0nat }));
            }
            c = c + 1;
        }
        proof {
            assert(grid_players_upto(grid@, r as int + 1) == grid_players_upto(grid@, r as int)
                + row_players(grid@[r as int]@, grid_cols(grid@) - 1));
            assert forall |k: int| 0 <= k < nodes@.len()
                implies (#[trigger] nodes@[k]).row < r + 1 by {}
        }
        r = r + 1;
    }
    proof {
        assert forall |r2: int, c2: int|
            interior(rows as int, cols as int, r2, c2) && #[trigger] grid@[r2]@[c2] != ' '
            implies exists |k: int|
                0 <= k < nodes@.len() && node_at(#[trigger] nodes@[k], r2, c2) by {
            assert(r2 < rows - 1);
        }
    }
    nodes
}

impl Level {
    /// Builds a level from a rectangular character grid, the compute
    /// half of loading a level file: the grid rows below the three
    /// metadata lines, one `Vec<char>` per line. Checks, in this
    /// order: the dimensions, the boundary wall, that every interior
    /// symbol is recognized, and that exactly one player is present;
    /// the first check to fail names the failure. On success the
    /// object set is the row-major reading of the grid.
    pub fn from_grid(
        name: String,
        author: String,
        description: String,
        grid: Vec<Vec<char>>,
    ) -> (res: Result<Level, LevelError>)
        ensures
            match res {
                Ok(l) => {
                    &&& grid_dims_ok(grid@)
                    &&& grid_boundary_walled(grid@)
                    &&& grid_symbols_ok(grid@)
                    &&& grid_players(grid@) == 1
                    &&& l.rows as int == grid@.len()
                    &&& l.cols as int == grid_cols(grid@)
                    &&& nodes_match_grid(grid@, l.nodes@)
                    &&& l.name == name
                    &&& l.author == author
                    &&& l.description == description
                    &&& l.status is InProgress
                    &&& l.wf()
                },
                Err(e) => match e {
                    LevelError::MalformedDimensions => !grid_dims_ok(grid@),
                    LevelError::UnwalledBoundary => grid_dims_ok(grid@)
                        && !grid_boundary_walled(grid@),
                    LevelError::UnrecognizedSymbol => grid_dims_ok(grid@)
                        && grid_boundary_walled(grid@) && !grid_symbols_ok(grid@),
                    LevelError::MissingPlayer => grid_dims_ok(grid@)
                        && grid_boundary_walled(grid@) && grid_symbols_ok(grid@)
                        && grid_players(grid@) == 0,
                    LevelError::DuplicatePlayer => grid_dims_ok(grid@)
                        && grid_boundary_walled(grid@) && grid_symbols_ok(grid@)
                        && grid_players(grid@) >= 2,
                },
            },
            res is Err <==> !(grid_dims_ok(grid@) && grid_boundary_walled(grid@)
                && grid_symbols_ok(grid@) && grid_players(grid@) == 1),
    {
        let rows = grid.len();
        if rows < 3 || rows > 0xFFFF {
            return Err(LevelError::MalformedDimensions);
        }
        let cols = grid[0].len();
        if cols < 3 || cols > 0xFFFF {
            return Err(LevelError::MalformedDimensions);
        }
        if !rows_uniform(&grid) {
            return Err(LevelError::MalformedDimensions);
        }
        if !boundary_walled(&grid) {
            return Err(LevelError::UnwalledBoundary);
        }
        if !symbols_recognized(&grid) {
            return Err(LevelError::UnrecognizedSymbol);
        }
        let nodes = build_nodes(&grid);
        proof {
            assert(distinct_cells(nodes@)) by {
                assert forall |i: int, j: int|
                    #![trigger nodes@[i], nodes@[j]]
                    0 <= i < nodes@.len() && 0 <= j < nodes@.len() && i != j
                    implies !(nodes@[i].row == nodes@[j].row && nodes@[i].col == nodes@[j].col) by {
                    if i < j {
                        assert(lex_before(nodes@[i], nodes@[j]));
                    } else {
                        assert(lex_before(nodes@[j], nodes@[i]));
                    }
                }
            }
            assert(nodes_in_interior(nodes@, rows as int, cols as int)) by {
                assert forall |k: int| 0 <= k < nodes@.len()
                    implies interior(rows as int, cols as int,
                        (#[trigger] nodes@[k]).row as int, nodes@[k].col as int) by {
                    assert(node_matches_grid(grid@, nodes@[k]));
                }
            }
        }
        match Level::new(name, author, description, rows as u16, cols as u16, nodes) {
            Ok(l) => Ok(l),
            Err(e) => match e {
                LevelError::MissingPlayer => Err(LevelError::MissingPlayer),
                _ => Err(LevelError::DuplicatePlayer),
            },
        }
    }
}

} // verus!
