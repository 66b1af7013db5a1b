//! Geometry of the offset-coordinate hex board: bounds, adjacency (which
//! depends on the parity of the column), legal mouse moves and the two
//! terminal conditions.

use vstd::prelude::*;

verus! {

/// A cell of the board as (column, row).
pub type Cell = (u32, u32);

/// Largest coordinate on either axis; the board spans `0..=EDGE`.
pub const EDGE: u32 = 10;

/// Coordinate of the centre cell on both axes, where the mouse starts.
pub const CENTER: u32 = 5;

pub open spec fn in_board(x: int, y: int) -> bool {
    0 <= x <= EDGE && 0 <= y <= EDGE
}

pub open spec fn cell_in_board(c: Cell) -> bool {
    in_board(c.0 as int, c.1 as int)
}

/// The six neighbours of `(x, y)`, in the order in which moves are listed.
/// Even columns lean upwards, odd columns downwards.
pub open spec fn hex_neighbors(x: int, y: int) -> Seq<(int, int)> {
    if x % 2 == 0 {
        seq![(x, y + 1), (x, y - 1), (x + 1, y - 1), (x + 1, y), (x - 1, y - 1), (x - 1, y)]
    } else {
        seq![(x, y + 1), (x, y - 1), (x + 1, y), (x + 1, y + 1), (x - 1, y), (x - 1, y + 1)]
    }
}

/// Whether some wall stands on the point `(x, y)`.
pub open spec fn is_wall(walls: Seq<Cell>, x: int, y: int) -> bool {
    exists|i: int| 0 <= i < walls.len() && walls[i].0 as int == x && walls[i].1 as int == y
}

/// The points of `ns` that lie on the board and hold no wall, in order.
pub open spec fn free_points(ns: Seq<(int, int)>, walls: Seq<Cell>) -> Seq<Cell>
    decreases ns.len(),
{
    if ns.len() == 0 {
        seq![]
    } else {
        let rest = free_points(ns.drop_last(), walls);
        let p = ns.last();
        if in_board(p.0, p.1) && !is_wall(walls, p.0, p.1) {
            rest.push((p.0 as u32, p.1 as u32))
        } else {
            rest
        }
    }
}

/// The cells the mouse standing on `c` may move to.
pub open spec fn legal_moves(c: Cell, walls: Seq<Cell>) -> Seq<Cell> {
    free_points(hex_neighbors(c.0 as int, c.1 as int), walls)
}

/// Escape: the cell lies on the outer ring of the board.
pub open spec fn on_edge(c: Cell) -> bool {
    c.0 == 0 || c.0 == EDGE || c.1 == 0 || c.1 == EDGE
}

/// Capture: every one of the six neighbours of `c` holds a wall.
pub open spec fn surrounded(c: Cell, walls: Seq<Cell>) -> bool {
    forall|i: int|
        0 <= i < 6 ==> #[trigger] is_wall(
            walls,
            hex_neighbors(c.0 as int, c.1 as int)[i].0,
            hex_neighbors(c.0 as int, c.1 as int)[i].1,
        )
}

/// A cell with a wall on one of its six hex neighbours.
pub open spec fn dangerous(c: Cell, walls: Seq<Cell>) -> bool {
    exists|i: int|
        0 <= i < 6 && #[trigger] is_wall(
            walls,
            hex_neighbors(c.0 as int, c.1 as int)[i].0,
            hex_neighbors(c.0 as int, c.1 as int)[i].1,
        )
}

/// Whether `c` is one of `walls`.
pub fn contains_cell(walls: &Vec<Cell>, c: Cell) -> (r: bool)
    ensures
        r == walls@.contains(c),
        r == is_wall(walls@, c.0 as int, c.1 as int),
{
    let mut i: usize = 0;
    while i < walls.len()
        invariant
            i <= walls.len(),
            forall|j: int| 0 <= j < i ==> walls@[j] != c,
        decreases walls.len() - i,
    {
        if walls[i].0 == c.0 && walls[i].1 == c.1 {
            assert(walls@[i as int] == c);
            return true;
        }
        i += 1;
    }
    false
}

/// The six neighbours of `(x, y)` as signed points.
fn neighbors(x: u32, y: u32) -> (r: Vec<(i64, i64)>)
    ensures
        r@.len() == 6,
        forall|i: int|
            0 <= i < 6 ==> (#[trigger] r@[i]).0 as int == hex_neighbors(x as int, y as int)[i].0
                && r@[i].1 as int == hex_neighbors(x as int, y as int)[i].1,
{
    let x = x as i64;
    let y = y as i64;
    if x % 2 == 0 {
        vec![(x, y + 1), (x, y - 1), (x + 1, y - 1), (x + 1, y), (x - 1, y - 1), (x - 1, y)]
    } else {
        vec![(x, y + 1), (x, y - 1), (x + 1, y), (x + 1, y + 1), (x - 1, y), (x - 1, y + 1)]
    }
}

/// Whether the signed point `(x, y)` holds a wall.
fn wall_at(walls: &Vec<Cell>, x: i64, y: i64) -> (r: bool)
    ensures
        r == is_wall(walls@, x as int, y as int),
{
    if x < 0 || y < 0 || x > u32::MAX as i64 || y > u32::MAX as i64 {
        false
    } else {
        contains_cell(walls, (x as u32, y as u32))
    }
}

/// The cells a mouse standing on `(mouse_x, mouse_y)` may move to: the
/// neighbours that lie on the board and hold no wall.
pub fn posib_moves(walls: &Vec<Cell>, mouse_x: u32, mouse_y: u32) -> (r: Vec<Cell>)
    ensures
        r@ == legal_moves((mouse_x, mouse_y), walls@),
{
    let ns = neighbors(mouse_x, mouse_y);
    let ghost hs = hex_neighbors(mouse_x as int, mouse_y as int);
    let mut moves: Vec<Cell> = Vec::new();
    let mut i: usize = 0;
    while i < 6
        invariant
            i <= 6,
            ns@.len() == 6,
            hs == hex_neighbors(mouse_x as int, mouse_y as int),
            forall|k: int|
                0 <= k < 6 ==> (#[trigger] ns@[k]).0 as int == hs[k].0 && ns@[k].1 as int
                    == hs[k].1,
            moves@ == free_points(hs.take(i as int), walls@),
        decreases 6 - i,
    {
        let (nx, ny) = ns[i];
        assert(hs.take(i + 1).drop_last() =~= hs.take(i as int));
        assert(hs.take(i + 1).last() == hs[i as int]);
        if 0 <= nx && nx <= EDGE as i64 && 0 <= ny && ny <= EDGE as i64 && !wall_at(walls, nx, ny) {
            moves.push((nx as u32, ny as u32));
        }
        i += 1;
    }
    assert(hs.take(6) =~= hs);
    moves
}

/// Capture test: whether all six neighbours of `mouse` hold walls.
pub fn is_surrounded(mouse: Cell, walls: &Vec<Cell>) -> (r: bool)
    ensures
        r == surrounded(mouse, walls@),
{
    let ns = neighbors(mouse.0, mouse.1);
    let ghost hs = hex_neighbors(mouse.0 as int, mouse.1 as int);
    let mut i: usize = 0;
    while i < 6
        invariant
            i <= 6,
            ns@.len() == 6,
            hs == hex_neighbors(mouse.0 as int, mouse.1 as int),
            forall|k: int|
                0 <= k < 6 ==> (#[trigger] ns@[k]).0 as int == hs[k].0 && ns@[k].1 as int
                    == hs[k].1,
            forall|k: int| 0 <= k < i ==> #[trigger] is_wall(walls@, hs[k].0, hs[k].1),
        decreases 6 - i,
    {
        let (nx, ny) = ns[i];
        if !wall_at(walls, nx, ny) {
            return false;
        }
        i += 1;
    }
    true
}

/// Escape test: whether `c` lies on the outer ring.
pub fn is_on_edge(c: Cell) -> (r: bool)
    ensures
        r == on_edge(c),
{
    c.0 == 0 || c.0 == EDGE || c.1 == 0 || c.1 == EDGE
}

/// Whether a wall stands on one of the six hex neighbours of `c`.
pub fn danger_hex(walls: &Vec<Cell>, c: Cell) -> (r: bool)
    ensures
        r == dangerous(c, walls@),
{
    let ns = neighbors(c.0, c.1);
    let ghost hs = hex_neighbors(c.0 as int, c.1 as int);
    let mut i: usize = 0;
    while i < 6
        invariant
            i <= 6,
            ns@.len() == 6,
            hs == hex_neighbors(c.0 as int, c.1 as int),
            forall|k: int|
                0 <= k < 6 ==> (#[trigger] ns@[k]).0 as int == hs[k].0 && ns@[k].1 as int
                    == hs[k].1,
            forall|k: int| 0 <= k < i ==> !(#[trigger] is_wall(walls@, hs[k].0, hs[k].1)),
        decreases 6 - i,
    {
        let (nx, ny) = ns[i];
        if wall_at(walls, nx, ny) {
            assert(is_wall(walls@, hs[i as int].0, hs[i as int].1));
            return true;
        }
        i += 1;
    }
    false
}

} // verus!
