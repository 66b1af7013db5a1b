//! One game session: the players, the board, whose turn it is and how the
//! game ended, together with the built-in mouse opponent.

use crate::board::{
    cell_in_board, danger_hex, dangerous, hex_neighbors, is_on_edge, is_surrounded, is_wall,
    legal_moves, on_edge, posib_moves, surrounded, Cell, CENTER, EDGE,
};
use rand::seq::SliceRandom;
use rand::Rng;
use vstd::prelude::*;

verus! {

#[derive(Clone, Copy, Debug, PartialEq, Eq, Structural)]
pub enum GameState {
    Waiting,
    InGame,
    GameOver,
}

#[derive(Clone, Copy, Debug, PartialEq, Eq, Structural)]
pub enum Turn {
    MousePlayer,
    TrapperPlayer,
}

#[derive(Clone, Copy, Debug, PartialEq, Eq, Structural)]
pub enum RoomType {
    SinglePlayer,
    MultiPlayer,
}

#[derive(Clone, Copy, Debug, PartialEq, Eq, Structural)]
pub enum Difficulty {
    Easy,
    Medium,
    Hard,
}

/// What a move of the built-in mouse came to.
#[derive(Clone, Copy, Debug, PartialEq, Eq, Structural)]
pub enum AiOutcome {
    /// The mouse moved to this cell (column, row).
    Moved(u32, u32),
    /// No move was left: the trapper won.
    Cornered,
    /// The room's difficulty has no opponent behind it.
    Unimplemented,
    /// No difficulty was chosen yet.
    NoDifficulty,
}

pub struct Room {
    pub room_id: u32,
    pub room_name: String,
    pub mouse_player: Option<String>,
    pub trapper_player: Option<String>,
    pub game_state: GameState,
    pub mouse_position: Cell,
    pub walls: Vec<Cell>,
    pub turn: Turn,
    pub winner: Option<Turn>,
    pub room_type: RoomType,
    pub game_difficulty: Option<Difficulty>,
    pub mouse_player_exited: bool,
    pub trapper_player_exited: bool,
}

/// A room as plain values.
pub struct RoomView {
    pub room_id: u32,
    pub room_name: Seq<char>,
    pub mouse_player: Option<Seq<char>>,
    pub trapper_player: Option<Seq<char>>,
    pub game_state: GameState,
    pub mouse_position: Cell,
    pub walls: Seq<Cell>,
    pub turn: Turn,
    pub winner: Option<Turn>,
    pub room_type: RoomType,
    pub game_difficulty: Option<Difficulty>,
    pub mouse_player_exited: bool,
    pub trapper_player_exited: bool,
}

pub open spec fn name_view(n: Option<String>) -> Option<Seq<char>> {
    match n {
        Some(s) => Some(s@),
        None => None,
    }
}

impl View for Room {
    type V = RoomView;

    open spec fn view(&self) -> RoomView {
        RoomView {
            room_id: self.room_id,
            room_name: self.room_name@,
            mouse_player: name_view(self.mouse_player),
            trapper_player: name_view(self.trapper_player),
            game_state: self.game_state,
            mouse_position: self.mouse_position,
            walls: self.walls@,
            turn: self.turn,
            winner: self.winner,
            room_type: self.room_type,
            game_difficulty: self.game_difficulty,
            mouse_player_exited: self.mouse_player_exited,
            trapper_player_exited: self.trapper_player_exited,
        }
    }
}

/// The opening wall layout: six distinct cells on the board, none of them
/// the centre.
pub open spec fn opening_walls(walls: Seq<Cell>) -> bool {
    &&& walls.len() == 6
    &&& forall|i: int, j: int| 0 <= i < j < walls.len() ==> walls[i] != walls[j]
    &&& forall|i: int| 0 <= i < walls.len() ==> cell_in_board(#[trigger] walls[i])
    &&& forall|i: int| 0 <= i < walls.len() ==> #[trigger] walls[i] != (CENTER, CENTER)
}

/// The moves among `moves` onto cells with no wall among their six hex
/// neighbours, in order.
pub open spec fn safe_moves(moves: Seq<Cell>, walls: Seq<Cell>) -> Seq<Cell>
    decreases moves.len(),
{
    if moves.len() == 0 {
        seq![]
    } else {
        let rest = safe_moves(moves.drop_last(), walls);
        if dangerous(moves.last(), walls) {
            rest
        } else {
            rest.push(moves.last())
        }
    }
}

/// The winner that the board alone shows: escape is checked before
/// capture.
pub open spec fn board_outcome(mouse: Cell, walls: Seq<Cell>) -> Option<Turn> {
    if on_edge(mouse) {
        Some(Turn::MousePlayer)
    } else if surrounded(mouse, walls) {
        Some(Turn::TrapperPlayer)
    } else {
        None
    }
}

impl RoomView {
    /// A room as it stands right after it was made.
    pub open spec fn fresh(self, id: u32, name: Seq<char>, kind: RoomType) -> bool {
        &&& self.room_id == id
        &&& self.room_name == name
        &&& self.mouse_player is None
        &&& self.trapper_player is None
        &&& self.game_state == GameState::Waiting
        &&& self.mouse_position == (CENTER, CENTER)
        &&& opening_walls(self.walls)
        &&& self.turn == Turn::TrapperPlayer
        &&& self.winner is None
        &&& self.room_type == kind
        &&& self.game_difficulty is None
        &&& !self.mouse_player_exited
        &&& !self.trapper_player_exited
    }

    pub open spec fn with_mouse_at(self, c: Cell) -> RoomView {
        RoomView { mouse_position: c, turn: Turn::TrapperPlayer, ..self }
    }

    pub open spec fn with_trap(self, c: Cell) -> RoomView {
        RoomView { walls: self.walls.push(c), turn: Turn::MousePlayer, ..self }
    }

    pub open spec fn finished(self, winner: Option<Turn>) -> RoomView {
        RoomView { game_state: GameState::GameOver, winner: winner, ..self }
    }

    pub open spec fn with_difficulty(self, d: Option<Difficulty>) -> RoomView {
        RoomView { game_difficulty: d, ..self }
    }

    /// The state a room is in once its slots are as given.
    pub open spec fn seated(self) -> RoomView {
        if self.game_state == GameState::Waiting && self.mouse_player is Some
            && self.trapper_player is Some {
            RoomView { game_state: GameState::InGame, ..self }
        } else if self.game_state == GameState::InGame && (self.mouse_player is None
            || self.trapper_player is None) {
            RoomView { game_state: GameState::Waiting, ..self }
        } else {
            self
        }
    }

    /// `player` takes the slot of `role` if it is empty.
    pub open spec fn joined(self, role: Turn, player: Seq<char>) -> RoomView {
        match role {
            Turn::MousePlayer => if self.mouse_player is None {
                RoomView { mouse_player: Some(player), ..self }.seated()
            } else {
                self
            },
            Turn::TrapperPlayer => if self.trapper_player is None {
                RoomView { trapper_player: Some(player), ..self }.seated()
            } else {
                self
            },
        }
    }

    /// `player` gives up the slot that holds that name, the mouse's first.
    pub open spec fn left(self, player: Seq<char>) -> RoomView {
        if self.mouse_player == Some(player) {
            RoomView { mouse_player: None, ..self }.seated()
        } else if self.trapper_player == Some(player) {
            RoomView { trapper_player: None, ..self }.seated()
        } else {
            self
        }
    }

    /// The player of `role` has left the finished game.
    pub open spec fn exited(self, role: Turn) -> RoomView {
        match role {
            Turn::MousePlayer => RoomView {
                mouse_player_exited: true,
                game_state: GameState::GameOver,
                ..self
            },
            Turn::TrapperPlayer => RoomView {
                trapper_player_exited: true,
                game_state: GameState::GameOver,
                ..self
            },
        }
    }

    pub open spec fn both_exited(self) -> bool {
        self.mouse_player_exited && self.trapper_player_exited
    }

    pub open spec fn legal_moves(self) -> Seq<Cell> {
        legal_moves(self.mouse_position, self.walls)
    }

    /// The cells the built-in mouse picks from: every legal move when easy;
    /// when medium, the safe ones, or every legal move if none is safe.
    pub open spec fn ai_candidates(self) -> Seq<Cell> {
        let legal = self.legal_moves();
        let safe = safe_moves(legal, self.walls);
        if self.game_difficulty == Some(Difficulty::Medium) && safe.len() > 0 {
            safe
        } else {
            legal
        }
    }

    /// How one move of the built-in mouse takes `self` to `next`, with outcome `r`.
    pub open spec fn ai_step(self, next: RoomView, r: AiOutcome) -> bool {
        match self.game_difficulty {
            None => r == AiOutcome::NoDifficulty && next == self,
            Some(Difficulty::Hard) => r == AiOutcome::Unimplemented && next == self,
            Some(_) => if self.ai_candidates().len() == 0 {
                r == AiOutcome::Cornered && next == self.finished(Some(Turn::TrapperPlayer))
            } else {
                match r {
                    AiOutcome::Moved(x, y) => self.ai_candidates().contains((x, y)) && next
                        == self.with_mouse_at((x, y)),
                    _ => false,
                }
            },
        }
    }

    pub open spec fn outcome(self) -> Option<Turn> {
        board_outcome(self.mouse_position, self.walls)
    }
}

/// Relies on rand's `Rng::gen_range` on the thread-local generator: a value
/// in `0..n`, which it panics on only when the range is empty.
#[verifier::external_body]
fn random_below(n: usize) -> (r: usize)
    requires
        n > 0,
    ensures
        r < n,
{
    rand::thread_rng().gen_range(0..n)
}

/// Relies on rand's `SliceRandom::choose` on the thread-local generator:
/// `None` for an empty slice, else one of its elements.
#[verifier::external_body]
fn choose_cell(cells: &Vec<Cell>) -> (r: Option<Cell>)
    ensures
        r is None <==> cells@.len() == 0,
        r matches Some(c) ==> cells@.contains(c),
{
    cells.choose(&mut rand::thread_rng()).copied()
}

pub open spec fn cell_key(c: Cell) -> int {
    c.0 as int * 11 + c.1 as int
}

/// The cells `(x, 0)` .. `(x, h - 1)` of column `x`, the centre left out.
pub open spec fn column_cells(x: nat, h: nat) -> Seq<Cell>
    decreases h,
{
    if h == 0 {
        seq![]
    } else {
        let prev = column_cells(x, (h - 1) as nat);
        if x == CENTER && h - 1 == CENTER {
            prev
        } else {
            prev.push((x as u32, (h - 1) as u32))
        }
    }
}

/// The cells of columns `0` .. `w - 1`, column by column, the centre left out.
pub open spec fn board_cells(w: nat) -> Seq<Cell>
    decreases w,
{
    if w == 0 {
        seq![]
    } else {
        board_cells((w - 1) as nat) + column_cells((w - 1) as nat, (EDGE + 1) as nat)
    }
}

/// Every cell of the board but the centre, column by column.
pub open spec fn open_board() -> Seq<Cell> {
    board_cells((EDGE + 1) as nat)
}

/// The walls that the draws pick: each draw takes the cell at that index
/// among the cells of `free` not taken yet, which keep their order.
pub open spec fn drawn_layout(free: Seq<Cell>, draws: Seq<usize>) -> Seq<Cell>
    decreases draws.len(),
{
    if draws.len() == 0 {
        seq![]
    } else {
        seq![free[draws[0] as int]] + drawn_layout(
            free.remove(draws[0] as int),
            draws.drop_first(),
        )
    }
}

/// Six draws, each an index among the cells still free when it is made.
pub open spec fn valid_draws(draws: Seq<usize>) -> bool {
    draws.len() == 6 && forall|i: int| 0 <= i < 6 ==> #[trigger] draws[i] < 120 - i
}

/// Every cell of the board but the centre, in order of `cell_key`.
fn open_cells() -> (r: Vec<Cell>)
    ensures
        r@ == open_board(),
        r@.len() == 120,
        forall|i: int, j: int| 0 <= i < j < r@.len() ==> cell_key(r@[i]) < cell_key(r@[j]),
        forall|i: int| 0 <= i < r@.len() ==> cell_in_board(#[trigger] r@[i]),
        forall|i: int| 0 <= i < r@.len() ==> #[trigger] r@[i] != (CENTER, CENTER),
{
    let mut cells: Vec<Cell> = Vec::new();
    let mut x: u32 = 0;
    while x <= EDGE
        invariant
            x <= EDGE + 1,
            cells@ == board_cells(x as nat),
            cells@.len() == 11 * x - (if x > CENTER { 1int } else { 0 }),
            forall|i: int, j: int|
                0 <= i < j < cells@.len() ==> cell_key(cells@[i]) < cell_key(cells@[j]),
            forall|i: int| 0 <= i < cells@.len() ==> cell_key(#[trigger] cells@[i]) < 11 * x,
            forall|i: int| 0 <= i < cells@.len() ==> cell_in_board(#[trigger] cells@[i]),
            forall|i: int| 0 <= i < cells@.len() ==> #[trigger] cells@[i] != (CENTER, CENTER),
        decreases EDGE + 1 - x,
    {
        let mut y: u32 = 0;
        while y <= EDGE
            invariant
                x <= EDGE,
                y <= EDGE + 1,
                cells@ == board_cells(x as nat) + column_cells(x as nat, y as nat),
                cells@.len() == 11 * x + y - (if x > CENTER || (x == CENTER && y > CENTER) {
                    1int
                } else {
                    0
                }),
                forall|i: int, j: int|
                    0 <= i < j < cells@.len() ==> cell_key(cells@[i]) < cell_key(cells@[j]),
                forall|i: int|
                    0 <= i < cells@.len() ==> cell_key(#[trigger] cells@[i]) < 11 * x + y,
                forall|i: int| 0 <= i < cells@.len() ==> cell_in_board(#[trigger] cells@[i]),
                forall|i: int| 0 <= i < cells@.len() ==> #[trigger] cells@[i] != (CENTER, CENTER),
            decreases EDGE + 1 - y,
        {
            let ghost before = cells@;
            if x != CENTER || y != CENTER {
                cells.push((x, y));
                assert(cells@ =~= board_cells(x as nat) + column_cells(x as nat, y as nat + 1));
            } else {
                assert(cells@ =~= board_cells(x as nat) + column_cells(x as nat, y as nat + 1));
            }
            y += 1;
        }
        assert(cells@ =~= board_cells(x as nat + 1));
        x += 1;
    }
    cells
}

/// The opening walls that the draws pick from every cell of the board but
/// the centre: six distinct cells, none of them the centre.
pub fn layout_from_draws(draws: &Vec<usize>) -> (r: Vec<Cell>)
    requires
        valid_draws(draws@),
    ensures
        r@ == drawn_layout(open_board(), draws@),
        opening_walls(r@),
{
    let mut free = open_cells();
    let mut walls: Vec<Cell> = Vec::new();
    let mut n: usize = 0;
    assert(draws@.skip(0) =~= draws@);
    assert(walls@ + drawn_layout(free@, draws@) =~= drawn_layout(free@, draws@));
    while n < 6
        invariant
            n <= 6,
            valid_draws(draws@),
            walls@.len() == n,
            free@.len() + n == 120,
            walls@ + drawn_layout(free@, draws@.skip(n as int)) == drawn_layout(
                open_board(),
                draws@,
            ),
            forall|i: int, j: int|
                0 <= i < j < free@.len() ==> cell_key(free@[i]) < cell_key(free@[j]),
            forall|i: int| 0 <= i < free@.len() ==> cell_in_board(#[trigger] free@[i]),
            forall|i: int| 0 <= i < free@.len() ==> #[trigger] free@[i] != (CENTER, CENTER),
            forall|i: int, j: int| 0 <= i < j < walls@.len() ==> walls@[i] != walls@[j],
            forall|i: int| 0 <= i < walls@.len() ==> cell_in_board(#[trigger] walls@[i]),
            forall|i: int| 0 <= i < walls@.len() ==> #[trigger] walls@[i] != (CENTER, CENTER),
            forall|i: int, j: int|
                0 <= i < walls@.len() && 0 <= j < free@.len() ==> walls@[i] != free@[j],
        decreases 6 - n,
    {
        let k = draws[n];
        assert(k < 120 - n);
        let ghost before = free@;
        let ghost old_walls = walls@;
        let ghost rest = draws@.skip(n as int);
        assert(rest[0] == k);
        assert(rest.drop_first() =~= draws@.skip(n + 1));
        let c = free.remove(k);
        assert forall|j: int| 0 <= j < free@.len() implies c != free@[j] by {
            if j < k {
                assert(cell_key(before[j]) < cell_key(before[k as int]));
            } else {
                assert(free@[j] == before[j + 1]);
                assert(cell_key(before[k as int]) < cell_key(before[j + 1]));
            }
        }
        assert forall|i: int, j: int|
            0 <= i < j < free@.len() implies cell_key(free@[i]) < cell_key(free@[j]) by {
            let i0 = if i < k { i } else { i + 1 };
            let j0 = if j < k { j } else { j + 1 };
            assert(free@[i] == before[i0] && free@[j] == before[j0]);
        }
        assert forall|i: int, j: int|
            0 <= i < walls@.len() && 0 <= j < free@.len() implies walls@[i] != free@[j] by {
            let j0 = if j < k { j } else { j + 1 };
            assert(free@[j] == before[j0]);
        }
        walls.push(c);
        assert(walls@ + drawn_layout(free@, draws@.skip(n + 1)) =~= old_walls + drawn_layout(
            before,
            rest,
        ));
        n += 1;
    }
    assert(draws@.skip(6) =~= Seq::<usize>::empty());
    assert(walls@ + Seq::<Cell>::empty() =~= walls@);
    walls
}

/// Six distinct cells drawn uniformly without replacement from every cell
/// of the board but the centre.
fn opening_layout() -> (r: Vec<Cell>)
    ensures
        exists|d: Seq<usize>| valid_draws(d) && r@ == drawn_layout(open_board(), d),
        opening_walls(r@),
{
    let mut draws: Vec<usize> = Vec::new();
    let mut n: usize = 0;
    while n < 6
        invariant
            n <= 6,
            draws@.len() == n,
            forall|i: int| 0 <= i < n ==> #[trigger] draws@[i] < 120 - i,
        decreases 6 - n,
    {
        draws.push(random_below(120 - n));
        n += 1;
    }
    layout_from_draws(&draws)
}

impl Room {
    /// A multiplayer room waiting for players: the mouse on the centre, six
    /// random walls elsewhere, the trapper to move first.
    pub fn new(room_id: u32, room_name: String) -> (r: Room)
        ensures
            r@.fresh(room_id, room_name@, RoomType::MultiPlayer),
            exists|d: Seq<usize>| valid_draws(d) && r@.walls == drawn_layout(open_board(), d),
    {
        Room {
            room_id,
            room_name,
            mouse_player: None,
            trapper_player: None,
            game_state: GameState::Waiting,
            mouse_position: (CENTER, CENTER),
            walls: opening_layout(),
            turn: Turn::TrapperPlayer,
            winner: None,
            room_type: RoomType::MultiPlayer,
            game_difficulty: None,
            mouse_player_exited: false,
            trapper_player_exited: false,
        }
    }
    /// Puts the mouse on `(x, y)` and hands the turn to the trapper. The
    /// destination is not checked.
    pub fn move_mouse(&mut self, x: u32, y: u32)
        ensures
            final(self)@ == old(self)@.with_mouse_at((x, y)),
            final(self).turn == Turn::TrapperPlayer,
    {
        self.mouse_position = (x, y);
        self.turn = Turn::TrapperPlayer;
    }

    /// Adds a wall on `(x, y)` and hands the turn to the mouse.
    pub fn place_trap(&mut self, x: u32, y: u32)
        ensures
            final(self)@ == old(self)@.with_trap((x, y)),
            final(self).turn == Turn::MousePlayer,
    {
        self.walls.push((x, y));
        self.turn = Turn::MousePlayer;
    }

    /// Ends the game with the given winner, if any.
    pub fn mark_game_over(&mut self, winner: Option<Turn>)
        ensures
            final(self)@ == old(self)@.finished(winner),
    {
        self.game_state = GameState::GameOver;
        self.winner = winner;
    }

    pub fn set_difficulty(&mut self, d: Option<Difficulty>)
        ensures
            final(self)@ == old(self)@.with_difficulty(d),
    {
        self.game_difficulty = d;
    }

    /// Moves between waiting and playing as the slots fill and empty.
    fn update_seating(&mut self)
        ensures
            final(self)@ == old(self)@.seated(),
    {
        let full = self.mouse_player.is_some() && self.trapper_player.is_some();
        if self.game_state == GameState::Waiting && full {
            self.game_state = GameState::InGame;
        } else if self.game_state == GameState::InGame && !full {
            self.game_state = GameState::Waiting;
        }
    }

    /// Seats `player` in the slot of `role` if that slot is empty; returns
    /// whether it did.
    pub fn join(&mut self, role: Turn, player: String) -> (r: bool)
        ensures
            final(self)@ == old(self)@.joined(role, player@),
            r == (match role {
                Turn::MousePlayer => old(self).mouse_player is None,
                Turn::TrapperPlayer => old(self).trapper_player is None,
            }),
    {
        match role {
            Turn::MousePlayer => {
                if self.mouse_player.is_none() {
                    self.mouse_player = Some(player);
                    self.update_seating();
                    true
                } else {
                    false
                }
            },
            Turn::TrapperPlayer => {
                if self.trapper_player.is_none() {
                    self.trapper_player = Some(player);
                    self.update_seating();
                    true
                } else {
                    false
                }
            },
        }
    }

    /// Empties the slot held by `player`, the mouse's first; returns
    /// whether a slot held that name.
    pub fn leave(&mut self, player: &String) -> (r: bool)
        ensures
            final(self)@ == old(self)@.left(player@),
            r == (old(self)@.mouse_player == Some(player@) || old(self)@.trapper_player == Some(
                player@,
            )),
    {
        let is_mouse = match &self.mouse_player {
            Some(m) => *m == *player,
            None => false,
        };
        let is_trapper = match &self.trapper_player {
            Some(t) => *t == *player,
            None => false,
        };
        if is_mouse {
            self.mouse_player = None;
            self.update_seating();
            true
        } else if is_trapper {
            self.trapper_player = None;
            self.update_seating();
            true
        } else {
            false
        }
    }

    /// Records that the player of `role` left the finished game; returns
    /// whether both players have now left.
    pub fn mark_exit(&mut self, role: Turn) -> (r: bool)
        ensures
            final(self)@ == old(self)@.exited(role),
            r == final(self)@.both_exited(),
    {
        match role {
            Turn::MousePlayer => self.mouse_player_exited = true,
            Turn::TrapperPlayer => self.trapper_player_exited = true,
        }
        self.game_state = GameState::GameOver;
        self.mouse_player_exited && self.trapper_player_exited
    }

    /// The winner that the board alone shows: the mouse if it stands on
    /// the edge, else the trapper if it is walled in, else nobody yet.
    pub fn outcome(&self) -> (r: Option<Turn>)
        ensures
            r == self@.outcome(),
    {
        if is_on_edge(self.mouse_position) {
            Some(Turn::MousePlayer)
        } else if is_surrounded(self.mouse_position, &self.walls) {
            Some(Turn::TrapperPlayer)
        } else {
            None
        }
    }

    /// The cells a mouse on `(mouse_x, mouse_y)` may move to in this room.
    pub fn posib_moves(&self, mouse_x: u32, mouse_y: u32) -> (r: Vec<Cell>)
        ensures
            r@ == legal_moves((mouse_x, mouse_y), self.walls@),
    {
        posib_moves(&self.walls, mouse_x, mouse_y)
    }

    /// Whether moving onto `c` would put the mouse next to a wall, that is
    /// on a cell with a wall among its six hex neighbours.
    pub fn danger_hex(&self, c: Cell) -> (r: bool)
        ensures
            r == dangerous(c, self.walls@),
    {
        danger_hex(&self.walls, c)
    }

    /// The legal moves that do not lead next to a wall.
    fn safe_moves(&self, moves: &Vec<Cell>) -> (r: Vec<Cell>)
        ensures
            r@ == safe_moves(moves@, self.walls@),
    {
        let mut safe: Vec<Cell> = Vec::new();
        let mut i: usize = 0;
        while i < moves.len()
            invariant
                i <= moves.len(),
                safe@ == safe_moves(moves@.take(i as int), self.walls@),
            decreases moves.len() - i,
        {
            assert(moves@.take(i + 1).drop_last() =~= moves@.take(i as int));
            assert(moves@.take(i + 1).last() == moves@[i as int]);
            if !self.danger_hex(moves[i]) {
                safe.push(moves[i]);
            }
            i += 1;
        }
        assert(moves@.take(moves.len() as int) =~= moves@);
        safe
    }

    /// The cells the built-in mouse picks from.
    pub fn ai_candidates(&self) -> (r: Vec<Cell>)
        ensures
            r@ == self@.ai_candidates(),
    {
        let legal = self.posib_moves(self.mouse_position.0, self.mouse_position.1);
        let safe = self.safe_moves(&legal);
        if self.game_difficulty == Some(Difficulty::Medium) && safe.len() > 0 {
            safe
        } else {
            legal
        }
    }

    /// One move of the built-in mouse: a random pick among its candidates,
    /// or the trapper's win when there is none. A hard room has no opponent
    /// and is left as it is, as is a room with no difficulty.
    pub fn ai_move(&mut self) -> (r: AiOutcome)
        ensures
            old(self)@.ai_step(final(self)@, r),
    {
        match self.game_difficulty {
            None => AiOutcome::NoDifficulty,
            Some(Difficulty::Hard) => AiOutcome::Unimplemented,
            Some(_) => {
                let candidates = self.ai_candidates();
                match choose_cell(&candidates) {
                    Some(c) => {
                        self.move_mouse(c.0, c.1);
                        AiOutcome::Moved(c.0, c.1)
                    },
                    None => {
                        self.mark_game_over(Some(Turn::TrapperPlayer));
                        AiOutcome::Cornered
                    },
                }
            },
        }
    }
}

/// A mouse on the outer ring has escaped: whatever the walls, the board
/// shows the mouse as the winner.
pub proof fn lemma_border_escapes(v: RoomView)
    requires
        v.mouse_position.0 == 0 || v.mouse_position.0 == EDGE || v.mouse_position.1 == 0
            || v.mouse_position.1 == EDGE,
    ensures
        on_edge(v.mouse_position),
        v.outcome() == Some(Turn::MousePlayer),
{
}

/// A mouse whose six neighbours all hold walls is captured; unless it
/// also stands on the edge, the board shows the trapper as the winner.
pub proof fn lemma_walled_in_captured(v: RoomView)
    requires
        ({
            let ns = hex_neighbors(v.mouse_position.0 as int, v.mouse_position.1 as int);
            forall|i: int|
                0 <= i < 6 ==> exists|c: Cell|
                    #[trigger] v.walls.contains(c) && c.0 as int == (#[trigger] ns[i]).0 && c.1 as int
                        == ns[i].1
        }),
    ensures
        surrounded(v.mouse_position, v.walls),
        !on_edge(v.mouse_position) ==> v.outcome() == Some(Turn::TrapperPlayer),
{
    let ns = hex_neighbors(v.mouse_position.0 as int, v.mouse_position.1 as int);
    assert forall|i: int| 0 <= i < 6 implies #[trigger] is_wall(v.walls, ns[i].0, ns[i].1) by {
        let c = choose|c: Cell|
            #[trigger] v.walls.contains(c) && c.0 as int == ns[i].0 && c.1 as int == ns[i].1;
        let j = choose|j: int| 0 <= j < v.walls.len() && v.walls[j] == c;
        assert(v.walls[j].0 as int == ns[i].0 && v.walls[j].1 as int == ns[i].1);
    }
}

/// An easy mouse with a single legal move takes exactly that move and
/// hands the turn to the trapper; with no legal move the trapper wins.
pub proof fn lemma_easy_forced_move(v: RoomView, next: RoomView, o: AiOutcome)
    requires
        v.game_difficulty == Some(Difficulty::Easy),
        v.ai_step(next, o),
    ensures
        v.legal_moves().len() == 1 ==> o == AiOutcome::Moved(
            v.legal_moves()[0].0,
            v.legal_moves()[0].1,
        ) && next.mouse_position == v.legal_moves()[0] && next.turn == Turn::TrapperPlayer,
        v.legal_moves().len() == 0 ==> o == AiOutcome::Cornered && next.winner == Some(
            Turn::TrapperPlayer,
        ) && next.game_state == GameState::GameOver,
{
    if v.legal_moves().len() == 1 {
        if let AiOutcome::Moved(x, y) = o {
            let j = choose|j: int| 0 <= j < v.legal_moves().len() && v.legal_moves()[j] == (x, y);
            assert(j == 0);
        }
    }
}

} // verus!
