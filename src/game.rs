use std::collections::HashMap;

use itertools::Itertools;

use vstd::prelude::*;

use crate::grid::{all_directions, Direction, Grid, GridView, Location};
use crate::parse::{header, parse_numbers};
use crate::{Outcome, Player};

verus! {

broadcast use vstd::std_specs::hash::group_hash_axioms;

/// A match in progress: the board, the run length that wins, how many pieces
/// each player has placed and where the last piece landed.
pub struct Game {
    win_length: u32,
    grid: Grid,
    moves_made: HashMap<Player, u32>,
    last_move: Option<Location>,
}

/// A match as Verus sees it.
pub struct GameView {
    pub win_length: u32,
    pub grid: GridView,
    pub moves_made: Map<Player, u32>,
    pub last_move: Option<Location>,
}

impl View for Game {
    type V = GameView;

    closed spec fn view(&self) -> GameView {
        GameView {
            win_length: self.win_length,
            grid: self.grid@,
            moves_made: self.moves_made@,
            last_move: self.last_move,
        }
    }
}

/// The player who moves after `p`: turns alternate between players 1 and 2.
pub open spec fn next_player(p: Player) -> Player {
    if p == 1 {
        2
    } else if p == 2 {
        1
    } else {
        p
    }
}

/// Whether the piece at `at` lies on a run of at least `win_length` cells
/// along one of the four axes.
pub open spec fn completes_run(g: GridView, at: Location, win_length: u32) -> bool {
    ||| g.run_length(at, Direction(1, 0)) >= win_length
    ||| g.run_length(at, Direction(0, 1)) >= win_length
    ||| g.run_length(at, Direction(1, 1)) >= win_length
    ||| g.run_length(at, Direction(-1i8, 1)) >= win_length
}

impl GameView {
    pub open spec fn wf(self) -> bool {
        self.grid.wf()
    }

    /// A match on an empty board, before any move.
    pub open spec fn fresh(width: u32, height: u32, win_length: u32) -> GameView {
        GameView {
            win_length,
            grid: GridView {
                cols: Seq::new(width as nat, |c: int| Seq::<Player>::empty()),
                height: height as nat,
            },
            moves_made: Map::empty(),
            last_move: None,
        }
    }

    /// How many pieces `p` has placed; the count stops at `u32::MAX`.
    pub open spec fn count(self, p: Player) -> u32 {
        if self.moves_made.contains_key(p) {
            self.moves_made[p]
        } else {
            0
        }
    }

    /// One move: `p` drops a piece into `column`. The match goes on (`None`)
    /// or ends with the outcome given. A win is looked for only once `p` has
    /// placed `win_length` pieces, and comes before a draw.
    pub open spec fn step(self, p: Player, column: u32) -> (GameView, Option<Outcome>) {
        if column >= self.grid.cols.len() {
            (self, Some(Outcome::IllegalColumn))
        } else if self.grid.cols[column as int].len() >= self.grid.height {
            (self, Some(Outcome::IllegalRow))
        } else {
            let at = Location(column, self.grid.cols[column as int].len() as u32);
            let grid = self.grid.dropped(p, column as int);
            let n: u32 = if self.count(p) == u32::MAX {
                u32::MAX
            } else {
                (self.count(p) + 1) as u32
            };
            let next = GameView {
                win_length: self.win_length,
                grid,
                moves_made: self.moves_made.insert(p, n),
                last_move: Some(at),
            };
            if n >= self.win_length && completes_run(grid, at, self.win_length) {
                (next, Some(Outcome::PlayerWin(p)))
            } else if grid.is_full() {
                (next, Some(Outcome::Draw))
            } else {
                (next, None)
            }
        }
    }

    /// Plays `moves` in order, `p` first, and gives the final state and the
    /// outcome. A win is reported only on the last listed move.
    pub open spec fn replay(self, moves: Seq<u32>, p: Player) -> (GameView, Outcome)
        decreases moves.len(),
    {
        if moves.len() == 0 {
            (self, Outcome::Incomplete)
        } else {
            let (next, result) = self.step(p, moves[0]);
            match result {
                Some(Outcome::PlayerWin(w)) => (
                    next,
                    if moves.len() > 1 {
                        Outcome::IllegalContinue
                    } else {
                        Outcome::PlayerWin(w)
                    },
                ),
                Some(o) => (next, o),
                None => next.replay(moves.drop_first(), next_player(p)),
            }
        }
    }
}

/// A match that leaves the board full is a draw, never unfinished: a replay
/// reports `Incomplete` only with room left on the board, and `Draw` only on
/// a full one.
pub proof fn lemma_full_board_is_draw(s: GameView, moves: Seq<u32>, p: Player)
    requires
        moves.len() > 0 || !s.grid.is_full(),
    ensures
        s.replay(moves, p).1 == Outcome::Incomplete ==> !s.replay(moves, p).0.grid.is_full(),
        s.replay(moves, p).1 == Outcome::Draw ==> s.replay(moves, p).0.grid.is_full(),
    decreases moves.len(),
{
    if moves.len() > 0 {
        let (next, result) = s.step(p, moves[0]);
        if result is None {
            lemma_full_board_is_draw(next, moves.drop_first(), next_player(p));
        }
    }
}

/// Once a move completes a winning run, any further listed move makes the
/// record illegal: where `moves` ends in a win, `moves` followed by more
/// moves gives `IllegalContinue`.
pub proof fn lemma_moves_after_win_are_illegal(s: GameView, moves: Seq<u32>, extra: Seq<u32>, p: Player)
    requires
        s.replay(moves, p).1 is PlayerWin,
        extra.len() > 0,
    ensures
        s.replay(moves + extra, p).1 == Outcome::IllegalContinue,
    decreases moves.len(),
{
    let all = moves + extra;
    assert(all[0] == moves[0]);
    let (next, result) = s.step(p, moves[0]);
    if result is None {
        assert(all.drop_first() =~= moves.drop_first() + extra);
        lemma_moves_after_win_are_illegal(next, moves.drop_first(), extra, next_player(p));
    }
}

/// Relies on `Itertools::collect_tuple` of itertools: a triple comes back
/// exactly when the iterator yields exactly three items, in order.
#[verifier::external_body]
fn collect_triple(values: Vec<u32>) -> (r: Option<(u32, u32, u32)>)
    ensures
        values@.len() == 3 ==> r == Some((values@[0], values@[1], values@[2])),
        values@.len() != 3 ==> r is None,
{
    values.into_iter().collect_tuple()
}

impl Game {
    /// A match set up by a header line holding width, height and run
    /// length; fails with `InvalidFile` where the line does not hold exactly
    /// three numbers, and as `new` does otherwise.
    pub fn from_string(desc: &str) -> (r: Result<Game, Outcome>)
        ensures
            match header(desc@) {
                Some((w, h, l)) => {
                    &&& (l > w && l > h ==> r == Err::<Game, Outcome>(Outcome::IllegalGame))
                    &&& (!(l > w && l > h) ==> (r matches Ok(g) && g@ == GameView::fresh(w, h, l) && g@.wf()))
                },
                None => r == Err::<Game, Outcome>(Outcome::InvalidFile),
            },
    {
        let values = match parse_numbers(desc) {
            Some(values) => values,
            None => return Err(Outcome::InvalidFile),
        };
        if let Some((width, height, win_length)) = collect_triple(values) {
            Game::new(width, height, win_length)
        } else {
            Err(Outcome::InvalidFile)
        }
    }

    /// A match on an empty `width` by `height` board; fails with
    /// `IllegalGame` where `win_length` exceeds both sides.
    pub fn new(width: u32, height: u32, win_length: u32) -> (r: Result<Game, Outcome>)
        ensures
            win_length > width && win_length > height <==> r is Err,
            r is Err ==> r == Err::<Game, Outcome>(Outcome::IllegalGame),
            r matches Ok(g) ==> g@ == GameView::fresh(width, height, win_length) && g@.wf(),
    {
        if win_length > width && win_length > height {
            Err(Outcome::IllegalGame)
        } else {
            Ok(
                Game {
                    win_length,
                    grid: Grid::with_dimensions(width as usize, height as usize),
                    moves_made: HashMap::new(),
                    last_move: None,
                },
            )
        }
    }

    /// Plays `moves`, zero-based column numbers, in order, player 1 first
    /// and then players 1 and 2 in turn, and returns how the match ended.
    pub fn play(&mut self, moves: &Vec<u32>) -> (r: Outcome)
        requires
            old(self)@.wf(),
        ensures
            final(self)@.wf(),
            (final(self)@, r) == old(self)@.replay(moves@, 1),
    {
        let mut player: Player = 1;
        let mut idx: usize = 0;
        assert(moves@.skip(0) =~= moves@);
        while idx < moves.len()
            invariant
                idx <= moves.len(),
                self@.wf(),
                self@.replay(moves@.skip(idx as int), player) == old(self)@.replay(moves@, 1),
            decreases moves.len() - idx,
        {
            let column = moves[idx];
            let ghost rest = moves@.skip(idx as int);
            assert(rest[0] == column);
            assert(rest.drop_first() =~= moves@.skip(idx + 1));
            let result = self.make_move(player, column);
            match result {
                Some(Outcome::PlayerWin(w)) => {
                    return if moves.len() > idx + 1 {
                        Outcome::IllegalContinue
                    } else {
                        Outcome::PlayerWin(w)
                    };
                },
                Some(outcome) => {
                    return outcome;
                },
                None => {
                    player = if player == 1 {
                        2
                    } else if player == 2 {
                        1
                    } else {
                        player
                    };
                },
            }
            idx = idx + 1;
        }
        Outcome::Incomplete
    }

    /// Whether `player` has placed enough pieces to hold a winning run.
    fn could_win(&self, player: Player) -> (r: bool)
        ensures
            r == (self@.moves_made.contains_key(player) && self@.moves_made[player] >= self@.win_length),
    {
        match self.moves_made.get(&player) {
            Some(val) => *val >= self.win_length,
            None => false,
        }
    }

    /// Plays one move and says whether it ends the match. The run check
    /// is made only once the mover has placed `win_length` pieces.
    fn make_move(&mut self, player: Player, column: u32) -> (r: Option<Outcome>)
        requires
            old(self)@.wf(),
        ensures
            final(self)@.wf(),
            (final(self)@, r) == old(self)@.step(player, column),
    {
        let location = match self.grid.insert_piece(player, column) {
            Ok(location) => location,
            Err(outcome) => return Some(outcome),
        };
        self.last_move = Some(location);
        let n = match self.moves_made.get(&player) {
            Some(val) => val.saturating_add(1),
            None => 1,
        };
        self.moves_made.insert(player, n);
        if self.could_win(player) {
            let directions = all_directions();
            let mut i: usize = 0;
            while i < 4
                invariant
                    self@.wf(),
                    self@ == old(self)@.step(player, column).0,
                    self@.moves_made.contains_key(player),
                    self@.moves_made[player] >= self@.win_length,
                    column < old(self)@.grid.cols.len(),
                    old(self)@.grid.cols[column as int].len() < old(self)@.grid.height,
                    location == Location(column, old(self)@.grid.cols[column as int].len() as u32),
                    i <= 4,
                    directions@ == seq![Direction(1, 0), Direction(0, 1), Direction(1, 1), Direction(-1i8, 1)],
                    forall|j: int| 0 <= j < i ==> self@.grid.run_length(location, #[trigger] directions@[j]) < self@.win_length,
                decreases 4 - i,
            {
                let streak = self.grid.get_streak(location, directions[i]);
                if streak >= self.win_length {
                    assert(completes_run(self@.grid, location, self@.win_length)) by {
                        assert(0 <= i < 4);
                        if i == 0 {
                        } else if i == 1 {
                        } else if i == 2 {
                        } else {
                        }
                    }
                    return Some(Outcome::PlayerWin(player));
                }
                i = i + 1;
            }
            assert(self@.grid.run_length(location, directions@[0]) < self@.win_length);
            assert(self@.grid.run_length(location, directions@[1]) < self@.win_length);
            assert(self@.grid.run_length(location, directions@[2]) < self@.win_length);
            assert(self@.grid.run_length(location, directions@[3]) < self@.win_length);
        }
        if self.grid.is_full() {
            Some(Outcome::Draw)
        } else {
            None
        }
    }
}

} // verus!
