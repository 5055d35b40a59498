use vstd::prelude::*;

use crate::{Outcome, Player};

verus! {

/// A step along one of the board's axes, as (column delta, row delta).
#[derive(PartialEq, Eq, Structural, Clone, Copy, Debug)]
pub struct Direction(pub i8, pub i8);

impl Direction {
    /// A unit step: each delta in -1..=1, not both zero.
    pub open spec fn is_axis(self) -> bool {
        Self::is_unit_step(self.0 as int, self.1 as int)
    }

    pub open spec fn is_unit_step(dc: int, dr: int) -> bool {
        -1 <= dc <= 1 && -1 <= dr <= 1 && !(dc == 0 && dr == 0)
    }

    /// The same axis, walked the other way.
    pub open spec fn negated(self) -> Direction {
        Direction((-self.0) as i8, (-self.1) as i8)
    }
}

/// The four axes along which a run can be formed: horizontal, vertical and
/// the two diagonals.
pub fn all_directions() -> (r: [Direction; 4])
    ensures
        r@ == seq![Direction(1, 0), Direction(0, 1), Direction(1, 1), Direction(-1i8, 1)],
{
    [Direction(1, 0), Direction(0, 1), Direction(1, 1), Direction(-1, 1)]
}

/// A cell of the board, as (column, row), both counted from zero.
#[derive(PartialEq, Eq, Structural, Clone, Copy, Debug)]
pub struct Location(pub u32, pub u32);

/// `x` reduced into the range of `u32`, as a cast from a wider integer does.
pub open spec fn wrap_u32(x: int) -> int {
    x % 0x1_0000_0000
}

fn wrapped(x: i64) -> (r: u32)
    requires
        -0x1_0000_0000 <= x < 0x2_0000_0000,
    ensures
        r as int == wrap_u32(x as int),
{
    if x < 0 {
        (x + 0x1_0000_0000) as u32
    } else if x >= 0x1_0000_0000 {
        (x - 0x1_0000_0000) as u32
    } else {
        x as u32
    }
}

impl Location {
    /// One step along `d`, or an error where that would leave the first
    /// column or the first row; coordinates wrap as a cast to `u32` does.
    pub open spec fn plus(self, d: Direction) -> Result<Location, &'static str> {
        if self.0 == 0 && d.0 < 0 {
            Err("already at first column")
        } else if self.1 == 0 && d.1 < 0 {
            Err("already at first row")
        } else {
            Ok(Location(wrap_u32(self.0 + d.0) as u32, wrap_u32(self.1 + d.1) as u32))
        }
    }

    /// One step against `d`, or an error where that would leave the first
    /// column or the first row; coordinates wrap as a cast to `u32` does.
    pub open spec fn minus(self, d: Direction) -> Result<Location, &'static str> {
        if self.0 == 0 && d.0 > 0 {
            Err("already at first column")
        } else if self.1 == 0 && d.1 > 0 {
            Err("already at first row")
        } else {
            Ok(Location(wrap_u32(self.0 - d.0) as u32, wrap_u32(self.1 - d.1) as u32))
        }
    }
}

impl std::ops::Add<Direction> for Location {
    type Output = Result<Location, &'static str>;

    fn add(self, d: Direction) -> (r: Result<Location, &'static str>)
        ensures
            r == self.plus(d),
    {
        if self.0 == 0 && d.0 < 0 {
            Err("already at first column")
        } else if self.1 == 0 && d.1 < 0 {
            Err("already at first row")
        } else {
            Ok(Location(wrapped(self.0 as i64 + d.0 as i64), wrapped(self.1 as i64 + d.1 as i64)))
        }
    }
}

impl vstd::std_specs::ops::AddSpecImpl<Direction> for Location {
    open spec fn obeys_add_spec() -> bool {
        true
    }

    open spec fn add_req(self, d: Direction) -> bool {
        true
    }

    open spec fn add_spec(self, d: Direction) -> Result<Location, &'static str> {
        self.plus(d)
    }
}

impl std::ops::Sub<Direction> for Location {
    type Output = Result<Location, &'static str>;

    fn sub(self, d: Direction) -> (r: Result<Location, &'static str>)
        ensures
            r == self.minus(d),
    {
        if self.0 == 0 && d.0 > 0 {
            Err("already at first column")
        } else if self.1 == 0 && d.1 > 0 {
            Err("already at first row")
        } else {
            Ok(Location(wrapped(self.0 as i64 - d.0 as i64), wrapped(self.1 as i64 - d.1 as i64)))
        }
    }
}

impl vstd::std_specs::ops::SubSpecImpl<Direction> for Location {
    open spec fn obeys_sub_spec() -> bool {
        true
    }

    open spec fn sub_req(self, d: Direction) -> bool {
        true
    }

    open spec fn sub_spec(self, d: Direction) -> Result<Location, &'static str> {
        self.minus(d)
    }
}

/// The board as Verus sees it: one sequence per column, bottom first, and the
/// number of cells each column holds.
pub struct GridView {
    pub cols: Seq<Seq<Player>>,
    pub height: nat,
}

impl GridView {
    /// Columns never outgrow the board, and every cell has a `u32` address.
    pub open spec fn wf(self) -> bool {
        &&& self.cols.len() <= u32::MAX
        &&& self.height <= u32::MAX
        &&& forall|c: int| 0 <= c < self.cols.len() ==> #[trigger] self.cols[c].len() <= self.height
    }

    /// The player at (c, r), or `None` for an empty or outside cell.
    pub open spec fn owner(self, c: int, r: int) -> Option<Player> {
        if 0 <= c < self.cols.len() && 0 <= r < self.cols[c].len() {
            Some(self.cols[c][r])
        } else {
            None
        }
    }

    pub open spec fn is_full(self) -> bool {
        forall|c: int| 0 <= c < self.cols.len() ==> #[trigger] self.cols[c].len() == self.height
    }

    /// The board after `p` drops a piece on top of column `c`.
    pub open spec fn dropped(self, p: Player, c: int) -> GridView {
        GridView { cols: self.cols.update(c, self.cols[c].push(p)), height: self.height }
    }

    /// How many cells owned by `p` follow (c, r) in a row along (dc, dr),
    /// not counting (c, r) itself.
    pub open spec fn ray(self, c: int, r: int, dc: int, dr: int, p: Player) -> nat
        decreases
            (if dc > 0 {
                self.cols.len() - c
            } else if dc < 0 {
                c + 1
            } else if dr > 0 {
                self.cols[c].len() - r
            } else {
                r + 1
            }),
    {
        if Direction::is_unit_step(dc, dr) && self.owner(c + dc, r + dr) == Some(p) {
            1 + self.ray(c + dc, r + dr, dc, dr, p)
        } else {
            0
        }
    }

    /// The length of the run of one owner through `start` along the axis of
    /// `d`, both ways; 0 where `start` is empty or outside the board.
    pub open spec fn run_length(self, start: Location, d: Direction) -> nat {
        match self.owner(start.0 as int, start.1 as int) {
            Some(p) => 1 + self.ray(start.0 as int, start.1 as int, d.0 as int, d.1 as int, p)
                + self.ray(start.0 as int, start.1 as int, -d.0, -d.1, p),
            None => 0,
        }
    }
}

/// A board of fixed width and height whose columns fill from the bottom.
pub struct Grid {
    values: Vec<Vec<Player>>,
    max_height: usize,
}

impl View for Grid {
    type V = GridView;

    closed spec fn view(&self) -> GridView {
        GridView { cols: self.values@.map_values(|c: Vec<Player>| c@), height: self.max_height as nat }
    }
}

impl GridView {
    proof fn lemma_ray_bound(self, c: int, r: int, dc: int, dr: int, p: Player)
        requires
            self.owner(c, r) is Some,
        ensures
            dc > 0 ==> self.ray(c, r, dc, dr, p) <= self.cols.len() - 1 - c,
            dc < 0 ==> self.ray(c, r, dc, dr, p) <= c,
            dc == 0 && dr > 0 ==> self.ray(c, r, dc, dr, p) <= self.cols[c].len() - 1 - r,
            dc == 0 && dr < 0 ==> self.ray(c, r, dc, dr, p) <= r,
        decreases self.ray(c, r, dc, dr, p),
    {
        if self.ray(c, r, dc, dr, p) > 0 {
            self.lemma_ray_bound(c + dc, r + dr, dc, dr, p);
        }
    }

    /// A run never holds more cells than the longer side of a well-formed
    /// board.
    pub proof fn lemma_run_length_bound(self, start: Location, d: Direction)
        requires
            self.wf(),
            d.is_axis(),
        ensures
            self.run_length(start, d) <= self.cols.len() || self.run_length(start, d) <= self.height,
            self.run_length(start, d) <= u32::MAX,
    {
        let (c, r) = (start.0 as int, start.1 as int);
        if let Some(p) = self.owner(c, r) {
            self.lemma_ray_bound(c, r, d.0 as int, d.1 as int, p);
            self.lemma_ray_bound(c, r, -d.0, -d.1, p);
            assert(self.cols[c].len() <= self.height);
        }
    }
}

/// Counting a run along a direction gives the same length as counting it
/// along the opposite direction from the same cell.
pub proof fn lemma_run_length_symmetric(g: GridView, start: Location, d: Direction)
    requires
        d.is_axis(),
    ensures
        d.negated().is_axis(),
        g.run_length(start, d) == g.run_length(start, d.negated()),
{
}

impl Grid {
    /// An empty board of `width` columns, each `height` cells tall.
    pub fn with_dimensions(width: usize, height: usize) -> (g: Grid)
        requires
            width <= u32::MAX,
            height <= u32::MAX,
        ensures
            g@.wf(),
            g@.cols == Seq::new(width as nat, |c: int| Seq::<Player>::empty()),
            g@.height == height,
    {
        let mut values: Vec<Vec<Player>> = Vec::new();
        while values.len() < width
            invariant
                values.len() <= width,
                forall|c: int| 0 <= c < values.len() ==> (#[trigger] values@[c])@.len() == 0,
            decreases width - values.len(),
        {
            values.push(Vec::new());
        }
        let g = Grid { values, max_height: height };
        assert forall|c: int| 0 <= c < width implies #[trigger] g@.cols[c] == Seq::<Player>::empty() by {
            assert(g@.cols[c] =~= Seq::<Player>::empty());
        }
        assert(g@.cols =~= Seq::new(width as nat, |c: int| Seq::<Player>::empty()));
        g
    }

    /// Whether every column holds as many pieces as the board is tall.
    pub fn is_full(&self) -> (r: bool)
        ensures
            r == self@.is_full(),
    {
        let mut c: usize = 0;
        while c < self.values.len()
            invariant
                c <= self.values.len(),
                forall|i: int| 0 <= i < c ==> #[trigger] self@.cols[i].len() == self@.height,
            decreases self.values.len() - c,
        {
            if self.values[c].len() != self.max_height {
                assert(self@.cols[c as int].len() != self@.height);
                return false;
            }
            c = c + 1;
        }
        true
    }

    /// Drops `player`'s piece into `column`, where it lands on top of the
    /// pieces already there, and returns the cell it landed in.
    pub fn insert_piece(&mut self, player: Player, column: u32) -> (r: Result<Location, Outcome>)
        requires
            old(self)@.wf(),
        ensures
            final(self)@.wf(),
            column >= old(self)@.cols.len() ==> r == Err::<Location, Outcome>(Outcome::IllegalColumn)
                && final(self)@ == old(self)@,
            column < old(self)@.cols.len() && old(self)@.cols[column as int].len() >= old(self)@.height
                ==> r == Err::<Location, Outcome>(Outcome::IllegalRow) && final(self)@ == old(self)@,
            column < old(self)@.cols.len() && old(self)@.cols[column as int].len() < old(self)@.height
                ==> r == Ok::<Location, Outcome>(Location(column, old(self)@.cols[column as int].len() as u32))
                && final(self)@ == old(self)@.dropped(player, column as int),
    {
        let c = column as usize;
        if c >= self.values.len() {
            return Err(Outcome::IllegalColumn);
        }
        let length = self.values[c].len();
        if length >= self.max_height {
            return Err(Outcome::IllegalRow);
        }
        proof {
            assert(old(self)@.cols[c as int].len() <= old(self)@.height);
        }
        self.values[c].push(player);
        proof {
            assert(self@.cols =~= old(self)@.dropped(player, column as int).cols);
            assert forall|i: int| 0 <= i < self@.cols.len() implies #[trigger] self@.cols[i].len() <= self@.height by {
                assert(old(self)@.cols[i].len() <= old(self)@.height);
            }
        }
        Ok(Location(column, length as u32))
    }

    /// The length of the run of one owner through `start` along the axis of
    /// `direction`, counted both ways; 0 where `start` is empty or outside.
    pub fn get_streak(&self, start: Location, direction: Direction) -> (r: u32)
        requires
            self@.wf(),
            direction.is_axis(),
        ensures
            r == self@.run_length(start, direction),
            self@.owner(start.0 as int, start.1 as int) is None ==> r == 0,
    {
        let player = match self.at(start) {
            Some(player) => *player,
            None => return 0,
        };
        proof {
            self@.lemma_run_length_bound(start, direction);
        }
        let forward = self.ray_from(start, direction, true, player);
        let backward = self.ray_from(start, direction, false, player);
        1 + forward + backward
    }

    /// The number of cells that `p` owns in a row from `start` along `d`,
    /// counted by walking the board.
    fn ray_from(&self, start: Location, d: Direction, forward: bool, p: Player) -> (r: u32)
        requires
            self@.wf(),
            d.is_axis(),
            self@.owner(start.0 as int, start.1 as int) == Some(p),
        ensures
            forward ==> r == self@.ray(start.0 as int, start.1 as int, d.0 as int, d.1 as int, p),
            !forward ==> r == self@.ray(start.0 as int, start.1 as int, -d.0, -d.1, p),
    {
        let ghost (dc, dr) = if forward {
            (d.0 as int, d.1 as int)
        } else {
            (-d.0, -d.1)
        };
        let ghost total = self@.ray(start.0 as int, start.1 as int, dc, dr, p);
        proof {
            self@.lemma_ray_bound(start.0 as int, start.1 as int, dc, dr, p);
            assert(self@.cols[start.0 as int].len() <= self@.height);
        }
        let mut count: u32 = 0;
        let mut position = start;
        loop
            invariant
                self@.wf(),
                d.is_axis(),
                dc == (if forward { d.0 as int } else { -d.0 }),
                dr == (if forward { d.1 as int } else { -d.1 }),
                total <= u32::MAX,
                self@.owner(position.0 as int, position.1 as int) == Some(p),
                count + self@.ray(position.0 as int, position.1 as int, dc, dr, p) == total,
            ensures
                count == total,
            decreases self@.ray(position.0 as int, position.1 as int, dc, dr, p),
        {
            let next = if forward {
                position + d
            } else {
                position - d
            };
            match next {
                Ok(pos) => {
                    assert(pos.0 as int == position.0 + dc && pos.1 as int == position.1 + dr);
                    match self.at(pos) {
                        Some(q) => {
                            if *q == p {
                                position = pos;
                                count = count + 1;
                            } else {
                                break;
                            }
                        },
                        None => {
                            break;
                        },
                    }
                },
                Err(_) => {
                    break;
                },
            }
        }
        count
    }

    /// The owner of the cell at `loc`, or `None` for an empty or outside cell.
    pub fn at(&self, loc: Location) -> (r: Option<&Player>)
        ensures
            match r {
                Some(p) => self@.owner(loc.0 as int, loc.1 as int) == Some(*p),
                None => self@.owner(loc.0 as int, loc.1 as int) is None,
            },
    {
        let c = loc.0 as usize;
        if c < self.values.len() {
            let col = &self.values[c];
            let r = loc.1 as usize;
            if r < col.len() {
                Some(&col[r])
            } else {
                None
            }
        } else {
            None
        }
    }
}

} // verus!
