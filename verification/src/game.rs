//! The simulation state machine: one board, one ant, and two counters.
//!
//! A step moves the ant one cell ahead, flips the color it finds there and
//! turns the ant: clockwise on a formerly White cell, counter-clockwise on a
//! formerly Black one. A step whose candidate cell lies off the board fails,
//! leaving board and ant untouched; the attempt still counts toward the age.

use vstd::prelude::*;

verus! {

use crate::ant::Ant;
use crate::ant::Direction;
use crate::ant::ccw;
use crate::ant::cw;
use crate::board::BUF_LEN;
use crate::board::Board;
use crate::board::Color;
use crate::board::Pos;
use crate::board::black_total;
use crate::board::flip;
use crate::board::in_bounds;
use crate::board::lemma_black_at;
use crate::board::lemma_black_set_update;
use crate::board::lemma_black_total_bound;
use crate::board::lemma_get_set_same;
use crate::board::spec_color;
use crate::board::spec_set_color;

/// The candidate cell one step ahead of position `p` in direction `d`.
pub open spec fn next_pos_of(d: Direction, p: (int, int)) -> (int, int) {
    match d {
        Direction::Up => (p.0, p.1 - 1),
        Direction::Down => (p.0, p.1 + 1),
        Direction::Right => (p.0 + 1, p.1),
        Direction::Left => (p.0 - 1, p.1),
    }
}

/// The turn the step rule takes on a cell that held color `c`.
pub open spec fn turn(d: Direction, c: Color) -> Direction {
    if c == Color::White {
        cw(d)
    } else {
        ccw(d)
    }
}

/// The whole simulation state, as mathematical values: the packed buffer,
/// the ant's facing and position, and the two counters.
pub ghost struct GameView {
    pub cells: Seq<u8>,
    pub dir: Direction,
    pub pos: (int, int),
    pub age: int,
    pub black: int,
}

/// Whether the next step from state `v` stays on the board.
pub open spec fn can_step(v: GameView) -> bool {
    in_bounds(next_pos_of(v.dir, v.pos).0, next_pos_of(v.dir, v.pos).1)
}

/// The state after one successful step: the ant stands on the candidate
/// cell, that cell's color is flipped, the ant has turned by the rule, the
/// age has grown by one and the black counter has moved with the flip.
pub open spec fn step_view(v: GameView) -> GameView {
    let np = next_pos_of(v.dir, v.pos);
    let c = spec_color(v.cells, np.0, np.1);
    GameView {
        cells: spec_set_color(v.cells, np.0, np.1, flip(c)),
        dir: turn(v.dir, c),
        pos: np,
        age: v.age + 1,
        black: if c == Color::White {
            v.black + 1
        } else {
            v.black - 1
        },
    }
}

/// The state after a failed step: only the age has grown, by one.
pub open spec fn halt_view(v: GameView) -> GameView {
    GameView { cells: v.cells, dir: v.dir, pos: v.pos, age: v.age + 1, black: v.black }
}

/// The state after running up to `n` steps from `v`, stopping at the first
/// failed attempt.
pub open spec fn run_view(v: GameView, n: nat) -> GameView
    decreases n,
{
    if n == 0 {
        v
    } else if !can_step(v) {
        halt_view(v)
    } else {
        run_view(step_view(v), (n - 1) as nat)
    }
}

/// Whether all of `n` steps from `v` succeed.
pub open spec fn completes(v: GameView, n: nat) -> bool
    decreases n,
{
    if n == 0 {
        true
    } else if !can_step(v) {
        false
    } else {
        completes(step_view(v), (n - 1) as nat)
    }
}

/// Law: one step flips the color of the cell the ant enters and turns the
/// ant by the rule; a White cell pairs with a clockwise turn and a flip to
/// Black, a Black cell with a counter-clockwise turn and a flip to White.
pub proof fn lemma_step_flip_turn(v: GameView)
    requires
        v.cells.len() == BUF_LEN,
        can_step(v),
    ensures
        ({
            let np = next_pos_of(v.dir, v.pos);
            let c = spec_color(v.cells, np.0, np.1);
            &&& spec_color(step_view(v).cells, np.0, np.1) == flip(c)
            &&& step_view(v).dir == turn(v.dir, c)
            &&& c == Color::White ==> step_view(v).dir == cw(v.dir) && spec_color(
                step_view(v).cells,
                np.0,
                np.1,
            ) == Color::Black
            &&& c == Color::Black ==> step_view(v).dir == ccw(v.dir) && spec_color(
                step_view(v).cells,
                np.0,
                np.1,
            ) == Color::White
        }),
{
    let np = next_pos_of(v.dir, v.pos);
    let c = spec_color(v.cells, np.0, np.1);
    lemma_get_set_same(v.cells, np.0, np.1, flip(c));
}

/// Law: the two halves of the step rule are symmetric: a second flip gives
/// the first color back, and the two rotation senses undo each other, so a
/// White-cell step followed by a step onto the same, now Black, cell from
/// the same facing restores color and facing alike.
pub proof fn lemma_turn_rule_pair(d: Direction, c: Color)
    ensures
        flip(flip(c)) == c,
        turn(d, Color::White) == cw(d),
        turn(d, Color::Black) == ccw(d),
        ccw(cw(d)) == d,
        cw(ccw(d)) == d,
        turn(turn(d, c), flip(c)) == d,
{
}

/// Law: once the ant's candidate cell lies off the board, a budgeted run
/// stops at that failed attempt: the attempt still counts toward the age,
/// and board, ant and black counter stay as the last successful step left
/// them.
pub proof fn lemma_boundary_termination(v: GameView, n: nat)
    requires
        n >= 1,
        !can_step(v),
    ensures
        !completes(v, n),
        run_view(v, n) == halt_view(v),
{
}

/// Law: the age counts attempted steps exactly. A completed run of `n`
/// steps raises it by `n`; a run cut short by the boundary still counts
/// every attempt, the failed final one included, and stops before the
/// budget is spent.
pub proof fn lemma_age_counts_attempts(v: GameView, n: nat)
    ensures
        completes(v, n) ==> run_view(v, n).age == v.age + n,
        !completes(v, n) ==> v.age + 1 <= run_view(v, n).age <= v.age + n,
    decreases n,
{
    if n == 0 {
    } else if !can_step(v) {
    } else {
        lemma_age_counts_attempts(step_view(v), (n - 1) as nat);
    }
}

/// Law: across every successful step the running black counter stays equal
/// to the number of Black cells on the board.
pub proof fn lemma_conservation(v: GameView)
    requires
        v.cells.len() == BUF_LEN,
        can_step(v),
        v.black == black_total(v.cells),
    ensures
        step_view(v).black == black_total(step_view(v).cells),
{
    let np = next_pos_of(v.dir, v.pos);
    let c = spec_color(v.cells, np.0, np.1);
    lemma_black_total_bound(v.cells);
    lemma_black_at(v.cells, np.0, np.1);
    lemma_black_set_update(v.cells, np.0, np.1, flip(c));
}

/// The game: a board, an ant, the count of attempted steps and the running
/// count of Black cells.
pub struct Game {
    pub board: Board,
    pub ant: Ant,
    pub age: u64,
    pub black_count: u64,
}

impl View for Game {
    type V = GameView;

    open spec fn view(&self) -> GameView {
        GameView {
            cells: self.board@,
            dir: self.ant.direction,
            pos: (self.ant.pos.0 as int, self.ant.pos.1 as int),
            age: self.age as int,
            black: self.black_count as int,
        }
    }
}

impl Game {
    /// The game invariant: the buffer keeps its size, the ant stands on the
    /// board, and the black counter equals the number of Black cells.
    pub open spec fn wf(&self) -> bool {
        &&& self.board.wf()
        &&& in_bounds(self.ant.pos.0 as int, self.ant.pos.1 as int)
        &&& self.black_count == black_total(self.board@)
    }

    /// Wrap an already-initialized board and ant; both counters start at 0.
    pub fn new(board: Board, ant: Ant) -> (g: Game)
        ensures
            g.board == board,
            g.ant == ant,
            g.age == 0,
            g.black_count == 0,
    {
        Game { board, ant, age: 0, black_count: 0 }
    }

    /// The candidate cell one ahead of `ant`, if it lies on the board.
    pub fn next_cell_pos(&self, ant: &Ant) -> (r: Option<Pos>)
        requires
            in_bounds(ant.pos.0 as int, ant.pos.1 as int),
        ensures
            ({
                let np = next_pos_of(ant.direction, (ant.pos.0 as int, ant.pos.1 as int));
                &&& r is Some <==> in_bounds(np.0, np.1)
                &&& (r matches Some(p) ==> p.0 as int == np.0 && p.1 as int == np.1)
            }),
    {
        let new_pos: Pos = match ant.direction {
            Direction::Up => (ant.pos.0, ant.pos.1 - 1),
            Direction::Down => (ant.pos.0, ant.pos.1 + 1),
            Direction::Right => (ant.pos.0 + 1, ant.pos.1),
            Direction::Left => (ant.pos.0 - 1, ant.pos.1),
        };
        if self.board.inbound(&new_pos) {
            Some(new_pos)
        } else {
            None
        }
    }

    /// One step of the simulation. The age counts the attempt first; then,
    /// if the candidate cell lies off the board, nothing else changes and
    /// the step reports `None`. Otherwise the ant moves onto the cell,
    /// turns by the color found there, the cell is flipped, and the black
    /// counter follows.
    pub fn step(&mut self) -> (r: Option<()>)
        requires
            old(self).wf(),
            old(self).age < u64::MAX,
        ensures
            final(self).wf(),
            can_step(old(self)@) ==> r is Some && final(self)@ == step_view(old(self)@),
            !can_step(old(self)@) ==> r is None && final(self)@ == halt_view(old(self)@),
    {
        self.age = self.age + 1;
        let next = self.next_cell_pos(&self.ant);
        match next {
            None => None,
            Some(next_pos) => {
                let x = next_pos.0;
                let y = next_pos.1;
                let next_color = self.board.get_color(&next_pos);
                self.ant.pos = next_pos;
                proof {
                    lemma_black_total_bound(self.board@);
                    lemma_black_at(self.board@, x as int, y as int);
                    lemma_black_set_update(
                        self.board@,
                        x as int,
                        y as int,
                        flip(next_color),
                    );
                }
                match next_color {
                    Color::White => {
                        self.ant.rotate_cw();
                        self.board.set_color(&next_pos, Color::Black);
                        self.black_count = self.black_count + 1;
                    },
                    Color::Black => {
                        self.ant.rotate_ccw();
                        self.board.set_color(&next_pos, Color::White);
                        self.black_count = self.black_count - 1;
                    },
                }
                Some(())
            },
        }
    }

    /// Run up to `step_limit` steps, stopping at the first failed attempt
    /// without consuming the rest of the budget. Reports `Some` exactly
    /// when the whole budget was completed.
    pub fn play(&mut self, step_limit: u64) -> (r: Option<()>)
        requires
            old(self).wf(),
            old(self).age + step_limit <= u64::MAX,
        ensures
            final(self).wf(),
            final(self)@ == run_view(old(self)@, step_limit as nat),
            r is Some <==> completes(old(self)@, step_limit as nat),
    {
        let mut i: u64 = 0;
        while i < step_limit
            invariant
                i <= step_limit,
                self.wf(),
                self.age + (step_limit - i) <= u64::MAX,
                run_view(old(self)@, step_limit as nat) == run_view(
                    self@,
                    (step_limit - i) as nat,
                ),
                completes(old(self)@, step_limit as nat) == completes(
                    self@,
                    (step_limit - i) as nat,
                ),
            decreases step_limit - i,
        {
            match self.step() {
                Some(_) => {
                    i = i + 1;
                },
                None => {
                    return None;
                },
            }
        }
        Some(())
    }
}

} // verus!
