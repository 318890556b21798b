//! The world: the board, the snake, the reward cell, scoring and status.
//!
//! `World` is the engine's whole public surface. A host constructs one, calls
//! `start_game`, feeds direction changes from input events, and calls `step`
//! once per tick; every mutation is proved to implement the transitions of
//! [`crate::model`] and to preserve the world invariant [`wf`].

use vstd::prelude::*;
use vstd::string::StringExecFns;

use crate::geometry::Direction;
use crate::geometry::col_of;
use crate::geometry::lemma_next_cell_in_range;
use crate::geometry::lemma_next_cell_period;
use crate::geometry::lemma_next_cell_wraps;
use crate::geometry::lemma_row_in_range;
use crate::geometry::next_cell_spec;
use crate::model::GameStatus;
use crate::model::WorldModel;
use crate::model::change_dir_model;
use crate::model::grid_ok;
use crate::model::hits_own_body;
use crate::model::shifted_body;
use crate::model::start_model;
use crate::model::step_head;
use crate::model::step_rel;
use crate::model::wf;
use crate::rng::RandomSource;

verus! {

/// One occupied cell of the snake's body, as a flattened board index.
#[derive(Clone, Copy, PartialEq, Eq, Structural, Debug)]
pub struct SnakeCell(pub usize);

/// The cells of a body, as the model sees them.
pub open spec fn body_cells(s: Seq<SnakeCell>) -> Seq<nat> {
    s.map_values(|c: SnakeCell| c.0 as nat)
}

/// Writing one body cell rewrites one cell of the model's view.
proof fn lemma_cells_update(s: Seq<SnakeCell>, i: int, v: SnakeCell)
    requires
        0 <= i < s.len(),
    ensures
        body_cells(s.update(i, v)) =~= body_cells(s).update(i, v.0 as nat),
{
}

/// Appending a body cell appends one cell to the model's view.
proof fn lemma_cells_push(s: Seq<SnakeCell>, v: SnakeCell)
    ensures
        body_cells(s.push(v)) =~= body_cells(s).push(v.0 as nat),
{
    assert forall|j: int| 0 <= j < s.len() + 1 implies body_cells(s.push(v))[j] == body_cells(
        s,
    ).push(v.0 as nat)[j] by {
        if j < s.len() {
            assert(s.push(v)[j] == s[j]);
        }
    }
}

/// The snake: its body, head first, and its heading. Owned and mutated only
/// by the world's tick logic.
struct Snake {
    body: Vec<SnakeCell>,
    direction: Direction,
}

impl Snake {
    /// A snake of `length` cells laid out from `spawn_index` rightwards along
    /// one row, heading down. The world's constructor guarantees the range
    /// stays within one row of the board.
    fn new(spawn_index: usize, length: usize) -> (s: Snake)
        requires
            spawn_index + length <= usize::MAX,
        ensures
            s.body@.len() == length,
            forall|i: int| 0 <= i < length ==> body_cells(s.body@)[i] == spawn_index + i,
            s.direction == Direction::Down,
    {
        let mut body: Vec<SnakeCell> = Vec::new();
        let mut i: usize = 0;
        while i < length
            invariant
                i <= length,
                spawn_index + length <= usize::MAX,
                body@.len() == i,
                forall|j: int| 0 <= j < i ==> body_cells(body@)[j] == spawn_index + j,
            decreases length - i,
        {
            let ghost prev = body@;
            let cell = SnakeCell(spawn_index + i);
            body.push(cell);
            proof {
                lemma_cells_push(prev, cell);
            }
            i = i + 1;
        }
        Snake { body, direction: Direction::Down }
    }
}

/// The world state machine; see the crate documentation for the lifecycle.
pub struct World {
    width: usize,
    size: usize,
    snake: Snake,
    next_cell: Option<SnakeCell>,
    reward_cell: Option<usize>,
    status: Option<GameStatus>,
    points: usize,
}

impl View for World {
    type V = WorldModel;

    closed spec fn view(&self) -> WorldModel {
        WorldModel {
            width: self.width as nat,
            size: self.size as nat,
            body: body_cells(self.snake.body@),
            direction: self.snake.direction,
            next_cell: match self.next_cell {
                Some(c) => Some(c.0 as nat),
                None => None,
            },
            reward: match self.reward_cell {
                Some(r) => Some(r as nat),
                None => None,
            },
            status: self.status,
            points: self.points as nat,
        }
    }
}

impl World {
    /// A fresh world: a `width * width` board, a three-cell snake spawned at
    /// `snake_spawn_idx` along its row, a reward drawn off the snake from the
    /// injected source, no points, and no status until the game is started.
    /// The spawn index must leave room for the three cells within its row.
    pub fn new<R: RandomSource>(width: usize, snake_spawn_idx: usize, rng: &mut R) -> (w: World)
        requires
            1 <= width,
            width * width + width <= usize::MAX,
            snake_spawn_idx < width * width,
            snake_spawn_idx % width + 3 <= width,
        ensures
            wf(w@),
            w@.width == width as nat,
            w@.size == width * width,
            w@.body =~= seq![
                snake_spawn_idx as nat,
                (snake_spawn_idx + 1) as nat,
                (snake_spawn_idx + 2) as nat,
            ],
            w@.direction == Direction::Down,
            w@.next_cell is None,
            w@.reward is Some,
            w@.status is None,
            w@.points == 0,
    {
        proof {
            lemma_spawn_fits(snake_spawn_idx as nat, width as nat);
            lemma_spawn_heading_away(snake_spawn_idx as nat, width as nat);
            assert(3 < width * width) by (nonlinear_arith)
                requires
                    3 <= width,
            ;
        }
        let size = width * width;
        let snake = Snake::new(snake_spawn_idx, 3);
        let reward_cell = Self::gen_reward_cell(size, &snake.body, rng);
        let w = World {
            width,
            size,
            snake,
            next_cell: None,
            reward_cell,
            status: None,
            points: 0,
        };
        proof {
            assert forall|i: int| 0 <= i < w@.body.len() implies w@.body[i] < w@.size by {
                assert(w@.body[i] == snake_spawn_idx + i);
            }
        }
        w
    }

    /// Place the reward by rejection sampling over the full board: draw cells
    /// from the source and reject any that the snake occupies. Retries are
    /// capped at one board's worth of draws; if every draw was rejected, fall
    /// back to the first free cell, which exists because the body covers
    /// fewer cells than the board has.
    fn gen_reward_cell<R: RandomSource>(max: usize, snake_body: &Vec<SnakeCell>, rng: &mut R) -> (r:
        Option<usize>)
        requires
            max >= 1,
            snake_body@.len() < max,
        ensures
            match r {
                Some(c) => c < max && !body_cells(snake_body@).contains(c as nat),
                None => false,
            },
    {
        let mut attempts: usize = 0;
        while attempts < max
            invariant
                max >= 1,
            decreases max - attempts,
        {
            let reward_cell = rng.draw(max);
            if !Self::contains_cell(snake_body, reward_cell) {
                return Some(reward_cell);
            }
            attempts = attempts + 1;
        }
        proof {
            lemma_free_cell_exists(body_cells(snake_body@), max as nat);
        }
        let mut c: usize = 0;
        while Self::contains_cell(snake_body, c)
            invariant
                exists|k: nat| c <= k < max && !body_cells(snake_body@).contains(k),
            decreases max - c,
        {
            c = c + 1;
        }
        Some(c)
    }

    /// Whether `cell` is one of the body's occupied cells.
    fn contains_cell(body: &Vec<SnakeCell>, cell: usize) -> (b: bool)
        ensures
            b == body_cells(body@).contains(cell as nat),
    {
        let mut i: usize = 0;
        let n = body.len();
        while i < n
            invariant
                i <= n,
                n == body@.len(),
                forall|j: int| 0 <= j < i ==> body_cells(body@)[j] != cell as nat,
            decreases n - i,
        {
            if body[i].0 == cell {
                assert(body_cells(body@)[i as int] == cell as nat);
                return true;
            }
            i = i + 1;
        }
        false
    }

    /// The board width.
    pub fn width(&self) -> (w: usize)
        ensures
            w as nat == self@.width,
    {
        self.width
    }

    /// The cell the snake's head occupies.
    pub fn snake_head_idx(&self) -> (idx: usize)
        requires
            self@.body.len() >= 1,
        ensures
            idx as nat == self@.body[0],
    {
        self.snake.body[0].0
    }

    /// Request a turn: compute the candidate next head cell for `direction`;
    /// if it is the snake's own neck — the second body segment — ignore the
    /// request, else record it for the next tick and adopt the heading.
    pub fn change_snake_dir(&mut self, direction: Direction)
        requires
            wf(old(self)@),
        ensures
            wf(final(self)@),
            final(self)@ == change_dir_model(old(self)@, direction),
    {
        let next_cell = self.gen_next_snake_cell(&direction);
        if self.snake.body.len() > 1 && self.snake.body[1].0 == next_cell.0 {
            return;
        }
        self.next_cell = Some(next_cell);
        self.snake.direction = direction;
    }

    /// Rewards consumed so far.
    pub fn get_points(&self) -> (p: usize)
        ensures
            p as nat == self@.points,
    {
        self.points
    }

    /// How many cells the snake occupies.
    pub fn get_snake_length(&self) -> (n: usize)
        ensures
            n as nat == self@.body.len(),
    {
        self.snake.body.len()
    }

    /// The body as a sequence of cell indices, head first, for the host to
    /// render.
    pub fn get_snake_cells(&self) -> (cells: Vec<usize>)
        ensures
            cells@.len() == self@.body.len(),
            forall|i: int| 0 <= i < cells@.len() ==> cells@[i] as nat == self@.body[i],
    {
        let mut cells: Vec<usize> = Vec::new();
        let mut i: usize = 0;
        let n = self.snake.body.len();
        while i < n
            invariant
                i <= n,
                n == self.snake.body@.len(),
                cells@.len() == i,
                forall|j: int| 0 <= j < i ==> cells@[j] as nat == body_cells(self.snake.body@)[j],
            decreases n - i,
        {
            cells.push(self.snake.body[i].0);
            i = i + 1;
        }
        cells
    }

    /// The reward cell, when one is present.
    pub fn get_reward_cell(&self) -> (r: Option<usize>)
        ensures
            match r {
                Some(c) => self@.reward == Some(c as nat),
                None => self@.reward is None,
            },
    {
        self.reward_cell
    }

    /// Begin play: the status becomes `Played`. Idempotent while playing, and
    /// without effect once the game is won or lost — a finished game is not
    /// resurrected.
    pub fn start_game(&mut self)
        requires
            wf(old(self)@),
        ensures
            wf(final(self)@),
            final(self)@ == start_model(old(self)@),
    {
        match self.status {
            Some(GameStatus::Won) | Some(GameStatus::Lost) => {},
            _ => {
                self.status = Some(GameStatus::Played);
            },
        }
    }

    /// The game status: `None` until the game is started.
    pub fn get_games_status(&self) -> (st: Option<GameStatus>)
        ensures
            st == self@.status,
    {
        self.status
    }

    /// The status as display text: "Won", "Lost", "Playing", or "No status".
    pub fn get_games_status_text(&self) -> (t: String)
        ensures
            self@.status == Some(GameStatus::Won) ==> t@ == "Won"@,
            self@.status == Some(GameStatus::Lost) ==> t@ == "Lost"@,
            self@.status == Some(GameStatus::Played) ==> t@ == "Playing"@,
            self@.status is None ==> t@ == "No status"@,
    {
        match self.status {
            Some(GameStatus::Won) => String::from_str("Won"),
            Some(GameStatus::Lost) => String::from_str("Lost"),
            Some(GameStatus::Played) => String::from_str("Playing"),
            None => String::from_str("No status"),
        }
    }

    /// One tick: a no-op unless playing; otherwise shift the body behind the
    /// new head — the pending cell from a direction change if one exists,
    /// else one move along the heading — then lose on self-collision, or
    /// consume the reward (grow, score, and respawn it off the snake; or win
    /// if the snake already fills the board), or just move on.
    pub fn step<R: RandomSource>(&mut self, rng: &mut R)
        requires
            wf(old(self)@),
        ensures
            wf(final(self)@),
            step_rel(old(self)@, final(self)@),
    {
        let playing = match self.status {
            Some(GameStatus::Played) => true,
            _ => false,
        };
        if !playing {
            return;
        }
        let ghost pre = self@;
        let len = self.snake.body.len();

        // Shift the body tail-to-head, so each segment is read before it is
        // overwritten: every segment takes its predecessor's cell.
        let mut i: usize = len - 1;
        while i >= 1
            invariant
                self.snake.body@.len() == len,
                len == pre.body.len(),
                1 <= len,
                i < len,
                forall|j: int| i < j < len ==> self@.body[j] == pre.body[j - 1],
                forall|j: int| 0 <= j <= i ==> self@.body[j] == pre.body[j],
                self@.width == pre.width,
                self@.size == pre.size,
                self@.direction == pre.direction,
                self@.next_cell == pre.next_cell,
                self@.reward == pre.reward,
                self@.status == pre.status,
                self@.points == pre.points,
            decreases i,
        {
            let v = self.snake.body[i - 1];
            let ghost prev = self.snake.body@;
            self.snake.body[i] = v;
            proof {
                lemma_cells_update(prev, i as int, v);
                assert(body_cells(prev)[i - 1] == prev[i - 1].0 as nat);
                assert(v.0 as nat == pre.body[i - 1]);
                assert forall|j: int| i - 1 < j < len implies self@.body[j] == pre.body[j - 1] by {
                    if j != i {
                        assert(body_cells(prev)[j] == pre.body[j - 1]);
                    }
                }
            }
            i = i - 1;
        }

        proof {
            assert(self@.body[0] == pre.body[0]);
            assert(pre.body[0] < pre.size);
        }
        // The new head: consume the pending cell, else move along the heading.
        let head_cell = match self.next_cell {
            Some(c) => {
                self.next_cell = None;
                c
            },
            None => {
                let d = self.snake.direction;
                self.gen_next_snake_cell(&d)
            },
        };
        let ghost prehead = self.snake.body@;
        self.snake.body[0] = head_cell;
        let head_idx = head_cell.0;
        proof {
            lemma_cells_update(prehead, 0, head_cell);
            assert(head_idx as nat == next_cell_spec(pre.body[0], pre.width, pre.direction));
            assert(head_idx as nat == step_head(pre));
            assert(head_idx < pre.size) by {
                lemma_next_cell_in_range(pre.body[0], pre.width, pre.direction);
            }
            lemma_next_cell_period(pre.body[0], pre.width, pre.direction);
            assert(self@.body =~= shifted_body(pre)) by {
                assert(forall|j: int|
                    1 <= j < len ==> self@.body[j] == pre.body.take(len - 1)[j - 1]);
            }
            assert(self@.body[1] == pre.body[0]);
        }

        // Self-collision: the new head on any other segment loses the game.
        let mut collided = false;
        let mut j: usize = 1;
        while j < len
            invariant
                1 <= j <= len,
                self.snake.body@.len() == len,
                len == pre.body.len(),
                head_idx as nat == step_head(pre),
                self@.body == shifted_body(pre),
                collided <==> exists|k: int| 1 <= k < j && self@.body[k] == head_idx as nat,
            decreases len - j,
        {
            proof {
                assert(self@.body[j as int] == self.snake.body@[j as int].0 as nat);
            }
            if self.snake.body[j].0 == head_idx {
                collided = true;
            }
            j = j + 1;
        }
        proof {
            lemma_collision_scan(pre, collided);
        }
        if collided {
            self.status = Some(GameStatus::Lost);
            proof {
                lemma_moved_body_wf(pre);
            }
            return;
        }

        // Reward: consume it and grow, or win on a full board.
        let eats = match self.reward_cell {
            Some(r) => r == head_idx,
            None => false,
        };
        if eats {
            if len < self.size {
                proof {
                    lemma_moved_body_wf(pre);
                }
                self.points = self.points + 1;
                let fresh = Self::gen_reward_cell(self.size, &self.snake.body, rng);
                self.reward_cell = fresh;
                let ghost grown = self.snake.body@;
                self.snake.body.push(head_cell);
                proof {
                    lemma_cells_push(grown, head_cell);
                    assert(self@.body =~= shifted_body(pre).push(step_head(pre)));
                    lemma_grown_body_wf(pre, self@);
                }
            } else {
                self.reward_cell = None;
                self.status = Some(GameStatus::Won);
                proof {
                    lemma_moved_body_wf(pre);
                }
            }
        } else {
            proof {
                lemma_moved_body_wf(pre);
                assert(match pre.reward {
                    Some(r) => !shifted_body(pre).contains(r),
                    None => true,
                }) by {
                    lemma_reward_off_moved_body(pre);
                }
            }
        }
    }

    /// The cell one move from the current head in `direction`, under the wrap
    /// rule of [`next_cell_spec`].
    fn gen_next_snake_cell(&self, direction: &Direction) -> (c: SnakeCell)
        requires
            grid_ok(self@),
            self@.body.len() >= 1,
            self@.body[0] < self@.size,
        ensures
            c.0 as nat == next_cell_spec(self@.body[0], self@.width, *direction),
            c.0 < self@.size,
    {
        let snake_idx = self.snake_head_idx();
        let row = snake_idx / self.width;
        proof {
            lemma_row_in_range(snake_idx as nat, self@.width);
            lemma_next_cell_in_range(self@.body[0], self@.width, *direction);
            assert(row * self.width + self.width <= self.size) by (nonlinear_arith)
                requires
                    row + 1 <= self.width,
                    self.size == self.width * self.width,
            ;
        }
        match direction {
            Direction::Right => SnakeCell(row * self.width + (snake_idx + 1) % self.width),
            Direction::Left => SnakeCell(
                row * self.width + (snake_idx + self.width - 1) % self.width,
            ),
            Direction::Up => {
                let c = if snake_idx >= self.width {
                    snake_idx - self.width
                } else {
                    snake_idx + (self.size - self.width)
                };
                proof {
                    lemma_wrap_mod(snake_idx as nat, self@.width, c as nat, true);
                }
                SnakeCell(c)
            },
            Direction::Down => {
                let t = snake_idx + self.width;
                let c = if t >= self.size {
                    t - self.size
                } else {
                    t
                };
                proof {
                    lemma_wrap_mod(snake_idx as nat, self@.width, c as nat, false);
                }
                SnakeCell(c)
            },
        }
    }
}

/// A spawn that leaves room for three cells in its row stays on the board
/// with two cells to its right.
proof fn lemma_spawn_fits(spawn: nat, width: nat)
    requires
        1 <= width,
        spawn < width * width,
        spawn % width + 3 <= width,
    ensures
        spawn + 2 < width * width,
        3 <= width,
{
    let row = spawn / width;
    vstd::arithmetic::div_mod::lemma_fundamental_div_mod(spawn as int, width as int);
    lemma_row_in_range(spawn, width);
    assert(spawn + 2 < width * width) by (nonlinear_arith)
        requires
            spawn == width * row + spawn % width,
            spawn % width + 3 <= width,
            row + 1 <= width,
    ;
    vstd::arithmetic::div_mod::lemma_mod_bound(spawn as int, width as int);
}

/// A fresh snake's downward heading does not target its neck: moving down
/// keeps the column, while the neck sits one column to the head's right.
proof fn lemma_spawn_heading_away(spawn: nat, width: nat)
    requires
        1 <= width,
        spawn < width * width,
        spawn % width + 3 <= width,
    ensures
        next_cell_spec(spawn, width, Direction::Down) != spawn + 1,
{
    let row = spawn / width;
    let col = spawn % width;
    lemma_next_cell_wraps(spawn, width, Direction::Down);
    vstd::arithmetic::div_mod::lemma_fundamental_div_mod(spawn as int, width as int);
    assert(spawn + 1 == row * (width as int) + (col + 1));
    vstd::arithmetic::div_mod::lemma_fundamental_div_mod_converse(
        (spawn + 1) as int,
        width as int,
        row as int,
        (col + 1) as int,
    );
    assert(col_of((spawn + 1) as nat, width) == col + 1);
}

/// The branch-free wrap arithmetic of a vertical move agrees with the modular
/// form of `next_cell_spec`.
proof fn lemma_wrap_mod(head: nat, width: nat, c: nat, up: bool)
    requires
        3 <= width,
        head < width * width,
        up ==> c == if head >= width {
            (head - width) as nat
        } else {
            (head + width * width - width) as nat
        },
        !up ==> c == if head + width >= width * width {
            (head + width - width * width) as nat
        } else {
            (head + width) as nat
        },
    ensures
        up ==> c == next_cell_spec(head, width, Direction::Up),
        !up ==> c == next_cell_spec(head, width, Direction::Down),
{
    let size = width * width;
    assert(width < size) by (nonlinear_arith)
        requires
            3 <= width,
            size == width * width,
    ;
    if up {
        if head >= width {
            assert(head + size - width == size * 1 + (head - width));
            vstd::arithmetic::div_mod::lemma_mod_multiples_vanish(
                1,
                (head - width) as int,
                size as int,
            );
            vstd::arithmetic::div_mod::lemma_small_mod((head - width) as nat, size);
        } else {
            vstd::arithmetic::div_mod::lemma_small_mod((head + size - width) as nat, size);
        }
    } else {
        if head + width >= size {
            assert(head + width == size * 1 + (head + width - size));
            vstd::arithmetic::div_mod::lemma_mod_multiples_vanish(
                1,
                (head + width - size) as int,
                size as int,
            );
            vstd::arithmetic::div_mod::lemma_small_mod((head + width - size) as nat, size);
        } else {
            vstd::arithmetic::div_mod::lemma_small_mod((head + width) as nat, size);
        }
    }
}

/// The set of cell indices below `max` has exactly `max` elements.
proof fn lemma_nat_range_len(max: nat)
    ensures
        Set::new(|c: nat| c < max).finite(),
        Set::new(|c: nat| c < max).len() == max,
    decreases max,
{
    broadcast use vstd::set::group_set_axioms;

    if max == 0 {
        assert(Set::new(|c: nat| c < max) =~= Set::empty());
    } else {
        let below = (max - 1) as nat;
        lemma_nat_range_len(below);
        assert(Set::new(|c: nat| c < max) =~= Set::new(|c: nat| c < below).insert(below));
    }
}

/// Pigeonhole: a sequence shorter than `max` cannot contain every cell index
/// below `max`, so some cell below `max` is free of it.
proof fn lemma_free_cell_exists(s: Seq<nat>, max: nat)
    requires
        s.len() < max,
    ensures
        exists|k: nat| k < max && !s.contains(k),
{
    broadcast use vstd::seq_lib::seq_to_set_is_finite;

    if forall|k: nat| k < max ==> s.contains(k) {
        let range = Set::new(|c: nat| c < max);
        lemma_nat_range_len(max);
        s.lemma_cardinality_of_set();
        assert(range.subset_of(s.to_set()));
        vstd::set_lib::lemma_len_subset(range, s.to_set());
    }
}

/// The collision scan over the shifted body finds the head exactly when the
/// model says the head hits the body.
proof fn lemma_collision_scan(pre: WorldModel, collided: bool)
    requires
        pre.body.len() >= 1,
        collided <==> exists|k: int|
            1 <= k < pre.body.len() && shifted_body(pre)[k] == step_head(pre),
    ensures
        collided <==> hits_own_body(pre),
{
    let len = pre.body.len() as int;
    let head = step_head(pre);
    let tail = pre.body.take(len - 1);
    if collided {
        let k = choose|k: int| 1 <= k < len && shifted_body(pre)[k] == head;
        assert(tail[k - 1] == head);
        assert(tail.contains(head));
    }
    if hits_own_body(pre) {
        let t = choose|t: int| 0 <= t < tail.len() && tail[t] == head;
        assert(shifted_body(pre)[t + 1] == head);
    }
}

/// The shifted body of a well-formed playing world is itself well-formed
/// board contents: on the board, of the same length, and — when the reward is
/// not the new head — still clear of the reward.
proof fn lemma_moved_body_wf(pre: WorldModel)
    requires
        wf(pre),
    ensures
        shifted_body(pre).len() == pre.body.len(),
        step_head(pre) < pre.size ==> forall|i: int|
            0 <= i < shifted_body(pre).len() ==> shifted_body(pre)[i] < pre.size,
{
    let moved = shifted_body(pre);
    let len = pre.body.len() as int;
    if step_head(pre) < pre.size {
        assert forall|i: int| 0 <= i < moved.len() implies moved[i] < pre.size by {
            if i >= 1 {
                assert(moved[i] == pre.body[i - 1]);
            }
        }
    }
}

/// When the reward is present and is not the cell the head moves to, the
/// shifted body stays clear of it.
proof fn lemma_reward_off_moved_body(pre: WorldModel)
    requires
        wf(pre),
        pre.reward != Some(step_head(pre)),
    ensures
        match pre.reward {
            Some(r) => !shifted_body(pre).contains(r),
            None => true,
        },
{
    let moved = shifted_body(pre);
    let len = pre.body.len() as int;
    match pre.reward {
        Some(r) => {
            assert forall|i: int| 0 <= i < moved.len() implies moved[i] != r by {
                if i >= 1 {
                    assert(moved[i] == pre.body[i - 1]);
                    assert(!pre.body.contains(r));
                }
            }
            assert(!moved.contains(r));
        },
        None => {},
    }
}

/// A grown body — the shifted body with the consumed head cell appended —
/// stays on the board, and the fresh reward's exclusion over the shifted body
/// extends to it, since the appended cell is the head the shifted body
/// already starts with.
proof fn lemma_grown_body_wf(pre: WorldModel, post: WorldModel)
    requires
        wf(pre),
        step_head(pre) < pre.size,
        post.size == pre.size,
        post.body == shifted_body(pre).push(step_head(pre)),
        match post.reward {
            Some(r) => r < pre.size && !shifted_body(pre).contains(r),
            None => false,
        },
    ensures
        forall|i: int| 0 <= i < post.body.len() ==> post.body[i] < post.size,
        match post.reward {
            Some(r) => !post.body.contains(r),
            None => false,
        },
{
    let moved = shifted_body(pre);
    let len = pre.body.len() as int;
    lemma_moved_body_wf(pre);
    assert forall|i: int| 0 <= i < post.body.len() implies post.body[i] < post.size by {
        if i < moved.len() {
            assert(post.body[i] == moved[i]);
        } else {
            assert(post.body[i] == step_head(pre));
        }
    }
    match post.reward {
        Some(r) => {
            assert(moved[0] == step_head(pre));
            assert forall|i: int| 0 <= i < post.body.len() implies post.body[i] != r by {
                if i < moved.len() {
                    assert(moved.contains(moved[i]));
                } else {
                    assert(post.body[i] == moved[0]);
                    assert(moved.contains(moved[0]));
                }
            }
            assert(!post.body.contains(r));
        },
        None => {},
    }
}

} // verus!
