//! The mathematical model of the world: a ghost mirror of the engine state,
//! its well-formedness invariant, and the transition its tick and direction
//! commands are proved to implement.

use vstd::prelude::*;

use crate::geometry::Direction;
use crate::geometry::next_cell_spec;

verus! {

/// How a game can end, or that it is still running. A world starts with no
/// status at all; `Played` is the running state.
#[derive(Clone, Copy, PartialEq, Eq, Structural, Debug)]
pub enum GameStatus {
    Won,
    Lost,
    Played,
}

/// The abstract state of a world: everything the engine's behaviour is
/// specified over.
pub ghost struct WorldModel {
    /// Board width; the board has `width * width` cells.
    pub width: nat,
    /// Board size, always `width * width`.
    pub size: nat,
    /// Occupied cells, head first; each later segment is the cell its
    /// predecessor held on the previous tick.
    pub body: Seq<nat>,
    /// Current heading.
    pub direction: Direction,
    /// A head cell recorded by a direction change and consumed, in place of a
    /// move along the heading, by the next tick.
    pub next_cell: Option<nat>,
    /// The reward cell, when one is present.
    pub reward: Option<nat>,
    /// `None` until the game is started.
    pub status: Option<GameStatus>,
    /// Rewards consumed so far.
    pub points: nat,
}

/// The board geometry is sound: the width allows a three-cell spawn, the size
/// is the squared width, and one move's worth of arithmetic fits in `usize`.
pub open spec fn grid_ok(m: WorldModel) -> bool {
    &&& 3 <= m.width
    &&& m.size == m.width * m.width
    &&& m.size + m.width <= usize::MAX as nat
}

/// Well-formedness of a world: sound geometry; a body of at least the spawn
/// length that never outgrows the board, every segment on the board; exactly
/// one point per segment grown beyond the spawn length; a reward cell, when
/// present, on the board and never on the snake; a pending head cell, when
/// present, the move the current heading makes from the head — a direction
/// change records both together; and a heading that never targets the neck,
/// since a change that would is ignored and a tick moves the head away.
pub open spec fn wf(m: WorldModel) -> bool {
    &&& grid_ok(m)
    &&& m.body.len() <= m.size
    &&& m.points + 3 == m.body.len()
    &&& forall|i: int| 0 <= i < m.body.len() ==> m.body[i] < m.size
    &&& match m.reward {
        Some(r) => r < m.size && !m.body.contains(r),
        None => true,
    }
    &&& match m.next_cell {
        Some(c) => c == next_cell_spec(m.body[0], m.width, m.direction),
        None => true,
    }
    &&& m.body.len() >= 2 ==> next_cell_spec(m.body[0], m.width, m.direction) != m.body[1]
}

/// The cell a direction change would make the next head: one move from the
/// current head in the requested direction.
pub open spec fn candidate_cell(m: WorldModel, dir: Direction) -> nat {
    next_cell_spec(m.body[0], m.width, dir)
}

/// What a direction change does: if the candidate cell is the snake's second
/// segment — a 180-degree reversal into its own neck — the request is
/// ignored; otherwise the heading turns and the candidate is recorded for the
/// next tick.
pub open spec fn change_dir_model(m: WorldModel, dir: Direction) -> WorldModel {
    let cand = candidate_cell(m, dir);
    if m.body.len() > 1 && m.body[1] == cand {
        m
    } else {
        WorldModel { direction: dir, next_cell: Some(cand), ..m }
    }
}

/// What starting the game does: from a terminal state nothing — a finished
/// game is not resurrected — and otherwise the status becomes `Played`.
pub open spec fn start_model(m: WorldModel) -> WorldModel {
    match m.status {
        Some(GameStatus::Won) | Some(GameStatus::Lost) => m,
        _ => WorldModel { status: Some(GameStatus::Played), ..m },
    }
}

/// The head cell a tick moves to: the pending cell recorded by a direction
/// change if there is one, else one move along the current heading.
pub open spec fn step_head(m: WorldModel) -> nat {
    match m.next_cell {
        Some(c) => c,
        None => next_cell_spec(m.body[0], m.width, m.direction),
    }
}

/// The body after a tick's shift: the new head in front, every other segment
/// holding its predecessor's previous cell, the old tail cell dropped.
pub open spec fn shifted_body(m: WorldModel) -> Seq<nat> {
    seq![step_head(m)] + m.body.take(m.body.len() - 1)
}

/// Whether the tick's new head lands on another segment of the shifted body
/// — the self-collision that loses the game.
pub open spec fn hits_own_body(m: WorldModel) -> bool {
    m.body.take(m.body.len() - 1).contains(step_head(m))
}

/// The tick transition. Unless the status is `Played` nothing changes. On a
/// playing tick the body shifts behind the new head and the pending cell is
/// consumed; then exactly one of three things happens: the head lands on the
/// snake itself and the game is lost with nothing else touched; or it lands
/// on the reward and either the body grows by the head cell, the points grow
/// by one and a fresh reward appears off the snake (board not yet full), or
/// the game is won and the reward disappears (board full); or it lands on a
/// plain cell and points, reward and status stay as they were. The fresh
/// reward is drawn from the injected random source, so the relation pins
/// every field except which free cell it names.
pub open spec fn step_rel(pre: WorldModel, post: WorldModel) -> bool {
    if pre.status != Some(GameStatus::Played) {
        post == pre
    } else {
        let head = step_head(pre);
        let moved = shifted_body(pre);
        &&& post.width == pre.width
        &&& post.size == pre.size
        &&& post.direction == pre.direction
        &&& post.next_cell is None
        &&& if hits_own_body(pre) {
            &&& post.body == moved
            &&& post.status == Some(GameStatus::Lost)
            &&& post.points == pre.points
            &&& post.reward == pre.reward
        } else if pre.reward == Some(head) {
            if pre.body.len() < pre.size {
                &&& post.body == moved.push(head)
                &&& post.status == Some(GameStatus::Played)
                &&& post.points == pre.points + 1
                &&& match post.reward {
                    Some(r) => r < pre.size && !post.body.contains(r),
                    None => false,
                }
            } else {
                &&& post.body == moved
                &&& post.status == Some(GameStatus::Won)
                &&& post.points == pre.points
                &&& post.reward is None
            }
        } else {
            &&& post.body == moved
            &&& post.status == Some(GameStatus::Played)
            &&& post.points == pre.points
            &&& post.reward == pre.reward
        }
    }
}

} // verus!
