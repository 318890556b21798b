//! Laws of the engine: properties that relate several transitions, stated
//! over the model and proved from the transition definitions alone.

use vstd::prelude::*;

use crate::geometry::Direction;
use crate::model::GameStatus;
use crate::model::WorldModel;
use crate::model::candidate_cell;
use crate::model::change_dir_model;
use crate::model::hits_own_body;
use crate::model::shifted_body;
use crate::model::step_head;
use crate::model::step_rel;
use crate::model::wf;

verus! {

/// No 180-degree reversal is ever applied: after a direction change and the
/// tick that follows it, the head never lands on the cell the second body
/// segment held when the change was requested. A change whose candidate is
/// that segment is ignored, and a well-formed world's own heading never
/// targets it, so the tick's move cannot either.
pub proof fn lemma_no_reversal_applied(
    pre: WorldModel,
    dir: Direction,
    mid: WorldModel,
    post: WorldModel,
)
    requires
        wf(pre),
        pre.status == Some(GameStatus::Played),
        pre.body.len() >= 2,
        mid == change_dir_model(pre, dir),
        step_rel(mid, post),
    ensures
        post.body[0] != pre.body[1],
{
    let neck = pre.body[1];
    if candidate_cell(pre, dir) == neck {
        assert(mid == pre);
        assert(step_head(mid) != neck);
    } else {
        assert(mid.next_cell == Some(candidate_cell(pre, dir)));
        assert(step_head(mid) != neck);
    }
    assert(post.body[0] == shifted_body(mid)[0]);
}

/// Body shift: on a playing tick the head becomes the tick's computed cell,
/// and every other segment of the previous body takes the cell its
/// predecessor held before the tick — whether the tick moves, grows, or
/// loses the game.
pub proof fn lemma_body_shift(pre: WorldModel, post: WorldModel)
    requires
        wf(pre),
        pre.status == Some(GameStatus::Played),
        step_rel(pre, post),
    ensures
        post.body[0] == step_head(pre),
        forall|i: int| 1 <= i < pre.body.len() ==> post.body[i] == pre.body[i - 1],
{
    let moved = shifted_body(pre);
    assert forall|i: int| 1 <= i < pre.body.len() implies post.body[i] == pre.body[i - 1] by {
        assert(moved[i] == pre.body.take(pre.body.len() - 1)[i - 1]);
    }
}

/// Reward invariant: in a well-formed world the reward cell, whenever
/// present, is never a cell the snake occupies. Every constructor and
/// mutation of a world ensures well-formedness, so this holds in every
/// reachable state.
pub proof fn lemma_reward_not_on_snake(m: WorldModel)
    requires
        wf(m),
    ensures
        m.reward matches Some(r) ==> !m.body.contains(r),
{
}

/// Growth: a tick that consumes the reward — the head lands on it without
/// hitting the body — grows the body by exactly one cell and the points by
/// exactly one, unless the snake already fills the board, in which case the
/// game is won and the reward disappears instead, with body and points
/// unchanged.
pub proof fn lemma_growth(pre: WorldModel, post: WorldModel)
    requires
        wf(pre),
        pre.status == Some(GameStatus::Played),
        step_rel(pre, post),
        !hits_own_body(pre),
        pre.reward == Some(step_head(pre)),
    ensures
        pre.body.len() < pre.size ==> post.body.len() == pre.body.len() + 1 && post.points
            == pre.points + 1 && post.status == Some(GameStatus::Played),
        pre.body.len() >= pre.size ==> post.status == Some(GameStatus::Won) && post.reward is None
            && post.points == pre.points && post.body.len() == pre.body.len(),
{
}

/// Terminal invariant: once the game is won or lost, a tick changes nothing —
/// body, points, reward and status all stay as they are.
pub proof fn lemma_terminal_absorbs(pre: WorldModel, post: WorldModel)
    requires
        pre.status == Some(GameStatus::Won) || pre.status == Some(GameStatus::Lost),
        step_rel(pre, post),
    ensures
        post == pre,
{
}

} // verus!
