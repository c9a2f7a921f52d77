use vstd::prelude::*;

verus! {

/// The two team counters of a game.
#[derive(Clone, Copy, Debug, PartialEq, Eq, Structural)]
pub struct Score {
    pub team1: u32,
    pub team2: u32,
}

/// One immutable snapshot of the published state.
#[derive(Clone, Copy, Debug, PartialEq, Eq, Structural)]
pub struct ScoreData {
    pub score: Score,
}

/// A draw below this bound (out of the whole `u32` range) scores a point:
/// 1288490189 / 2^32 is three tenths, to nine decimal places.
pub const SCORING_DRAW_BOUND: u32 = 1288490189;

/// A counter plus one, held at `u32::MAX` once it gets there.
pub open spec fn bumped(n: u32) -> u32 {
    if n < u32::MAX {
        (n + 1) as u32
    } else {
        n
    }
}

/// A counter after one draw: it gains a point when the draw is below the bound.
pub open spec fn counter_after(n: u32, draw: u32) -> u32 {
    if draw < SCORING_DRAW_BOUND {
        bumped(n)
    } else {
        n
    }
}

/// The score that follows `prev` for the two draws.
pub open spec fn score_after(prev: ScoreData, draw1: u32, draw2: u32) -> ScoreData {
    ScoreData {
        score: Score {
            team1: counter_after(prev.score.team1, draw1),
            team2: counter_after(prev.score.team2, draw2),
        },
    }
}

impl ScoreData {
    /// A score of the two counters.
    pub fn new(team1: u32, team2: u32) -> (r: ScoreData)
        ensures
            r.score.team1 == team1,
            r.score.team2 == team2,
    {
        ScoreData { score: Score { team1, team2 } }
    }

    /// The score at kickoff.
    pub fn initial() -> (r: ScoreData)
        ensures
            r.score.team1 == 0,
            r.score.team2 == 0,
    {
        ScoreData::new(0, 0)
    }
}

fn counter_step(n: u32, draw: u32) -> (r: u32)
    ensures
        r == counter_after(n, draw),
{
    if draw < SCORING_DRAW_BOUND {
        n.saturating_add(1)
    } else {
        n
    }
}

/// The state transition for given draws: each team independently gains a
/// point when its draw is below `SCORING_DRAW_BOUND`; a counter that has
/// reached `u32::MAX` stays there.
pub fn advance(prev: &ScoreData, draw1: u32, draw2: u32) -> (r: ScoreData)
    ensures
        r == score_after(*prev, draw1, draw2),
{
    ScoreData::new(counter_step(prev.score.team1, draw1), counter_step(prev.score.team2, draw2))
}

/// Relies on `rand::random::<u32>`: a value drawn from the thread-local
/// generator. Nothing is promised of it.
#[verifier::external_body]
pub(crate) fn draw() -> u32 {
    rand::random::<u32>()
}

/// The next score after `prev`, for two fresh random draws: each counter
/// either stays or gains one point.
pub fn next_score(prev: &ScoreData) -> (r: ScoreData)
    ensures
        exists|d1: u32, d2: u32| r == score_after(*prev, d1, d2),
{
    let d1 = draw();
    let d2 = draw();
    advance(prev, d1, d2)
}

} // verus!
