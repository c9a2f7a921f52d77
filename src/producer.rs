use vstd::prelude::*;
use crate::hub::Hub;
use crate::score::{advance, draw, score_after, ScoreData};

verus! {

/// The single writer: it owns the current score and publishes every new one.
pub struct Producer {
    current: ScoreData,
}

impl Producer {
    pub closed spec fn view(&self) -> ScoreData {
        self.current
    }

    /// A producer at the kickoff score.
    pub fn new() -> (r: Producer)
        ensures
            r@.score.team1 == 0,
            r@.score.team2 == 0,
    {
        Producer { current: ScoreData::initial() }
    }

    /// A producer that resumes from `start`.
    pub fn starting_at(start: ScoreData) -> (r: Producer)
        ensures
            r@ == start,
    {
        Producer { current: start }
    }

    pub fn current(&self) -> (r: ScoreData)
        ensures
            r == self@,
    {
        self.current
    }

    /// One tick for given draws: the score advances and the new score is
    /// published, whether or not anyone is subscribed.
    pub fn tick_with(&mut self, hub: &mut Hub, draw1: u32, draw2: u32)
        requires
            old(hub)@.wf(),
        ensures
            final(self)@ == score_after(old(self)@, draw1, draw2),
            final(hub)@ == old(hub)@.publish(final(self)@),
            final(hub)@.wf(),
    {
        self.current = advance(&self.current, draw1, draw2);
        hub.publish(self.current);
    }

    /// One tick with fresh random draws.
    pub fn tick(&mut self, hub: &mut Hub)
        requires
            old(hub)@.wf(),
        ensures
            exists|d1: u32, d2: u32| final(self)@ == score_after(old(self)@, d1, d2),
            final(hub)@ == old(hub)@.publish(final(self)@),
            final(hub)@.wf(),
    {
        let d1 = draw();
        let d2 = draw();
        self.tick_with(hub, d1, d2);
    }
}

} // verus!
