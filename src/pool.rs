use vstd::prelude::*;

verus! {

/// The bookkeeping of a pool of workers that play a tournament's games in
/// order, at most `concurrency` at a time.
#[derive(Clone, Copy, Debug, PartialEq, Eq, Structural)]
pub struct Pool {
    pub concurrency: usize,
    pub total_games: u64,
    pub next_game: u64,
    pub active: usize,
    pub completed: u64,
}

impl Pool {
    pub open spec fn wf(&self) -> bool {
        &&& self.concurrency >= 1
        &&& self.active <= self.concurrency
        &&& self.next_game <= self.total_games
        &&& self.next_game == self.completed + self.active
    }

    pub fn new(concurrency: usize, total_games: u64) -> (r: Pool)
        requires
            concurrency >= 1,
        ensures
            r.wf(),
            r.concurrency == concurrency,
            r.total_games == total_games,
            r.next_game == 0,
            r.active == 0,
            r.completed == 0,
    {
        Pool { concurrency, total_games, next_game: 0, active: 0, completed: 0 }
    }

    /// Hands the next game to a free worker: `None` where every worker is
    /// busy or no game is left to start.
    pub fn try_start(&mut self) -> (r: Option<u64>)
        requires
            old(self).wf(),
        ensures
            final(self).wf(),
            r is None <==> old(self).active == old(self).concurrency || old(self).next_game
                == old(self).total_games,
            r is None ==> *final(self) == *old(self),
            r is Some ==> r->0 == old(self).next_game,
            r is Some ==> *final(self) == (Pool {
                next_game: (old(self).next_game + 1) as u64,
                active: (old(self).active + 1) as usize,
                ..*old(self)
            }),
    {
        if self.active == self.concurrency || self.next_game == self.total_games {
            return None;
        }
        let g = self.next_game;
        self.next_game = self.next_game + 1;
        self.active = self.active + 1;
        Some(g)
    }

    /// Books a game that a worker finished.
    pub fn finish(&mut self)
        requires
            old(self).wf(),
            old(self).active > 0,
        ensures
            final(self).wf(),
            *final(self) == (Pool {
                active: (old(self).active - 1) as usize,
                completed: (old(self).completed + 1) as u64,
                ..*old(self)
            }),
    {
        self.active = self.active - 1;
        self.completed = self.completed + 1;
    }

    /// Whether every game was played.
    pub fn is_done(&self) -> (r: bool)
        requires
            self.wf(),
        ensures
            r == (self.completed == self.total_games),
            r ==> self.active == 0,
    {
        self.completed == self.total_games
    }
}

/// Whatever a pool goes through, no more than `concurrency` games run at once,
/// and once it is done it has played each of its games exactly once.
pub proof fn lemma_pool_bound(p: Pool)
    requires
        p.wf(),
    ensures
        p.active <= p.concurrency,
        p.completed + p.active <= p.total_games,
        p.completed == p.total_games ==> p.active == 0 && p.next_game == p.total_games,
{
}

} // verus!
