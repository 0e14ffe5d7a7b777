use vstd::prelude::*;
use crate::config::minimatches_for;

verus! {

/// Which opening a game starts from and which of the two engines (0 or 1)
/// plays each colour.
#[derive(Clone, Copy, Debug, PartialEq, Eq, Structural)]
pub struct GameAssignment {
    pub minimatch: u64,
    pub opening_index: usize,
    pub white_engine: usize,
    pub black_engine: usize,
}

/// Game `g` belongs to minimatch `g / 2`, which plays opening `(g / 2) mod n`;
/// engine 0 has White in the first game of the pair and Black in the second.
pub open spec fn assignment_of(game: nat, num_openings: nat) -> GameAssignment
    recommends
        num_openings > 0,
{
    GameAssignment {
        minimatch: (game / 2) as u64,
        opening_index: ((game / 2) % num_openings) as usize,
        white_engine: (game % 2) as usize,
        black_engine: (1 - game % 2) as usize,
    }
}

/// The assignment of game `game` among `num_openings` openings.
pub fn game_assignment(game: u64, num_openings: usize) -> (r: GameAssignment)
    requires
        num_openings > 0,
    ensures
        r == assignment_of(game as nat, num_openings as nat),
{
    let m = game / 2;
    GameAssignment {
        minimatch: m,
        opening_index: (m % (num_openings as u64)) as usize,
        white_engine: (game % 2) as usize,
        black_engine: (1 - game % 2) as usize,
    }
}

/// Every game of a tournament of `games` games, in order.
pub fn schedule_games(games: u64, num_openings: usize) -> (r: Vec<GameAssignment>)
    requires
        num_openings > 0,
        games <= usize::MAX,
    ensures
        r@.len() == games,
        forall|i: int| 0 <= i < games ==> r@[i] == assignment_of(i as nat, num_openings as nat),
{
    let mut r: Vec<GameAssignment> = Vec::new();
    let mut g: u64 = 0;
    while g < games
        invariant
            num_openings > 0,
            g <= games,
            r@.len() == g,
            forall|i: int| 0 <= i < g ==> r@[i] == assignment_of(i as nat, num_openings as nat),
        decreases games - g,
    {
        r.push(game_assignment(g, num_openings));
        g = g + 1;
    }
    r
}

/// The two games of one minimatch start from the same opening, and each
/// engine has White in one of them and Black in the other.
pub proof fn lemma_minimatch_pair(m: nat, num_openings: nat)
    requires
        num_openings > 0,
    ensures
        ({
            let a = assignment_of(2 * m, num_openings);
            let b = assignment_of(2 * m + 1, num_openings);
            &&& a.minimatch == b.minimatch
            &&& a.opening_index == b.opening_index
            &&& a.white_engine == b.black_engine
            &&& a.black_engine == b.white_engine
            &&& a.white_engine != a.black_engine
        }),
{
    assert((2 * m) / 2 == m);
    assert((2 * m + 1) / 2 == m);
    assert((2 * m) % 2 == 0);
    assert((2 * m + 1) % 2 == 1);
}

/// A tournament of `games` games fills its minimatches: twice their number,
/// less one only where the count asked for is odd.
pub proof fn lemma_game_count(games: nat)
    ensures
        games <= 2 * minimatches_for(games),
        games % 2 == 0 ==> games == 2 * minimatches_for(games),
        games % 2 == 1 ==> games + 1 == 2 * minimatches_for(games),
{
}

/// The games of a schedule fall into exactly the settled number of
/// minimatches: each game's minimatch is below it, and the last game is in
/// the last minimatch, which is full unless the count asked for is odd.
pub proof fn lemma_schedule_minimatches(games: nat, num_openings: nat)
    requires
        num_openings > 0,
        0 < games <= u64::MAX,
    ensures
        forall|g: nat| g < games ==> #[trigger] assignment_of(g, num_openings).minimatch
            < minimatches_for(games),
        assignment_of((games - 1) as nat, num_openings).minimatch + 1 == minimatches_for(games),
        games == 2 * minimatches_for(games) || games + 1 == 2 * minimatches_for(games),
{
}

/// How many of the first `games` games engine `e` plays as White.
pub open spec fn white_games(games: nat, e: nat) -> nat
    decreases games,
{
    if games == 0 {
        0
    } else {
        white_games((games - 1) as nat, e) + if assignment_of(
            (games - 1) as nat,
            1,
        ).white_engine == e {
            1nat
        } else {
            0
        }
    }
}

/// Over whole minimatches each of the two engines has White in exactly
/// half of the games.
pub proof fn lemma_colour_balance(minimatches: nat)
    ensures
        white_games(2 * minimatches, 0) == minimatches,
        white_games(2 * minimatches, 1) == minimatches,
    decreases minimatches,
{
    if minimatches > 0 {
        let k = (minimatches - 1) as nat;
        lemma_colour_balance(k);
        assert((2 * k) % 2 == 0);
        assert((2 * k + 1) % 2 == 1);
        assert(assignment_of(2 * k, 1).white_engine == 0);
        assert(assignment_of(2 * k + 1, 1).white_engine == 1);
        assert(white_games(2 * k + 1, 0) == white_games(2 * k, 0) + 1);
        assert(white_games(2 * k + 1, 1) == white_games(2 * k, 1));
        assert(white_games(2 * k + 2, 0) == white_games(2 * k + 1, 0));
        assert(white_games(2 * k + 2, 1) == white_games(2 * k + 1, 1) + 1);
        assert(2 * minimatches == 2 * k + 2);
    }
}

} // verus!
