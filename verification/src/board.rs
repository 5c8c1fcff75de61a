//! The driving surface: a board of independent matches, advanced one phase
//! each per tick, and the result tally that reports once every match has
//! halted.

use vstd::prelude::*;
use crate::engine::{advance, step_rel};
use crate::model::{
    dummy_deck, is_initial, wf, Game, GamePhase, Match, MatchView, PlayArea, Side,
    SQRT_NUMBER_OF_GAMES,
};
use crate::rng::{fork_rng, global_rng_from_seed};

verus! {

/// How many of the matches ended with `s` recorded as the outcome.
pub open spec fn count_wins(board: Seq<MatchView>, s: Side) -> int
    decreases board.len(),
{
    if board.len() == 0 {
        0
    } else {
        count_wins(board.drop_last(), s) + if board.last().game.side == s {
            1int
        } else {
            0int
        }
    }
}

/// Every match ends one way: once all matches have halted, the Player
/// wins, Enemy wins and draws together account for every match exactly
/// once.
pub proof fn lemma_tally_total(board: Seq<MatchView>)
    ensures
        count_wins(board, Side::Player) + count_wins(board, Side::Enemy) + count_wins(
            board,
            Side::Draw,
        ) == board.len(),
    decreases board.len(),
{
    if board.len() > 0 {
        lemma_tally_total(board.drop_last());
        match board.last().game.side {
            Side::Player => {},
            Side::Enemy => {},
            Side::Draw => {},
        }
    }
}

/// A board of independent matches, each advanced by one phase per tick.
/// Its view is the sequence of the matches' views; every match on a board
/// is well formed at all times.
pub struct Board {
    matches: Vec<Match>,
}

impl View for Board {
    type V = Seq<MatchView>;

    closed spec fn view(&self) -> Seq<MatchView> {
        self.matches@.map_values(|m: Match| m@)
    }
}

impl Board {
    #[verifier::type_invariant]
    spec fn inv(self) -> bool {
        forall|i: int| 0 <= i < self@.len() ==> wf(#[trigger] self@[i])
    }

    /// A fresh board of `n` matches with board positions `0 .. n`, every
    /// side's generator seeded from a process-level generator built from
    /// `seed`.
    pub fn new(n: usize, seed: u64) -> (b: Board)
        requires
            n <= i32::MAX,
        ensures
            b@.len() == n as int,
            forall|i: int| 0 <= i < n as int ==> is_initial(#[trigger] b@[i], i),
    {
        let mut global = global_rng_from_seed(seed);
        let mut matches: Vec<Match> = Vec::new();
        let mut id: usize = 0;
        while id < n
            invariant
                id <= n,
                n <= i32::MAX,
                matches@.len() == id as int,
                forall|i: int|
                    0 <= i < id as int ==> is_initial((#[trigger] matches@[i])@, i) && wf(
                        matches@[i]@,
                    ),
            decreases n - id,
        {
            let m = Match {
                game: Game {
                    id: id as i32,
                    turn: GamePhase::Play,
                    side: Side::Player,
                    turn_count: 0,
                },
                player_deck: dummy_deck(),
                enemy_deck: dummy_deck(),
                player_area: PlayArea::new(),
                enemy_area: PlayArea::new(),
                player_rng: fork_rng(&mut global),
                enemy_rng: fork_rng(&mut global),
            };
            proof {
                crate::model::lemma_initial_wf(m@, id as int);
            }
            matches.push(m);
            id = id + 1;
        }
        Board { matches }
    }

    /// How many matches the board holds.
    pub fn len(&self) -> (n: usize)
        ensures
            n as int == self@.len(),
    {
        self.matches.len()
    }

    /// Read one match.
    pub fn get(&self, i: usize) -> (m: &Match)
        requires
            i < self@.len(),
        ensures
            m@ == self@[i as int],
    {
        &self.matches[i]
    }

    /// One tick: advance every match by one phase, in board order. Each
    /// match takes one legal simulation step; halted matches are left
    /// untouched.
    pub fn tick(&mut self)
        ensures
            final(self)@.len() == old(self)@.len(),
            forall|i: int|
                0 <= i < old(self)@.len() ==> step_rel(old(self)@[i], #[trigger] final(self)@[i]),
    {
        proof {
            use_type_invariant(&*self);
        }
        let ghost pre = self@;
        let mut ms: Vec<Match> = Vec::new();
        core::mem::swap(&mut ms, &mut self.matches);
        proof {
            assert(forall|j: int|
                0 <= j < pre.len() ==> pre[j] == (#[trigger] ms@[j])@);
        }
        let n = ms.len();
        let mut i: usize = 0;
        while i < n
            invariant
                i <= n,
                n as int == ms@.len(),
                pre.len() == n as int,
                forall|j: int| 0 <= j < n as int ==> wf((#[trigger] ms@[j])@),
                forall|j: int| 0 <= j < i as int ==> step_rel(pre[j], (#[trigger] ms@[j])@),
                forall|j: int| i as int <= j < n as int ==> (#[trigger] ms@[j])@ == pre[j],
            decreases n - i,
        {
            advance(&mut ms[i]);
            i = i + 1;
        }
        core::mem::swap(&mut ms, &mut self.matches);
        proof {
            assert(forall|j: int|
                0 <= j < self@.len() ==> self@[j] == (#[trigger] self.matches@[j])@);
        }
    }

    /// The result tally: `None` while any match is still running; once
    /// every match has halted, the counts of Player wins, Enemy wins and
    /// draws.
    pub fn tally(&self) -> (r: Option<(usize, usize, usize)>)
        ensures
            r is None <==> exists|i: int|
                0 <= i < self@.len() && !((#[trigger] self@[i]).game.turn is Halt),
            r matches Some(c) ==> c.0 as int == count_wins(self@, Side::Player) && c.1 as int
                == count_wins(self@, Side::Enemy) && c.2 as int == count_wins(self@, Side::Draw),
    {
        let n = self.matches.len();
        let mut i: usize = 0;
        while i < n
            invariant
                i <= n,
                n as int == self@.len(),
                n as int == self.matches@.len(),
                forall|j: int| 0 <= j < i as int ==> (#[trigger] self@[j]).game.turn is Halt,
            decreases n - i,
        {
            proof {
                assert(self@[i as int] == self.matches@[i as int]@);
            }
            match self.matches[i].game.turn {
                GamePhase::Halt => {},
                _ => {
                    return None;
                },
            }
            i = i + 1;
        }
        let mut player: usize = 0;
        let mut enemy: usize = 0;
        let mut draw: usize = 0;
        let mut i: usize = 0;
        while i < n
            invariant
                i <= n,
                n as int == self@.len(),
                n as int == self.matches@.len(),
                player as int == count_wins(self@.subrange(0, i as int), Side::Player),
                enemy as int == count_wins(self@.subrange(0, i as int), Side::Enemy),
                draw as int == count_wins(self@.subrange(0, i as int), Side::Draw),
                player + enemy + draw <= i,
            decreases n - i,
        {
            proof {
                assert(self@[i as int] == self.matches@[i as int]@);
                let prefix = self@.subrange(0, i as int);
                assert(self@.subrange(0, i as int + 1) =~= prefix.push(self@[i as int]));
                assert(prefix.push(self@[i as int]).drop_last() =~= prefix);
            }
            match self.matches[i].game.side {
                Side::Player => {
                    player = player + 1;
                },
                Side::Enemy => {
                    enemy = enemy + 1;
                },
                Side::Draw => {
                    draw = draw + 1;
                },
            }
            i = i + 1;
        }
        proof {
            assert(self@.subrange(0, n as int) =~= self@);
        }
        Some((player, enemy, draw))
    }
}

/// Where a match sits on the presentation grid: column and row of board
/// position `id` on a grid [`SQRT_NUMBER_OF_GAMES`] columns wide.
pub fn grid_position(id: i32) -> (pos: (i32, i32))
    requires
        id >= 0,
    ensures
        pos.0 == id as int % SQRT_NUMBER_OF_GAMES as int,
        pos.1 == id as int / SQRT_NUMBER_OF_GAMES as int,
{
    (id % SQRT_NUMBER_OF_GAMES, id / SQRT_NUMBER_OF_GAMES)
}

} // verus!
