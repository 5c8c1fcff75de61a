//! The data a match is made of — cards, decks, play areas and the per-game
//! record — together with the mathematical view of a match and the
//! well-formedness predicate that the simulation preserves.

use vstd::prelude::*;
use bevy_turborand::RngComponent;
use crate::rng::{fork_rng, global_rng_from_seed};

verus! {

/// Width of the square grid on which concurrent matches are laid out.
pub const SQRT_NUMBER_OF_GAMES: i32 = 10;

/// Number of concurrent matches on a standard board.
pub const NUMBER_OF_GAMES: i32 = SQRT_NUMBER_OF_GAMES * SQRT_NUMBER_OF_GAMES;

/// A match whose turn counter passes this bound is forced to a draw.
pub const TURN_LIMIT: usize = 500;

/// A card: deals `damage` to the opposing slot each attack and is destroyed
/// once its `health` drops below zero.
#[derive(Clone, Copy, PartialEq, Eq, Structural, Debug)]
pub struct Card {
    pub damage: i32,
    pub health: i32,
}

/// Which role a value belongs to. `Draw` appears only as the terminal
/// outcome of a match that hit the turn limit.
#[derive(Clone, Copy, PartialEq, Eq, Structural, Debug)]
pub enum Side {
    Player,
    Enemy,
    Draw,
}

/// The step a match is currently at.
#[derive(Clone, Copy, PartialEq, Eq, Structural, Debug)]
pub enum GamePhase {
    Play,
    Attack,
    Halt,
}

/// The per-match record: its board position, current phase, whose turn it
/// is (or, once halted, the winner), and how many turns have completed.
#[derive(Clone, Copy, PartialEq, Eq, Structural, Debug)]
pub struct Game {
    pub id: i32,
    pub turn: GamePhase,
    pub side: Side,
    pub turn_count: usize,
}

/// One side's remaining drawable cards (drawn from the end) and its life
/// total.
pub struct Deck {
    pub cards: Vec<Card>,
    pub health: i32,
}

/// One side's in-play cards. Three slots are stored but only the first two
/// are ever targeted by play or combat; the third is spare capacity kept
/// as allocated.
pub struct PlayArea {
    pub cards: [Option<Card>; 3],
}

/// One independent match: its game record, and the deck, play area and
/// random-number generator of each side.
pub struct Match {
    pub game: Game,
    pub player_deck: Deck,
    pub enemy_deck: Deck,
    pub player_area: PlayArea,
    pub enemy_area: PlayArea,
    pub player_rng: RngComponent,
    pub enemy_rng: RngComponent,
}

/// Mathematical view of a deck.
#[verifier::ext_equal]
pub ghost struct DeckView {
    pub cards: Seq<Card>,
    pub health: int,
}

/// Mathematical view of a match: everything the simulation reads or
/// writes, with the generators left out (nothing is known of their state).
#[verifier::ext_equal]
pub ghost struct MatchView {
    pub game: Game,
    pub player_deck: DeckView,
    pub enemy_deck: DeckView,
    pub player_area: Seq<Option<Card>>,
    pub enemy_area: Seq<Option<Card>>,
}

impl View for Deck {
    type V = DeckView;

    open spec fn view(&self) -> DeckView {
        DeckView { cards: self.cards@, health: self.health as int }
    }
}

impl View for PlayArea {
    type V = Seq<Option<Card>>;

    open spec fn view(&self) -> Seq<Option<Card>> {
        self.cards@
    }
}

impl View for Match {
    type V = MatchView;

    open spec fn view(&self) -> MatchView {
        MatchView {
            game: self.game,
            player_deck: self.player_deck@,
            enemy_deck: self.enemy_deck@,
            player_area: self.player_area@,
            enemy_area: self.enemy_area@,
        }
    }
}

/// A card as the simulation keeps it: damage and health never negative.
pub open spec fn card_ok(c: Card) -> bool {
    c.damage >= 0 && c.health >= 0
}

/// Every card still in the deck is well formed.
pub open spec fn deck_wf(d: DeckView) -> bool {
    forall|i: int| 0 <= i < d.cards.len() ==> card_ok(#[trigger] d.cards[i])
}

/// A play area stores exactly three slots and every card in play is well
/// formed.
pub open spec fn area_wf(a: Seq<Option<Card>>) -> bool {
    &&& a.len() == 3
    &&& forall|i: int| 0 <= i < a.len() ==> ((#[trigger] a[i]) matches Some(c) ==> card_ok(c))
}

/// The invariant every match satisfies between simulation steps: cards are
/// well formed, the turn counter is within its bound, and — while the
/// match is running — both life totals are positive, the counter has not
/// passed the limit, and the active side is Player or Enemy.
pub open spec fn wf(v: MatchView) -> bool {
    &&& deck_wf(v.player_deck)
    &&& deck_wf(v.enemy_deck)
    &&& area_wf(v.player_area)
    &&& area_wf(v.enemy_area)
    &&& v.game.turn_count as int <= TURN_LIMIT as int + 1
    &&& v.game.turn !is Halt ==> v.game.turn_count as int <= TURN_LIMIT as int
    &&& v.game.turn !is Halt ==> v.player_deck.health > 0 && v.enemy_deck.health > 0
    &&& v.game.turn !is Halt ==> v.game.side !is Draw
}

/// The fixed cards every deck starts with.
pub open spec fn starting_cards() -> Seq<Card> {
    seq![
        Card { damage: 3, health: 1 },
        Card { damage: 1, health: 1 },
        Card { damage: 0, health: 5 },
        Card { damage: 2, health: 1 },
    ]
}

/// The deck every side starts with: the fixed cards and a life total of 5.
pub open spec fn starting_deck() -> DeckView {
    DeckView { cards: starting_cards(), health: 5 }
}

/// An empty play area: three open slots.
pub open spec fn empty_area() -> Seq<Option<Card>> {
    seq![None::<Card>, None::<Card>, None::<Card>]
}

/// The state a fresh match with board position `id` is in.
pub open spec fn is_initial(v: MatchView, id: int) -> bool {
    &&& v.game == (Game {
        id: id as i32,
        turn: GamePhase::Play,
        side: Side::Player,
        turn_count: 0,
    })
    &&& v.player_deck == starting_deck()
    &&& v.enemy_deck == starting_deck()
    &&& v.player_area == empty_area()
    &&& v.enemy_area == empty_area()
}

/// A fresh match is well formed.
pub proof fn lemma_initial_wf(v: MatchView, id: int)
    requires
        is_initial(v, id),
    ensures
        wf(v),
{
    assert forall|i: int| 0 <= i < starting_cards().len() implies card_ok(
        #[trigger] starting_cards()[i],
    ) by {
    }
}

/// The deck each side begins with.
pub fn dummy_deck() -> (d: Deck)
    ensures
        d@ == starting_deck(),
{
    let mut cards: Vec<Card> = Vec::new();
    cards.push(Card { damage: 3, health: 1 });
    cards.push(Card { damage: 1, health: 1 });
    cards.push(Card { damage: 0, health: 5 });
    cards.push(Card { damage: 2, health: 1 });
    let d = Deck { cards, health: 5 };
    proof {
        assert(d@.cards =~= starting_cards());
        assert(d@ =~= starting_deck());
    }
    d
}

impl PlayArea {
    /// A play area with all three slots open.
    pub fn new() -> (a: PlayArea)
        ensures
            a@ == empty_area(),
    {
        let a = PlayArea { cards: [None, None, None] };
        proof {
            assert(a@ =~= empty_area());
        }
        a
    }
}

impl Match {
    /// A fresh match at board position `id`, each side's generator seeded
    /// from a process-level generator built from `seed`.
    pub fn new(id: i32, seed: u64) -> (m: Match)
        ensures
            is_initial(m@, id as int),
            wf(m@),
    {
        let mut global = global_rng_from_seed(seed);
        let m = Match {
            game: Game { id, turn: GamePhase::Play, side: Side::Player, turn_count: 0 },
            player_deck: dummy_deck(),
            enemy_deck: dummy_deck(),
            player_area: PlayArea::new(),
            enemy_area: PlayArea::new(),
            player_rng: fork_rng(&mut global),
            enemy_rng: fork_rng(&mut global),
        };
        proof {
            lemma_initial_wf(m@, id as int);
        }
        m
    }
}

} // verus!
