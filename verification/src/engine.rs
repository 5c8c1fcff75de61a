//! The per-match state machine: one call of [`advance`] moves a match
//! through one phase — Play (shuffle, draw, place a card), Attack (resolve
//! the two active slots, then end the turn) or Halt (do nothing).
//!
//! The Attack phase is deterministic and is specified exactly by
//! [`attack_step`]. The Play phase draws a shuffled card and picks an open
//! slot at random, so it is specified by the relation [`plays_to`], which
//! says some card left the deck and was placed in some open slot.
//! [`advance_deterministic`] is the same machine with the randomness
//! pinned — no shuffle, first open slot — and is specified exactly by
//! [`step_det`].

use vstd::prelude::*;
use vstd::seq_lib::group_to_multiset_ensures;
use bevy_turborand::RngComponent;
use crate::model::{
    area_wf, card_ok, deck_wf, wf, Card, Deck, Game, GamePhase, Match, MatchView, DeckView,
    PlayArea, Side, TURN_LIMIT,
};
use crate::rng::shuffle_vec;

verus! {

/// The side that `s` attacks (Draw never attacks; it is mapped
/// arbitrarily so the function is total).
pub open spec fn opp(s: Side) -> Side {
    if s is Player {
        Side::Enemy
    } else {
        Side::Player
    }
}

/// The deck belonging to side `s`.
pub open spec fn deck_of(v: MatchView, s: Side) -> DeckView {
    if s is Player {
        v.player_deck
    } else {
        v.enemy_deck
    }
}

/// The play area belonging to side `s`.
pub open spec fn area_of(v: MatchView, s: Side) -> Seq<Option<Card>> {
    if s is Player {
        v.player_area
    } else {
        v.enemy_area
    }
}

/// `v` with side `o`'s play area and deck health replaced (the defender's
/// state after combat; a defender's deck never loses cards).
pub open spec fn with_defense(v: MatchView, o: Side, area: Seq<Option<Card>>, health: int) -> MatchView {
    if o is Player {
        MatchView {
            game: v.game,
            player_deck: DeckView { cards: v.player_deck.cards, health },
            enemy_deck: v.enemy_deck,
            player_area: area,
            enemy_area: v.enemy_area,
        }
    } else {
        MatchView {
            game: v.game,
            player_deck: v.player_deck,
            enemy_deck: DeckView { cards: v.enemy_deck.cards, health },
            player_area: v.player_area,
            enemy_area: area,
        }
    }
}

/// `v` with its game record replaced.
pub open spec fn with_game(v: MatchView, game: Game) -> MatchView {
    MatchView {
        game,
        player_deck: v.player_deck,
        enemy_deck: v.enemy_deck,
        player_area: v.player_area,
        enemy_area: v.enemy_area,
    }
}

/// Combat in one slot. Given the attacker's card (if any), the defender's
/// card in the same slot (if any) and the defender's life total, yields the
/// defender's card after combat, the defender's life total after combat,
/// and whether the match halts:
/// - no attacking card: nothing happens;
/// - a blocking card loses `damage` health and is destroyed (slot cleared)
///   exactly when the result is negative; the life total is untouched;
/// - an empty defending slot takes the damage on the life total, and the
///   match halts exactly when that total falls to zero or below.
pub open spec fn resolve_slot(att: Option<Card>, def: Option<Card>, dh: int) -> (Option<Card>, int, bool) {
    match att {
        None => (def, dh, false),
        Some(a) => match def {
            Some(d) => if d.health - a.damage >= 0 {
                (Some(Card { damage: d.damage, health: (d.health - a.damage) as i32 }), dh, false)
            } else {
                (None, dh, false)
            },
            None => (None, dh - a.damage, dh - a.damage <= 0),
        },
    }
}

/// Combat over the two active slots, slot 0 fully resolved first; once the
/// match halts nothing further is resolved. Yields the defender's play
/// area, the defender's life total, and whether the match halted.
pub open spec fn resolve_two(att: Seq<Option<Card>>, def: Seq<Option<Card>>, dh: int) -> (Seq<Option<Card>>, int, bool) {
    let r0 = resolve_slot(att[0], def[0], dh);
    let def1 = def.update(0, r0.0);
    if r0.2 {
        (def1, r0.1, true)
    } else {
        let r1 = resolve_slot(att[1], def1[1], r0.1);
        (def1.update(1, r1.0), r1.1, r1.2)
    }
}

/// The Attack phase, exactly: the current side attacks the other over the
/// two active slots; if the defender's life total was exhausted the match
/// halts with the attacker recorded as winner in `side`; otherwise the
/// turn counter advances — past [`TURN_LIMIT`] the match halts as a draw,
/// else the other side gets a Play turn.
pub open spec fn attack_step(v: MatchView) -> MatchView {
    let s = v.game.side;
    let o = opp(s);
    let r = resolve_two(area_of(v, s), area_of(v, o), deck_of(v, o).health);
    let v2 = with_defense(v, o, r.0, r.1);
    if r.2 {
        with_game(v2, Game { id: v.game.id, turn: GamePhase::Halt, side: s, turn_count: v.game.turn_count })
    } else {
        let tc = (v.game.turn_count + 1) as usize;
        if v.game.turn_count + 1 > TURN_LIMIT as int {
            with_game(v2, Game { id: v.game.id, turn: GamePhase::Halt, side: Side::Draw, turn_count: tc })
        } else {
            with_game(v2, Game { id: v.game.id, turn: GamePhase::Play, side: o, turn_count: tc })
        }
    }
}

/// How a drawn card lands in the active side's play area: if either of the
/// two targeted slots is open it is placed in one of them; with both
/// occupied the card is discarded (drawn and lost).
pub open spec fn placed(pre: Seq<Option<Card>>, post: Seq<Option<Card>>, c: Card) -> bool {
    if pre[0] is None || pre[1] is None {
        ||| pre[0] is None && post == pre.update(0, Some(c))
        ||| pre[1] is None && post == pre.update(1, Some(c))
    } else {
        post == pre
    }
}

/// The Play phase, as a relation (the drawn card and the chosen slot are
/// random): the phase moves to Attack with the rest of the game record
/// unchanged, the inactive side is untouched, and the active side either
/// had an empty deck (nothing changes) or lost one card from its deck —
/// some card, since the deck is reshuffled before the draw — which landed
/// as [`placed`] describes.
pub open spec fn plays_to(pre: MatchView, post: MatchView) -> bool {
    let s = pre.game.side;
    let o = opp(s);
    &&& post.game == (Game {
        id: pre.game.id,
        turn: GamePhase::Attack,
        side: pre.game.side,
        turn_count: pre.game.turn_count,
    })
    &&& deck_of(post, o) == deck_of(pre, o)
    &&& area_of(post, o) == area_of(pre, o)
    &&& deck_of(post, s).health == deck_of(pre, s).health
    &&& if deck_of(pre, s).cards.len() == 0 {
        deck_of(post, s).cards == deck_of(pre, s).cards && area_of(post, s) == area_of(pre, s)
    } else {
        &&& deck_of(post, s).cards.len() == deck_of(pre, s).cards.len() - 1
        &&& exists|c: Card|
            {
                &&& #[trigger] deck_of(pre, s).cards.to_multiset().count(c) > 0
                &&& deck_of(post, s).cards.to_multiset() == deck_of(
                    pre,
                    s,
                ).cards.to_multiset().remove(c)
                &&& placed(area_of(pre, s), area_of(post, s), c)
            }
    }
}

/// One simulation step, whatever the phase: a halted match is left exactly
/// as it is; a Play step satisfies [`plays_to`]; an Attack step is exactly
/// [`attack_step`].
pub open spec fn step_rel(pre: MatchView, post: MatchView) -> bool {
    match pre.game.turn {
        GamePhase::Halt => post == pre,
        GamePhase::Play => plays_to(pre, post),
        GamePhase::Attack => post == attack_step(pre),
    }
}

/// The Play phase with the randomness pinned: the deck is not reshuffled
/// (the tail card is drawn) and the first open slot is chosen.
pub open spec fn play_step_det(v: MatchView) -> MatchView {
    let s = v.game.side;
    let deck = deck_of(v, s);
    let game = Game {
        id: v.game.id,
        turn: GamePhase::Attack,
        side: v.game.side,
        turn_count: v.game.turn_count,
    };
    if deck.cards.len() == 0 {
        with_game(v, game)
    } else {
        let c = deck.cards.last();
        let area = area_of(v, s);
        let area2 = if area[0] is None {
            area.update(0, Some(c))
        } else if area[1] is None {
            area.update(1, Some(c))
        } else {
            area
        };
        with_game(with_offense(v, s, deck.cards.drop_last(), area2), game)
    }
}

/// `v` with side `s`'s deck cards and play area replaced (the active
/// side's state after its draw; a draw never changes the life total).
pub open spec fn with_offense(v: MatchView, s: Side, cards: Seq<Card>, area: Seq<Option<Card>>) -> MatchView {
    if s is Player {
        MatchView {
            game: v.game,
            player_deck: DeckView { cards, health: v.player_deck.health },
            enemy_deck: v.enemy_deck,
            player_area: area,
            enemy_area: v.enemy_area,
        }
    } else {
        MatchView {
            game: v.game,
            player_deck: v.player_deck,
            enemy_deck: DeckView { cards, health: v.enemy_deck.health },
            player_area: v.player_area,
            enemy_area: area,
        }
    }
}

/// One deterministic simulation step, exactly.
pub open spec fn step_det(v: MatchView) -> MatchView {
    match v.game.turn {
        GamePhase::Halt => v,
        GamePhase::Play => play_step_det(v),
        GamePhase::Attack => attack_step(v),
    }
}

/// A permutation of well-formed cards is made of well-formed cards.
pub proof fn lemma_permutation_preserves_card_ok(a: Seq<Card>, b: Seq<Card>)
    requires
        a.to_multiset() == b.to_multiset(),
        forall|i: int| 0 <= i < a.len() ==> card_ok(#[trigger] a[i]),
    ensures
        forall|i: int| 0 <= i < b.len() ==> card_ok(#[trigger] b[i]),
{
    broadcast use group_to_multiset_ensures;

    assert forall|i: int| 0 <= i < b.len() implies card_ok(#[trigger] b[i]) by {
        assert(b.contains(b[i]));
        assert(a.to_multiset().count(b[i]) > 0);
        assert(a.contains(b[i]));
        let j = choose|j: int| 0 <= j < a.len() && a[j] == b[i];
        assert(card_ok(a[j]));
    }
}

impl PlayArea {
    /// A uniformly random open slot among the two targeted ones, or `None`
    /// exactly when both are occupied. The third stored slot is never
    /// considered.
    pub fn get_random_open_slot(&self, rng: &mut RngComponent) -> (r: Option<usize>)
        requires
            area_wf(self@),
        ensures
            r is None <==> (self@[0] is Some && self@[1] is Some),
            r matches Some(i) ==> (i == 0 && self@[0] is None) || (i == 1 && self@[1] is None),
    {
        let mut slots: Vec<usize> = Vec::new();
        if self.cards[0].is_none() {
            slots.push(0);
        }
        if self.cards[1].is_none() {
            slots.push(1);
        }
        let ghost built = slots@;
        shuffle_vec(rng, &mut slots);
        if slots.len() > 0 {
            let i = slots[0];
            proof {
                broadcast use group_to_multiset_ensures;

                assert(slots@.contains(i));
                assert(built.to_multiset().count(i) > 0);
                assert(built.contains(i));
                let j = choose|j: int| 0 <= j < built.len() && built[j] == i;
            }
            Some(i)
        } else {
            None
        }
    }
}

/// The Play phase for the active side: reshuffle the remaining deck, draw
/// the tail card if there is one, and place it in a random open slot (or
/// discard it with both slots occupied).
fn play_phase(deck: &mut Deck, area: &mut PlayArea, rng: &mut RngComponent)
    requires
        deck_wf(old(deck)@),
        area_wf(old(area)@),
    ensures
        deck_wf(final(deck)@),
        area_wf(final(area)@),
        final(deck)@.health == old(deck)@.health,
        old(deck)@.cards.len() == 0 ==> final(deck)@.cards == old(deck)@.cards && final(area)@
            == old(area)@,
        old(deck)@.cards.len() > 0 ==> final(deck)@.cards.len() == old(deck)@.cards.len() - 1 && (
        exists|c: Card|
            {
                &&& #[trigger] old(deck)@.cards.to_multiset().count(c) > 0
                &&& final(deck)@.cards.to_multiset() == old(deck)@.cards.to_multiset().remove(c)
                &&& placed(old(area)@, final(area)@, c)
            }),
{
    shuffle_vec(rng, &mut deck.cards);
    proof {
        lemma_permutation_preserves_card_ok(old(deck)@.cards, deck.cards@);
    }
    let ghost mid = deck.cards@;
    let card = deck.cards.pop();
    match card {
        None => {
            proof {
                broadcast use group_to_multiset_ensures;

                assert(mid.len() == 0);
                assert(deck.cards@ =~= old(deck)@.cards);
            }
        },
        Some(c) => {
            proof {
                broadcast use group_to_multiset_ensures;

                assert(deck.cards@ =~= mid.remove(mid.len() - 1));
                assert(deck.cards@.to_multiset() == mid.to_multiset().remove(c));
                assert(mid.contains(c));
                assert(old(deck)@.cards.to_multiset().count(c) > 0);
                assert(card_ok(mid[mid.len() - 1]));
            }
            let slot = area.get_random_open_slot(rng);
            match slot {
                Some(i) => {
                    area.cards[i] = Some(c);
                    proof {
                        assert(placed(old(area)@, area@, c));
                    }
                },
                None => {
                    proof {
                        assert(placed(old(area)@, area@, c));
                    }
                },
            }
        },
    }
}

/// The Attack phase's combat for one attacker/defender pair, slot 0 then
/// slot 1, stopping at a halt. Returns whether the defender's life total
/// was exhausted.
fn attack_resolve(att: &PlayArea, def: &mut PlayArea, deck: &mut Deck) -> (halted: bool)
    requires
        area_wf(att@),
        area_wf(old(def)@),
        deck_wf(old(deck)@),
        old(deck)@.health > 0,
    ensures
        final(deck)@.cards == old(deck)@.cards,
        area_wf(final(def)@),
        deck_wf(final(deck)@),
        ({
            let r = resolve_two(att@, old(def)@, old(deck)@.health);
            final(def)@ == r.0 && final(deck)@.health == r.1 && halted == r.2
        }),
        !halted ==> final(deck)@.health > 0,
{
    let ghost def0 = def@;
    let ghost h0 = deck@.health;
    let mut halted = false;
    if let Some(card) = att.cards[0] {
        if let Some(defender) = def.cards[0] {
            let nh = defender.health - card.damage;
            if nh >= 0 {
                def.cards[0] = Some(Card { damage: defender.damage, health: nh });
            } else {
                def.cards[0] = None;
            }
        } else {
            deck.health = deck.health - card.damage;
            if deck.health <= 0 {
                halted = true;
            }
        }
    }
    proof {
        let r0 = resolve_slot(att@[0], def0[0], h0);
        assert(def@ =~= def0.update(0, r0.0));
        assert(deck@.health == r0.1);
        assert(halted == r0.2);
    }
    if !halted {
        if let Some(card) = att.cards[1] {
            if let Some(defender) = def.cards[1] {
                let nh = defender.health - card.damage;
                if nh >= 0 {
                    def.cards[1] = Some(Card { damage: defender.damage, health: nh });
                } else {
                    def.cards[1] = None;
                }
            } else {
                deck.health = deck.health - card.damage;
                if deck.health <= 0 {
                    halted = true;
                }
            }
        }
        proof {
            let r0 = resolve_slot(att@[0], def0[0], h0);
            let def1 = def0.update(0, r0.0);
            let r1 = resolve_slot(att@[1], def1[1], r0.1);
            assert(def@ =~= def1.update(1, r1.0));
            assert(deck@.health == r1.1);
            assert(halted == r1.2);
        }
    }
    proof {
        assert(deck.cards@ == old(deck)@.cards);
        assert forall|i: int| 0 <= i < deck@.cards.len() implies card_ok(
            #[trigger] deck@.cards[i],
        ) by {
            assert(card_ok(old(deck)@.cards[i]));
        }
    }
    halted
}

/// The Attack phase for the whole match: the current side attacks, then
/// the turn ends (or the match halts). Exactly [`attack_step`].
fn attack_phase(m: &mut Match)
    requires
        wf(old(m)@),
        old(m).game.turn is Attack,
    ensures
        final(m)@ == attack_step(old(m)@),
        wf(final(m)@),
{
    let ghost pre = m@;
    let halted = match m.game.side {
        Side::Player => attack_resolve(&m.player_area, &mut m.enemy_area, &mut m.enemy_deck),
        Side::Enemy => attack_resolve(&m.enemy_area, &mut m.player_area, &mut m.player_deck),
        Side::Draw => {
            proof {
                assert(false);
            }
            false
        },
    };
    if halted {
        m.game.turn = GamePhase::Halt;
    } else {
        m.game.turn_count = m.game.turn_count + 1;
        if m.game.turn_count > TURN_LIMIT {
            m.game.turn = GamePhase::Halt;
            m.game.side = Side::Draw;
        } else {
            m.game.turn = GamePhase::Play;
            m.game.side = match m.game.side {
                Side::Player => Side::Enemy,
                Side::Enemy => Side::Player,
                Side::Draw => Side::Draw,
            };
        }
    }
    proof {
        assert(m@ =~~= attack_step(pre));
    }
}

/// Advance a match by one phase, drawing randomness from the active side's
/// generator: the one simulation step the driving loop applies to every
/// match each tick. A halted match is left untouched.
pub fn advance(m: &mut Match)
    requires
        wf(old(m)@),
    ensures
        wf(final(m)@),
        step_rel(old(m)@, final(m)@),
{
    let ghost pre = m@;
    match m.game.turn {
        GamePhase::Halt => {},
        GamePhase::Play => {
            match m.game.side {
                Side::Player => play_phase(
                    &mut m.player_deck,
                    &mut m.player_area,
                    &mut m.player_rng,
                ),
                Side::Enemy => play_phase(&mut m.enemy_deck, &mut m.enemy_area, &mut m.enemy_rng),
                Side::Draw => {
                    proof {
                        assert(false);
                    }
                },
            }
            m.game.turn = GamePhase::Attack;
            proof {
                assert(plays_to(pre, m@));
            }
        },
        GamePhase::Attack => {
            attack_phase(m);
        },
    }
}

/// Advance a match by one phase with the randomness pinned — the deck is
/// not reshuffled and the first open slot is chosen — so the whole step is
/// the function [`step_det`] of the previous state. Every deterministic
/// step is also a legal random step.
pub fn advance_deterministic(m: &mut Match)
    requires
        wf(old(m)@),
    ensures
        wf(final(m)@),
        final(m)@ == step_det(old(m)@),
        step_rel(old(m)@, final(m)@),
{
    let ghost pre = m@;
    match m.game.turn {
        GamePhase::Halt => {},
        GamePhase::Play => {
            match m.game.side {
                Side::Player => play_det(&mut m.player_deck, &mut m.player_area),
                Side::Enemy => play_det(&mut m.enemy_deck, &mut m.enemy_area),
                Side::Draw => {
                    proof {
                        assert(false);
                    }
                },
            }
            m.game.turn = GamePhase::Attack;
            proof {
                assert(m@ =~~= play_step_det(pre));
            }
        },
        GamePhase::Attack => {
            attack_phase(m);
        },
    }
    proof {
        lemma_step_det_refines(pre);
    }
}

/// The Play phase with the randomness pinned, for the active side.
fn play_det(deck: &mut Deck, area: &mut PlayArea)
    requires
        deck_wf(old(deck)@),
        area_wf(old(area)@),
    ensures
        deck_wf(final(deck)@),
        area_wf(final(area)@),
        final(deck)@.health == old(deck)@.health,
        old(deck)@.cards.len() == 0 ==> final(deck)@.cards == old(deck)@.cards && final(area)@
            == old(area)@,
        old(deck)@.cards.len() > 0 ==> final(deck)@.cards == old(deck)@.cards.drop_last()
            && final(area)@ == ({
            let c = old(deck)@.cards.last();
            if old(area)@[0] is None {
                old(area)@.update(0, Some(c))
            } else if old(area)@[1] is None {
                old(area)@.update(1, Some(c))
            } else {
                old(area)@
            }
        }),
{
    let card = deck.cards.pop();
    proof {
        if old(deck)@.cards.len() > 0 {
            assert(deck.cards@ =~= old(deck)@.cards.drop_last());
        }
    }
    if let Some(c) = card {
        if slot_open(area, 0) {
            area.cards[0] = Some(c);
        } else if slot_open(area, 1) {
            area.cards[1] = Some(c);
        }
    }
}

/// Whether the given targeted slot is open.
fn slot_open(area: &PlayArea, i: usize) -> (r: bool)
    requires
        area_wf(area@),
        i < 2,
    ensures
        r <==> area@[i as int] is None,
{
    area.cards[i].is_none()
}

/// A deterministic step is one of the steps the random machine allows.
pub proof fn lemma_step_det_refines(v: MatchView)
    requires
        wf(v),
    ensures
        step_rel(v, step_det(v)),
{
    broadcast use group_to_multiset_ensures;

    match v.game.turn {
        GamePhase::Halt => {},
        GamePhase::Attack => {},
        GamePhase::Play => {
            let s = v.game.side;
            let deck = deck_of(v, s);
            let post = play_step_det(v);
            if deck.cards.len() > 0 {
                let c = deck.cards.last();
                assert(deck.cards.contains(c));
                assert(deck.cards.to_multiset().count(c) > 0);
                assert(deck.cards.drop_last() =~= deck.cards.remove(deck.cards.len() - 1));
                assert(deck.cards.drop_last().to_multiset() == deck.cards.to_multiset().remove(c));
                assert(placed(area_of(v, s), area_of(post, s), c));
            }
        },
    }
}

/// Once a match has halted, a simulation step leaves it exactly as it is:
/// no field of its game record, decks, play areas or cards changes.
pub proof fn lemma_halt_is_stable(pre: MatchView, post: MatchView)
    requires
        pre.game.turn is Halt,
        step_rel(pre, post),
    ensures
        post == pre,
{
}

/// While a match keeps running, the active side strictly alternates: a
/// full Play-then-Attack cycle that does not halt hands the turn to the
/// other side.
pub proof fn lemma_sides_alternate(pre: MatchView, mid: MatchView, post: MatchView)
    requires
        wf(pre),
        pre.game.turn is Play,
        step_rel(pre, mid),
        step_rel(mid, post),
        post.game.turn !is Halt,
    ensures
        post.game.side == opp(pre.game.side),
        post.game.side != pre.game.side,
{
}

/// A Play step never grows a deck, and shrinks the active side's deck by
/// exactly one card unless it was already empty; the other deck is
/// untouched.
pub proof fn lemma_play_draws_at_most_one(pre: MatchView, post: MatchView)
    requires
        pre.game.turn is Play,
        step_rel(pre, post),
    ensures
        deck_of(post, pre.game.side).cards.len() <= deck_of(pre, pre.game.side).cards.len(),
        deck_of(pre, pre.game.side).cards.len() > 0 ==> deck_of(post, pre.game.side).cards.len()
            == deck_of(pre, pre.game.side).cards.len() - 1,
        deck_of(pre, pre.game.side).cards.len() == 0 ==> deck_of(post, pre.game.side).cards.len()
            == 0,
        deck_of(post, opp(pre.game.side)) == deck_of(pre, opp(pre.game.side)),
{
}

/// When a defending card blocks, its health after combat is its health
/// before combat minus the attacker's damage; it is destroyed and its slot
/// cleared exactly when that result is negative. The defender's life total
/// is untouched and the match cannot halt in that slot.
pub proof fn lemma_blocker_combat(a: Card, d: Card, dh: int)
    requires
        card_ok(a),
        card_ok(d),
    ensures
        ({
            let r = resolve_slot(Some(a), Some(d), dh);
            &&& r.1 == dh
            &&& !r.2
            &&& d.health - a.damage >= 0 ==> r.0 == Some(
                Card { damage: d.damage, health: (d.health - a.damage) as i32 },
            ) && r.0->Some_0.health == d.health - a.damage
            &&& d.health - a.damage < 0 ==> r.0 is None
        }),
{
}

/// When the defending slot is empty, the attack is direct: the defender's
/// life total drops by exactly the attacker's damage, and the match halts
/// exactly when it reaches zero or below.
pub proof fn lemma_direct_attack(a: Card, dh: int)
    ensures
        ({
            let r = resolve_slot(Some(a), None, dh);
            &&& r.0 is None
            &&& r.1 == dh - a.damage
            &&& (r.2 <==> dh - a.damage <= 0)
        }),
{
}

/// The only way the turn counter passes the limit is the forced draw: the
/// match halts with `side` set to Draw.
pub proof fn lemma_turn_limit_forces_draw(pre: MatchView, post: MatchView)
    requires
        wf(pre),
        pre.game.turn !is Halt,
        step_rel(pre, post),
        post.game.turn_count > TURN_LIMIT as int,
    ensures
        post.game.turn is Halt,
        post.game.side is Draw,
{
}

} // verus!
