use bevy_turborand::RngComponent;
use card_battle::{
    advance, advance_deterministic, dummy_deck, Card, Deck, Game, GamePhase, Match, PlayArea,
    Side, TURN_LIMIT,
};

fn rng(seed: u64) -> RngComponent {
    RngComponent::with_seed(seed)
}

fn custom_match(
    turn: GamePhase,
    side: Side,
    turn_count: usize,
    player_deck: Deck,
    enemy_deck: Deck,
    player_area: [Option<Card>; 3],
    enemy_area: [Option<Card>; 3],
) -> Match {
    Match {
        game: Game { id: 0, turn, side, turn_count },
        player_deck,
        enemy_deck,
        player_area: PlayArea { cards: player_area },
        enemy_area: PlayArea { cards: enemy_area },
        player_rng: rng(11),
        enemy_rng: rng(12),
    }
}

fn deck(cards: Vec<Card>, health: i32) -> Deck {
    Deck { cards, health }
}

#[test]
fn starting_deck_contents() {
    let d = dummy_deck();
    assert_eq!(d.health, 5);
    assert_eq!(
        d.cards,
        vec![
            Card { damage: 3, health: 1 },
            Card { damage: 1, health: 1 },
            Card { damage: 0, health: 5 },
            Card { damage: 2, health: 1 },
        ]
    );
}

#[test]
fn deterministic_match_reaches_halt() {
    let mut m = Match::new(0, 42);
    let mut ticks = 0;
    while m.game.turn != GamePhase::Halt {
        advance_deterministic(&mut m);
        // the third stored slot is never targeted
        assert!(m.player_area.cards[2].is_none());
        assert!(m.enemy_area.cards[2].is_none());
        ticks += 1;
        assert!(ticks <= 2 * (TURN_LIMIT + 2));
    }
    assert!(m.game.turn_count <= TURN_LIMIT);
    assert_eq!(m.game.turn_count, 13);
    assert_eq!(m.game.side, Side::Enemy);
    // the loser's life total reached zero or below; the winner's did not
    assert_eq!(m.player_deck.health, -1);
    assert_eq!(m.enemy_deck.health, 3);
    // both decks were fully drawn
    assert!(m.player_deck.cards.is_empty());
    assert!(m.enemy_deck.cards.is_empty());
    // the surviving board
    assert_eq!(m.player_area.cards[0], None);
    assert_eq!(m.player_area.cards[1], Some(Card { damage: 1, health: 1 }));
    assert_eq!(m.enemy_area.cards[0], Some(Card { damage: 2, health: 1 }));
    assert_eq!(m.enemy_area.cards[1], Some(Card { damage: 0, health: 0 }));
}

#[test]
fn deterministic_match_is_reproducible() {
    let mut a = Match::new(0, 7);
    let mut b = Match::new(0, 7);
    for _ in 0..40 {
        advance_deterministic(&mut a);
        advance_deterministic(&mut b);
        assert_eq!(a.game, b.game);
        assert_eq!(a.player_deck.cards, b.player_deck.cards);
        assert_eq!(a.player_deck.health, b.player_deck.health);
        assert_eq!(a.enemy_deck.cards, b.enemy_deck.cards);
        assert_eq!(a.enemy_deck.health, b.enemy_deck.health);
        assert_eq!(a.player_area.cards, b.player_area.cards);
        assert_eq!(a.enemy_area.cards, b.enemy_area.cards);
    }
}

#[test]
fn halted_match_never_changes() {
    let mut m = Match::new(0, 42);
    while m.game.turn != GamePhase::Halt {
        advance_deterministic(&mut m);
    }
    let game = m.game;
    let player_cards = m.player_deck.cards.clone();
    let player_health = m.player_deck.health;
    let enemy_health = m.enemy_deck.health;
    let player_area = m.player_area.cards;
    let enemy_area = m.enemy_area.cards;
    for _ in 0..10 {
        advance(&mut m);
        assert_eq!(m.game, game);
        assert_eq!(m.player_deck.cards, player_cards);
        assert_eq!(m.player_deck.health, player_health);
        assert_eq!(m.enemy_deck.health, enemy_health);
        assert_eq!(m.player_area.cards, player_area);
        assert_eq!(m.enemy_area.cards, enemy_area);
    }
}

#[test]
fn sides_alternate_between_turns() {
    let mut m = Match::new(0, 3);
    let mut previous: Option<Side> = None;
    for _ in 0..200 {
        if m.game.turn == GamePhase::Halt {
            break;
        }
        assert_eq!(m.game.turn, GamePhase::Play);
        let current = m.game.side;
        if let Some(p) = previous {
            assert_ne!(p, current);
        }
        previous = Some(current);
        advance(&mut m); // Play
        if m.game.turn == GamePhase::Halt {
            break;
        }
        assert_eq!(m.game.turn, GamePhase::Attack);
        assert_eq!(m.game.side, current);
        advance(&mut m); // Attack
    }
}

#[test]
fn play_phase_draws_at_most_one_card() {
    let mut m = Match::new(0, 5);
    for _ in 0..60 {
        if m.game.turn == GamePhase::Halt {
            break;
        }
        let before_player = m.player_deck.cards.len();
        let before_enemy = m.enemy_deck.cards.len();
        let playing = m.game.turn == GamePhase::Play;
        advance(&mut m);
        let after_player = m.player_deck.cards.len();
        let after_enemy = m.enemy_deck.cards.len();
        assert!(after_player <= before_player);
        assert!(after_enemy <= before_enemy);
        if playing {
            let (before, after) = match m.game.side {
                Side::Player => (before_player, after_player),
                Side::Enemy => (before_enemy, after_enemy),
                Side::Draw => unreachable!(),
            };
            if before > 0 {
                assert_eq!(after, before - 1);
            } else {
                assert_eq!(after, 0);
            }
        } else {
            assert_eq!(after_player, before_player);
            assert_eq!(after_enemy, before_enemy);
        }
    }
}

#[test]
fn play_keeps_the_cards_it_does_not_draw() {
    // Through the public step: if the shuffle invented or dropped cards,
    // the remaining deck plus the placed card would not add up to the
    // starting deck.
    let mut m = Match::new(0, 99);
    advance(&mut m); // Play phase of the player's first turn
    assert_eq!(m.game.turn, GamePhase::Attack);
    assert_eq!(m.player_deck.cards.len(), 3);
    let placed = m
        .player_area
        .cards
        .iter()
        .flatten()
        .copied()
        .collect::<Vec<Card>>();
    assert_eq!(placed.len(), 1);
    let mut remaining: Vec<(i32, i32)> = m
        .player_deck
        .cards
        .iter()
        .map(|c| (c.damage, c.health))
        .collect();
    remaining.push((placed[0].damage, placed[0].health));
    remaining.sort();
    let mut starting: Vec<(i32, i32)> = dummy_deck()
        .cards
        .iter()
        .map(|c| (c.damage, c.health))
        .collect();
    starting.sort();
    assert_eq!(remaining, starting);
}

#[test]
fn blocked_attack_subtracts_damage() {
    let mut m = custom_match(
        GamePhase::Attack,
        Side::Player,
        0,
        deck(vec![], 5),
        deck(vec![], 5),
        [Some(Card { damage: 2, health: 1 }), None, None],
        [Some(Card { damage: 0, health: 3 }), None, None],
    );
    advance(&mut m);
    assert_eq!(m.enemy_area.cards[0], Some(Card { damage: 0, health: 1 }));
    assert_eq!(m.enemy_deck.health, 5);
    assert_eq!(m.game.turn, GamePhase::Play);
    assert_eq!(m.game.side, Side::Enemy);
    assert_eq!(m.game.turn_count, 1);
}

#[test]
fn blocker_destroyed_exactly_when_health_goes_negative() {
    let mut m = custom_match(
        GamePhase::Attack,
        Side::Player,
        0,
        deck(vec![], 5),
        deck(vec![], 5),
        [Some(Card { damage: 4, health: 1 }), None, None],
        [Some(Card { damage: 0, health: 3 }), None, None],
    );
    advance(&mut m);
    assert_eq!(m.enemy_area.cards[0], None);
    assert_eq!(m.enemy_deck.health, 5);
}

#[test]
fn blocker_at_exactly_zero_health_survives() {
    let mut m = custom_match(
        GamePhase::Attack,
        Side::Player,
        0,
        deck(vec![], 5),
        deck(vec![], 5),
        [Some(Card { damage: 3, health: 1 }), None, None],
        [Some(Card { damage: 1, health: 3 }), None, None],
    );
    advance(&mut m);
    assert_eq!(m.enemy_area.cards[0], Some(Card { damage: 1, health: 0 }));
}

#[test]
fn direct_attack_hits_the_deck() {
    let mut m = custom_match(
        GamePhase::Attack,
        Side::Player,
        0,
        deck(vec![], 5),
        deck(vec![], 5),
        [Some(Card { damage: 2, health: 1 }), None, None],
        [None, None, None],
    );
    advance(&mut m);
    assert_eq!(m.enemy_deck.health, 3);
    assert_eq!(m.game.turn, GamePhase::Play);
    assert_eq!(m.game.side, Side::Enemy);
}

#[test]
fn direct_attack_halts_when_health_runs_out() {
    let mut m = custom_match(
        GamePhase::Attack,
        Side::Enemy,
        4,
        deck(vec![], 2),
        deck(vec![], 5),
        [None, None, None],
        [Some(Card { damage: 2, health: 1 }), None, None],
    );
    advance(&mut m);
    assert_eq!(m.player_deck.health, 0);
    assert_eq!(m.game.turn, GamePhase::Halt);
    // the attacker is recorded as the winner
    assert_eq!(m.game.side, Side::Enemy);
    // the counter is not advanced on a halt
    assert_eq!(m.game.turn_count, 4);
}

#[test]
fn turn_limit_forces_a_draw() {
    let mut m = custom_match(
        GamePhase::Attack,
        Side::Player,
        TURN_LIMIT,
        deck(vec![], 5),
        deck(vec![], 5),
        [None, None, None],
        [None, None, None],
    );
    advance(&mut m);
    assert_eq!(m.game.turn_count, TURN_LIMIT + 1);
    assert_eq!(m.game.turn, GamePhase::Halt);
    assert_eq!(m.game.side, Side::Draw);
    // and nothing moves afterwards
    advance(&mut m);
    assert_eq!(m.game.turn, GamePhase::Halt);
    assert_eq!(m.game.side, Side::Draw);
    assert_eq!(m.game.turn_count, TURN_LIMIT + 1);
}

#[test]
fn empty_deck_plays_nothing() {
    let mut m = custom_match(
        GamePhase::Play,
        Side::Player,
        2,
        deck(vec![], 5),
        deck(vec![], 5),
        [None, None, None],
        [None, None, None],
    );
    advance(&mut m);
    assert_eq!(m.game.turn, GamePhase::Attack);
    assert!(m.player_deck.cards.is_empty());
    assert_eq!(m.player_area.cards, [None, None, None]);
}

#[test]
fn drawn_card_is_discarded_with_both_slots_full() {
    let blocker = Card { damage: 0, health: 9 };
    let mut m = custom_match(
        GamePhase::Play,
        Side::Player,
        2,
        deck(vec![Card { damage: 1, health: 1 }], 5),
        deck(vec![], 5),
        [Some(blocker), Some(blocker), None],
        [None, None, None],
    );
    advance(&mut m);
    assert_eq!(m.game.turn, GamePhase::Attack);
    // the card was drawn and lost, not returned to the deck
    assert!(m.player_deck.cards.is_empty());
    assert_eq!(m.player_area.cards, [Some(blocker), Some(blocker), None]);
}

#[test]
fn open_slot_selection_respects_occupancy() {
    let c = Card { damage: 1, health: 1 };
    let full = PlayArea { cards: [Some(c), Some(c), None] };
    let only_second = PlayArea { cards: [Some(c), None, None] };
    let only_first = PlayArea { cards: [None, Some(c), None] };
    let open = PlayArea { cards: [None, None, None] };
    let mut r = rng(21);
    assert_eq!(full.get_random_open_slot(&mut r), None);
    assert_eq!(only_second.get_random_open_slot(&mut r), Some(1));
    assert_eq!(only_first.get_random_open_slot(&mut r), Some(0));
    for _ in 0..20 {
        let s = open.get_random_open_slot(&mut r);
        assert!(s == Some(0) || s == Some(1));
    }
}
