use uno_core::{
    TurnDirection, UnoCard, UnoCardMatchError, UnoColor, UnoDeck, UnoError, UnoGameState,
    UnoValue, UnoWildCard,
};

fn colored(color: UnoColor, value: UnoValue) -> UnoCard {
    UnoCard::Card { color, value }
}

fn total_cards(game: &UnoGameState) -> usize {
    game.main_deck.0.len()
        + game.discard_deck.0.len()
        + game.player_hands.iter().map(|h| h.0.len()).sum::<usize>()
}

/// A 4-player game with small fixed hands: player 0 holds a Red Skip, a
/// Red Reverse, a Red Draw2, a Red Five and two wilds; everyone else
/// holds a couple of filler cards. Discard top is a Red Two.
fn fixed_game() -> UnoGameState {
    let hand0 = UnoDeck(vec![
        colored(UnoColor::Red, UnoValue::Skip),
        colored(UnoColor::Red, UnoValue::Reverse),
        colored(UnoColor::Red, UnoValue::Draw2),
        colored(UnoColor::Red, UnoValue::Five),
        UnoCard::Wild(UnoWildCard::Played { draw_4: false, color: UnoColor::Blue }),
        UnoCard::Wild(UnoWildCard::Played { draw_4: true, color: UnoColor::Green }),
    ]);
    let filler = |color| UnoDeck(vec![colored(color, UnoValue::One), colored(color, UnoValue::Two)]);
    UnoGameState {
        main_deck: UnoDeck(vec![
            colored(UnoColor::Yellow, UnoValue::Three),
            colored(UnoColor::Yellow, UnoValue::Four),
            colored(UnoColor::Yellow, UnoValue::Five),
            colored(UnoColor::Yellow, UnoValue::Six),
            colored(UnoColor::Yellow, UnoValue::Seven),
        ]),
        discard_deck: UnoDeck(vec![colored(UnoColor::Red, UnoValue::Two)]),
        player_hands: vec![
            hand0,
            filler(UnoColor::Blue),
            filler(UnoColor::Green),
            filler(UnoColor::Yellow),
        ],
        turn_direction: TurnDirection::Clockwise,
        current_turn: 0,
    }
}

#[test]
fn new_game_shape() {
    let game = UnoGameState::new(4).expect("4 players are supported");
    assert_eq!(game.player_hands.len(), 4);
    for hand in &game.player_hands {
        assert_eq!(hand.0.len(), 7);
    }
    assert_eq!(game.discard_deck.0.len(), 1);
    assert_eq!(game.main_deck.0.len(), 108 - 1 - 28);
    assert_eq!(game.current_turn, 0);
    assert!(matches!(game.turn_direction, TurnDirection::Clockwise));
    assert_eq!(total_cards(&game), 108);
}

#[test]
fn new_game_rejects_five_players() {
    let r = UnoGameState::new(5);
    assert!(matches!(r, Err(UnoError::TooManyPlayers(5))));
}

#[test]
fn skip_advances_two() {
    let mut game = fixed_game();
    game.try_next(0, &colored(UnoColor::Red, UnoValue::Skip)).expect("skip is playable");
    assert_eq!(game.current_turn, 2);
    assert!(matches!(game.turn_direction, TurnDirection::Clockwise));
    assert_eq!(game.player_hands[0].0.len(), 5);
    assert_eq!(
        *game.discard_deck.0.last().expect("discard holds the played card"),
        colored(UnoColor::Red, UnoValue::Skip)
    );
}

#[test]
fn reverse_flips_direction_and_steps_back() {
    let mut game = fixed_game();
    game.try_next(0, &colored(UnoColor::Red, UnoValue::Reverse)).expect("reverse is playable");
    assert!(matches!(game.turn_direction, TurnDirection::CounterClockwise));
    assert_eq!(game.current_turn, 3);
}

#[test]
fn reverse_from_counter_clockwise_steps_forward() {
    let mut game = fixed_game();
    game.turn_direction = TurnDirection::CounterClockwise;
    game.try_next(0, &colored(UnoColor::Red, UnoValue::Reverse)).expect("reverse is playable");
    assert!(matches!(game.turn_direction, TurnDirection::Clockwise));
    assert_eq!(game.current_turn, 1);
}

#[test]
fn draw2_feeds_next_player_and_skips_them() {
    let mut game = fixed_game();
    game.try_next(0, &colored(UnoColor::Red, UnoValue::Draw2)).expect("draw2 is playable");
    assert_eq!(game.current_turn, 2);
    assert_eq!(game.player_hands[1].0.len(), 4);
    // The two drawn cards came off the top of the main deck.
    assert_eq!(game.main_deck.0.len(), 3);
    assert_eq!(game.player_hands[1].0[2], colored(UnoColor::Yellow, UnoValue::Seven));
    assert_eq!(game.player_hands[1].0[3], colored(UnoColor::Yellow, UnoValue::Six));
}

#[test]
fn plain_card_advances_one() {
    let mut game = fixed_game();
    game.try_next(0, &colored(UnoColor::Red, UnoValue::Five)).expect("five is playable");
    assert_eq!(game.current_turn, 1);
    assert!(matches!(game.turn_direction, TurnDirection::Clockwise));
}

#[test]
fn plain_wild_advances_one() {
    let mut game = fixed_game();
    let wild = UnoCard::Wild(UnoWildCard::Played { draw_4: false, color: UnoColor::Blue });
    game.try_next(0, &wild).expect("a played wild is always playable");
    assert_eq!(game.current_turn, 1);
    assert_eq!(*game.discard_deck.0.last().expect("discard top"), wild);
}

#[test]
fn wild_draw4_feeds_next_player_and_skips_them() {
    let mut game = fixed_game();
    let wild = UnoCard::Wild(UnoWildCard::Played { draw_4: true, color: UnoColor::Green });
    game.try_next(0, &wild).expect("a played wild is always playable");
    assert_eq!(game.current_turn, 2);
    assert_eq!(game.player_hands[1].0.len(), 6);
    assert_eq!(game.main_deck.0.len(), 1);
}

#[test]
fn skip_wraps_around_the_table() {
    let mut game = fixed_game();
    game.current_turn = 3;
    // Player 3's turn does not matter to validation; player 0 plays.
    game.try_next(0, &colored(UnoColor::Red, UnoValue::Skip)).expect("skip is playable");
    assert_eq!(game.current_turn, 1);
}

#[test]
fn card_conservation_across_plays() {
    let mut game = fixed_game();
    let start = total_cards(&game);
    game.try_next(0, &colored(UnoColor::Red, UnoValue::Five)).expect("five is playable");
    assert_eq!(total_cards(&game), start);
    game.try_next(0, &colored(UnoColor::Red, UnoValue::Skip)).expect("red skip on red five");
    assert_eq!(total_cards(&game), start);
}

#[test]
fn conservation_from_a_fresh_game() {
    let mut game = UnoGameState::new(3).expect("3 players are supported");
    assert_eq!(total_cards(&game), 108);
    // Whatever the shuffle dealt, forced draws keep the total at 108.
    let drawn = game.draw_n_cards(5);
    assert_eq!(drawn.len(), 5);
    game.player_hands[0].0.extend(drawn);
    assert_eq!(total_cards(&game), 108);
}

#[test]
fn invalid_player_number_is_rejected() {
    let mut game = fixed_game();
    let r = game.try_next(4, &colored(UnoColor::Red, UnoValue::Five));
    assert!(matches!(r, Err(UnoError::InvalidPlayerNumber)));
}

#[test]
fn playing_a_card_not_in_hand_is_cheating() {
    let mut game = fixed_game();
    let r = game.try_next(1, &colored(UnoColor::Red, UnoValue::Five));
    assert!(matches!(r, Err(UnoError::Cheating)));
}

#[test]
fn wild_must_match_by_its_exact_state() {
    let mut game = fixed_game();
    // Player 0 holds a Played{Blue} plain wild, not a Played{Red} one.
    let other = UnoCard::Wild(UnoWildCard::Played { draw_4: false, color: UnoColor::Red });
    let r = game.try_next(0, &other);
    assert!(matches!(r, Err(UnoError::Cheating)));
}

#[test]
fn unplayable_card_is_rejected() {
    let mut game = fixed_game();
    // Player 1 holds a Blue One; the discard top is a Red Two.
    let r = game.try_next(1, &colored(UnoColor::Blue, UnoValue::One));
    assert!(matches!(
        r,
        Err(UnoError::CardNotPlayable(UnoCardMatchError::NoMatch))
    ));
}

#[test]
fn unplayed_wild_in_hand_is_rejected_as_unplayable() {
    let mut game = fixed_game();
    let unplayed = UnoCard::Wild(UnoWildCard::Unplayed { draw_4: false });
    game.player_hands[0].0.push(unplayed);
    let r = game.try_next(0, &unplayed);
    assert!(matches!(
        r,
        Err(UnoError::CardNotPlayable(UnoCardMatchError::WildUnplayed))
    ));
}

#[test]
fn rejected_play_changes_nothing() {
    let mut game = fixed_game();
    let before = fixed_game();
    let r = game.try_next(1, &colored(UnoColor::Blue, UnoValue::One));
    assert!(r.is_err());
    assert_eq!(game.main_deck.0, before.main_deck.0);
    assert_eq!(game.discard_deck.0, before.discard_deck.0);
    assert_eq!(game.player_hands.len(), before.player_hands.len());
    for (a, b) in game.player_hands.iter().zip(before.player_hands.iter()) {
        assert_eq!(a.0, b.0);
    }
    assert_eq!(game.current_turn, before.current_turn);
    assert!(matches!(game.turn_direction, TurnDirection::Clockwise));
}

#[test]
fn drawing_recycles_the_discard_pile() {
    let mut game = fixed_game();
    game.main_deck = UnoDeck(vec![]);
    game.discard_deck = UnoDeck(vec![
        colored(UnoColor::Blue, UnoValue::Seven),
        colored(UnoColor::Green, UnoValue::Eight),
        colored(UnoColor::Red, UnoValue::Two),
    ]);
    let drawn = game.draw_n_cards(1);
    assert_eq!(drawn.len(), 1);
    // The discard pile keeps exactly its prior top card; the rest moved
    // to the main deck and one of them was drawn.
    assert_eq!(game.discard_deck.0, vec![colored(UnoColor::Red, UnoValue::Two)]);
    assert_eq!(game.main_deck.0.len(), 1);
    let moved = [colored(UnoColor::Blue, UnoValue::Seven), colored(UnoColor::Green, UnoValue::Eight)];
    assert!(moved.contains(&drawn[0]));
    assert!(moved.contains(&game.main_deck.0[0]));
    assert_ne!(drawn[0], game.main_deck.0[0]);
}

#[test]
fn draw_n_without_recycling_takes_the_top() {
    let mut game = fixed_game();
    let drawn = game.draw_n_cards(2);
    assert_eq!(
        drawn,
        vec![
            colored(UnoColor::Yellow, UnoValue::Seven),
            colored(UnoColor::Yellow, UnoValue::Six),
        ]
    );
    assert_eq!(game.main_deck.0.len(), 3);
    assert_eq!(game.discard_deck.0.len(), 1);
}

#[test]
fn draw2_recycles_when_the_main_deck_is_short() {
    let mut game = fixed_game();
    game.main_deck = UnoDeck(vec![colored(UnoColor::Yellow, UnoValue::Nine)]);
    game.discard_deck = UnoDeck(vec![
        colored(UnoColor::Blue, UnoValue::Seven),
        colored(UnoColor::Red, UnoValue::Two),
    ]);
    let start = total_cards(&game);
    game.try_next(0, &colored(UnoColor::Red, UnoValue::Draw2)).expect("draw2 is playable");
    // The played Draw2 became the whole discard pile after recycling.
    assert_eq!(game.discard_deck.0, vec![colored(UnoColor::Red, UnoValue::Draw2)]);
    assert_eq!(game.main_deck.0.len(), 1);
    assert_eq!(game.player_hands[1].0.len(), 4);
    assert_eq!(game.current_turn, 2);
    assert_eq!(total_cards(&game), start);
}
