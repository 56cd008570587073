use uno_core::{UnoCard, UnoColor, UnoDeck, UnoError, UnoValue, UnoWildCard};

fn colored(color: UnoColor, value: UnoValue) -> UnoCard {
    UnoCard::Card { color, value }
}

fn count_copies(cards: &[UnoCard], want: &UnoCard) -> usize {
    cards.iter().filter(|c| *c == want).count()
}

#[test]
fn fresh_deck_composition() {
    let deck = UnoDeck::new();
    assert_eq!(deck.0.len(), 108);
    let colors = [UnoColor::Red, UnoColor::Blue, UnoColor::Green, UnoColor::Yellow];
    let non_zero = [
        UnoValue::One,
        UnoValue::Two,
        UnoValue::Three,
        UnoValue::Four,
        UnoValue::Five,
        UnoValue::Six,
        UnoValue::Seven,
        UnoValue::Eight,
        UnoValue::Nine,
        UnoValue::Skip,
        UnoValue::Reverse,
        UnoValue::Draw2,
    ];
    for color in colors {
        assert_eq!(count_copies(&deck.0, &colored(color, UnoValue::Zero)), 1);
        for value in non_zero {
            assert_eq!(count_copies(&deck.0, &colored(color, value)), 2);
        }
    }
    assert_eq!(
        count_copies(&deck.0, &UnoCard::Wild(UnoWildCard::Unplayed { draw_4: false })),
        4
    );
    assert_eq!(
        count_copies(&deck.0, &UnoCard::Wild(UnoWildCard::Unplayed { draw_4: true })),
        4
    );
}

#[test]
fn default_deck_is_full() {
    let deck = UnoDeck::default();
    assert_eq!(deck.0.len(), 108);
}

#[test]
fn draw_card_takes_the_top() {
    let mut deck = UnoDeck(vec![
        colored(UnoColor::Red, UnoValue::One),
        colored(UnoColor::Blue, UnoValue::Two),
    ]);
    assert_eq!(deck.draw_card(), Some(colored(UnoColor::Blue, UnoValue::Two)));
    assert_eq!(deck.draw_card(), Some(colored(UnoColor::Red, UnoValue::One)));
    assert_eq!(deck.draw_card(), None);
}

#[test]
fn deal_is_round_robin_from_the_top() {
    // 15 distinguishable cards; two players take 14 of them.
    let mut cards = Vec::new();
    let values = [
        UnoValue::Zero,
        UnoValue::One,
        UnoValue::Two,
        UnoValue::Three,
        UnoValue::Four,
        UnoValue::Five,
        UnoValue::Six,
        UnoValue::Seven,
        UnoValue::Eight,
        UnoValue::Nine,
        UnoValue::Skip,
        UnoValue::Reverse,
        UnoValue::Draw2,
    ];
    for (i, value) in values.iter().enumerate() {
        let color = if i % 2 == 0 { UnoColor::Red } else { UnoColor::Blue } ;
        cards.push(colored(color, *value));
    }
    cards.push(colored(UnoColor::Green, UnoValue::Zero));
    cards.push(colored(UnoColor::Yellow, UnoValue::Zero));
    let before = cards.clone();
    let mut deck = UnoDeck(cards);

    let hands = deck.deal(2).expect("two players fit in 15 cards");
    assert_eq!(hands.len(), 2);
    for hand in &hands {
        assert_eq!(hand.0.len(), 7);
    }
    // Player-cyclic order from the pre-deal top: card k of hand j came
    // from position len - 1 - (k * players + j).
    for (j, hand) in hands.iter().enumerate() {
        for (k, card) in hand.0.iter().enumerate() {
            assert_eq!(*card, before[before.len() - 1 - (k * 2 + j)]);
        }
    }
    // The undealt remainder stays, in order.
    assert_eq!(deck.0, before[..1].to_vec());
}

#[test]
fn deal_zero_players_takes_nothing() {
    let mut deck = UnoDeck(vec![colored(UnoColor::Red, UnoValue::One)]);
    let hands = deck.deal(0).expect("no players need no cards");
    assert_eq!(hands.len(), 0);
    assert_eq!(deck.0.len(), 1);
}

#[test]
fn deal_fails_without_enough_cards() {
    let mut deck = UnoDeck(vec![
        colored(UnoColor::Red, UnoValue::One),
        colored(UnoColor::Blue, UnoValue::Two),
        colored(UnoColor::Green, UnoValue::Three),
    ]);
    let r = deck.deal(1);
    assert!(matches!(r, Err(UnoError::NoCardsLeft)));
    // The failed deal took no card.
    assert_eq!(deck.0.len(), 3);
}

#[test]
fn from_discard_keeps_the_same_cards() {
    let discard = UnoDeck(vec![
        colored(UnoColor::Red, UnoValue::One),
        colored(UnoColor::Red, UnoValue::One),
        colored(UnoColor::Blue, UnoValue::Nine),
        UnoCard::Wild(UnoWildCard::Played { draw_4: true, color: UnoColor::Red }),
    ]);
    let fresh = UnoDeck::from_discard(&discard);
    assert_eq!(fresh.0.len(), 4);
    for card in &discard.0 {
        assert_eq!(count_copies(&fresh.0, card), count_copies(&discard.0, card));
    }
    // The source pile is untouched.
    assert_eq!(discard.0.len(), 4);
}
