//! The game state and its turn state machine: the main deck, the discard
//! pile, the players' hands, the current turn and direction, and the single
//! transition operation that validates and applies a play, with all
//! special-card effects and recycling of the discard pile.

use vstd::multiset::Multiset;
use vstd::prelude::*;

use crate::cards::{playable_spec, UnoCard, UnoValue, UnoWildCard};
use crate::deck::{
    full_deck_count, hands_card_count, hands_multiset, lemma_hands_update, UnoDeck, UnoError,
    FULL_DECK_SIZE, PLAYER_STARTING_HAND_SIZE,
};

verus! {

/// The direction in which turns move around the table.
#[derive(Clone, Copy, Debug, PartialEq, Eq, Structural)]
pub enum TurnDirection {
    Clockwise,
    CounterClockwise,
}

/// One game: the main draw deck, the discard pile, one hand per player,
/// the index of the player whose turn it is, and the turn direction.
pub struct UnoGameState {
    pub main_deck: UnoDeck,
    pub discard_deck: UnoDeck,
    pub player_hands: Vec<UnoDeck>,
    pub turn_direction: TurnDirection,
    pub current_turn: usize,
}

/// The opposite direction.
pub open spec fn flip_direction(d: TurnDirection) -> TurnDirection {
    match d {
        TurnDirection::Clockwise => TurnDirection::CounterClockwise,
        TurnDirection::CounterClockwise => TurnDirection::Clockwise,
    }
}

/// One step from turn `t` among `p` players in direction `d`, wrapping at
/// the ends. Clockwise moves to the next higher index.
pub open spec fn step_turn(t: int, p: int, d: TurnDirection) -> int {
    match d {
        TurnDirection::Clockwise => if t + 1 == p {
            0
        } else {
            t + 1
        },
        TurnDirection::CounterClockwise => if t == 0 {
            p - 1
        } else {
            t - 1
        },
    }
}

/// How many cards the next player is forced to draw when this card is
/// played: 2 for a Draw2, 4 for a played wild-draw-4, otherwise none.
pub open spec fn draw_penalty(c: UnoCard) -> nat {
    match c {
        UnoCard::Card { value: UnoValue::Draw2, .. } => 2,
        UnoCard::Wild(UnoWildCard::Played { draw_4: true, .. }) => 4,
        _ => 0,
    }
}

/// The turn index and direction after playing `card`, starting from the
/// normalized turn `t` (`0 <= t < p`) in direction `d`: every card advances
/// one step; Skip, Draw2 and wild-draw-4 advance two (the skipped or
/// drawing player loses the turn); Reverse flips the direction and steps
/// once the new way.
pub open spec fn turn_after_play(t: int, p: int, d: TurnDirection, card: UnoCard) -> (
    int,
    TurnDirection,
) {
    match card {
        UnoCard::Card { value: UnoValue::Skip, .. } => (
            step_turn(step_turn(t, p, d), p, d),
            d,
        ),
        UnoCard::Card { value: UnoValue::Reverse, .. } => (
            step_turn(t, p, flip_direction(d)),
            flip_direction(d),
        ),
        UnoCard::Card { value: UnoValue::Draw2, .. } => (
            step_turn(step_turn(t, p, d), p, d),
            d,
        ),
        UnoCard::Card { .. } => (step_turn(t, p, d), d),
        UnoCard::Wild(UnoWildCard::Played { draw_4: true, .. }) => (
            step_turn(step_turn(t, p, d), p, d),
            d,
        ),
        UnoCard::Wild(_) => (step_turn(t, p, d), d),
    }
}

/// Every player's hand, as a sequence of card sequences.
pub open spec fn hand_views(g: UnoGameState) -> Seq<Seq<UnoCard>> {
    g.player_hands@.map_values(|d: UnoDeck| d@)
}

/// Every card of the game, wherever it sits: main deck, discard pile, or
/// a hand.
pub open spec fn total_multiset(g: UnoGameState) -> Multiset<UnoCard> {
    g.main_deck@.to_multiset().add(g.discard_deck@.to_multiset()).add(
        hands_multiset(g.player_hands@),
    )
}

/// How many cards the game holds in all, wherever they sit.
pub open spec fn total_card_count(g: UnoGameState) -> int {
    g.main_deck@.len() + g.discard_deck@.len() + hands_card_count(g.player_hands@)
}

/// How many cards can be drawn without exhausting the game: the main deck,
/// plus the discard pile less its top card (which recycling preserves).
pub open spec fn cards_available(g: UnoGameState) -> int {
    g.main_deck@.len() + if g.discard_deck@.len() >= 1 {
        g.discard_deck@.len() - 1
    } else {
        0
    }
}

/// Which error, if any, a play of `card` by player `whos_turn` is rejected
/// with: an out-of-range player index, a card the player does not hold, or
/// a card that may not be placed on the discard pile's top; checked in
/// that order.
pub open spec fn try_next_check(g: UnoGameState, whos_turn: int, card: UnoCard) -> Option<
    UnoError,
> {
    if whos_turn < 0 || whos_turn >= g.player_hands@.len() {
        Some(UnoError::InvalidPlayerNumber)
    } else if !g.player_hands@[whos_turn]@.contains(card) {
        Some(UnoError::Cheating)
    } else {
        match playable_spec(card, g.discard_deck@.last()) {
            Err(e) => Some(UnoError::CardNotPlayable(e)),
            Ok(_) => None,
        }
    }
}

/// One step from turn `t` among `p` players in direction `dir`.
fn advance_turn(t: usize, p: usize, dir: TurnDirection) -> (r: usize)
    requires
        p >= 1,
        t < p,
    ensures
        r as int == step_turn(t as int, p as int, dir),
        r < p,
{
    match dir {
        TurnDirection::Clockwise => {
            if t + 1 == p {
                0
            } else {
                t + 1
            }
        },
        TurnDirection::CounterClockwise => {
            if t == 0 {
                p - 1
            } else {
                t - 1
            }
        },
    }
}

impl UnoGameState {
    /// A new game for `players` players (at most 4): a fresh shuffled
    /// deck, hands dealt round-robin, one card flipped to start the
    /// discard pile, player 0 to move, clockwise.
    pub fn new(players: usize) -> (r: Result<Self, UnoError>)
        ensures
            r is Ok <==> players <= 4,
            players > 4 ==> r == Err::<UnoGameState, UnoError>(UnoError::TooManyPlayers(players)),
            r matches Ok(g) ==> {
                &&& g.player_hands@.len() == players
                &&& forall|j: int|
                    0 <= j < players ==> (#[trigger] g.player_hands@[j])@.len()
                        == PLAYER_STARTING_HAND_SIZE
                &&& g.discard_deck@.len() == 1
                &&& g.main_deck@.len() == FULL_DECK_SIZE - 1 - players * PLAYER_STARTING_HAND_SIZE
                &&& g.current_turn == 0
                &&& g.turn_direction == TurnDirection::Clockwise
                &&& forall|c: UnoCard| total_multiset(g).count(c) == full_deck_count(c)
                &&& total_card_count(g) == FULL_DECK_SIZE
            },
    {
        broadcast use vstd::seq_lib::group_to_multiset_ensures;
        broadcast use vstd::multiset::group_multiset_axioms;

        if players > 4 {
            return Err(UnoError::TooManyPlayers(players));
        }
        let mut main_deck = UnoDeck::new();
        let ghost fresh = main_deck@;
        let player_hands = match main_deck.deal(players) {
            Ok(hands) => hands,
            Err(e) => {
                // Unreachable: a fresh deck holds enough cards for 4 hands.
                proof {
                    assert(false);
                }
                return Err(e);
            },
        };
        let ghost dealt = main_deck@;
        let starter = match main_deck.draw_card() {
            Some(card) => card,
            None => {
                // Unreachable: at least 79 cards remain after the deal.
                proof {
                    assert(false);
                }
                return Err(UnoError::NoCardsLeft);
            },
        };
        let discard_deck = UnoDeck(vec![starter]);
        let game = UnoGameState {
            main_deck,
            discard_deck,
            player_hands,
            turn_direction: TurnDirection::Clockwise,
            current_turn: 0,
        };
        proof {
            vstd::seq_lib::to_multiset_remove(dealt, dealt.len() - 1);
            assert(game.main_deck@ =~= dealt.remove(dealt.len() - 1));
            assert(dealt[dealt.len() - 1] == starter);
            assert(dealt.contains(starter));
            vstd::seq_lib::to_multiset_contains(dealt, starter);
            assert(game.discard_deck@ =~= Seq::<UnoCard>::empty().push(starter));
            vstd::seq_lib::to_multiset_build(Seq::<UnoCard>::empty(), starter);
            vstd::seq_lib::to_multiset_len(Seq::<UnoCard>::empty());
            vstd::multiset::lemma_multiset_empty_len(Seq::<UnoCard>::empty().to_multiset());
            assert forall|c: UnoCard| total_multiset(game).count(c) == full_deck_count(c) by {
                assert(fresh.to_multiset().count(c) == full_deck_count(c));
                assert(dealt.to_multiset().add(hands_multiset(game.player_hands@)).count(c)
                    == dealt.to_multiset().count(c) + hands_multiset(game.player_hands@).count(c));
                assert(game.main_deck@.to_multiset().count(c) == dealt.to_multiset().remove(
                    starter,
                ).count(c));
                assert(game.discard_deck@.to_multiset().count(c)
                    == Seq::<UnoCard>::empty().to_multiset().insert(starter).count(c));
                assert(total_multiset(game).count(c) == game.main_deck@.to_multiset().add(
                    game.discard_deck@.to_multiset(),
                ).add(hands_multiset(game.player_hands@)).count(c));
            }
        }
        Ok(game)
    }

    /// Draw `n` cards from the main deck, recycling the discard pile
    /// whenever the main deck runs dry mid-draw: all but the discard
    /// pile's top card move back into the main deck and are reshuffled,
    /// the top card alone remaining as the discard pile. The game must
    /// hold `n` cards outside the protected discard top; hands, turn and
    /// direction are untouched.
    pub fn draw_n_cards(&mut self, n: usize) -> (cards: Vec<UnoCard>)
        requires
            n <= cards_available(*old(self)),
        ensures
            cards@.len() == n,
            final(self).player_hands == old(self).player_hands,
            final(self).current_turn == old(self).current_turn,
            final(self).turn_direction == old(self).turn_direction,
            final(self).main_deck@.len() + final(self).discard_deck@.len() + n == old(
                self,
            ).main_deck@.len() + old(self).discard_deck@.len(),
            final(self).main_deck@.to_multiset().add(final(self).discard_deck@.to_multiset()).add(
                cards@.to_multiset(),
            ) == old(self).main_deck@.to_multiset().add(old(self).discard_deck@.to_multiset()),
            n <= old(self).main_deck@.len() ==> {
                &&& final(self).main_deck@ == old(self).main_deck@.take(
                    old(self).main_deck@.len() - n,
                )
                &&& final(self).discard_deck@ == old(self).discard_deck@
            },
            n > old(self).main_deck@.len() ==> {
                &&& final(self).discard_deck@.len() == 1
                &&& final(self).discard_deck@[0] == old(self).discard_deck@.last()
            },
            forall|i: int|
                0 <= i < n && i < old(self).main_deck@.len() ==> cards@[i] == old(
                    self,
                ).main_deck@[old(self).main_deck@.len() - 1 - i],
    {
        let ghost orig_main = self.main_deck@;
        let ghost orig_discard = self.discard_deck@;
        let ghost m = orig_main.len() as int;
        let ghost d = orig_discard.len() as int;
        let mut cards: Vec<UnoCard> = Vec::new();
        let ghost mut recycled: bool = false;
        proof {
            broadcast use vstd::seq_lib::group_to_multiset_ensures;
            broadcast use vstd::multiset::group_multiset_axioms;

            vstd::seq_lib::to_multiset_len(cards@);
            vstd::multiset::lemma_multiset_empty_len(cards@.to_multiset());
            assert(self.main_deck@.to_multiset().add(self.discard_deck@.to_multiset()).add(
                cards@.to_multiset(),
            ) =~= orig_main.to_multiset().add(orig_discard.to_multiset()));
        }
        let mut i: usize = 0;
        while i < n
            invariant
                i <= n,
                n <= m + (if d >= 1 {
                    d - 1
                } else {
                    0
                }),
                cards@.len() == i,
                self.player_hands == old(self).player_hands,
                self.current_turn == old(self).current_turn,
                self.turn_direction == old(self).turn_direction,
                orig_main == old(self).main_deck@,
                orig_discard == old(self).discard_deck@,
                m == orig_main.len(),
                d == orig_discard.len(),
                self.main_deck@.len() + self.discard_deck@.len() + i == m + d,
                self.main_deck@.to_multiset().add(self.discard_deck@.to_multiset()).add(
                    cards@.to_multiset(),
                ) == orig_main.to_multiset().add(orig_discard.to_multiset()),
                !recycled ==> self.main_deck@ == orig_main.take(m - i) && self.discard_deck@
                    == orig_discard && i <= m,
                recycled ==> self.discard_deck@.len() == 1 && self.discard_deck@[0]
                    == orig_discard.last() && i >= m && n > m && d >= 2,
                forall|k: int| 0 <= k < i && k < m ==> cards@[k] == orig_main[m - 1 - k],
            decreases n - i,
        {
            let ghost main_before = self.main_deck@;
            let ghost discard_before = self.discard_deck@;
            let ghost cards_before = cards@;
            match self.main_deck.draw_card() {
                Some(card) => {
                    cards.push(card);
                    proof {
                        broadcast use vstd::seq_lib::group_to_multiset_ensures;
                        broadcast use vstd::multiset::group_multiset_axioms;

                        vstd::seq_lib::to_multiset_remove(main_before, main_before.len() - 1);
                        assert(self.main_deck@ =~= main_before.remove(main_before.len() - 1));
                        assert(main_before[main_before.len() - 1] == card);
                        assert(main_before.contains(card));
                        vstd::seq_lib::to_multiset_contains(main_before, card);
                        assert(cards@ == cards_before.push(card));
                        vstd::seq_lib::to_multiset_build(cards_before, card);
                        assert forall|x: UnoCard|
                            self.main_deck@.to_multiset().add(
                                self.discard_deck@.to_multiset(),
                            ).add(cards@.to_multiset()).count(x) == orig_main.to_multiset().add(
                                orig_discard.to_multiset(),
                            ).count(x) by {
                            assert(main_before.to_multiset().add(
                                discard_before.to_multiset(),
                            ).add(cards_before.to_multiset()).count(x) == orig_main.to_multiset().add(
                                orig_discard.to_multiset(),
                            ).count(x));
                            assert(main_before.to_multiset().add(
                                discard_before.to_multiset(),
                            ).add(cards_before.to_multiset()).count(x)
                                == main_before.to_multiset().count(x)
                                + discard_before.to_multiset().count(x)
                                + cards_before.to_multiset().count(x));
                            assert(self.main_deck@.to_multiset().add(
                                self.discard_deck@.to_multiset(),
                            ).add(cards@.to_multiset()).count(x) == self.main_deck@.to_multiset().count(
                                x,
                            ) + self.discard_deck@.to_multiset().count(x)
                                + cards@.to_multiset().count(x));
                            assert(self.main_deck@.to_multiset().count(x)
                                == main_before.to_multiset().remove(card).count(x));
                            assert(cards@.to_multiset().count(x)
                                == cards_before.to_multiset().insert(card).count(x));
                        }
                        if !recycled {
                            assert(self.main_deck@ =~= orig_main.take(m - (i + 1)));
                            assert(cards@[i as int] == orig_main[m - 1 - i]);
                        }
                    }
                },
                None => {
                    // The main deck is dry: move all but the discard
                    // pile's top card back, reshuffle, and draw.
                    proof {
                        assert(self.main_deck@.len() == 0);
                        assert(!recycled);
                        assert(i == m);
                        assert(self.discard_deck@.len() == d);
                        assert(d >= 2);
                    }
                    let top_card = self.discard_deck.0.pop().unwrap();
                    let ghost rest = self.discard_deck@;
                    self.main_deck.0.append(&mut self.discard_deck.0);
                    let ghost pre_shuffle = self.main_deck@;
                    crate::deck::shuffle_cards(&mut self.main_deck.0);
                    self.discard_deck.0.push(top_card);
                    let ghost shuffled = self.main_deck@;
                    let card = match self.main_deck.draw_card() {
                        Some(card) => card,
                        None => {
                            // Unreachable: recycling moved at least one
                            // card into the main deck.
                            proof {
                                assert(false);
                            }
                            return cards;
                        },
                    };
                    cards.push(card);
                    proof {
                        broadcast use vstd::seq_lib::group_to_multiset_ensures;
                        broadcast use vstd::multiset::group_multiset_axioms;

                        recycled = true;
                        assert(rest =~= discard_before.remove(discard_before.len() - 1));
                        vstd::seq_lib::to_multiset_remove(
                            discard_before,
                            discard_before.len() - 1,
                        );
                        assert(discard_before[discard_before.len() - 1] == top_card);
                        assert(discard_before.contains(top_card));
                        vstd::seq_lib::to_multiset_contains(discard_before, top_card);
                        assert(pre_shuffle =~= rest);
                        assert(self.discard_deck@ =~= Seq::<UnoCard>::empty().push(top_card));
                        vstd::seq_lib::to_multiset_build(Seq::<UnoCard>::empty(), top_card);
                        vstd::seq_lib::to_multiset_len(Seq::<UnoCard>::empty());
                        vstd::multiset::lemma_multiset_empty_len(
                            Seq::<UnoCard>::empty().to_multiset(),
                        );
                        vstd::seq_lib::to_multiset_len(main_before);
                        vstd::multiset::lemma_multiset_empty_len(main_before.to_multiset());
                        assert(self.main_deck@ =~= shuffled.remove(shuffled.len() - 1));
                        vstd::seq_lib::to_multiset_remove(shuffled, shuffled.len() - 1);
                        assert(shuffled[shuffled.len() - 1] == card);
                        assert(shuffled.contains(card));
                        vstd::seq_lib::to_multiset_contains(shuffled, card);
                        assert(cards@ == cards_before.push(card));
                        vstd::seq_lib::to_multiset_build(cards_before, card);
                        assert forall|x: UnoCard|
                            self.main_deck@.to_multiset().add(
                                self.discard_deck@.to_multiset(),
                            ).add(cards@.to_multiset()).count(x) == orig_main.to_multiset().add(
                                orig_discard.to_multiset(),
                            ).count(x) by {
                            assert(main_before.to_multiset().add(
                                discard_before.to_multiset(),
                            ).add(cards_before.to_multiset()).count(x) == orig_main.to_multiset().add(
                                orig_discard.to_multiset(),
                            ).count(x));
                            assert(main_before.to_multiset().add(
                                discard_before.to_multiset(),
                            ).add(cards_before.to_multiset()).count(x)
                                == main_before.to_multiset().count(x)
                                + discard_before.to_multiset().count(x)
                                + cards_before.to_multiset().count(x));
                            assert(main_before.to_multiset().count(x) == 0);
                            assert(self.main_deck@.to_multiset().add(
                                self.discard_deck@.to_multiset(),
                            ).add(cards@.to_multiset()).count(x) == self.main_deck@.to_multiset().count(
                                x,
                            ) + self.discard_deck@.to_multiset().count(x)
                                + cards@.to_multiset().count(x));
                            assert(self.main_deck@.to_multiset().count(x)
                                == shuffled.to_multiset().remove(card).count(x));
                            assert(shuffled.to_multiset().count(x) == rest.to_multiset().count(x));
                            assert(rest.to_multiset().count(x)
                                == discard_before.to_multiset().remove(top_card).count(x));
                            assert(self.discard_deck@.to_multiset().count(x)
                                == Seq::<UnoCard>::empty().to_multiset().insert(top_card).count(
                                x,
                            ));
                            assert(cards@.to_multiset().count(x)
                                == cards_before.to_multiset().insert(card).count(x));
                        }
                        assert(self.discard_deck@.len() == 1);
                        assert(self.discard_deck@[0] == orig_discard.last());
                    }
                },
            }
            i = i + 1;
        }
        proof {
            if n <= m {
                assert(!recycled);
                assert(self.main_deck@ == orig_main.take(m - n));
                assert(self.discard_deck@ == orig_discard);
            } else {
                assert(recycled);
            }
        }
        cards
    }

    /// Force player `victim` to draw `n` cards, appended to their hand,
    /// recycling the discard pile if needed. Everything else is untouched.
    fn apply_draw_penalty(&mut self, victim: usize, n: usize)
        requires
            victim < old(self).player_hands@.len(),
            old(self).discard_deck@.len() >= 1,
            n <= old(self).main_deck@.len() + old(self).discard_deck@.len() - 1,
        ensures
            final(self).player_hands@.len() == old(self).player_hands@.len(),
            final(self).current_turn == old(self).current_turn,
            final(self).turn_direction == old(self).turn_direction,
            hand_views(*final(self))[victim as int].len() == hand_views(*old(self))[
                victim as int
            ].len() + n,
            hand_views(*final(self))[victim as int].take(
                hand_views(*old(self))[victim as int].len() as int,
            ) == hand_views(*old(self))[victim as int],
            forall|k: int|
                0 <= k < old(self).player_hands@.len() && k != victim ==> hand_views(
                    *final(self),
                )[k] == hand_views(*old(self))[k],
            n <= old(self).main_deck@.len() ==> {
                &&& final(self).main_deck@ == old(self).main_deck@.take(
                    old(self).main_deck@.len() - n,
                )
                &&& final(self).discard_deck@ == old(self).discard_deck@
                &&& hand_views(*final(self))[victim as int] == hand_views(*old(self))[
                    victim as int
                ] + Seq::new(
                    n as nat,
                    |i: int| old(self).main_deck@[old(self).main_deck@.len() - 1 - i],
                )
            },
            n > old(self).main_deck@.len() ==> {
                &&& final(self).discard_deck@ == seq![old(self).discard_deck@.last()]
                &&& final(self).main_deck@.len() == old(self).main_deck@.len() + old(
                    self,
                ).discard_deck@.len() - 1 - n
            },
            total_multiset(*final(self)) == total_multiset(*old(self)),
            total_card_count(*final(self)) == total_card_count(*old(self)),
    {
        broadcast use vstd::seq_lib::group_to_multiset_ensures;
        broadcast use vstd::multiset::group_multiset_axioms;

        let ghost g0 = *old(self);
        let mut drawn = self.draw_n_cards(n);
        let ghost drawn_view = drawn@;
        let ghost g1 = *self;
        let ghost hand_before = self.player_hands@[victim as int]@;
        let ghost hands_before = self.player_hands@;
        self.player_hands[victim].0.append(&mut drawn);
        proof {
            let vi = victim as int;
            assert(self.player_hands@[vi]@ == hand_before + drawn_view);
            assert(self.player_hands@ == hands_before.update(vi, self.player_hands@[vi]));
            lemma_hands_update(hands_before, vi, self.player_hands@[vi]);
            vstd::seq_lib::lemma_multiset_commutative(hand_before, drawn_view);
            // The appended hand, seen through the views sequence.
            assert forall|k: int|
                0 <= k < g0.player_hands@.len() && k != vi implies hand_views(*self)[k]
                == hand_views(g0)[k] by {
                assert(hand_views(*self)[k] == self.player_hands@[k]@);
                assert(hand_views(g0)[k] == g0.player_hands@[k]@);
            }
            assert(hand_views(*self)[vi] == hand_before + drawn_view);
            assert(hand_views(g0)[vi] == hand_before);
            assert(hand_views(*self)[vi].take(hand_before.len() as int) =~= hand_before);
            if n <= g0.main_deck@.len() {
                assert(hand_views(*self)[vi] =~= hand_views(g0)[vi] + Seq::new(
                    n as nat,
                    |i: int| g0.main_deck@[g0.main_deck@.len() - 1 - i],
                ));
            }
            // Conservation: the drawn cards moved from the piles to the hand.
            assert forall|x: UnoCard|
                total_multiset(*self).count(x) == total_multiset(g0).count(x) by {
                assert(total_multiset(*self).count(x) == self.main_deck@.to_multiset().add(
                    self.discard_deck@.to_multiset(),
                ).add(hands_multiset(self.player_hands@)).count(x));
                assert(total_multiset(g0).count(x) == g0.main_deck@.to_multiset().add(
                    g0.discard_deck@.to_multiset(),
                ).add(hands_multiset(g0.player_hands@)).count(x));
                assert(g1.main_deck@.to_multiset().add(g1.discard_deck@.to_multiset()).add(
                    drawn_view.to_multiset(),
                ).count(x) == g0.main_deck@.to_multiset().add(
                    g0.discard_deck@.to_multiset(),
                ).count(x));
                assert(hands_multiset(self.player_hands@).add(hands_before[vi]@.to_multiset()).count(
                    x,
                ) == hands_multiset(hands_before).add(
                    self.player_hands@[vi]@.to_multiset(),
                ).count(x));
                assert((hand_before + drawn_view).to_multiset().count(x)
                    == hand_before.to_multiset().add(drawn_view.to_multiset()).count(x));
            }
            assert(total_card_count(*self) == total_card_count(g0));
        }
    }

    /// Try to advance the game by having player `whos_turn` play
    /// `which_card`. The play is validated first — the player index, that
    /// the hand holds the card (a wild by its exact played state and
    /// `draw_4` flag), and that the card may sit on the discard top — and
    /// on any rejection the state is left exactly as it was. An accepted
    /// play moves the first matching copy from the hand to the discard
    /// top and applies the card's effect: every card advances the turn,
    /// Skip by two steps, Reverse flips the direction and steps once the
    /// new way, and Draw2 or a wild-draw-4 makes the next player draw 2
    /// or 4 cards and lose their turn.
    pub fn try_next(&mut self, whos_turn: usize, which_card: &UnoCard) -> (r: Result<
        (),
        UnoError,
    >)
        requires
            whos_turn < old(self).player_hands@.len() && old(self).player_hands@[
                whos_turn as int
            ]@.contains(*which_card) ==> old(self).discard_deck@.len() >= 1,
            try_next_check(*old(self), whos_turn as int, *which_card) is None ==> old(
                self,
            ).main_deck@.len() + old(self).discard_deck@.len() >= draw_penalty(*which_card),
        ensures
            r is Err <==> try_next_check(*old(self), whos_turn as int, *which_card) is Some,
            r matches Err(e) ==> try_next_check(*old(self), whos_turn as int, *which_card)
                == Some(e) && *final(self) == *old(self),
            total_multiset(*final(self)) == total_multiset(*old(self)),
            total_card_count(*final(self)) == total_card_count(*old(self)),
            r is Ok ==> ({
                let g0 = *old(self);
                let card = *which_card;
                let p = g0.player_hands@.len() as int;
                let d0 = g0.turn_direction;
                let t0 = (g0.current_turn as int) % p;
                let n = draw_penalty(card) as int;
                let hand0 = g0.player_hands@[whos_turn as int]@;
                hand0.index_of_first(card) matches Some(j) && ({
                    let hands1 = hand_views(g0).update(whos_turn as int, hand0.remove(j));
                    let v = step_turn(t0, p, d0);
                    &&& final(self).player_hands@.len() == p
                    &&& final(self).current_turn as int == turn_after_play(t0, p, d0, card).0
                    &&& final(self).turn_direction == turn_after_play(t0, p, d0, card).1
                    &&& n == 0 ==> hand_views(*final(self)) == hands1 && final(self).main_deck@
                        == g0.main_deck@ && final(self).discard_deck@ == g0.discard_deck@.push(
                        card,
                    )
                    &&& n > 0 ==> {
                        &&& hand_views(*final(self))[v].len() == hands1[v].len() + n
                        &&& hand_views(*final(self))[v].take(hands1[v].len() as int) == hands1[v]
                        &&& forall|k: int|
                            0 <= k < p && k != v ==> #[trigger] hand_views(*final(self))[k]
                                == hands1[k]
                        &&& n <= g0.main_deck@.len() ==> final(self).main_deck@
                            == g0.main_deck@.take(g0.main_deck@.len() - n)
                            && final(self).discard_deck@ == g0.discard_deck@.push(card)
                            && hand_views(*final(self))[v] == hands1[v] + Seq::new(
                            n as nat,
                            |i: int| g0.main_deck@[g0.main_deck@.len() - 1 - i],
                        )
                        &&& n > g0.main_deck@.len() ==> final(self).discard_deck@ == seq![card]
                            && final(self).main_deck@.len() == g0.main_deck@.len()
                            + g0.discard_deck@.len() - n
                    }
                })
            }),
    {
        broadcast use vstd::seq_lib::group_to_multiset_ensures;
        broadcast use vstd::multiset::group_multiset_axioms;

        let ghost g0 = *old(self);
        let p = self.player_hands.len();
        if whos_turn >= p {
            return Err(UnoError::InvalidPlayerNumber);
        }
        let ghost hand0 = self.player_hands@[whos_turn as int]@;
        let hand_len = self.player_hands[whos_turn].0.len();
        let mut card_idx: usize = 0;
        let mut found: bool = false;
        while !found && card_idx < hand_len
            invariant
                whos_turn < p,
                p == self.player_hands@.len(),
                hand0 == self.player_hands@[whos_turn as int]@,
                hand_len == hand0.len(),
                card_idx <= hand_len,
                forall|k: int| 0 <= k < card_idx ==> hand0[k] != *which_card,
                found ==> card_idx < hand_len && hand0[card_idx as int] == *which_card,
            decreases hand_len - card_idx, (if found {
                0int
            } else {
                1int
            }),
        {
            if self.player_hands[whos_turn].0[card_idx] == *which_card {
                found = true;
            } else {
                card_idx = card_idx + 1;
            }
        }
        if !found {
            proof {
                assert(!hand0.contains(*which_card));
            }
            return Err(UnoError::Cheating);
        }
        proof {
            assert(hand0.contains(*which_card));
        }

        let top_idx = self.discard_deck.0.len() - 1;
        let top_card = self.discard_deck.0[top_idx];
        proof {
            assert(top_card == g0.discard_deck@.last());
        }
        match which_card.playable_on(&top_card) {
            Err(e) => {
                return Err(UnoError::CardNotPlayable(e));
            },
            Ok(_) => {},
        }
        proof {
            assert(try_next_check(g0, whos_turn as int, *which_card) is None);
            // The search found the first matching copy.
            hand0.index_of_first_ensures(*which_card);
            match hand0.index_of_first(*which_card) {
                Some(idx) => {
                    assert(hand0[idx] == *which_card);
                    assert(idx == card_idx as int);
                },
                None => {
                    assert(false);
                },
            }
        }

        // Move the card from the hand to the discard top.
        let ghost hands_before = self.player_hands@;
        let played = self.player_hands[whos_turn].0.remove(card_idx);
        proof {
            assert(played == *which_card);
        }
        self.discard_deck.0.push(played);
        let ghost g1 = *self;
        proof {
            let wi = whos_turn as int;
            assert(g1.player_hands@[wi]@ == hand0.remove(card_idx as int));
            assert(g1.player_hands@ == hands_before.update(wi, g1.player_hands@[wi]));
            lemma_hands_update(hands_before, wi, g1.player_hands@[wi]);
            vstd::seq_lib::to_multiset_remove(hand0, card_idx as int);
            assert(g1.discard_deck@ == g0.discard_deck@.push(played));
            vstd::seq_lib::to_multiset_build(g0.discard_deck@, played);
            assert forall|x: UnoCard|
                total_multiset(g1).count(x) == total_multiset(g0).count(x) by {
                assert(total_multiset(g1).count(x) == g1.main_deck@.to_multiset().add(
                    g1.discard_deck@.to_multiset(),
                ).add(hands_multiset(g1.player_hands@)).count(x));
                assert(total_multiset(g0).count(x) == g0.main_deck@.to_multiset().add(
                    g0.discard_deck@.to_multiset(),
                ).add(hands_multiset(g0.player_hands@)).count(x));
                assert(hands_multiset(g1.player_hands@).add(hands_before[wi]@.to_multiset()).count(
                    x,
                ) == hands_multiset(hands_before).add(g1.player_hands@[wi]@.to_multiset()).count(
                    x,
                ));
                assert(g1.player_hands@[wi]@.to_multiset().count(x)
                    == hand0.to_multiset().remove(hand0[card_idx as int]).count(x));
                assert(hand0.to_multiset().count(played) > 0);
                assert(g1.discard_deck@.to_multiset().count(x)
                    == g0.discard_deck@.to_multiset().insert(played).count(x));
            }
            assert(total_card_count(g1) == total_card_count(g0));
            // The hands after the play, seen through the views sequence.
            assert forall|k: int|
                0 <= k < p && k != wi implies hand_views(g1)[k] == hand_views(g0)[k] by {
                assert(hand_views(g1)[k] == g1.player_hands@[k]@);
                assert(hand_views(g0)[k] == g0.player_hands@[k]@);
            }
            assert(hand_views(g1) =~= hand_views(g0).update(
                wi,
                hand0.remove(card_idx as int),
            ));
        }

        // Apply the card's effect on turn and direction.
        let t = self.current_turn % p;
        let dir = self.turn_direction;
        proof {
            assert(t < p) by {
                assert(t == g0.current_turn as int % p as int);
            }
            assert(draw_penalty(played) > 0 ==> self.main_deck@.len() + self.discard_deck@.len()
                - 1 >= draw_penalty(played));
        }
        match played {
            UnoCard::Card { value, .. } => match value {
                UnoValue::Skip => {
                    let t1 = advance_turn(t, p, dir);
                    self.current_turn = advance_turn(t1, p, dir);
                },
                UnoValue::Reverse => {
                    let new_dir = match dir {
                        TurnDirection::Clockwise => TurnDirection::CounterClockwise,
                        TurnDirection::CounterClockwise => TurnDirection::Clockwise,
                    };
                    self.turn_direction = new_dir;
                    self.current_turn = advance_turn(t, p, new_dir);
                },
                UnoValue::Draw2 => {
                    let victim = advance_turn(t, p, dir);
                    self.apply_draw_penalty(victim, 2);
                    self.current_turn = advance_turn(victim, p, dir);
                },
                _ => {
                    self.current_turn = advance_turn(t, p, dir);
                },
            },
            UnoCard::Wild(wild) => match wild {
                UnoWildCard::Played { draw_4, .. } => {
                    if draw_4 {
                        let victim = advance_turn(t, p, dir);
                        self.apply_draw_penalty(victim, 4);
                        self.current_turn = advance_turn(victim, p, dir);
                    } else {
                        self.current_turn = advance_turn(t, p, dir);
                    }
                },
                UnoWildCard::Unplayed { .. } => {
                    // Unreachable: an unplayed wild fails the
                    // playability check above.
                    proof {
                        assert(false);
                    }
                },
            },
        }
        Ok(())
    }
}

} // verus!
