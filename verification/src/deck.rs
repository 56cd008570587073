//! The deck: an ordered sequence of cards whose last element is the top.
//! One type serves three roles: the main draw deck, the discard pile, and
//! each player's hand. Construction yields the canonical 108-card set,
//! shuffled; dealing hands cards out round-robin.

use vstd::multiset::Multiset;
use vstd::prelude::*;

use crate::cards::{
    color_index, lemma_color_of_index_roundtrip, lemma_color_roundtrip,
    lemma_value_of_index_roundtrip, lemma_value_roundtrip, value_index, UnoCard,
    UnoCardMatchError, UnoColor, UnoValue, UnoWildCard,
};
use rand::seq::SliceRandom;

verus! {

/// How many copies of a card a full, freshly built deck holds: one zero
/// per color, two of every other colored value, four plain wilds and four
/// wild-draw-4s (wilds start unplayed), 108 cards in all.
pub open spec fn full_deck_count(c: UnoCard) -> nat {
    match c {
        UnoCard::Card { value: UnoValue::Zero, .. } => 1,
        UnoCard::Card { .. } => 2,
        UnoCard::Wild(UnoWildCard::Unplayed { .. }) => 4,
        UnoCard::Wild(UnoWildCard::Played { .. }) => 0,
    }
}

/// The number of cards in a full deck.
pub const FULL_DECK_SIZE: usize = 108;

/// The number of cards dealt to each player at the start of a game.
pub const PLAYER_STARTING_HAND_SIZE: usize = 7;

/// Why a play or a deal was rejected.
#[derive(Clone, Copy, Debug, PartialEq, Eq, Structural)]
pub enum UnoError {
    /// Not enough cards to deal to this many players (the maximum is 4).
    TooManyPlayers(usize),
    /// Not enough cards left to deal.
    NoCardsLeft,
    /// The player index is out of range.
    InvalidPlayerNumber,
    /// The player does not have the named card in their hand.
    Cheating,
    /// The card cannot be played on the top of the discard pile.
    CardNotPlayable(UnoCardMatchError),
}

/// An ordered sequence of cards; the last element is the top, where cards
/// are drawn from and discarded to.
pub struct UnoDeck(pub Vec<UnoCard>);

impl View for UnoDeck {
    type V = Seq<UnoCard>;

    open spec fn view(&self) -> Seq<UnoCard> {
        self.0@
    }
}

/// All the cards held across a sequence of decks (the players' hands),
/// as a multiset.
pub open spec fn hands_multiset(hands: Seq<UnoDeck>) -> Multiset<UnoCard>
    decreases hands.len(),
{
    if hands.len() == 0 {
        Multiset::empty()
    } else {
        hands_multiset(hands.drop_last()).add(hands.last()@.to_multiset())
    }
}

/// The number of cards held across a sequence of decks.
pub open spec fn hands_card_count(hands: Seq<UnoDeck>) -> int
    decreases hands.len(),
{
    if hands.len() == 0 {
        0
    } else {
        hands_card_count(hands.drop_last()) + hands.last()@.len()
    }
}

/// Replacing one deck of a hand sequence exchanges exactly that deck's
/// cards in the combined multiset, and its length in the combined count.
pub proof fn lemma_hands_update(hands: Seq<UnoDeck>, j: int, d: UnoDeck)
    requires
        0 <= j < hands.len(),
    ensures
        hands_multiset(hands.update(j, d)).add(hands[j]@.to_multiset()) == hands_multiset(
            hands,
        ).add(d@.to_multiset()),
        hands_card_count(hands.update(j, d)) == hands_card_count(hands) - hands[j]@.len()
            + d@.len(),
    decreases hands.len(),
{
    let updated = hands.update(j, d);
    assert(updated.len() == hands.len());
    if j == hands.len() - 1 {
        assert(updated.drop_last() =~= hands.drop_last());
        assert(updated.last() == d);
        assert(hands.last() == hands[j]);
        assert(hands_multiset(updated) == hands_multiset(hands.drop_last()).add(
            d@.to_multiset(),
        ));
        assert(hands_multiset(hands) == hands_multiset(hands.drop_last()).add(
            hands[j]@.to_multiset(),
        ));
        assert forall|x: UnoCard|
            hands_multiset(updated).add(hands[j]@.to_multiset()).count(x) == hands_multiset(
                hands,
            ).add(d@.to_multiset()).count(x) by {
            assert(hands_multiset(hands.drop_last()).add(d@.to_multiset()).count(x)
                == hands_multiset(hands.drop_last()).count(x) + d@.to_multiset().count(x));
            assert(hands_multiset(hands.drop_last()).add(hands[j]@.to_multiset()).count(x)
                == hands_multiset(hands.drop_last()).count(x) + hands[j]@.to_multiset().count(x));
        }
        assert(hands_multiset(updated).add(hands[j]@.to_multiset()) =~= hands_multiset(hands).add(
            d@.to_multiset(),
        ));
    } else {
        let shorter = hands.drop_last();
        assert(updated.drop_last() =~= shorter.update(j, d));
        assert(updated.last() == hands.last());
        assert(shorter[j] == hands[j]);
        lemma_hands_update(shorter, j, d);
        assert(hands_multiset(updated) == hands_multiset(shorter.update(j, d)).add(
            hands.last()@.to_multiset(),
        ));
        assert(hands_multiset(hands) == hands_multiset(shorter).add(hands.last()@.to_multiset()));
        assert forall|x: UnoCard|
            hands_multiset(updated).add(hands[j]@.to_multiset()).count(x) == hands_multiset(
                hands,
            ).add(d@.to_multiset()).count(x) by {
            assert(hands_multiset(shorter.update(j, d)).add(shorter[j]@.to_multiset()).count(x)
                == hands_multiset(shorter).add(d@.to_multiset()).count(x));
            assert(hands_multiset(shorter.update(j, d)).add(shorter[j]@.to_multiset()).count(x)
                == hands_multiset(shorter.update(j, d)).count(x) + shorter[j]@.to_multiset().count(
                x,
            ));
            assert(hands_multiset(shorter).add(d@.to_multiset()).count(x) == hands_multiset(
                shorter,
            ).count(x) + d@.to_multiset().count(x));
            assert(hands_multiset(updated).add(hands[j]@.to_multiset()).count(x) == hands_multiset(
                updated,
            ).count(x) + hands[j]@.to_multiset().count(x));
            assert(hands_multiset(hands).add(d@.to_multiset()).count(x) == hands_multiset(
                hands,
            ).count(x) + d@.to_multiset().count(x));
            assert(hands_multiset(updated).count(x) == hands_multiset(shorter.update(j, d)).count(
                x,
            ) + hands.last()@.to_multiset().count(x));
            assert(hands_multiset(hands).count(x) == hands_multiset(shorter).count(x)
                + hands.last()@.to_multiset().count(x));
        }
        assert(hands_multiset(updated).add(hands[j]@.to_multiset()) =~= hands_multiset(hands).add(
            d@.to_multiset(),
        ));
    }
}

/// A hand sequence in which every hand holds `h` cards holds
/// `h * hands.len()` cards in all.
pub proof fn lemma_hands_card_count_uniform(hands: Seq<UnoDeck>, h: int)
    requires
        forall|j: int| 0 <= j < hands.len() ==> (#[trigger] hands[j])@.len() == h,
    ensures
        hands_card_count(hands) == h * hands.len(),
    decreases hands.len(),
{
    if hands.len() > 0 {
        lemma_hands_card_count_uniform(hands.drop_last(), h);
        assert(hands_card_count(hands) == h * (hands.len() - 1) + h);
        assert(h * hands.len() == h * (hands.len() - 1) + h) by (nonlinear_arith);
    }
}

/// Relies on rand's `SliceRandom::shuffle` with `rand::thread_rng`: a
/// Fisher-Yates shuffle that permutes the slice in place by swaps, so the
/// result holds exactly the cards it was given, in some order.
#[verifier::external_body]
pub(crate) fn shuffle_cards(cards: &mut Vec<UnoCard>)
    ensures
        final(cards)@.to_multiset() == old(cards)@.to_multiset(),
        final(cards)@.len() == old(cards)@.len(),
{
    cards.shuffle(&mut rand::thread_rng());
}

/// The count, within the second color-permutation set built so far, of the
/// colored card (c, v): the second set skips the zero cards and is built
/// color by color, and within a color value by value, up to (ci, vi).
spec fn second_set_count(c: UnoColor, v: UnoValue, ci: int, vi: int) -> nat {
    if v != UnoValue::Zero && (color_index(c) < ci || (color_index(c) == ci && value_index(v)
        < vi)) {
        1
    } else {
        0
    }
}

impl UnoDeck {
    /// A brand new, shuffled, full deck: per color one 0 card, two of each
    /// of the other twelve values, plus 4 plain wilds and 4 wild-draw-4s —
    /// 108 cards in all.
    pub fn new() -> (r: Self)
        ensures
            r@.len() == FULL_DECK_SIZE,
            forall|c: UnoCard| r@.to_multiset().count(c) == full_deck_count(c),
    {
        broadcast use vstd::seq_lib::group_to_multiset_ensures;

        let mut cards: Vec<UnoCard> = Vec::with_capacity(FULL_DECK_SIZE);

        // Two sets of the 52 color permutations, the second without its
        // zero cards, so that each color keeps a single zero.
        let mut first_set = UnoCard::color_permutations();
        let ghost first_view = first_set@;
        cards.append(&mut first_set);
        proof {
            assert(cards@ =~= first_view);
        }

        let colors: Vec<UnoColor> =
            vec![UnoColor::Red, UnoColor::Blue, UnoColor::Green, UnoColor::Yellow];
        let values: Vec<UnoValue> = vec![
            UnoValue::Zero,
            UnoValue::One,
            UnoValue::Two,
            UnoValue::Three,
            UnoValue::Four,
            UnoValue::Five,
            UnoValue::Six,
            UnoValue::Seven,
            UnoValue::Eight,
            UnoValue::Nine,
            UnoValue::Skip,
            UnoValue::Reverse,
            UnoValue::Draw2,
        ];
        let mut ci: usize = 0;
        while ci < 4
            invariant
                colors@.len() == 4,
                values@.len() == 13,
                forall|i: int| 0 <= i < 4 ==> colors@[i] == crate::cards::color_of_index(i),
                forall|i: int| 0 <= i < 13 ==> values@[i] == crate::cards::value_of_index(i),
                0 <= ci <= 4,
                cards@.len() == 52 + ci * 12,
                forall|c: UnoColor, v: UnoValue|
                    cards@.to_multiset().count(UnoCard::Card { color: c, value: v }) == 1
                        + second_set_count(c, v, ci as int, 1),
                forall|w: UnoWildCard| cards@.to_multiset().count(UnoCard::Wild(w)) == 0,
            decreases 4 - ci,
        {
            let mut vi: usize = 1;
            while vi < 13
                invariant
                    colors@.len() == 4,
                    values@.len() == 13,
                    forall|i: int| 0 <= i < 4 ==> colors@[i] == crate::cards::color_of_index(i),
                    forall|i: int| 0 <= i < 13 ==> values@[i] == crate::cards::value_of_index(i),
                    0 <= ci < 4,
                    1 <= vi <= 13,
                    cards@.len() == 52 + ci * 12 + (vi - 1),
                    forall|c: UnoColor, v: UnoValue|
                        cards@.to_multiset().count(UnoCard::Card { color: c, value: v }) == 1
                            + second_set_count(c, v, ci as int, vi as int),
                    forall|w: UnoWildCard| cards@.to_multiset().count(UnoCard::Wild(w)) == 0,
                decreases 13 - vi,
            {
                let card = UnoCard::Card { color: colors[ci], value: values[vi] };
                let ghost before = cards@;
                cards.push(card);
                proof {
                    broadcast use vstd::seq_lib::group_to_multiset_ensures;
                    broadcast use vstd::multiset::group_multiset_axioms;

                    assert(cards@ == before.push(card));
                    vstd::seq_lib::to_multiset_build(before, card);
                    lemma_color_of_index_roundtrip(ci as int);
                    lemma_value_of_index_roundtrip(vi as int);
                    assert forall|c: UnoColor, v: UnoValue|
                        cards@.to_multiset().count(UnoCard::Card { color: c, value: v }) == 1
                            + second_set_count(c, v, ci as int, vi as int + 1) by {
                        lemma_color_roundtrip(c);
                        lemma_value_roundtrip(v);
                        let cv = UnoCard::Card { color: c, value: v };
                        assert(cards@.to_multiset().count(cv) == before.to_multiset().insert(
                            card,
                        ).count(cv));
                        if cv == card {
                            assert(color_index(c) == ci as int);
                            assert(value_index(v) == vi as int);
                            assert(v != UnoValue::Zero);
                            assert(second_set_count(c, v, ci as int, vi as int) == 0);
                            assert(second_set_count(c, v, ci as int, vi as int + 1) == 1);
                            assert(cards@.to_multiset().count(cv) == before.to_multiset().count(cv)
                                + 1);
                        } else {
                            assert(!(color_index(c) == ci as int && value_index(v) == vi as int));
                            assert(second_set_count(c, v, ci as int, vi as int)
                                == second_set_count(c, v, ci as int, vi as int + 1));
                            assert(cards@.to_multiset().count(cv) == before.to_multiset().count(
                                cv,
                            ));
                        }
                    }
                }
                vi = vi + 1;
            }
            proof {
                assert forall|c: UnoColor, v: UnoValue|
                    cards@.to_multiset().count(UnoCard::Card { color: c, value: v }) == 1
                        + second_set_count(c, v, ci as int + 1, 1) by {
                    lemma_value_roundtrip(v);
                    assert(second_set_count(c, v, ci as int, 13) == second_set_count(
                        c,
                        v,
                        ci as int + 1,
                        1,
                    ));
                }
            }
            ci = ci + 1;
        }

        proof {
            assert forall|c: UnoColor, v: UnoValue|
                cards@.to_multiset().count(UnoCard::Card { color: c, value: v })
                    == full_deck_count(UnoCard::Card { color: c, value: v }) by {
                lemma_color_roundtrip(c);
                lemma_value_roundtrip(v);
                let s = second_set_count(c, v, 4, 1);
                assert(cards@.to_multiset().count(UnoCard::Card { color: c, value: v }) == 1 + s);
            }
        }

        // 4 plain wild cards and 4 wild-draw-4 cards.
        let mut i: usize = 0;
        while i < 8
            invariant
                0 <= i <= 8,
                cards@.len() == 100 + i,
                forall|c: UnoColor, v: UnoValue|
                    cards@.to_multiset().count(UnoCard::Card { color: c, value: v })
                        == full_deck_count(UnoCard::Card { color: c, value: v }),
                cards@.to_multiset().count(UnoCard::Wild(UnoWildCard::Unplayed { draw_4: true }))
                    == (if i <= 4 {
                    i as int
                } else {
                    4
                }),
                cards@.to_multiset().count(UnoCard::Wild(UnoWildCard::Unplayed { draw_4: false }))
                    == (if i <= 4 {
                    0
                } else {
                    i - 4
                }),
                forall|w: UnoWildCard|
                    w matches UnoWildCard::Played { .. } ==> cards@.to_multiset().count(
                        UnoCard::Wild(w),
                    ) == 0,
            decreases 8 - i,
        {
            let card = UnoCard::Wild(UnoWildCard::Unplayed { draw_4: i < 4 });
            let ghost before = cards@;
            cards.push(card);
            proof {
                broadcast use vstd::seq_lib::group_to_multiset_ensures;
                broadcast use vstd::multiset::group_multiset_axioms;

                assert(cards@ == before.push(card));
                vstd::seq_lib::to_multiset_build(before, card);
                assert forall|c: UnoColor, v: UnoValue|
                    cards@.to_multiset().count(UnoCard::Card { color: c, value: v })
                        == full_deck_count(UnoCard::Card { color: c, value: v }) by {
                    let cv = UnoCard::Card { color: c, value: v };
                    assert(cards@.to_multiset().count(cv) == before.to_multiset().insert(
                        card,
                    ).count(cv));
                }
                assert forall|w: UnoWildCard|
                    w matches UnoWildCard::Played { .. } ==> cards@.to_multiset().count(
                        UnoCard::Wild(w),
                    ) == 0 by {
                    assert(cards@.to_multiset().count(UnoCard::Wild(w))
                        == before.to_multiset().insert(card).count(UnoCard::Wild(w)));
                }
            }
            i = i + 1;
        }

        let ghost pre_shuffle = cards@;
        shuffle_cards(&mut cards);

        proof {
            assert(cards@.to_multiset() == pre_shuffle.to_multiset());
            assert forall|c: UnoCard| cards@.to_multiset().count(c) == full_deck_count(c) by {
                match c {
                    UnoCard::Card { color, value } => {
                        assert(pre_shuffle.to_multiset().count(
                            UnoCard::Card { color, value },
                        ) == full_deck_count(UnoCard::Card { color, value }));
                    },
                    UnoCard::Wild(w) => match w {
                        UnoWildCard::Unplayed { draw_4 } => {
                            if draw_4 {
                                assert(pre_shuffle.to_multiset().count(
                                    UnoCard::Wild(UnoWildCard::Unplayed { draw_4: true }),
                                ) == 4);
                            } else {
                                assert(pre_shuffle.to_multiset().count(
                                    UnoCard::Wild(UnoWildCard::Unplayed { draw_4: false }),
                                ) == 4);
                            }
                        },
                        UnoWildCard::Played { .. } => {
                            assert(pre_shuffle.to_multiset().count(UnoCard::Wild(w)) == 0);
                        },
                    },
                }
            }
        }
        UnoDeck(cards)
    }

    /// Draw the top (last) card, or nothing if the deck is empty.
    pub fn draw_card(&mut self) -> (r: Option<UnoCard>)
        ensures
            old(self)@.len() == 0 ==> r is None && final(self)@ == old(self)@,
            old(self)@.len() > 0 ==> r == Some(old(self)@.last()) && final(self)@ == old(
                self,
            )@.drop_last(),
    {
        self.0.pop()
    }

    /// Deal starting hands to `players` players, round-robin: one card to
    /// player 0, then player 1, and so on, repeating until every player
    /// holds `PLAYER_STARTING_HAND_SIZE` cards. Fails, taking no card, if
    /// the deck does not hold enough cards.
    pub fn deal(&mut self, players: usize) -> (r: Result<Vec<UnoDeck>, UnoError>)
        ensures
            r is Ok <==> old(self)@.len() >= players * PLAYER_STARTING_HAND_SIZE,
            r is Err ==> r == Err::<Vec<UnoDeck>, UnoError>(UnoError::NoCardsLeft) && final(self)@
                == old(self)@,
            r matches Ok(hands) ==> {
                &&& hands@.len() == players
                &&& forall|j: int|
                    0 <= j < players ==> (#[trigger] hands@[j])@.len()
                        == PLAYER_STARTING_HAND_SIZE
                &&& forall|j: int, k: int|
                    0 <= j < players && 0 <= k < PLAYER_STARTING_HAND_SIZE ==> #[trigger] hands@[
                        j
                    ]@[k] == old(self)@[old(self)@.len() - 1 - (k * players + j)]
                &&& final(self)@ == old(self)@.take(
                    old(self)@.len() - players * PLAYER_STARTING_HAND_SIZE,
                )
                &&& final(self)@.to_multiset().add(hands_multiset(hands@)) == old(
                    self,
                )@.to_multiset()
                &&& hands_card_count(hands@) == players * PLAYER_STARTING_HAND_SIZE
            },
    {
        broadcast use vstd::seq_lib::group_to_multiset_ensures;

        let len = self.0.len();
        if players > 0 && len / players < PLAYER_STARTING_HAND_SIZE {
            proof {
                vstd::arithmetic::div_mod::lemma_fundamental_div_mod(len as int, players as int);
                vstd::arithmetic::mul::lemma_mul_inequality(
                    (len as int) / (players as int),
                    PLAYER_STARTING_HAND_SIZE - 1,
                    players as int,
                );
            }
            return Err(UnoError::NoCardsLeft);
        }
        proof {
            if players > 0 {
                vstd::arithmetic::div_mod::lemma_fundamental_div_mod(len as int, players as int);
                vstd::arithmetic::mul::lemma_mul_inequality(
                    PLAYER_STARTING_HAND_SIZE as int,
                    (len as int) / (players as int),
                    players as int,
                );
            }
        }

        let mut player_hands: Vec<UnoDeck> = Vec::new();
        let mut j: usize = 0;
        while j < players
            invariant
                player_hands@.len() == j,
                j <= players,
                forall|x: int| 0 <= x < j ==> (#[trigger] player_hands@[x])@.len() == 0,
            decreases players - j,
        {
            player_hands.push(UnoDeck(Vec::new()));
            j = j + 1;
        }
        proof {
            lemma_hands_empty_multiset(player_hands@);
        }

        let ghost orig = self@;
        let mut k: usize = 0;
        while k < PLAYER_STARTING_HAND_SIZE
            invariant
                0 <= k <= PLAYER_STARTING_HAND_SIZE,
                orig == old(self)@,
                orig.len() >= players * PLAYER_STARTING_HAND_SIZE,
                player_hands@.len() == players,
                self@ == orig.take(orig.len() - k * players),
                forall|x: int| 0 <= x < players ==> (#[trigger] player_hands@[x])@.len() == k,
                forall|x: int, y: int|
                    0 <= x < players && 0 <= y < k ==> #[trigger] player_hands@[x]@[y] == orig[
                        orig.len() - 1 - (y * players + x)
                    ],
                self@.to_multiset().add(hands_multiset(player_hands@)) == orig.to_multiset(),
            decreases PLAYER_STARTING_HAND_SIZE - k,
        {
            let mut j: usize = 0;
            while j < players
                invariant
                    0 <= k < PLAYER_STARTING_HAND_SIZE,
                    0 <= j <= players,
                    orig == old(self)@,
                    orig.len() >= players * PLAYER_STARTING_HAND_SIZE,
                    player_hands@.len() == players,
                    self@ == orig.take(orig.len() - (k * players + j)),
                    forall|x: int|
                        0 <= x < players ==> (#[trigger] player_hands@[x])@.len() == k + (if x < j {
                            1int
                        } else {
                            0int
                        }),
                    forall|x: int, y: int|
                        0 <= x < players && 0 <= y < k + (if x < j {
                            1int
                        } else {
                            0int
                        }) ==> #[trigger] player_hands@[x]@[y] == orig[orig.len() - 1 - (y
                            * players + x)],
                    self@.to_multiset().add(hands_multiset(player_hands@)) == orig.to_multiset(),
                decreases players - j,
            {
                proof {
                    vstd::arithmetic::mul::lemma_mul_inequality(
                        k as int + 1,
                        PLAYER_STARTING_HAND_SIZE as int,
                        players as int,
                    );
                    assert((k + 1) * players == k * players + players) by (nonlinear_arith);
                }
                let ghost deck_before = self@;
                let ghost hands_before = player_hands@;
                let card = match self.0.pop() {
                    Some(card) => card,
                    None => {
                        // Unreachable: the upfront size check guarantees
                        // enough cards for the whole deal.
                        proof {
                            assert(false);
                        }
                        return Err(UnoError::NoCardsLeft);
                    },
                };
                let ghost hand_before = player_hands@[j as int]@;
                player_hands[j].0.push(card);
                proof {
                    broadcast use vstd::seq_lib::group_to_multiset_ensures;
                    broadcast use vstd::multiset::group_multiset_axioms;

                    assert(self@ =~= orig.take(orig.len() - (k * players + j + 1)));
                    vstd::seq_lib::to_multiset_remove(deck_before, deck_before.len() - 1);
                    assert(self@ =~= deck_before.remove(deck_before.len() - 1));
                    assert(deck_before[deck_before.len() - 1] == card);
                    assert(deck_before.contains(card));
                    vstd::seq_lib::to_multiset_contains(deck_before, card);
                    assert(deck_before.to_multiset().count(card) > 0);
                    assert(player_hands@[j as int]@ == hand_before.push(card));
                    vstd::seq_lib::to_multiset_build(hand_before, card);
                    assert(player_hands@ == hands_before.update(
                        j as int,
                        player_hands@[j as int],
                    ));
                    let newd = player_hands@[j as int];
                    lemma_hands_update(hands_before, j as int, newd);
                    assert forall|x: UnoCard|
                        self@.to_multiset().add(hands_multiset(player_hands@)).count(x)
                            == orig.to_multiset().count(x) by {
                        assert(self@.to_multiset().add(hands_multiset(player_hands@)).count(x)
                            == self@.to_multiset().count(x) + hands_multiset(
                            player_hands@,
                        ).count(x));
                        assert(deck_before.to_multiset().add(hands_multiset(hands_before)).count(x)
                            == deck_before.to_multiset().count(x) + hands_multiset(
                            hands_before,
                        ).count(x));
                        assert(hands_multiset(player_hands@).add(
                            hands_before[j as int]@.to_multiset(),
                        ).count(x) == hands_multiset(player_hands@).count(x)
                            + hands_before[j as int]@.to_multiset().count(x));
                        assert(hands_multiset(hands_before).add(newd@.to_multiset()).count(x)
                            == hands_multiset(hands_before).count(x) + newd@.to_multiset().count(
                            x,
                        ));
                        assert(newd@.to_multiset().count(x) == hand_before.to_multiset().insert(
                            card,
                        ).count(x));
                        assert(self@.to_multiset().count(x) == deck_before.to_multiset().remove(
                            card,
                        ).count(x));
                    }
                    assert(self@.to_multiset().add(hands_multiset(player_hands@))
                        =~= orig.to_multiset());
                }
                j = j + 1;
            }
            proof {
                assert((k + 1) * players == k * players + players) by (nonlinear_arith);
            }
            k = k + 1;
        }
        proof {
            lemma_hands_card_count_uniform(player_hands@, PLAYER_STARTING_HAND_SIZE as int);
            assert(PLAYER_STARTING_HAND_SIZE * (players as int) == (players as int)
                * PLAYER_STARTING_HAND_SIZE) by (nonlinear_arith);
        }
        Ok(player_hands)
    }

    /// A fresh main deck made from a discard pile: the same cards,
    /// reshuffled.
    pub fn from_discard(discard_deck: &UnoDeck) -> (r: UnoDeck)
        ensures
            r@.to_multiset() == discard_deck@.to_multiset(),
            r@.len() == discard_deck@.len(),
    {
        let mut cards = discard_deck.0.clone();
        proof {
            assert(cards@ =~= discard_deck@);
        }
        shuffle_cards(&mut cards);
        UnoDeck(cards)
    }
}

/// A sequence of empty decks holds no cards.
proof fn lemma_hands_empty_multiset(hands: Seq<UnoDeck>)
    requires
        forall|x: int| 0 <= x < hands.len() ==> (#[trigger] hands[x])@.len() == 0,
    ensures
        hands_multiset(hands) == Multiset::<UnoCard>::empty(),
    decreases hands.len(),
{
    broadcast use vstd::seq_lib::group_to_multiset_ensures;

    if hands.len() > 0 {
        lemma_hands_empty_multiset(hands.drop_last());
        assert(hands.last()@.to_multiset().len() == 0);
        assert(hands_multiset(hands) =~= Multiset::<UnoCard>::empty());
    }
}

impl Default for UnoDeck {
    /// The same as `UnoDeck::new`: a fresh, shuffled, full deck.
    fn default() -> (r: Self)
        ensures
            r@.len() == FULL_DECK_SIZE,
            forall|c: UnoCard| r@.to_multiset().count(c) == full_deck_count(c),
    {
        Self::new()
    }
}

} // verus!
