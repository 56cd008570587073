//! The card model: colors, values, wild-card sub-states, the pairwise
//! playability rule, and the generator of all colored (color, value)
//! combinations that deck construction builds on.

use vstd::prelude::*;

verus! {

/// The four card colors.
#[derive(Clone, Copy, Debug, PartialEq, Eq, Structural)]
pub enum UnoColor {
    Red,
    Blue,
    Green,
    Yellow,
}

/// The thirteen card values: the numerals 0 through 9 and the three
/// action values.
#[derive(Clone, Copy, Debug, PartialEq, Eq, Structural)]
pub enum UnoValue {
    Zero,
    One,
    Two,
    Three,
    Four,
    Five,
    Six,
    Seven,
    Eight,
    Nine,
    Skip,
    Reverse,
    Draw2,
}

/// A wild card: colorless until it is played, at which moment its color is
/// fixed. `draw_4` distinguishes the penalty variant.
#[derive(Clone, Copy, Debug, PartialEq, Eq, Structural)]
pub enum UnoWildCard {
    Played { draw_4: bool, color: UnoColor },
    Unplayed { draw_4: bool },
}

/// A card: either a colored card with a value, or a wild card.
#[derive(Clone, Copy, Debug, PartialEq, Eq, Structural)]
pub enum UnoCard {
    Card { color: UnoColor, value: UnoValue },
    Wild(UnoWildCard),
}

/// Why one card cannot be played on another.
#[derive(Clone, Copy, Debug, PartialEq, Eq, Structural)]
pub enum UnoCardMatchError {
    /// A colored card whose color and value both fail to match.
    NoMatch,
    /// A wild card still in its unplayed state (no color chosen).
    WildUnplayed,
}

/// The playability rule: whether `c` may be placed on `top`, the top card
/// of the discard pile.
pub open spec fn playable_spec(c: UnoCard, top: UnoCard) -> Result<(), UnoCardMatchError> {
    match c {
        UnoCard::Card { color, value } => match top {
            UnoCard::Card { color: top_color, value: top_value } => {
                if color == top_color || value == top_value {
                    Ok(())
                } else {
                    Err(UnoCardMatchError::NoMatch)
                }
            },
            UnoCard::Wild(top_wild) => match top_wild {
                UnoWildCard::Played { color: top_color, .. } => {
                    if color == top_color {
                        Ok(())
                    } else {
                        Err(UnoCardMatchError::NoMatch)
                    }
                },
                UnoWildCard::Unplayed { .. } => Err(UnoCardMatchError::WildUnplayed),
            },
        },
        UnoCard::Wild(wild) => match wild {
            UnoWildCard::Played { .. } => Ok(()),
            UnoWildCard::Unplayed { .. } => Err(UnoCardMatchError::WildUnplayed),
        },
    }
}

/// The position of a color in the fixed enumeration Red, Blue, Green, Yellow.
pub open spec fn color_index(c: UnoColor) -> int {
    match c {
        UnoColor::Red => 0,
        UnoColor::Blue => 1,
        UnoColor::Green => 2,
        UnoColor::Yellow => 3,
    }
}

/// The position of a value in the fixed enumeration Zero, ..., Nine, Skip,
/// Reverse, Draw2.
pub open spec fn value_index(v: UnoValue) -> int {
    match v {
        UnoValue::Zero => 0,
        UnoValue::One => 1,
        UnoValue::Two => 2,
        UnoValue::Three => 3,
        UnoValue::Four => 4,
        UnoValue::Five => 5,
        UnoValue::Six => 6,
        UnoValue::Seven => 7,
        UnoValue::Eight => 8,
        UnoValue::Nine => 9,
        UnoValue::Skip => 10,
        UnoValue::Reverse => 11,
        UnoValue::Draw2 => 12,
    }
}

/// The color at a position of the fixed enumeration.
pub open spec fn color_of_index(i: int) -> UnoColor {
    if i == 0 {
        UnoColor::Red
    } else if i == 1 {
        UnoColor::Blue
    } else if i == 2 {
        UnoColor::Green
    } else {
        UnoColor::Yellow
    }
}

/// The value at a position of the fixed enumeration.
pub open spec fn value_of_index(i: int) -> UnoValue {
    if i == 0 {
        UnoValue::Zero
    } else if i == 1 {
        UnoValue::One
    } else if i == 2 {
        UnoValue::Two
    } else if i == 3 {
        UnoValue::Three
    } else if i == 4 {
        UnoValue::Four
    } else if i == 5 {
        UnoValue::Five
    } else if i == 6 {
        UnoValue::Six
    } else if i == 7 {
        UnoValue::Seven
    } else if i == 8 {
        UnoValue::Eight
    } else if i == 9 {
        UnoValue::Nine
    } else if i == 10 {
        UnoValue::Skip
    } else if i == 11 {
        UnoValue::Reverse
    } else {
        UnoValue::Draw2
    }
}

/// The position of the colored card (c, v) in the sequence of all 52
/// (color, value) combinations, colors outermost.
pub open spec fn perm_index(c: UnoColor, v: UnoValue) -> int {
    color_index(c) * 13 + value_index(v)
}

/// The colored card at position `k` of the sequence of all 52 combinations.
pub open spec fn perm_card(k: int) -> UnoCard {
    UnoCard::Card { color: color_of_index(k / 13), value: value_of_index(k % 13) }
}

/// The color indices and positions are inverse to one another.
pub proof fn lemma_color_roundtrip(c: UnoColor)
    ensures
        0 <= color_index(c) < 4,
        color_of_index(color_index(c)) == c,
{
}

/// The value indices and positions are inverse to one another.
pub proof fn lemma_value_roundtrip(v: UnoValue)
    ensures
        0 <= value_index(v) < 13,
        value_of_index(value_index(v)) == v,
{
}

/// Taking the color at a position and reading its position back is the
/// identity on positions within bounds.
pub proof fn lemma_color_of_index_roundtrip(i: int)
    requires
        0 <= i < 4,
    ensures
        color_index(color_of_index(i)) == i,
{
}

/// Taking the value at a position and reading its position back is the
/// identity on positions within bounds.
pub proof fn lemma_value_of_index_roundtrip(i: int)
    requires
        0 <= i < 13,
    ensures
        value_index(value_of_index(i)) == i,
{
}

/// Every colored card stands at its `perm_index` position of the
/// combination sequence, and that position is within bounds.
pub proof fn lemma_perm_card_of_index(c: UnoColor, v: UnoValue)
    ensures
        0 <= perm_index(c, v) < 52,
        perm_card(perm_index(c, v)) == (UnoCard::Card { color: c, value: v }),
{
    let ci = color_index(c);
    let vi = value_index(v);
    vstd::arithmetic::div_mod::lemma_fundamental_div_mod_converse(ci * 13 + vi, 13, ci, vi);
}

/// The combination sequence holds a colored card at every position below 52,
/// and the position maps back to that card's indices.
pub proof fn lemma_perm_index_of_card(k: int)
    requires
        0 <= k < 52,
    ensures
        perm_card(k) matches UnoCard::Card { color, value } && perm_index(color, value) == k,
{
    vstd::arithmetic::div_mod::lemma_fundamental_div_mod(k, 13);
    let q = k / 13;
    let r = k % 13;
    assert(0 <= q < 4);
    assert(color_index(color_of_index(q)) == q);
    assert(value_index(value_of_index(r)) == r);
}

impl UnoCard {
    /// Returns `Ok(())` if `self` may be placed on `other_card`, the top of
    /// the discard pile; otherwise the error saying why not.
    ///
    /// A wild card is playable exactly when it is in the played state
    /// (a color has been chosen). A colored card is playable on a colored
    /// card sharing its color or value, and on a played wild whose chosen
    /// color it matches; an unplayed wild on the pile rejects every card.
    pub fn playable_on(&self, other_card: &UnoCard) -> (r: Result<(), UnoCardMatchError>)
        ensures
            r == playable_spec(*self, *other_card),
    {
        match self {
            UnoCard::Card { color: self_color, value: self_value } => match other_card {
                UnoCard::Card { color: other_color, value: other_value } => {
                    if self_color == other_color || self_value == other_value {
                        Ok(())
                    } else {
                        Err(UnoCardMatchError::NoMatch)
                    }
                },
                UnoCard::Wild(other_wild) => match other_wild {
                    UnoWildCard::Played { color: other_color, .. } => {
                        if self_color == other_color {
                            Ok(())
                        } else {
                            Err(UnoCardMatchError::NoMatch)
                        }
                    },
                    UnoWildCard::Unplayed { .. } => Err(UnoCardMatchError::WildUnplayed),
                },
            },
            UnoCard::Wild(self_wild) => match self_wild {
                UnoWildCard::Played { .. } => Ok(()),
                UnoWildCard::Unplayed { .. } => Err(UnoCardMatchError::WildUnplayed),
            },
        }
    }

    /// All 52 colored cards, one for every (color, value) combination:
    /// for each of the 4 colors, the 10 numerals and the 3 actions.
    pub fn color_permutations() -> (r: Vec<UnoCard>)
        ensures
            r@.len() == 52,
            forall|k: int| 0 <= k < 52 ==> r@[k] == perm_card(k),
            forall|c: UnoColor, v: UnoValue|
                r@.to_multiset().count(UnoCard::Card { color: c, value: v }) == 1,
            forall|w: UnoWildCard| r@.to_multiset().count(UnoCard::Wild(w)) == 0,
    {
        broadcast use vstd::seq_lib::group_to_multiset_ensures;

        let colors: Vec<UnoColor> =
            vec![UnoColor::Red, UnoColor::Blue, UnoColor::Green, UnoColor::Yellow];
        let values: Vec<UnoValue> = vec![
            UnoValue::Zero,
            UnoValue::One,
            UnoValue::Two,
            UnoValue::Three,
            UnoValue::Four,
            UnoValue::Five,
            UnoValue::Six,
            UnoValue::Seven,
            UnoValue::Eight,
            UnoValue::Nine,
            UnoValue::Skip,
            UnoValue::Reverse,
            UnoValue::Draw2,
        ];
        let mut cards: Vec<UnoCard> = Vec::new();
        let mut k: usize = 0;
        while k < 52
            invariant
                colors@.len() == 4,
                values@.len() == 13,
                forall|i: int| 0 <= i < 4 ==> colors@[i] == color_of_index(i),
                forall|i: int| 0 <= i < 13 ==> values@[i] == value_of_index(i),
                0 <= k <= 52,
                cards@.len() == k,
                forall|j: int| 0 <= j < k ==> cards@[j] == perm_card(j),
                forall|c: UnoColor, v: UnoValue|
                    cards@.to_multiset().count(UnoCard::Card { color: c, value: v })
                        == (if perm_index(c, v) < k { 1nat } else { 0nat }),
                forall|w: UnoWildCard| cards@.to_multiset().count(UnoCard::Wild(w)) == 0,
            decreases 52 - k,
        {
            let ci: usize = k / 13;
            let vi: usize = k % 13;
            let card = UnoCard::Card { color: colors[ci], value: values[vi] };
            proof {
                lemma_perm_index_of_card(k as int);
                assert(card == perm_card(k as int));
            }
            let ghost before = cards@;
            cards.push(card);
            proof {
                assert(cards@ == before.push(card));
                vstd::seq_lib::to_multiset_build(before, card);
                assert(cards@.to_multiset() =~= before.to_multiset().insert(card));
                assert forall|c: UnoColor, v: UnoValue|
                    cards@.to_multiset().count(UnoCard::Card { color: c, value: v })
                        == (if perm_index(c, v) < k + 1 { 1nat } else { 0nat }) by {
                    let cv = UnoCard::Card { color: c, value: v };
                    lemma_perm_card_of_index(c, v);
                    if cv == card {
                        assert(perm_index(c, v) == k);
                    } else {
                        assert(perm_index(c, v) != k);
                    }
                }
            }
            k = k + 1;
        }
        proof {
            assert forall|c: UnoColor, v: UnoValue|
                cards@.to_multiset().count(UnoCard::Card { color: c, value: v }) == 1 by {
                lemma_perm_card_of_index(c, v);
            }
        }
        cards
    }
}

} // verus!
