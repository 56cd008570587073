use uno_core::{UnoCard, UnoCardMatchError, UnoColor, UnoValue, UnoWildCard};

fn colored(color: UnoColor, value: UnoValue) -> UnoCard {
    UnoCard::Card { color, value }
}

#[test]
fn color_match_succeeds() {
    let red5 = colored(UnoColor::Red, UnoValue::Five);
    let red2 = colored(UnoColor::Red, UnoValue::Two);
    assert_eq!(red5.playable_on(&red2), Ok(()));
}

#[test]
fn value_match_succeeds() {
    let red5 = colored(UnoColor::Red, UnoValue::Five);
    let blue5 = colored(UnoColor::Blue, UnoValue::Five);
    assert_eq!(red5.playable_on(&blue5), Ok(()));
}

#[test]
fn no_match_fails() {
    let red5 = colored(UnoColor::Red, UnoValue::Five);
    let blue2 = colored(UnoColor::Blue, UnoValue::Two);
    assert_eq!(red5.playable_on(&blue2), Err(UnoCardMatchError::NoMatch));
}

#[test]
fn anything_on_unplayed_wild_fails() {
    let unplayed = UnoCard::Wild(UnoWildCard::Unplayed { draw_4: false });
    let red5 = colored(UnoColor::Red, UnoValue::Five);
    assert_eq!(red5.playable_on(&unplayed), Err(UnoCardMatchError::WildUnplayed));
    let skip = colored(UnoColor::Green, UnoValue::Skip);
    assert_eq!(skip.playable_on(&unplayed), Err(UnoCardMatchError::WildUnplayed));
}

#[test]
fn colored_on_played_wild_goes_by_chosen_color() {
    let wild_green = UnoCard::Wild(UnoWildCard::Played { draw_4: false, color: UnoColor::Green });
    let green9 = colored(UnoColor::Green, UnoValue::Nine);
    let red9 = colored(UnoColor::Red, UnoValue::Nine);
    assert_eq!(green9.playable_on(&wild_green), Ok(()));
    assert_eq!(red9.playable_on(&wild_green), Err(UnoCardMatchError::NoMatch));
}

#[test]
fn played_wild_is_always_playable() {
    let played = UnoCard::Wild(UnoWildCard::Played { draw_4: true, color: UnoColor::Yellow });
    let blue2 = colored(UnoColor::Blue, UnoValue::Two);
    assert_eq!(played.playable_on(&blue2), Ok(()));
}

#[test]
fn unplayed_wild_cannot_be_played() {
    let unplayed = UnoCard::Wild(UnoWildCard::Unplayed { draw_4: true });
    let blue2 = colored(UnoColor::Blue, UnoValue::Two);
    assert_eq!(unplayed.playable_on(&blue2), Err(UnoCardMatchError::WildUnplayed));
}

#[test]
fn color_permutations_covers_every_combination_once() {
    let perms = UnoCard::color_permutations();
    assert_eq!(perms.len(), 52);
    let colors = [UnoColor::Red, UnoColor::Blue, UnoColor::Green, UnoColor::Yellow];
    let values = [
        UnoValue::Zero,
        UnoValue::One,
        UnoValue::Two,
        UnoValue::Three,
        UnoValue::Four,
        UnoValue::Five,
        UnoValue::Six,
        UnoValue::Seven,
        UnoValue::Eight,
        UnoValue::Nine,
        UnoValue::Skip,
        UnoValue::Reverse,
        UnoValue::Draw2,
    ];
    for color in colors {
        for value in values {
            let want = UnoCard::Card { color, value };
            let copies = perms.iter().filter(|c| **c == want).count();
            assert_eq!(copies, 1);
        }
    }
}
