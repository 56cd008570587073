//! A rules engine for the card game Uno: a full 108-card deck, round-robin
//! dealing, play validation against the discard pile, and the per-turn state
//! machine (turn order, direction, skip/reverse/draw effects, deck recycling).

pub mod cards;
pub mod deck;
pub mod game;

pub use cards::UnoCard;
pub use cards::UnoCardMatchError;
pub use cards::UnoColor;
pub use cards::UnoValue;
pub use cards::UnoWildCard;
pub use deck::UnoDeck;
pub use deck::UnoError;
pub use deck::FULL_DECK_SIZE;
pub use deck::PLAYER_STARTING_HAND_SIZE;
pub use game::TurnDirection;
pub use game::UnoGameState;
