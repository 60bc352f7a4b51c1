//! The handheld's buttons: how a key press changes the game, and what the
//! runtime around it does next.

use vstd::prelude::*;

use super::game::{Game, Hand};

verus! {

/// A key the game responds to; every other key is `Other`.
#[derive(Debug, Clone, Copy, PartialEq, Eq, Structural)]
pub enum Key {
    ArrowLeft,
    ArrowRight,
    Space,
    Enter,
    Escape,
    Other,
}

/// What the runtime does after a key press.
#[derive(Debug, Clone, Copy, PartialEq, Eq, Structural)]
pub enum Response {
    /// Keep running.
    Continue,
    /// A new round started: restart the tick clock from zero.
    ResetClock,
    /// Close the game.
    Quit,
}

/// Apply a pressed key: ← and → raise the left or right hand, Space or
/// Enter starts a new round once the game is over (keeping the hand), Esc
/// quits; any other key, or Space/Enter during play, does nothing.
pub fn press<T: Default, V>(game: &mut Game<T, V>, key: Key) -> (r: Response)
    ensures
        key == Key::ArrowLeft ==> *final(game) == (Game { hand: Hand::Left, ..*old(game) }) && r
            == Response::Continue,
        key == Key::ArrowRight ==> *final(game) == (Game { hand: Hand::Right, ..*old(game) }) && r
            == Response::Continue,
        (key == Key::Space || key == Key::Enter) && old(game).over ==> final(game).fresh(old(game).hand) && r
            == Response::ResetClock,
        (key == Key::Space || key == Key::Enter) && !old(game).over ==> *final(game) == *old(game) && r
            == Response::Continue,
        key == Key::Escape ==> *final(game) == *old(game) && r == Response::Quit,
        key == Key::Other ==> *final(game) == *old(game) && r == Response::Continue,
{
    match key {
        Key::ArrowLeft => {
            game.set_hand(Hand::Left);
            Response::Continue
        },
        Key::ArrowRight => {
            game.set_hand(Hand::Right);
            Response::Continue
        },
        Key::Space | Key::Enter => {
            if game.over {
                game.restart();
                Response::ResetClock
            } else {
                Response::Continue
            }
        },
        Key::Escape => Response::Quit,
        Key::Other => Response::Continue,
    }
}

} // verus!
