//! Game & Watch *Ball* (1980): the rules on the engine ECS, the LCD
//! segment logic that decides what the panel shows, and the buttons.

pub mod game;
pub mod layout;
pub mod controls;
