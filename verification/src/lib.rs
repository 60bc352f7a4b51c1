//! NeuDel-II engine core: a sparse-set entity-component system, the Game &
//! Watch *Ball* rules, the shape-atlas shelf packer, the LCD segment logic
//! and the pure parts of the studio editor.

pub mod ecs;
pub mod ball;
pub mod atlas;
pub mod scripting;
pub mod text;
pub mod studio;
