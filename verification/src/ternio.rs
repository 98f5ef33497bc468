//! A three-color variant of the classic flipping board game, built on
//! the session transport: board rules, view state, wire forms and the
//! backend.

pub mod back_end;
pub mod basic_commands;
pub mod board_and_transition;
pub mod board_representation;
pub mod view_state;
