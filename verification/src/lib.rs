//! Core of a seat-and-ballot tracker for a turn-based social-deduction game:
//! a seating directory with modular clock-hand rotation, a per-player ballot
//! state machine, a nomination engine, a canonical text render of the current
//! standing, and a snapshot codec for persistence.
pub mod assoc;
pub mod seating;
pub mod state;
pub mod render;
pub mod codec;
