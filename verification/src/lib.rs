//! Game rules and text handling of a typing tutor: the typing row that checks
//! what the learner types against the target text, the two practice games
//! (falling keys and scrolling lanes) and their shared scoring.
pub mod about_view;
mod chance;
pub mod falling_keys_game;
pub mod game_loop;
pub mod scoring;
pub mod scrolling_lanes_game;
pub mod text;
pub mod typing_row;
