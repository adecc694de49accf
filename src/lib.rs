//! A Wireworld-style cellular automaton on a toroidal grid, with a timed
//! exercise layer that scores circuits against expected outputs, the text
//! format of its levels, and the session that plays a level.
//!
//! Beside it stand text layout helpers (`string_utils`) and the data that a
//! personal site exchanges with its assistant (`actions`, `output_parser`,
//! `dto`, `map`).

pub mod actions;
pub mod components;
pub mod dto;
pub mod exercises;
pub mod level;
pub mod map;
pub mod output_parser;
pub mod resources;
pub mod rules;
pub mod services;
pub mod session;
pub mod string_utils;
pub mod world;
pub mod world_loader;
