//! A small two-dimensional simulation of colliding discs.
//!
//! Discs move in a square arena, bounce off its walls and off each other,
//! and turn at a steady rate. All quantities are decimal fixed-point
//! numbers, so every step of the simulation is an exact function of its
//! inputs, and the contracts of the steps say which.
//!
//! `components` holds the data and `systems` the steps over all bodies;
//! `boundary`, `collision` and `motion` say what a step does to one body or
//! to a pair, `schedule` in which order the pairs are visited, and `driver`
//! what a whole frame does. `fixed`, `vector`, `root`, `squares` and `text`
//! hold the arithmetic under them.

pub mod boundary;
pub mod collision;
pub mod components;
pub mod driver;
pub mod fixed;
pub mod motion;
pub mod random;
pub mod root;
pub mod schedule;
pub mod squares;
pub mod systems;
pub mod text;
pub mod vector;
