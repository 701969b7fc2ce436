//! A media bar: a strip along the bottom of a display that shows what plays and controls it.
//!
//! This crate holds what the bar computes and decides. It reads plain values that the program around
//! it gets from the system, and gives back plain values: the bar's next state, the actions to carry
//! out, the steps to draw, the values to store.

pub mod binary64;
pub mod blur;
pub mod dialog;
pub mod fonts;
pub mod layout;
pub mod media;
pub mod menu;
pub mod monitors;
pub mod numbers;
pub mod paint;
pub mod seek;
pub mod settings;
pub mod startup;
pub mod text;
pub mod thumbnail;
pub mod window;
