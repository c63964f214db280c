//! The verified core of the Nebula Aura exciter plugin: the preset store, the
//! MIDI controller mapping, the undo history and A/B comparison slots, the
//! sizing of the spectrum analyzer's window, and the texts the editor shows.

pub mod analysis;
pub mod labels;
pub mod params;
pub mod preset;
pub mod session;
pub mod text_order;
