//! Quadrium, a music player, without its window and without its files.
//!
//! - `controller` is the event bus through which the view and the model
//!   talk: typed events, a registry of listeners, and a dispatcher that
//!   delivers every pending event to the listeners of its kind, batch after
//!   batch.
//! - `audio_reader` is the model: what is known of a piece of music, the
//!   service that answers a request for it over the bus, and the reading of
//!   the metadata of a flac file from its bytes.
//! - `gui` is the view as far as it talks over the bus: the request it sends
//!   and the listener that takes the answer.
//! - `utils` reads numbers from bytes.
//!
//! The bus is sequential: one dispatcher owns it. Whoever shares it between
//! threads does so from outside.

pub mod audio_reader;
pub mod controller;
pub mod gui;
pub mod utils;
