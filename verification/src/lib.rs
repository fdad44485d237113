//! Layer model of a timeline editor: a forest of layers (workstreams,
//! compositions and media/effect layers) with timing, and the operations
//! the editor performs on it.

pub mod add_dialog;
pub mod chain;
pub mod drag;
pub mod edit;
pub mod find;
pub mod ids;
pub mod kinds;
pub mod laws;
pub mod layer;
pub mod panels;
pub mod playback;
pub mod query;
pub mod rows;
pub mod sequence;
pub mod state;
pub mod terminal;
pub mod time;
pub mod tree;
