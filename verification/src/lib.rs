//! Everything the mixer is, apart from how it looks.
//!
//! The graph, the devices it remembers, the single-instance lock and the
//! paths it keeps its files under. None of it draws anything, and none of
//! it knows that a strip has a fader on it, which is the point: the skin
//! is one way of showing this, not the thing itself.

pub mod audio;
pub mod bytes;
pub mod defaults;
pub mod devices;
pub mod instance;
pub mod lists;
pub mod model;
pub mod order;
pub mod paths;
pub mod props;
pub mod single;
pub mod table;
pub mod text;
