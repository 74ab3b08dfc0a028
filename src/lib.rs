//! Sprite document engine: layered, multi-frame pixel canvases edited through
//! reversible commands, with an undo/redo history, drawing tools, animation
//! playback and a capability gate for plugins.

pub mod pixel;
pub mod document;
pub mod history;
pub mod fill;
pub mod resize;
pub mod clock;
pub mod plugin;
pub mod tools;
pub mod shortcuts;
pub mod composite;
