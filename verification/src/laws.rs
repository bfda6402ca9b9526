//! What the operations mean, told from their inputs and results alone: bytes,
//! characters, numbers and the fields of playlists, with no regard to how an
//! operation is put together.

pub mod addresses;
pub mod clock;
pub mod discovery;
pub mod faults;
pub mod frames;
pub mod maps;
pub mod media;
pub mod numbers;
pub mod opening;
pub mod progress;
pub mod segments;
pub mod select;
pub mod streams;
pub mod tags;
