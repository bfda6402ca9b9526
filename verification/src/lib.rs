//! HLS VOD packet source: playlist discovery and selection, the segment index,
//! segment-format dispatch, packed AAC demuxing and segment progression.

pub mod address;
pub mod bytes;
pub mod delivery;
pub mod discovery;
pub mod fault;
pub mod laws;
pub mod maps;
pub mod media;
pub mod opening;
pub mod packed_audio;
pub mod playlist;
pub mod seconds;
pub mod segment;
pub mod select;
pub mod source;
pub mod streams;
pub mod text;
