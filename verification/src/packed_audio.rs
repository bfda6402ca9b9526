//! Packed audio segments: an ID3 transport timestamp followed by ADTS AAC.

pub mod adts;
pub mod demuxer;
pub mod id3;
pub mod laws;
pub mod timeline;
