//! Numbering of audio files: selection from a directory listing, natural
//! ordering by file name, and the track/total fields of each file's ID3 tag.
pub mod order;
pub mod plan;
pub mod scan;
pub mod tagging;
