//! Tempo adjustment for audio with a side-car alignment file.
//!
//! The heart of the library is the alignment rescaling: each record of the
//! side-car file holds eight whitespace-separated cells, two of which are
//! integer timestamps that are scaled by `1 - tempo/100` when the audio's
//! tempo changes. The library also derives the companion alignment paths,
//! interprets the exit of the external tools, and resolves the layered
//! configuration.

pub mod align;
pub mod config;
pub mod digits;
pub mod num;
pub mod paths;
pub mod run;
pub mod text;
