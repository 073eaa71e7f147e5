//! Verified core of an audio comparison tool: alignment arithmetic, channel
//! (de)interleaving, playback progress tracking and command line parsing.

pub mod correlation;
pub mod processor;
pub mod player;
pub mod options;
pub mod tracks;
