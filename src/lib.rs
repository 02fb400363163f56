//! Shifting the cue times of a subtitle file by a fixed number of seconds.
//!
//! The file is read line by line by a forgiving three-state parser
//! (`parser`) that reads each cue's id and range lines (`cue`); each cue's
//! times are moved on a 24-hour clock (`clock`) and the cues are written
//! back in the same line grammar (`render`). `cli` reads the command line.
pub mod cli;
pub mod clock;
pub mod cue;
pub mod parser;
pub mod render;
pub mod text;
