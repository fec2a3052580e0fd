//! A verified reader for Standard MIDI Files and the small amount of game
//! logic that drives a rhythm game from the parsed notes.
//!
//! - `bytes`: big-endian integers and variable-length quantities;
//! - `message`: note messages and their order by play time;
//! - `order`: the stable sort by play time;
//! - `midi_file`: reading a whole file, with its byte-exact specification;
//! - `note`: note names;
//! - `args`: numbers given on the command line;
//! - `playback`: playing messages against the clock, and the keyboard;
//! - `usb`: choosing the device and endpoint to read a keyboard from;
//! - `text`: the line of text shown for a message.
pub mod args;
pub mod bytes;
pub mod message;
pub mod midi_file;
pub mod note;
pub mod order;
pub mod playback;
pub mod text;
pub mod usb;
