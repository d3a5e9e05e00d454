//! Streaming extraction of the elements of a top-level JSON array.
//!
//! The scanner finds where each object of the array begins and ends in a
//! byte stream that arrives in chunks of any size, and hands the exact bytes
//! of one element at a time to a JSON parser. The whole array is never held
//! in memory.
//!
//! The library reads nothing itself. A [`JsonStream`] is pulled; when it
//! answers [`Pull::NeedInput`], its owner reads a chunk from wherever the
//! input comes from and supplies it.
//!
//! - `machine`: the boundary-finding state machine as a mathematical model.
//! - `scanner`: the executable scanner, proved against the model.
//! - `json_stream`: the stream and its pull protocol.
//! - `parse`, `error`: the element parser and what a pull can fail with.
//! - `laws`: what holds of every input, however it is cut into chunks.
//! - `nesting`: correctly nested input, and that exactly its elements are
//!   found.
//! - `session`: a whole pass over an input, and that the chunks do not
//!   matter.
//! - `json`, `json_shape`, `json_array`: JSON text, that it is correctly
//!   nested, and what a pass over a JSON array of objects yields.

pub mod error;
pub mod json;
pub mod json_array;
pub mod json_shape;
pub mod json_stream;
pub mod laws;
pub mod machine;
pub mod nesting;
pub mod parse;
pub mod scanner;
pub mod session;

pub use error::JsonError;
pub use json_stream::{JsonStream, Pull, ReadFailurePolicy};
