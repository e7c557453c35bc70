//! A small print spooler: a FIFO queue of documents, drained by a consumer
//! that renders each document page by page and character by character.
//!
//! The queue's policy (first in, first out, remove on read) and the layout of
//! the rendered output are stated as contracts and proved. Timing, terminal
//! output and the two tasks that share the queue live outside the library.

pub mod document;
pub mod output;
pub mod printer;
pub mod render;
