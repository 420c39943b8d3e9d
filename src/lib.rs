//! A rapid serial visual presentation reading engine: tokenizing text,
//! locating each word's optimal recognition point, keeping a library of
//! books with their reading progress, and driving a timed reading session.
pub mod import;
pub mod library;
pub mod paths;
pub mod session;
pub mod text;
