//! A codec for the named binary tag format: a tagged, self-describing tree of
//! values with an exact big-endian wire layout.
//!
//! The tree is held as a [`value::Value`], with its lists in [`list`] and its
//! compounds in [`compound`]; what it means is its view, a [`tree::Tree`].
//! Values are made of plain data in [`convert`] and compared in [`equal`].
//!
//! The module [`wire`] says which bytes a tree is written as and [`parse`]
//! which tree a run of bytes is read as; [`encode`] and [`decode`] do the
//! writing and the reading, and [`laws`] proves that the second undoes the
//! first and that whatever is read can be written.
//!
//! Structured values reach the format through the two traits of [`bridge`]:
//! a type describes itself as a tree and is built from one. [`array`] lets a
//! plain sequence be written as an array of numbers, [`typed`] reads the
//! fields of a compound as the kinds that a type expects, and [`sample`] is
//! a record that is bridged by hand, with the proof that it comes back as it
//! was written. [`binary`] holds the entry points.

pub mod array;
pub mod binary;
pub mod bridge;
pub mod compound;
pub mod convert;
pub mod decode;
pub mod encode;
pub mod equal;
pub mod error;
pub mod laws;
pub mod list;
pub mod parse;
pub mod sample;
pub mod tag;
pub mod tree;
pub mod typed;
pub mod value;
pub mod wire;
