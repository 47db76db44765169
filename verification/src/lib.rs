//! Bookshelf: a terminal PDF library and reader.
//!
//! This crate holds the verified logic of the reader: the domain model and its
//! settings, the path codec used to store file names, the post-processing of
//! extracted page text, viewport wrapping, library filtering and selection,
//! reader navigation and the key handling of the panels, the reading of the
//! library database's rows, the conversion of rendered page pixels, and what
//! the terminal's environment says about kitty graphics.

pub mod chars;
pub mod strs;
pub mod model;
pub mod settings;
pub mod path;
pub mod text;
pub mod furniture;
pub mod extract;
pub mod wrap;
pub mod page;
pub mod num;
pub mod pathmap;
pub mod library;
pub mod reader;
pub mod marks;
pub mod ui;
pub mod tounicode;
pub mod toc;
pub mod store;
pub mod terminal;
pub mod captions;
pub mod bitmap;
