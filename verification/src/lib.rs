//! The engine of a build daemon for a small site: it turns a directory of
//! posts and a directory of templates into a directory of pages, and makes
//! anew only what a change reaches.
//!
//! The engine reads and writes no file. A program around it hands it the
//! sources as they are now and carries out what it reports.
//!
//! - `fingerprint`: the content hash by which sources are told apart.
//! - `path`: which role a path gives a source, and where its page goes.
//! - `watcher`: the records of the sources, and the change detector.
//! - `depgraph`: which pages a set of changes reaches.
//! - `posts`: the store of the generated pages, in the order of the
//!   listing.
//! - `scheduler`: one tick of the rebuild cycle.
//! - `metadata`, `date`, `post`, `post_list`: what a post says of itself,
//!   and how the pages are poured into their skeletons.
//! - `markdown`, `syntax_highlighting`: the transformations that other
//!   crates perform.
//! - `markup`, `post_item`: a small markup of its own, with its `{{ name }}`
//!   placeholders.
//! - `clean`, `file_watcher`: the files of the output directory that no
//!   source stands for, and the picture of a directory of posts.
//! - `laws`: what holds of the engine as a whole.
//! - `text`, `hex`, `keyed`: helpers for texts, hexadecimal digits and
//!   sequences of entries found by their paths.

pub mod clean;
pub mod date;
pub mod depgraph;
pub mod file_watcher;
pub mod fingerprint;
pub mod hex;
pub mod keyed;
pub mod laws;
pub mod markdown;
pub mod markup;
pub mod metadata;
pub mod path;
pub mod post;
pub mod post_item;
pub mod post_list;
pub mod posts;
pub mod scheduler;
pub mod syntax_highlighting;
pub mod text;
pub mod watcher;
