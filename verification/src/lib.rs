//! flyingv: a small static site generator.
//!
//! The verified library holds the site generator's logic: reading page
//! frontmatter and view headers, deciding which files take part in a build,
//! planning which view renders which page (and in which order the pages of a
//! custom loop come), and computing the paths that pages are written to and
//! served from. Reading and writing files, template rendering and the
//! network server stand outside the library.

pub mod text;
pub mod strmap;
pub mod outside;
pub mod glob;
pub mod utils;
pub mod parser;
pub mod views;
pub mod generator;
pub mod io;
pub mod server;
pub mod watcher;
