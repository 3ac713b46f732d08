//! Memory layouts of Rust types, and what is made of them.
//!
//! The modules fall in four groups.
//!
//! - From code to layouts: [`source`] builds the source that is compiled, [`convert`] and
//!   [`extract`] turn what the compiler knows into [`layout`]s.
//! - On the command line: [`cli`] reads the arguments, [`render`] writes layouts as text,
//!   [`plain`] shows that without color the text is free of escapes, and [`reading`] what a reader
//!   finds in it.
//! - Workers: [`serve`] answers requests, [`pool`] and [`runner`] settle jobs and put the
//!   compiler's errors in the user's terms.
//! - The site: [`analysis`] decides about requests, with [`input`], [`guard`] and [`hash`];
//!   [`cache`], [`snippets`], [`stats`] and [`targets`] say what the database is asked; [`site`]
//!   follows requests one after the other; [`config`] and [`page`] make the pages.
//!
//! [`text`], [`wide`], [`status`] and [`db`] are shared by the others.
pub mod analysis;
pub mod cache;
pub mod cli;
pub mod config;
pub mod convert;
pub mod db;
pub mod extract;
pub mod guard;
pub mod hash;
pub mod input;
pub mod layout;
pub mod page;
pub mod plain;
pub mod pool;
pub mod reading;
pub mod render;
pub mod runner;
pub mod serve;
pub mod site;
pub mod snippets;
pub mod source;
pub mod stats;
pub mod status;
pub mod targets;
pub mod text;
pub mod wide;
