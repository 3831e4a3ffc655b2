//! The decisions of a daft.ie watcher bot: parsing, rendering and bookkeeping,
//! free of I/O, each function with its contract.
//!
//! - `text`, `number`, `html`: strings and the numbers in them.
//! - `clock`, `sleep`: the time of day, and the window in which a chat sleeps.
//! - `geo`, `routing`, `staticmap`: places, travel times and map images.
//! - `json`, `link`: what outside readers make of JSON and of web addresses.
//! - `daft`, `detail`: searches, listings and the pages of listings.
//! - `state`: what is remembered.
//! - `bot`, `plan`: commands, and what is done on each.
//! - `sweep`, `caption`, `post`: which listings are sent, and how.
//! - `mapping`: the map of all watches.

pub mod text;
pub mod number;
pub mod html;
pub mod clock;
pub mod sleep;
pub mod geo;
pub mod routing;
pub mod json;
pub mod link;
pub mod daft;
pub mod detail;
pub mod state;
pub mod staticmap;
pub mod caption;
pub mod bot;
pub mod plan;
pub mod sweep;
pub mod post;
pub mod mapping;
