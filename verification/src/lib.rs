//! A terminal process monitor's logic: the process table and the orders
//! and searches it is shown in, the key-driven state of the monitor, and
//! the texts of its screen, each with a contract that Verus proves.
//!
//! - `text`: UTF-8 offsets, decimal digits, substring search and
//!   lexicographic order on characters.
//! - `format`: byte counts and durations as text.
//! - `process`: process rows, their sort orders, a stable sort and the
//!   search filter.
//! - `app`: the monitor's state and every change that keys, ticks and
//!   fresh readings make to it.
//! - `display`: the texts of the header, table, popups and footer.

pub mod app;
pub mod display;
pub mod format;
pub mod process;
pub mod text;
