//! A personal flex-time accounting engine: it aligns calendar months to full
//! Monday-through-Sunday grids, tracks per-day attendance records and their
//! effect on weekly and monthly time balances, keeps a ledger of holiday
//! credit and sick days, and drives a digit-by-digit field editor for
//! time-of-day and duration values.

pub mod calendar;
pub mod codec;
pub mod daysoff;
pub mod display;
pub mod editor;
pub mod flexday;
pub mod flexmonth;
pub mod flexweek;
pub mod navigator;
pub mod settings;
pub mod settings_editor;

pub use calendar::next_month;
pub use calendar::prev_month;
