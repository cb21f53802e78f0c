//! A small deadline tracker: tasks with due dates, calendar events merged
//! into the same listing, short hexadecimal ids that can be abbreviated to a
//! unique prefix, and the rules that decide what a listing shows.

pub mod date;
pub mod order;
pub mod text;
pub mod numerals;
pub mod lookup;
pub mod display;
pub mod task;
pub mod input;
pub mod calendar;
pub mod view;
pub mod config;

