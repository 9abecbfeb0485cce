//! A personal task tracker: tasks carry a name, a category tag, an
//! optional calendar deadline and a completion flag. The library holds
//! the whole of the tool's logic — date parsing and rendering, id
//! recycling, the add / list / remove / clear transformations and the
//! exact text they print — as verified functions over plain values;
//! the surrounding program only parses arguments and moves the two
//! JSON collections between disk and memory.
pub mod add;
pub mod clear;
pub mod date;
pub mod errors;
pub mod list;
pub mod models;
pub mod remove;
pub mod storage;
pub mod text;
