//! A library of small verified exercises: a wildcard matcher, calendar
//! helpers, decimal addition on digit strings, sorting, a singly linked
//! list, CSV encoding, string pattern combinators, and friends.

pub mod arith;
pub mod bigint;
pub mod blend;
pub mod boxes;
pub mod subslice;
pub mod dedup;
pub mod select;
pub mod calendar;
pub mod collatz;
pub mod cstr;
pub mod csv;
pub mod fibs;
pub mod fizzbuzz;
pub mod formatting;
pub mod fortytwo;
pub mod vector;
pub mod colors;
pub mod glob;
pub mod life;
pub mod list;
pub mod grouping;
pub mod groups;
pub mod justify;
pub mod numbers;
pub mod order;
pub mod patterns;
pub mod pizza;
pub mod refs;
pub mod scan;
pub mod shell;
pub mod text;
pub mod time;
pub mod todo;
