//! A spreadsheet formula engine and the grid it works on, verified with
//! Verus.
//!
//! The library decides everything about a formula that does not need
//! floating-point numbers: which function it calls, how its arguments
//! split, which cells a range covers, how criteria and conditions read,
//! how a lookup scans its table, the text functions, and how command output
//! is written back into the grid. Arithmetic on numbers is left to the
//! caller, which hands the library what it computed where a decision
//! depends on it.
pub mod text;
pub mod args;
pub mod cellref;
pub mod dispatch;
pub mod arith;
pub mod criteria;
pub mod range;
pub mod textfns;
pub mod lookup;
pub mod guard;
pub mod sheet;
pub mod table;
pub mod aggregate;
pub mod shell;
pub mod editing;
pub mod rows;
pub mod clipboard;
pub mod commands;
pub mod export;
pub mod settings;
pub mod types;
pub mod update;
