//! Inventory management over warehouses, items and low-stock rules.
//!
//! The library holds the logic of every command: the SQL statements that a
//! command sends to the store, what a store result means for the user, the
//! low-stock report, command-line option parsing, and an in-memory model of
//! the store on which the laws of the commands are proved.
pub mod edit;
pub mod inventory;
pub mod options;
pub mod outcome;
pub mod report;
pub mod sql;
