//! The three nested containers below the environment.
pub mod row;
pub mod table;
pub mod database;
