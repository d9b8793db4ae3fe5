//! Core of a seat-ticketing service: the rules that decide how seats are
//! held, confirmed and released, each with a proved contract.

pub mod error;
pub mod repo;
pub mod reserve;
pub mod confirm;
pub mod store;
pub mod labels;
pub mod config;
pub mod laws;
pub mod middleware;
pub mod models;
pub mod routes;
pub mod racing;
