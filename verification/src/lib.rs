//! Temporary file sharing for the terminal: upload a file, get a link, and the
//! file is gone after the first download or after one hour.
//!
//! This crate is the part of the service that decides. It never touches a
//! socket or a disk: the surrounding program performs the reads and writes that
//! the functions here ask for, and hands back what came of them.
//!
//! `model` says in mathematics what the service remembers, `state` keeps it, and
//! `laws` holds what is true of the service as a whole. `promises` says what
//! clients can count on, in numbers and texts alone.

pub mod clock;
pub mod config;
pub mod download;
pub mod headers;
pub mod ids;
pub mod intake;
pub mod laws;
pub mod model;
pub mod names;
pub mod pages;
pub mod promises;
pub mod reply;
pub mod routes;
pub mod state;
pub mod table;
pub mod text;
pub mod upload;
