//! A small mail server: an SMTP receiver and a POP3 mailbox service.
//!
//! The library holds the protocol logic of both services as state machines
//! that decide, for each event the network or the mail store delivers, what
//! to answer and what to do next. Network and database access live with the
//! program that drives these machines.

pub mod text;
pub mod models;
pub mod db;
pub mod auth;
pub mod smtp;
pub mod pop3;
