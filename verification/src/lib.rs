//! Sieves of prime numbers, byte-size formatting, download bookkeeping and
//! playlist comparison, each stated over a mathematical model.
pub mod arith;
pub mod prime;
pub mod sieve_laws;
pub mod text;
pub mod console;
pub mod track;
pub mod diff;
pub mod display;
pub mod threaded_queue;
pub mod tickets;
pub mod number;
pub mod command;
pub mod download;
pub mod spotify;
