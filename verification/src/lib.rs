//! A reading and typing trainer's core: it wraps a book's text into display
//! lines, keeps the record of practice attempts, and chooses the next sample
//! to type from that record.

pub mod app;
pub mod handler;
pub mod layout;
pub mod log;
pub mod scheduler;
pub mod text;
pub mod ui;
