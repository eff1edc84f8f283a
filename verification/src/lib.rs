//! Message-driven supervision of a single external command.
//!
//! A dispatch loop filters the events of a message source, hands the content
//! of each matching direct message to one handler, one invocation at a time,
//! and stops when the handler says so or the source fails. Three handlers are
//! provided: a supervisor that keeps at most one child process alive and
//! replaces it on every message, an adapter that captures the first message,
//! and an adapter that emits every message.
//!
//! The library decides; it performs no I/O. Whatever has to happen outside
//! (subscribing, killing, spawning, writing, printing) is handed to the host
//! as plain values, and the host reports back what came of it.
pub mod message;
pub mod handler;
pub mod dispatch;
pub mod supervisor;
pub mod capture;
pub mod print;
