//! Core of an emulator for the Noontide SUBLEQ computer: a machine whose only
//! instruction subtracts one memory word from another and branches when the
//! result is not positive.
//!
//! One memory image of 320 MiB is program, data and device registers at
//! once. A CPU worker executes instructions in batches, a serial worker
//! carries bytes between the host and the guest, and a motherboard lets the
//! two take turns: in every cycle first the serial worker, then the CPU.
//!
//! This crate holds what these workers compute and decide, each as a
//! function from a state and an event to the next state and what is to be
//! done. Threads, barriers, channels, files and the terminal belong to the
//! program that drives them.
//!
//! - [`mem`]: the memory image and its words.
//! - [`subleq`]: the instruction and the execution of batches.
//! - [`control`]: the control words that start and stop a CPU.
//! - [`cpu`], [`serial`], [`motherboard`]: the three workers.
//! - [`msg`]: the messages from the workers to the user interface.
//! - [`console`]: the state of the user interface.
//! - [`pdb`], [`hex`], [`lsq`], [`lines`]: the debug data and its sources.
//! - [`profile`], [`report`]: the histogram of instruction pointers, and
//!   its hits set against the source lines.
//! - [`text`]: building text.

pub mod console;
pub mod control;
pub mod cpu;
pub mod hex;
pub mod lines;
pub mod lsq;
pub mod mem;
pub mod motherboard;
pub mod msg;
pub mod pdb;
pub mod profile;
pub mod report;
pub mod serial;
pub mod subleq;
pub mod text;
