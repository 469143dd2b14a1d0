//! Core of a small cooperative microkernel: the loader-to-kernel handoff
//! record, a physical frame allocator, an interrupt-masking lock, a bounded
//! in-kernel message channel, a FIFO run-to-completion scheduler, and the
//! init service's boot-filesystem manifest validator.
//!
//! All mutable machine state (the CPU interrupt flag, the tick counter, the
//! fault cells) is modelled by explicit values, so every subsystem is an
//! ordinary data structure whose transitions carry full contracts.

pub mod apikey;
pub mod arch;
pub mod auth;
pub mod block;
pub mod boot;
pub mod bootfs;
pub mod bootproto;
pub mod bytes;
pub mod catalog;
pub mod channel;
pub mod elf;
pub mod error;
pub mod ethernet;
pub mod executor;
pub mod handlers;
pub mod heap;
pub mod http;
pub mod index;
pub mod init;
pub mod ip;
pub mod ipc_bridge;
pub mod journal;
pub mod kernel;
pub mod keystore;
pub mod kvlist;
pub mod loader;
pub mod log;
pub mod memory;
pub mod multipart;
pub mod object;
pub mod scheduler;
pub mod sync;
pub mod tcp;
pub mod timers;
pub mod tls;
pub mod version;
