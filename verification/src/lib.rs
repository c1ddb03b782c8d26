//! Interrupt-driven relay of units between serial peripherals.
//!
//! A handler never touches a register. Its caller reads what the peripheral
//! signals and hands it in; the handler works on the queues and returns the
//! register operations to carry out, in order.
//!
//! [`queue`] holds the bounded FIFO that connects a producing handler to a
//! consuming one, [`bridge`] the pair of handlers that relay between an
//! asynchronous peripheral and a synchronous peripheral in master mode, and
//! [`echo`] the single handler that sends back on a slave-mode peripheral
//! what it received there.
//!
//! Nothing here locks. A handler takes its state by `&mut`, so no two
//! handlers work on the same queues at once; the firmware has to see to that,
//! which it does where one core runs every handler to completion and no
//! handler interrupts itself.

pub mod bridge;
pub mod echo;
pub mod queue;
