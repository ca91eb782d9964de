//! Booking backend for a short-term rental marketplace.
//!
//! The core is the reservation subsystem: an availability checker over
//! half-open date intervals, a monotonic identifier allocator, and a
//! reservation service that creates, lists and cancels reservations while
//! preserving the no-double-booking invariant. User and listing storage are
//! plain keyed stores kept alongside it.

pub mod listings;
pub mod reservations;
pub mod users;
