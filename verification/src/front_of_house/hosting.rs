//! Seating the guests.

use vstd::prelude::*;

verus! {

/// Puts a guest on the waiting list.
pub fn add_to_waitlist() {
}

/// Shows a guest to a table.
#[allow(dead_code)]
fn seat_at_table() {
}

} // verus!
