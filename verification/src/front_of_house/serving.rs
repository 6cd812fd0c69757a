//! Serving the guests.

use vstd::prelude::*;

verus! {

/// Takes a guest's order.
pub fn take_order() {
}

/// Brings an order to the table.
#[allow(dead_code)]
fn serve_order() {
}

/// Settles the bill.
#[allow(dead_code)]
fn take_payment() {
}

} // verus!
