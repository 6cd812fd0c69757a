//! A restaurant laid out as nested namespaces, and the rules by which names
//! resolve in such a layout.
//!
//! The restaurant itself is small: a front of the house that is private to
//! this crate, a back of the house of which only the breakfast and the
//! appetizers are handed out, and a guest's visit. The rest of the crate
//! is the model behind it: a tree of declarations, each public or private
//! ([`tree`]); paths, absolute and relative ([`path`]); what a path resolves
//! to for a reference made in a given namespace ([`resolve`]); imports
//! ([`import`]); and what holds of resolution in every tree ([`laws`]).

mod back_of_house;
mod front_of_house;
pub mod ancestry;
pub mod import;
pub mod laws;
pub mod model;
pub mod path;
pub mod resolve;
pub mod tree;

use vstd::prelude::*;
pub use crate::back_of_house::{Appetizer, Breakfast, BreakfastView};
use crate::front_of_house::hosting;
use self::front_of_house::serving;

verus! {

/// A guest's visit: the guest is put on the waiting list, orders a summer
/// breakfast with rye toast, changes it to wheat, and picks two appetizers.
pub fn eat_at_restaurant() -> (served: (Breakfast, Appetizer, Appetizer))
    ensures
        served.0@.toast == "Wheat"@,
        served.0@.seasonal_fruit == "peaches"@,
        served.1 == Appetizer::Soup,
        served.2 == Appetizer::Salad,
{
    crate::front_of_house::hosting::add_to_waitlist();
    front_of_house::hosting::add_to_waitlist();
    let mut meal = back_of_house::Breakfast::summer("Rye");
    meal.change_toast("Wheat");
    let order1 = back_of_house::Appetizer::Soup;
    let order2 = back_of_house::Appetizer::Salad;
    (meal, order1, order2)
}

/// What the kitchen asks the guest when an order has to be put right.
fn customer_order() {
}

/// Seats a guest and takes the order, through the two imported namespaces.
pub fn testing_use_keyword() {
    hosting::add_to_waitlist();
    serving::take_order();
}

} // verus!
