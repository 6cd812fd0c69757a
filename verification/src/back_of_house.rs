//! The kitchen, and what it sends out.

use vstd::prelude::*;
use vstd::string::StringExecFns;

verus! {

/// A breakfast. The guest picks the toast; the kitchen picks the fruit.
pub struct Breakfast {
    pub toast: String,
    seasonal_fruit: String,
}

/// What can be had before the meal.
#[derive(Clone, Copy, Debug, PartialEq, Eq, Structural)]
pub enum Appetizer {
    Soup,
    Salad,
}

/// A breakfast as a pair of texts.
pub struct BreakfastView {
    pub toast: Seq<char>,
    pub seasonal_fruit: Seq<char>,
}

impl View for Breakfast {
    type V = BreakfastView;

    closed spec fn view(&self) -> BreakfastView {
        BreakfastView { toast: self.toast@, seasonal_fruit: self.seasonal_fruit@ }
    }
}

impl Breakfast {
    /// A summer breakfast with the toast asked for; the fruit is peaches.
    pub fn summer(toast: &str) -> (meal: Breakfast)
        ensures
            meal@.toast == toast@,
            meal@.seasonal_fruit == "peaches"@,
    {
        Breakfast { toast: String::from_str(toast), seasonal_fruit: String::from_str("peaches") }
    }

    /// Changes the toast and leaves the fruit as the kitchen chose it.
    pub fn change_toast(&mut self, toast: &str)
        ensures
            final(self)@.toast == toast@,
            final(self)@.seasonal_fruit == old(self)@.seasonal_fruit,
    {
        self.toast = String::from_str(toast);
    }
}

/// Puts right an order that went out wrong.
#[allow(dead_code)]
fn fix_incorrect_order() {
    cook_order();
    super::customer_order();
}

/// Cooks an order.
fn cook_order() {
}

} // verus!
