//! The life of a pizza order, told backwards from its delivery date.

use vstd::prelude::*;

verus! {

/// Where a pizza stands between the order and the doorbell.
pub enum PizzaStatus {
    Ordered,
    Cooking,
    Cooked,
    Delivering,
    Delivered,
}

/// The status reached `d` days after ordering.
pub open spec fn spec_status_after(d: int) -> PizzaStatus {
    if d <= 1 {
        PizzaStatus::Ordered
    } else if d <= 6 {
        PizzaStatus::Cooking
    } else if d <= 9 {
        PizzaStatus::Cooked
    } else if d <= 16 {
        PizzaStatus::Delivering
    } else {
        PizzaStatus::Delivered
    }
}

/// The days still to wait in a given status.
pub open spec fn spec_days_left(s: PizzaStatus) -> int {
    match s {
        PizzaStatus::Ordered => 17,
        PizzaStatus::Cooking => 15,
        PizzaStatus::Cooked => 10,
        PizzaStatus::Delivering => 7,
        PizzaStatus::Delivered => 0,
    }
}

impl PizzaStatus {
    /// The status of a pizza ordered `ordered_days_ago` days ago.
    pub fn from_delivery_time(ordered_days_ago: u32) -> (r: Self)
        ensures
            r == spec_status_after(ordered_days_ago as int),
    {
        if ordered_days_ago <= 1 {
            Self::Ordered
        } else if ordered_days_ago <= 6 {
            Self::Cooking
        } else if ordered_days_ago <= 9 {
            Self::Cooked
        } else if ordered_days_ago <= 16 {
            Self::Delivering
        } else {
            Self::Delivered
        }
    }

    /// An upper estimate of the days left until delivery.
    pub fn get_delivery_time_in_days(&self) -> (r: u32)
        ensures
            r == spec_days_left(*self),
    {
        match self {
            Self::Delivered => 0,
            Self::Delivering => 7,
            Self::Cooked => 10,
            Self::Cooking => 15,
            Self::Ordered => 17,
        }
    }
}

} // verus!
