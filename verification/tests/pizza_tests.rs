use piscine::pizza::PizzaStatus;

#[test]
fn status_follows_the_calendar() {
    assert!(matches!(PizzaStatus::from_delivery_time(0), PizzaStatus::Ordered));
    assert!(matches!(PizzaStatus::from_delivery_time(2), PizzaStatus::Cooking));
    assert!(matches!(PizzaStatus::from_delivery_time(7), PizzaStatus::Cooked));
    assert!(matches!(PizzaStatus::from_delivery_time(10), PizzaStatus::Delivering));
    assert!(matches!(PizzaStatus::from_delivery_time(17), PizzaStatus::Delivered));
}

#[test]
fn delivery_estimates_shrink() {
    assert_eq!(PizzaStatus::Ordered.get_delivery_time_in_days(), 17);
    assert_eq!(PizzaStatus::Cooking.get_delivery_time_in_days(), 15);
    assert_eq!(PizzaStatus::Cooked.get_delivery_time_in_days(), 10);
    assert_eq!(PizzaStatus::Delivering.get_delivery_time_in_days(), 7);
    assert_eq!(PizzaStatus::Delivered.get_delivery_time_in_days(), 0);
}
