use crab::counter::{CounterState, SaturatedI8};

#[test]
fn check_saturated_counter() {
    type Counter = SaturatedI8<1, 1>;
    let mut counter = Counter::default();

    counter.add_assign(1); // 1
    assert_eq!(counter.state(), CounterState::SaturatedUp);

    counter.sub_assign(1); // 0
    assert_eq!(counter.state(), CounterState::NotSaturated);

    counter.sub_assign(2); // -1
    assert_eq!(counter.state(), CounterState::SaturatedDown);

    counter.add_assign(1); // 0
    assert_eq!(counter.state(), CounterState::NotSaturated);

    counter.add_assign(1); // 1
    assert_eq!(counter.state(), CounterState::SaturatedUp);
}
