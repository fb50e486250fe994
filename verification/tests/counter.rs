use pedersen_chain::counter::Counter;
use pedersen_chain::counter::decrement;
use pedersen_chain::counter::get_counter;
use pedersen_chain::counter::increment;

#[test]
fn counter_trace() {
    let mut c = Counter::new();
    assert_eq!(increment(&mut c), 1);
    assert_eq!(increment(&mut c), 2);
    assert_eq!(increment(&mut c), 3);
    assert_eq!(decrement(&mut c), 2);
    assert_eq!(get_counter(&c), 2);
}

#[test]
fn counter_wraps_on_underflow() {
    let mut c = Counter::new();
    assert_eq!(decrement(&mut c), u64::MAX);
    assert_eq!(increment(&mut c), 0);
}

#[test]
fn counter_net_of_interleaving() {
    // Five increments and two decrements, in a scattered order: the final
    // read depends only on the counts.
    let mut c = Counter::new();
    increment(&mut c);
    increment(&mut c);
    decrement(&mut c);
    increment(&mut c);
    increment(&mut c);
    decrement(&mut c);
    increment(&mut c);
    assert_eq!(get_counter(&c), 3);
}
