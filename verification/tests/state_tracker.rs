use netloc::ip::IpAddress;
use netloc::state::State;
use netloc::state::UpdateEffect;

fn v4(a: u8, b: u8, c: u8, d: u8) -> IpAddress {
    IpAddress::V4 { a, b, c, d }
}

#[test]
fn first_update_initializes() {
    let mut state = State::uninitialized();
    assert_eq!(state.current(), None);
    let effect = state.update(v4(198, 51, 100, 1));
    assert_eq!(effect, UpdateEffect::Initialized);
    assert_eq!(state.current(), Some(v4(198, 51, 100, 1)));
}

#[test]
fn same_address_is_unchanged() {
    let mut state = State::uninitialized();
    assert_eq!(state.update(v4(198, 51, 100, 1)), UpdateEffect::Initialized);
    assert_eq!(state.update(v4(198, 51, 100, 1)), UpdateEffect::Unchanged);
    assert_eq!(state.current(), Some(v4(198, 51, 100, 1)));
}

#[test]
fn new_address_is_replaced() {
    let mut state = State::uninitialized();
    assert_eq!(state.update(v4(198, 51, 100, 1)), UpdateEffect::Initialized);
    let effect = state.update(v4(198, 51, 100, 2));
    assert_eq!(effect, UpdateEffect::Replaced(v4(198, 51, 100, 1)));
    assert_eq!(state.current(), Some(v4(198, 51, 100, 2)));
}

#[test]
fn sequence_reports_one_initialized_then_changes() {
    // a, a, b, b, a: one Initialized, then a report exactly when the address
    // differs from the immediately preceding one.
    let a = v4(198, 51, 100, 1);
    let b = v4(198, 51, 100, 2);
    let addrs = vec![a, a, b, b, a];
    let mut state = State::uninitialized();
    let mut effects = Vec::new();
    for addr in &addrs {
        effects.push(state.update(*addr));
    }
    assert_eq!(
        effects,
        vec![
            UpdateEffect::Initialized,
            UpdateEffect::Unchanged,
            UpdateEffect::Replaced(a),
            UpdateEffect::Unchanged,
            UpdateEffect::Replaced(b),
        ]
    );
    let reports = effects
        .iter()
        .filter(|e| !matches!(e, UpdateEffect::Unchanged))
        .count();
    assert_eq!(reports, 3);
}

#[test]
fn v6_addresses_compare_by_groups() {
    let one = IpAddress::V6 { s0: 0, s1: 0, s2: 0, s3: 0, s4: 0, s5: 0, s6: 0, s7: 1 };
    let two = IpAddress::V6 { s0: 0, s1: 0, s2: 0, s3: 0, s4: 0, s5: 0, s6: 0, s7: 2 };
    let mut state = State::uninitialized();
    assert_eq!(state.update(one), UpdateEffect::Initialized);
    assert_eq!(state.update(one), UpdateEffect::Unchanged);
    assert_eq!(state.update(two), UpdateEffect::Replaced(one));
}
