//! The sample crate that the map-building tests read, reduced to the items its own
//! tests exercise.

fn charge(amount: u64) -> u64 {
    capture(amount)
}

fn capture(amount: u64) -> u64 {
    amount
}

struct Gateway;

impl Gateway {
    fn send(&self) {}

    fn retry(&self) {}
}

#[test]
fn charge_operation_order() {
    assert_eq!(charge(3), 3);
}

#[test]
fn positive_amount() {
    assert_eq!(capture(1), 1);
}

#[test]
fn gateway_members_share_the_gateway() {
    Gateway.send();
    Gateway.retry();
}
