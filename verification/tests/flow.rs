use neqo_transport::error::Error;
use neqo_transport::flow::FlowController;

#[test]
fn consume_within_the_limit() {
    let mut f = FlowController::new(10);
    assert_eq!(f.consumed(), 0);
    assert_eq!(f.limit(), 10);
    assert_eq!(f.available(), 10);
    assert_eq!(f.consume(4), Ok(()));
    assert_eq!(f.consumed(), 4);
    assert_eq!(f.available(), 6);
    assert_eq!(f.consume(6), Ok(()));
    assert_eq!(f.consumed(), 10);
    assert!(f.blocked());
}

#[test]
fn consume_beyond_the_limit_is_refused_and_changes_nothing() {
    let mut f = FlowController::new(10);
    assert_eq!(f.consume(11), Err(Error::FlowControlViolation));
    assert_eq!(f.consumed(), 0);
    assert_eq!(f.consume(10), Ok(()));
    assert_eq!(f.consume(1), Err(Error::FlowControlViolation));
    assert_eq!(f.consume(u64::MAX), Err(Error::FlowControlViolation));
    assert_eq!(f.consumed(), 10);
    assert_eq!(f.consume(0), Ok(()));
}

#[test]
fn two_consumptions_fail_exactly_when_their_sum_passes_the_limit() {
    for before in [0u64, 3, 10] {
        for n in [0u64, 1, 4, 7, 11] {
            for m in [0u64, 1, 3, 6, 10] {
                let mut f = FlowController::new(10);
                if f.consume(before).is_err() {
                    continue;
                }
                let first = f.consume(n);
                let second = f.consume(m);
                assert_eq!(first.is_err() || second.is_err(), before + n + m > 10);
                assert!(f.consumed() <= f.limit());
            }
        }
    }
}

#[test]
fn limit_is_never_passed_in_any_order() {
    let amounts = [5u64, 9, 2, 7, 1, 4];
    let orders: [[usize; 6]; 4] =
        [[0, 1, 2, 3, 4, 5], [5, 4, 3, 2, 1, 0], [2, 0, 4, 1, 5, 3], [3, 5, 1, 0, 2, 4]];
    for order in orders {
        let mut f = FlowController::new(16);
        let mut last = 0;
        for i in order {
            let _ = f.consume(amounts[i]);
            assert!(f.consumed() <= 16);
            assert!(f.consumed() >= last);
            last = f.consumed();
        }
    }
}

#[test]
fn credit_raises_the_limit_and_never_lowers_it() {
    let mut f = FlowController::new(10);
    assert!(f.credit_received(20));
    assert_eq!(f.limit(), 20);
    assert!(!f.credit_received(15));
    assert_eq!(f.limit(), 20);
    assert!(!f.credit_received(20));
    assert!(!f.credit_received(0));
    assert_eq!(f.limit(), 20);
    assert_eq!(f.consumed(), 0);
    assert_eq!(f.consume(20), Ok(()));
    assert!(f.blocked());
    assert!(f.credit_received(21));
    assert!(!f.blocked());
    assert_eq!(f.available(), 1);
}

#[test]
fn admits_tells_what_consume_would_do() {
    let mut f = FlowController::new(5);
    assert!(f.admits(5));
    assert!(!f.admits(6));
    assert_eq!(f.consume(3), Ok(()));
    assert!(f.admits(2));
    assert!(!f.admits(3));
    assert!(!f.admits(u64::MAX));
}

#[test]
fn controller_without_credit_is_blocked() {
    let mut f = FlowController::new(0);
    assert!(f.blocked());
    assert_eq!(f.consume(0), Ok(()));
    assert_eq!(f.consume(1), Err(Error::FlowControlViolation));
}
