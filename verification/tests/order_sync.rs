use lighter_bot::risk::order_sync::{reconcile_open_order_count, OpenOrderReconcileAction};

#[test]
fn trusts_nonempty_exchange_and_clears_empty_streak() {
    let decided = reconcile_open_order_count(3, 1, 1);
    assert_eq!(decided.trusted_count, 3);
    assert_eq!(decided.consecutive_empty, 0);
    assert_eq!(decided.action, OpenOrderReconcileAction::TrustExchange);
}

#[test]
fn trusts_matching_empty_book() {
    let decided = reconcile_open_order_count(0, 0, 4);
    assert_eq!(decided.trusted_count, 0);
    assert_eq!(decided.consecutive_empty, 0);
    assert_eq!(decided.action, OpenOrderReconcileAction::TrustExchange);
}

#[test]
fn first_empty_while_local_has_orders_holds_for_confirm() {
    let decided = reconcile_open_order_count(0, 1, 0);
    assert_eq!(decided.trusted_count, 1);
    assert_eq!(decided.consecutive_empty, 1);
    assert_eq!(decided.action, OpenOrderReconcileAction::HoldPendingConfirm);
}

#[test]
fn confirmed_empty_reconciles_local_ghost_to_exchange() {
    let first = reconcile_open_order_count(0, 1, 0);
    let confirmed = reconcile_open_order_count(0, first.trusted_count, first.consecutive_empty);
    assert_eq!(confirmed.trusted_count, 0);
    assert_eq!(confirmed.consecutive_empty, 0);
    assert_eq!(confirmed.action, OpenOrderReconcileAction::ReconcileToExchange);
}

#[test]
fn same_cycle_confirm_fetch_reconciles_immediately() {
    let decided = reconcile_open_order_count(0, 2, 1);
    assert_eq!(decided.trusted_count, 0);
    assert_eq!(decided.action, OpenOrderReconcileAction::ReconcileToExchange);
}

#[test]
fn never_keeps_ignoring_empty_exchange_forever() {
    let mut local = 1u32;
    let mut streak = 0u32;
    let mut saw_reconcile = false;
    for _ in 0..4 {
        let decided = reconcile_open_order_count(0, local, streak);
        local = decided.trusted_count;
        streak = decided.consecutive_empty;
        if decided.action == OpenOrderReconcileAction::ReconcileToExchange {
            saw_reconcile = true;
            break;
        }
    }
    assert!(saw_reconcile, "ghost working orders must be dropped");
    assert_eq!(local, 0);
    assert_eq!(streak, 0);
}
