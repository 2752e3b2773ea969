//! Reconciling the local working-order count with exchange snapshots.

use vstd::prelude::*;

verus! {

/// Consecutive empty exchange snapshots required before local working-order
/// state is reset to the exchange (0).
///
/// A single empty page of active orders can be truncated or flaky. Two
/// confirmed empties, or one empty plus an immediate confirm fetch, are treated
/// as "the book really has no working orders".
pub const EMPTY_OPEN_ORDER_CONFIRMATIONS: u32 = 2;

/// What the live loop should do after comparing exchange and local counts.
#[derive(Debug, Clone, Copy, PartialEq, Eq, Structural)]
pub enum OpenOrderReconcileAction {
    /// The exchange count is authoritative (non-empty, or both sides already 0).
    TrustExchange,
    /// First empty snapshot while local still thinks orders exist: hold local
    /// for this cycle only and wait for confirmation.
    HoldPendingConfirm,
    /// Confirmed empty book: drop the ghost local working-order count.
    ReconcileToExchange,
}

#[derive(Debug, Clone, Copy, PartialEq, Eq, Structural)]
pub struct OpenOrderReconcile {
    pub trusted_count: u32,
    pub consecutive_empty: u32,
    pub action: OpenOrderReconcileAction,
}

/// The decision on a snapshot, given the streak of empty ones before it.
pub open spec fn reconciled(
    exchange_count: u32,
    local_count: u32,
    consecutive_empty: u32,
) -> OpenOrderReconcile {
    if exchange_count > 0 || local_count == 0 {
        OpenOrderReconcile {
            trusted_count: exchange_count,
            consecutive_empty: 0,
            action: OpenOrderReconcileAction::TrustExchange,
        }
    } else if consecutive_empty + 1 >= EMPTY_OPEN_ORDER_CONFIRMATIONS {
        OpenOrderReconcile {
            trusted_count: 0,
            consecutive_empty: 0,
            action: OpenOrderReconcileAction::ReconcileToExchange,
        }
    } else {
        OpenOrderReconcile {
            trusted_count: local_count,
            consecutive_empty: (consecutive_empty + 1) as u32,
            action: OpenOrderReconcileAction::HoldPendingConfirm,
        }
    }
}

/// Decides whether a live open-order snapshot should update local state.
///
/// `consecutive_empty` is the streak *before* this snapshot. Pass `>= 1`
/// when this cycle already confirmed a second empty fetch.
pub fn reconcile_open_order_count(
    exchange_count: u32,
    local_count: u32,
    consecutive_empty: u32,
) -> (r: OpenOrderReconcile)
    ensures
        r == reconciled(exchange_count, local_count, consecutive_empty),
{
    if exchange_count > 0 {
        return OpenOrderReconcile {
            trusted_count: exchange_count,
            consecutive_empty: 0,
            action: OpenOrderReconcileAction::TrustExchange,
        };
    }
    if local_count == 0 {
        return OpenOrderReconcile {
            trusted_count: 0,
            consecutive_empty: 0,
            action: OpenOrderReconcileAction::TrustExchange,
        };
    }
    let next_empty: u32 = consecutive_empty.saturating_add(1);
    if next_empty >= EMPTY_OPEN_ORDER_CONFIRMATIONS {
        OpenOrderReconcile {
            trusted_count: 0,
            consecutive_empty: 0,
            action: OpenOrderReconcileAction::ReconcileToExchange,
        }
    } else {
        OpenOrderReconcile {
            trusted_count: local_count,
            consecutive_empty: next_empty,
            action: OpenOrderReconcileAction::HoldPendingConfirm,
        }
    }
}

/// A ghost working order never survives two empty snapshots in a row, whatever
/// the local count and the streak were before them.
pub proof fn law_two_empty_snapshots_clear_ghosts(local_count: u32, consecutive_empty: u32)
    ensures
        ({
            let first = reconciled(0, local_count, consecutive_empty);
            let second = reconciled(0, first.trusted_count, first.consecutive_empty);
            &&& second.trusted_count == 0
            &&& second.consecutive_empty == 0
        }),
{
}

/// A count that the exchange reports is believed at once and ends the streak.
pub proof fn law_reported_orders_are_trusted(
    exchange_count: u32,
    local_count: u32,
    consecutive_empty: u32,
)
    requires
        exchange_count > 0,
    ensures
        reconciled(exchange_count, local_count, consecutive_empty).trusted_count == exchange_count,
        reconciled(exchange_count, local_count, consecutive_empty).consecutive_empty == 0,
        reconciled(exchange_count, local_count, consecutive_empty).action
            is TrustExchange,
{
}

/// A single empty snapshot never drops local orders, and the streak that is
/// carried on stays below the number of confirmations.
pub proof fn law_one_empty_snapshot_holds(local_count: u32)
    requires
        local_count > 0,
    ensures
        reconciled(0, local_count, 0).trusted_count == local_count,
        reconciled(0, local_count, 0).action is HoldPendingConfirm,
        forall|exchange: u32, local: u32, streak: u32|
            #[trigger] reconciled(exchange, local, streak).consecutive_empty
                < EMPTY_OPEN_ORDER_CONFIRMATIONS,
{
}

/// An empty snapshot after another one drops the local orders at once, and one
/// that finds no local orders leaves nothing and starts no streak.
pub proof fn law_confirmed_empties_reset_the_count(local_count: u32, consecutive_empty: u32)
    ensures
        local_count > 0 && consecutive_empty >= 1 ==> reconciled(0, local_count, consecutive_empty) == (
        OpenOrderReconcile {
            trusted_count: 0,
            consecutive_empty: 0,
            action: OpenOrderReconcileAction::ReconcileToExchange,
        }),
        local_count > 0 ==> reconciled(0, local_count, 0).consecutive_empty == 1,
        reconciled(0, 0, consecutive_empty) == (OpenOrderReconcile {
            trusted_count: 0,
            consecutive_empty: 0,
            action: OpenOrderReconcileAction::TrustExchange,
        }),
{
}

} // verus!
