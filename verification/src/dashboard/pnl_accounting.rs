//! Live profit-and-loss identity and snapshot-glitch guards.
//!
//! Exchange equity already includes unrealized profit. The only internally
//! consistent profit since inception is `equity - initial_equity`. The
//! increment `change of equity - change of unrealized` is only safe when a
//! real close happened and equity moved with the vanished unrealized.
//!
//! Volume and close counts are of exchange-confirmed fills. A successful order
//! placement, such as an unfilled maker requote, is not a fill.

use vstd::prelude::*;

use crate::binary64::consts::{
    FIFTY, FIVE_HUNDRED, INFINITY, MINUS_ONE, ONE, ONE_AND_A_HALF, QUARTER, TEN, TINY_12, TINY_6, TINY_9, TWENTY,
    ZERO,
};
use crate::binary64::facts::{
    lemma_mul_mono, lemma_mul_nan, lemma_mul_swap, lemma_self_difference, lemma_sub_nan, lemma_times_one,
};
use crate::binary64::layout::lemma_units_zero;
use crate::binary64::order::lemma_value_order;
use crate::binary64::{num, B64};
use crate::json::{Json, JsonView};
use crate::table::each_once;
use crate::text::{chars_of, copy_text, same_chars, trim, trimmed};

verus! {

pub open spec fn spec_inception_pnl(equity: B64, initial_equity: B64) -> B64 {
    if !equity.is_finite() || !initial_equity.is_finite() || initial_equity.le(num(ZERO)) {
        num(ZERO)
    } else {
        equity.sub(initial_equity)
    }
}

/// Mark-to-market profit since the stored initial equity.
#[verifier::when_used_as_spec(spec_inception_pnl)]
pub fn inception_pnl(equity: B64, initial_equity: B64) -> (r: B64)
    ensures
        r == spec_inception_pnl(equity, initial_equity),
{
    if !equity.is_finite() || !initial_equity.is_finite() || initial_equity.le(num(ZERO)) {
        return num(ZERO);
    }
    equity.sub(initial_equity)
}

pub open spec fn spec_implied_realized(equity: B64, initial_equity: B64, unrealized: B64) -> B64 {
    inception_pnl(equity, initial_equity).sub(unrealized)
}

/// Lifetime realized profit implied by the accounting identity
/// `equity = initial + realized + unrealized` (no deposits or withdrawals).
#[verifier::when_used_as_spec(spec_implied_realized)]
pub fn implied_realized(equity: B64, initial_equity: B64, unrealized: B64) -> (r: B64)
    ensures
        r == spec_implied_realized(equity, initial_equity, unrealized),
{
    inception_pnl(equity, initial_equity).sub(unrealized)
}

pub open spec fn spec_realized_needs_rebase(stored_realized: B64, implied: B64) -> bool {
    stored_realized.is_finite() && implied.is_finite() && stored_realized.sub(implied).abs().gt(num(TEN))
}

/// Whether stored realized profit has drifted from the equity identity by more
/// than a few dollars.
#[verifier::when_used_as_spec(spec_realized_needs_rebase)]
pub fn realized_needs_rebase(stored_realized: B64, implied: B64) -> (r: bool)
    ensures
        r == spec_realized_needs_rebase(stored_realized, implied),
{
    stored_realized.is_finite() && implied.is_finite() && stored_realized.sub(implied).abs().gt(num(TEN))
}

/// Whether positions dropped off the book while equity did not give back the
/// unrealized profit.
pub open spec fn looks_incomplete(equity_change: B64, unrealized_change: B64, all_vanished: bool) -> bool {
    &&& all_vanished
    &&& unrealized_change.lt(num(MINUS_ONE))
    &&& equity_change.abs().lt(unrealized_change.neg().mul(num(QUARTER)).max(num(ONE)))
}

/// Whether a realized profit is out of proportion to what was closed.
pub open spec fn out_of_proportion(realized: B64, closed_notional: B64) -> bool {
    &&& closed_notional.gt(num(ZERO))
    &&& realized.abs().gt(closed_notional.mul(num(ONE_AND_A_HALF)))
    &&& realized.abs().gt(num(TEN))
}

pub open spec fn booked_reduction(
    equity_change: B64,
    unrealized_change: B64,
    closed_notional: B64,
    all_positions_vanished: bool,
) -> Option<B64> {
    let realized = equity_change.sub(unrealized_change);
    if !equity_change.is_finite() || !unrealized_change.is_finite() || !realized.is_finite() {
        None
    } else if looks_incomplete(equity_change, unrealized_change, all_positions_vanished) {
        None
    } else if out_of_proportion(realized, closed_notional) {
        None
    } else {
        Some(realized)
    }
}

/// Incremental realized profit of a detected position reduction, or nothing
/// when the snapshot looks incomplete (positions vanished, equity barely moved).
pub fn realized_from_position_reductions(
    equity_change: B64,
    unrealized_change: B64,
    closed_notional: B64,
    all_positions_vanished: bool,
) -> (r: Option<B64>)
    ensures
        r == booked_reduction(equity_change, unrealized_change, closed_notional, all_positions_vanished),
{
    if !equity_change.is_finite() || !unrealized_change.is_finite() {
        return None;
    }
    let realized: B64 = equity_change.sub(unrealized_change);
    if !realized.is_finite() {
        return None;
    }
    if all_positions_vanished && unrealized_change.lt(num(MINUS_ONE)) && equity_change.abs().lt(
        unrealized_change.neg().mul(num(QUARTER)).max(num(ONE)),
    ) {
        return None;
    }
    if closed_notional.gt(num(ZERO)) && realized.abs().gt(closed_notional.mul(num(ONE_AND_A_HALF)))
        && realized.abs().gt(num(TEN)) {
        return None;
    }
    Some(realized)
}

/// The first finite equity sample on a day.
pub open spec fn first_of_day(history: Seq<(i64, B64)>, day: int) -> Option<B64>
    decreases history.len(),
{
    if history.len() == 0 {
        None
    } else {
        let (ts, equity) = history.first();
        if ts > 0 && ts as int / 86_400 == day && equity.is_finite() {
            Some(equity)
        } else {
            first_of_day(history.drop_first(), day)
        }
    }
}

pub open spec fn opening_equity(history: Seq<(i64, B64)>, now_ts: i64, fallback: B64) -> B64 {
    if now_ts <= 0 {
        fallback
    } else {
        match first_of_day(history, now_ts as int / 86_400) {
            Some(equity) => if equity.gt(num(ZERO)) {
                equity
            } else {
                fallback
            },
            None => fallback,
        }
    }
}

/// First equity sample on the UTC day of `now_ts`, else `fallback`.
pub fn start_of_day_equity(history: &[(i64, B64)], now_ts: i64, fallback: B64) -> (r: B64)
    ensures
        r == opening_equity(history@, now_ts, fallback),
{
    if now_ts <= 0 {
        return fallback;
    }
    let day: i64 = now_ts / 86_400;
    let mut i: usize = 0;
    assert(history@.skip(0) =~= history@);
    while i < history.len()
        invariant
            i <= history.len(),
            now_ts > 0,
            day == now_ts as int / 86_400,
            first_of_day(history@, day as int) == first_of_day(history@.skip(i as int), day as int),
        decreases history.len() - i,
    {
        assert(history@.skip(i as int).first() == history@[i as int]);
        assert(history@.skip(i as int).drop_first() =~= history@.skip(i as int + 1));
        let (ts, equity): (i64, B64) = history[i];
        if ts > 0 && ts / 86_400 == day && equity.is_finite() {
            return if equity.gt(num(ZERO)) {
                equity
            } else {
                fallback
            };
        }
        i = i + 1;
    }
    fallback
}

pub open spec fn spec_daily_mark_to_market(equity: B64, start_of_day: B64) -> B64 {
    if !equity.is_finite() || !start_of_day.is_finite() || start_of_day.le(num(ZERO)) {
        num(ZERO)
    } else {
        equity.sub(start_of_day)
    }
}

/// Profit since the start of the day.
#[verifier::when_used_as_spec(spec_daily_mark_to_market)]
pub fn daily_mark_to_market(equity: B64, start_of_day: B64) -> (r: B64)
    ensures
        r == spec_daily_mark_to_market(equity, start_of_day),
{
    if !equity.is_finite() || !start_of_day.is_finite() || start_of_day.le(num(ZERO)) {
        return num(ZERO);
    }
    equity.sub(start_of_day)
}

/// The actions that record a real position close.
pub open spec fn close_action(action: Seq<char>) -> bool {
    let word = trimmed(action);
    word == "Full Close"@ || word == "Partial Close"@ || word == "Emergency Close"@ || word == "Liquidation"@
}

/// Whether an action is a position close recorded from an account-size
/// reduction.
pub fn action_is_close_fill(action: &str) -> (r: bool)
    ensures
        r == close_action(action@),
{
    let word = trim(&chars_of(action));
    same_chars(&word, &chars_of("Full Close")) || same_chars(&word, &chars_of("Partial Close")) || same_chars(
        &word,
        &chars_of("Emergency Close"),
    ) || same_chars(&word, &chars_of("Liquidation"))
}

/// The action of a record: the field `action`, or else `close_type`; empty
/// where that is no text.
pub open spec fn action_of(rec: JsonView) -> Seq<char> {
    let node = match rec.get("action"@) {
        Some(v) => Some(v),
        None => rec.get("close_type"@),
    };
    match node {
        Some(v) => match v.text() {
            Some(s) => s,
            None => ""@,
        },
        None => ""@,
    }
}

fn trade_action(rec: &Json) -> (r: &str)
    ensures
        r@ == action_of(rec@),
{
    let node: Option<&Json> = match rec.get("action") {
        Some(v) => Some(v),
        None => rec.get("close_type"),
    };
    match node {
        Some(v) => match v.as_str() {
            Some(s) => s,
            None => "",
        },
        None => "",
    }
}

/// A fill is either tagged or a close recorded from the position book.
/// Untagged opening rows are order placements, not fills.
pub open spec fn is_fill(rec: JsonView) -> bool {
    let tag = match rec.get("fill"@) {
        Some(v) => v.flag(),
        None => None,
    };
    match tag {
        Some(b) => b,
        None => close_action(action_of(rec)),
    }
}

/// Whether a record is a fill.
pub fn trade_is_fill(rec: &Json) -> (r: bool)
    ensures
        r == is_fill(rec@),
{
    let tag: Option<bool> = match rec.get("fill") {
        Some(v) => v.as_bool(),
        None => None,
    };
    match tag {
        Some(b) => b,
        None => action_is_close_fill(trade_action(rec)),
    }
}

/// A number field, 0 where there is none.
pub open spec fn number_field(rec: JsonView, key: Seq<char>) -> B64 {
    match rec.get(key) {
        Some(v) => match v.number() {
            Some(x) => x,
            None => num(ZERO),
        },
        None => num(ZERO),
    }
}

fn read_number(rec: &Json, key: &str) -> (r: B64)
    ensures
        r == number_field(rec@, key@),
{
    match rec.get(key) {
        Some(v) => match v.as_number() {
            Some(x) => x,
            None => num(ZERO),
        },
        None => num(ZERO),
    }
}

/// Price times quantity of a record, without its sign.
pub open spec fn notional_of(rec: JsonView) -> B64 {
    let price = number_field(rec, "price"@);
    let qty = number_field(rec, "quantity"@);
    if price.is_finite() && qty.is_finite() {
        price.mul(qty).abs()
    } else {
        num(ZERO)
    }
}

/// Price times quantity of a record, without its sign.
pub fn fill_notional(rec: &Json) -> (r: B64)
    ensures
        r == notional_of(rec@),
{
    let price: B64 = read_number(rec, "price");
    let qty: B64 = read_number(rec, "quantity");
    if price.is_finite() && qty.is_finite() {
        price.mul(qty).abs()
    } else {
        num(ZERO)
    }
}

/// The records in a history.
pub open spec fn record_views(v: Seq<Json>) -> Seq<JsonView> {
    Seq::new(v.len(), |i: int| v[i]@)
}

/// The fills of a history, in order.
pub open spec fn fills_in(history: Seq<JsonView>) -> Seq<JsonView>
    decreases history.len(),
{
    if history.len() == 0 {
        Seq::empty()
    } else {
        let rest = fills_in(history.drop_last());
        if is_fill(history.last()) {
            rest.push(history.last())
        } else {
            rest
        }
    }
}

/// The notional of the fills of a history, summed in order.
pub open spec fn fill_volume(history: Seq<JsonView>) -> B64
    decreases history.len(),
{
    if history.len() == 0 {
        num(ZERO)
    } else {
        let rest = fill_volume(history.drop_last());
        if is_fill(history.last()) {
            rest.add(notional_of(history.last()))
        } else {
            rest
        }
    }
}

/// The number of fills of a history that close.
pub open spec fn close_count(history: Seq<JsonView>) -> nat
    decreases history.len(),
{
    if history.len() == 0 {
        0
    } else {
        close_count(history.drop_last()) + (if is_fill(history.last()) && close_action(action_of(history.last())) {
            1nat
        } else {
            0nat
        })
    }
}

/// Fill notional and real close count of a history.
pub fn fill_stats_from_history(history: &[Json]) -> (r: (B64, u64))
    ensures
        r.0 == fill_volume(record_views(history@)),
        r.1 == close_count(record_views(history@)),
        r.1 <= history@.len(),
{
    let ghost all = record_views(history@);
    let mut volume: B64 = num(ZERO);
    let mut closes: u64 = 0;
    let mut i: usize = 0;
    assert(all.take(0) =~= Seq::<JsonView>::empty());
    while i < history.len()
        invariant
            i <= history.len(),
            all == record_views(history@),
            volume == fill_volume(all.take(i as int)),
            closes == close_count(all.take(i as int)),
            closes <= i,
        decreases history.len() - i,
    {
        proof {
            assert(all.take(i as int + 1).drop_last() =~= all.take(i as int));
            assert(all.take(i as int + 1).last() == history@[i as int]@);
        }
        if trade_is_fill(&history[i]) {
            volume = volume.add(fill_notional(&history[i]));
            if action_is_close_fill(trade_action(&history[i])) {
                closes = closes + 1;
            }
        }
        i = i + 1;
    }
    assert(all.take(i as int) =~= all);
    (volume, closes)
}

/// The action of a confirmed position-size increase.
pub open spec fn increase_action(prev_size: B64, new_size: B64, same_side: bool, min_change: B64) -> Option<Seq<char>> {
    let least = if min_change.is_finite() && min_change.gt(num(ZERO)) {
        min_change
    } else {
        num(TINY_12)
    };
    let prev = if prev_size.is_finite() {
        prev_size.abs()
    } else {
        num(ZERO)
    };
    if !new_size.is_finite() || new_size.abs().lt(least) {
        None
    } else if !same_side || prev.lt(least) {
        Some("Open"@)
    } else if new_size.abs().sub(prev).ge(least) {
        Some("Add"@)
    } else {
        None
    }
}

/// Whether a confirmed position-size increase opens a position or adds to one.
pub fn position_increase_fill_action(prev_size: B64, new_size: B64, same_side: bool, min_change: B64) -> (r: Option<
    &'static str,
>)
    ensures
        increase_action(prev_size, new_size, same_side, min_change) == (match r {
            Some(s) => Some(s@),
            None => None::<Seq<char>>,
        }),
{
    let least: B64 = if min_change.is_finite() && min_change.gt(num(ZERO)) { min_change } else { num(TINY_12) };
    if !new_size.is_finite() || new_size.abs().lt(least) {
        return None;
    }
    if !same_side {
        return Some("Open");
    }
    let prev: B64 = if prev_size.is_finite() { prev_size.abs() } else { num(ZERO) };
    if prev.lt(least) {
        return Some("Open");
    }
    if new_size.abs().sub(prev).ge(least) {
        return Some("Add");
    }
    None
}

/// The smaller of a number and an equity, where that is usable.
pub open spec fn lower_equity(acc: B64, equity: B64) -> B64 {
    if equity.is_finite() && equity.gt(num(ZERO)) {
        acc.min(equity)
    } else {
        acc
    }
}

fn min_usable(acc: B64, equity: B64) -> (r: B64)
    ensures
        r == lower_equity(acc, equity),
{
    if equity.is_finite() && equity.gt(num(ZERO)) {
        acc.min(equity)
    } else {
        acc
    }
}

/// The least usable equity of a history, infinite where there is none.
pub open spec fn least_equity(history: Seq<(i64, B64)>) -> B64
    decreases history.len(),
{
    if history.len() == 0 {
        num(INFINITY)
    } else {
        lower_equity(least_equity(history.drop_last()), history.last().1)
    }
}

pub open spec fn equity_hint(
    history: Seq<(i64, B64)>,
    peak_equity: B64,
    initial_equity: B64,
    constructor_equity: B64,
) -> B64 {
    let least = least_equity(history);
    if least.is_finite() {
        least
    } else {
        lower_equity(
            lower_equity(lower_equity(num(INFINITY), constructor_equity), initial_equity),
            peak_equity,
        )
    }
}

/// The least equity ever seen, as far as is known.
pub fn min_equity_hint(
    equity_history: &[(i64, B64)],
    peak_equity: B64,
    initial_equity: B64,
    constructor_equity: B64,
) -> (r: B64)
    ensures
        r == equity_hint(equity_history@, peak_equity, initial_equity, constructor_equity),
{
    let mut least: B64 = num(INFINITY);
    let mut i: usize = 0;
    assert(equity_history@.take(0) =~= Seq::<(i64, B64)>::empty());
    while i < equity_history.len()
        invariant
            i <= equity_history.len(),
            least == least_equity(equity_history@.take(i as int)),
        decreases equity_history.len() - i,
    {
        proof {
            assert(equity_history@.take(i as int + 1).drop_last() =~= equity_history@.take(i as int));
            assert(equity_history@.take(i as int + 1).last() == equity_history@[i as int]);
        }
        least = min_usable(least, equity_history[i].1);
        i = i + 1;
    }
    assert(equity_history@.take(i as int) =~= equity_history@);
    if least.is_finite() {
        return least;
    }
    min_usable(min_usable(min_usable(num(INFINITY), constructor_equity), initial_equity), peak_equity)
}

/// A span widened to the distance of two usable equities.
pub open spec fn wider_span(span: B64, left: B64, right: B64) -> B64 {
    if left.is_finite() && right.is_finite() && left.gt(num(ZERO)) && right.gt(num(ZERO)) {
        span.max(left.sub(right).abs())
    } else {
        span
    }
}

fn widen_span(span: B64, left: B64, right: B64) -> (r: B64)
    ensures
        r == wider_span(span, left, right),
{
    if left.is_finite() && right.is_finite() && left.gt(num(ZERO)) && right.gt(num(ZERO)) {
        span.max(left.sub(right).abs())
    } else {
        span
    }
}

pub open spec fn sanity_cap(peak_equity: B64, min_equity: B64, initial_equity: B64, implied_or_stored: B64) -> B64 {
    let span = wider_span(
        wider_span(wider_span(num(ZERO), peak_equity, min_equity), peak_equity, initial_equity),
        min_equity,
        initial_equity,
    );
    let span = if implied_or_stored.is_finite() {
        span.max(implied_or_stored.abs())
    } else {
        span
    };
    span.max(num(ONE)).mul(num(ONE_AND_A_HALF))
}

/// The largest one-day profit that is believed: realized profit cannot exceed
/// by much the cash that the book has ever moved.
pub fn daily_pnl_sanity_cap(
    peak_equity: B64,
    min_equity: B64,
    initial_equity: B64,
    implied_or_stored: B64,
) -> (r: B64)
    ensures
        r == sanity_cap(peak_equity, min_equity, initial_equity, implied_or_stored),
{
    let mut span: B64 = num(ZERO);
    span = widen_span(span, peak_equity, min_equity);
    span = widen_span(span, peak_equity, initial_equity);
    span = widen_span(span, min_equity, initial_equity);
    if implied_or_stored.is_finite() {
        span = span.max(implied_or_stored.abs());
    }
    span.max(num(ONE)).mul(num(ONE_AND_A_HALF))
}

/// Profit by day, in some order.
pub open spec fn day_views(v: Seq<(String, B64)>) -> Seq<(Seq<char>, B64)> {
    Seq::new(v.len(), |i: int| (v[i].0@, v[i].1))
}

/// Whether a day's profit is believable.
pub open spec fn believable(pnl: B64, cap: B64) -> bool {
    pnl.is_finite() && pnl.abs().le(cap.add(num(TINY_9)))
}

/// The believable days.
pub open spec fn believable_days(days: Seq<(Seq<char>, B64)>, cap: B64) -> Seq<(Seq<char>, B64)>
    decreases days.len(),
{
    if days.len() == 0 {
        Seq::empty()
    } else {
        let rest = believable_days(days.drop_last(), cap);
        if believable(days.last().1, cap) {
            rest.push(days.last())
        } else {
            rest
        }
    }
}

/// The profit of all days, summed in order.
pub open spec fn day_sum(days: Seq<(Seq<char>, B64)>) -> B64
    decreases days.len(),
{
    if days.len() == 0 {
        num(ZERO)
    } else {
        day_sum(days.drop_last()).add(days.last().1)
    }
}

/// The believable days; none at all where their sum is far from the implied
/// profit.
pub open spec fn sanitized_days(days: Seq<(Seq<char>, B64)>, cap: B64, implied: Option<B64>) -> Seq<(Seq<char>, B64)> {
    let kept = believable_days(days, cap);
    match implied {
        Some(implied) => if implied.is_finite() && day_sum(kept).sub(implied).abs().gt(cap.max(num(FIFTY))) {
            Seq::empty()
        } else {
            kept
        },
        None => kept,
    }
}

/// Strips the days that the equity range cannot support. The days are walked
/// in the order in which they are given.
pub fn sanitize_daily_pnl_map(map: &[(String, B64)], cap: B64, implied_realized: Option<B64>) -> (r: Vec<
    (String, B64),
>)
    ensures
        day_views(r@) == sanitized_days(day_views(map@), cap, implied_realized),
{
    let ghost all = day_views(map@);
    let mut out: Vec<(String, B64)> = Vec::new();
    let mut sum: B64 = num(ZERO);
    let mut i: usize = 0;
    assert(all.take(0) =~= Seq::<(Seq<char>, B64)>::empty());
    assert(day_views(out@) =~= Seq::<(Seq<char>, B64)>::empty());
    while i < map.len()
        invariant
            i <= map.len(),
            all == day_views(map@),
            day_views(out@) == believable_days(all.take(i as int), cap),
            sum == day_sum(day_views(out@)),
        decreases map.len() - i,
    {
        proof {
            assert(all.take(i as int + 1).drop_last() =~= all.take(i as int));
            assert(all.take(i as int + 1).last() == (map@[i as int].0@, map@[i as int].1));
        }
        let pnl: B64 = map[i].1;
        if pnl.is_finite() && pnl.abs().le(cap.add(num(TINY_9))) {
            let ghost before = day_views(out@);
            out.push((copy_text(map[i].0.as_str()), pnl));
            sum = sum.add(pnl);
            proof {
                assert(day_views(out@) =~= before.push(all[i as int]));
                assert(day_views(out@).drop_last() =~= before);
            }
        }
        i = i + 1;
    }
    assert(all.take(i as int) =~= all);
    if let Some(implied) = implied_realized {
        if implied.is_finite() && sum.sub(implied).abs().gt(cap.max(num(FIFTY))) {
            out.clear();
            assert(day_views(out@) =~= Seq::<(Seq<char>, B64)>::empty());
        }
    }
    out
}

/// What a persisted dashboard file holds, and what is known besides.
#[derive(Debug)]
pub struct PersistedPnlInputs {
    pub trade_history: Vec<Json>,
    pub total_volume: B64,
    pub total_closed_trades: u64,
    pub total_realized_pnl: B64,
    pub daily_pnl_map: Vec<(String, B64)>,
    pub peak_equity: B64,
    pub equity_history: Vec<(i64, B64)>,
    pub initial_equity: B64,
    pub constructor_equity: B64,
    pub unrealized: B64,
}

#[derive(Debug)]
pub struct CorrectedPersistedPnl {
    pub trade_history: Vec<Json>,
    pub total_volume: B64,
    pub total_closed_trades: u64,
    pub total_realized_pnl: B64,
    pub daily_pnl_map: Vec<(String, B64)>,
    pub changed: bool,
}

fn copy_days(days: &[(String, B64)]) -> (r: Vec<(String, B64)>)
    ensures
        day_views(r@) == day_views(days@),
{
    let mut r: Vec<(String, B64)> = Vec::new();
    let mut i: usize = 0;
    while i < days.len()
        invariant
            i <= days.len(),
            r.len() == i,
            forall|k: int| 0 <= k < i ==> (#[trigger] r@[k]).0@ == days@[k].0@ && r@[k].1 == days@[k].1,
        decreases days.len() - i,
    {
        r.push((copy_text(days[i].0.as_str()), days[i].1));
        i = i + 1;
    }
    assert(day_views(r@) =~= day_views(days@));
    r
}

fn copy_records(records: &[Json]) -> (r: Vec<Json>)
    ensures
        record_views(r@) == record_views(records@),
{
    let mut r: Vec<Json> = Vec::new();
    let mut i: usize = 0;
    while i < records.len()
        invariant
            i <= records.len(),
            r.len() == i,
            forall|k: int| 0 <= k < i ==> (#[trigger] r@[k])@ == records@[k]@,
        decreases records.len() - i,
    {
        r.push(records[i].clone());
        i = i + 1;
    }
    assert(record_views(r@) =~= record_views(records@));
    r
}

impl Clone for CorrectedPersistedPnl {
    fn clone(&self) -> (r: CorrectedPersistedPnl)
        ensures
            record_views(r.trade_history@) == record_views(self.trade_history@),
            day_views(r.daily_pnl_map@) == day_views(self.daily_pnl_map@),
            r.total_volume == self.total_volume,
            r.total_closed_trades == self.total_closed_trades,
            r.total_realized_pnl == self.total_realized_pnl,
            r.changed == self.changed,
    {
        CorrectedPersistedPnl {
            trade_history: copy_records(self.trade_history.as_slice()),
            total_volume: self.total_volume,
            total_closed_trades: self.total_closed_trades,
            total_realized_pnl: self.total_realized_pnl,
            daily_pnl_map: copy_days(self.daily_pnl_map.as_slice()),
            changed: self.changed,
        }
    }
}

#[verifier::ext_equal]
pub struct PersistedView {
    pub trade_history: Seq<JsonView>,
    pub total_volume: B64,
    pub total_closed_trades: u64,
    pub total_realized_pnl: B64,
    pub daily_pnl_map: Seq<(Seq<char>, B64)>,
    pub peak_equity: B64,
    pub equity_history: Seq<(i64, B64)>,
    pub initial_equity: B64,
    pub constructor_equity: B64,
    pub unrealized: B64,
}

impl View for PersistedPnlInputs {
    type V = PersistedView;

    open spec fn view(&self) -> PersistedView {
        PersistedView {
            trade_history: record_views(self.trade_history@),
            total_volume: self.total_volume,
            total_closed_trades: self.total_closed_trades,
            total_realized_pnl: self.total_realized_pnl,
            daily_pnl_map: day_views(self.daily_pnl_map@),
            peak_equity: self.peak_equity,
            equity_history: self.equity_history@,
            initial_equity: self.initial_equity,
            constructor_equity: self.constructor_equity,
            unrealized: self.unrealized,
        }
    }
}

/// Five times a count but at least 10, saturating.
pub open spec fn close_limit(closes: int) -> int {
    let five = if closes * 5 > u64::MAX {
        u64::MAX as int
    } else {
        closes * 5
    };
    if five < 10 {
        10
    } else {
        five
    }
}

impl PersistedView {
    /// A day stands once.
    pub open spec fn wf(self) -> bool {
        each_once(self.daily_pnl_map)
    }

    pub open spec fn fills(self) -> Seq<JsonView> {
        fills_in(self.trade_history)
    }

    /// Lifetime counters that cannot exist given cash equity and the retained
    /// fills.
    pub open spec fn implausible(self) -> bool {
        &&& self.peak_equity.gt(num(ZERO))
        &&& self.total_volume.gt(self.peak_equity.mul(num(FIVE_HUNDRED)))
        &&& self.total_volume.gt(fill_volume(self.fills()).max(num(ONE)).mul(num(TWENTY)))
        &&& self.total_closed_trades > close_limit(close_count(self.fills()) as int)
    }

    /// Placements still in the history, or implausible counters.
    pub open spec fn polluted(self) -> bool {
        self.fills().len() != self.trade_history.len() || self.implausible()
    }

    pub open spec fn volume(self) -> B64 {
        let seen = fill_volume(self.fills());
        if !self.polluted() && self.total_volume.is_finite() && self.total_volume.gt(num(ZERO)) {
            self.total_volume.max(seen)
        } else {
            seen
        }
    }

    pub open spec fn closes(self) -> int {
        let seen = close_count(self.fills()) as int;
        if !self.polluted() && self.total_closed_trades > seen {
            self.total_closed_trades as int
        } else {
            seen
        }
    }

    pub open spec fn can_rebase(self) -> bool {
        self.constructor_equity.gt(num(ZERO)) && self.initial_equity.gt(num(ZERO))
    }

    pub open spec fn implied(self) -> B64 {
        if self.can_rebase() {
            implied_realized(self.constructor_equity, self.initial_equity, self.unrealized)
        } else {
            self.total_realized_pnl
        }
    }

    pub open spec fn realized(self) -> B64 {
        if self.can_rebase() && realized_needs_rebase(self.total_realized_pnl, self.implied()) {
            self.implied()
        } else {
            self.total_realized_pnl
        }
    }

    pub open spec fn cap(self) -> B64 {
        sanity_cap(
            self.peak_equity,
            equity_hint(self.equity_history, self.peak_equity, self.initial_equity, self.constructor_equity),
            self.initial_equity,
            if self.can_rebase() { self.implied() } else { self.realized() },
        )
    }

    pub open spec fn days(self) -> Seq<(Seq<char>, B64)> {
        sanitized_days(
            self.daily_pnl_map,
            self.cap(),
            if self.can_rebase() { Some(self.implied()) } else { None },
        )
    }

    /// The file after the correction.
    pub open spec fn corrected(self) -> PersistedView {
        PersistedView {
            trade_history: self.fills(),
            total_volume: self.volume(),
            total_closed_trades: self.closes() as u64,
            total_realized_pnl: self.realized(),
            daily_pnl_map: self.days(),
            ..self
        }
    }

    /// Whether the correction changes anything.
    pub open spec fn differs(self) -> bool {
        ||| self.fills().len() != self.trade_history.len()
        ||| self.volume().sub(self.total_volume).abs().gt(num(TINY_6))
        ||| self.closes() != self.total_closed_trades
        ||| self.realized().sub(self.total_realized_pnl).abs().gt(num(TINY_6))
        ||| self.days().len() != self.daily_pnl_map.len()
    }
}

fn keep_fills(history: Vec<Json>) -> (r: (Vec<Json>, usize))
    ensures
        record_views(r.0@) == fills_in(record_views(history@)),
        r.1 == history@.len() - r.0@.len(),
{
    let ghost all = record_views(history@);
    let ghost raw = history@;
    let total: usize = history.len();
    let mut fills: Vec<Json> = Vec::new();
    let mut dropped: usize = 0;
    assert(all.take(0) =~= Seq::<JsonView>::empty());
    assert(record_views(fills@) =~= Seq::<JsonView>::empty());
    for rec in it: history
        invariant
            it.seq() == raw,
            all == record_views(raw),
            raw.len() == total,
            record_views(fills@) == fills_in(all.take(it.index())),
            dropped == it.index() - fills@.len(),
    {
        let ghost n = it.index();
        proof {
            assert(all.take(n + 1).drop_last() =~= all.take(n));
            assert(all.take(n + 1).last() == rec@);
        }
        let ghost before = record_views(fills@);
        let ghost view = rec@;
        if trade_is_fill(&rec) {
            fills.push(rec);
            assert(record_views(fills@) =~= before.push(view));
        } else {
            dropped = dropped + 1;
        }
    }
    assert(all.take(all.len() as int) =~= all);
    (fills, dropped)
}

/// Drops placement rows, recomputes fill volume and closes, rebases realized
/// profit to the cash-equity identity, and strips days that the equity range
/// cannot support. Inflated lifetime counters are discarded when the history
/// still holds placements; clean fill-only files keep their lifetime counters,
/// so that aged-out fills are not forgotten.
pub fn correct_persisted_pnl(input: PersistedPnlInputs) -> (r: CorrectedPersistedPnl)
    ensures
        record_views(r.trade_history@) == input@.fills(),
        r.total_volume == input@.volume(),
        r.total_closed_trades == input@.closes(),
        r.total_realized_pnl == input@.realized(),
        day_views(r.daily_pnl_map@) == input@.days(),
        r.changed == input@.differs(),
{
    let ghost view = input@;
    let (trade_history, non_fill_count): (Vec<Json>, usize) = keep_fills(input.trade_history);
    let (hist_volume, hist_closes): (B64, u64) = fill_stats_from_history(trade_history.as_slice());
    let five: u64 = if hist_closes > u64::MAX / 5 { u64::MAX } else { hist_closes * 5 };
    let limit: u64 = if five < 10 { 10 } else { five };
    let implausible: bool = input.peak_equity.gt(num(ZERO)) && input.total_volume.gt(
        input.peak_equity.mul(num(FIVE_HUNDRED)),
    ) && input.total_volume.gt(hist_volume.max(num(ONE)).mul(num(TWENTY))) && input.total_closed_trades > limit;
    let polluted: bool = non_fill_count > 0 || implausible;
    assert(polluted == view.polluted());
    let total_volume: B64 = if polluted {
        hist_volume
    } else if input.total_volume.is_finite() && input.total_volume.gt(num(ZERO)) {
        input.total_volume.max(hist_volume)
    } else {
        hist_volume
    };
    let total_closed_trades: u64 = if polluted {
        hist_closes
    } else if input.total_closed_trades > hist_closes {
        input.total_closed_trades
    } else {
        hist_closes
    };
    let can_rebase: bool = input.constructor_equity.gt(num(ZERO)) && input.initial_equity.gt(num(ZERO));
    let implied: B64 = if can_rebase {
        implied_realized(input.constructor_equity, input.initial_equity, input.unrealized)
    } else {
        input.total_realized_pnl
    };
    let total_realized_pnl: B64 = if can_rebase && realized_needs_rebase(input.total_realized_pnl, implied) {
        implied
    } else {
        input.total_realized_pnl
    };
    let min_equity: B64 = min_equity_hint(
        input.equity_history.as_slice(),
        input.peak_equity,
        input.initial_equity,
        input.constructor_equity,
    );
    let cap: B64 = daily_pnl_sanity_cap(
        input.peak_equity,
        min_equity,
        input.initial_equity,
        if can_rebase {
            implied
        } else {
            total_realized_pnl
        },
    );
    let daily_implied: Option<B64> = if can_rebase { Some(implied) } else { None };
    let daily_pnl_map = sanitize_daily_pnl_map(input.daily_pnl_map.as_slice(), cap, daily_implied);
    let changed: bool = non_fill_count > 0 || total_volume.sub(input.total_volume).abs().gt(num(TINY_6))
        || total_closed_trades != input.total_closed_trades || total_realized_pnl.sub(
        input.total_realized_pnl,
    ).abs().gt(num(TINY_6)) || daily_pnl_map.len() != input.daily_pnl_map.len();
    CorrectedPersistedPnl {
        trade_history,
        total_volume,
        total_closed_trades,
        total_realized_pnl,
        daily_pnl_map,
        changed,
    }
}

/// Every record that the correction keeps is a fill of the history, and
/// correcting the fills again keeps them all.
pub proof fn law_only_fills_are_kept(history: Seq<JsonView>)
    ensures
        forall|i: int| 0 <= i < fills_in(history).len() ==> is_fill(#[trigger] fills_in(history)[i]),
        fills_in(fills_in(history)) == fills_in(history),
        fills_in(history).len() <= history.len(),
    decreases history.len(),
{
    if history.len() > 0 {
        law_only_fills_are_kept(history.drop_last());
        let rest = fills_in(history.drop_last());
        if is_fill(history.last()) {
            assert(fills_in(history).drop_last() =~= rest);
        }
    }
}

/// Order placements count neither as volume nor as closes: the figures of a
/// history are those of its fills.
pub proof fn law_placements_do_not_count(history: Seq<JsonView>)
    ensures
        fill_volume(fills_in(history)) == fill_volume(history),
        close_count(fills_in(history)) == close_count(history),
    decreases history.len(),
{
    if history.len() > 0 {
        law_placements_do_not_count(history.drop_last());
        let rest = fills_in(history.drop_last());
        if is_fill(history.last()) {
            assert(fills_in(history).drop_last() =~= rest);
        }
    }
}

/// With placements in the history the counters are those of the fills alone.
pub proof fn law_polluted_counters_are_dropped(input: PersistedView)
    requires
        exists|i: int| 0 <= i < input.trade_history.len() && !is_fill(#[trigger] input.trade_history[i]),
    ensures
        input.polluted(),
        input.volume() == fill_volume(input.trade_history),
        input.closes() == close_count(input.trade_history),
        input.differs(),
{
    let i = choose|i: int| 0 <= i < input.trade_history.len() && !is_fill(#[trigger] input.trade_history[i]);
    lemma_fewer_fills(input.trade_history, i);
    law_placements_do_not_count(input.trade_history);
}

proof fn lemma_fewer_fills(history: Seq<JsonView>, i: int)
    requires
        0 <= i < history.len(),
        !is_fill(history[i]),
    ensures
        fills_in(history).len() < history.len(),
    decreases history.len(),
{
    law_only_fills_are_kept(history.drop_last());
    if i < history.len() - 1 {
        assert(history.drop_last()[i] == history[i]);
        lemma_fewer_fills(history.drop_last(), i);
    }
}

/// Clean fill-only files with plausible counters keep their close count, and
/// never lose volume that the history shows.
pub proof fn law_clean_counters_are_kept(input: PersistedView)
    requires
        !input.polluted(),
        input.total_closed_trades >= close_count(input.fills()),
    ensures
        input.closes() == input.total_closed_trades,
        input.total_volume.is_finite() && input.total_volume.gt(num(ZERO)) ==> input.volume()
            == input.total_volume.max(fill_volume(input.fills())),
{
}

/// No day that is left exceeds the cap.
pub proof fn law_days_stay_within_the_cap(days: Seq<(Seq<char>, B64)>, cap: B64, implied: Option<B64>)
    ensures
        sanitized_days(days, cap, implied).len() <= days.len(),
        forall|i: int|
            0 <= i < sanitized_days(days, cap, implied).len() ==> believable(
                (#[trigger] sanitized_days(days, cap, implied)[i]).1,
                cap,
            ),
{
    lemma_believable_days(days, cap);
}

proof fn lemma_believable_days(days: Seq<(Seq<char>, B64)>, cap: B64)
    ensures
        believable_days(days, cap).len() <= days.len(),
        forall|i: int|
            0 <= i < believable_days(days, cap).len() ==> believable(
                (#[trigger] believable_days(days, cap)[i]).1,
                cap,
            ),
    decreases days.len(),
{
    if days.len() > 0 {
        lemma_believable_days(days.drop_last(), cap);
    }
}

/// A number is never larger than twenty times the larger of itself and one.
proof fn lemma_own_limit(x: B64)
    ensures
        !x.gt(x.max(num(ONE)).mul(num(TWENTY))),
{
    if !x.nan() {
        let y = x.max(num(ONE));
        lemma_value_order(num(ZERO), num(ONE));
        lemma_value_order(num(ONE), num(TWENTY));
        lemma_value_order(y, num(ZERO));
        lemma_mul_nan(num(ONE), y);
        lemma_mul_nan(num(TWENTY), y);
        lemma_mul_mono(num(ONE), num(TWENTY), y);
        lemma_mul_swap(num(ONE), y);
        lemma_mul_swap(num(TWENTY), y);
        if y.finite() {
            lemma_times_one(y);
        } else {
            reveal(B64::spec_mul);
        }
    }
}

/// A number does not differ from itself.
proof fn lemma_no_drift(x: B64, bound: B64)
    requires
        bound.ge(num(ZERO)),
    ensures
        !x.sub(x).abs().gt(bound),
{
    lemma_units_zero();
    lemma_sub_nan(x, x);
    if x.finite() {
        lemma_self_difference(x);
        lemma_value_order(x.sub(x).abs(), num(ZERO));
    }
}

proof fn lemma_close_count(history: Seq<JsonView>)
    ensures
        close_count(history) <= history.len(),
    decreases history.len(),
{
    if history.len() > 0 {
        lemma_close_count(history.drop_last());
    }
}

proof fn lemma_believable_twice(days: Seq<(Seq<char>, B64)>, cap: B64)
    ensures
        believable_days(believable_days(days, cap), cap) == believable_days(days, cap),
    decreases days.len(),
{
    if days.len() > 0 {
        lemma_believable_twice(days.drop_last(), cap);
        let rest = believable_days(days.drop_last(), cap);
        if believable(days.last().1, cap) {
            assert(believable_days(days, cap).drop_last() =~= rest);
        }
    }
}

proof fn lemma_believable_once(days: Seq<(Seq<char>, B64)>, cap: B64)
    requires
        each_once(days),
    ensures
        each_once(believable_days(days, cap)),
        forall|i: int|
            0 <= i < believable_days(days, cap).len() ==> days.contains(#[trigger] believable_days(days, cap)[i]),
    decreases days.len(),
{
    if days.len() > 0 {
        let front = days.drop_last();
        assert forall|i: int, j: int| 0 <= i < j < front.len() implies (#[trigger] front[i]).0 != (
        #[trigger] front[j]).0 by {
            assert(days[i] == front[i] && days[j] == front[j]);
        }
        lemma_believable_once(front, cap);
        let rest = believable_days(front, cap);
        let kept = believable_days(days, cap);
        let last = days.last();
        assert(days[days.len() - 1] == last);
        assert forall|i: int| 0 <= i < rest.len() implies days.contains(#[trigger] rest[i]) && rest[i].0
            != last.0 by {
            let k = choose|k: int| 0 <= k < front.len() && front[k] == rest[i];
            assert(days[k] == rest[i]);
            assert(days[k].0 != days[days.len() - 1].0);
        }
        assert forall|i: int| 0 <= i < kept.len() implies days.contains(#[trigger] kept[i]) by {
            if i < rest.len() {
                assert(kept[i] == rest[i]);
            }
        }
        assert forall|i: int, j: int| 0 <= i < j < kept.len() implies (#[trigger] kept[i]).0 != (
        #[trigger] kept[j]).0 by {
            assert(kept[i] == rest[i]);
            if j < rest.len() {
                assert(kept[j] == rest[j]);
            }
        }
    }
}

/// A day that stood once stands once at most after the correction, with the
/// profit it had.
pub proof fn law_correction_keeps_each_day_once(input: PersistedView)
    requires
        input.wf(),
    ensures
        input.corrected().wf(),
        forall|i: int|
            0 <= i < input.corrected().daily_pnl_map.len() ==> input.daily_pnl_map.contains(
                #[trigger] input.corrected().daily_pnl_map[i],
            ),
{
    lemma_believable_once(input.daily_pnl_map, input.cap());
}

/// A corrected file is not corrected again: the second pass changes nothing.
pub proof fn law_correction_settles(input: PersistedView)
    requires
        input.trade_history.len() <= u64::MAX,
    ensures
        ({
            let once = input.corrected();
            &&& !once.differs()
            &&& once.corrected() == once
        }),
{
    let once = input.corrected();
    let fills = input.fills();
    let seen = fill_volume(fills);
    law_only_fills_are_kept(input.trade_history);
    lemma_close_count(fills);
    lemma_own_limit(seen);
    lemma_value_order(num(ZERO), num(TINY_6));
    lemma_value_order(num(ZERO), num(TEN));
    lemma_value_order(num(ZERO), num(ZERO));
    assert(once.fills() == fills);
    assert(!once.polluted());
    assert(once.volume() == once.total_volume) by {
        lemma_value_order(seen, seen);
    }
    assert(once.closes() == once.total_closed_trades);
    lemma_no_drift(once.total_volume, num(TINY_6));
    lemma_no_drift(once.total_realized_pnl, num(TINY_6));
    lemma_no_drift(once.total_realized_pnl, num(TEN));
    assert(once.realized() == once.total_realized_pnl);
    assert(once.cap() == input.cap());
    lemma_believable_twice(input.daily_pnl_map, input.cap());
    assert(believable_days(Seq::<(Seq<char>, B64)>::empty(), input.cap()) =~= Seq::<(Seq<char>, B64)>::empty());
    assert(once.days() =~= once.daily_pnl_map);
    assert(once.corrected() =~= once);
}

/// A book that vanished while equity stayed flat is no profit.
pub proof fn law_vanished_book_is_not_booked(equity_change: B64, unrealized_change: B64, closed_notional: B64)
    requires
        unrealized_change.lt(num(MINUS_ONE)),
        equity_change.abs().lt(num(ONE)),
    ensures
        booked_reduction(equity_change, unrealized_change, closed_notional, true) is None,
{
    let bound = unrealized_change.neg().mul(num(QUARTER)).max(num(ONE));
    assert(bound.ge(num(ONE)));
}

} // verus!
