//! What the profit figures mean: equity, realized and unrealized profit, fills
//! and days against each other.

use vstd::prelude::*;

use crate::binary64::consts::{
    FIFTY, FIVE_HUNDRED, INFINITY, ONE, ONE_AND_A_HALF, QUARTER, TEN, TINY_12, TINY_6, TINY_9, TWENTY, ZERO,
};
use crate::binary64::layout::lemma_units_zero;
use crate::binary64::error::{
    gap, lemma_exact_sign, lemma_mul_near, lemma_near, lemma_sub_near, limit, size, smallest,
};
use crate::binary64::facts::{
    lemma_add_grows, lemma_mul_mono, lemma_mul_nan, lemma_self_difference, lemma_sub_mono, lemma_sub_nan,
};
use crate::binary64::measure::{
    lemma_exact_order, lemma_exact_signs, lemma_grown, lemma_less_term, lemma_range_of_sizes, lemma_tiny_6,
    lemma_whole_constants,
};
use crate::binary64::order::lemma_value_order;
use crate::binary64::{num, B64};
use crate::json::JsonView;
use crate::strategy::drift::grown;
use crate::strategy::exact::{lemma_near_within, product};
use crate::text::{trimmed, trimmed_end, trimmed_start};

use super::pnl_accounting::{
    action_of, believable_days, booked_reduction, close_action, close_count, daily_mark_to_market, day_sum,
    equity_hint, fill_volume, fills_in, inception_pnl, increase_action, is_fill, least_equity, notional_of,
    opening_equity, sanitized_days, sanity_cap, PersistedView,
};

verus! {

/// Profit since inception, and since the start of the day, is what equity has
/// gained over a finite positive equity to start from; without one it is 0.
pub proof fn law_profit_is_the_equity_gained(equity: B64, start: B64)
    ensures
        equity.finite() && start.finite() && start.gt(num(ZERO)) && (equity.sub(start).finite() || size(
            equity.exact() - start.exact(),
        ) <= limit()) ==> {
            &&& inception_pnl(equity, start).near(equity.exact() - start.exact())
            &&& daily_mark_to_market(equity, start).near(equity.exact() - start.exact())
        },
        !equity.finite() || !start.gt(num(ZERO)) || !start.finite() ==> {
            &&& inception_pnl(equity, start) == num(ZERO)
            &&& daily_mark_to_market(equity, start) == num(ZERO)
        },
{
    if equity.finite() && start.finite() && start.gt(num(ZERO)) && (equity.sub(start).finite() || size(
        equity.exact() - start.exact(),
    ) <= limit()) {
        lemma_sub_near(equity, start);
    }
}

/// How large the figures of a correction are together.
pub open spec fn equity_scale(input: PersistedView) -> real {
    size(input.constructor_equity.exact()) + size(input.initial_equity.exact()) + size(input.unrealized.exact())
        + size(input.total_realized_pnl.exact()) + 16real
}

/// How far rounding can move a correction.
pub open spec fn equity_slack(input: PersistedView) -> real {
    8real * product(gap(), equity_scale(input)) + 8real * smallest()
}

/// After a correction, realized and unrealized profit give the change in
/// equity: where they were off by more than 10 the realized profit becomes what
/// equity gained less the unrealized profit, and where they were off by less it
/// stays. Both up to rounding.
pub proof fn law_realized_and_unrealized_give_the_equity_gained(input: PersistedView)
    requires
        input.constructor_equity.finite(),
        input.constructor_equity.gt(num(ZERO)),
        input.initial_equity.finite(),
        input.initial_equity.gt(num(ZERO)),
        input.unrealized.finite(),
        input.total_realized_pnl.finite(),
        8real * equity_scale(input) <= limit(),
    ensures
        ({
            let gained = input.constructor_equity.exact() - input.initial_equity.exact();
            let unrealized = input.unrealized.exact();
            let stored = input.total_realized_pnl;
            let r = input.realized();
            let slack = equity_slack(input);
            &&& input.corrected().total_realized_pnl == r
            &&& r.finite()
            &&& size(stored.exact() + unrealized - gained) > 10real + slack ==> size(
                r.exact() + unrealized - gained,
            ) <= slack
            &&& size(stored.exact() + unrealized - gained) < 10real - slack ==> r == stored
            &&& size(r.exact() + unrealized - gained) <= 10real + slack
            &&& input.implied().finite()
            &&& size(input.implied().exact() + unrealized - gained) <= slack
        }),
{
    let w = equity_scale(input);
    let (a, b, u, stored) = (
        input.constructor_equity,
        input.initial_equity,
        input.unrealized,
        input.total_realized_pnl,
    );
    lemma_range_of_sizes();
    let e1 = grown(0real, w);
    let e2 = grown(e1, w);
    lemma_grown(0real, w);
    lemma_grown(e1, w);
    lemma_grown(e2, w);
    lemma_less_term(a, a.exact(), 0real, b, w);
    lemma_less_term(a.sub(b), a.exact() - b.exact(), e1, u, w);
    let implied = a.sub(b).sub(u);
    let target = a.exact() - b.exact() - u.exact();
    assert(input.implied() == implied);
    let d = stored.sub(implied);
    lemma_sub_near(stored, implied);
    lemma_near_within(d, stored.exact() - implied.exact(), w + e2);
    assert(size(d.exact() - (stored.exact() - target)) <= grown(e2, w));
    lemma_exact_signs(d);
    lemma_whole_constants();
    lemma_exact_order(d.abs(), num(TEN));
}

/// Without a positive equity on both ends the realized profit stays as it is.
pub proof fn law_no_equity_no_correction(input: PersistedView)
    requires
        !input.constructor_equity.gt(num(ZERO)) || !input.initial_equity.gt(num(ZERO)),
    ensures
        input.realized() == input.total_realized_pnl,
        input.implied() == input.total_realized_pnl,
{
}

/// The profit of closed positions is the change in equity less that in
/// unrealized profit, up to rounding. It is booked while it stays within 10 or
/// within one and a half times what was closed, and is not booked beyond both.
pub proof fn law_reductions_book_the_difference(equity_change: B64, unrealized_change: B64, closed_notional: B64)
    requires
        equity_change.finite(),
        unrealized_change.finite(),
        size(equity_change.exact() - unrealized_change.exact()) <= limit(),
        closed_notional.finite(),
        closed_notional.mul(num(ONE_AND_A_HALF)).finite(),
    ensures
        ({
            let r = booked_reduction(equity_change, unrealized_change, closed_notional, false);
            let profit = equity_change.exact() - unrealized_change.exact();
            let largest = closed_notional.exact() * 3real / 2real;
            let slack = gap() * size(profit) + smallest();
            let margin = gap() * size(largest) + smallest();
            &&& r is Some ==> r->0.near(profit)
            &&& size(profit) + slack <= 10real ==> r is Some
            &&& closed_notional.exact() <= 0real ==> r is Some
            &&& closed_notional.exact() > 0real && size(profit) + slack + margin <= largest ==> r is Some
            &&& closed_notional.exact() > 0real && size(profit) > 10real + slack && size(profit) > largest + slack
                + margin ==> r is None
        }),
{
    let profit = equity_change.exact() - unrealized_change.exact();
    let d = equity_change.sub(unrealized_change);
    let c = closed_notional.mul(num(ONE_AND_A_HALF));
    lemma_whole_constants();
    lemma_sub_near(equity_change, unrealized_change);
    lemma_near(d, profit);
    lemma_mul_near(closed_notional, num(ONE_AND_A_HALF));
    lemma_near(c, closed_notional.exact() * num(ONE_AND_A_HALF).exact());
    let h = num(ONE_AND_A_HALF).exact();
    let n = closed_notional.exact();
    assert(n * h == n * 3real / 2real) by (nonlinear_arith)
        requires
            2real * h == 3real,
    ;
    lemma_exact_signs(d);
    lemma_exact_order(d.abs(), num(TEN));
    lemma_exact_order(d.abs(), c);
    lemma_exact_sign(closed_notional);
}

/// One more record: a fill is kept and adds its notional, and one close if it
/// closes; a placement adds nothing.
pub proof fn law_each_fill_counts_once(history: Seq<JsonView>, rec: JsonView)
    ensures
        ({
            let longer = history.push(rec);
            &&& is_fill(rec) ==> fills_in(longer) == fills_in(history).push(rec)
            &&& is_fill(rec) ==> fill_volume(longer) == fill_volume(history).add(notional_of(rec))
            &&& is_fill(rec) ==> close_count(longer) == close_count(history) + (if close_action(action_of(rec)) {
                1int
            } else {
                0int
            })
            &&& !is_fill(rec) ==> fills_in(longer) == fills_in(history)
            &&& !is_fill(rec) ==> fill_volume(longer) == fill_volume(history)
            &&& !is_fill(rec) ==> close_count(longer) == close_count(history)
        }),
        fills_in(Seq::empty()) == Seq::<JsonView>::empty(),
        fill_volume(Seq::empty()) == num(ZERO),
        close_count(Seq::empty()) == 0,
{
    assert(history.push(rec).drop_last() =~= history);
}

/// Every fill of a history is kept, with as many records as there are fills.
pub proof fn law_no_fill_is_lost(history: Seq<JsonView>, i: int)
    requires
        0 <= i < history.len(),
        is_fill(history[i]),
    ensures
        fills_in(history).contains(history[i]),
        fills_in(history).len() == history.filter(|rec: JsonView| is_fill(rec)).len(),
    decreases history.len(),
{
    lemma_fills_are_filtered(history);
    let front = history.drop_last();
    if i < front.len() {
        assert(front[i] == history[i]);
        law_no_fill_is_lost(front, i);
        let k = choose|k: int| 0 <= k < fills_in(front).len() && fills_in(front)[k] == history[i];
        assert(fills_in(history)[k] == history[i]);
    } else {
        assert(fills_in(history)[fills_in(history).len() - 1] == history[i]);
    }
}

proof fn lemma_fills_are_filtered(history: Seq<JsonView>)
    ensures
        fills_in(history) == history.filter(|rec: JsonView| is_fill(rec)),
    decreases history.len(),
{
    reveal(Seq::filter);
    if history.len() > 0 {
        lemma_fills_are_filtered(history.drop_last());
    }
}

/// The notional of a fill is its price times its quantity, without a sign.
pub proof fn law_notional_is_price_times_quantity(rec: JsonView, price: B64, quantity: B64)
    requires
        rec.get("price"@) is Some,
        rec.get("price"@)->0.number() == Some(price),
        rec.get("quantity"@) is Some,
        rec.get("quantity"@)->0.number() == Some(quantity),
        price.finite(),
        quantity.finite(),
        size(price.exact() * quantity.exact()) <= limit(),
    ensures
        notional_of(rec).finite(),
        size(notional_of(rec).exact() - size(price.exact() * quantity.exact())) <= gap() * size(
            price.exact() * quantity.exact(),
        ) + smallest(),
        notional_of(rec).ge(num(ZERO)),
{
    let x = price.exact() * quantity.exact();
    let m = price.mul(quantity);
    lemma_mul_near(price, quantity);
    lemma_near(m, x);
    lemma_exact_signs(m);
    lemma_value_order(m.abs(), num(ZERO));
}

proof fn lemma_trimmed_shorter(s: Seq<char>)
    ensures
        trimmed(s).len() <= s.len(),
{
    lemma_start_shorter(s);
    lemma_end_shorter(trimmed_start(s));
}

proof fn lemma_start_shorter(s: Seq<char>)
    ensures
        trimmed_start(s).len() <= s.len(),
    decreases s.len(),
{
    if s.len() > 0 {
        lemma_start_shorter(s.drop_first());
    }
}

proof fn lemma_end_shorter(s: Seq<char>)
    ensures
        trimmed_end(s).len() <= s.len(),
    decreases s.len(),
{
    if s.len() > 0 {
        lemma_end_shorter(s.drop_last());
    }
}

/// A record with a tag is a fill as the tag says. One without is a fill where
/// its action is one of the four closes, and only there: no shorter word, such
/// as that of an opening, is one.
pub proof fn law_fills_are_tagged_or_closes(rec: JsonView, action: Seq<char>)
    requires
        rec.get("action"@) == Some(JsonView::Str(action)),
    ensures
        rec.get("fill"@) == Some(JsonView::Bool(true)) ==> is_fill(rec),
        rec.get("fill"@) == Some(JsonView::Bool(false)) ==> !is_fill(rec),
        rec.get("fill"@) is None && (action == "Full Close"@ || action == "Partial Close"@ || action
            == "Emergency Close"@ || action == "Liquidation"@) ==> is_fill(rec),
        rec.get("fill"@) is None && action.len() < 10 ==> !is_fill(rec),
        action_of(rec) == action,
{
    reveal_strlit("Full Close");
    reveal_strlit("Partial Close");
    reveal_strlit("Emergency Close");
    reveal_strlit("Liquidation");
    lemma_trimmed_shorter(action);
    if action == "Full Close"@ || action == "Partial Close"@ || action == "Emergency Close"@ || action
        == "Liquidation"@ {
        assert(trimmed_start(action) == action);
        assert(trimmed_end(action) == action);
    }
}

/// The equity that a day started with is the first finite one on record for
/// that day, where it is positive; the fallback where none is on record.
pub proof fn law_day_starts_with_its_first_equity(history: Seq<(i64, B64)>, now_ts: i64, fallback: B64, i: int)
    requires
        now_ts > 0,
        0 <= i <= history.len(),
        forall|j: int|
            0 <= j < i ==> (#[trigger] history[j]).0 <= 0 || history[j].0 as int / 86_400 != now_ts as int / 86_400
                || !history[j].1.finite(),
        i < history.len() ==> history[i].0 > 0 && history[i].0 as int / 86_400 == now_ts as int / 86_400
            && history[i].1.finite(),
    ensures
        i < history.len() && history[i].1.gt(num(ZERO)) ==> opening_equity(history, now_ts, fallback)
            == history[i].1,
        i == history.len() || !history[i].1.gt(num(ZERO)) ==> opening_equity(history, now_ts, fallback) == fallback,
    decreases history.len(),
{
    if history.len() > 0 {
        assert(history.first() == history[0]);
        if i > 0 {
            let rest = history.drop_first();
            assert forall|j: int| 0 <= j < i - 1 implies (#[trigger] rest[j]).0 <= 0 || rest[j].0 as int / 86_400
                != now_ts as int / 86_400 || !rest[j].1.finite() by {
                assert(rest[j] == history[j + 1]);
            }
            if i < history.len() {
                assert(rest[i - 1] == history[i]);
            }
            law_day_starts_with_its_first_equity(rest, now_ts, fallback, i - 1);
        }
    }
}

/// A position that grows is opened where there was none on that side, and added
/// to by the least change or more; it is neither where it does not grow. Signs
/// do not matter.
pub proof fn law_growth_opens_or_adds(prev: B64, new: B64, same_side: bool, least: B64)
    requires
        prev.finite(),
        new.finite(),
        least.finite(),
        least.gt(num(ZERO)),
    ensures
        new.abs().lt(least) ==> increase_action(prev, new, same_side, least) is None,
        new.abs().ge(least) && (!same_side || prev.abs().lt(least)) ==> increase_action(prev, new, same_side, least)
            == Some("Open"@),
        same_side && prev.abs().ge(least) && new.abs().ge(least) && new.abs().sub(prev.abs()).ge(least)
            ==> increase_action(prev, new, same_side, least) == Some("Add"@),
        same_side && prev.abs().ge(least) && new.abs().le(prev.abs()) ==> increase_action(
            prev,
            new,
            same_side,
            least,
        ) is None,
        increase_action(prev.neg(), new.neg(), same_side, least) == increase_action(prev, new, same_side, least),
{
    assert(prev.neg().abs() == prev.abs());
    assert(new.neg().abs() == new.abs());
    if new.abs().le(prev.abs()) {
        let d = new.abs().sub(prev.abs());
        lemma_exact_signs(new);
        lemma_exact_signs(prev);
        lemma_value_order(num(ZERO), new.abs());
        lemma_value_order(num(ZERO), prev.abs());
        lemma_sub_nan(new.abs(), new.abs());
        lemma_sub_nan(new.abs(), prev.abs());
        lemma_sub_mono(new.abs(), new.abs(), new.abs(), prev.abs());
        lemma_self_difference(new.abs());
        lemma_value_order(new.abs().sub(new.abs()), num(ZERO));
    }
}

/// The least equity on record is on record, finite and positive, and none that
/// is finite and positive is below it.
pub proof fn law_least_equity_is_on_record(history: Seq<(i64, B64)>, peak: B64, initial: B64, constructor: B64, i: int)
    requires
        0 <= i < history.len(),
        history[i].1.finite(),
        history[i].1.gt(num(ZERO)),
    ensures
        equity_hint(history, peak, initial, constructor).le(history[i].1),
        equity_hint(history, peak, initial, constructor).finite(),
        equity_hint(history, peak, initial, constructor).gt(num(ZERO)),
        exists|k: int|
            0 <= k < history.len() && (#[trigger] history[k]).1 == equity_hint(history, peak, initial, constructor),
{
    lemma_least(history);
    lemma_least_below(history, i);
    let least = least_equity(history);
    lemma_value_order(num(ZERO), history[i].1);
    lemma_value_order(history[i].1, num(INFINITY));
    assert(least != num(INFINITY));
}

proof fn lemma_least_below(history: Seq<(i64, B64)>, i: int)
    requires
        0 <= i < history.len(),
        history[i].1.finite(),
        history[i].1.gt(num(ZERO)),
    ensures
        least_equity(history).le(history[i].1),
    decreases history.len(),
{
    let front = history.drop_last();
    lemma_least(front);
    if i < front.len() {
        assert(front[i] == history[i]);
        lemma_least_below(front, i);
    }
}

proof fn lemma_least(history: Seq<(i64, B64)>)
    ensures
        !least_equity(history).nan(),
        least_equity(history) == num(INFINITY) || exists|k: int|
            0 <= k < history.len() && (#[trigger] history[k]).1 == least_equity(history) && history[k].1.finite()
                && history[k].1.gt(num(ZERO)),
    decreases history.len(),
{
    if history.len() > 0 {
        let front = history.drop_last();
        lemma_least(front);
        if least_equity(history) == history.last().1 && history.last().1.finite() && history.last().1.gt(
            num(ZERO),
        ) {
            assert(history[history.len() - 1].1 == least_equity(history));
        } else if least_equity(front) != num(INFINITY) {
            let k = choose|k: int|
                0 <= k < front.len() && (#[trigger] front[k]).1 == least_equity(front) && front[k].1.finite()
                    && front[k].1.gt(num(ZERO));
            assert(history[k] == front[k]);
        }
    }
}

/// Without an implied profit, every finite day within the cap is kept.
pub proof fn law_days_within_the_cap_are_kept(days: Seq<(Seq<char>, B64)>, cap: B64, i: int)
    requires
        0 <= i < days.len(),
        days[i].1.finite(),
        days[i].1.abs().le(cap),
        cap.finite(),
    ensures
        sanitized_days(days, cap, None).contains(days[i]),
    decreases days.len(),
{
    lemma_value_order(num(ZERO), num(TINY_9));
    lemma_add_grows(cap, num(TINY_9));
    let front = days.drop_last();
    let kept = believable_days(days, cap);
    if i < front.len() {
        assert(front[i] == days[i]);
        law_days_within_the_cap_are_kept(front, cap, i);
        let before = believable_days(front, cap);
        let k = choose|k: int| 0 <= k < before.len() && before[k] == days[i];
        assert(kept[k] == days[i]);
    } else {
        assert(kept[kept.len() - 1] == days[i]);
    }
}

/// The daily cap is one and a half times the widest distance between the peak,
/// the least and the initial equity, the size of the profit, or 1: it covers
/// each of them and is one of them.
pub proof fn law_cap_is_the_widest_range(peak: B64, least: B64, initial: B64, profit: B64)
    requires
        peak.finite() && peak.gt(num(ZERO)),
        least.finite() && least.gt(num(ZERO)),
        initial.finite() && initial.gt(num(ZERO)),
        profit.finite(),
    ensures
        ({
            let cap = sanity_cap(peak, least, initial, profit);
            let factor = num(ONE_AND_A_HALF);
            &&& cap.ge(peak.sub(least).abs().mul(factor))
            &&& cap.ge(peak.sub(initial).abs().mul(factor))
            &&& cap.ge(least.sub(initial).abs().mul(factor))
            &&& cap.ge(profit.abs().mul(factor))
            &&& cap.ge(num(ONE).mul(factor))
            &&& {
                ||| cap == peak.sub(least).abs().mul(factor)
                ||| cap == peak.sub(initial).abs().mul(factor)
                ||| cap == least.sub(initial).abs().mul(factor)
                ||| cap == profit.abs().mul(factor)
                ||| cap == num(ONE).mul(factor)
            }
        }),
{
    let factor = num(ONE_AND_A_HALF);
    lemma_value_order(num(ZERO), factor);
    let (a, b, c, d) = (
        peak.sub(least).abs(),
        peak.sub(initial).abs(),
        least.sub(initial).abs(),
        profit.abs(),
    );
    lemma_sub_nan(peak, least);
    lemma_sub_nan(peak, initial);
    lemma_sub_nan(least, initial);
    lemma_value_order(num(ZERO), a);
    lemma_value_order(num(ZERO), num(ONE));
    let span = num(ZERO).max(a).max(b).max(c).max(d).max(num(ONE));
    assert(span == a || span == b || span == c || span == d || span == num(ONE));
    lemma_scaled(a, span);
    lemma_scaled(b, span);
    lemma_scaled(c, span);
    lemma_scaled(d, span);
    lemma_scaled(num(ONE), span);
}

proof fn lemma_scaled(x: B64, span: B64)
    requires
        x.le(span),
    ensures
        span.mul(num(ONE_AND_A_HALF)).ge(x.mul(num(ONE_AND_A_HALF))),
{
    lemma_value_order(num(ZERO), num(ONE_AND_A_HALF));
    lemma_mul_nan(x, num(ONE_AND_A_HALF));
    lemma_mul_nan(span, num(ONE_AND_A_HALF));
    lemma_mul_mono(x, span, num(ONE_AND_A_HALF));
}

/// A correction that moves the realized profit, drops a record or drops a day
/// is reported; one that leaves everything is not.
pub proof fn law_corrections_are_reported(input: PersistedView)
    ensures
        input.fills().len() < input.trade_history.len() ==> input.differs(),
        input.days().len() < input.daily_pnl_map.len() ==> input.differs(),
        input.closes() != input.total_closed_trades ==> input.differs(),
        input.realized().finite() && input.total_realized_pnl.finite() && size(
            input.realized().exact() - input.total_realized_pnl.exact(),
        ) >= 1real && size(input.realized().exact() - input.total_realized_pnl.exact()) <= limit()
            ==> input.differs(),
        input.fills() == input.trade_history && input.days() == input.daily_pnl_map && input.closes()
            == input.total_closed_trades && input.volume() == input.total_volume && input.realized()
            == input.total_realized_pnl && input.total_volume.finite() && input.total_realized_pnl.finite()
            ==> !input.differs(),
{
    let (r, s) = (input.realized(), input.total_realized_pnl);
    lemma_value_order(num(ZERO), num(TINY_6));
    if r.finite() && s.finite() && size(r.exact() - s.exact()) >= 1real && size(r.exact() - s.exact()) <= limit() {
        let x = r.exact() - s.exact();
        lemma_range_of_sizes();
        lemma_sub_near(r, s);
        lemma_near_within(r.sub(s), x, size(x));
        crate::strategy::orders::lemma_tinier(size(x));
        lemma_exact_signs(r.sub(s));
        lemma_tiny_6();
        lemma_exact_order(r.sub(s).abs(), num(TINY_6));
    }
    if input.volume() == input.total_volume && input.total_volume.finite() {
        lemma_no_change(input.total_volume);
    }
    if r == s && s.finite() {
        lemma_no_change(s);
    }
}

proof fn lemma_no_change(x: B64)
    requires
        x.finite(),
    ensures
        !x.sub(x).abs().gt(num(TINY_6)),
{
    lemma_units_zero();
    lemma_self_difference(x);
    lemma_value_order(x.sub(x).abs(), num(ZERO));
    lemma_value_order(num(ZERO), num(TINY_6));
}

/// Lifetime counters are believed unless placements stand in the history, or
/// the volume exceeds five hundred times the peak equity and twenty times what
/// the fills show, with more than five times as many closes and more than ten.
pub proof fn law_plausible_counters_are_kept(input: PersistedView)
    requires
        input.fills().len() == input.trade_history.len(),
    ensures
        !input.total_volume.gt(input.peak_equity.mul(num(FIVE_HUNDRED))) ==> !input.polluted(),
        !input.total_volume.gt(fill_volume(input.fills()).max(num(ONE)).mul(num(TWENTY))) ==> !input.polluted(),
        input.total_closed_trades <= 10 ==> !input.polluted(),
        input.total_closed_trades <= 5 * close_count(input.fills()) ==> !input.polluted(),
        input.peak_equity.gt(num(ZERO)) && input.total_volume.gt(input.peak_equity.mul(num(FIVE_HUNDRED)))
            && input.total_volume.gt(fill_volume(input.fills()).max(num(ONE)).mul(num(TWENTY)))
            && input.total_closed_trades > 10 && input.total_closed_trades > 5 * close_count(input.fills())
            ==> input.polluted() && input.volume() == fill_volume(input.fills()) && input.closes() == close_count(
            input.fills(),
        ),
{
}

/// Without an equity on record, the hint is the least usable one of the equity
/// at the start, the initial one and the peak.
pub proof fn law_hint_without_a_record(peak: B64, initial: B64, constructor: B64)
    ensures
        ({
            let hint = equity_hint(Seq::empty(), peak, initial, constructor);
            &&& peak.finite() && peak.gt(num(ZERO)) ==> hint.le(peak)
            &&& initial.finite() && initial.gt(num(ZERO)) ==> hint.le(initial)
            &&& constructor.finite() && constructor.gt(num(ZERO)) ==> hint.le(constructor)
            &&& hint == peak || hint == initial || hint == constructor || hint == num(INFINITY)
            &&& hint != num(INFINITY) ==> hint.finite() && hint.gt(num(ZERO))
        }),
{
    lemma_value_order(peak, num(INFINITY));
    lemma_value_order(initial, num(INFINITY));
    lemma_value_order(constructor, num(INFINITY));
    lemma_value_order(num(ZERO), peak);
    lemma_value_order(num(ZERO), initial);
    lemma_value_order(num(ZERO), constructor);
    assert(!num(INFINITY).finite() && !num(INFINITY).nan());
}

/// The days are summed in order.
pub proof fn law_days_are_summed(days: Seq<(Seq<char>, B64)>, day: Seq<char>, profit: B64)
    ensures
        day_sum(days.push((day, profit))) == day_sum(days).add(profit),
        day_sum(Seq::empty()) == num(ZERO),
{
    assert(days.push((day, profit)).drop_last() =~= days);
}

/// The days are dropped as a whole where their sum is further from the implied
/// profit than the cap, and further than 50; a single day within its cap shows
/// it, up to rounding.
pub proof fn law_days_agree_with_the_implied_profit(day: Seq<char>, profit: B64, cap: B64, implied: B64)
    requires
        profit.finite() && profit.ge(num(ZERO)),
        cap.finite() && cap.ge(num(ZERO)),
        profit.abs().le(cap),
        implied.finite(),
        4real * (size(profit.exact()) + size(implied.exact()) + cap.exact()) <= limit(),
    ensures
        ({
            let days = seq![(day, profit)];
            let off = size(profit.exact() - implied.exact());
            let most = if cap.exact() >= 50real { cap.exact() } else { 50real };
            let slack = off / 1000real + 1real / 1000real;
            &&& off > most + slack ==> sanitized_days(days, cap, Some(implied)).len() == 0
            &&& off < most - slack ==> sanitized_days(days, cap, Some(implied)) == days
        }),
{
    let days = seq![(day, profit)];
    assert(days[0] == (day, profit));
    lemma_value_order(num(ZERO), num(TINY_9));
    lemma_add_grows(cap, num(TINY_9));
    let none = Seq::<(Seq<char>, B64)>::empty();
    assert(days.drop_last() =~= none);
    assert(days.last() == (day, profit));
    assert(believable_days(none, cap) =~= none);
    let kept = believable_days(days, cap);
    assert(kept =~= none.push((day, profit)));
    assert(kept =~= days);
    law_days_are_summed(none, day, profit);
    let sum = num(ZERO).add(profit);
    assert(day_sum(kept) == sum);
    crate::strategy::markouts::lemma_zero_plus(profit);
    crate::binary64::facts::lemma_value_range(sum);
    crate::binary64::facts::lemma_value_range(profit);
    lemma_exact_order(sum, profit);
    let x = sum.exact() - implied.exact();
    lemma_exact_sign(num(ZERO));
    lemma_exact_order(cap, num(ZERO));
    lemma_range_of_sizes();
    lemma_sub_near(sum, implied);
    let d = sum.sub(implied);
    lemma_near_within(d, x, size(x));
    crate::strategy::orders::lemma_tinier(size(x));
    crate::strategy::markouts::lemma_smallest_tiny();
    lemma_exact_signs(d);
    lemma_whole_constants();
    lemma_exact_order(cap, num(FIFTY));
    lemma_value_order(cap, num(FIFTY));
    lemma_exact_order(d.abs(), cap.max(num(FIFTY)));
}

/// A least change that is not positive and finite counts as 1e-12, and a
/// previous size that is not finite as none.
pub proof fn law_growth_has_a_floor(prev: B64, new: B64, same_side: bool, least: B64)
    ensures
        !least.finite() || !least.gt(num(ZERO)) ==> increase_action(prev, new, same_side, least) == increase_action(
            prev,
            new,
            same_side,
            num(TINY_12),
        ),
        !prev.finite() ==> increase_action(prev, new, same_side, least) == increase_action(
            num(ZERO),
            new,
            same_side,
            least,
        ),
        !new.finite() ==> increase_action(prev, new, same_side, least) is None,
{
    lemma_value_order(num(ZERO), num(TINY_12));
    assert(num(ZERO).abs() == num(ZERO));
}

/// Positions that all vanished are booked where equity moved by a quarter of
/// the unrealized loss, and by 1, or more: the loss was taken.
pub proof fn law_vanished_losses_that_show_are_booked(equity_change: B64, unrealized_change: B64)
    requires
        equity_change.finite(),
        unrealized_change.finite(),
        size(equity_change.exact()) + size(unrealized_change.exact()) <= limit(),
        4000real * size(equity_change.exact()) >= 1001real * size(unrealized_change.exact()),
        size(equity_change.exact()) >= 1real,
    ensures
        booked_reduction(equity_change, unrealized_change, num(ZERO), true) is Some,
        booked_reduction(equity_change, unrealized_change, num(ZERO), true)->0.near(
            equity_change.exact() - unrealized_change.exact(),
        ),
{
    let (e, u) = (equity_change.exact(), unrealized_change.exact());
    lemma_range_of_sizes();
    lemma_whole_constants();
    lemma_value_order(num(ZERO), num(ZERO));
    lemma_sub_near(equity_change, unrealized_change);
    crate::binary64::error::lemma_near(equity_change.sub(unrealized_change), e - u);
    lemma_exact_signs(equity_change);
    lemma_exact_signs(unrealized_change);
    let q = num(QUARTER).exact();
    let n = unrealized_change.neg();
    assert(4real * (n.exact() * q) == n.exact()) by (nonlinear_arith)
        requires
            4real * q == 1real,
    ;
    lemma_mul_near(n, num(QUARTER));
    let x = n.exact() * q;
    lemma_near_within(n.mul(num(QUARTER)), x, size(x));
    crate::strategy::orders::lemma_tinier(size(x));
    crate::strategy::markouts::lemma_smallest_tiny();
    lemma_exact_order(n.mul(num(QUARTER)), num(ONE));
    lemma_value_order(n.mul(num(QUARTER)), num(ONE));
    lemma_exact_order(equity_change.abs(), n.mul(num(QUARTER)).max(num(ONE)));
}

/// No day that is kept lies beyond the cap by more than a billionth, whatever
/// the implied profit, and none that is kept was not on file.
pub proof fn law_no_kept_day_exceeds_the_cap(
    days: Seq<(Seq<char>, B64)>,
    cap: B64,
    implied: Option<B64>,
    i: int,
)
    requires
        0 <= i < sanitized_days(days, cap, implied).len(),
    ensures
        sanitized_days(days, cap, implied)[i].1.finite(),
        sanitized_days(days, cap, implied)[i].1.abs().le(cap.add(num(TINY_9))),
        days.contains(sanitized_days(days, cap, implied)[i]),
{
    lemma_kept_days(days, cap, i);
}

proof fn lemma_kept_days(days: Seq<(Seq<char>, B64)>, cap: B64, i: int)
    requires
        0 <= i < believable_days(days, cap).len(),
    ensures
        believable_days(days, cap)[i].1.finite(),
        believable_days(days, cap)[i].1.abs().le(cap.add(num(TINY_9))),
        days.contains(believable_days(days, cap)[i]),
    decreases days.len(),
{
    let front = days.drop_last();
    let before = believable_days(front, cap);
    if i < before.len() {
        lemma_kept_days(front, cap, i);
        let k = choose|k: int| 0 <= k < front.len() && front[k] == before[i];
        assert(days[k] == before[i]);
    } else {
        assert(days[days.len() - 1] == days.last());
    }
}

/// A correction holds the days to the range of the equity: the cap is that of
/// the peak, the least and the initial equity and of the implied profit, and the
/// days must agree with that profit. Without an equity on both ends the stored
/// profit stands for it and no agreement is asked.
pub proof fn law_days_are_held_to_the_equity_range(input: PersistedView)
    ensures
        ({
            let least = equity_hint(
                input.equity_history,
                input.peak_equity,
                input.initial_equity,
                input.constructor_equity,
            );
            let both = input.constructor_equity.gt(num(ZERO)) && input.initial_equity.gt(num(ZERO));
            let kept = input.corrected().daily_pnl_map;
            &&& both ==> kept == sanitized_days(
                input.daily_pnl_map,
                sanity_cap(input.peak_equity, least, input.initial_equity, input.implied()),
                Some(input.implied()),
            )
            &&& !both ==> kept == sanitized_days(
                input.daily_pnl_map,
                sanity_cap(input.peak_equity, least, input.initial_equity, input.total_realized_pnl),
                None,
            )
        }),
{
}

} // verus!
