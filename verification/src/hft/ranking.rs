//! What makes one market better than another, and how many are quoted.

use vstd::prelude::*;

use crate::binary64::consts::{BILLION, ZERO};
use crate::binary64::error::{
    lemma_add_near, lemma_count_exact, lemma_exact_sign, limit, size, smallest, whole,
};
use crate::binary64::layout::lemma_units_zero;
use crate::binary64::measure::{lemma_exact_order, lemma_whole_constants};
use crate::binary64::order::lemma_value_order;
use crate::binary64::rough::{
    about, lemma_about_itself, lemma_about_looser, lemma_about_plain, lemma_about_ratio, lemma_about_sum,
    lemma_ordinary_ratio, lemma_powers, lemma_rounds, ordinary, power,
};
use crate::binary64::{num, B64};
use crate::clock::{Span, Timestamp};
use crate::lighter::types::{BookView, MarketInfo};
use crate::strategy::exact::{product, ratio};
use crate::strategy::market_making::mid_from_bbo;
use crate::strategy::quotes::{law_mid_is_half_the_sum, lemma_width_in_bps, width_slack};
use crate::text::lower;

use super::book_continuity::BookHealth;
use super::rate_budget::action_due;
use super::scan::{event_rate, first_rows, ranked_rows, recorded, row_of, seconds, slot_from, RowView};
use super::universe::{
    bbo_of_book, book_of_bbo, market_budget, perps_in_order, BboView, UniverseSelectParams, UniverseView,
};

verus! {

/// Numbers that differ keep their order among the bit patterns.
proof fn lemma_rank(a: B64, b: B64)
    requires
        a.lt(b),
    ensures
        a.total_rank() < b.total_rank(),
{
    lemma_units_zero();
    lemma_value_order(a, b);
    lemma_value_order(b, a);
    lemma_value_order(a, num(ZERO));
    lemma_value_order(b, num(ZERO));
}

/// The narrower spread ranks first, or the wider where wide ones are preferred.
/// Of equal spreads the deeper book ranks first, its depth being the smaller of
/// its two sizes, and of equal depths the smaller id.
pub proof fn law_better_markets_rank_first(a: UniverseView, b: UniverseView)
    requires
        a.mid() is Some,
        b.mid() is Some,
    ensures
        ({
            let s = a.spread_bps()->0;
            let t = b.spread_bps()->0;
            let deeper = a.bid_size.gt(b.bid_size.min(b.ask_size)) && a.ask_size.gt(b.bid_size.min(b.ask_size));
            let as_deep = a.bid_size == b.bid_size && a.ask_size == b.ask_size;
            &&& s.lt(t) ==> a.before(b, false) && !b.before(a, false)
            &&& s.lt(t) ==> b.before(a, true) && !a.before(b, true)
            &&& s == t && deeper ==> a.before(b, false) && a.before(b, true) && !b.before(a, false)
            &&& s == t && as_deep && a.market_id < b.market_id ==> a.before(b, false) && a.before(b, true)
            &&& !a.before(a, false) && !a.before(a, true)
        }),
{
    let s = a.spread_bps()->0;
    let t = b.spread_bps()->0;
    if s.lt(t) {
        lemma_rank(s, t);
    }
    let d = b.bid_size.min(b.ask_size);
    if a.bid_size.gt(d) && a.ask_size.gt(d) {
        lemma_rank(d, a.bid_size.min(a.ask_size));
    }
}

/// The spread of a market is the distance of its prices in basis points of
/// their mid, which is half their sum; up to rounding.
pub proof fn law_spread_is_in_basis_points_of_the_mid(market: UniverseView)
    requires
        market.bid_price.finite() && market.bid_price.gt(num(ZERO)),
        market.ask_price.finite() && market.ask_price.ge(market.bid_price),
        market.bid_price.exact() + market.ask_price.exact() <= limit(),
    ensures
        market.mid() is Some,
        ({
            let mid = market.mid()->0;
            let width = ratio(market.ask_price.exact() - market.bid_price.exact(), mid.exact());
            &&& mid.finite() && mid.gt(num(ZERO))
            &&& size(2real * mid.exact() - (market.bid_price.exact() + market.ask_price.exact())) <= 4real * product(
                crate::binary64::error::gap(),
                market.bid_price.exact() + market.ask_price.exact(),
            ) + 4real * smallest()
            &&& 65536real * (width + ratio(smallest(), mid.exact()) + 1real) <= limit() ==> {
                &&& market.spread_bps() is Some
                &&& market.spread_bps()->0.finite()
                &&& size(market.spread_bps()->0.exact() - 10000real * width) <= width_slack(width, mid.exact())
            }
        }),
{
    law_mid_is_half_the_sum(market.bid_price, market.ask_price);
    assert(market.mid() == mid_from_bbo(market.bid_price, market.ask_price));
    let mid = market.mid()->0;
    let width = ratio(market.ask_price.exact() - market.bid_price.exact(), mid.exact());
    lemma_value_order(market.ask_price, num(ZERO));
    lemma_exact_order(market.bid_price, market.ask_price);
    lemma_exact_order(market.bid_price, num(ZERO));
    lemma_exact_order(market.ask_price, num(ZERO));
    if 65536real * (width + ratio(smallest(), mid.exact()) + 1real) <= limit() {
        lemma_width_in_bps(market.ask_price, market.bid_price, mid);
    }
}

/// A market without a usable book of two sides has neither a mid nor a spread.
pub proof fn law_broken_books_have_no_mid(market: UniverseView)
    requires
        !market.bid_price.finite() || !market.ask_price.finite() || market.bid_price.le(num(ZERO))
            || market.ask_price.le(num(ZERO)) || market.ask_price.lt(market.bid_price),
    ensures
        market.mid() is None,
        market.spread_bps() is None,
        forall|params: UniverseSelectParams| !#[trigger] market.qualifies(params),
{
}

/// A market qualifies where it is a live perpetual with both sizes at the least
/// size or above and a spread within the bounds, and nowhere else.
pub proof fn law_live_deep_tight_perps_qualify(market: UniverseView, params: UniverseSelectParams)
    requires
        market.mid() is Some,
    ensures
        ({
            let spread = market.spread_bps()->0;
            &&& lower(market.market_type) != lower("perp"@) ==> !market.qualifies(params)
            &&& market.book_health != BookHealth::Live ==> !market.qualifies(params)
            &&& market.bid_size.lt(params.min_size) ==> !market.qualifies(params)
            &&& market.ask_size.lt(params.min_size) ==> !market.qualifies(params)
            &&& spread.gt(params.max_spread_bps) ==> !market.qualifies(params)
            &&& spread.lt(params.min_spread_bps) ==> !market.qualifies(params)
            &&& lower(market.market_type) == lower("perp"@) && market.book_health == BookHealth::Live
                && market.bid_size.ge(params.min_size) && market.ask_size.ge(params.min_size) && spread.le(
                params.max_spread_bps,
            ) && spread.ge(params.min_spread_bps) ==> market.qualifies(params)
        }),
{
}

/// A market takes prices, sizes and its health from its best quotes, and is
/// syncing without any.
pub proof fn law_markets_join_their_best_quotes(info: MarketInfo, bbo: BboView)
    ensures
        ({
            let with = UniverseView::joined(info, Some(bbo));
            let without = UniverseView::joined(info, None);
            &&& with.market_id == info.market_id && without.market_id == info.market_id
            &&& with.symbol == info.symbol@ && with.market_type == info.market_type@
            &&& with.bid_price == bbo.bid_price && with.bid_size == bbo.bid_size
            &&& with.ask_price == bbo.ask_price && with.ask_size == bbo.ask_size
            &&& with.book_health == BookHealth::Live
            &&& without.book_health == BookHealth::Syncing
            &&& forall|params: UniverseSelectParams| !#[trigger] without.qualifies(params)
        }),
{
}

/// The budget is the most markets that can be refreshed with one action per
/// second, the first at once: one more would not fit.
pub proof fn law_budget_is_what_the_rate_allows(refresh: Span, actions: u32)
    requires
        actions > 0,
        refresh.nanos > 0,
    ensures
        market_budget(refresh, actions) >= 0,
        market_budget(refresh, actions) * actions <= refresh.nanos as int / 1_000_000_000 + 1,
        (market_budget(refresh, actions) + 1) * actions > refresh.nanos as int / 1_000_000_000 + 1,
        market_budget(refresh, 0) == 0,
        market_budget(Span { nanos: 0 }, actions) == 0,
{
    let n = refresh.nanos as int / 1_000_000_000 + 1;
    let k = actions as int;
    vstd::arithmetic::div_mod::lemma_fundamental_div_mod(n, k);
    vstd::arithmetic::div_mod::lemma_mod_bound(n, k);
    vstd::arithmetic::div_mod::lemma_div_pos_is_pos(n, k);
    let q = n / k;
    assert((q + 1) * k == k * q + k) by (nonlinear_arith);
    assert(q * k == k * q) by (nonlinear_arith);
}

/// An action is granted at once, and again a full second after the last one,
/// but not before.
pub proof fn law_actions_are_granted_a_second_apart(last: Span, now: Span)
    ensures
        action_due(None, now),
        now.nanos >= last.nanos + 1_000_000_000 ==> action_due(Some(last), now),
        now.nanos < last.nanos + 1_000_000_000 ==> !action_due(Some(last), now),
{
}

/// A row of a scan names its market and shows the spread of its best prices in
/// basis points of their mid, up to rounding.
pub proof fn law_rows_show_the_spread(update: BboView)
    requires
        update.bid_price.finite() && update.bid_price.gt(num(ZERO)),
        update.ask_price.finite() && update.ask_price.ge(update.bid_price),
        update.bid_price.exact() + update.ask_price.exact() <= limit(),
    ensures
        row_of(update) is Some,
        row_of(update)->0.market_id == update.market_id,
        row_of(update)->0.symbol == update.symbol,
        ({
            let mid = mid_from_bbo(update.bid_price, update.ask_price)->0.exact();
            let width = ratio(update.ask_price.exact() - update.bid_price.exact(), mid);
            65536real * (width + ratio(smallest(), mid) + 1real) <= limit() ==> size(
                row_of(update)->0.spread_bps.exact() - 10000real * width,
            ) <= width_slack(width, mid)
        }),
{
    law_mid_is_half_the_sum(update.bid_price, update.ask_price);
    let mid = mid_from_bbo(update.bid_price, update.ask_price)->0;
    let width = ratio(update.ask_price.exact() - update.bid_price.exact(), mid.exact());
    lemma_exact_order(update.bid_price, update.ask_price);
    lemma_exact_order(update.bid_price, num(ZERO));
    lemma_exact_order(update.ask_price, num(ZERO));
    if 65536real * (width + ratio(smallest(), mid.exact()) + 1real) <= limit() {
        lemma_width_in_bps(update.ask_price, update.bid_price, mid);
    }
}

/// Every market with a spread has a row, and a row is a market's: as many rows
/// as there are such markets.
pub proof fn law_every_spread_has_a_row(latest: Seq<BboView>, i: int)
    requires
        0 <= i < latest.len(),
        row_of(latest[i]) is Some,
    ensures
        ranked_rows(latest).contains(row_of(latest[i])->0),
        ranked_rows(latest).len() <= latest.len(),
    decreases latest.len(),
{
    lemma_rows_fit(latest.drop_last());
    lemma_rows_fit(latest);
    let rest = ranked_rows(latest.drop_last());
    let all = ranked_rows(latest);
    let target = row_of(latest[i])->0;
    if row_of(latest.last()) is Some {
        let row = row_of(latest.last())->0;
        lemma_place(rest, row, 0);
        let p = super::scan::row_place(rest, row, 0);
        assert(all[p] == row);
        if i < latest.len() - 1 {
            assert(latest.drop_last()[i] == latest[i]);
            law_every_spread_has_a_row(latest.drop_last(), i);
            let k = choose|k: int| 0 <= k < rest.len() && rest[k] == target;
            assert(all[if k < p { k } else { k + 1 }] == target);
        }
    } else {
        assert(latest.drop_last()[i] == latest[i]);
        law_every_spread_has_a_row(latest.drop_last(), i);
    }
}

proof fn lemma_place(rows: Seq<RowView>, row: RowView, from: int)
    requires
        0 <= from <= rows.len(),
    ensures
        from <= super::scan::row_place(rows, row, from) <= rows.len(),
    decreases rows.len() - from,
{
    if from < rows.len() && !rows[from].spread_bps.total_lt(row.spread_bps) {
        lemma_place(rows, row, from + 1);
    }
}

proof fn lemma_rows_fit(latest: Seq<BboView>)
    ensures
        ranked_rows(latest).len() <= latest.len(),
    decreases latest.len(),
{
    if latest.len() > 0 {
        lemma_rows_fit(latest.drop_last());
        if row_of(latest.last()) is Some {
            lemma_place(ranked_rows(latest.drop_last()), row_of(latest.last())->0, 0);
        }
    }
}

/// The widest spreads come first: of two rows of a summary, the later is never
/// wider than the earlier, and no more rows are shown than asked for.
pub proof fn law_widest_spreads_come_first(latest: Seq<BboView>, top: int, i: int, j: int)
    requires
        0 <= top,
        0 <= i < j < first_rows(ranked_rows(latest), top).len(),
    ensures
        !first_rows(ranked_rows(latest), top)[i].spread_bps.lt(first_rows(ranked_rows(latest), top)[j].spread_bps),
        first_rows(ranked_rows(latest), top).len() <= top,
{
    super::scan::law_spreads_are_ranked(latest);
    let rows = ranked_rows(latest);
    let shown = first_rows(rows, top);
    assert(shown[i] == rows[i] && shown[j] == rows[j]);
    if shown[i].spread_bps.lt(shown[j].spread_bps) {
        lemma_rank(shown[i].spread_bps, shown[j].spread_bps);
    }
}

/// A market is counted once, however many updates it sends: a market that is
/// new makes the list longer by one, a known one does not.
pub proof fn law_markets_are_counted_once(latest: Seq<BboView>, update: BboView)
    ensures
        (forall|i: int| 0 <= i < latest.len() ==> (#[trigger] latest[i]).market_id != update.market_id) ==> recorded(
            latest,
            update,
        ) == latest.push(update),
        forall|i: int|
            0 <= i < latest.len() && (#[trigger] latest[i]).market_id == update.market_id ==> recorded(
                latest,
                update,
            ).len() == latest.len(),
        recorded(latest, update).contains(update),
{
    lemma_slot(latest, update.market_id, 0);
    let slot = slot_from(latest, update.market_id, 0);
    let after = recorded(latest, update);
    assert(after[slot] == update);
}

proof fn lemma_slot(latest: Seq<BboView>, market_id: u32, from: int)
    requires
        0 <= from <= latest.len(),
    ensures
        from <= slot_from(latest, market_id, from) <= latest.len(),
        slot_from(latest, market_id, from) < latest.len() ==> latest[slot_from(latest, market_id, from)].market_id
            == market_id,
        forall|i: int| from <= i < slot_from(latest, market_id, from) ==> (#[trigger] latest[i]).market_id != market_id,
    decreases latest.len() - from,
{
    if from < latest.len() && latest[from].market_id != market_id {
        lemma_slot(latest, market_id, from + 1);
    }
}

/// The event rate is the number of events over the seconds that passed, to a
/// few millionths; 0 where no time has passed.
pub proof fn law_rate_is_events_per_second(events: u64, elapsed: Span)
    requires
        0 < events <= 0x20_0000_0000_0000,
        elapsed.secs() <= 0x10_0000_0000,
    ensures
        elapsed.nanos == 0 ==> event_rate(events, elapsed) == num(ZERO),
        elapsed.nanos > 0 ==> about(
            event_rate(events, elapsed),
            ratio(whole(events as int), ratio(whole(elapsed.nanos as int), 1000000000real)),
            10real,
        ),
{
    if elapsed.nanos > 0 {
        let s = ratio(whole(elapsed.nanos as int), 1000000000real);
        lemma_seconds(elapsed);
        let n = B64::from_u64(events);
        lemma_count_exact(events);
        lemma_about_itself(n);
        lemma_events_range(whole(events as int));
        lemma_ordinary_ratio(whole(events as int), s, 60, 80);
        lemma_about_ratio(n, seconds(elapsed), whole(events as int), s, 0real, 4real, 140);
        lemma_about_looser(
            event_rate(events, elapsed),
            ratio(whole(events as int), s),
            6real,
            10real,
        );
    }
}

proof fn lemma_events_range(x: real)
    requires
        1real <= x <= 9007199254740992real,
    ensures
        ordinary(x, 60),
{
    assert(power(60) == 1152921504606846976real) by {
        reveal(power);
        vstd::arithmetic::power2::lemma2_to64_rest();
    }
    reveal(product);
    let p = power(60);
    assert(x * p >= 1real) by (nonlinear_arith)
        requires
            x >= 1real,
            p >= 1real,
    ;
}

proof fn lemma_seconds(span: Span)
    requires
        0 < span.nanos,
        span.secs() <= 0x10_0000_0000,
    ensures
        about(seconds(span), ratio(whole(span.nanos as int), 1000000000real), 4real),
        ordinary(ratio(whole(span.nanos as int), 1000000000real), 80),
{
    let n = span.nanos as int;
    let (w, r) = (n / 1_000_000_000, n % 1_000_000_000);
    let (a, b) = (B64::from_u64(w as u64), B64::from_u64(r as u64));
    let (x, y) = (whole(w), whole(r));
    let k = num(BILLION);
    lemma_whole_constants();
    lemma_about_itself(k);
    let t = ratio(whole(n), 1000000000real);
    assert(1000000000real * t == whole(n)) by {
        reveal(ratio);
    }
    assert(whole(n) == 1000000000real * x + y);
    let z = ratio(y, 1000000000real);
    assert(1000000000real * z == y) by {
        reveal(ratio);
    }
    assert(t == x + z);
    lemma_seconds_range(t);
    let part = b.div(k);
    if r > 0 {
        lemma_count_exact(r as u64);
        lemma_about_itself(b);
        lemma_events_range(y);
        lemma_events_range(1000000000real);
        lemma_ordinary_ratio(y, 1000000000real, 60, 60);
        lemma_about_ratio(b, k, y, 1000000000real, 0real, 0real, 120);
        if w > 0 {
            lemma_count_exact(w as u64);
            lemma_about_itself(a);
            lemma_about_looser(a, x, 0real, 2real);
            lemma_about_sum(a, part, x, z, 2real, 80);
            lemma_about_looser(a.add(part), x + z, 3real, 4real);
        } else {
            lemma_none_counted();
            lemma_about_plain(part, z, 2real);
            crate::strategy::markouts::lemma_zero_plus_any(part);
            lemma_same(num(ZERO).add(part), part);
            lemma_about_looser(part, z, 2real, 4real);
            assert(x == 0real);
        }
    } else {
        lemma_none_counted();
        lemma_count_exact(w as u64);
        lemma_exact_sign(k);
        crate::strategy::vol_quotes::lemma_room();
        crate::strategy::imbalance::lemma_zero_over(b, k);
        lemma_same(part, num(ZERO));
        lemma_exact_sign(num(ZERO));
        lemma_about_itself(a);
        lemma_add_near(a, part);
        lemma_rounds(a.add(part), x, 80);
        lemma_four_of(t);
        assert(y == 0real && z == 0real);
    }
}

proof fn lemma_four_of(x: real)
    ensures
        product(4real, x) == 4real * x,
{
    reveal(product);
}

proof fn lemma_none_counted()
    ensures
        B64::from_u64(0) == num(ZERO),
{
    reveal(B64::spec_from_u64);
    crate::binary64::arith::lemma_rounded_zero(1);
    assert(0 * crate::binary64::integral::one_units() == 0) by (nonlinear_arith);
}

proof fn lemma_same(a: B64, b: B64)
    requires
        a.eq_num(b),
        b.finite(),
    ensures
        a.finite(),
        a.exact() == b.exact(),
{
    crate::binary64::facts::lemma_value_range(a);
    crate::binary64::facts::lemma_value_range(b);
    reveal(B64::exact);
}

proof fn lemma_seconds_range(t: real)
    requires
        1000000000real * t >= 1real,
        t <= 68719476737real,
    ensures
        ordinary(t, 80),
{
    lemma_powers(40, 80);
    let p = power(80);
    assert(power(40) == 1099511627776real) by {
        reveal(power);
        vstd::arithmetic::power2::lemma2_to64_rest();
    }
    reveal(product);
    assert(t * p >= 1real) by (nonlinear_arith)
        requires
            1000000000real * t >= 1real,
            p >= 1099511627776real,
    ;
}

/// Perpetuals are discovered in the order of the catalog: one that is new comes
/// last, and anything else changes nothing.
pub proof fn law_perps_come_in_catalog_order(catalog: Seq<MarketInfo>, market: MarketInfo)
    ensures
        ({
            let known = perps_in_order(catalog);
            let longer = perps_in_order(catalog.push(market));
            let perp = lower(market.market_type@) == lower("perp"@);
            &&& perp && !known.contains(market.market_id) ==> longer == known.push(market.market_id)
            &&& !perp || known.contains(market.market_id) ==> longer == known
        }),
        perps_in_order(Seq::empty()) == Seq::<u32>::empty(),
{
    assert(catalog.push(market).drop_last() =~= catalog);
}

/// A book of best quotes has the bid among its bids and the ask among its asks,
/// each with its size, under its own name or else the fallback.
pub proof fn law_best_quotes_keep_their_side(bbo: BboView, fallback: Seq<char>, now: Timestamp)
    ensures
        ({
            let book = book_of_bbo(bbo, fallback, now);
            &&& book.market_id == bbo.market_id
            &&& book.symbol == (if bbo.symbol.len() > 0 { bbo.symbol } else { fallback })
            &&& book.bids.len() == 1 && book.bids[0].price == bbo.bid_price && book.bids[0].quantity == bbo.bid_size
            &&& book.asks.len() == 1 && book.asks[0].price == bbo.ask_price && book.asks[0].quantity == bbo.ask_size
            &&& book.best_bid() == Some(bbo.bid_price)
            &&& book.best_ask() == Some(bbo.ask_price)
        }),
{
}

/// The best prices of a book are those of its first levels.
pub proof fn law_first_levels_are_best(book: BookView)
    ensures
        book.bids.len() > 0 ==> book.best_bid() == Some(book.bids[0].price),
        book.asks.len() > 0 ==> book.best_ask() == Some(book.asks[0].price),
        book.bids.len() == 0 ==> book.best_bid() is None,
        book.asks.len() == 0 ==> book.best_ask() is None,
        book.bids.len() > 0 && book.asks.len() > 0 ==> bbo_of_book(book) is Some && bbo_of_book(book)->0.bid_price
            == book.bids[0].price && bbo_of_book(book)->0.bid_size == book.bids[0].quantity && bbo_of_book(
            book,
        )->0.ask_price == book.asks[0].price && bbo_of_book(book)->0.ask_size == book.asks[0].quantity
            && bbo_of_book(book)->0.market_id == book.market_id && bbo_of_book(book)->0.symbol == book.symbol,
        book.bids.len() == 0 || book.asks.len() == 0 ==> bbo_of_book(book) is None,
{
}

} // verus!
