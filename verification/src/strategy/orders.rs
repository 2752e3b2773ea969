//! What the orders of a maker carry, and what its gates keep out.

use vstd::arithmetic::power::pow;
use vstd::prelude::*;

use crate::binary64::consts::{
    EPSILON, ONE, ONE_P0001, ONE_P15, P02, P85, TEN_THOUSAND, TINY_12, TINY_8, TINY_9, TWO, ZERO,
};
use crate::binary64::decimal::{lemma_decade, reaches_power};
use crate::binary64::error::{
    gap, lemma_div_near, lemma_exact_sign, lemma_mul_near, lemma_ratio_times, limit, size, smallest, whole,
};
use crate::binary64::facts::lemma_add_grows;
use crate::binary64::integral::one_units;
use crate::binary64::measure::{
    lemma_exact_of, lemma_exact_order, lemma_range_of_sizes, lemma_whole_constants,
};
use crate::binary64::order::lemma_value_order;
use crate::binary64::{num, units, B64};
use crate::clock::{wall_millis, Timestamp};
use crate::lighter::types::{BookView, MarketSnapshot, OrderType, Side, SignalView, TradeSignal};

use super::error::StrategyError;
use super::exact::{lemma_gap_small, lemma_near_within, product, ratio};
use super::grid_strategy::InventoryMode;
use super::inventory_bias::{biased, standing};
use super::maker_volume::GatesView;
use super::market_making::{
    apply_inventory_cap, fresh_strategy, level_pairs, mid_from_bbo, quote_signals, requote_due, skewed_quote,
    vol_sized, AlphaSource, LastQuote, MarketMakingStrategy, MmQuoteParams, MmView, QuoteEngine, TwoSidedQuote,
    VolObiMmSettings,
};
use super::quotes::width_slack;
use super::split_book::{orders_in, split_result};
use super::vol_obi::{tick_of, CalcView};
use super::Strategy;

verus! {

/// The orders of a quote: one buy at its bid and one sell at its ask, each with
/// that side's size and the edge of the quote, and each only where it is worth
/// placing.
pub proof fn law_orders_carry_the_quote(
    symbol: Seq<char>,
    market_id: u32,
    quote: TwoSidedQuote,
    inventory: B64,
    engine: QuoteEngine,
    ts: Timestamp,
    i: int,
)
    requires
        0 <= i < quote_signals(symbol, market_id, quote, inventory, engine, ts).len(),
    ensures
        ({
            let signals = quote_signals(symbol, market_id, quote, inventory, engine, ts);
            let order = signals[i];
            &&& order.symbol == symbol
            &&& order.market_id == market_id
            &&& order.order_type == OrderType::Limit
            &&& order.timestamp == ts
            &&& order.expected_edge_bps == Some(quote.expected_edge_bps)
            &&& order.side == Side::Buy ==> order.price == quote.bid_price && order.quantity == quote.bid_qty
            &&& order.side == Side::Sell ==> order.price == quote.ask_price && order.quantity == quote.ask_qty
            &&& signals.len() <= 2
            &&& signals.len() == 2 ==> signals[0].side == Side::Buy && signals[1].side == Side::Sell
        }),
{
}

/// A side is placed where it is worth 1 or more, by clear margins either way.
pub proof fn law_dust_is_not_placed(
    symbol: Seq<char>,
    market_id: u32,
    quote: TwoSidedQuote,
    inventory: B64,
    engine: QuoteEngine,
    ts: Timestamp,
)
    requires
        quote.bid_price.finite() && quote.bid_qty.finite(),
        quote.ask_price.finite() && quote.ask_qty.finite(),
        size(quote.bid_qty.exact() * quote.bid_price.exact()) <= limit(),
        size(quote.ask_qty.exact() * quote.ask_price.exact()) <= limit(),
    ensures
        ({
            let signals = quote_signals(symbol, market_id, quote, inventory, engine, ts);
            let buys = exists|i: int| 0 <= i < signals.len() && (#[trigger] signals[i]).side == Side::Buy;
            let sells = exists|i: int| 0 <= i < signals.len() && (#[trigger] signals[i]).side == Side::Sell;
            let bid_worth = quote.bid_qty.exact() * quote.bid_price.exact();
            let ask_worth = quote.ask_qty.exact() * quote.ask_price.exact();
            &&& bid_worth >= 1real + 1real / 1000real ==> buys
            &&& bid_worth <= 1real - 1real / 1000real ==> !buys
            &&& ask_worth >= 1real + 1real / 1000real ==> sells
            &&& ask_worth <= 1real - 1real / 1000real ==> !sells
        }),
{
    let signals = quote_signals(symbol, market_id, quote, inventory, engine, ts);
    lemma_worth(quote.bid_qty, quote.bid_price);
    lemma_worth(quote.ask_qty, quote.ask_price);
    if quote.bid_qty.mul(quote.bid_price).ge(num(ONE)) {
        assert(signals[0].side == Side::Buy);
    }
    if quote.ask_qty.mul(quote.ask_price).ge(num(ONE)) {
        assert(signals[signals.len() - 1].side == Side::Sell);
    }
}

proof fn lemma_worth(qty: B64, price: B64)
    requires
        qty.finite(),
        price.finite(),
        size(qty.exact() * price.exact()) <= limit(),
    ensures
        qty.exact() * price.exact() >= 1real + 1real / 1000real ==> qty.mul(price).ge(num(ONE)),
        qty.exact() * price.exact() <= 1real - 1real / 1000real ==> !qty.mul(price).ge(num(ONE)),
{
    let w = qty.exact() * price.exact();
    lemma_range_of_sizes();
    lemma_whole_constants();
    lemma_mul_near(qty, price);
    lemma_near_within(qty.mul(price), w, size(w));
    lemma_gap_small(size(w));
    lemma_tinier(size(w));
    super::markouts::lemma_smallest_tiny();
    lemma_exact_order(qty.mul(price), num(ONE));
}

/// A gap of something is less than a millionth of it.
pub proof fn lemma_tinier(x: real)
    requires
        x >= 0real,
    ensures
        1000000real * product(gap(), x) <= x,
{
    let g = gap();
    super::exact::lemma_gap();
    assert(g <= 1real / 1000000real);
    super::exact::lemma_product_order(g, 1real / 1000000real, x);
    super::quotes::lemma_product_scaled(1real, x, 1real / 1000000real);
    super::exact::lemma_product_units(x);
    assert((1real / 1000000real) * 1real == 1real / 1000000real);
}

/// An order is marked as reducing only where it takes away from the inventory:
/// a buy from a short one, a sell from a long one. It is marked so wherever its
/// size does not exceed the inventory.
pub proof fn law_only_reducing_orders_are_marked(
    symbol: Seq<char>,
    market_id: u32,
    quote: TwoSidedQuote,
    inventory: B64,
    engine: QuoteEngine,
    ts: Timestamp,
    i: int,
)
    requires
        0 <= i < quote_signals(symbol, market_id, quote, inventory, engine, ts).len(),
        inventory.finite(),
    ensures
        ({
            let order = quote_signals(symbol, market_id, quote, inventory, engine, ts)[i];
            &&& order.risk_reducing && order.side == Side::Buy ==> inventory.lt(num(ZERO))
            &&& order.risk_reducing && order.side == Side::Sell ==> inventory.gt(num(ZERO))
            &&& order.side == Side::Buy && inventory.lt(num(ZERO)) && order.quantity.le(inventory.neg())
                ==> order.risk_reducing
            &&& order.side == Side::Sell && inventory.gt(num(ZERO)) && order.quantity.le(inventory)
                ==> order.risk_reducing
            &&& order.side == Side::Buy && order.quantity.finite() && order.quantity.exact() > size(
                inventory.exact(),
            ) + 1real / 1000000real + size(inventory.exact()) / 1000000real && size(inventory.exact()) + 1real
                <= limit() ==> !order.risk_reducing
            &&& order.side == Side::Sell && order.quantity.finite() && order.quantity.exact() > size(
                inventory.exact(),
            ) + 1real / 1000000real + size(inventory.exact()) / 1000000real && size(inventory.exact()) + 1real
                <= limit() ==> !order.risk_reducing
        }),
{
    let order = quote_signals(symbol, market_id, quote, inventory, engine, ts)[i];
    lemma_value_order(num(ZERO), num(EPSILON));
    lemma_value_order(inventory, num(ZERO));
    lemma_value_order(num(ZERO), inventory);
    if inventory.lt(num(ZERO)) {
        assert(inventory.abs() == inventory.neg());
        lemma_and_epsilon(inventory.abs(), order.quantity);
    }
    if inventory.gt(num(ZERO)) {
        lemma_and_epsilon(inventory, order.quantity);
    }
    crate::binary64::measure::lemma_exact_signs(inventory);
}

proof fn lemma_and_epsilon(held: B64, qty: B64)
    requires
        held.finite(),
        held.ge(num(ZERO)),
    ensures
        qty.le(held) ==> qty.le(held.add(num(EPSILON))),
        qty.finite() && size(held.exact()) + 1real <= limit() && qty.exact() > held.exact() + 1real / 1000000real
            + held.exact() / 1000000real ==> !qty.le(held.add(num(EPSILON))),
{
    lemma_value_order(num(ZERO), num(EPSILON));
    lemma_add_grows(held, num(EPSILON));
    if qty.finite() && size(held.exact()) + 1real <= limit() {
        lemma_exact_order(held, num(ZERO));
        lemma_exact_sign(num(ZERO));
        lemma_epsilon();
        lemma_range_of_sizes();
        super::markouts::lemma_smallest_tiny();
        let sum = held.add(num(EPSILON));
        crate::binary64::error::lemma_add_near(held, num(EPSILON));
        let x = held.exact() + num(EPSILON).exact();
        lemma_near_within(sum, x, x);
        lemma_half_tinier(x);
        lemma_exact_order(qty, sum);
    }
}

proof fn lemma_half_tinier(x: real)
    requires
        x >= 0real,
    ensures
        1000000000real * product(gap(), x) <= x,
{
    let g = gap();
    super::exact::lemma_gap();
    assert(g <= 1real / 1000000000real);
    super::exact::lemma_product_order(g, 1real / 1000000000real, x);
    super::quotes::lemma_product_scaled(1real, x, 1real / 1000000000real);
    super::exact::lemma_product_units(x);
    assert((1real / 1000000000real) * 1real == 1real / 1000000000real);
}

proof fn lemma_epsilon()
    ensures
        num(EPSILON).finite(),
        0real < num(EPSILON).exact() <= 1real / 1000000000real,
{
    vstd::arithmetic::power2::lemma2_to64();
    vstd::arithmetic::power2::lemma2_to64_rest();
    vstd::arithmetic::power2::lemma_pow2_adds(64, 40);
    assert(vstd::arithmetic::power2::pow2(104) == 20282409603651670423947251286016) by {
        assert(18446744073709551616 * 1099511627776 == 20282409603651670423947251286016);
    }
    lemma_exact_of(EPSILON, 970, 4503599627370496, 104, 20282409603651670423947251286016real, 4503599627370496real);
}

/// Every order that gated books lead to is passive and within the notional cap:
/// a buy below the mid and the best ask, never on a position worth the cap; a
/// sell above the mid and the best bid, never on one worth as much short.
pub proof fn law_gated_orders_are_passive(
    m: MmView,
    gates: GatesView,
    symbol: Seq<char>,
    book: BookView,
    inventory: B64,
    now: Timestamp,
    i: int,
)
    requires
        m.gates == Some(gates),
        gates.max_position_notional.finite() && gates.max_position_notional.gt(num(ZERO)),
        0 <= i < m.step(symbol, book, inventory, now).1.len(),
    ensures
        ({
            let order = m.step(symbol, book, inventory, now).1[i];
            let mid = mid_from_bbo(book.best_bid()->0, book.best_ask()->0);
            let after = m.step(symbol, book, inventory, now).0;
            &&& gates.allows(book.market_id)
            &&& mid is Some
            &&& order.side == Side::Buy ==> order.quantity.gt(num(ZERO)) ==> {
                &&& order.price.lt(mid->0)
                &&& order.price.lt(book.best_ask()->0)
                &&& !after.markouts.bid_blocked(symbol, book.timestamp)
                &&& mid->0.finite() ==> !inventory.mul(mid->0).ge(gates.max_position_notional.sub(num(TINY_9)))
            }
            &&& order.side == Side::Sell ==> order.quantity.gt(num(ZERO)) ==> {
                &&& order.price.gt(mid->0)
                &&& order.price.gt(book.best_bid()->0)
                &&& !after.markouts.ask_blocked(symbol, book.timestamp)
                &&& mid->0.finite() ==> !inventory.mul(mid->0).le(
                    gates.max_position_notional.neg().add(num(TINY_9)),
                )
            }
        }),
{
    lemma_value_order(num(ZERO), num(ZERO));
    let (quoted, quote) = m.quoted(book, inventory, wall_millis(now));
    assert(quoted.gates == m.gates);
    let (after, left) = quoted.gated(symbol, book, inventory, quote->0);
    let ts = if book.timestamp.secs > 0 { book.timestamp } else { now };
    assert(m.step(symbol, book, inventory, now).1 == quote_signals(
        symbol,
        book.market_id,
        left->0,
        inventory,
        m.engine,
        ts,
    ));
    law_orders_carry_the_quote(symbol, book.market_id, left->0, inventory, m.engine, ts, i);
}

/// The sizes of a volatility quote: worth the order notional at the mid while
/// flat. A position shrinks the side that would add to it and grows the side
/// that reduces it, and a side without a usable price has no size.
pub proof fn law_volatility_sizes_lean_against_the_position(
    params: MmQuoteParams,
    least: B64,
    mid: B64,
    inventory: B64,
    bid_price: B64,
    ask_price: B64,
)
    requires
        mid.finite() && mid.gt(num(ZERO)),
        params.order_notional.finite() && params.order_notional.gt(num(ZERO)),
        2real * ratio(params.order_notional.exact(), mid.exact()) <= limit(),
        inventory.finite(),
    ensures
        match vol_sized(params, least, mid, inventory, bid_price, ask_price) {
            Some(q) => {
                let base = ratio(params.order_notional.exact(), mid.exact());
                let slack = base / 1000000real + 4real * smallest();
                let held = inventory.exact();
                &&& q.mid == mid
                &&& q.bid_qty.finite() && q.ask_qty.finite()
                &&& product(base, mid.exact()) == params.order_notional.exact()
                &&& !standing(bid_price) ==> q.bid_qty == num(ZERO)
                &&& !standing(ask_price) ==> q.ask_qty == num(ZERO)
                &&& standing(bid_price) && held == 0real ==> size(q.bid_qty.exact() - base) <= slack
                &&& standing(bid_price) && held > 0real ==> size(100real * q.bid_qty.exact() - 85real * base)
                    <= 100real * slack
                &&& standing(bid_price) && held < 0real ==> size(100real * q.bid_qty.exact() - 115real * base)
                    <= 200real * slack
                &&& standing(ask_price) && held == 0real ==> size(q.ask_qty.exact() - base) <= slack
                &&& standing(ask_price) && held < 0real ==> size(100real * q.ask_qty.exact() - 85real * base)
                    <= 100real * slack
                &&& standing(ask_price) && held > 0real ==> size(100real * q.ask_qty.exact() - 115real * base)
                    <= 200real * slack
                &&& q.bid_qty.gt(num(ZERO)) ==> q.bid_price == bid_price
                &&& q.ask_qty.gt(num(ZERO)) ==> q.ask_price == ask_price
                &&& q.bid_qty.gt(num(ZERO)) && q.ask_qty.gt(num(ZERO)) ==> !bid_price.ge(ask_price)
            },
            None => bid_price.ge(ask_price),
        },
{
    let base = params.order_notional.div(mid);
    lemma_exact_sign(mid);
    lemma_exact_sign(params.order_notional);
    lemma_exact_sign(inventory);
    lemma_exact_sign(num(ZERO));
    lemma_value_order(num(ZERO), num(ZERO));
    let (n, m) = (params.order_notional.exact(), mid.exact());
    let b = ratio(n, m);
    assert(b == n / m && product(b, m) == n) by {
        reveal(ratio);
        reveal(product);
        lemma_ratio_times(n, m);
    }
    assert(b >= 0real) by {
        reveal(product);
        assert(b >= 0real) by (nonlinear_arith)
            requires
                b * m == n,
                n >= 0real,
                m > 0real,
        ;
    }
    lemma_div_near(params.order_notional, mid);
    lemma_near_within(base, b, b);
    lemma_half_tinier(b);
    lemma_leaning_sizes(base, b);
}

proof fn lemma_leaning_sizes(base: B64, b: real)
    requires
        base.finite(),
        b >= 0real,
        2real * b <= limit(),
        size(base.exact() - b) <= b / 1000000000real + smallest(),
    ensures
        base.mul(num(P85)).finite(),
        base.mul(num(ONE_P15)).finite(),
        size(100real * base.mul(num(P85)).exact() - 85real * b) <= 100real * (b / 1000000real + 4real * smallest()),
        size(100real * base.mul(num(ONE_P15)).exact() - 115real * b) <= 200real * (b / 1000000real + 4real
            * smallest()),
{
    lemma_range_of_sizes();
    lemma_shares();
    let x = base.exact();
    let (p, q) = (num(P85).exact(), num(ONE_P15).exact());
    lemma_share_of(x, p, 85real, b);
    lemma_share_of(x, q, 115real, b);
    lemma_mul_near(base, num(P85));
    lemma_mul_near(base, num(ONE_P15));
    let z = 2real * b + 2real * smallest();
    lemma_near_within(base.mul(num(P85)), x * p, z);
    lemma_near_within(base.mul(num(ONE_P15)), x * q, z);
    lemma_half_tinier(z);
}

proof fn lemma_share_of(x: real, p: real, share: real, b: real)
    requires
        b >= 0real,
        0real <= share <= 120real,
        size(x - b) <= b / 1000000000real + smallest(),
        size(100real * p - share) <= 1real / 1000000000000real,
    ensures
        size(100real * (x * p) - share * b) <= b / 1000000real + 200real * smallest(),
        size(x * p) <= 2real * b + 2real * smallest(),
{
    lemma_range_of_sizes();
    let d = x - b;
    let f = 100real * p - share;
    let s = smallest();
    let (du, fu) = (b / 1000000000real + s, 1real / 1000000000000real);
    assert(100real * (x * p) - share * b == share * d + f * b + f * d) by (nonlinear_arith)
        requires
            d == x - b,
            f == 100real * p - share,
    ;
    lemma_signed_product(share, d, 120real, du);
    lemma_signed_product(f, b, fu, b);
    lemma_signed_product(f, d, fu, du);
    lemma_share_bound(share, b);
}

proof fn lemma_share_bound(share: real, b: real)
    requires
        0real <= share <= 120real,
        b >= 0real,
    ensures
        0real <= share * b <= 120real * b,
{
    assert(0real <= share * b <= 120real * b) by (nonlinear_arith)
        requires
            0real <= share <= 120real,
            b >= 0real,
    ;
}

proof fn lemma_signed_product(a: real, b: real, x: real, y: real)
    requires
        size(a) <= x,
        size(b) <= y,
    ensures
        size(a * b) <= x * y,
{
    super::exact::lemma_product_size(a, b, x, y);
    reveal(product);
}

proof fn lemma_shares()
    ensures
        num(P85).finite(),
        num(ONE_P15).finite(),
        size(100real * num(P85).exact() - 85real) <= 1real / 1000000000000real,
        size(100real * num(ONE_P15).exact() - 115real) <= 1real / 1000000000000real,
{
    vstd::arithmetic::power2::lemma2_to64();
    vstd::arithmetic::power2::lemma2_to64_rest();
    lemma_exact_of(P85, 1021, 7656119366529843, 53, 9007199254740992real, 7656119366529843real);
    lemma_exact_of(ONE_P15, 1022, 5179139571476070, 52, 4503599627370496real, 5179139571476070real);
}

/// A book wider than 2% of its mid gets no volatility quote, and none but those
/// is refused for its width; by clear margins either way.
pub proof fn law_wide_books_are_not_quoted(m: MmView, book: BookView, bid: B64, ask: B64)
    requires
        book.best_bid() == Some(bid),
        book.best_ask() == Some(ask),
        bid.finite() && bid.gt(num(ZERO)),
        ask.finite() && ask.ge(bid),
        bid.exact() + ask.exact() <= limit(),
        ({
            let mid = mid_from_bbo(bid, ask)->0.exact();
            65536real * (ratio(ask.exact() - bid.exact(), mid) + ratio(smallest(), mid) + 1real) <= limit()
        }),
    ensures
        ({
            let mid = mid_from_bbo(bid, ask)->0.exact();
            let width = ratio(ask.exact() - bid.exact(), mid);
            let slack = (width + 1real) / 1000000real + 2real * ratio(smallest(), mid);
            &&& 100real * width > 2real + 100real * slack ==> m.narrow_mid(book) is None
            &&& 100real * width < 2real - 100real * slack ==> m.narrow_mid(book) == mid_from_bbo(bid, ask)
        }),
{
    super::quotes::law_mid_is_half_the_sum(bid, ask);
    let mid = mid_from_bbo(bid, ask)->0;
    lemma_exact_sign(bid);
    lemma_exact_order(bid, ask);
    lemma_exact_order(ask, num(ZERO));
    lemma_exact_sign(num(ZERO));
    super::quotes::lemma_width_in_bps(ask, bid, mid);
    let width = ratio(ask.exact() - bid.exact(), mid.exact());
    lemma_half_tinier(width);
    lemma_range_of_sizes();
    super::markouts::lemma_smallest_tiny();
    lemma_two_percent();
    lemma_exact_order(ask.sub(bid).div(mid), num(P02));
}

proof fn lemma_two_percent()
    ensures
        num(P02).finite(),
        size(100real * num(P02).exact() - 2real) <= 1real / 1000000000000real,
{
    vstd::arithmetic::power2::lemma2_to64();
    vstd::arithmetic::power2::lemma2_to64_rest();
    lemma_exact_of(P02, 1016, 5764607523034235, 58, 288230376151711744real, 5764607523034235real);
}

/// A quote that is due is placed: without gates, a book whose quote is left by
/// the inventory cap leads to the orders of that quote where the symbol was not
/// quoted before, or where its last quote is due for another. The quote is
/// remembered with its mid, the inventory and the instant of the book.
pub proof fn law_due_quotes_are_placed(
    m: MmView,
    symbol: Seq<char>,
    book: BookView,
    bid: B64,
    ask: B64,
    inventory: B64,
    now: Timestamp,
    quote: TwoSidedQuote,
)
    requires
        m.gates is None,
        m.engine == QuoteEngine::Simple,
        book.best_bid() == Some(bid),
        book.best_ask() == Some(ask),
        skewed_quote(bid, ask, inventory, m.params) is Some,
        apply_inventory_cap(
            skewed_quote(bid, ask, inventory, m.params)->0,
            inventory,
            m.params.max_inventory,
            m.inventory_mode,
        ) == Some(quote),
        m.last_quotes.dom().contains(symbol) ==> requote_due(
            m.last_quotes[symbol].mid,
            m.last_quotes[symbol].inventory,
            m.last_quotes[symbol].at,
            quote.mid,
            inventory,
            book.timestamp,
            m.params.bid_spread,
            m.params.min_requote_secs,
        ),
    ensures
        ({
            let (after, orders) = m.step(symbol, book, inventory, now);
            let at = if book.timestamp.secs > 0 { book.timestamp } else { now };
            &&& orders == quote_signals(symbol, book.market_id, quote, inventory, QuoteEngine::Simple, at)
            &&& after.last_quotes == m.last_quotes.insert(
                symbol,
                LastQuote { mid: quote.mid, inventory, at: book.timestamp },
            )
            &&& mid_from_bbo(bid, ask) == Some(quote.mid)
        }),
{
}

/// Whatever leads to an order, the quote is remembered with the inventory and
/// the instant it was made for, and the other symbols are left alone.
pub proof fn law_quotes_are_remembered(
    m: MmView,
    symbol: Seq<char>,
    book: BookView,
    inventory: B64,
    now: Timestamp,
    other: Seq<char>,
)
    requires
        other != symbol,
    ensures
        ({
            let (after, orders) = m.step(symbol, book, inventory, now);
            &&& orders.len() > 0 ==> after.last_quotes.dom().contains(symbol) && after.last_quotes[symbol].inventory
                == inventory && after.last_quotes[symbol].at == book.timestamp
            &&& after.last_quotes.dom().contains(other) == m.last_quotes.dom().contains(other)
            &&& m.last_quotes.dom().contains(other) ==> after.last_quotes[other] == m.last_quotes[other]
        }),
{
}

/// Each book is evaluated with the position of its own symbol, 0 without one,
/// and the orders come in the order of the books.
pub proof fn law_books_meet_their_positions(
    m: MmView,
    books: Seq<(Seq<char>, BookView)>,
    symbol: Seq<char>,
    book: BookView,
    positions: Map<Seq<char>, B64>,
    now: Timestamp,
)
    ensures
        ({
            let (before, orders) = m.walked(books, positions, now);
            let held = if positions.dom().contains(symbol) { positions[symbol] } else { num(ZERO) };
            let (after, more) = before.step(symbol, book, held, now);
            m.walked(books.push((symbol, book)), positions, now) == (after, orders + more)
        }),
        m.walked(Seq::empty(), positions, now) == (m, Seq::<SignalView>::empty()),
{
    assert(books.push((symbol, book)).drop_last() =~= books);
}

/// The calculator of a book works for the book's own symbol, takes a fresh
/// external alpha in place of its own, and is limited by the largest inventory
/// at the mid.
pub proof fn law_fresh_external_alphas_are_used(m: MmView, book: BookView, mid: B64, now_ms: u64, alpha: B64)
    requires
        mid.finite() && mid.gt(num(ZERO)),
        m.vol_engines.dom().contains(book.symbol),
        m.vol_engines[book.symbol].warmed_up,
        m.vol_engines[book.symbol].total_samples >= m.vol_engines[book.symbol].min_warmup_samples,
        m.vol_engines[book.symbol].total_samples < i64::MAX,
    ensures
        ({
            let calc = m.calc_after(book, mid, now_ms);
            &&& m.external_alpha(book.symbol, now_ms) == Some(alpha) ==> calc.alpha == alpha
            &&& m.external_alpha(book.symbol, now_ms) is None ==> calc.alpha == calc.local_alpha
            &&& m.params.max_inventory.gt(num(ZERO)) && m.params.max_inventory.mul(mid).finite()
                && calc.max_position_dollar.gt(num(ZERO)) ==> calc.max_position_dollar.near(
                m.params.max_inventory.exact() * mid.exact(),
            )
            &&& !m.params.max_inventory.gt(num(ZERO)) ==> calc.max_position_dollar == num(ZERO)
            &&& calc.warmed_up
        }),
{
    lemma_value_order(mid, num(ZERO));
    lemma_value_order(num(ZERO), num(ZERO));
    if m.params.max_inventory.mul(mid).finite() {
        crate::binary64::measure::lemma_finite_terms(m.params.max_inventory, mid);
        lemma_mul_near(m.params.max_inventory, mid);
    }
}

/// A volatility quote of one symbol leaves the calculators of all others.
pub proof fn law_calculators_are_kept_apart(m: MmView, book: BookView, inventory: B64, now_ms: u64, other: Seq<char>)
    requires
        other != book.symbol,
    ensures
        ({
            let after = m.vol_quoted(book, inventory, now_ms).0;
            &&& after.vol_engines.dom().contains(other) == m.vol_engines.dom().contains(other)
            &&& m.vol_engines.dom().contains(other) ==> after.vol_engines[other] == m.vol_engines[other]
        }),
{
}

/// The tick of a book is the distance of its two best bids, or else of its two
/// best asks, up to rounding.
pub proof fn law_tick_is_the_distance_of_two_levels(
    bids: Seq<(B64, B64)>,
    asks: Seq<(B64, B64)>,
    mid: B64,
)
    ensures
        bids.len() >= 2 && bids[0].0.finite() && bids[1].0.finite() && bids[0].0.gt(num(ZERO)) && bids[1].0.gt(
            num(ZERO),
        ) && bids[0].0.exact() - bids[1].0.exact() > 1000real * smallest() ==> {
            let tick = tick_of(bids, asks, mid);
            let gap = bids[0].0.exact() - bids[1].0.exact();
            tick.finite() && 1000real * size(tick.exact() - gap) <= 2real * gap
        },
        bids.len() < 2 && asks.len() >= 2 && asks[0].0.finite() && asks[1].0.finite() && asks[0].0.gt(num(ZERO))
            && asks[1].0.gt(num(ZERO)) && asks[1].0.exact() - asks[0].0.exact() > 1000real * smallest() ==> {
            let tick = tick_of(bids, asks, mid);
            let gap = asks[1].0.exact() - asks[0].0.exact();
            tick.finite() && 1000real * size(tick.exact() - gap) <= 2real * gap
        },
{
    lemma_range_of_sizes();
    if bids.len() >= 2 && bids[0].0.finite() && bids[1].0.finite() && bids[0].0.gt(num(ZERO)) && bids[1].0.gt(
        num(ZERO),
    ) {
        lemma_level_gap(bids[0].0, bids[1].0);
    }
    if asks.len() >= 2 && asks[0].0.finite() && asks[1].0.finite() && asks[0].0.gt(num(ZERO)) && asks[1].0.gt(
        num(ZERO),
    ) {
        lemma_level_gap(asks[0].0, asks[1].0);
    }
}

proof fn lemma_level_gap(a: B64, b: B64)
    requires
        a.finite() && a.gt(num(ZERO)),
        b.finite() && b.gt(num(ZERO)),
    ensures
        a.sub(b).abs().finite(),
        size(a.exact() - b.exact()) > 1000real * smallest() ==> a.sub(b).abs().gt(num(ZERO)) && 1000real * size(
            a.sub(b).abs().exact() - size(a.exact() - b.exact()),
        ) <= 2real * size(a.exact() - b.exact()),
{
    let x = a.exact() - b.exact();
    super::requotes::lemma_difference_is_finite(a, b);
    crate::binary64::error::lemma_sub_near(a, b);
    lemma_near_within(a.sub(b), x, size(x));
    lemma_tinier(size(x));
    lemma_range_of_sizes();
    crate::binary64::measure::lemma_exact_signs(a.sub(b));
    lemma_exact_sign(a.sub(b).abs());
}

/// The tick of a price without a book is four decades below its first digit,
/// but at least 1e-8.
pub proof fn law_tick_without_a_book_is_four_decades_down(mid: B64, d: nat)
    requires
        mid.finite() && mid.gt(num(ZERO)),
        whole(pow(10, d)) <= mid.exact() < whole(pow(10, d + 1)),
    ensures
        tick_of(Seq::empty(), Seq::empty(), mid) == B64::spec_power_of_ten(d - 4).max(num(TINY_8)),
{
    super::requotes::lemma_value_of(mid);
    let one = crate::binary64::error::units_in_one();
    let u = one_units();
    let x = mid.exact();
    let v = mid.value();
    lemma_value_order(mid, num(ZERO));
    assert(v == units(mid.mag()));
    let (p, q) = (pow(10, d), pow(10, d + 1));
    crate::binary64::error::lemma_whole_product(p, u);
    crate::binary64::error::lemma_whole_product(q, u);
    assert(whole(p) * one <= x * one) by (nonlinear_arith)
        requires
            whole(p) <= x,
            one > 0real,
    ;
    assert(x * one < whole(q) * one) by (nonlinear_arith)
        requires
            x < whole(q),
            one > 0real,
    ;
    assert(p * u <= v < q * u);
    assert(reaches_power(v, d as int));
    assert(!reaches_power(v, d as int + 1));
    crate::binary64::layout::lemma_units_zero();
    crate::binary64::facts::lemma_units_order(0, mid.mag());
    lemma_decade(v, d as int);
}

/// The edge of a volatility quote is its width in basis points of the mid while
/// both sides stand, and twice the least half-spread while one does.
pub proof fn law_volatility_edge_is_the_width(
    params: MmQuoteParams,
    least: B64,
    mid: B64,
    inventory: B64,
    bid_price: B64,
    ask_price: B64,
)
    requires
        mid.finite() && mid.gt(num(ZERO)),
        bid_price.finite() && bid_price.gt(num(ZERO)),
        ask_price.finite() && ask_price.gt(bid_price),
        65536real * (ratio(ask_price.exact() - bid_price.exact(), mid.exact()) + ratio(smallest(), mid.exact()) + 1real)
            <= limit(),
    ensures
        match vol_sized(params, least, mid, inventory, bid_price, ask_price) {
            Some(q) => {
                let width = ratio(ask_price.exact() - bid_price.exact(), mid.exact());
                &&& q.bid_qty.gt(num(ZERO)) && q.ask_qty.gt(num(ZERO)) ==> q.expected_edge_bps.finite() && size(
                    q.expected_edge_bps.exact() - 10000real * width,
                ) <= width_slack(width, mid.exact())
                &&& !(q.bid_qty.gt(num(ZERO)) && q.ask_qty.gt(num(ZERO))) && least.ge(num(ZERO)) && least.mul(
                    num(TWO),
                ).finite() ==> q.expected_edge_bps.near(2real * least.exact())
            },
            None => false,
        },
{
    lemma_value_order(ask_price, num(ZERO));
    lemma_exact_order(ask_price, bid_price);
    lemma_exact_order(ask_price, num(ZERO));
    lemma_exact_order(bid_price, num(ZERO));
    super::quotes::lemma_width_in_bps(ask_price, bid_price, mid);
    lemma_exact_sign(num(ZERO));
    lemma_whole_constants();
    let width = ratio(ask_price.exact() - bid_price.exact(), mid.exact());
    let bps = ask_price.sub(bid_price).div(mid).mul(num(TEN_THOUSAND));
    lemma_exact_order(bps, num(ZERO));
    lemma_value_order(bps, num(ZERO));
    if least.ge(num(ZERO)) && least.mul(num(TWO)).finite() {
        crate::binary64::measure::lemma_finite_terms(least, num(TWO));
        lemma_mul_near(least, num(TWO));
        let (x, y) = (least.exact(), num(TWO).exact());
        assert(x * y == 2real * x) by (nonlinear_arith)
            requires
                y == 2real,
        ;
        lemma_value_order(num(ZERO), num(TWO));
        crate::binary64::facts::lemma_mul_sign(least, num(TWO));
        lemma_value_order(least.mul(num(TWO)), num(ZERO));
    }
}

/// The gates let a quote through that is passive on both sides, inside the
/// notional cap and not blocked, with nothing changed but the mid, which is
/// that of the book.
pub proof fn law_gates_let_passive_quotes_through(
    m: MmView,
    gates: GatesView,
    symbol: Seq<char>,
    book: BookView,
    inventory: B64,
    quote: TwoSidedQuote,
    mid: B64,
)
    requires
        m.gates == Some(gates),
        book.best_bid() is Some && book.best_ask() is Some,
        mid_from_bbo(book.best_bid()->0, book.best_ask()->0) == Some(mid),
        mid.finite(),
        quote.bid_qty.gt(num(ZERO)) && quote.ask_qty.gt(num(ZERO)),
        quote.bid_price.finite() && quote.bid_price.gt(num(ZERO)) && quote.bid_price.lt(mid) && quote.bid_price.lt(
            book.best_ask()->0,
        ),
        quote.ask_price.finite() && quote.ask_price.gt(mid) && quote.ask_price.gt(book.best_bid()->0),
        gates.max_position_notional.finite() && gates.max_position_notional.gt(num(ZERO)),
        inventory.mul(mid).lt(gates.max_position_notional.sub(num(TINY_9))),
        inventory.mul(mid).gt(gates.max_position_notional.neg().add(num(TINY_9))),
        ({
            let marks = m.markouts.seen(symbol, inventory, quote.mid, book.timestamp, gates);
            !marks.bid_blocked(symbol, book.timestamp) && !marks.ask_blocked(symbol, book.timestamp)
        }),
    ensures
        m.gated(symbol, book, inventory, quote).1 == Some(TwoSidedQuote { mid, ..quote }),
{
    lemma_value_order(num(ZERO), num(ZERO));
    lemma_value_order(mid, num(ZERO));
    lemma_value_order(quote.ask_price, num(ZERO));
    super::markouts::law_passive_quotes_pass(quote, book.best_bid()->0, book.best_ask()->0);
}

/// Without gates a quote passes as it is, and marks nothing.
pub proof fn law_no_gates_no_change(m: MmView, symbol: Seq<char>, book: BookView, inventory: B64, quote: TwoSidedQuote)
    requires
        m.gates is None,
    ensures
        m.gated(symbol, book, inventory, quote) == (m, Some(quote)),
        m.market_open(book.market_id),
{
}

/// At the inventory cap the side that reduces stays, with its size.
pub proof fn law_cap_keeps_the_reducing_side(quote: TwoSidedQuote, inventory: B64, most: B64, mode: InventoryMode)
    requires
        most.finite() && most.gt(num(ZERO)),
        quote.bid_qty.gt(num(ZERO)) && quote.ask_qty.gt(num(ZERO)),
        mode != InventoryMode::ResearchNoCap,
        !inventory.nan(),
    ensures
        inventory.ge(most) ==> apply_inventory_cap(quote, inventory, most, mode) == Some(
            TwoSidedQuote { bid_qty: num(ZERO), ..quote },
        ),
        inventory.le(most.neg()) ==> apply_inventory_cap(quote, inventory, most, mode) == Some(
            TwoSidedQuote { ask_qty: num(ZERO), ..quote },
        ),
        inventory.lt(most) && inventory.gt(most.neg()) ==> apply_inventory_cap(quote, inventory, most, mode) == Some(
            quote,
        ),
{
    lemma_value_order(num(ZERO), num(ZERO));
    lemma_value_order(most, num(ZERO));
    crate::binary64::layout::lemma_units_zero();
    assert(most.neg().lt(most));
}

/// Where a calculator quotes, a flat book without a quality multiplier keeps
/// its prices; where it does not, a flat book has none and a position has the
/// reducing side alone.
pub proof fn law_calculator_prices_are_used(m: MmView, calc: CalcView, book: BookView, mid: B64, inventory: B64)
    requires
        m.vol_settings.quality_multiplier == num(ONE),
        mid.finite() && mid.gt(num(ZERO)),
    ensures
        inventory.abs().lt(num(TINY_12)) ==> m.vol_prices(calc, book, mid, inventory) == calc.quote(mid, inventory),
        calc.quote(mid, inventory) is None && inventory.finite() && inventory.gt(num(TINY_12)) ==> m.vol_prices(
            calc,
            book,
            mid,
            inventory,
        ) is Some && (m.vol_prices(calc, book, mid, inventory)->0).0.nan(),
        calc.quote(mid, inventory) is None && inventory.finite() && inventory.lt(num(TINY_12).neg()) ==> m.vol_prices(
            calc,
            book,
            mid,
            inventory,
        ) is Some && (m.vol_prices(calc, book, mid, inventory)->0).1.nan(),
{
    lemma_value_order(num(ONE), num(ONE_P0001));
    lemma_value_order(num(ONE_P0001), num(ONE));
    lemma_value_order(mid, num(ZERO));
    lemma_value_order(num(ZERO), num(TINY_12));
    lemma_value_order(inventory, num(ZERO));
    lemma_value_order(inventory, num(TINY_12));
    lemma_value_order(num(TINY_12), inventory);
    crate::binary64::layout::lemma_units_zero();
    super::requotes::lemma_abs_value(inventory);
    assert(num(crate::binary64::consts::NAN).nan());
    assert(!standing(num(crate::binary64::consts::NAN)));
}

/// A maker whose gates are armed, or that has none, evaluates every book; its
/// orders are what it returns, and nothing where there are none. It never
/// fails.
pub proof fn law_armed_makers_evaluate_every_book(
    before: MarketMakingStrategy,
    snapshot: &MarketSnapshot,
    now: Timestamp,
    after: MarketMakingStrategy,
    r: Result<Option<Vec<TradeSignal>>, StrategyError>,
)
    requires
        MarketMakingStrategy::outcome(before, snapshot, now, after, r),
        before@.gates is None || (before@.gates->0.enabled && before@.gates->0.allow_quotes),
    ensures
        ({
            let (view, orders) = before@.walked(snapshot.books(), snapshot.positions@, now);
            &&& r is Ok
            &&& after@ == view
            &&& orders_in(r->Ok_0) == orders
            &&& r->Ok_0 is Some <==> orders.len() > 0
        }),
{
    let orders = before@.walked(snapshot.books(), snapshot.positions@, now).1;
    assert(orders_in(r->Ok_0) =~= orders);
}

/// A split book places the orders of its trend first and those of its maker
/// after them, whatever either of them has; an error of the trend is handed on
/// and leaves the maker as it was.
pub proof fn law_split_books_place_both(
    before: MarketMakingStrategy,
    snapshot: &MarketSnapshot,
    now: Timestamp,
    after: MarketMakingStrategy,
    trend: Result<Option<Vec<TradeSignal>>, StrategyError>,
    r: Result<Option<Vec<TradeSignal>>, StrategyError>,
)
    requires
        split_result(before, snapshot, now, after, trend, r),
    ensures
        ({
            let (view, quotes) = before@.evaluated(snapshot.books(), snapshot.positions@, now);
            &&& trend is Ok ==> r is Ok && after@ == view
            &&& trend is Ok ==> orders_in(r->Ok_0).len() == orders_in(trend->Ok_0).len() + quotes.len()
            &&& trend is Ok ==> orders_in(trend->Ok_0).is_prefix_of(orders_in(r->Ok_0))
            &&& trend is Ok ==> quotes.is_suffix_of(orders_in(r->Ok_0))
            &&& trend is Err ==> r is Err && after == before
        }),
{
    let quotes = before@.evaluated(snapshot.books(), snapshot.positions@, now).1;
    if trend is Ok {
        let all = orders_in(r->Ok_0);
        let first = orders_in(trend->Ok_0);
        assert(all.take(first.len() as int) =~= first);
        assert(all.skip(all.len() - quotes.len()) =~= quotes);
    }
}

/// No engine adds to an inventory at its cap: whichever quotes, the bid of a
/// full long inventory and the ask of a full short one have no size.
pub proof fn law_no_engine_adds_beyond_the_cap(m: MmView, book: BookView, inventory: B64, now_ms: u64)
    requires
        m.params.max_inventory.gt(num(ZERO)),
        m.inventory_mode != InventoryMode::ResearchNoCap,
    ensures
        match m.quoted(book, inventory, now_ms).1 {
            Some(q) => {
                &&& inventory.ge(m.params.max_inventory) ==> q.bid_qty == num(ZERO)
                &&& inventory.le(m.params.max_inventory.neg()) ==> q.ask_qty == num(ZERO)
            },
            None => true,
        },
{
}

/// The volatility engine quotes the calculator's prices, leaned by the position
/// held and sized for it.
pub proof fn law_volatility_quotes_know_the_position(m: MmView, book: BookView, inventory: B64, now_ms: u64, mid: B64)
    requires
        m.narrow_mid(book) == Some(mid),
        m.vol_settings.quality_multiplier == num(ONE),
    ensures
        ({
            let calc = m.calc_after(book, mid, now_ms);
            let tick = tick_of(
                Seq::new(book.bids.len(), |i: int| (book.bids[i].price, book.bids[i].quantity)),
                Seq::new(book.asks.len(), |i: int| (book.asks[i].price, book.asks[i].quantity)),
                mid,
            );
            match calc.quote(mid, inventory) {
                Some((bid, ask)) => {
                    let most = if m.params.max_inventory.gt(num(ZERO)) {
                        m.params.max_inventory.mul(mid)
                    } else {
                        num(ZERO)
                    };
                    let leaned = biased(
                        bid,
                        ask,
                        mid,
                        inventory,
                        most,
                        num(ZERO),
                        num(TWO),
                        m.vol_settings.inventory_exit,
                        tick,
                    );
                    m.vol_quoted(book, inventory, now_ms).1 == vol_sized(
                        m.params,
                        m.vol_settings.vol_obi.min_half_spread_bps,
                        mid,
                        inventory,
                        leaned.0,
                        leaned.1,
                    )
                },
                None => true,
            }
        }),
{
    lemma_value_order(num(ONE), num(ONE_P0001));
    lemma_value_order(num(ONE_P0001), num(ONE));
    assert(level_pairs(book.bids) =~= Seq::new(
        book.bids.len(),
        |i: int| (book.bids[i].price, book.bids[i].quantity),
    ));
    assert(level_pairs(book.asks) =~= Seq::new(
        book.asks.len(),
        |i: int| (book.asks[i].price, book.asks[i].quantity),
    ));
}

/// The calculator of a symbol is fed the bids and the asks of its book, at the
/// instant of the book.
pub proof fn law_calculators_are_fed_their_book(m: MmView, book: BookView, mid: B64, now_ms: u64)
    requires
        mid.finite() && mid.gt(num(ZERO)),
        m.vol_engines.dom().contains(book.symbol),
        m.vol_engines[book.symbol].total_samples >= m.vol_engines[book.symbol].min_warmup_samples,
        m.vol_engines[book.symbol].total_samples < i64::MAX,
        i64::MIN <= book.timestamp.secs * 1_000_000_000,
        book.timestamp.secs * 1_000_000_000 + book.timestamp.nanos <= i64::MAX,
    ensures
        ({
            let calc = m.vol_engines[book.symbol];
            let after = m.calc_after(book, mid, now_ms);
            let bids = Seq::new(book.bids.len(), |i: int| (book.bids[i].price, book.bids[i].quantity));
            let asks = Seq::new(book.asks.len(), |i: int| (book.asks[i].price, book.asks[i].quantity));
            let ns = book.timestamp.secs * 1_000_000_000 + book.timestamp.nanos;
            &&& after.local_alpha == after.imb_stats.zscore(calc.imbalance(mid, bids, asks))
            &&& calc.sample_due(ns as i64) ==> after.last_sample_ns == ns && after.imb_stats.window.last()
                == calc.imbalance(mid, bids, asks)
            &&& !calc.sample_due(ns as i64) ==> after.imb_stats == calc.imb_stats
        }),
{
    lemma_value_order(mid, num(ZERO));
    assert(level_pairs(book.bids) =~= Seq::new(
        book.bids.len(),
        |i: int| (book.bids[i].price, book.bids[i].quantity),
    ));
    assert(level_pairs(book.asks) =~= Seq::new(
        book.asks.len(),
        |i: int| (book.asks[i].price, book.asks[i].quantity),
    ));
}

/// A maker listens to an external alpha only on the volatility engine, with
/// that source chosen and something to run the feed; a new one has quoted
/// nothing and has no gates.
pub proof fn law_new_makers_are_blank(
    params: MmQuoteParams,
    mode: InventoryMode,
    engine: QuoteEngine,
    settings: VolObiMmSettings,
    runtime: bool,
)
    ensures
        ({
            let m = fresh_strategy(params, mode, engine, settings, runtime);
            &&& m.params == params && m.inventory_mode == mode && m.engine == engine && m.vol_settings == settings
            &&& m.binance is Some <==> engine == QuoteEngine::VolObi && settings.alpha_source == AlphaSource::Binance
                && runtime
            &&& m.binance is Some ==> m.binance->0.wanted.len() == 0
            &&& m.gates is None
            &&& m.last_quotes.dom() == Set::<Seq<char>>::empty()
            &&& m.vol_engines.dom() == Set::<Seq<char>>::empty()
        }),
{
}

} // verus!
