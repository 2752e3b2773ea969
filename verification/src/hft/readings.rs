//! What the external alpha is read from and when it counts.

use vstd::prelude::*;

use crate::binary64::consts::{HALF, ONE, P025, THOUSAND, ZERO};
use crate::binary64::decimal::number_text;
use crate::binary64::error::{
    gap, lemma_add_near, lemma_exact_sign, lemma_mul_near, lemma_ratio_times, lemma_sub_near, limit, size,
    smallest, units_in_one, whole,
};
use crate::binary64::facts::lemma_sub_mono;
use crate::binary64::integral::one_units;
use crate::binary64::measure::{
    lemma_exact_of, lemma_exact_order, lemma_range_of_sizes, lemma_whole_constants,
};
use crate::binary64::order::lemma_value_order;
use crate::binary64::{num, B64, UNIT_EXP};
use crate::json::JsonView;
use crate::strategy::exact::{lemma_near_within, product};
use crate::strategy::imbalance::{law_depth_grows_with_size, no_thinner, sized};
use crate::strategy::orders::lemma_tinier;
use crate::strategy::rolling::StatsView;
use crate::strategy::vol_obi::{ask_depth, bid_depth};
use crate::text::{
    lower, next_separator, trimmed, trimmed_end, trimmed_start, upper, upper_char, white_space,
    without_suffixes,
};

use super::binance_alpha::{
    depth_imbalance, equity_ticker, futures_contract, levels_under, listed, message_contract, payload, reading,
    row_levels, slashed, slot_of, stats_received, stream_names, ticker_of, FeedEvent, FeedMove, HubView,
};

verus! {

/// A message with more bid size at the same prices never reads lower, and one
/// with more ask size never reads higher: bids are what stands under `bids`,
/// asks what stands under `asks`.
pub proof fn law_readings_weigh_bids_against_asks(
    less: JsonView,
    more: JsonView,
    bids: Seq<(B64, B64)>,
    more_bids: Seq<(B64, B64)>,
    asks: Seq<(B64, B64)>,
    fewer_asks: Seq<(B64, B64)>,
)
    requires
        levels_under(payload(less), "bids"@) == Some(bids),
        levels_under(payload(more), "bids"@) == Some(more_bids),
        levels_under(payload(less), "asks"@) == Some(asks),
        levels_under(payload(more), "asks"@) == Some(fewer_asks),
        sized(bids) && sized(more_bids) && no_thinner(bids, more_bids),
        sized(asks) && sized(fewer_asks) && no_thinner(fewer_asks, asks),
        reading(less) is Some && !(reading(less)->0).1.nan(),
        reading(more) is Some && !(reading(more)->0).1.nan(),
        !depth_imbalance(more_bids, asks).nan(),
        bids.len() > 0 && asks.len() > 0,
    ensures
        (reading(less)->0).1.le((reading(more)->0).1),
{
    let mid = bids[0].0.add(asks[0].0).mul(num(HALF));
    assert(more_bids[0].0 == bids[0].0);
    assert(fewer_asks[0].0 == asks[0].0);
    let lower = mid.mul(num(ONE).sub(num(P025)));
    let upper = mid.mul(num(ONE).add(num(P025)));
    law_depth_grows_with_size(bids, more_bids, lower);
    law_depth_grows_with_size(fewer_asks, asks, upper);
    lemma_sub_mono(
        bid_depth(bids, lower),
        bid_depth(more_bids, lower),
        ask_depth(fewer_asks, upper),
        ask_depth(asks, upper),
    );
}

proof fn lemma_window_shares()
    ensures
        num(P025).finite(),
        size(1000real * num(P025).exact() - 25real) <= 1real / 1000000000000real,
{
    vstd::arithmetic::power2::lemma2_to64();
    vstd::arithmetic::power2::lemma2_to64_rest();
    lemma_exact_of(P025, 1016, 7205759403792794, 58, 288230376151711744real, 7205759403792794real);
}

/// The edges of the window: 2.5% to both sides of the mid, to a tenth of that.
proof fn lemma_window_edges(bid: B64, ask: B64)
    requires
        bid.finite() && bid.exact() > 0real,
        ask.finite() && ask.exact() > 0real,
        8real * (bid.exact() + ask.exact()) <= limit(),
        bid.exact() + ask.exact() >= 1000000real * smallest(),
    ensures
        ({
            let mid = bid.add(ask).mul(num(HALF));
            let lower = mid.mul(num(ONE).sub(num(P025)));
            let upper = mid.mul(num(ONE).add(num(P025)));
            let sum = bid.exact() + ask.exact();
            &&& lower.finite() && upper.finite()
            &&& 974real * sum <= 2000real * lower.exact() <= 976real * sum
            &&& 1024real * sum <= 2000real * upper.exact() <= 1026real * sum
        }),
{
    let sum = bid.exact() + ask.exact();
    lemma_range_of_sizes();
    lemma_whole_constants();
    lemma_window_shares();
    let s = bid.add(ask);
    lemma_add_near(bid, ask);
    lemma_near_within(s, sum, sum);
    lemma_tinier(sum);
    let (x, h) = (s.exact(), num(HALF).exact());
    assert(2real * (x * h) == x) by (nonlinear_arith)
        requires
            2real * h == 1real,
    ;
    lemma_mul_near(s, num(HALF));
    let mid = s.mul(num(HALF));
    lemma_near_within(mid, x * h, sum);
    let m = mid.exact();
    assert(size(2real * m - sum) <= sum / 100000real);
    let (below, above) = (num(ONE).sub(num(P025)), num(ONE).add(num(P025)));
    lemma_sub_near(num(ONE), num(P025));
    lemma_add_near(num(ONE), num(P025));
    lemma_near_within(below, 1real - num(P025).exact(), 2real);
    lemma_near_within(above, 1real + num(P025).exact(), 2real);
    lemma_tinier(2real);
    crate::strategy::markouts::lemma_smallest_tiny();
    assert(size(1000real * below.exact() - 975real) <= 1real / 100real);
    assert(size(1000real * above.exact() - 1025real) <= 1real / 100real);
    lemma_factor(m, below.exact(), 975real);
    lemma_factor(m, above.exact(), 1025real);
    lemma_mul_near(mid, below);
    lemma_mul_near(mid, above);
    lemma_near_within(mid.mul(below), m * below.exact(), 2real * m);
    lemma_near_within(mid.mul(above), m * above.exact(), 2real * m);
    lemma_tinier(2real * m);
}

proof fn lemma_factor(m: real, f: real, share: real)
    requires
        m >= 0real,
        900real <= share <= 1100real,
        size(1000real * f - share) <= 1real / 100real,
    ensures
        share * m - m / 100real <= 1000real * (m * f) <= share * m + m / 100real,
        0real <= m * f <= 2real * m,
{
    let d = 1000real * f - share;
    assert(1000real * (m * f) == share * m + d * m) by (nonlinear_arith)
        requires
            d == 1000real * f - share,
    ;
    assert(-m / 100real <= d * m <= m / 100real) by (nonlinear_arith)
        requires
            m >= 0real,
            -1real / 100real <= d <= 1real / 100real,
    ;
    assert(900real * m <= share * m <= 1100real * m) by (nonlinear_arith)
        requires
            m >= 0real,
            900real <= share <= 1100real,
    ;
}

/// Levels more than 2.6% away from the middle of the best prices do not count,
/// and a book of one level on each side, both within 2.4%, reads as its bid
/// size less its ask size, up to rounding.
pub proof fn law_readings_count_the_near_levels(
    bids: Seq<(B64, B64)>,
    asks: Seq<(B64, B64)>,
    price: B64,
    quantity: B64,
)
    requires
        bids.len() > 0 && asks.len() > 0,
        bids[0].0.finite() && bids[0].0.exact() > 0real,
        asks[0].0.finite() && asks[0].0.exact() > 0real,
        8real * (bids[0].0.exact() + asks[0].0.exact()) <= limit(),
        bids[0].0.exact() + asks[0].0.exact() >= 1000000real * smallest(),
        price.finite(),
    ensures
        ({
            let sum = bids[0].0.exact() + asks[0].0.exact();
            let (b, a) = (bids[0], asks[0]);
            &&& 2000real * price.exact() < 974real * sum ==> depth_imbalance(bids.push((price, quantity)), asks)
                == depth_imbalance(bids, asks)
            &&& 2000real * price.exact() > 1026real * sum ==> depth_imbalance(bids, asks.push((price, quantity)))
                == depth_imbalance(bids, asks)
            &&& bids.len() == 1 && asks.len() == 1 && 2000real * b.0.exact() > 976real * sum && 2000real
                * a.0.exact() < 1024real * sum && b.1.finite() && a.1.finite() && b.1.ge(num(ZERO)) && a.1.ge(
                num(ZERO),
            ) && size(b.1.exact() - a.1.exact()) <= limit() ==> depth_imbalance(bids, asks).near(
                b.1.exact() - a.1.exact(),
            )
        }),
{
    let (b, a) = (bids[0], asks[0]);
    lemma_window_edges(b.0, a.0);
    let mid = b.0.add(a.0).mul(num(HALF));
    let lower = mid.mul(num(ONE).sub(num(P025)));
    let upper = mid.mul(num(ONE).add(num(P025)));
    lemma_exact_order(price, lower);
    lemma_exact_order(price, upper);
    lemma_exact_order(b.0, lower);
    lemma_exact_order(a.0, upper);
    assert(bids.push((price, quantity)).drop_last() =~= bids);
    assert(asks.push((price, quantity)).drop_last() =~= asks);
    if bids.len() == 1 && asks.len() == 1 && b.1.finite() && a.1.finite() && b.1.ge(num(ZERO)) && a.1.ge(
        num(ZERO),
    ) {
        let none = Seq::<(B64, B64)>::empty();
        assert(bids.drop_last() =~= none);
        assert(asks.drop_last() =~= none);
        assert(bid_depth(none, lower) == num(ZERO) && ask_depth(none, upper) == num(ZERO));
        crate::strategy::markouts::lemma_zero_plus(b.1);
        crate::strategy::markouts::lemma_zero_plus(a.1);
        let (x, y) = (num(ZERO).add(b.1), num(ZERO).add(a.1));
        lemma_same_value(x, b.1);
        lemma_same_value(y, a.1);
        if size(b.1.exact() - a.1.exact()) <= limit() {
            lemma_sub_near(x, y);
        }
    }
}

/// Numbers that are equal have one exact value.
proof fn lemma_same_value(a: B64, b: B64)
    requires
        a.eq_num(b),
        b.finite(),
    ensures
        a.finite(),
        a.exact() == b.exact(),
{
    crate::binary64::facts::lemma_value_range(a);
    crate::binary64::facts::lemma_value_range(b);
    reveal(B64::exact);
}

/// The first text of a row is its price and the second its size; a row without
/// a positive price, or with a negative size, is left out.
pub proof fn law_rows_are_price_and_size(rows: Seq<JsonView>, price: Seq<char>, quantity: Seq<char>, p: B64, q: B64)
    requires
        row_levels(rows) is Some,
        number_text(price) == Some(p),
        number_text(quantity) == Some(q),
    ensures
        ({
            let row = JsonView::Arr(seq![JsonView::Str(price), JsonView::Str(quantity)]);
            &&& p.gt(num(ZERO)) && q.ge(num(ZERO)) ==> row_levels(rows.push(row)) == Some(
                row_levels(rows)->0.push((p, q)),
            )
            &&& !p.gt(num(ZERO)) || !q.ge(num(ZERO)) ==> row_levels(rows.push(row)) == row_levels(rows)
        }),
{
    let row = JsonView::Arr(seq![JsonView::Str(price), JsonView::Str(quantity)]);
    assert(rows.push(row).drop_last() =~= rows);
}

/// A message publishes the alpha of its own market and leaves every other: one
/// sample more, at the present time, and the score of its reading against the
/// readings before it and its own.
pub proof fn law_messages_publish_their_own_market(
    hub: HubView,
    v: JsonView,
    stats: Map<Seq<char>, StatsView>,
    now_ms: u64,
    other: Seq<char>,
)
    requires
        reading(v) is Some,
        other != (reading(v)->0).0,
    ensures
        ({
            let (base, imbalance) = reading(v)->0;
            let after = hub.received(v, stats, now_ms);
            let slot = after.alphas[base];
            let window = stats_received(v, stats)[base];
            &&& after.wanted == hub.wanted
            &&& after.alphas.dom().contains(other) == hub.alphas.dom().contains(other)
            &&& hub.alphas.dom().contains(other) ==> after.alphas[other] == hub.alphas[other]
            &&& after.alphas.dom().contains(base)
            &&& slot.updated_ms == now_ms
            &&& slot_of(hub.alphas, base).samples < u64::MAX ==> slot.samples == slot_of(hub.alphas, base).samples + 1
            &&& window.window.last() == imbalance
            &&& slot.alpha == window.zscore(imbalance)
            &&& stats.dom().contains(other) ==> stats_received(v, stats)[other] == stats[other]
        }),
{
}

/// A message that gives no reading changes nothing.
pub proof fn law_other_messages_change_nothing(
    hub: HubView,
    v: JsonView,
    stats: Map<Seq<char>, StatsView>,
    now_ms: u64,
)
    requires
        reading(v) is None,
    ensures
        hub.received(v, stats, now_ms) == hub,
        stats_received(v, stats) == stats,
{
}

pub proof fn lemma_whole_part(x: B64)
    requires
        x.finite(),
        x.exact() >= 0real,
        x.exact() < 18446744073709551615real,
    ensures
        whole(x.to_u64() as int) <= x.exact() < whole(x.to_u64() as int) + 1real,
{
    reveal(B64::spec_to_u64);
    reveal(B64::exact);
    vstd::arithmetic::power2::lemma_pow2_pos(UNIT_EXP as nat);
    let one = one_units();
    let v = x.value();
    lemma_ratio_times(whole(v), units_in_one());
    let (e, u) = (x.exact(), units_in_one());
    lemma_exact_order(x, num(ZERO));
    lemma_exact_sign(num(ZERO));
    crate::binary64::layout::lemma_units_zero();
    assert(v >= 0);
    let k = v / one;
    vstd::arithmetic::div_mod::lemma_fundamental_div_mod(v, one);
    vstd::arithmetic::div_mod::lemma_mod_bound(v, one);
    assert(one * k <= v < one * k + one);
    assert(one * k + one == one * (k + 1)) by (nonlinear_arith);
    crate::binary64::error::lemma_whole_product(one, k);
    crate::binary64::error::lemma_whole_product(one, k + 1);
    assert(whole(k) <= e) by (nonlinear_arith)
        requires
            e * u == whole(v),
            u * whole(k) <= whole(v),
            u > 0real,
    ;
    assert(e < whole(k + 1)) by (nonlinear_arith)
        requires
            e * u == whole(v),
            whole(v) < u * whole(k + 1),
            u > 0real,
    ;
    assert(k >= 0) by (nonlinear_arith)
        requires
            v >= 0,
            v < one * (k + 1),
            one > 0,
    ;
    assert(whole(k) < 18446744073709551615real);
    assert(k < 18446744073709551615);
}

/// An external alpha of enough samples is read while it is no older than asked,
/// but for two and a half seconds in any case; to the millisecond, and no
/// longer.
pub proof fn law_fresh_alphas_are_read(hub: HubView, symbol: Seq<char>, stale_secs: B64, now_ms: u64)
    requires
        hub.alphas.dom().contains(upper(symbol)),
        hub.alphas[upper(symbol)].updated_ms > 0,
        stale_secs.finite(),
        stale_secs.exact() <= 1000000000real,
    ensures
        ({
            let slot = hub.alphas[upper(symbol)];
            let age = whole(now_ms - slot.updated_ms);
            let asked = 1000real * stale_secs.exact();
            let r = hub.alpha(symbol, stale_secs, now_ms);
            &&& slot.samples < 30 ==> r is None
            &&& slot.samples >= 30 && age <= 2500real ==> r == Some(slot.alpha)
            &&& slot.samples >= 30 && age <= asked - 2real ==> r == Some(slot.alpha)
            &&& age > 2500real && age > asked + 1real ==> r is None
        }),
{
    let secs = stale_secs.max(num(HALF));
    lemma_range_of_sizes();
    lemma_whole_constants();
    lemma_exact_order(stale_secs, num(HALF));
    lemma_value_order(stale_secs, num(HALF));
    let (s, k) = (secs.exact(), num(THOUSAND).exact());
    let y = s * k;
    assert(y == 1000real * s) by (nonlinear_arith)
        requires
            y == s * k,
            k == 1000real,
    ;
    lemma_above_limit();
    lemma_mul_near(secs, num(THOUSAND));
    let ms = secs.mul(num(THOUSAND));
    lemma_near_within(ms, y, 1000000000000real);
    lemma_trillion_gap();
    lemma_whole_part(ms);
}

proof fn lemma_trillion_gap()
    ensures
        product(gap(), 1000000000000real) <= 1real / 1000real,
{
    reveal(product);
}

proof fn lemma_above_limit()
    ensures
        limit() >= 1000000000000real,
{
    vstd::arithmetic::power2::lemma2_to64();
    vstd::arithmetic::power2::lemma2_to64_rest();
    vstd::arithmetic::power2::lemma_pow2_strictly_increases(50, 1023);
}

/// Capital letters alone.
pub open spec fn letters(s: Seq<char>) -> bool {
    forall|i: int| 0 <= i < s.len() ==> 'A' <= #[trigger] s[i] && s[i] <= 'Z'
}

proof fn lemma_no_separator(s: Seq<char>, from: int, end: int)
    requires
        0 <= from <= end <= s.len(),
        forall|i: int| from <= i < end ==> 'A' <= #[trigger] s[i] && s[i] <= 'Z',
        end < s.len() ==> s[end] == '-',
    ensures
        next_separator(s, seq!['/', '-', '_', ':'], from) == end,
    decreases end - from,
{
    let separators = seq!['/', '-', '_', ':'];
    if from < end {
        assert(!separators.contains(s[from]));
        lemma_no_separator(s, from + 1, end);
    } else if end < s.len() {
        assert(separators[1] == s[end]);
    }
}

proof fn lemma_letters_stand(s: Seq<char>)
    requires
        s.len() > 0,
        'A' <= s[0] && s[0] <= 'Z',
        'A' <= s[s.len() - 1] && s[s.len() - 1] <= 'Z',
    ensures
        trimmed(s) == s,
{
    assert(!white_space(s.first()));
    assert(!white_space(s.last()));
    assert(trimmed_start(s) == s);
    assert(trimmed_end(s) == s);
}

/// The contract of a name in capital letters, alone or before a dash and a
/// quote currency, is that name followed by USDT, unless it is an equity.
pub proof fn law_contracts_are_named_after_the_base(base: Seq<char>, quote: Seq<char>)
    requires
        letters(base) && base.len() > 0,
        letters(quote) && quote.len() > 0,
        !equity_ticker(base),
    ensures
        futures_contract(base) == Some(base + "USDT"@),
        futures_contract(base.push('-') + quote) == Some(base + "USDT"@),
{
    lemma_letters_stand(base);
    assert(upper(base) =~= base) by {
        assert forall|i: int| 0 <= i < base.len() implies upper_char(base[i]) == base[i] by {}
    }
    lemma_no_separator(base, 0, base.len() as int);
    assert(base.take(base.len() as int) =~= base);
    assert(ticker_of(base) == base);
    let pair = base.push('-') + quote;
    assert(pair[0] == base[0]);
    assert(pair[pair.len() - 1] == quote[quote.len() - 1]);
    lemma_letters_stand(pair);
    assert(upper(pair) =~= pair) by {
        assert forall|i: int| 0 <= i < pair.len() implies upper_char(pair[i]) == pair[i] by {
            if i < base.len() {
                assert(pair[i] == base[i]);
            } else if i > base.len() {
                assert(pair[i] == quote[i - base.len() - 1]);
            }
        }
    }
    assert forall|i: int| 0 <= i < base.len() implies 'A' <= #[trigger] pair[i] && pair[i] <= 'Z' by {
        assert(pair[i] == base[i]);
    }
    lemma_no_separator(pair, 0, base.len() as int);
    assert(pair.take(base.len() as int) =~= base);
}

/// A watched symbol with a contract has a slot under its name in capitals and is
/// on the list, with a stream of its own; others keep theirs.
pub proof fn law_watched_symbols_get_a_stream(hub: HubView, symbol: Seq<char>)
    requires
        futures_contract(symbol) is Some,
    ensures
        ({
            let after = hub.watching(symbol);
            &&& after.alphas.dom().contains(upper(symbol))
            &&& hub.alphas.dom().contains(upper(symbol)) ==> after.alphas[upper(symbol)] == hub.alphas[upper(symbol)]
            &&& !hub.alphas.dom().contains(upper(symbol)) ==> after.alphas[upper(symbol)].samples == 0
            &&& listed(after.wanted, symbol)
            &&& !listed(hub.wanted, symbol) ==> stream_names(after.wanted) == stream_names(hub.wanted).push(
                lower(futures_contract(symbol)->0) + "@depth20@100ms"@,
            )
            &&& listed(hub.wanted, symbol) ==> after.wanted == hub.wanted
        }),
{
    let after = hub.watching(symbol);
    if !listed(hub.wanted, symbol) {
        assert(after.wanted.drop_last() =~= hub.wanted);
        assert(after.wanted[hub.wanted.len() as int] == symbol);
    }
}

/// Streams are joined by slashes.
pub proof fn law_streams_are_joined_by_slashes(names: Seq<Seq<char>>, name: Seq<char>)
    requires
        names.len() > 0,
    ensures
        slashed(names.push(name)) == slashed(names) + "/"@ + name,
        slashed(seq![name]) == name,
{
    assert(names.push(name).drop_last() =~= names);
}

/// Symbols are watched one after another.
pub proof fn law_all_symbols_are_watched(hub: HubView, symbols: Seq<Seq<char>>, symbol: Seq<char>)
    ensures
        hub.watching_all(symbols.push(symbol)) == hub.watching_all(symbols).watching(symbol),
        hub.watching_all(Seq::empty()) == hub,
        futures_contract(symbol) is None ==> hub.watching(symbol) == hub,
{
    assert(symbols.push(symbol).drop_last() =~= symbols);
}

/// What the feed does next: it connects while something is on the list, reads
/// what comes, answers a ping, and pauses when the connection fails or is lost.
pub proof fn law_feeds_connect_and_read(hub: HubView, text: String)
    ensures
        stream_names(hub.wanted).len() > 0 ==> hub.next_move(FeedEvent::Idle) == FeedMove::Connect,
        stream_names(hub.wanted).len() == 0 ==> hub.next_move(FeedEvent::Idle) == FeedMove::Pause,
        hub.next_move(FeedEvent::Connected) == FeedMove::Read,
        hub.next_move(FeedEvent::Text(text)) == FeedMove::Read,
        hub.next_move(FeedEvent::Ping) == FeedMove::Pong,
        hub.next_move(FeedEvent::ConnectFailed) == FeedMove::Pause,
        hub.next_move(FeedEvent::Lost) == FeedMove::Pause,
{
}

/// The first reading of a market opens a window of 600.
pub proof fn law_windows_hold_six_hundred_readings(v: JsonView, stats: Map<Seq<char>, StatsView>)
    requires
        reading(v) is Some,
        !stats.dom().contains((reading(v)->0).0),
    ensures
        ({
            let window = stats_received(v, stats)[(reading(v)->0).0];
            &&& window.capacity == 600
            &&& window.window == seq![(reading(v)->0).1]
        }),
{
    let window = stats_received(v, stats)[(reading(v)->0).0];
    assert(window.window =~= seq![(reading(v)->0).1]);
}

/// A reading belongs to the market that its message names, without the quote
/// currency.
pub proof fn law_readings_belong_to_their_base(v: JsonView, base: Seq<char>)
    requires
        letters(base) && base.len() > 0,
        base.len() < 4 || base.skip(base.len() - 4) != "USDT"@,
        payload(v).get("s"@) == Some(JsonView::Str(base + "USDT"@)),
        reading(v) is Some,
    ensures
        (reading(v)->0).0 == base,
{
    let name = base + "USDT"@;
    reveal_strlit("USDT");
    assert(upper(name) =~= name) by {
        assert forall|i: int| 0 <= i < name.len() implies upper_char(name[i]) == name[i] by {
            if i < base.len() {
                assert(name[i] == base[i]);
            } else {
                assert(name[i] == "USDT"@[i - base.len()]);
            }
        }
    }
    assert(message_contract(v) == name);
    assert(name.skip(name.len() - 4) =~= "USDT"@);
    assert(name.take(name.len() - 4) =~= base);
    assert(without_suffixes(base, "USDT"@) == base);
    assert(without_suffixes(name, "USDT"@) == base);
}

} // verus!
