//! Which key sets what, and which strategy a configuration or a name leads to.

use vstd::prelude::*;

use crate::binary64::consts::{
    EIGHT, FIFTY, FIVE, FORTY, FOUR, HALF, HUNDRED, ONE, P001, P008, P01, P02, P025, P03, P05, P06, P1, P35,
    P45, P65, P75, SIX, THOUSAND, TWO, ZERO,
};
use crate::binary64::decimal::number_text;
use crate::binary64::error::lemma_count_exact;
use crate::binary64::measure::{lemma_exact_order, lemma_whole_constants};
use crate::binary64::order::lemma_value_order;
use crate::binary64::texts::law_counts_survive_as_numbers;
use crate::binary64::{num, B64};
use crate::hft::universe::automatic;
use crate::settings::{bool_settings, int_settings, looked_up, number_setting, text_settings};
use crate::text::{
    i64_value, lower, lower_char, next_separator, trimmed, trimmed_end, trimmed_start, usize_value,
};

use super::error::ErrorView;
use super::factory::{named_plan, Host, StrategyKeysView};
use super::grid_strategy::{keyword, GridPlan, InventoryMode};
use super::maker_volume::names_market_maker;
use super::market_making::{
    params_fault, AlphaSource, LastQuote, MarketMakingStrategy, MmQuoteParams, QuoteEngine,
};
use super::params::{pairs_from, params_of, with_pair};
use super::plan::PlanView;
use super::Strategy;

verus! {

/// The number under a key, or another.
pub open spec fn number_at(settings: config::Config, key: Seq<char>, otherwise: B64) -> B64 {
    match number_setting(settings, key) {
        Some(x) => x,
        None => otherwise,
    }
}

/// The integer under a key, or another.
pub open spec fn integer_at(settings: config::Config, key: Seq<char>, otherwise: i64) -> i64 {
    match looked_up(int_settings(settings), key) {
        Some(n) => n,
        None => otherwise,
    }
}

/// Each key of the market-making section sets the parameter that it names.
pub proof fn law_maker_keys_set_what_they_name(settings: config::Config, host: Host)
    ensures
        match StrategyKeysView::of(settings).market_maker(host) {
            Ok(mm) => {
                let p = mm.params;
                &&& p.bid_spread == number_at(settings, "trading.strategies.market_making.bid_spread"@, num(P001))
                &&& p.ask_spread == number_at(settings, "trading.strategies.market_making.ask_spread"@, num(P001))
                &&& p.order_notional == number_at(
                    settings,
                    "trading.strategies.market_making.order_notional"@,
                    number_at(settings, "trading.strategies.market_making.order_amount"@, num(FIFTY)),
                )
                &&& p.inventory_skew == number_at(
                    settings,
                    "trading.strategies.market_making.inventory_skew"@,
                    num(HALF),
                )
                &&& p.inventory_target == number_at(
                    settings,
                    "trading.strategies.market_making.inventory_target"@,
                    num(P01),
                )
                &&& p.max_inventory == number_at(
                    settings,
                    "trading.strategies.market_making.max_inventory"@,
                    num(P05),
                )
                &&& p.min_requote_secs == integer_at(
                    settings,
                    "trading.strategies.market_making.min_requote_secs"@,
                    10,
                )
                &&& mm.last_quotes == Map::<Seq<char>, LastQuote>::empty()
                &&& looked_up(text_settings(settings), "trading.strategies.market_making.quote_engine"@) is None
                    ==> mm.engine == QuoteEngine::VolObi
                &&& looked_up(text_settings(settings), "trading.strategies.market_making.inventory_mode"@) is None
                    ==> mm.inventory_mode == InventoryMode::Hard
            },
            Err(_) => true,
        },
{
    lemma_own_keyword();
}

proof fn lemma_own_keyword()
    ensures
        keyword("hard"@) == "hard"@,
        keyword("soft"@) == "soft"@,
        keyword("research_nocap"@) == "research_nocap"@,
        keyword("simple"@) == "simple"@,
        keyword("vol_obi"@) == "vol_obi"@,
        keyword("local"@) == "local"@,
        keyword("binance"@) == "binance"@,
        "hard"@ != "research_nocap"@,
        "soft"@ != "research_nocap"@,
        "hard"@ != "soft"@,
        "vol_obi"@.len() == 7,
        "simple"@.len() == 6,
        "binance"@.len() == 7,
        "local"@.len() == 5,
        ""@.len() == 0,
        "pmm"@.len() == 3,
        "join"@.len() == 4,
        "book"@.len() == 4,
        "none"@.len() == 4,
{
    reveal_strlit("hard");
    reveal_strlit("soft");
    reveal_strlit("research_nocap");
    reveal_strlit("simple");
    reveal_strlit("vol_obi");
    reveal_strlit("local");
    reveal_strlit("binance");
    reveal_strlit("");
    reveal_strlit("pmm");
    reveal_strlit("join");
    reveal_strlit("book");
    reveal_strlit("none");
    lemma_plain("hard"@);
    lemma_plain("soft"@);
    lemma_plain("research_nocap"@);
    lemma_plain("simple"@);
    lemma_plain("vol_obi"@);
    lemma_plain("local"@);
    lemma_plain("binance"@);
    assert("hard"@[0] == 'h' && "soft"@[0] == 's');
}

/// Whether a character is a small letter or an underscore.
pub open spec fn plain_char(c: char) -> bool {
    'a' <= c && c <= 'z' || c == '_'
}

proof fn lemma_plain(s: Seq<char>)
    requires
        s.len() > 0,
        forall|i: int| 0 <= i < s.len() ==> plain_char(#[trigger] s[i]),
    ensures
        keyword(s) == s,
        trimmed(s) == s,
{
    assert(plain_char(s[0]) && plain_char(s[s.len() - 1]));
    assert(s.first() == s[0]);
    assert(trimmed_start(s) == s);
    assert(trimmed_end(s) == s);
    assert(lower(s) =~= s) by {
        assert forall|i: int| 0 <= i < s.len() implies lower_char(s[i]) == s[i] by {
            assert(plain_char(s[i]));
        }
    }
}

/// A mode, an engine or an alpha is the one of its name.
pub proof fn law_names_lead_to_what_they_name()
    ensures
        InventoryMode::parsed("hard"@, false) == Ok::<_, ErrorView>(InventoryMode::Hard),
        InventoryMode::parsed("soft"@, false) == Ok::<_, ErrorView>(InventoryMode::Soft),
        InventoryMode::parsed("research_nocap"@, true) == Ok::<_, ErrorView>(InventoryMode::ResearchNoCap),
        InventoryMode::parsed("research_nocap"@, false) == Err::<InventoryMode, _>(ErrorView::ResearchModeLocked),
        QuoteEngine::parsed("simple"@) == Ok::<_, ErrorView>(QuoteEngine::Simple),
        QuoteEngine::parsed("vol_obi"@) == Ok::<_, ErrorView>(QuoteEngine::VolObi),
        AlphaSource::parsed("local"@) == Ok::<_, ErrorView>(AlphaSource::Local),
        AlphaSource::parsed("binance"@) == Ok::<_, ErrorView>(AlphaSource::Binance),
{
    lemma_own_keyword();
    reveal_strlit("simple");
    reveal_strlit("vol_obi");
}

/// Each key of the volatility section sets the setting that it names.
pub proof fn law_volatility_keys_set_what_they_name(settings: config::Config)
    ensures
        ({
            let v = StrategyKeysView::of(settings).mm.vol_settings();
            let c = v.vol_obi;
            let steps = looked_up(int_settings(settings), "trading.strategies.market_making.vol_obi.step_ns"@);
            let warm = looked_up(
                int_settings(settings),
                "trading.strategies.market_making.vol_obi.min_warmup_samples"@,
            );
            &&& v.alpha_stale_secs == number_at(
                settings,
                "trading.strategies.market_making.alpha_stale_secs"@,
                num(FIVE),
            )
            &&& v.quality_multiplier == num(ONE)
            &&& c.vol_to_half_spread == number_at(
                settings,
                "trading.strategies.market_making.vol_obi.vol_to_half_spread"@,
                num(SIX),
            )
            &&& c.min_half_spread_bps == number_at(
                settings,
                "trading.strategies.market_making.vol_obi.min_half_spread_bps"@,
                num(TWO),
            )
            &&& c.c1_ticks == number_at(settings, "trading.strategies.market_making.vol_obi.c1_ticks"@, num(FORTY))
            &&& c.c1 == num(ZERO)
            &&& c.skew == number_at(settings, "trading.strategies.market_making.vol_obi.skew"@, num(P1))
            &&& c.looking_depth == number_at(
                settings,
                "trading.strategies.market_making.vol_obi.looking_depth"@,
                num(P025),
            )
            &&& steps is Some && steps->0 >= 1 ==> c.step_ns == steps->0
            &&& steps is None ==> c.step_ns == 100_000_000
            &&& c.step_ns >= 1
            &&& warm is Some && warm->0 >= 1 ==> c.min_warmup_samples == warm->0
            &&& warm is None ==> c.min_warmup_samples == 100
            &&& c.min_warmup_samples >= 1
            &&& number_setting(settings, "trading.strategies.market_making.vol_obi.window_steps"@) is None
                ==> c.window_steps == 6000
        }),
{
}

/// Each key of the trend section sets the setting that it names.
pub proof fn law_trend_keys_set_what_they_name(settings: config::Config)
    ensures
        ({
            let t = StrategyKeysView::of(settings).trend_plan();
            &&& t.fast_ma == integer_at(settings, "trading.strategies.trend_following.fast_ma"@, 10) as usize
            &&& t.slow_ma == integer_at(settings, "trading.strategies.trend_following.slow_ma"@, 30) as usize
            &&& t.stop_loss == number_at(settings, "trading.strategies.trend_following.stop_loss"@, num(P05))
            &&& t.take_profit == number_at(settings, "trading.strategies.trend_following.take_profit"@, num(P1))
            &&& t.trailing_stop == number_at(
                settings,
                "trading.strategies.trend_following.trailing_stop"@,
                num(ZERO),
            )
            &&& t.notional == number_at(settings, "trading.strategies.trend_following.notional"@, num(THOUSAND))
            &&& t.adx_threshold == number_at(
                settings,
                "trading.strategies.trend_following.adx_threshold"@,
                num(ZERO),
            )
            &&& t.adx_period == integer_at(settings, "trading.strategies.trend_following.adx_period"@, 14) as usize
            &&& t.confirm_slope_min == number_at(
                settings,
                "trading.strategies.trend_following.confirm_slope_min"@,
                num(ZERO),
            )
            &&& looked_up(int_settings(settings), "trading.strategies.trend_following.confirm_lookback"@) is None
                ==> t.confirm_lookback >= 1 && (t.slow_ma >= 2 ==> t.confirm_lookback == t.slow_ma / 2)
        }),
{
}

/// Each key of the grid section sets the setting that it names.
pub proof fn law_grid_keys_set_what_they_name(settings: config::Config)
    ensures
        match StrategyKeysView::of(settings).grid_plan() {
            Ok(g) => {
                &&& g.grid_count == integer_at(settings, "trading.strategies.grid_trading.grid_count"@, 10) as usize
                &&& g.investment == number_at(
                    settings,
                    "trading.strategies.grid_trading.investment_per_grid"@,
                    num(HUNDRED),
                )
                &&& g.deviation == number_at(
                    settings,
                    "trading.strategies.grid_trading.price_deviation"@,
                    num(P02),
                )
                &&& g.soft_cap == number_setting(settings, "trading.strategies.grid_trading.soft_cap_grids"@)
                &&& g.hard_cap == number_setting(settings, "trading.strategies.grid_trading.hard_cap_grids"@)
                &&& g.mode == InventoryMode::Soft && g.soft_cap is Some && g.hard_cap is Some ==> g.hard_cap->0.gt(
                    g.soft_cap->0,
                )
            },
            Err(_) => true,
        },
{
}

/// The grid goes before the trend, the trend before the maker, and with none
/// enabled it is a plain grid of ten.
pub proof fn law_sections_have_an_order(settings: config::Config, host: Host)
    ensures
        ({
            let flags = bool_settings(settings);
            let grid = looked_up(flags, "trading.strategies.grid_trading.enabled"@) == Some(true);
            let trend = looked_up(flags, "trading.strategies.trend_following.enabled"@) == Some(true);
            let maker = looked_up(flags, "trading.strategies.market_making.enabled"@) == Some(true);
            match StrategyKeysView::of(settings).plan(host) {
                Ok(plan) => {
                    &&& grid ==> plan is Grid
                    &&& !grid && trend ==> plan is Trend || plan is SplitBook
                    &&& !grid && !trend && maker ==> plan is MarketMaking
                    &&& !grid && !trend && !maker ==> plan == PlanView::Grid(
                        GridPlan {
                            grid_count: 10,
                            investment: num(HUNDRED),
                            deviation: num(P02),
                            mode: InventoryMode::Hard,
                            soft_cap: None,
                            hard_cap: None,
                        },
                    )
                },
                Err(_) => grid || trend || maker,
            }
        }),
{
}

/// A maker is refused for a negative spread, an order worth nothing or a
/// negative skew, and for nothing else in its parameters.
pub proof fn law_makers_are_refused_for_bad_parameters(params: MmQuoteParams)
    ensures
        params.bid_spread.lt(num(ZERO)) || params.ask_spread.lt(num(ZERO)) ==> params_fault(params) == Some(
            ErrorView::NegativeSpread,
        ),
        params.bid_spread.ge(num(ZERO)) && params.ask_spread.ge(num(ZERO)) && params.order_notional.le(num(ZERO))
            ==> params_fault(params) == Some(ErrorView::NotionalNotPositive),
        params.bid_spread.ge(num(ZERO)) && params.ask_spread.ge(num(ZERO)) && params.order_notional.gt(num(ZERO))
            && params.inventory_skew.lt(num(ZERO)) ==> params_fault(params) == Some(ErrorView::NegativeSkew),
        params.bid_spread.ge(num(ZERO)) && params.ask_spread.ge(num(ZERO)) && params.order_notional.gt(num(ZERO))
            && params.inventory_skew.ge(num(ZERO)) ==> params_fault(params) is None,
{
}

/// The number that a parameter reads as, or another.
pub open spec fn number_of(kv: Map<Seq<char>, Seq<char>>, key: Seq<char>, otherwise: B64) -> B64 {
    if kv.dom().contains(key) && number_text(kv[key]) is Some {
        number_text(kv[key])->0
    } else {
        otherwise
    }
}

/// The count that a parameter reads as, or another.
pub open spec fn count_of(kv: Map<Seq<char>, Seq<char>>, key: Seq<char>, otherwise: usize) -> usize {
    if kv.dom().contains(key) && usize_value(kv[key]) is Some {
        usize_value(kv[key])->0
    } else {
        otherwise
    }
}

/// The parameters of a trend or of cost averaging set what they name.
pub proof fn law_trend_parameters_set_what_they_name(kv: Map<Seq<char>, Seq<char>>, host: Host)
    ensures
        match named_plan("trend"@, kv, None, host) {
            Ok(PlanView::Trend(t)) => {
                &&& t.fast_ma == count_of(kv, "fast_ma"@, 7)
                &&& t.slow_ma == count_of(kv, "slow_ma"@, 21)
                &&& t.stop_loss == number_of(kv, "stop_loss"@, num(P03))
                &&& t.take_profit == number_of(kv, "take_profit"@, num(P06))
                &&& t.trailing_stop == number_of(kv, "trailing_stop"@, num(ZERO))
                &&& t.notional == number_of(kv, "notional"@, num(THOUSAND))
                &&& t.adx_threshold == number_of(kv, "adx_threshold"@, num(ZERO))
                &&& t.adx_period == count_of(kv, "adx_period"@, 14)
                &&& t.confirm_slope_min == number_of(kv, "confirm_slope_min"@, num(ZERO))
                &&& kv.dom().contains("confirm_lookback"@) ==> t.confirm_lookback == count_of(
                    kv,
                    "confirm_lookback"@,
                    if t.slow_ma / 2 >= 1 { (t.slow_ma / 2) as usize } else { 1 },
                )
            },
            _ => false,
        },
        match named_plan("dca"@, kv, None, host) {
            Ok(PlanView::Dca(d)) => {
                &&& d.interval == number_of(kv, "interval"@, num(FOUR))
                &&& d.amount == number_of(kv, "amount"@, num(FIVE))
                &&& d.dip_threshold == number_of(kv, "dip_threshold"@, num(TWO))
            },
            _ => false,
        },
{
    reveal_strlit("grid_trading");
    reveal_strlit("grid");
    reveal_strlit("trend_following");
    reveal_strlit("trend");
    reveal_strlit("dca");
    assert("grid"@[0] == 'g' && "grid_trading"@[0] == 'g' && "trend"@[0] == 't' && "trend_following"@[0] == 't'
        && "dca"@[0] == 'd');
}

/// The parameters of a maker set what they name.
pub proof fn law_maker_parameters_set_what_they_name(kv: Map<Seq<char>, Seq<char>>, host: Host)
    ensures
        match super::factory::mm_from_params(kv, host) {
            Ok(mm) => {
                let p = mm.params;
                &&& p.bid_spread == number_of(kv, "bid_spread"@, num(P001))
                &&& p.ask_spread == number_of(kv, "ask_spread"@, num(P001))
                &&& kv.dom().contains("order_notional"@) ==> p.order_notional == number_of(
                    kv,
                    "order_notional"@,
                    num(FIFTY),
                )
                &&& !kv.dom().contains("order_notional"@) ==> p.order_notional == number_of(
                    kv,
                    "order_amount"@,
                    num(FIFTY),
                )
                &&& p.inventory_skew == number_of(kv, "inventory_skew"@, num(HALF))
                &&& p.inventory_target == number_of(kv, "inventory_target"@, num(P01))
                &&& p.max_inventory == number_of(kv, "max_inventory"@, num(P05))
                &&& kv.dom().contains("min_requote_secs"@) && i64_value(kv["min_requote_secs"@]) is Some
                    ==> p.min_requote_secs == i64_value(kv["min_requote_secs"@])->0
                &&& !kv.dom().contains("min_requote_secs"@) ==> p.min_requote_secs == 10
                &&& mm.vol_settings.vol_obi.min_half_spread_bps == number_of(kv, "min_half_spread_bps"@, num(TWO))
                &&& mm.vol_settings.vol_obi.vol_to_half_spread == number_of(kv, "vol_to_half_spread"@, num(SIX))
                &&& mm.engine == QuoteEngine::Simple ==> mm.vol_settings.alpha_source == AlphaSource::Local
                &&& mm.gates is None
            },
            Err(_) => true,
        },
{
}

/// The parameters of a grid set what they name.
pub proof fn law_grid_parameters_set_what_they_name(kv: Map<Seq<char>, Seq<char>>, host: Host)
    ensures
        match super::factory::grid_from_params(kv, host) {
            Ok(g) => {
                &&& g.grid_count == count_of(kv, "grid_count"@, 10)
                &&& kv.dom().contains("investment_per_grid"@) ==> g.investment == number_of(
                    kv,
                    "investment_per_grid"@,
                    num(EIGHT),
                )
                &&& !kv.dom().contains("investment_per_grid"@) ==> g.investment == number_of(
                    kv,
                    "investment"@,
                    num(EIGHT),
                )
                &&& kv.dom().contains("price_deviation"@) ==> g.deviation == number_of(
                    kv,
                    "price_deviation"@,
                    num(P008),
                )
                &&& !kv.dom().contains("price_deviation"@) ==> g.deviation == number_of(
                    kv,
                    "deviation"@,
                    num(P008),
                )
                &&& kv.dom().contains("soft_cap"@) ==> g.soft_cap == number_text(kv["soft_cap"@]) && g.soft_cap is Some
                &&& kv.dom().contains("hard_cap"@) ==> g.hard_cap == number_text(kv["hard_cap"@]) && g.hard_cap is Some
            },
            Err(_) => true,
        },
{
}

/// Whether a text is free of a character.
pub open spec fn free_of(s: Seq<char>, c: char) -> bool {
    forall|i: int| 0 <= i < s.len() ==> #[trigger] s[i] != c
}

proof fn lemma_separator(s: Seq<char>, c: char, from: int)
    requires
        0 <= from <= s.len(),
    ensures
        from <= next_separator(s, seq![c], from) <= s.len(),
        forall|i: int| from <= i < next_separator(s, seq![c], from) ==> #[trigger] s[i] != c,
        next_separator(s, seq![c], from) < s.len() ==> s[next_separator(s, seq![c], from)] == c,
    decreases s.len() - from,
{
    let one = seq![c];
    if from < s.len() {
        if one.contains(s[from]) {
            assert(s[from] == c);
        } else {
            assert(one[0] == c);
            lemma_separator(s, c, from + 1);
        }
    }
}

proof fn lemma_separator_at(s: Seq<char>, c: char, from: int, end: int)
    requires
        0 <= from <= end <= s.len(),
        forall|i: int| from <= i < end ==> #[trigger] s[i] != c,
        end < s.len() ==> s[end] == c,
    ensures
        next_separator(s, seq![c], from) == end,
{
    lemma_separator(s, c, from);
    let found = next_separator(s, seq![c], from);
    if found < end {
        assert(s[found] != c);
    } else if end < found {
        assert(s[end] != c);
    }
}

proof fn lemma_one_more_pair(s: Seq<char>, piece: Seq<char>, start: int, m: Map<Seq<char>, Seq<char>>)
    requires
        0 <= start <= s.len(),
        free_of(piece, ','),
    ensures
        pairs_from(s.push(',') + piece, start, m) == with_pair(pairs_from(s, start, m), piece),
    decreases s.len() - start,
{
    let all = s.push(',') + piece;
    lemma_separator(s, ',', start);
    let end = next_separator(s, seq![','], start);
    assert forall|i: int| start <= i < end implies #[trigger] all[i] != ',' by {
        assert(all[i] == s[i]);
    }
    assert(all[s.len() as int] == ',');
    if end < s.len() {
        assert(all[end] == s[end]);
        lemma_separator_at(all, ',', start, end);
        assert(all.subrange(start, end) =~= s.subrange(start, end));
        lemma_one_more_pair(s, piece, end + 1, with_pair(m, s.subrange(start, end)));
    } else {
        lemma_separator_at(all, ',', start, s.len() as int);
        assert(all.subrange(start, s.len() as int) =~= s.subrange(start, s.len() as int));
        let next = s.len() as int + 1;
        assert forall|i: int| next <= i < all.len() implies #[trigger] all[i] != ',' by {
            assert(all[i] == piece[i - next]);
        }
        lemma_separator_at(all, ',', next, all.len() as int);
        assert(all.subrange(next, all.len() as int) =~= piece);
        let before = with_pair(m, s.subrange(start, s.len() as int));
        assert(pairs_from(s, start, m) == before);
        assert(pairs_from(all, next, before) == with_pair(before, piece));
        assert(pairs_from(all, start, m) == pairs_from(all, next, before));
    }
}

/// One more pair in a list sets its key, over an earlier value, and leaves
/// every other key as it was.
pub proof fn law_pairs_are_read_in_order(list: Seq<char>, key: Seq<char>, value: Seq<char>, other: Seq<char>)
    requires
        free_of(key, ',') && free_of(key, '='),
        free_of(value, ','),
        other != trimmed(key),
    ensures
        ({
            let longer = params_of(list.push(',') + (key.push('=') + value));
            &&& looked_up(longer, trimmed(key)) == Some(trimmed(value))
            &&& looked_up(longer, other) == looked_up(params_of(list), other)
        }),
{
    let piece = key.push('=') + value;
    assert(free_of(piece, ',')) by {
        assert forall|i: int| 0 <= i < piece.len() implies #[trigger] piece[i] != ',' by {
            if i < key.len() {
                assert(piece[i] == key[i]);
            } else if i > key.len() {
                assert(piece[i] == value[i - key.len() - 1]);
            }
        }
    }
    lemma_one_more_pair(list, piece, 0, Map::empty());
    assert forall|i: int| 0 <= i < key.len() implies #[trigger] piece[i] != '=' by {
        assert(piece[i] == key[i]);
    }
    lemma_separator_at(piece, '=', 0, key.len() as int);
    assert(piece.subrange(0, key.len() as int) =~= key);
    assert(piece.subrange(key.len() as int + 1, piece.len() as int) =~= value);
}

/// The first pair of a list sets its key, and a piece without an equals sign
/// sets nothing.
pub proof fn law_pieces_without_a_value_are_skipped(
    list: Seq<char>,
    word: Seq<char>,
    key: Seq<char>,
    value: Seq<char>,
)
    requires
        free_of(word, ',') && free_of(word, '='),
        free_of(key, ',') && free_of(key, '='),
        free_of(value, ','),
    ensures
        params_of(list.push(',') + word) == params_of(list),
        looked_up(params_of(key.push('=') + value), trimmed(key)) == Some(trimmed(value)),
        params_of(word) == Map::<Seq<char>, Seq<char>>::empty(),
{
    lemma_one_more_pair(list, word, 0, Map::empty());
    lemma_separator_at(word, '=', 0, word.len() as int);
    lemma_separator_at(word, ',', 0, word.len() as int);
    assert(word.subrange(0, word.len() as int) =~= word);
    let piece = key.push('=') + value;
    assert forall|i: int| 0 <= i < piece.len() implies #[trigger] piece[i] != ',' by {
        if i < key.len() {
            assert(piece[i] == key[i]);
        } else if i > key.len() {
            assert(piece[i] == value[i - key.len() - 1]);
        }
    }
    lemma_separator_at(piece, ',', 0, piece.len() as int);
    assert(piece.subrange(0, piece.len() as int) =~= piece);
    assert forall|i: int| 0 <= i < key.len() implies #[trigger] piece[i] != '=' by {
        assert(piece[i] == key[i]);
    }
    lemma_separator_at(piece, '=', 0, key.len() as int);
    assert(piece.subrange(0, key.len() as int) =~= key);
    assert(piece.subrange(key.len() as int + 1, piece.len() as int) =~= value);
}

/// A soft grid with both caps needs the hard one above the soft one; any other
/// grid is as it was asked for.
pub proof fn law_soft_grids_need_ordered_caps(
    grid_count: usize,
    investment: B64,
    deviation: B64,
    mode: InventoryMode,
    soft: B64,
    hard: B64,
)
    ensures
        !hard.gt(soft) ==> GridPlan::planned(
            grid_count,
            investment,
            deviation,
            InventoryMode::Soft,
            Some(soft),
            Some(hard),
        ) == Err::<GridPlan, _>(ErrorView::CapsOutOfOrder),
        hard.gt(soft) || mode != InventoryMode::Soft ==> GridPlan::planned(
            grid_count,
            investment,
            deviation,
            mode,
            Some(soft),
            Some(hard),
        ) == Ok::<_, ErrorView>(
            GridPlan { grid_count, investment, deviation, mode, soft_cap: Some(soft), hard_cap: Some(hard) },
        ),
        GridPlan::planned(grid_count, investment, deviation, mode, None, None) == Ok::<_, ErrorView>(
            GridPlan { grid_count, investment, deviation, mode, soft_cap: None, hard_cap: None },
        ),
{
}

/// The overlay of a trend quotes with the maker's own parameters, on the simple
/// engine unless it is told another, and with a local alpha there.
pub proof fn law_overlays_quote_like_the_maker(settings: config::Config, host: Host)
    ensures
        ({
            let keys = StrategyKeysView::of(settings);
            match (keys.overlay(host), keys.market_maker(host)) {
                (Ok(overlay), Ok(maker)) => {
                    &&& overlay.params == maker.params
                    &&& overlay.inventory_mode == maker.inventory_mode
                    &&& overlay.gates == Some(keys.gates.gates())
                    &&& looked_up(text_settings(settings), "trading.strategies.maker_volume.quote_engine"@) is None
                        ==> overlay.engine == QuoteEngine::Simple
                    &&& overlay.engine == QuoteEngine::Simple ==> overlay.vol_settings.alpha_source
                        == AlphaSource::Local && overlay.binance is None
                },
                (Err(e), Err(f)) => e == f,
                _ => false,
            }
        }),
{
}

/// A reset maker has quoted nothing and has no calculators; one whose fills are
/// cleared has quoted nothing and keeps its calculators. Both keep their setup.
pub proof fn law_resets_forget_the_quotes(before: MarketMakingStrategy, after: MarketMakingStrategy)
    ensures
        MarketMakingStrategy::was_reset(before, after) ==> after@.last_quotes.dom() == Set::<Seq<char>>::empty()
            && after@.vol_engines.dom() == Set::<Seq<char>>::empty() && after@.same_setup(before@),
        MarketMakingStrategy::was_cleared(before, after) ==> after@.last_quotes.dom() == Set::<Seq<char>>::empty()
            && after@.vol_engines == before@.vol_engines && after@.markouts == before@.markouts && after@.same_setup(
            before@,
        ),
{
}

/// Whether a text is a word of small letters, underscores and dashes.
pub open spec fn plain_word(s: Seq<char>) -> bool {
    s.len() > 0 && plain_char(s[0]) && plain_char(s[s.len() - 1]) && forall|i: int|
        0 <= i < s.len() ==> plain_char(#[trigger] s[i]) || s[i] == '-'
}

proof fn lemma_plain_word(s: Seq<char>)
    requires
        plain_word(s),
    ensures
        keyword(s) == s,
        lower(s) == s,
{
    assert(s.first() == s[0]);
    assert(trimmed_start(s) == s);
    assert(trimmed_end(s) == s);
    assert(lower(s) =~= s) by {
        assert forall|i: int| 0 <= i < s.len() implies lower_char(s[i]) == s[i] by {
            assert(plain_char(s[i]) || s[i] == '-');
        }
    }
}

/// The other names of the engines and of the local alpha; any other word is
/// refused by its name.
pub proof fn law_other_names_are_known(word: Seq<char>)
    requires
        plain_word(word),
    ensures
        word == "pmm"@ || word == "join"@ ==> QuoteEngine::parsed(word) == Ok::<_, ErrorView>(QuoteEngine::Simple),
        word == "vol-obi"@ || word == "djienne"@ || word == "obi"@ ==> QuoteEngine::parsed(word) == Ok::<
            _,
            ErrorView,
        >(QuoteEngine::VolObi),
        word == "book"@ || word == "none"@ ==> AlphaSource::parsed(word) == Ok::<_, ErrorView>(AlphaSource::Local),
        word.len() > 14 ==> QuoteEngine::parsed(word) == Err::<QuoteEngine, _>(ErrorView::UnknownQuoteEngine(word)),
        word.len() > 14 ==> AlphaSource::parsed(word) == Err::<AlphaSource, _>(ErrorView::UnknownAlphaSource(word)),
        word.len() > 14 ==> InventoryMode::parsed(word, true) == Err::<InventoryMode, _>(
            ErrorView::UnknownInventoryMode(word),
        ),
        names_market_maker(word) <==> word == "market_making"@ || word == "mm"@,
        automatic(word) <==> word == "auto"@ || word == "all"@,
{
    lemma_plain_word(word);
    reveal_strlit("");
    reveal_strlit("simple");
    reveal_strlit("pmm");
    reveal_strlit("join");
    reveal_strlit("vol_obi");
    reveal_strlit("vol-obi");
    reveal_strlit("djienne");
    reveal_strlit("obi");
    reveal_strlit("local");
    reveal_strlit("book");
    reveal_strlit("none");
    reveal_strlit("binance");
    reveal_strlit("hard");
    reveal_strlit("soft");
    reveal_strlit("research_nocap");
    reveal_strlit("market_making");
    reveal_strlit("mm");
    lemma_plain_word("market_making"@);
    lemma_plain_word("mm"@);
    assert("pmm"@[0] == 'p' && "join"@[0] == 'j' && "obi"@[0] == 'o' && "book"@[0] == 'b' && "none"@[0] == 'n');
    assert("vol-obi"@[3] == '-' && "vol_obi"@[3] == '_' && "djienne"@[0] == 'd');
}

/// The exit bias of a maker is on by default, from a twentieth of the limit,
/// tightening by 0.45 and widening by 0.75 per share held, up to 0.35 and 0.65,
/// with a boost of 0.03 per basis point.
pub proof fn law_makers_have_an_exit_bias(settings: config::Config)
    ensures
        ({
            let b = StrategyKeysView::of(settings).mm.vol_settings().inventory_exit;
            &&& b.enabled
            &&& b.min_ratio == num(P05)
            &&& b.exit_tighten_per_ratio == num(P45)
            &&& b.add_widen_per_ratio == num(P75)
            &&& b.max_exit_tighten == num(P35)
            &&& b.max_add_widen == num(P65)
            &&& b.adverse_boost_per_bps == num(P03)
        }),
{
}

/// A window of so many steps is that long, and of at least two.
pub proof fn law_windows_are_as_long_as_asked(settings: config::Config, steps: u32)
    requires
        steps >= 2,
        number_setting(settings, "trading.strategies.market_making.vol_obi.window_steps"@) == Some(
            B64::from_u64(steps as u64),
        ),
    ensures
        StrategyKeysView::of(settings).mm.vol_settings().vol_obi.window_steps == steps,
{
    let x = B64::from_u64(steps as u64);
    lemma_count_exact(steps as u64);
    lemma_whole_constants();
    lemma_exact_order(x, num(TWO));
    lemma_value_order(x, num(TWO));
    law_counts_survive_as_numbers(steps as u64);
}

} // verus!
