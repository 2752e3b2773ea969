//! Which markets are watched and which are quoted.

use vstd::prelude::*;

use crate::binary64::consts::{P01, TEN_THOUSAND, TWENTY_FIVE, TWO, ZERO};
use crate::binary64::{num, B64};
use crate::clock::{instant_of_millis, utc_from_millis, wall_millis, wall_millis_of, Span, Timestamp, MAX_SECS};
use crate::lighter::types::{BookView, MarketInfo, OrderBook, PriceLevel};
use crate::strategy::grid_strategy::{keyword, keyword_is, keyword_of};
use crate::text::{copy_text, lower, same_ignoring_case};

use super::book_continuity::BookHealth;
use super::rate_budget::StandardRateBudget;

verus! {

/// The best prices and sizes of a market.
#[derive(Debug)]
pub struct BboUpdate {
    pub market_id: u32,
    pub symbol: String,
    pub nonce: u64,
    pub exchange_timestamp_ms: u64,
    pub bid_price: B64,
    pub bid_size: B64,
    pub ask_price: B64,
    pub ask_size: B64,
}

/// What the selector needs of one discovered market.
#[derive(Debug)]
pub struct UniverseMarket {
    pub market_id: u32,
    pub symbol: String,
    pub market_type: String,
    pub bid_price: B64,
    pub ask_price: B64,
    pub bid_size: B64,
    pub ask_size: B64,
    pub book_health: BookHealth,
}

pub struct BboView {
    pub market_id: u32,
    pub symbol: Seq<char>,
    pub nonce: u64,
    pub exchange_timestamp_ms: u64,
    pub bid_price: B64,
    pub bid_size: B64,
    pub ask_price: B64,
    pub ask_size: B64,
}

pub struct UniverseView {
    pub market_id: u32,
    pub symbol: Seq<char>,
    pub market_type: Seq<char>,
    pub bid_price: B64,
    pub ask_price: B64,
    pub bid_size: B64,
    pub ask_size: B64,
    pub book_health: BookHealth,
}

impl View for BboUpdate {
    type V = BboView;

    open spec fn view(&self) -> BboView {
        BboView {
            market_id: self.market_id,
            symbol: self.symbol@,
            nonce: self.nonce,
            exchange_timestamp_ms: self.exchange_timestamp_ms,
            bid_price: self.bid_price,
            bid_size: self.bid_size,
            ask_price: self.ask_price,
            ask_size: self.ask_size,
        }
    }
}

impl View for UniverseMarket {
    type V = UniverseView;

    open spec fn view(&self) -> UniverseView {
        UniverseView {
            market_id: self.market_id,
            symbol: self.symbol@,
            market_type: self.market_type@,
            bid_price: self.bid_price,
            ask_price: self.ask_price,
            bid_size: self.bid_size,
            ask_size: self.ask_size,
            book_health: self.book_health,
        }
    }
}

/// What several markets are.
pub open spec fn market_views(v: Seq<UniverseMarket>) -> Seq<UniverseView> {
    Seq::new(v.len(), |i: int| v[i]@)
}

/// The first update of a market.
pub open spec fn bbo_of(bbos: Seq<(u32, BboUpdate)>, market_id: u32) -> Option<BboView>
    decreases bbos.len(),
{
    if bbos.len() == 0 {
        None
    } else if bbos.first().0 == market_id {
        Some(bbos.first().1@)
    } else {
        bbo_of(bbos.drop_first(), market_id)
    }
}

impl UniverseView {
    /// A market of the catalog with its update; without one its book is not
    /// there yet.
    pub open spec fn joined(info: MarketInfo, bbo: Option<BboView>) -> UniverseView {
        UniverseView {
            market_id: info.market_id,
            symbol: info.symbol@,
            market_type: info.market_type@,
            bid_price: match bbo {
                Some(b) => b.bid_price,
                None => num(ZERO),
            },
            ask_price: match bbo {
                Some(b) => b.ask_price,
                None => num(ZERO),
            },
            bid_size: match bbo {
                Some(b) => b.bid_size,
                None => num(ZERO),
            },
            ask_size: match bbo {
                Some(b) => b.ask_size,
                None => num(ZERO),
            },
            book_health: match bbo {
                Some(_) => BookHealth::Live,
                None => BookHealth::Syncing,
            },
        }
    }

    /// The mid of an uncrossed book of positive finite prices.
    pub open spec fn mid(self) -> Option<B64> {
        let mid = self.bid_price.add(self.ask_price).div(num(TWO));
        if !self.bid_price.is_finite() || !self.ask_price.is_finite() || self.bid_price.le(num(ZERO))
            || self.ask_price.le(num(ZERO)) || self.ask_price.lt(self.bid_price) {
            None
        } else if mid.gt(num(ZERO)) {
            Some(mid)
        } else {
            None
        }
    }

    /// The spread in basis points of the mid.
    pub open spec fn spread_bps(self) -> Option<B64> {
        match self.mid() {
            Some(mid) => Some(self.ask_price.sub(self.bid_price).div(mid).mul(num(TEN_THOUSAND))),
            None => None,
        }
    }

    pub open spec fn is_perp(self) -> bool {
        lower(self.market_type) == lower("perp"@)
    }

    /// A live perpetual whose sizes and spread are within the limits.
    pub open spec fn qualifies(self, params: UniverseSelectParams) -> bool {
        &&& self.is_perp()
        &&& self.book_health == BookHealth::Live
        &&& self.mid() is Some
        &&& !self.bid_size.lt(params.min_size)
        &&& !self.ask_size.lt(params.min_size)
        &&& self.spread_bps()->0.le(params.max_spread_bps)
        &&& self.spread_bps()->0.ge(params.min_spread_bps)
    }

    /// The size that both sides have.
    pub open spec fn depth(self) -> B64 {
        self.bid_size.min(self.ask_size)
    }

    pub open spec fn spread_rank(self, prefer_wider: bool) -> int {
        let rank = self.spread_bps()->0.total_rank();
        if prefer_wider {
            -rank
        } else {
            rank
        }
    }

    /// Whether this market ranks strictly before another: by spread, then the
    /// deeper one, then the smaller id.
    pub open spec fn before(self, other: UniverseView, prefer_wider: bool) -> bool {
        let a = self.spread_rank(prefer_wider);
        let b = other.spread_rank(prefer_wider);
        let x = self.depth().total_rank();
        let y = other.depth().total_rank();
        a < b || (a == b && (x > y || (x == y && self.market_id < other.market_id)))
    }
}

/// The limits that a quoted market keeps.
#[derive(Debug, Clone, Copy, PartialEq, Eq, Structural)]
pub struct UniverseSelectParams {
    pub max_spread_bps: B64,
    pub min_spread_bps: B64,
    pub min_size: B64,
    /// Ranks wider spreads first, for better maker fills.
    pub prefer_wider_spreads: bool,
    /// How often both sides of a quoted market are replaced.
    pub refresh_interval: Span,
    /// Trading requests per refresh.
    pub actions_per_refresh: u32,
}

impl Default for UniverseSelectParams {
    fn default() -> (r: UniverseSelectParams)
        ensures
            r.max_spread_bps == num(TWENTY_FIVE),
            r.min_spread_bps == num(ZERO),
            r.min_size == num(P01),
            !r.prefer_wider_spreads,
            r.refresh_interval.nanos == 15_000_000_000,
            r.actions_per_refresh == 3,
    {
        UniverseSelectParams {
            max_spread_bps: num(TWENTY_FIVE),
            min_spread_bps: num(ZERO),
            min_size: num(P01),
            prefer_wider_spreads: false,
            refresh_interval: Span::from_secs(15),
            actions_per_refresh: 3,
        }
    }
}

/// How many markets a standard account can keep fresh: one action at the start
/// and one per whole second of the interval, shared out among the markets.
pub open spec fn market_budget(refresh_interval: Span, actions_per_refresh: u32) -> int {
    if actions_per_refresh == 0 || refresh_interval.nanos == 0 {
        0
    } else {
        (refresh_interval.secs() + 1) / actions_per_refresh as int
    }
}

/// The seconds of the interval can be counted in 32 bits.
pub open spec fn countable(refresh_interval: Span) -> bool {
    refresh_interval.secs() < u32::MAX
}

/// How many markets a standard account can keep fresh at one action per second.
pub fn max_markets_for_standard_budget(refresh_interval: Span, actions_per_refresh: u32) -> (r: usize)
    requires
        countable(refresh_interval),
    ensures
        r == market_budget(refresh_interval, actions_per_refresh),
{
    if actions_per_refresh == 0 || refresh_interval.nanos == 0 {
        return 0;
    }
    let mut budget = StandardRateBudget::new();
    let mut actions: u32 = 0;
    let mut now = Span { nanos: 0 };
    while now.nanos <= refresh_interval.nanos
        invariant
            countable(refresh_interval),
            actions <= refresh_interval.secs() + 1,
            now.nanos == actions * 1_000_000_000,
            actions == 0 ==> budget.last_granted is None,
            actions > 0 ==> budget.last_granted == Some(
                Span { nanos: (now.nanos - 1_000_000_000) as u128 },
            ),
        decreases refresh_interval.nanos + 1_000_000_000 - now.nanos,
    {
        if budget.try_acquire_at(now) {
            actions = actions + 1;
        }
        now = Span { nanos: now.nanos + 1_000_000_000 };
    }
    proof {
        assert(actions == refresh_interval.secs() + 1);
        assert(actions as int / actions_per_refresh as int <= actions as int) by {
            vstd::arithmetic::div_mod::lemma_div_nonincreasing(actions as int, actions_per_refresh as int);
        }
    }
    (actions / actions_per_refresh) as usize
}

impl Clone for UniverseMarket {
    fn clone(&self) -> (r: UniverseMarket)
        ensures
            r@ == self@,
    {
        UniverseMarket {
            market_id: self.market_id,
            symbol: copy_text(self.symbol.as_str()),
            market_type: copy_text(self.market_type.as_str()),
            bid_price: self.bid_price,
            ask_price: self.ask_price,
            bid_size: self.bid_size,
            ask_size: self.ask_size,
            book_health: self.book_health,
        }
    }
}

impl UniverseMarket {
    /// A market of the catalog with its update.
    pub fn from_catalog_and_bbo(info: &MarketInfo, bbo: Option<&BboUpdate>) -> (r: UniverseMarket)
        ensures
            r@ == UniverseView::joined(
                *info,
                match bbo {
                    Some(b) => Some(b@),
                    None => None,
                },
            ),
    {
        let (bid_price, ask_price, bid_size, ask_size, book_health) = match bbo {
            Some(b) => (b.bid_price, b.ask_price, b.bid_size, b.ask_size, BookHealth::Live),
            None => (num(ZERO), num(ZERO), num(ZERO), num(ZERO), BookHealth::Syncing),
        };
        UniverseMarket {
            market_id: info.market_id,
            symbol: copy_text(info.symbol.as_str()),
            market_type: copy_text(info.market_type.as_str()),
            bid_price,
            ask_price,
            bid_size,
            ask_size,
            book_health,
        }
    }

    /// The mid of an uncrossed book of positive finite prices.
    pub fn mid(&self) -> (r: Option<B64>)
        ensures
            r == self@.mid(),
    {
        if !self.bid_price.is_finite() || !self.ask_price.is_finite() {
            return None;
        }
        if self.bid_price.le(num(ZERO)) || self.ask_price.le(num(ZERO)) || self.ask_price.lt(self.bid_price) {
            return None;
        }
        let mid: B64 = self.bid_price.add(self.ask_price).div(num(TWO));
        if mid.gt(num(ZERO)) {
            Some(mid)
        } else {
            None
        }
    }

    /// The spread in basis points of the mid.
    pub fn spread_bps(&self) -> (r: Option<B64>)
        ensures
            r == self@.spread_bps(),
    {
        match self.mid() {
            Some(mid) => Some(self.ask_price.sub(self.bid_price).div(mid).mul(num(TEN_THOUSAND))),
            None => None,
        }
    }

    /// Whether this market ranks strictly before another.
    fn ranks_before(&self, other: &UniverseMarket, prefer_wider: bool) -> (r: bool)
        requires
            self@.mid() is Some,
            other@.mid() is Some,
        ensures
            r == self@.before(other@, prefer_wider),
    {
        let ls: B64 = match self.spread_bps() {
            Some(s) => s,
            None => return false,
        };
        let rs: B64 = match other.spread_bps() {
            Some(s) => s,
            None => return false,
        };
        if ls.total_lt(rs) {
            return !prefer_wider;
        }
        if rs.total_lt(ls) {
            return prefer_wider;
        }
        let lsz: B64 = self.bid_size.min(self.ask_size);
        let rsz: B64 = other.bid_size.min(other.ask_size);
        if rsz.total_lt(lsz) {
            return true;
        }
        if lsz.total_lt(rsz) {
            return false;
        }
        self.market_id < other.market_id
    }
}

/// Whether a market may be quoted.
pub fn qualify_market(market: &UniverseMarket, params: &UniverseSelectParams) -> (r: bool)
    ensures
        r == market@.qualifies(*params),
{
    if !same_ignoring_case(market.market_type.as_str(), "perp") {
        return false;
    }
    if market.book_health != BookHealth::Live {
        return false;
    }
    if market.mid().is_none() {
        return false;
    }
    if market.bid_size.lt(params.min_size) || market.ask_size.lt(params.min_size) {
        return false;
    }
    match market.spread_bps() {
        Some(spread) => spread.le(params.max_spread_bps) && spread.ge(params.min_spread_bps),
        None => false,
    }
}

/// The first place whose market ranks after the given one.
pub open spec fn place_of(ranked: Seq<UniverseView>, market: UniverseView, prefer_wider: bool, from: int) -> int
    decreases ranked.len() - from,
{
    if from >= ranked.len() || market.before(ranked[from], prefer_wider) {
        from
    } else {
        place_of(ranked, market, prefer_wider, from + 1)
    }
}

/// The qualified markets of a catalog, best first; of two that rank alike the
/// earlier one of the catalog comes first.
pub open spec fn ranked_markets(catalog: Seq<UniverseView>, params: UniverseSelectParams) -> Seq<UniverseView>
    decreases catalog.len(),
{
    if catalog.len() == 0 {
        Seq::empty()
    } else {
        let rest = ranked_markets(catalog.drop_last(), params);
        let market = catalog.last();
        if market.qualifies(params) {
            rest.insert(place_of(rest, market, params.prefer_wider_spreads, 0), market)
        } else {
            rest
        }
    }
}

/// The first markets of a ranking.
pub open spec fn best_markets(ranked: Seq<UniverseView>, cap: int) -> Seq<UniverseView> {
    if ranked.len() <= cap {
        ranked
    } else {
        ranked.take(cap)
    }
}

/// The markets to quote: the best ones that the request budget allows for.
pub open spec fn quoted_markets(catalog: Seq<UniverseView>, params: UniverseSelectParams) -> Seq<UniverseView> {
    best_markets(
        ranked_markets(catalog, params),
        market_budget(params.refresh_interval, params.actions_per_refresh),
    )
}

proof fn lemma_place_bounds(ranked: Seq<UniverseView>, market: UniverseView, prefer_wider: bool, from: int)
    requires
        0 <= from <= ranked.len(),
    ensures
        from <= place_of(ranked, market, prefer_wider, from) <= ranked.len(),
        forall|i: int|
            from <= i < place_of(ranked, market, prefer_wider, from) ==> !market.before(
                #[trigger] ranked[i],
                prefer_wider,
            ),
        place_of(ranked, market, prefer_wider, from) < ranked.len() ==> market.before(
            ranked[place_of(ranked, market, prefer_wider, from)],
            prefer_wider,
        ),
    decreases ranked.len() - from,
{
    if from < ranked.len() && !market.before(ranked[from], prefer_wider) {
        lemma_place_bounds(ranked, market, prefer_wider, from + 1);
    }
}

#[verifier::spinoff_prover]
#[verifier::rlimit(60)]
proof fn lemma_ranked_qualify(catalog: Seq<UniverseView>, params: UniverseSelectParams)
    ensures
        ranked_markets(catalog, params).len() <= catalog.len(),
        forall|i: int|
            0 <= i < ranked_markets(catalog, params).len() ==> {
                let m = #[trigger] ranked_markets(catalog, params)[i];
                m.qualifies(params) && catalog.contains(m)
            },
        forall|i: int, j: int|
            0 <= i < j < ranked_markets(catalog, params).len() ==> !(#[trigger] ranked_markets(
                catalog,
                params,
            )[j]).before(#[trigger] ranked_markets(catalog, params)[i], params.prefer_wider_spreads),
        forall|m: UniverseView|
            #[trigger] catalog.contains(m) && m.qualifies(params) ==> ranked_markets(catalog, params).contains(m),
    decreases catalog.len(),
{
    if catalog.len() > 0 {
        lemma_ranked_qualify(catalog.drop_last(), params);
        let rest = ranked_markets(catalog.drop_last(), params);
        let market = catalog.last();
        let wider = params.prefer_wider_spreads;
        let all = ranked_markets(catalog, params);
        assert(catalog[catalog.len() - 1] == market);
        assert forall|m: UniverseView| catalog.drop_last().contains(m) implies catalog.contains(m) by {
            let k = choose|k: int| 0 <= k < catalog.drop_last().len() && catalog.drop_last()[k] == m;
            assert(catalog[k] == m);
        }
        if market.qualifies(params) {
            let p = place_of(rest, market, wider, 0);
            lemma_place_bounds(rest, market, wider, 0);
            assert forall|i: int, j: int| 0 <= i < j < all.len() implies !(#[trigger] all[j]).before(
                #[trigger] all[i],
                wider,
            ) by {
                let x = if i < p { i } else { i - 1 };
                let y = if j < p { j } else { j - 1 };
                if i != p {
                    assert(all[i] == rest[x]);
                }
                if j != p {
                    assert(all[j] == rest[y]);
                }
                if i == p {
                    assert(market.before(rest[p], wider));
                    if y > p {
                        assert(!rest[y].before(rest[p], wider));
                    }
                } else if j == p {
                    assert(!market.before(rest[x], wider));
                } else {
                    assert(!rest[y].before(rest[x], wider));
                }
            }
            assert forall|i: int| 0 <= i < all.len() implies ({
                let m = #[trigger] all[i];
                m.qualifies(params) && catalog.contains(m)
            }) by {
                if i < p {
                    assert(all[i] == rest[i]);
                } else if i > p {
                    assert(all[i] == rest[i - 1]);
                }
            }
            assert(all[p] == market);
        }
        assert forall|m: UniverseView| #[trigger] catalog.contains(m) && m.qualifies(params) implies all.contains(
            m,
        ) by {
            let k = choose|k: int| 0 <= k < catalog.len() && catalog[k] == m;
            if k < catalog.len() - 1 {
                assert(catalog.drop_last()[k] == m);
                assert(catalog.drop_last().contains(m));
                let i = choose|i: int| 0 <= i < rest.len() && rest[i] == m;
                if market.qualifies(params) {
                    let p = place_of(rest, market, wider, 0);
                    lemma_place_bounds(rest, market, wider, 0);
                    assert(all[if i < p { i } else { i + 1 }] == m);
                } else {
                    assert(all[i] == m);
                }
            }
        }
    }
}

/// Ranks the qualified markets (by spread, then deeper size) and keeps as many
/// as the request budget can refresh.
pub fn select_quoting_universe(catalog: &[UniverseMarket], params: &UniverseSelectParams) -> (r: Vec<
    UniverseMarket,
>)
    requires
        countable(params.refresh_interval),
    ensures
        market_views(r@) == quoted_markets(market_views(catalog@), *params),
{
    let cap: usize = max_markets_for_standard_budget(params.refresh_interval, params.actions_per_refresh);
    let ghost all = market_views(catalog@);
    let wider: bool = params.prefer_wider_spreads;
    let mut ranked: Vec<UniverseMarket> = Vec::new();
    let mut i: usize = 0;
    assert(all.take(0) =~= Seq::<UniverseView>::empty());
    assert(market_views(ranked@) =~= Seq::<UniverseView>::empty());
    while i < catalog.len()
        invariant
            i <= catalog.len(),
            all == market_views(catalog@),
            wider == params.prefer_wider_spreads,
            market_views(ranked@) == ranked_markets(all.take(i as int), *params),
        decreases catalog.len() - i,
    {
        proof {
            assert(all.take(i as int + 1).drop_last() =~= all.take(i as int));
            assert(all.take(i as int + 1).last() == catalog@[i as int]@);
            lemma_ranked_qualify(all.take(i as int), *params);
        }
        if qualify_market(&catalog[i], params) {
            let ghost list = market_views(ranked@);
            let ghost market = catalog@[i as int]@;
            proof {
                lemma_place_bounds(list, market, wider, 0);
            }
            let mut p: usize = 0;
            while p < ranked.len() && !catalog[i].ranks_before(&ranked[p], wider)
                invariant
                    i < catalog.len(),
                    p <= ranked.len(),
                    list == market_views(ranked@),
                    market == catalog@[i as int]@,
                    market.mid() is Some,
                    forall|k: int| 0 <= k < list.len() ==> (#[trigger] list[k]).mid() is Some,
                    place_of(list, market, wider, 0) == place_of(list, market, wider, p as int),
                decreases ranked.len() - p,
            {
                assert(list[p as int] == ranked@[p as int]@);
                p = p + 1;
            }
            proof {
                if p < ranked.len() {
                    assert(list[p as int] == ranked@[p as int]@);
                }
            }
            ranked.insert(p, catalog[i].clone());
            assert(market_views(ranked@) =~= list.insert(p as int, market));
        }
        i = i + 1;
    }
    assert(all.take(i as int) =~= all);
    let ghost full = market_views(ranked@);
    if ranked.len() > cap {
        ranked.truncate(cap);
        assert(market_views(ranked@) =~= full.take(cap as int));
    }
    ranked
}

/// The catalog with the latest updates.
pub open spec fn joined_catalog(infos: Seq<MarketInfo>, bbos: Seq<(u32, BboUpdate)>) -> Seq<UniverseView> {
    Seq::new(infos.len(), |i: int| UniverseView::joined(infos[i], bbo_of(bbos, infos[i].market_id)))
}

fn find_bbo<'a>(bbos: &'a [(u32, BboUpdate)], market_id: u32) -> (r: Option<&'a BboUpdate>)
    ensures
        bbo_of(bbos@, market_id) == (match r {
            Some(b) => Some(b@),
            None => None::<BboView>,
        }),
{
    let mut i: usize = 0;
    assert(bbos@.skip(0) =~= bbos@);
    while i < bbos.len()
        invariant
            i <= bbos.len(),
            bbo_of(bbos@, market_id) == bbo_of(bbos@.skip(i as int), market_id),
        decreases bbos.len() - i,
    {
        assert(bbos@.skip(i as int).first() == bbos@[i as int]);
        assert(bbos@.skip(i as int).drop_first() =~= bbos@.skip(i as int + 1));
        if bbos[i].0 == market_id {
            return Some(&bbos[i].1);
        }
        i = i + 1;
    }
    None
}

/// Joins a catalog with the latest updates. Spot markets stay in, so that the
/// selector can reject them; they are never quoted.
pub fn markets_from_catalog(infos: &[MarketInfo], bbos: &[(u32, BboUpdate)]) -> (r: Vec<UniverseMarket>)
    ensures
        market_views(r@) == joined_catalog(infos@, bbos@),
{
    let mut out: Vec<UniverseMarket> = Vec::new();
    let mut i: usize = 0;
    while i < infos.len()
        invariant
            i <= infos.len(),
            out.len() == i,
            forall|k: int|
                0 <= k < i ==> (#[trigger] out@[k])@ == UniverseView::joined(
                    infos@[k],
                    bbo_of(bbos@, infos@[k].market_id),
                ),
        decreases infos.len() - i,
    {
        let bbo: Option<&BboUpdate> = find_bbo(bbos, infos[i].market_id);
        out.push(UniverseMarket::from_catalog_and_bbo(&infos[i], bbo));
        i = i + 1;
    }
    assert(market_views(out@) =~= joined_catalog(infos@, bbos@));
    out
}

/// Whether a catalog lists a perpetual with the given id.
pub open spec fn lists_perp(catalog: Seq<MarketInfo>, id: u32) -> bool {
    exists|i: int|
        0 <= i < catalog.len() && lower((#[trigger] catalog[i]).market_type@) == lower("perp"@)
            && catalog[i].market_id == id
}

/// The ids of the perpetuals in catalog order, each at its first place.
pub open spec fn perps_in_order(catalog: Seq<MarketInfo>) -> Seq<u32>
    decreases catalog.len(),
{
    if catalog.len() == 0 {
        Seq::empty()
    } else {
        let before = perps_in_order(catalog.drop_last());
        let market = catalog.last();
        if lower(market.market_type@) == lower("perp"@) && !before.contains(market.market_id) {
            before.push(market.market_id)
        } else {
            before
        }
    }
}

fn has_id(ids: &[u32], id: u32) -> (r: bool)
    ensures
        r == ids@.contains(id),
{
    let mut i: usize = 0;
    while i < ids.len()
        invariant
            i <= ids.len(),
            forall|k: int| 0 <= k < i ==> ids@[k] != id,
        decreases ids.len() - i,
    {
        if ids[i] == id {
            return true;
        }
        i = i + 1;
    }
    false
}

/// The ids of all perpetuals, in catalog order. They are watched; what is
/// quoted is decided by [`resolve_quoting_market_ids`].
pub fn discover_perp_ids(catalog: &[MarketInfo]) -> (r: Vec<u32>)
    ensures
        r@ == perps_in_order(catalog@),
{
    let mut ids: Vec<u32> = Vec::new();
    let mut i: usize = 0;
    while i < catalog.len()
        invariant
            i <= catalog.len(),
            ids@ == perps_in_order(catalog@.take(i as int)),
        decreases catalog.len() - i,
    {
        let perp: bool = same_ignoring_case(catalog[i].market_type.as_str(), "perp");
        if perp && !has_id(ids.as_slice(), catalog[i].market_id) {
            ids.push(catalog[i].market_id);
        }
        assert(catalog@.take(i as int + 1).drop_last() =~= catalog@.take(i as int));
        i = i + 1;
    }
    assert(catalog@.take(i as int) =~= catalog@);
    ids
}

/// Every perpetual is discovered, nothing else is, and none twice.
pub proof fn law_each_perp_is_discovered_once(catalog: Seq<MarketInfo>)
    ensures
        perps_in_order(catalog).no_duplicates(),
        forall|id: u32| #[trigger] perps_in_order(catalog).contains(id) <==> lists_perp(catalog, id),
    decreases catalog.len(),
{
    if catalog.len() > 0 {
        let front = catalog.drop_last();
        let before = perps_in_order(front);
        let ids = perps_in_order(catalog);
        let last = catalog.last();
        law_each_perp_is_discovered_once(front);
        assert forall|id: u32| #[trigger] ids.contains(id) <==> lists_perp(catalog, id) by {
            assert(before.contains(id) <==> lists_perp(front, id));
            if before.contains(id) {
                let k = choose|k: int| 0 <= k < before.len() && before[k] == id;
                assert(ids[k] == id);
                let m = choose|m: int|
                    0 <= m < front.len() && lower((#[trigger] front[m]).market_type@) == lower("perp"@)
                        && front[m].market_id == id;
                assert(catalog[m] == front[m]);
            }
            if lists_perp(catalog, id) && !before.contains(id) {
                let m = choose|m: int|
                    0 <= m < catalog.len() && lower((#[trigger] catalog[m]).market_type@) == lower(
                        "perp"@,
                    ) && catalog[m].market_id == id;
                if m < front.len() {
                    assert(front[m] == catalog[m]);
                }
                assert(ids[before.len() as int] == id);
            }
            if ids.contains(id) && !before.contains(id) {
                assert(catalog[catalog.len() - 1] == last);
                assert(last.market_id == id);
            }
        }
    }
}

/// The ids of several markets.
pub open spec fn ids_in(markets: Seq<UniverseView>) -> Seq<u32> {
    Seq::new(markets.len(), |i: int| markets[i].market_id)
}

/// The ids to quote: without books there are none.
pub open spec fn quoting_ids(
    catalog: Seq<MarketInfo>,
    bbos: Seq<(u32, BboUpdate)>,
    params: UniverseSelectParams,
) -> Seq<u32> {
    ids_in(quoted_markets(joined_catalog(catalog, bbos), params))
}

/// Ranks and filters the markets to quote. Empty or incomplete books yield an
/// empty set.
pub fn resolve_quoting_market_ids(
    catalog: &[MarketInfo],
    bbos: &[(u32, BboUpdate)],
    params: &UniverseSelectParams,
) -> (r: Vec<u32>)
    requires
        countable(params.refresh_interval),
    ensures
        r@ == quoting_ids(catalog@, bbos@, *params),
{
    let selected = select_quoting_universe(&markets_from_catalog(catalog, bbos), params);
    let mut ids: Vec<u32> = Vec::new();
    let mut i: usize = 0;
    while i < selected.len()
        invariant
            i <= selected.len(),
            ids.len() == i,
            forall|k: int| 0 <= k < i ==> ids@[k] == (#[trigger] selected@[k]).market_id,
        decreases selected.len() - i,
    {
        ids.push(selected[i].market_id);
        i = i + 1;
    }
    proof {
        let views = market_views(selected@);
        assert forall|k: int| 0 <= k < ids@.len() implies ids@[k] == #[trigger] ids_in(views)[k] by {
            assert(views[k] == selected@[k]@);
        }
        assert(ids@ =~= ids_in(views));
    }
    ids
}

/// The markets to watch and to quote. In automatic mode every perpetual is
/// watched so that books can arrive, and nothing is quoted until they do.
#[derive(Debug, PartialEq, Eq)]
pub struct LiveUniverse {
    pub subscribe_ids: Vec<u32>,
    pub quoting_ids: Vec<u32>,
    pub awaiting_books: bool,
}

/// Whether a mode asks for every perpetual.
pub open spec fn automatic(mode: Seq<char>) -> bool {
    keyword(mode) == "auto"@ || keyword(mode) == "all"@
}

fn copy_ids(ids: &[u32]) -> (r: Vec<u32>)
    ensures
        r@ == ids@,
{
    let mut r: Vec<u32> = Vec::new();
    let mut i: usize = 0;
    while i < ids.len()
        invariant
            i <= ids.len(),
            r@ == ids@.take(i as int),
        decreases ids.len() - i,
    {
        r.push(ids[i]);
        i = i + 1;
        assert(r@ =~= ids@.take(i as int));
    }
    assert(ids@.take(i as int) =~= ids@);
    r
}

impl Clone for LiveUniverse {
    fn clone(&self) -> (r: LiveUniverse)
        ensures
            r.subscribe_ids@ == self.subscribe_ids@,
            r.quoting_ids@ == self.quoting_ids@,
            r.awaiting_books == self.awaiting_books,
    {
        LiveUniverse {
            subscribe_ids: copy_ids(self.subscribe_ids.as_slice()),
            quoting_ids: copy_ids(self.quoting_ids.as_slice()),
            awaiting_books: self.awaiting_books,
        }
    }
}

/// Decides which markets are watched and which are quoted.
pub fn resolve_live_universe(
    mode: &str,
    configured: &[u32],
    catalog: &[MarketInfo],
    bbos: &[(u32, BboUpdate)],
    params: &UniverseSelectParams,
) -> (r: LiveUniverse)
    requires
        countable(params.refresh_interval),
    ensures
        !automatic(mode@) || catalog@.len() == 0 ==> r.subscribe_ids@ == configured@ && r.quoting_ids@
            == configured@ && !r.awaiting_books,
        automatic(mode@) && catalog@.len() > 0 ==> {
            &&& r.subscribe_ids@ == perps_in_order(catalog@)
            &&& r.quoting_ids@ == quoting_ids(catalog@, bbos@, *params)
            &&& r.awaiting_books == (bbos@.len() == 0 || r.quoting_ids@.len() == 0)
        },
{
    let word = keyword_of(mode);
    if (!keyword_is(&word, "auto") && !keyword_is(&word, "all")) || catalog.len() == 0 {
        return LiveUniverse {
            subscribe_ids: copy_ids(configured),
            quoting_ids: copy_ids(configured),
            awaiting_books: false,
        };
    }
    let subscribe_ids = discover_perp_ids(catalog);
    let quoting_ids = resolve_quoting_market_ids(catalog, bbos, params);
    let awaiting_books: bool = bbos.len() == 0 || quoting_ids.len() == 0;
    LiveUniverse { subscribe_ids, quoting_ids, awaiting_books }
}

/// The one-level book of an update. Its symbol is the given one where the
/// update has none, and its time is `now` where its own is no date.
pub open spec fn book_of_bbo(bbo: BboView, fallback_symbol: Seq<char>, now: Timestamp) -> BookView {
    BookView {
        symbol: if bbo.symbol.len() == 0 { fallback_symbol } else { bbo.symbol },
        market_id: bbo.market_id,
        bids: seq![PriceLevel { price: bbo.bid_price, quantity: bbo.bid_size }],
        asks: seq![PriceLevel { price: bbo.ask_price, quantity: bbo.ask_size }],
        timestamp: match instant_of_millis(bbo.exchange_timestamp_ms as i64) {
            Some(t) => t,
            None => now,
        },
    }
}

/// A one-level book out of an update, so that a strategy can quote without a
/// full order-book channel.
pub fn order_book_from_bbo(bbo: &BboUpdate, fallback_symbol: &str, now: Timestamp) -> (r: OrderBook)
    ensures
        r@ == book_of_bbo(bbo@, fallback_symbol@, now),
{
    let name = crate::text::chars_of(bbo.symbol.as_str());
    let mut bids: Vec<PriceLevel> = Vec::new();
    bids.push(PriceLevel { price: bbo.bid_price, quantity: bbo.bid_size });
    let mut asks: Vec<PriceLevel> = Vec::new();
    asks.push(PriceLevel { price: bbo.ask_price, quantity: bbo.ask_size });
    let millis: i64 =
        #[verifier::truncate]
        (bbo.exchange_timestamp_ms as i64);
    let r = OrderBook {
        symbol: if name.len() == 0 {
            copy_text(fallback_symbol)
        } else {
            copy_text(bbo.symbol.as_str())
        },
        market_id: bbo.market_id,
        bids,
        asks,
        timestamp: match utc_from_millis(millis) {
            Some(t) => t,
            None => now,
        },
    };
    assert(r.bids@ =~= seq![PriceLevel { price: bbo.bid_price, quantity: bbo.bid_size }]);
    assert(r.asks@ =~= seq![PriceLevel { price: bbo.ask_price, quantity: bbo.ask_size }]);
    r
}

/// The best prices of a book, where it has both.
pub open spec fn bbo_of_book(book: BookView) -> Option<BboView> {
    if book.bids.len() == 0 || book.asks.len() == 0 {
        None
    } else {
        Some(
            BboView {
                market_id: book.market_id,
                symbol: book.symbol,
                nonce: 0,
                exchange_timestamp_ms: wall_millis(book.timestamp),
                bid_price: book.bids[0].price,
                bid_size: book.bids[0].quantity,
                ask_price: book.asks[0].price,
                ask_size: book.asks[0].quantity,
            },
        )
    }
}

/// The best prices of a two-sided book.
pub fn bbo_from_order_book(book: &OrderBook) -> (r: Option<BboUpdate>)
    requires
        book.timestamp.secs <= MAX_SECS,
    ensures
        bbo_of_book(book@) == (match r {
            Some(b) => Some(b@),
            None => None::<BboView>,
        }),
{
    if book.bids.len() == 0 || book.asks.len() == 0 {
        return None;
    }
    let bid: PriceLevel = book.bids[0];
    let ask: PriceLevel = book.asks[0];
    Some(
        BboUpdate {
            market_id: book.market_id,
            symbol: copy_text(book.symbol.as_str()),
            nonce: 0,
            exchange_timestamp_ms: wall_millis_of(book.timestamp),
            bid_price: bid.price,
            bid_size: bid.quantity,
            ask_price: ask.price,
            ask_size: ask.quantity,
        },
    )
}

/// What is quoted is in the catalog and qualifies, is no more than the budget
/// allows for, and stands in rank order.
pub proof fn law_quoted_markets_qualify(catalog: Seq<UniverseView>, params: UniverseSelectParams)
    ensures
        ({
            let quoted = quoted_markets(catalog, params);
            &&& 0 <= quoted.len() <= market_budget(params.refresh_interval, params.actions_per_refresh)
            &&& forall|i: int|
                0 <= i < quoted.len() ==> (#[trigger] quoted[i]).qualifies(params) && catalog.contains(quoted[i])
            &&& forall|i: int, j: int|
                0 <= i < j < quoted.len() ==> !(#[trigger] quoted[j]).before(
                    #[trigger] quoted[i],
                    params.prefer_wider_spreads,
                )
        }),
{
    lemma_ranked_qualify(catalog, params);
    let ranked = ranked_markets(catalog, params);
    let quoted = quoted_markets(catalog, params);
    assert(market_budget(params.refresh_interval, params.actions_per_refresh) >= 0) by {
        if params.actions_per_refresh > 0 {
            vstd::arithmetic::div_mod::lemma_div_pos_is_pos(
                params.refresh_interval.secs() + 1,
                params.actions_per_refresh as int,
            );
        }
    }
    assert forall|i: int| 0 <= i < quoted.len() implies quoted[i] == ranked[i] by {}
}

/// A market that qualifies is only passed over where the budget is spent on
/// markets that do not rank after it.
pub proof fn law_best_markets_are_quoted(
    catalog: Seq<UniverseView>,
    params: UniverseSelectParams,
    market: UniverseView,
)
    requires
        catalog.contains(market),
        market.qualifies(params),
    ensures
        ({
            let quoted = quoted_markets(catalog, params);
            ||| quoted.contains(market)
            ||| {
                &&& quoted.len() == market_budget(params.refresh_interval, params.actions_per_refresh)
                &&& forall|i: int|
                    0 <= i < quoted.len() ==> !market.before(#[trigger] quoted[i], params.prefer_wider_spreads)
            }
        }),
{
    lemma_ranked_qualify(catalog, params);
    law_quoted_markets_qualify(catalog, params);
    let ranked = ranked_markets(catalog, params);
    let quoted = quoted_markets(catalog, params);
    let cap = market_budget(params.refresh_interval, params.actions_per_refresh);
    let k = choose|k: int| 0 <= k < ranked.len() && ranked[k] == market;
    assert(cap >= 0);
    if k < quoted.len() {
        assert(quoted[k] == market);
    } else {
        assert forall|i: int| 0 <= i < quoted.len() implies !market.before(
            #[trigger] quoted[i],
            params.prefer_wider_spreads,
        ) by {
            assert(quoted[i] == ranked[i]);
            assert(!ranked[k].before(ranked[i], params.prefer_wider_spreads));
        }
    }
}

/// Without an update no market qualifies, so nothing is quoted.
pub proof fn law_no_books_no_quotes(catalog: Seq<MarketInfo>, params: UniverseSelectParams)
    ensures
        quoting_ids(catalog, Seq::empty(), params).len() == 0,
{
    let joined = joined_catalog(catalog, Seq::empty());
    lemma_ranked_qualify(joined, params);
    let ranked = ranked_markets(joined, params);
    if ranked.len() > 0 {
        let m = ranked[0];
        let k = choose|k: int| 0 <= k < joined.len() && joined[k] == m;
        assert(joined[k].book_health == BookHealth::Syncing);
    }
}

/// The best prices survive the way through a book; the nonce does not, and the
/// time does where it is a date.
pub proof fn law_bbo_survives_a_book(bbo: BboView, fallback_symbol: Seq<char>, now: Timestamp)
    requires
        bbo.symbol.len() > 0,
        bbo.exchange_timestamp_ms <= MAX_SECS * 1000 + 999,
    ensures
        bbo_of_book(book_of_bbo(bbo, fallback_symbol, now)) == Some(BboView { nonce: 0, ..bbo }),
{
    let ms = bbo.exchange_timestamp_ms;
    assert(ms as i64 == ms);
    assert(ms as int / 1000 <= MAX_SECS);
    let t = instant_of_millis(ms as i64)->0;
    assert(t.millis() == ms) by {
        assert((ms as int % 1000 * 1_000_000) / 1_000_000 == ms as int % 1000);
        assert(ms as int == ms as int / 1000 * 1000 + ms as int % 1000);
    }
}

} // verus!
