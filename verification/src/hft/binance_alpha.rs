//! Binance futures order-book imbalance as the external alpha of crypto names.
//! Stocks have no Binance perpetual and stay on the local imbalance.
//!
//! The feed is the public `@depth20@100ms` snapshot stream.

use vstd::prelude::*;

use crate::binary64::consts::{HALF, ONE, P025, THOUSAND, ZERO};
use crate::binary64::decimal::number_text;
use crate::binary64::{num, B64};
use crate::json::{parsed_json, Json, JsonView};
use crate::strategy::rolling::{RollingStats, StatsView};
use crate::strategy::vol_obi::{ask_depth, bid_depth, sum_ask_to, sum_bid_from};
use crate::table::Table;
use crate::text::{
    append, chars_of, copy_text, first_part, lower, part_before, same_chars, same_ignoring_case, string_of,
    strip_suffixes, texts, to_lower, to_upper, trim, trimmed, upper, without_suffixes,
};

verus! {

/// The shortest age at which an alpha counts as stale, in milliseconds.
pub const LEAST_STALE_MS: u64 = 2_500;

/// The imbalances that the z-score is taken over.
pub const WINDOW: usize = 600;

/// The samples that an alpha needs before it is used.
pub const MIN_SAMPLES: u64 = 30;

/// Equities, pre-IPO names and funds without a trusted Binance book.
pub open spec fn equity_ticker(t: Seq<char>) -> bool {
    ||| t == "AAPL"@
    ||| t == "AMZN"@
    ||| t == "GOOGL"@
    ||| t == "GOOG"@
    ||| t == "META"@
    ||| t == "MSFT"@
    ||| t == "NVDA"@
    ||| t == "TSLA"@
    ||| t == "ORCL"@
    ||| t == "BABA"@
    ||| t == "BE"@
    ||| t == "CRWV"@
    ||| t == "COIN"@
    ||| t == "AMD"@
    ||| t == "INTC"@
    ||| t == "MU"@
    ||| t == "PLTR"@
    ||| t == "CRCL"@
    ||| t == "SNDK"@
    ||| t == "HOOD"@
    ||| t == "SPY"@
    ||| t == "QQQ"@
    ||| t == "SOXL"@
    ||| t == "SLV"@
    ||| t == "USO"@
    ||| t == "SGOV"@
    ||| t == "SPCX"@
    ||| t == "ANTHROPIC"@
    ||| t == "SKHY"@
    ||| t == "USAR"@
}

fn is_text(t: &[char], name: &str) -> (r: bool)
    ensures
        r == (t@ == name@),
{
    same_chars(t, &chars_of(name))
}

fn looks_like_equity(t: &[char]) -> (r: bool)
    ensures
        r == equity_ticker(t@),
{
    is_text(t, "AAPL") || is_text(t, "AMZN") || is_text(t, "GOOGL") || is_text(t, "GOOG") || is_text(
        t,
        "META",
    ) || is_text(t, "MSFT") || is_text(t, "NVDA") || is_text(t, "TSLA") || is_text(t, "ORCL") || is_text(
        t,
        "BABA",
    ) || is_text(t, "BE") || is_text(t, "CRWV") || is_text(t, "COIN") || is_text(t, "AMD") || is_text(
        t,
        "INTC",
    ) || is_text(t, "MU") || is_text(t, "PLTR") || is_text(t, "CRCL") || is_text(t, "SNDK") || is_text(
        t,
        "HOOD",
    ) || is_text(t, "SPY") || is_text(t, "QQQ") || is_text(t, "SOXL") || is_text(t, "SLV") || is_text(
        t,
        "USO",
    ) || is_text(t, "SGOV") || is_text(t, "SPCX") || is_text(t, "ANTHROPIC") || is_text(t, "SKHY")
        || is_text(t, "USAR")
}

/// The ticker of a symbol: its first part, in upper case.
pub open spec fn ticker_of(base: Seq<char>) -> Seq<char> {
    trimmed(first_part(upper(trimmed(base)), seq!['/', '-', '_', ':']))
}

/// The futures contract of a symbol, where it has a trusted book.
pub open spec fn futures_contract(base: Seq<char>) -> Option<Seq<char>> {
    let ticker = ticker_of(base);
    if trimmed(base).len() == 0 || ticker.len() == 0 || equity_ticker(ticker) {
        None
    } else {
        Some(ticker + "USDT"@)
    }
}

/// Maps a base symbol onto a Binance USDT-M futures contract.
pub fn binance_futures_symbol(base: &str) -> (r: Option<String>)
    ensures
        match r {
            Some(s) => futures_contract(base@) == Some(s@),
            None => futures_contract(base@) is None,
        },
{
    let raw = trim(&chars_of(base));
    if raw.len() == 0 {
        return None;
    }
    let separators: [char; 4] = ['/', '-', '_', ':'];
    assert(separators@ == seq!['/', '-', '_', ':']);
    let ticker = trim(&part_before(&to_upper(&raw), &separators));
    if ticker.len() == 0 {
        return None;
    }
    if looks_like_equity(&ticker) {
        return None;
    }
    let mut contract = string_of(&ticker);
    append(&mut contract, "USDT");
    Some(contract)
}

/// The last published alpha of a symbol.
#[derive(Debug, Clone, Copy, PartialEq, Eq, Structural)]
pub struct SharedAlpha {
    pub alpha: B64,
    pub updated_ms: u64,
    pub samples: u64,
}

impl SharedAlpha {
    pub open spec fn fresh() -> SharedAlpha {
        SharedAlpha { alpha: num(ZERO), updated_ms: 0, samples: 0 }
    }

    pub fn new() -> (r: SharedAlpha)
        ensures
            r == SharedAlpha::fresh(),
    {
        SharedAlpha { alpha: num(ZERO), updated_ms: 0, samples: 0 }
    }

    /// After an alpha has come; the sample counter wraps.
    pub open spec fn published(self, alpha: B64, now_ms: u64) -> SharedAlpha {
        SharedAlpha {
            alpha,
            updated_ms: now_ms,
            samples: if self.samples == u64::MAX { 0 } else { (self.samples + 1) as u64 },
        }
    }

    /// Publishes an alpha.
    pub fn publish(&mut self, alpha: B64, now_ms: u64)
        ensures
            *final(self) == old(self).published(alpha, now_ms),
    {
        self.alpha = alpha;
        self.updated_ms = now_ms;
        self.samples = if self.samples == u64::MAX { 0 } else { self.samples + 1 };
    }

    pub open spec fn spec_get_if_fresh(self, stale_ms: u64, now_ms: u64) -> Option<B64> {
        if self.updated_ms == 0 || self.samples < MIN_SAMPLES || now_ms - self.updated_ms > stale_ms {
            None
        } else {
            Some(self.alpha)
        }
    }

    /// The alpha, unless it is stale or rests on too few samples.
    #[verifier::when_used_as_spec(spec_get_if_fresh)]
    pub fn get_if_fresh(self, stale_ms: u64, now_ms: u64) -> (r: Option<B64>)
        ensures
            r == self.spec_get_if_fresh(stale_ms, now_ms),
    {
        if self.updated_ms == 0 {
            return None;
        }
        if self.samples < MIN_SAMPLES {
            return None;
        }
        let age: u64 = if now_ms > self.updated_ms { now_ms - self.updated_ms } else { 0 };
        if age > stale_ms {
            return None;
        }
        Some(self.alpha)
    }
}

/// The alphas of the watched symbols, fed by one combined stream.
#[derive(Debug)]
pub struct BinanceAlphaHub {
    pub alphas: Table<SharedAlpha>,
    pub wanted: Vec<String>,
}

/// What the hub holds: alphas by upper-case name, and the watch list.
#[verifier::ext_equal]
pub struct HubView {
    pub alphas: Map<Seq<char>, SharedAlpha>,
    pub wanted: Seq<Seq<char>>,
}

impl View for BinanceAlphaHub {
    type V = HubView;

    open spec fn view(&self) -> HubView {
        HubView { alphas: self.alphas@, wanted: texts(self.wanted@) }
    }
}

/// Whether a symbol is on the watch list, whatever its case.
pub open spec fn listed(wanted: Seq<Seq<char>>, symbol: Seq<char>) -> bool {
    exists|i: int| 0 <= i < wanted.len() && lower(#[trigger] wanted[i]) == lower(symbol)
}

/// The alpha stored under a name, or a fresh one.
pub open spec fn slot_of(alphas: Map<Seq<char>, SharedAlpha>, name: Seq<char>) -> SharedAlpha {
    if alphas.dom().contains(name) {
        alphas[name]
    } else {
        SharedAlpha::fresh()
    }
}

/// The names of the depth streams of a watch list.
pub open spec fn stream_names(wanted: Seq<Seq<char>>) -> Seq<Seq<char>>
    decreases wanted.len(),
{
    if wanted.len() == 0 {
        Seq::empty()
    } else {
        let rest = stream_names(wanted.drop_last());
        match futures_contract(wanted.last()) {
            Some(contract) => rest.push(lower(contract) + "@depth20@100ms"@),
            None => rest,
        }
    }
}

/// Texts with a slash between each two.
pub open spec fn slashed(names: Seq<Seq<char>>) -> Seq<char>
    decreases names.len(),
{
    if names.len() == 0 {
        Seq::empty()
    } else if names.len() == 1 {
        names[0]
    } else {
        slashed(names.drop_last()) + "/"@ + names.last()
    }
}

/// The price levels in the rows of a depth message: `None` where a row is not
/// an array or a price or size is not the text of a number; rows without both
/// and levels without a price or with a negative size are passed over.
pub open spec fn row_levels(rows: Seq<JsonView>) -> Option<Seq<(B64, B64)>>
    decreases rows.len(),
{
    if rows.len() == 0 {
        Some(Seq::empty())
    } else {
        match (row_levels(rows.drop_last()), rows.last().items()) {
            (Some(levels), Some(pair)) => if pair.len() < 2 {
                Some(levels)
            } else {
                match (text_number(pair[0]), text_number(pair[1])) {
                    (Some(px), Some(qty)) => if px.gt(num(ZERO)) && qty.ge(num(ZERO)) {
                        Some(levels.push((px, qty)))
                    } else {
                        Some(levels)
                    },
                    _ => None,
                }
            },
            _ => None,
        }
    }
}

/// The number in a string.
pub open spec fn text_number(v: JsonView) -> Option<B64> {
    match v.text() {
        Some(s) => number_text(s),
        None => None,
    }
}

/// The levels under a key: none where there is no usable one.
pub open spec fn levels_under(data: JsonView, key: Seq<char>) -> Option<Seq<(B64, B64)>> {
    match data.get(key) {
        Some(node) => match node.items() {
            Some(rows) => match row_levels(rows) {
                Some(levels) => if levels.len() == 0 {
                    None
                } else {
                    Some(levels)
                },
                None => None,
            },
            None => None,
        },
        None => None,
    }
}

pub open spec fn levels_under_either(data: JsonView, key: Seq<char>, short: Seq<char>) -> Option<Seq<(B64, B64)>> {
    match levels_under(data, key) {
        Some(levels) => Some(levels),
        None => levels_under(data, short),
    }
}

/// The part of a message that holds the book.
pub open spec fn payload(v: JsonView) -> JsonView {
    match v.get("data"@) {
        Some(data) => data,
        None => v,
    }
}

/// The contract that a message is about: the symbol of its payload, or else
/// the first part of its stream name.
pub open spec fn message_contract(v: JsonView) -> Seq<char> {
    match field_text(payload(v), "s"@) {
        Some(s) => s,
        None => match field_text(v, "stream"@) {
            Some(stream) => first_part(stream, seq!['@']),
            None => Seq::empty(),
        },
    }
}

pub open spec fn field_text(v: JsonView, key: Seq<char>) -> Option<Seq<char>> {
    match v.get(key) {
        Some(node) => node.text(),
        None => None,
    }
}

/// The size of the bids minus that of the asks within the looking depth.
pub open spec fn depth_imbalance(bids: Seq<(B64, B64)>, asks: Seq<(B64, B64)>) -> B64 {
    let mid = bids[0].0.add(asks[0].0).mul(num(HALF));
    bid_depth(bids, mid.mul(num(ONE).sub(num(P025)))).sub(ask_depth(asks, mid.mul(num(ONE).add(num(P025)))))
}

/// The name and the imbalance that a message reports, where it holds a usable
/// two-sided book.
pub open spec fn reading(v: JsonView) -> Option<(Seq<char>, B64)> {
    let base = without_suffixes(upper(message_contract(v)), "USDT"@);
    let bids = levels_under_either(payload(v), "bids"@, "b"@);
    let asks = levels_under_either(payload(v), "asks"@, "a"@);
    if base.len() == 0 || bids is None || asks is None {
        None
    } else if bids->0[0].0.le(num(ZERO)) || asks->0[0].0.le(bids->0[0].0) {
        None
    } else {
        Some((base, depth_imbalance(bids->0, asks->0)))
    }
}

/// The statistics by name.
pub open spec fn stats_view(m: Map<Seq<char>, RollingStats>) -> Map<Seq<char>, StatsView> {
    m.map_values(|s: RollingStats| s@)
}

pub open spec fn stats_wf(t: Table<RollingStats>) -> bool {
    t.wf() && forall|k: Seq<char>| #[trigger] t@.dom().contains(k) ==> t@[k].wf()
}

/// The statistics of a name after one more imbalance.
pub open spec fn next_stats(stats: Map<Seq<char>, StatsView>, base: Seq<char>, imbalance: B64) -> StatsView {
    (if stats.dom().contains(base) {
        stats[base]
    } else {
        StatsView::empty(WINDOW as nat)
    }).pushed(imbalance)
}

impl HubView {
    /// One more symbol on the watch list, where it has a contract.
    pub open spec fn watching(self, symbol: Seq<char>) -> HubView {
        if futures_contract(symbol) is None {
            self
        } else {
            HubView {
                alphas: self.alphas.insert(upper(symbol), slot_of(self.alphas, upper(symbol))),
                wanted: if listed(self.wanted, symbol) {
                    self.wanted
                } else {
                    self.wanted.push(symbol)
                },
            }
        }
    }

    pub open spec fn watching_all(self, symbols: Seq<Seq<char>>) -> HubView
        decreases symbols.len(),
    {
        if symbols.len() == 0 {
            self
        } else {
            self.watching_all(symbols.drop_last()).watching(symbols.last())
        }
    }

    /// The fresh alpha of a symbol.
    pub open spec fn alpha(self, symbol: Seq<char>, stale_secs: B64, now_ms: u64) -> Option<B64> {
        let stale_ms = stale_secs.max(num(HALF)).mul(num(THOUSAND)).to_u64();
        if self.alphas.dom().contains(upper(symbol)) {
            self.alphas[upper(symbol)].get_if_fresh(
                if stale_ms < LEAST_STALE_MS { LEAST_STALE_MS } else { stale_ms },
                now_ms,
            )
        } else {
            None
        }
    }

    /// After a message: the z-score of its imbalance is published.
    pub open spec fn received(self, v: JsonView, stats: Map<Seq<char>, StatsView>, now_ms: u64) -> HubView {
        match reading(v) {
            Some((base, imbalance)) => HubView {
                alphas: self.alphas.insert(
                    base,
                    slot_of(self.alphas, base).published(
                        next_stats(stats, base, imbalance).zscore(imbalance),
                        now_ms,
                    ),
                ),
                ..self
            },
            None => self,
        }
    }
}

/// The statistics after a message.
pub open spec fn stats_received(v: JsonView, stats: Map<Seq<char>, StatsView>) -> Map<Seq<char>, StatsView> {
    match reading(v) {
        Some((base, imbalance)) => stats.insert(base, next_stats(stats, base, imbalance)),
        None => stats,
    }
}

fn field_number(v: &Json) -> (r: Option<B64>)
    ensures
        r == text_number(v@),
{
    match v.as_str() {
        Some(s) => B64::parse(&chars_of(s)),
        None => None,
    }
}

fn parse_levels(data: &Json, key: &str) -> (r: Option<Vec<(B64, B64)>>)
    ensures
        match r {
            Some(levels) => levels_under(data@, key@) == Some(levels@),
            None => levels_under(data@, key@) is None,
        },
{
    let rows: &Vec<Json> = match data.get(key) {
        Some(node) => match node.as_array() {
            Some(rows) => rows,
            None => return None,
        },
        None => return None,
    };
    let ghost all = data@.get(key@)->0.items()->0;
    let mut out: Vec<(B64, B64)> = Vec::new();
    let mut i: usize = 0;
    assert(all.take(0) == Seq::<JsonView>::empty());
    while i < rows.len()
        invariant
            i <= rows.len(),
            all.len() == rows.len(),
            forall|k: int| 0 <= k < rows.len() ==> #[trigger] rows@[k]@ == all[k],
            row_levels(all.take(i as int)) == Some(out@),
            levels_under(data@, key@) == (match row_levels(all) {
                Some(levels) => if levels.len() == 0 {
                    None
                } else {
                    Some(levels)
                },
                None => None,
            }),
        decreases rows.len() - i,
    {
        let ghost next = all.take(i as int + 1);
        proof {
            assert(next.drop_last() == all.take(i as int));
            assert(next.last() == rows@[i as int]@);
            if row_levels(next) is None {
                lemma_row_levels_none(all, i as int + 1);
            }
        }
        let pair: &Vec<Json> = match rows[i].as_array() {
            Some(pair) => pair,
            None => return None,
        };
        i = i + 1;
        if pair.len() < 2 {
            continue;
        }
        assert(pair@[0]@ == next.last().items()->0[0]);
        assert(pair@[1]@ == next.last().items()->0[1]);
        let px: B64 = match field_number(&pair[0]) {
            Some(px) => px,
            None => return None,
        };
        let qty: B64 = match field_number(&pair[1]) {
            Some(qty) => qty,
            None => return None,
        };
        if px.gt(num(ZERO)) && qty.ge(num(ZERO)) {
            out.push((px, qty));
        }
    }
    assert(all.take(i as int) == all);
    if out.len() == 0 {
        None
    } else {
        Some(out)
    }
}

/// A row that cannot be read spoils every longer run of rows.
proof fn lemma_row_levels_none(rows: Seq<JsonView>, n: int)
    requires
        0 <= n <= rows.len(),
        row_levels(rows.take(n)) is None,
    ensures
        row_levels(rows) is None,
    decreases rows.len() - n,
{
    if n < rows.len() {
        assert(rows.take(n + 1).drop_last() == rows.take(n));
        lemma_row_levels_none(rows, n + 1);
    } else {
        assert(rows.take(n) == rows);
    }
}

fn parse_levels_either(data: &Json, key: &str, short: &str) -> (r: Option<Vec<(B64, B64)>>)
    ensures
        match r {
            Some(levels) => levels_under_either(data@, key@, short@) == Some(levels@),
            None => levels_under_either(data@, key@, short@) is None,
        },
{
    match parse_levels(data, key) {
        Some(levels) => Some(levels),
        None => parse_levels(data, short),
    }
}

fn contract_of(v: &Json, data: &Json) -> (r: Vec<char>)
    requires
        data@ == payload(v@),
    ensures
        r@ == message_contract(v@),
{
    match data.get("s") {
        Some(s) => match s.as_str() {
            Some(s) => return chars_of(s),
            None => {},
        },
        None => {},
    }
    match v.get("stream") {
        Some(s) => match s.as_str() {
            Some(s) => {
                let at: [char; 1] = ['@'];
                assert(at@ == seq!['@']);
                return part_before(&chars_of(s), &at);
            },
            None => {},
        },
        None => {},
    }
    Vec::new()
}

/// Reads the name and the imbalance out of a message.
pub fn read_message(v: &Json) -> (r: Option<(String, B64)>)
    ensures
        match r {
            Some((base, imbalance)) => reading(v@) == Some((base@, imbalance)),
            None => reading(v@) is None,
        },
{
    let data: &Json = match v.get("data") {
        Some(data) => data,
        None => v,
    };
    let contract = to_upper(&contract_of(v, data));
    let base = strip_suffixes(&contract, &chars_of("USDT"));
    if base.len() == 0 {
        return None;
    }
    let bids = match parse_levels_either(data, "bids", "b") {
        Some(bids) => bids,
        None => return None,
    };
    let asks = match parse_levels_either(data, "asks", "a") {
        Some(asks) => asks,
        None => return None,
    };
    let best_bid: B64 = bids[0].0;
    let best_ask: B64 = asks[0].0;
    if best_bid.le(num(ZERO)) || best_ask.le(best_bid) {
        return None;
    }
    let mid: B64 = best_bid.add(best_ask).mul(num(HALF));
    let imbalance: B64 = sum_bid_from(&bids, mid.mul(num(ONE).sub(num(P025)))).sub(
        sum_ask_to(&asks, mid.mul(num(ONE).add(num(P025)))),
    );
    Some((string_of(&base), imbalance))
}

impl BinanceAlphaHub {
    pub open spec fn wf(&self) -> bool {
        self.alphas.wf()
    }

    pub fn new() -> (r: BinanceAlphaHub)
        ensures
            r.wf(),
            r@ == (HubView { alphas: Map::empty(), wanted: Seq::empty() }),
    {
        let r = BinanceAlphaHub { alphas: Table::new(), wanted: Vec::new() };
        assert(texts(r.wanted@) =~= Seq::<Seq<char>>::empty());
        r
    }

    fn is_listed(&self, symbol: &str) -> (r: bool)
        ensures
            r == listed(self@.wanted, symbol@),
    {
        let mut i: usize = 0;
        while i < self.wanted.len()
            invariant
                i <= self.wanted.len(),
                forall|k: int| 0 <= k < i ==> lower(#[trigger] self@.wanted[k]) != lower(symbol@),
            decreases self.wanted.len() - i,
        {
            assert(self@.wanted[i as int] == self.wanted@[i as int]@);
            if same_ignoring_case(self.wanted[i].as_str(), symbol) {
                return true;
            }
            i = i + 1;
        }
        false
    }

    fn slot(&self, name: &str) -> (r: SharedAlpha)
        requires
            self.wf(),
        ensures
            r == slot_of(self@.alphas, name@),
    {
        match self.alphas.get(name) {
            Some(slot) => *slot,
            None => SharedAlpha::new(),
        }
    }

    /// Puts a symbol with a contract on the watch list.
    pub fn watch_one(&mut self, symbol: &str)
        requires
            old(self).wf(),
        ensures
            final(self).wf(),
            final(self)@ == old(self)@.watching(symbol@),
    {
        if binance_futures_symbol(symbol).is_none() {
            return;
        }
        let ghost before = self@;
        if !self.is_listed(symbol) {
            self.wanted.push(copy_text(symbol));
            assert(texts(self.wanted@) =~= before.wanted.push(symbol@));
        }
        let name = string_of(&to_upper(&chars_of(symbol)));
        let slot: SharedAlpha = self.slot(name.as_str());
        self.alphas.insert(name.as_str(), slot);
        assert(self@ =~= before.watching(symbol@));
    }

    /// Puts symbols with a contract on the watch list.
    pub fn watch(&mut self, symbols: &[String])
        requires
            old(self).wf(),
        ensures
            final(self).wf(),
            final(self)@ == old(self)@.watching_all(texts(symbols@)),
    {
        let ghost all = texts(symbols@);
        let ghost before = self@;
        let mut i: usize = 0;
        assert(all.take(0) == Seq::<Seq<char>>::empty());
        while i < symbols.len()
            invariant
                i <= symbols.len(),
                self.wf(),
                all == texts(symbols@),
                self@ == before.watching_all(all.take(i as int)),
            decreases symbols.len() - i,
        {
            proof {
                assert(all.take(i as int + 1).drop_last() == all.take(i as int));
                assert(all.take(i as int + 1).last() == symbols@[i as int]@);
            }
            self.watch_one(symbols[i].as_str());
            i = i + 1;
        }
        assert(all.take(i as int) == all);
    }

    /// The alpha of a symbol, unless it is stale or rests on too few samples.
    pub fn alpha(&self, symbol: &str, stale_secs: B64, now_ms: u64) -> (r: Option<B64>)
        requires
            self.wf(),
        ensures
            r == self@.alpha(symbol@, stale_secs, now_ms),
    {
        let key = string_of(&to_upper(&chars_of(symbol)));
        match self.alphas.get(key.as_str()) {
            Some(slot) => {
                let stale_ms: u64 = stale_secs.max(num(HALF)).mul(num(THOUSAND)).to_u64();
                slot.get_if_fresh(
                    if stale_ms < LEAST_STALE_MS {
                        LEAST_STALE_MS
                    } else {
                        stale_ms
                    },
                    now_ms,
                )
            },
            None => None,
        }
    }

    /// The address of the combined stream of the watch list; none while
    /// nothing on it has a contract.
    pub fn stream_url(&self) -> (r: Option<String>)
        ensures
            ({
                let names = stream_names(self@.wanted);
                match r {
                    Some(url) => names.len() > 0 && url@ == "wss://fstream.binance.com/stream?streams="@
                        + slashed(names),
                    None => names.len() == 0,
                }
            }),
    {
        let ghost all = self@.wanted;
        let ghost mut names: Seq<Seq<char>> = Seq::empty();
        let mut joined: String = String::new();
        let mut empty: bool = true;
        let mut i: usize = 0;
        assert(all.take(0) == Seq::<Seq<char>>::empty());
        while i < self.wanted.len()
            invariant
                i <= self.wanted.len(),
                all == self@.wanted,
                names == stream_names(all.take(i as int)),
                empty == (names.len() == 0),
                joined@ == slashed(names),
            decreases self.wanted.len() - i,
        {
            proof {
                assert(all.take(i as int + 1).drop_last() == all.take(i as int));
                assert(all.take(i as int + 1).last() == self.wanted@[i as int]@);
            }
            match binance_futures_symbol(self.wanted[i].as_str()) {
                Some(contract) => {
                    let mut name = string_of(&to_lower(&chars_of(contract.as_str())));
                    append(&mut name, "@depth20@100ms");
                    let ghost before = names;
                    if !empty {
                        append(&mut joined, "/");
                    }
                    append(&mut joined, name.as_str());
                    empty = false;
                    proof {
                        names = names.push(name@);
                        assert(names.drop_last() == before);
                        assert(slashed(names) =~= joined@);
                    }
                },
                None => {},
            }
            i = i + 1;
        }
        assert(all.take(i as int) == all);
        if empty {
            return None;
        }
        let mut url = copy_text("wss://fstream.binance.com/stream?streams=");
        append(&mut url, joined.as_str());
        Some(url)
    }

    /// Takes a parsed message in.
    pub fn on_document(&mut self, v: &Json, stats: &mut Table<RollingStats>, now_ms: u64)
        requires
            old(self).wf(),
            stats_wf(*old(stats)),
        ensures
            final(self).wf(),
            stats_wf(*final(stats)),
            final(self)@ == old(self)@.received(v@, stats_view(old(stats)@), now_ms),
            stats_view(final(stats)@) == stats_received(v@, stats_view(old(stats)@)),
    {
        let (base, imbalance): (String, B64) = match read_message(v) {
            Some(reading) => reading,
            None => return,
        };
        let ghost before = stats@;
        let ghost hub = self@;
        let mut slot: RollingStats = match stats.remove(base.as_str()) {
            Some(slot) => slot,
            None => RollingStats::new(WINDOW),
        };
        slot.push(imbalance);
        let alpha: B64 = slot.zscore(imbalance);
        let ghost pushed = slot@;
        stats.insert(base.as_str(), slot);
        proof {
            assert(pushed == next_stats(stats_view(before), base@, imbalance));
            assert(stats_view(stats@) =~= stats_view(before).insert(base@, pushed));
        }
        let mut shared: SharedAlpha = self.slot(base.as_str());
        shared.publish(alpha, now_ms);
        self.alphas.insert(base.as_str(), shared);
        assert(self@ =~= hub.received(v@, stats_view(before), now_ms));
    }

    /// Takes a message in; a text that is no JSON document changes nothing.
    pub fn on_message(&mut self, text: &str, stats: &mut Table<RollingStats>, now_ms: u64)
        requires
            old(self).wf(),
            stats_wf(*old(stats)),
        ensures
            final(self).wf(),
            stats_wf(*final(stats)),
            match parsed_json(text@) {
                Some(v) => {
                    &&& final(self)@ == old(self)@.received(v, stats_view(old(stats)@), now_ms)
                    &&& stats_view(final(stats)@) == stats_received(v, stats_view(old(stats)@))
                },
                None => final(self)@ == old(self)@ && final(stats)@ == old(stats)@,
            },
    {
        match Json::parse(text) {
            Some(v) => self.on_document(&v, stats, now_ms),
            None => {},
        }
    }
}

/// What happened to the feed.
#[derive(Debug)]
pub enum FeedEvent {
    /// The feed starts, or a pause has passed.
    Idle,
    Connected,
    ConnectFailed,
    Text(String),
    Ping,
    /// A message that carries nothing for the feed.
    Other,
    /// The other side closed, the stream ended or failed.
    Lost,
}

/// What the feed does next.
#[derive(Debug)]
pub enum FeedAction {
    /// Pause for two seconds.
    Pause,
    /// Connect to an address.
    Connect(String),
    /// Wait for the next message.
    Read,
    /// Answer a ping, then wait for the next message.
    Pong,
}

/// An action without its address.
pub enum FeedMove {
    Pause,
    Connect,
    Read,
    Pong,
}

impl FeedAction {
    pub open spec fn kind(self) -> FeedMove {
        match self {
            FeedAction::Pause => FeedMove::Pause,
            FeedAction::Connect(_) => FeedMove::Connect,
            FeedAction::Read => FeedMove::Read,
            FeedAction::Pong => FeedMove::Pong,
        }
    }
}

impl HubView {
    /// The next move of the feed: an idle feed connects once something on the
    /// watch list has a contract, an open one reads on, and a lost one pauses.
    pub open spec fn next_move(self, event: FeedEvent) -> FeedMove {
        match event {
            FeedEvent::Idle => if stream_names(self.wanted).len() == 0 {
                FeedMove::Pause
            } else {
                FeedMove::Connect
            },
            FeedEvent::Connected => FeedMove::Read,
            FeedEvent::ConnectFailed => FeedMove::Pause,
            FeedEvent::Text(_) => FeedMove::Read,
            FeedEvent::Ping => FeedMove::Pong,
            FeedEvent::Other => FeedMove::Read,
            FeedEvent::Lost => FeedMove::Pause,
        }
    }
}

impl BinanceAlphaHub {
    /// Takes an event of the feed in and says what to do next. Every
    /// connection starts with fresh statistics; a text is taken as a message.
    pub fn feed_step(&mut self, event: FeedEvent, stats: &mut Table<RollingStats>, now_ms: u64) -> (r: FeedAction)
        requires
            old(self).wf(),
            stats_wf(*old(stats)),
        ensures
            final(self).wf(),
            stats_wf(*final(stats)),
            r.kind() == old(self)@.next_move(event),
            match r {
                FeedAction::Connect(url) => url@ == "wss://fstream.binance.com/stream?streams="@ + slashed(
                    stream_names(old(self)@.wanted),
                ),
                _ => true,
            },
            match event {
                FeedEvent::Text(text) => match parsed_json(text@) {
                    Some(v) => {
                        &&& final(self)@ == old(self)@.received(v, stats_view(old(stats)@), now_ms)
                        &&& stats_view(final(stats)@) == stats_received(v, stats_view(old(stats)@))
                    },
                    None => final(self)@ == old(self)@ && final(stats)@ == old(stats)@,
                },
                FeedEvent::Connected => final(self)@ == old(self)@ && final(stats)@ == Map::<
                    Seq<char>,
                    RollingStats,
                >::empty(),
                _ => final(self)@ == old(self)@ && final(stats)@ == old(stats)@,
            },
    {
        match event {
            FeedEvent::Idle => match self.stream_url() {
                Some(url) => FeedAction::Connect(url),
                None => FeedAction::Pause,
            },
            FeedEvent::Connected => {
                stats.clear();
                FeedAction::Read
            },
            FeedEvent::ConnectFailed => FeedAction::Pause,
            FeedEvent::Text(text) => {
                self.on_message(text.as_str(), stats, now_ms);
                FeedAction::Read
            },
            FeedEvent::Ping => FeedAction::Pong,
            FeedEvent::Other => FeedAction::Read,
            FeedEvent::Lost => FeedAction::Pause,
        }
    }
}

/// Published often enough, an alpha can be read until it goes stale.
pub proof fn law_published_alpha_is_read(slot: SharedAlpha, alpha: B64, now_ms: u64, stale_ms: u64, later_ms: u64)
    requires
        now_ms > 0,
        MIN_SAMPLES - 1 <= slot.samples < u64::MAX,
    ensures
        slot.published(alpha, now_ms).get_if_fresh(stale_ms, later_ms) == (if later_ms - now_ms > stale_ms {
            None
        } else {
            Some(alpha)
        }),
{
}

/// An alpha of too few samples is never read.
pub proof fn law_first_samples_are_not_read(slot: SharedAlpha, alpha: B64, now_ms: u64, stale_ms: u64, later_ms: u64)
    requires
        slot.samples < MIN_SAMPLES - 1,
    ensures
        slot.published(alpha, now_ms).get_if_fresh(stale_ms, later_ms) is None,
        SharedAlpha::fresh().get_if_fresh(stale_ms, later_ms) is None,
{
}

/// A symbol without a contract is never watched.
pub proof fn law_equities_are_not_watched(hub: HubView, symbol: Seq<char>)
    requires
        equity_ticker(ticker_of(symbol)),
    ensures
        futures_contract(symbol) is None,
        hub.watching(symbol) == hub,
{
}

/// Watching a symbol twice is watching it once.
pub proof fn law_watch_is_idempotent(hub: HubView, symbol: Seq<char>)
    ensures
        hub.watching(symbol).watching(symbol) == hub.watching(symbol),
{
    let once = hub.watching(symbol);
    if futures_contract(symbol) is Some {
        if !listed(hub.wanted, symbol) {
            assert(once.wanted[hub.wanted.len() as int] == symbol);
        }
        assert(listed(once.wanted, symbol));
        assert(once.watching(symbol) =~= once);
    }
}

} // verus!
