//! Markets, books, positions and signals.

use vstd::prelude::*;

use crate::binary64::B64;
use crate::clock::Timestamp;
use crate::table::Table;

verus! {

/// A market of the exchange's catalog.
#[derive(Debug)]
pub struct MarketInfo {
    pub market_id: u32,
    pub symbol: String,
    pub size_decimals: u32,
    pub price_decimals: u32,
    pub min_base_amount: B64,
    pub min_quote_amount: B64,
    pub last_trade_price: B64,
    pub market_type: String,
}

#[derive(Debug, Clone, Copy, PartialEq, Eq, Structural)]
pub enum Side {
    Buy,
    Sell,
}

#[derive(Debug, Clone, Copy, PartialEq, Eq, Structural)]
pub enum OrderType {
    Limit,
    Market,
}

#[derive(Debug, Clone, Copy, PartialEq, Eq, Structural)]
pub struct PriceLevel {
    pub price: B64,
    pub quantity: B64,
}

/// A book, best levels first.
#[derive(Debug)]
pub struct OrderBook {
    pub symbol: String,
    pub market_id: u32,
    pub bids: Vec<PriceLevel>,
    pub asks: Vec<PriceLevel>,
    pub timestamp: Timestamp,
}

/// What a book holds.
pub struct BookView {
    pub symbol: Seq<char>,
    pub market_id: u32,
    pub bids: Seq<PriceLevel>,
    pub asks: Seq<PriceLevel>,
    pub timestamp: Timestamp,
}

impl View for OrderBook {
    type V = BookView;

    open spec fn view(&self) -> BookView {
        BookView {
            symbol: self.symbol@,
            market_id: self.market_id,
            bids: self.bids@,
            asks: self.asks@,
            timestamp: self.timestamp,
        }
    }
}

impl BookView {
    pub open spec fn best_bid(self) -> Option<B64> {
        if self.bids.len() > 0 {
            Some(self.bids[0].price)
        } else {
            None
        }
    }

    pub open spec fn best_ask(self) -> Option<B64> {
        if self.asks.len() > 0 {
            Some(self.asks[0].price)
        } else {
            None
        }
    }
}

impl OrderBook {
    /// The price of the first bid.
    pub fn best_bid(&self) -> (r: Option<B64>)
        ensures
            r == self@.best_bid(),
    {
        if self.bids.len() > 0 {
            Some(self.bids[0].price)
        } else {
            None
        }
    }

    /// The price of the first ask.
    pub fn best_ask(&self) -> (r: Option<B64>)
        ensures
            r == self@.best_ask(),
    {
        if self.asks.len() > 0 {
            Some(self.asks[0].price)
        } else {
            None
        }
    }
}

#[derive(Debug)]
pub struct Balance {
    pub asset: String,
    pub free: B64,
    pub locked: B64,
}

#[derive(Debug)]
pub struct Position {
    pub symbol: String,
    pub side: Side,
    pub size: B64,
    pub entry_price: B64,
    pub unrealized_pnl: B64,
    pub leverage: B64,
}

#[derive(Debug)]
pub struct AccountInfo {
    pub balances: Vec<Balance>,
    pub positions: Vec<Position>,
    pub total_equity: B64,
}

pub struct BalanceView {
    pub asset: Seq<char>,
    pub free: B64,
    pub locked: B64,
}

pub struct PositionView {
    pub symbol: Seq<char>,
    pub side: Side,
    pub size: B64,
    pub entry_price: B64,
    pub unrealized_pnl: B64,
    pub leverage: B64,
}

/// What an account holds.
#[verifier::ext_equal]
pub struct AccountView {
    pub balances: Seq<BalanceView>,
    pub positions: Seq<PositionView>,
    pub total_equity: B64,
}

impl View for Balance {
    type V = BalanceView;

    open spec fn view(&self) -> BalanceView {
        BalanceView { asset: self.asset@, free: self.free, locked: self.locked }
    }
}

impl View for Position {
    type V = PositionView;

    open spec fn view(&self) -> PositionView {
        PositionView {
            symbol: self.symbol@,
            side: self.side,
            size: self.size,
            entry_price: self.entry_price,
            unrealized_pnl: self.unrealized_pnl,
            leverage: self.leverage,
        }
    }
}

pub open spec fn balance_views(v: Seq<Balance>) -> Seq<BalanceView> {
    Seq::new(v.len(), |i: int| v[i]@)
}

pub open spec fn position_views(v: Seq<Position>) -> Seq<PositionView> {
    Seq::new(v.len(), |i: int| v[i]@)
}

impl View for AccountInfo {
    type V = AccountView;

    open spec fn view(&self) -> AccountView {
        AccountView {
            balances: balance_views(self.balances@),
            positions: position_views(self.positions@),
            total_equity: self.total_equity,
        }
    }
}

/// The books and the signed positions at one moment, by symbol.
#[derive(Debug)]
pub struct MarketSnapshot {
    pub order_books: Table<OrderBook>,
    pub positions: Table<B64>,
}

impl MarketSnapshot {
    /// The books, in the order in which they are looked at.
    pub open spec fn books(&self) -> Seq<(Seq<char>, BookView)> {
        Seq::new(
            self.order_books.entries@.len(),
            |i: int| (self.order_books.entries@[i].0@, self.order_books.entries@[i].1@),
        )
    }

    /// A symbol has one book and one position at most.
    pub open spec fn wf(&self) -> bool {
        self.order_books.wf() && self.positions.wf()
    }

    pub fn new() -> (r: MarketSnapshot)
        ensures
            r.books() == Seq::<(Seq<char>, BookView)>::empty(),
            r.wf(),
            r.order_books@ == Map::<Seq<char>, OrderBook>::empty(),
            r.positions@ == Map::<Seq<char>, B64>::empty(),
    {
        let r = MarketSnapshot { order_books: Table::new(), positions: Table::new() };
        proof {
            let entries = r.order_books.entries@;
            assert(entries.len() > 0 ==> r.order_books@.dom().contains(entries[0].0@));
        }
        assert(r.books() =~= Seq::<(Seq<char>, BookView)>::empty());
        r
    }
}

/// An order that a strategy asks for.
#[derive(Debug)]
pub struct TradeSignal {
    pub symbol: String,
    pub market_id: u32,
    pub side: Side,
    pub price: B64,
    pub quantity: B64,
    pub order_type: OrderType,
    pub reason: String,
    pub timestamp: Timestamp,
    pub expected_edge_bps: Option<B64>,
    pub risk_reducing: bool,
}

/// What a signal says.
pub struct SignalView {
    pub symbol: Seq<char>,
    pub market_id: u32,
    pub side: Side,
    pub price: B64,
    pub quantity: B64,
    pub order_type: OrderType,
    pub reason: Seq<char>,
    pub timestamp: Timestamp,
    pub expected_edge_bps: Option<B64>,
    pub risk_reducing: bool,
}

impl View for TradeSignal {
    type V = SignalView;

    open spec fn view(&self) -> SignalView {
        SignalView {
            symbol: self.symbol@,
            market_id: self.market_id,
            side: self.side,
            price: self.price,
            quantity: self.quantity,
            order_type: self.order_type,
            reason: self.reason@,
            timestamp: self.timestamp,
            expected_edge_bps: self.expected_edge_bps,
            risk_reducing: self.risk_reducing,
        }
    }
}

/// What several signals say.
pub open spec fn signal_views(v: Seq<TradeSignal>) -> Seq<SignalView> {
    Seq::new(v.len(), |i: int| v[i]@)
}

} // verus!
