//! Statistics of a market scan.

use vstd::prelude::*;

use crate::binary64::consts::{BILLION, TEN_THOUSAND, ZERO};
use crate::binary64::{num, B64};
use crate::clock::Span;
use crate::strategy::market_making::mid_from_bbo;
use crate::text::copy_text;

use super::universe::{BboUpdate, BboView};

verus! {

/// Counts updates and keeps the latest one of each market.
#[derive(Debug)]
pub struct ScanStats {
    pub events: u64,
    pub latest: Vec<BboUpdate>,
}

/// A market and its current spread.
#[derive(Debug)]
pub struct SpreadRow {
    pub market_id: u32,
    pub symbol: String,
    pub spread_bps: B64,
}

pub struct RowView {
    pub market_id: u32,
    pub symbol: Seq<char>,
    pub spread_bps: B64,
}

impl View for SpreadRow {
    type V = RowView;

    open spec fn view(&self) -> RowView {
        RowView { market_id: self.market_id, symbol: self.symbol@, spread_bps: self.spread_bps }
    }
}

#[derive(Debug)]
pub struct ScanSummary {
    pub events: u64,
    pub live_markets: usize,
    pub events_per_second: B64,
    /// The widest spreads, widest first.
    pub top_spreads: Vec<SpreadRow>,
}

pub open spec fn bbo_views(v: Seq<BboUpdate>) -> Seq<BboView> {
    Seq::new(v.len(), |i: int| v[i]@)
}

pub open spec fn row_views(v: Seq<SpreadRow>) -> Seq<RowView> {
    Seq::new(v.len(), |i: int| v[i]@)
}

/// The place of a market among the latest updates, their number where it has
/// none.
pub open spec fn slot_from(latest: Seq<BboView>, market_id: u32, from: int) -> int
    decreases latest.len() - from,
{
    if from >= latest.len() || latest[from].market_id == market_id {
        from
    } else {
        slot_from(latest, market_id, from + 1)
    }
}

/// The latest updates after one more: it takes the place of the earlier one of
/// its market.
pub open spec fn recorded(latest: Seq<BboView>, update: BboView) -> Seq<BboView> {
    let slot = slot_from(latest, update.market_id, 0);
    if slot < latest.len() {
        latest.update(slot, update)
    } else {
        latest.push(update)
    }
}

/// The spread of an update in basis points, where it has a mid.
pub open spec fn row_of(update: BboView) -> Option<RowView> {
    match mid_from_bbo(update.bid_price, update.ask_price) {
        Some(mid) => Some(
            RowView {
                market_id: update.market_id,
                symbol: update.symbol,
                spread_bps: update.ask_price.sub(update.bid_price).div(mid).mul(num(TEN_THOUSAND)),
            },
        ),
        None => None,
    }
}

/// The first place whose spread is narrower.
pub open spec fn row_place(rows: Seq<RowView>, row: RowView, from: int) -> int
    decreases rows.len() - from,
{
    if from >= rows.len() || rows[from].spread_bps.total_lt(row.spread_bps) {
        from
    } else {
        row_place(rows, row, from + 1)
    }
}

/// The spreads of the latest updates, widest first; of two alike the market
/// that was seen first comes first.
pub open spec fn ranked_rows(latest: Seq<BboView>) -> Seq<RowView>
    decreases latest.len(),
{
    if latest.len() == 0 {
        Seq::empty()
    } else {
        let rest = ranked_rows(latest.drop_last());
        match row_of(latest.last()) {
            Some(row) => rest.insert(row_place(rest, row, 0), row),
            None => rest,
        }
    }
}

pub open spec fn first_rows(rows: Seq<RowView>, top: int) -> Seq<RowView> {
    if rows.len() <= top {
        rows
    } else {
        rows.take(top)
    }
}

/// A span as a number of seconds.
pub open spec fn seconds(span: Span) -> B64 {
    B64::from_u64((span.nanos / 1_000_000_000) as u64).add(
        B64::from_u64((span.nanos % 1_000_000_000) as u64).div(num(BILLION)),
    )
}

/// Updates per second; 0 over no time.
pub open spec fn event_rate(events: u64, elapsed: Span) -> B64 {
    if elapsed.nanos == 0 {
        num(ZERO)
    } else {
        B64::from_u64(events).div(seconds(elapsed))
    }
}

proof fn lemma_slot_bounds(latest: Seq<BboView>, market_id: u32, from: int)
    requires
        0 <= from <= latest.len(),
    ensures
        from <= slot_from(latest, market_id, from) <= latest.len(),
    decreases latest.len() - from,
{
    if from < latest.len() && latest[from].market_id != market_id {
        lemma_slot_bounds(latest, market_id, from + 1);
    }
}

proof fn lemma_row_place_bounds(rows: Seq<RowView>, row: RowView, from: int)
    requires
        0 <= from <= rows.len(),
    ensures
        from <= row_place(rows, row, from) <= rows.len(),
        forall|i: int|
            from <= i < row_place(rows, row, from) ==> !(#[trigger] rows[i]).spread_bps.total_lt(row.spread_bps),
        row_place(rows, row, from) < rows.len() ==> rows[row_place(rows, row, from)].spread_bps.total_lt(
            row.spread_bps,
        ),
    decreases rows.len() - from,
{
    if from < rows.len() && !rows[from].spread_bps.total_lt(row.spread_bps) {
        lemma_row_place_bounds(rows, row, from + 1);
    }
}

fn spread_row(update: &BboUpdate) -> (r: Option<SpreadRow>)
    ensures
        row_of(update@) == (match r {
            Some(row) => Some(row@),
            None => None::<RowView>,
        }),
{
    match mid_from_bbo(update.bid_price, update.ask_price) {
        Some(mid) => Some(
            SpreadRow {
                market_id: update.market_id,
                symbol: copy_text(update.symbol.as_str()),
                spread_bps: update.ask_price.sub(update.bid_price).div(mid).mul(num(TEN_THOUSAND)),
            },
        ),
        None => None,
    }
}

impl ScanStats {
    pub fn new() -> (r: ScanStats)
        ensures
            r.events == 0,
            bbo_views(r.latest@) == Seq::<BboView>::empty(),
    {
        let r = ScanStats { events: 0, latest: Vec::new() };
        assert(bbo_views(r.latest@) =~= Seq::<BboView>::empty());
        r
    }

    /// Takes an update in.
    pub fn record(&mut self, update: BboUpdate)
        requires
            old(self).events < u64::MAX,
        ensures
            final(self).events == old(self).events + 1,
            bbo_views(final(self).latest@) == recorded(bbo_views(old(self).latest@), update@),
    {
        let ghost list = bbo_views(self.latest@);
        let ghost update_view = update@;
        proof {
            lemma_slot_bounds(list, update.market_id, 0);
        }
        self.events = self.events + 1;
        let mut i: usize = 0;
        while i < self.latest.len() && self.latest[i].market_id != update.market_id
            invariant
                i <= self.latest.len(),
                list == bbo_views(self.latest@),
                slot_from(list, update.market_id, 0) == slot_from(list, update.market_id, i as int),
            decreases self.latest.len() - i,
        {
            assert(list[i as int] == self.latest@[i as int]@);
            i = i + 1;
        }
        if i < self.latest.len() {
            assert(list[i as int] == self.latest@[i as int]@);
            self.latest.set(i, update);
            assert(bbo_views(self.latest@) =~= list.update(i as int, update_view));
        } else {
            self.latest.push(update);
            assert(bbo_views(self.latest@) =~= list.push(update_view));
        }
    }

    fn ranked(&self) -> (r: Vec<SpreadRow>)
        ensures
            row_views(r@) == ranked_rows(bbo_views(self.latest@)),
    {
        let ghost all = bbo_views(self.latest@);
        let mut rows: Vec<SpreadRow> = Vec::new();
        let mut i: usize = 0;
        assert(all.take(0) =~= Seq::<BboView>::empty());
        assert(row_views(rows@) =~= Seq::<RowView>::empty());
        while i < self.latest.len()
            invariant
                i <= self.latest.len(),
                all == bbo_views(self.latest@),
                row_views(rows@) == ranked_rows(all.take(i as int)),
            decreases self.latest.len() - i,
        {
            proof {
                assert(all.take(i as int + 1).drop_last() =~= all.take(i as int));
                assert(all.take(i as int + 1).last() == self.latest@[i as int]@);
            }
            if let Some(row) = spread_row(&self.latest[i]) {
                let ghost list = row_views(rows@);
                let ghost row_view = row@;
                proof {
                    lemma_row_place_bounds(list, row_view, 0);
                }
                let mut p: usize = 0;
                while p < rows.len() && !rows[p].spread_bps.total_lt(row.spread_bps)
                    invariant
                        p <= rows.len(),
                        list == row_views(rows@),
                        row_view == row@,
                        row_place(list, row_view, 0) == row_place(list, row_view, p as int),
                    decreases rows.len() - p,
                {
                    assert(list[p as int] == rows@[p as int]@);
                    p = p + 1;
                }
                proof {
                    if p < rows.len() {
                        assert(list[p as int] == rows@[p as int]@);
                    }
                }
                rows.insert(p, row);
                assert(row_views(rows@) =~= list.insert(p as int, row_view));
            }
            i = i + 1;
        }
        assert(all.take(i as int) =~= all);
        rows
    }

    /// What the scan has seen over a span: counts, the rate of updates and the
    /// widest spreads.
    pub fn summary(&self, elapsed: Span, top: usize) -> (r: ScanSummary)
        requires
            elapsed.secs() <= u64::MAX,
        ensures
            r.events == self.events,
            r.live_markets == self.latest@.len(),
            r.events_per_second == event_rate(self.events, elapsed),
            row_views(r.top_spreads@) == first_rows(ranked_rows(bbo_views(self.latest@)), top as int),
    {
        let mut rows = self.ranked();
        let ghost all = row_views(rows@);
        if rows.len() > top {
            rows.truncate(top);
            assert(row_views(rows@) =~= all.take(top as int));
        }
        let events_per_second: B64 = if elapsed.nanos == 0 {
            num(ZERO)
        } else {
            let whole: u64 = (elapsed.nanos / 1_000_000_000) as u64;
            let rest: u64 = (elapsed.nanos % 1_000_000_000) as u64;
            B64::from_u64(self.events).div(B64::from_u64(whole).add(B64::from_u64(rest).div(num(BILLION))))
        };
        ScanSummary { events: self.events, live_markets: self.latest.len(), events_per_second, top_spreads: rows }
    }

    /// Forgets everything, as after the warm-up of the subscriptions.
    pub fn reset(&mut self)
        ensures
            final(self).events == 0,
            bbo_views(final(self).latest@) == Seq::<BboView>::empty(),
    {
        self.events = 0;
        self.latest.clear();
        assert(bbo_views(self.latest@) =~= Seq::<BboView>::empty());
    }
}

/// The spreads of a summary never widen from one row to the next.
pub proof fn law_spreads_are_ranked(latest: Seq<BboView>)
    ensures
        forall|i: int, j: int|
            0 <= i < j < ranked_rows(latest).len() ==> !(#[trigger] ranked_rows(latest)[i]).spread_bps.total_lt(
                (#[trigger] ranked_rows(latest)[j]).spread_bps,
            ),
    decreases latest.len(),
{
    if latest.len() > 0 {
        law_spreads_are_ranked(latest.drop_last());
        let rest = ranked_rows(latest.drop_last());
        if row_of(latest.last()) is Some {
            let row = row_of(latest.last())->0;
            let p = row_place(rest, row, 0);
            lemma_row_place_bounds(rest, row, 0);
            let all = ranked_rows(latest);
            assert forall|i: int, j: int| 0 <= i < j < all.len() implies !(#[trigger] all[i]).spread_bps.total_lt(
                (#[trigger] all[j]).spread_bps,
            ) by {
                let x = if i < p { i } else { i - 1 };
                let y = if j < p { j } else { j - 1 };
                if i != p {
                    assert(all[i] == rest[x]);
                }
                if j != p {
                    assert(all[j] == rest[y]);
                }
                if i == p {
                    assert(rest[p].spread_bps.total_lt(row.spread_bps));
                    if y > p {
                        assert(!rest[p].spread_bps.total_lt(rest[y].spread_bps));
                    }
                } else if j == p {
                    assert(!rest[x].spread_bps.total_lt(row.spread_bps));
                } else {
                    assert(!rest[x].spread_bps.total_lt(rest[y].spread_bps));
                }
            }
        }
    }
}

/// Of each market only the latest update counts.
pub proof fn law_later_updates_replace(latest: Seq<BboView>, first: BboView, second: BboView)
    requires
        first.market_id == second.market_id,
    ensures
        recorded(recorded(latest, first), second) == recorded(latest, second),
{
    let slot = slot_from(latest, first.market_id, 0);
    lemma_slot_bounds(latest, first.market_id, 0);
    lemma_slot_kept(latest, first, 0);
    assert(recorded(recorded(latest, first), second) =~= recorded(latest, second));
}

proof fn lemma_slot_kept(latest: Seq<BboView>, update: BboView, from: int)
    requires
        0 <= from <= slot_from(latest, update.market_id, 0),
        slot_from(latest, update.market_id, from) == slot_from(latest, update.market_id, 0),
        slot_from(latest, update.market_id, 0) <= latest.len(),
    ensures
        slot_from(recorded(latest, update), update.market_id, from) == slot_from(latest, update.market_id, 0),
    decreases latest.len() - from,
{
    let slot = slot_from(latest, update.market_id, 0);
    let after = recorded(latest, update);
    if from < slot {
        assert(latest[from].market_id != update.market_id);
        assert(after[from] == latest[from]);
        lemma_slot_kept(latest, update, from + 1);
    } else {
        assert(after[slot] == update);
    }
}

} // verus!
