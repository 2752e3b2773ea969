//! What the figures of an account mean.

use vstd::prelude::*;

use crate::binary64::consts::{TINY_12, ZERO};
use crate::binary64::error::{lemma_count_exact, lemma_exact_sign, size, whole};
use crate::binary64::facts::lemma_times_one;
use crate::binary64::layout::lemma_units_zero;
use crate::binary64::measure::{lemma_finite_terms, lemma_grown, lemma_next_term};
use crate::binary64::order::lemma_value_order;
use crate::binary64::{num, B64};
use crate::hft::readings::lemma_whole_part;
use crate::json::JsonView;
use crate::strategy::drift::grown;
use crate::text::{boundary_at, utf8_len};

use super::account::{
    account_in, account_in_root, account_of, account_outcome, code_of, collateral_of, json_number,
    lists_no_accounts, market_name, nothing_in, position_in, positions_in, shortened, unrealized_sum,
};
use super::error::LighterFault;
use super::types::{AccountView, PositionView, Side};

verus! {

/// The exact unrealized profit of several positions.
pub open spec fn exact_profit(positions: Seq<PositionView>) -> real
    decreases positions.len(),
{
    if positions.len() == 0 {
        0real
    } else {
        exact_profit(positions.drop_last()) + positions.last().unrealized_pnl.exact()
    }
}

/// How large the profits of several positions are together.
pub open spec fn profit_scale(positions: Seq<PositionView>) -> real
    decreases positions.len(),
{
    if positions.len() == 0 {
        0real
    } else {
        profit_scale(positions.drop_last()) + size(positions.last().unrealized_pnl.exact())
    }
}

/// The error of so many roundings of numbers of a magnitude.
pub open spec fn rounding_error(count: nat, magnitude: real) -> real
    decreases count,
{
    if count == 0 {
        0real
    } else {
        grown(rounding_error((count - 1) as nat, magnitude), magnitude)
    }
}

proof fn lemma_profit_sum(positions: Seq<PositionView>, magnitude: real)
    requires
        unrealized_sum(positions).finite(),
        profit_scale(positions) <= magnitude,
    ensures
        size(unrealized_sum(positions).exact() - exact_profit(positions)) <= rounding_error(
            positions.len(),
            magnitude,
        ),
        size(exact_profit(positions)) <= profit_scale(positions),
        0real <= rounding_error(positions.len(), magnitude),
        0real <= profit_scale(positions),
    decreases positions.len(),
{
    lemma_exact_sign(num(ZERO));
    if positions.len() > 0 {
        let front = positions.drop_last();
        let (t, x) = (unrealized_sum(front), positions.last().unrealized_pnl);
        lemma_finite_terms(t, x);
        lemma_profit_sum(front, magnitude);
        let e = rounding_error(front.len(), magnitude);
        lemma_grown(e, magnitude);
        lemma_next_term(t, exact_profit(front), e, x, magnitude);
    }
}

/// The equity of an account is its collateral and the unrealized profit of all
/// its positions, up to one rounding for each of them and one for the total.
pub proof fn law_equity_is_collateral_and_profit(account: JsonView)
    requires
        account_of(account).total_equity.finite(),
    ensures
        ({
            let view = account_of(account);
            let collateral = collateral_of(account);
            let magnitude = size(collateral.exact()) + profit_scale(view.positions);
            &&& collateral.finite()
            &&& size(view.total_equity.exact() - (collateral.exact() + exact_profit(view.positions)))
                <= rounding_error(view.positions.len() + 1, magnitude)
        }),
{
    let positions = account_of(account).positions;
    let collateral = collateral_of(account);
    let sum = unrealized_sum(positions);
    let magnitude = size(collateral.exact()) + profit_scale(positions);
    lemma_finite_terms(collateral, sum);
    lemma_profit_sum(positions, magnitude);
    let e = rounding_error(positions.len(), magnitude);
    lemma_grown(e, magnitude);
    crate::binary64::facts::lemma_add_swap(collateral, sum);
    lemma_next_term(sum, exact_profit(positions), e, collateral, magnitude);
    assert(((positions.len() + 1) - 1) as nat == positions.len());
}

/// A position of a size other than dust is long where its size and its sign
/// agree and short where they differ, held by the size alone, with the entry
/// price and the profit that its entry names. Without a sign the size decides.
pub proof fn law_positions_have_a_side(p: JsonView, amount: B64)
    requires
        json_number(p.get("position"@)) == Some(amount),
        amount.finite(),
        amount.abs().ge(num(TINY_12)),
    ensures
        position_in(p) is Some,
        ({
            let r = position_in(p)->0;
            let sign = json_number(p.get("sign"@));
            let turned = sign is Some && !sign->0.ge(num(ZERO));
            &&& r.size == amount.abs()
            &&& (r.side == Side::Buy) == (amount.gt(num(ZERO)) != turned)
            &&& r.entry_price == (match json_number(p.get("avg_entry_price"@)) {
                Some(x) => x,
                None => match json_number(p.get("entry_price"@)) {
                    Some(x) => x,
                    None => num(ZERO),
                },
            })
            &&& r.unrealized_pnl == (match json_number(p.get("unrealized_pnl"@)) {
                Some(x) => x,
                None => num(ZERO),
            })
            &&& p.get("symbol"@) is Some && p.get("symbol"@)->0.text() is Some ==> r.symbol
                == p.get("symbol"@)->0.text()->0
        }),
{
    lemma_times_one(amount);
    lemma_units_zero();
    lemma_value_order(amount, num(ZERO));
    lemma_value_order(amount.neg(), num(ZERO));
    lemma_value_order(amount.abs(), num(ZERO));
    lemma_value_order(num(ZERO), num(TINY_12));
    assert(amount.neg().abs() == amount.abs());
}

/// Dust is no position.
pub proof fn law_dust_is_no_position(p: JsonView, amount: B64)
    requires
        json_number(p.get("position"@)) == Some(amount),
        amount.finite(),
        amount.abs().lt(num(TINY_12)),
    ensures
        position_in(p) is None,
{
    lemma_times_one(amount);
    assert(amount.neg().abs() == amount.abs());
}

/// Every entry that is a position is one of the account, in order.
pub proof fn law_positions_are_listed_in_order(entries: Seq<JsonView>, p: JsonView)
    ensures
        positions_in(entries.push(p)) == (match position_in(p) {
            Some(view) => positions_in(entries).push(view),
            None => positions_in(entries),
        }),
        positions_in(Seq::empty()) == Seq::<PositionView>::empty(),
{
    assert(entries.push(p).drop_last() =~= entries);
}

/// The collateral of an account is under its name; without one the available
/// balance stands for it, and without that the value of all assets. What is
/// free is the available balance, or the collateral.
pub proof fn law_balances_are_read_by_name(account: JsonView)
    ensures
        ({
            let given = json_number(account.get("collateral"@));
            let available = json_number(account.get("available_balance"@));
            let assets = json_number(account.get("total_asset_value"@));
            let free = account_of(account).balances[0].free;
            &&& given is Some ==> collateral_of(account) == given->0
            &&& given is None && available is Some ==> collateral_of(account) == available->0
            &&& given is None && available is None && assets is Some ==> collateral_of(account) == assets->0
            &&& given is None && available is None && assets is None ==> collateral_of(account) == num(ZERO)
            &&& available is Some ==> free == available->0
            &&& available is None ==> free == collateral_of(account)
            &&& account_of(account).balances.len() == 1
            &&& account_of(account).balances[0].locked == num(ZERO)
        }),
{
}

/// A response with an account gives it; one without gives an empty account
/// where it lists none or reports success, and an error elsewhere.
pub proof fn law_responses_give_the_account_or_an_error(resp: JsonView, rendered: Seq<char>)
    ensures
        account_in(resp) is Some ==> account_outcome(resp, rendered) == Ok::<_, LighterFault>(
            account_of(account_in(resp)->0),
        ),
        account_in(resp) is None && (lists_no_accounts(resp) || code_of(resp) == 200) ==> account_outcome(
            resp,
            rendered,
        ) is Ok && account_outcome(resp, rendered)->Ok_0.positions.len() == 0 && account_outcome(
            resp,
            rendered,
        )->Ok_0.total_equity == num(ZERO),
        account_in(resp) is None && !lists_no_accounts(resp) && code_of(resp) != 200 ==> account_outcome(
            resp,
            rendered,
        ) is Err,
{
}

/// The first two markets go by their coin, the others by their number.
pub proof fn law_markets_have_names(index: u32)
    ensures
        market_name(0) == "ETH"@,
        market_name(1) == "BTC"@,
        index > 1 ==> market_name(index) == "MARKET_"@ + crate::text::decimal_text(index as nat),
{
}

/// The account is the first object under `accounts`, at the top of a response
/// or inside its data; an object that looks like one may stand under `account`.
pub proof fn law_accounts_are_found_by_name(resp: JsonView, items: Seq<JsonView>)
    requires
        items.len() > 0,
        items[0] is Obj,
    ensures
        resp.get("accounts"@) == Some(JsonView::Arr(items)) ==> account_in(resp) == Some(items[0]),
        account_in_root(resp) is None && resp.get("data"@) is Some && resp.get("data"@)->0.get("accounts"@) == Some(
            JsonView::Arr(items),
        ) ==> account_in(resp) == Some(items[0]),
        resp.get("accounts"@) is None && resp.get("detailed_accounts"@) is None && resp.get("account"@) == Some(
            items[0],
        ) && items[0].has("collateral"@) ==> account_in(resp) == Some(items[0]),
{
    assert(items.first() == items[0]);
}

/// An account looks empty only where it holds neither a position nor equity nor
/// anything free.
pub proof fn law_empty_accounts_hold_nothing(info: AccountView, i: int)
    requires
        nothing_in(info),
        0 <= i < info.balances.len(),
    ensures
        info.positions.len() == 0,
        !info.total_equity.abs().ge(num(TINY_12)),
        !info.balances[i].free.abs().ge(num(TINY_12)),
{
    assert(info.balances[i].free.abs().lt(num(TINY_12)));
}

/// A position without a symbol is named after its market.
pub proof fn law_positions_are_named_after_their_market(p: JsonView, id: u32, amount: B64)
    requires
        p.get("market_id"@) == Some(JsonView::PosInt(id as u64)),
        id > 0,
        p.get("symbol"@) is None,
        json_number(p.get("position"@)) == Some(amount),
        amount.finite(),
        amount.abs().ge(num(TINY_12)),
    ensures
        position_in(p) is Some,
        position_in(p)->0.symbol == market_name(id),
{
    law_positions_have_a_side(p, amount);
    let x = B64::from_u64(id as u64);
    lemma_count_exact(id as u64);
    lemma_whole_part(x);
    let n = x.to_u64() as int;
    assert(whole(n) <= whole(id as int) < whole(n) + 1real);
    assert(n == id);
}

/// The code of a response is its integer, -1 without one.
pub proof fn law_codes_are_read(resp: JsonView, code: u16)
    ensures
        resp.get("code"@) == Some(JsonView::PosInt(code as u64)) ==> code_of(resp) == code,
        resp.get("code"@) is None ==> code_of(resp) == -1,
{
}

/// The asset of an account is the first of its assets that is USDG or USDC, and
/// USDG where there is none.
pub proof fn law_assets_are_quote_currencies(account: JsonView, asset: JsonView, symbol: Seq<char>, others: Seq<JsonView>)
    requires
        asset.get("symbol"@) == Some(JsonView::Str(symbol)),
        symbol == "USDG"@ || symbol == "USDC"@,
    ensures
        account.get("assets"@) == Some(JsonView::Arr(seq![asset] + others)) ==> account_of(account).balances[0].asset
            == symbol,
        account.get("assets"@) is None ==> account_of(account).balances[0].asset == "USDG"@,
{
    let items = seq![asset] + others;
    assert(items.first() == asset);
}

/// A short response is shown whole; a long one is cut and marked.
pub proof fn law_long_responses_are_cut(rendered: Seq<char>)
    ensures
        utf8_len(rendered) <= 200 ==> shortened(rendered) == rendered,
        utf8_len(rendered) > 200 && boundary_at(rendered, 200) ==> {
            let shown = shortened(rendered);
            &&& shown.len() > 0
            &&& utf8_len(shown.drop_last()) == 200
            &&& shown.drop_last().is_prefix_of(rendered)
        },
{
    if utf8_len(rendered) > 200 && boundary_at(rendered, 200) {
        let n = choose|n: int| 0 <= n <= rendered.len() && #[trigger] utf8_len(rendered.take(n)) == 200nat;
        let cut = rendered.take(n);
        reveal_strlit("\u{2026}");
        let shown = shortened(rendered);
        assert(shown.drop_last() =~= cut);
        assert(rendered.take(cut.len() as int) =~= cut);
    }
}

} // verus!
