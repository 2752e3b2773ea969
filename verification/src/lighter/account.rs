//! Account payloads of the exchange.
//!
//! The official shape is `{ "code": 200, "accounts": [ .. ] }`. Others are
//! `detailed_accounts`, `data.accounts`, a singular `account` object, or
//! balances as numeric strings. Error bodies such as
//! `{ "code": 29404, "message": "not found" }` have no accounts list.

use vstd::prelude::*;

use crate::binary64::consts::{MINUS_ONE, ONE, TINY_12, ZERO};
use crate::binary64::decimal::number_text;
use crate::binary64::{num, B64};
use crate::json::{render, rendered_json, tree_of, value_contents, Json, JsonView};
use crate::text::{
    append, boundary_at, chars_of, copy_text, cut_at, cut_text, decimal_text, i64_value, parse_i64, piece,
    same_text, string_of, to_decimal, trim, trimmed, utf8_len,
};

use super::error::{LighterError, LighterFault};
use super::types::{
    balance_views, position_views, AccountInfo, AccountView, Balance, BalanceView, Position, PositionView, Side,
};

verus! {

/// The first value, or else the second.
pub open spec fn first_some<T>(a: Option<T>, b: Option<T>) -> Option<T> {
    match a {
        Some(x) => Some(x),
        None => b,
    }
}

/// The number in a field, given as a number or as its text.
pub open spec fn json_number(v: Option<JsonView>) -> Option<B64> {
    match v {
        Some(v) => match v.number() {
            Some(x) => Some(x),
            None => match v.text() {
                Some(s) => number_text(s),
                None => None,
            },
        },
        None => None,
    }
}

/// The integer in a field: a number beyond the range wraps, one with a
/// fraction is cut, and a text is read.
pub open spec fn json_integer(v: Option<JsonView>) -> Option<i64> {
    match v {
        Some(JsonView::PosInt(n)) => Some(n as i64),
        Some(JsonView::NegInt(n)) => Some(n),
        Some(JsonView::Float(x)) => Some(x.to_i64()),
        Some(JsonView::Str(s)) => i64_value(s),
        _ => None,
    }
}

pub open spec fn looks_like_account(v: JsonView) -> bool {
    &&& v is Obj
    &&& v.has("collateral"@) || v.has("available_balance"@) || v.has("positions"@) || v.has("account_index"@)
        || v.has("index"@)
}

/// The first object of a list.
pub open spec fn first_object(items: Seq<JsonView>) -> Option<JsonView>
    decreases items.len(),
{
    if items.len() == 0 {
        None
    } else if items.first() is Obj {
        Some(items.first())
    } else {
        first_object(items.drop_first())
    }
}

/// The first field that looks like an account.
pub open spec fn first_account_field(fields: Seq<(Seq<char>, JsonView)>) -> Option<JsonView>
    decreases fields.len(),
{
    if fields.len() == 0 {
        None
    } else if looks_like_account(fields.first().1) {
        Some(fields.first().1)
    } else {
        first_account_field(fields.drop_first())
    }
}

/// The account in a node: the first object of a list, the node itself, or the
/// first of its fields that looks like one.
pub open spec fn account_in_node(node: JsonView) -> Option<JsonView> {
    match node {
        JsonView::Arr(items) => first_object(items),
        JsonView::Obj(fields) => if looks_like_account(node) {
            Some(node)
        } else {
            first_account_field(fields)
        },
        _ => None,
    }
}

pub open spec fn account_under(root: JsonView, key: Seq<char>) -> Option<JsonView> {
    match root.get(key) {
        Some(node) => account_in_node(node),
        None => None,
    }
}

/// The account under one of the known keys of a root, or the root itself.
pub open spec fn account_in_root(root: JsonView) -> Option<JsonView> {
    first_some(
        account_under(root, "accounts"@),
        first_some(
            account_under(root, "detailed_accounts"@),
            first_some(
                account_under(root, "account"@),
                first_some(
                    account_under(root, "detailed_account"@),
                    if looks_like_account(root) && !root.has("accounts"@) && !root.has("detailed_accounts"@) {
                        Some(root)
                    } else {
                        None
                    },
                ),
            ),
        ),
    )
}

pub open spec fn account_in_field(resp: JsonView, key: Seq<char>) -> Option<JsonView> {
    match resp.get(key) {
        Some(root) => account_in_root(root),
        None => None,
    }
}

/// The account in a response: in the response itself or in one of its wrappers.
pub open spec fn account_in(resp: JsonView) -> Option<JsonView> {
    first_some(
        account_in_root(resp),
        first_some(
            account_in_field(resp, "data"@),
            first_some(account_in_field(resp, "result"@), account_in_field(resp, "payload"@)),
        ),
    )
}

pub open spec fn empty_list_under(v: JsonView, key: Seq<char>) -> bool {
    match v.get(key) {
        Some(node) => node.items() is Some && node.items()->0.len() == 0,
        None => false,
    }
}

/// Whether a list of accounts is there and empty.
pub open spec fn lists_no_accounts(resp: JsonView) -> bool {
    ||| empty_list_under(resp, "accounts"@)
    ||| empty_list_under(resp, "detailed_accounts"@)
    ||| resp.has("data"@) && (empty_list_under(resp.get("data"@)->0, "accounts"@) || empty_list_under(
        resp.get("data"@)->0,
        "detailed_accounts"@,
    ))
}

/// A number or zero.
pub open spec fn or_zero(v: Option<B64>) -> B64 {
    match v {
        Some(x) => x,
        None => num(ZERO),
    }
}

/// The symbol of a market that the exchange did not name.
pub open spec fn market_name(index: u32) -> Seq<char> {
    if index == 0 {
        "ETH"@
    } else if index == 1 {
        "BTC"@
    } else {
        "MARKET_"@ + decimal_text(index as nat)
    }
}

/// A number as a market index: the whole part, saturating.
pub open spec fn index_of(x: B64) -> u32 {
    if x.to_u64() > u32::MAX {
        u32::MAX
    } else {
        x.to_u64() as u32
    }
}

pub open spec fn signed_size(p: JsonView) -> B64 {
    let size = or_zero(first_some(json_number(p.get("position"@)), json_number(p.get("size"@))));
    let sign = match json_number(p.get("sign"@)) {
        Some(x) => if x.ge(num(ZERO)) {
            num(ONE)
        } else {
            num(MINUS_ONE)
        },
        None => num(ONE),
    };
    size.mul(sign)
}

/// The position in an entry; none where its size is negligible.
pub open spec fn position_in(p: JsonView) -> Option<PositionView> {
    let size = signed_size(p);
    let index = index_of(or_zero(first_some(json_number(p.get("market_id"@)), json_number(p.get("market_index"@)))));
    if size.abs().lt(num(TINY_12)) {
        None
    } else {
        Some(
            PositionView {
                symbol: match p.get("symbol"@) {
                    Some(s) => match s.text() {
                        Some(s) => s,
                        None => market_name(index),
                    },
                    None => market_name(index),
                },
                side: if size.ge(num(ZERO)) { Side::Buy } else { Side::Sell },
                size: size.abs(),
                entry_price: or_zero(
                    first_some(json_number(p.get("avg_entry_price"@)), json_number(p.get("entry_price"@))),
                ),
                unrealized_pnl: or_zero(json_number(p.get("unrealized_pnl"@))),
                leverage: num(ONE),
            },
        )
    }
}

/// The positions in a list of entries.
pub open spec fn positions_in(entries: Seq<JsonView>) -> Seq<PositionView>
    decreases entries.len(),
{
    if entries.len() == 0 {
        Seq::empty()
    } else {
        let rest = positions_in(entries.drop_last());
        match position_in(entries.last()) {
            Some(p) => rest.push(p),
            None => rest,
        }
    }
}

pub open spec fn unrealized_sum(positions: Seq<PositionView>) -> B64
    decreases positions.len(),
{
    if positions.len() == 0 {
        num(ZERO)
    } else {
        unrealized_sum(positions.drop_last()).add(positions.last().unrealized_pnl)
    }
}

/// The first asset of a list that quotes are in.
pub open spec fn quote_symbol(assets: Seq<JsonView>) -> Option<Seq<char>>
    decreases assets.len(),
{
    if assets.len() == 0 {
        None
    } else {
        match assets.first().get("symbol"@) {
            Some(s) => match s.text() {
                Some(s) => if s == "USDG"@ || s == "USDC"@ {
                    Some(s)
                } else {
                    quote_symbol(assets.drop_first())
                },
                None => quote_symbol(assets.drop_first()),
            },
            None => quote_symbol(assets.drop_first()),
        }
    }
}

pub open spec fn asset_of(account: JsonView) -> Seq<char> {
    let found = match account.get("assets"@) {
        Some(node) => match node.items() {
            Some(items) => quote_symbol(items),
            None => None,
        },
        None => None,
    };
    match found {
        Some(s) => s,
        None => "USDG"@,
    }
}

pub open spec fn collateral_of(account: JsonView) -> B64 {
    or_zero(
        first_some(
            json_number(account.get("collateral"@)),
            first_some(
                json_number(account.get("available_balance"@)),
                json_number(account.get("total_asset_value"@)),
            ),
        ),
    )
}

pub open spec fn entries_of(account: JsonView) -> Seq<JsonView> {
    match account.get("positions"@) {
        Some(node) => match node.items() {
            Some(items) => items,
            None => Seq::empty(),
        },
        None => Seq::empty(),
    }
}

/// The account that an object describes.
pub open spec fn account_of(account: JsonView) -> AccountView {
    let collateral = collateral_of(account);
    let positions = positions_in(entries_of(account));
    AccountView {
        balances: seq![BalanceView {
            asset: asset_of(account),
            free: match json_number(account.get("available_balance"@)) {
                Some(x) => x,
                None => collateral,
            },
            locked: num(ZERO),
        }],
        positions,
        total_equity: collateral.add(unrealized_sum(positions)),
    }
}

/// An account without money or positions.
pub open spec fn no_account() -> AccountView {
    AccountView {
        balances: seq![BalanceView { asset: "USDG"@, free: num(ZERO), locked: num(ZERO) }],
        positions: Seq::empty(),
        total_equity: num(ZERO),
    }
}

pub open spec fn code_of(resp: JsonView) -> i32 {
    (match json_integer(resp.get("code"@)) {
        Some(n) => n,
        None => -1i64,
    }) as i32
}

pub open spec fn message_of(resp: JsonView) -> Seq<char> {
    match resp.get("message"@) {
        Some(m) => match m.text() {
            Some(s) => trimmed(s),
            None => trimmed(""@),
        },
        None => trimmed(""@),
    }
}

/// The longest rendering of a response that an error carries in full.
pub const RENDERED_LIMIT: usize = 200;

/// A rendering, cut where it is too long.
pub open spec fn shortened(rendered: Seq<char>) -> Seq<char> {
    if utf8_len(rendered) <= RENDERED_LIMIT {
        rendered
    } else {
        cut_text(rendered, RENDERED_LIMIT as nat) + "…"@
    }
}

/// Whether an error has nothing to show but the response itself.
pub open spec fn shows_response(resp: JsonView) -> bool {
    &&& account_in(resp) is None
    &&& !lists_no_accounts(resp)
    &&& code_of(resp) != 200
    &&& message_of(resp).len() == 0
}

/// A rendering can be cut between two characters.
pub open spec fn can_shorten(rendered: Seq<char>) -> bool {
    utf8_len(rendered) <= RENDERED_LIMIT || boundary_at(rendered, RENDERED_LIMIT as nat)
}

/// The account in a response, an empty one where the exchange lists none, or
/// else the error that the exchange reports.
pub open spec fn account_outcome(resp: JsonView, rendered: Seq<char>) -> Result<AccountView, LighterFault> {
    match account_in(resp) {
        Some(account) => Ok(account_of(account)),
        None => if lists_no_accounts(resp) || code_of(resp) == 200 {
            Ok(no_account())
        } else {
            Err(
                LighterFault::ApiError {
                    code: code_of(resp),
                    message: if message_of(resp).len() == 0 {
                        "No account found in response: "@ + shortened(rendered)
                    } else {
                        message_of(resp)
                    },
                },
            )
        },
    }
}

/// What an account with nothing in it looks like.
pub open spec fn nothing_in(info: AccountView) -> bool {
    &&& info.positions.len() == 0
    &&& info.total_equity.abs().lt(num(TINY_12))
    &&& forall|i: int| 0 <= i < info.balances.len() ==> (#[trigger] info.balances[i]).free.abs().lt(num(TINY_12))
}

fn json_f64_of(value: Option<&Json>) -> (r: Option<B64>)
    ensures
        r == json_number(
            match value {
                Some(v) => Some(v@),
                None => None,
            },
        ),
{
    match value {
        Some(v) => match v.as_number() {
            Some(x) => Some(x),
            None => match v.as_str() {
                Some(s) => B64::parse(&chars_of(s)),
                None => None,
            },
        },
        None => None,
    }
}

fn json_i64_of(value: Option<&Json>) -> (r: Option<i64>)
    ensures
        r == json_integer(
            match value {
                Some(v) => Some(v@),
                None => None,
            },
        ),
{
    match value {
        Some(Json::PosInt(n)) => Some(
            #[verifier::truncate]
            (*n as i64),
        ),
        Some(Json::NegInt(n)) => Some(*n),
        Some(Json::Float(x)) => Some(x.to_i64()),
        Some(Json::Str(s)) => parse_i64(&chars_of(s.as_str())),
        _ => None,
    }
}

fn number_at(v: &Json, key: &str) -> (r: Option<B64>)
    ensures
        r == json_number(v@.get(key@)),
{
    json_f64_of(v.get(key))
}

fn number_at_either(v: &Json, key: &str, other: &str) -> (r: B64)
    ensures
        r == or_zero(first_some(json_number(v@.get(key@)), json_number(v@.get(other@)))),
{
    match number_at(v, key) {
        Some(x) => x,
        None => match number_at(v, other) {
            Some(x) => x,
            None => num(ZERO),
        },
    }
}

fn is_account(v: &Json) -> (r: bool)
    ensures
        r == looks_like_account(v@),
{
    v.is_object() && (v.has("collateral") || v.has("available_balance") || v.has("positions") || v.has(
        "account_index",
    ) || v.has("index"))
}

fn find_object(items: &Vec<Json>) -> (r: Option<&Json>)
    ensures
        ({
            let views = Seq::new(items@.len(), |i: int| items@[i]@);
            first_object(views) == (match r {
                Some(v) => Some(v@),
                None => None::<JsonView>,
            })
        }),
{
    let ghost views = Seq::new(items@.len(), |i: int| items@[i]@);
    let mut i: usize = 0;
    assert(views.skip(0) =~= views);
    while i < items.len()
        invariant
            i <= items.len(),
            views == Seq::new(items@.len(), |i: int| items@[i]@),
            first_object(views) == first_object(views.skip(i as int)),
        decreases items.len() - i,
    {
        assert(views.skip(i as int).first() == items@[i as int]@);
        assert(views.skip(i as int).drop_first() =~= views.skip(i as int + 1));
        if items[i].is_object() {
            return Some(&items[i]);
        }
        i = i + 1;
    }
    None
}

fn find_account_field(fields: &Vec<(String, Json)>) -> (r: Option<&Json>)
    ensures
        ({
            let views = Seq::new(fields@.len(), |i: int| (fields@[i].0@, fields@[i].1@));
            first_account_field(views) == (match r {
                Some(v) => Some(v@),
                None => None::<JsonView>,
            })
        }),
{
    let ghost views = Seq::new(fields@.len(), |i: int| (fields@[i].0@, fields@[i].1@));
    let mut i: usize = 0;
    assert(views.skip(0) =~= views);
    while i < fields.len()
        invariant
            i <= fields.len(),
            views == Seq::new(fields@.len(), |i: int| (fields@[i].0@, fields@[i].1@)),
            first_account_field(views) == first_account_field(views.skip(i as int)),
        decreases fields.len() - i,
    {
        assert(views.skip(i as int).first().1 == fields@[i as int].1@);
        assert(views.skip(i as int).drop_first() =~= views.skip(i as int + 1));
        if is_account(&fields[i].1) {
            return Some(&fields[i].1);
        }
        i = i + 1;
    }
    None
}

fn find_in_node(node: &Json) -> (r: Option<&Json>)
    ensures
        account_in_node(node@) == (match r {
            Some(v) => Some(v@),
            None => None::<JsonView>,
        }),
{
    match node {
        Json::Arr(items) => {
            assert(node@->Arr_0 =~= Seq::new(items@.len(), |i: int| items@[i]@));
            find_object(items)
        },
        Json::Obj(fields) => {
            assert(node@->Obj_0 =~= Seq::new(fields@.len(), |i: int| (fields@[i].0@, fields@[i].1@)));
            if is_account(node) {
                Some(node)
            } else {
                find_account_field(fields)
            }
        },
        _ => None,
    }
}

fn find_under<'a>(root: &'a Json, key: &str) -> (r: Option<&'a Json>)
    ensures
        account_under(root@, key@) == (match r {
            Some(v) => Some(v@),
            None => None::<JsonView>,
        }),
{
    match root.get(key) {
        Some(node) => find_in_node(node),
        None => None,
    }
}

fn find_in_root(root: &Json) -> (r: Option<&Json>)
    ensures
        account_in_root(root@) == (match r {
            Some(v) => Some(v@),
            None => None::<JsonView>,
        }),
{
    if let Some(v) = find_under(root, "accounts") {
        return Some(v);
    }
    if let Some(v) = find_under(root, "detailed_accounts") {
        return Some(v);
    }
    if let Some(v) = find_under(root, "account") {
        return Some(v);
    }
    if let Some(v) = find_under(root, "detailed_account") {
        return Some(v);
    }
    if is_account(root) && !root.has("accounts") && !root.has("detailed_accounts") {
        return Some(root);
    }
    None
}

fn find_in_field<'a>(resp: &'a Json, key: &str) -> (r: Option<&'a Json>)
    ensures
        account_in_field(resp@, key@) == (match r {
            Some(v) => Some(v@),
            None => None::<JsonView>,
        }),
{
    match resp.get(key) {
        Some(root) => find_in_root(root),
        None => None,
    }
}

fn first_account_object(resp: &Json) -> (r: Option<&Json>)
    ensures
        account_in(resp@) == (match r {
            Some(v) => Some(v@),
            None => None::<JsonView>,
        }),
{
    if let Some(v) = find_in_root(resp) {
        return Some(v);
    }
    if let Some(v) = find_in_field(resp, "data") {
        return Some(v);
    }
    if let Some(v) = find_in_field(resp, "result") {
        return Some(v);
    }
    find_in_field(resp, "payload")
}

fn is_empty_list(v: &Json, key: &str) -> (r: bool)
    ensures
        r == empty_list_under(v@, key@),
{
    match v.get(key) {
        Some(node) => match node.as_array() {
            Some(items) => items.len() == 0,
            None => false,
        },
        None => false,
    }
}

fn accounts_list_present_and_empty(resp: &Json) -> (r: bool)
    ensures
        r == lists_no_accounts(resp@),
{
    if is_empty_list(resp, "accounts") || is_empty_list(resp, "detailed_accounts") {
        return true;
    }
    match resp.get("data") {
        Some(data) => is_empty_list(data, "accounts") || is_empty_list(data, "detailed_accounts"),
        None => false,
    }
}

fn name_of_market(index: u32) -> (r: String)
    ensures
        r@ == market_name(index),
{
    if index == 0 {
        copy_text("ETH")
    } else if index == 1 {
        copy_text("BTC")
    } else {
        let mut r = copy_text("MARKET_");
        append(&mut r, string_of(&to_decimal(index as u128)).as_str());
        r
    }
}

fn position_from_json(p: &Json) -> (r: Option<Position>)
    ensures
        position_in(p@) == (match r {
            Some(p) => Some(p@),
            None => None::<PositionView>,
        }),
{
    let size: B64 = number_at_either(p, "position", "size");
    let sign: B64 = match number_at(p, "sign") {
        Some(x) => if x.ge(num(ZERO)) {
            num(ONE)
        } else {
            num(MINUS_ONE)
        },
        None => num(ONE),
    };
    let signed: B64 = size.mul(sign);
    if signed.abs().lt(num(TINY_12)) {
        return None;
    }
    let side: Side = if signed.ge(num(ZERO)) { Side::Buy } else { Side::Sell };
    let entry_price: B64 = number_at_either(p, "avg_entry_price", "entry_price");
    let unrealized_pnl: B64 = match number_at(p, "unrealized_pnl") {
        Some(x) => x,
        None => num(ZERO),
    };
    let whole: u64 = number_at_either(p, "market_id", "market_index").to_u64();
    let index: u32 = if whole > u32::MAX as u64 { u32::MAX } else { whole as u32 };
    let symbol: String = match p.get("symbol") {
        Some(s) => match s.as_str() {
            Some(s) => copy_text(s),
            None => name_of_market(index),
        },
        None => name_of_market(index),
    };
    Some(Position { symbol, side, size: signed.abs(), entry_price, unrealized_pnl, leverage: num(ONE) })
}

fn positions_from_json(account: &Json) -> (r: Vec<Position>)
    ensures
        position_views(r@) == positions_in(entries_of(account@)),
{
    let mut out: Vec<Position> = Vec::new();
    assert(position_views(out@) =~= Seq::<PositionView>::empty());
    let entries: &Vec<Json> = match account.get("positions") {
        Some(node) => match node.as_array() {
            Some(entries) => entries,
            None => return out,
        },
        None => return out,
    };
    let ghost all = entries_of(account@);
    let mut i: usize = 0;
    assert(all.take(0) =~= Seq::<JsonView>::empty());
    while i < entries.len()
        invariant
            i <= entries.len(),
            all.len() == entries.len(),
            forall|k: int| 0 <= k < entries@.len() ==> #[trigger] entries@[k]@ == all[k],
            position_views(out@) == positions_in(all.take(i as int)),
        decreases entries.len() - i,
    {
        proof {
            assert(all.take(i as int + 1).drop_last() =~= all.take(i as int));
            assert(all.take(i as int + 1).last() == entries@[i as int]@);
        }
        let ghost before = position_views(out@);
        if let Some(p) = position_from_json(&entries[i]) {
            let ghost view = p@;
            out.push(p);
            assert(position_views(out@) =~= before.push(view));
        }
        i = i + 1;
    }
    assert(all.take(i as int) =~= all);
    out
}

fn sum_unrealized(positions: &Vec<Position>) -> (r: B64)
    ensures
        r == unrealized_sum(position_views(positions@)),
{
    let ghost all = position_views(positions@);
    let mut sum: B64 = num(ZERO);
    let mut i: usize = 0;
    assert(all.take(0) =~= Seq::<PositionView>::empty());
    while i < positions.len()
        invariant
            i <= positions.len(),
            all == position_views(positions@),
            sum == unrealized_sum(all.take(i as int)),
        decreases positions.len() - i,
    {
        proof {
            assert(all.take(i as int + 1).drop_last() =~= all.take(i as int));
            assert(all.take(i as int + 1).last() == positions@[i as int]@);
        }
        sum = sum.add(positions[i].unrealized_pnl);
        i = i + 1;
    }
    assert(all.take(i as int) =~= all);
    sum
}

fn quote_asset(account: &Json) -> (r: String)
    ensures
        r@ == asset_of(account@),
{
    let assets: &Vec<Json> = match account.get("assets") {
        Some(node) => match node.as_array() {
            Some(assets) => assets,
            None => return copy_text("USDG"),
        },
        None => return copy_text("USDG"),
    };
    let ghost all = account@.get("assets"@)->0.items()->0;
    let mut i: usize = 0;
    assert(all.skip(0) =~= all);
    while i < assets.len()
        invariant
            i <= assets.len(),
            all.len() == assets.len(),
            forall|k: int| 0 <= k < assets@.len() ==> #[trigger] assets@[k]@ == all[k],
            quote_symbol(all) == quote_symbol(all.skip(i as int)),
            asset_of(account@) == (match quote_symbol(all) {
                Some(s) => s,
                None => "USDG"@,
            }),
        decreases assets.len() - i,
    {
        proof {
            assert(all.skip(i as int).first() == assets@[i as int]@);
            assert(all.skip(i as int).drop_first() =~= all.skip(i as int + 1));
        }
        if let Some(symbol) = assets[i].get("symbol") {
            if let Some(s) = symbol.as_str() {
                if same_text(s, "USDG") || same_text(s, "USDC") {
                    return copy_text(s);
                }
            }
        }
        i = i + 1;
    }
    copy_text("USDG")
}

fn one_balance(asset: String, free: B64) -> (r: Vec<Balance>)
    ensures
        balance_views(r@) == seq![BalanceView { asset: asset@, free, locked: num(ZERO) }],
{
    let mut balances: Vec<Balance> = Vec::new();
    let ghost name = asset@;
    balances.push(Balance { asset, free, locked: num(ZERO) });
    assert(balance_views(balances@) =~= seq![BalanceView { asset: name, free, locked: num(ZERO) }]);
    balances
}

/// The account that an object describes.
pub fn account_from_json(account: &Json) -> (r: AccountInfo)
    ensures
        r@ == account_of(account@),
{
    let collateral: B64 = match number_at(account, "collateral") {
        Some(x) => x,
        None => number_at_either(account, "available_balance", "total_asset_value"),
    };
    let free: B64 = match number_at(account, "available_balance") {
        Some(x) => x,
        None => collateral,
    };
    let asset = quote_asset(account);
    let positions = positions_from_json(account);
    let total_unrealized: B64 = sum_unrealized(&positions);
    AccountInfo {
        balances: one_balance(asset, free),
        total_equity: collateral.add(total_unrealized),
        positions,
    }
}

/// An account without money or positions.
pub fn empty_account_info() -> (r: AccountInfo)
    ensures
        r@ == no_account(),
{
    let r = AccountInfo {
        balances: one_balance(copy_text("USDG"), num(ZERO)),
        positions: Vec::new(),
        total_equity: num(ZERO),
    };
    assert(position_views(r.positions@) =~= Seq::<PositionView>::empty());
    r
}

/// Whether an account has no positions, no equity and no free balance.
pub fn account_looks_empty(info: &AccountInfo) -> (r: bool)
    ensures
        r == nothing_in(info@),
{
    if info.positions.len() > 0 || !info.total_equity.abs().lt(num(TINY_12)) {
        return false;
    }
    let mut i: usize = 0;
    while i < info.balances.len()
        invariant
            i <= info.balances.len(),
            forall|k: int| 0 <= k < i ==> (#[trigger] info@.balances[k]).free.abs().lt(num(TINY_12)),
        decreases info.balances.len() - i,
    {
        assert(info@.balances[i as int] == info.balances@[i as int]@);
        if !info.balances[i].free.abs().lt(num(TINY_12)) {
            return false;
        }
        i = i + 1;
    }
    true
}

/// A rendering, cut where it is too long; nothing where the cut would fall
/// inside a character.
pub fn truncate_json(rendered: &str) -> (r: Option<String>)
    ensures
        match r {
            Some(s) => can_shorten(rendered@) && s@ == shortened(rendered@),
            None => !can_shorten(rendered@),
        },
{
    let chars = chars_of(rendered);
    let n: usize = match cut_at(&chars, RENDERED_LIMIT) {
        Some(n) => n,
        None => return None,
    };
    if n == chars.len() {
        assert(chars@.take(n as int) =~= chars@);
        return Some(string_of(&chars));
    }
    let head = piece(&chars, 0, n);
    assert(head@ =~= chars@.take(n as int));
    let mut r = string_of(&head);
    append(&mut r, "…");
    Some(r)
}

/// Reads the tree of an account payload. `rendered` is the payload as text; an
/// error shows it where the exchange gave no message. There is no outcome where
/// that text would have to be cut inside a character.
pub fn account_info_of(resp: &Json, rendered: &str) -> (r: Option<Result<AccountInfo, LighterError>>)
    ensures
        match r {
            Some(Ok(info)) => account_outcome(resp@, rendered@) == Ok::<_, LighterFault>(info@),
            Some(Err(e)) => account_outcome(resp@, rendered@) == Err::<AccountView, _>(e@),
            None => true,
        },
        r is None <==> shows_response(resp@) && !can_shorten(rendered@),
{
    if let Some(account) = first_account_object(resp) {
        return Some(Ok(account_from_json(account)));
    }
    let code: i32 = {
        let n: i64 = match json_i64_of(resp.get("code")) {
            Some(n) => n,
            None => -1,
        };
        #[verifier::truncate]
        (n as i32)
    };
    let text: &str = match resp.get("message") {
        Some(m) => match m.as_str() {
            Some(s) => s,
            None => "",
        },
        None => "",
    };
    let message = trim(&chars_of(text));
    if accounts_list_present_and_empty(resp) || code == 200 {
        return Some(Ok(empty_account_info()));
    }
    let message: String = if message.len() == 0 {
        let mut shown = copy_text("No account found in response: ");
        match truncate_json(rendered) {
            Some(s) => append(&mut shown, s.as_str()),
            None => return None,
        }
        shown
    } else {
        string_of(&message)
    };
    Some(Err(LighterError::ApiError { code, message }))
}

/// Reads an account payload. Where the exchange gave no message, the error shows
/// the payload, cut between two characters.
pub fn parse_account_info(resp: &serde_json::Value) -> (r: Result<AccountInfo, LighterError>)
    requires
        shows_response(value_contents(*resp)) ==> can_shorten(rendered_json(value_contents(*resp))),
    ensures
        ({
            let document = value_contents(*resp);
            match r {
                Ok(info) => account_outcome(document, rendered_json(document)) == Ok::<_, LighterFault>(info@),
                Err(e) => account_outcome(document, rendered_json(document)) == Err::<AccountView, _>(e@),
            }
        }),
{
    account_info_of(&tree_of(resp), render(resp).as_str()).unwrap()
}

/// Reads any account payload; there is no outcome where an error would have to
/// cut the payload inside a character.
pub fn checked_account_info(resp: &serde_json::Value) -> (r: Option<Result<AccountInfo, LighterError>>)
    ensures
        ({
            let document = value_contents(*resp);
            let outcome = account_outcome(document, rendered_json(document));
            match r {
                Some(Ok(info)) => outcome == Ok::<_, LighterFault>(info@),
                Some(Err(e)) => outcome == Err::<AccountView, _>(e@),
                None => true,
            }
        }),
        r is None <==> shows_response(value_contents(*resp)) && !can_shorten(
            rendered_json(value_contents(*resp)),
        ),
{
    match account_info_of(&tree_of(resp), render(resp).as_str()) {
        Some(_) => Some(parse_account_info(resp)),
        None => None,
    }
}

/// An account that the exchange lists as absent looks empty.
pub proof fn law_absent_account_looks_empty(resp: JsonView, rendered: Seq<char>)
    requires
        account_in(resp) is None,
        lists_no_accounts(resp),
    ensures
        account_outcome(resp, rendered) == Ok::<_, LighterFault>(no_account()),
        nothing_in(no_account()),
{
    crate::binary64::order::lemma_value_order(num(ZERO), num(TINY_12));
}

/// An error carries the code and the message of the exchange, and comes only
/// where there is no account and the code is not that of a success.
pub proof fn law_errors_carry_the_message(resp: JsonView, rendered: Seq<char>)
    ensures
        match account_outcome(resp, rendered) {
            Err(LighterFault::ApiError { code, message }) => {
                &&& account_in(resp) is None
                &&& code == code_of(resp) && code != 200
                &&& message_of(resp).len() > 0 ==> message == message_of(resp)
                &&& message.len() > 0
            },
            Ok(_) => true,
        },
{
    reveal_strlit("No account found in response: ");
}

/// No position of an account is negligible, and its side is that of its sign.
pub proof fn law_positions_are_sized(entries: Seq<JsonView>)
    ensures
        positions_in(entries).len() <= entries.len(),
        forall|i: int|
            0 <= i < positions_in(entries).len() ==> !(#[trigger] positions_in(entries)[i]).size.lt(num(TINY_12)),
    decreases entries.len(),
{
    if entries.len() > 0 {
        law_positions_are_sized(entries.drop_last());
    }
}

} // verus!
