//! The configuration as typed lookups.

use vstd::prelude::*;

use crate::binary64::B64;

verus! {

#[verifier::external_type_specification]
#[verifier::external_body]
pub struct ExConfig(config::Config);

/// The keys whose value reads as a boolean, with that boolean.
pub uninterp spec fn bool_settings(settings: config::Config) -> Map<Seq<char>, bool>;

/// The keys whose value reads as an integer, with that integer.
pub uninterp spec fn int_settings(settings: config::Config) -> Map<Seq<char>, i64>;

/// The keys whose value reads as a number, with the bit pattern of that number.
pub uninterp spec fn float_settings(settings: config::Config) -> Map<Seq<char>, u64>;

/// The keys whose value reads as a text, with that text.
pub uninterp spec fn text_settings(settings: config::Config) -> Map<Seq<char>, Seq<char>>;

/// The keys whose value is a list, with the integers in it; `None` stands for
/// an item that does not read as one.
pub uninterp spec fn list_settings(settings: config::Config) -> Map<Seq<char>, Seq<Option<i64>>>;

/// The keys whose value is a table.
pub uninterp spec fn table_settings(settings: config::Config) -> Set<Seq<char>>;

/// What a map holds under a key.
pub open spec fn looked_up<V>(m: Map<Seq<char>, V>, key: Seq<char>) -> Option<V> {
    if m.dom().contains(key) {
        Some(m[key])
    } else {
        None
    }
}

/// The number under a key.
pub open spec fn number_setting(settings: config::Config, key: Seq<char>) -> Option<B64> {
    match looked_up(float_settings(settings), key) {
        Some(bits) => Some(B64 { bits }),
        None => None,
    }
}

/// `config::Config::get_bool`: the boolean under a key; nothing where the key
/// is absent or its value does not read as one.
#[verifier::external_body]
pub(crate) fn get_bool(settings: &config::Config, key: &str) -> (r: Option<bool>)
    ensures
        r == looked_up(bool_settings(*settings), key@),
{
    settings.get_bool(key).ok()
}

/// `config::Config::get_int`: the integer under a key; nothing where the key
/// is absent or its value does not read as one.
#[verifier::external_body]
pub(crate) fn get_int(settings: &config::Config, key: &str) -> (r: Option<i64>)
    ensures
        r == looked_up(int_settings(*settings), key@),
{
    settings.get_int(key).ok()
}

/// `config::Config::get_float`: the number under a key; nothing where the key
/// is absent or its value does not read as one.
#[verifier::external_body]
fn get_float_bits(settings: &config::Config, key: &str) -> (r: Option<u64>)
    ensures
        r == looked_up(float_settings(*settings), key@),
{
    settings.get_float(key).ok().map(|x| x.to_bits())
}

/// `config::Config::get_string`: the text under a key; nothing where the key
/// is absent or its value does not read as one.
#[verifier::external_body]
pub(crate) fn get_string(settings: &config::Config, key: &str) -> (r: Option<String>)
    ensures
        looked_up(text_settings(*settings), key@) == (match r {
            Some(s) => Some(s@),
            None => None::<Seq<char>>,
        }),
{
    settings.get_string(key).ok()
}

/// `config::Config::get_array`: the list under a key, each item read by
/// `config::Value::into_int`; nothing where the key is absent or its value is
/// no list.
#[verifier::external_body]
pub(crate) fn get_int_list(settings: &config::Config, key: &str) -> (r: Option<Vec<Option<i64>>>)
    ensures
        looked_up(list_settings(*settings), key@) == (match r {
            Some(v) => Some(v@),
            None => None::<Seq<Option<i64>>>,
        }),
{
    let items = settings.get_array(key).ok();
    items.map(|v| v.into_iter().map(|item| item.into_int().ok()).collect())
}

/// A key within a table.
pub open spec fn within_table(table: Seq<char>, name: Seq<char>) -> Seq<char> {
    table + "."@ + name
}

/// Whether the value under a key reads as anything but a table.
pub open spec fn reads(settings: config::Config, key: Seq<char>) -> bool {
    ||| bool_settings(settings).dom().contains(key)
    ||| int_settings(settings).dom().contains(key)
    ||| float_settings(settings).dom().contains(key)
    ||| text_settings(settings).dom().contains(key)
    ||| list_settings(settings).dom().contains(key)
}

/// `config::Config::get_table`: whether the value under a key is a table. A
/// value can only be read from within a key where the key holds a table.
#[verifier::external_body]
pub(crate) fn has_table(settings: &config::Config, key: &str) -> (r: bool)
    ensures
        r == table_settings(*settings).contains(key@),
        forall|name: Seq<char>| #[trigger] reads(*settings, within_table(key@, name)) ==> r,
{
    settings.get_table(key).is_ok()
}

/// The number under a key.
pub(crate) fn get_float(settings: &config::Config, key: &str) -> (r: Option<B64>)
    ensures
        r == number_setting(*settings, key@),
{
    match get_float_bits(settings, key) {
        Some(bits) => Some(B64::from_bits(bits)),
        None => None,
    }
}

} // verus!
