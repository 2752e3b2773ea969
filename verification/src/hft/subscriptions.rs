//! Spreading subscriptions over connections.

use vstd::prelude::*;

verus! {

/// A plan for connections that take no subscription.
#[derive(Debug)]
pub struct ZeroCapacity;

impl ZeroCapacity {
    /// The error as a sentence.
    pub fn message(&self) -> (r: &str)
        ensures
            r@ == "subscriptions per connection must be greater than zero"@,
    {
        "subscriptions per connection must be greater than zero"
    }
}

/// The shards one after the other.
pub open spec fn flattened(shards: Seq<Vec<u32>>) -> Seq<u32>
    decreases shards.len(),
{
    if shards.len() == 0 {
        Seq::empty()
    } else {
        flattened(shards.drop_last()) + shards.last()@
    }
}

fn shard_at(market_ids: &[u32], start: usize, end: usize) -> (r: Vec<u32>)
    requires
        start <= end <= market_ids.len(),
    ensures
        r@ == market_ids@.subrange(start as int, end as int),
{
    let mut shard: Vec<u32> = Vec::new();
    let mut i: usize = start;
    while i < end
        invariant
            start <= i <= end <= market_ids.len(),
            shard@ == market_ids@.subrange(start as int, i as int),
        decreases end - i,
    {
        shard.push(market_ids[i]);
        i = i + 1;
        assert(shard@ =~= market_ids@.subrange(start as int, i as int));
    }
    shard
}

/// Cuts the markets into runs of at most `per_connection`, in order: every
/// shard but the last is full, and none is empty.
pub fn plan_subscription_shards(market_ids: &[u32], per_connection: usize) -> (r: Result<
    Vec<Vec<u32>>,
    ZeroCapacity,
>)
    ensures
        match r {
            Ok(shards) => {
                &&& per_connection > 0
                &&& flattened(shards@) == market_ids@
                &&& forall|i: int|
                    0 <= i < shards@.len() ==> 0 < (#[trigger] shards@[i])@.len() <= per_connection
                &&& forall|i: int|
                    0 <= i < shards@.len() - 1 ==> (#[trigger] shards@[i])@.len() == per_connection
            },
            Err(_) => per_connection == 0,
        },
{
    if per_connection == 0 {
        return Err(ZeroCapacity);
    }
    let mut shards: Vec<Vec<u32>> = Vec::new();
    let mut start: usize = 0;
    assert(market_ids@.take(0) =~= Seq::<u32>::empty());
    while start < market_ids.len()
        invariant
            per_connection > 0,
            start <= market_ids.len(),
            flattened(shards@) == market_ids@.take(start as int),
            forall|i: int| 0 <= i < shards@.len() ==> 0 < (#[trigger] shards@[i])@.len() <= per_connection,
            forall|i: int| 0 <= i < shards@.len() - 1 ==> (#[trigger] shards@[i])@.len() == per_connection,
            start < market_ids.len() && shards@.len() > 0 ==> shards@.last()@.len() == per_connection,
        decreases market_ids.len() - start,
    {
        let end: usize = if market_ids.len() - start <= per_connection {
            market_ids.len()
        } else {
            start + per_connection
        };
        let shard = shard_at(market_ids, start, end);
        let ghost before = shards@;
        shards.push(shard);
        proof {
            assert(shards@.drop_last() =~= before);
            assert(flattened(shards@) =~= market_ids@.take(end as int));
        }
        start = end;
    }
    assert(market_ids@.take(start as int) =~= market_ids@);
    Ok(shards)
}

} // verus!
