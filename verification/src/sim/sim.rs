use std::collections::VecDeque;
use vstd::prelude::*;

verus! {

/// The number of past prices a simulator keeps.
pub const PRICE_HISTORY_LENGTH: usize = 20;

/// How large a simulated order is, relative to the range of quantities.
#[derive(Debug, Clone, Copy, PartialEq, Eq, Structural)]
pub enum QuantityTier {
    /// From the least quantity up to a quarter of the greatest.
    Small,
    /// From a quarter of the greatest quantity up to half of it.
    Medium,
    /// From half of the greatest quantity up to all of it.
    Large,
}

/// The least and greatest quantity of a tier.
pub open spec fn tier_bounds(min_quantity: u32, max_quantity: u32, tier: QuantityTier) -> (
    u32,
    u32,
) {
    match tier {
        QuantityTier::Small => (min_quantity, max_quantity / 4),
        QuantityTier::Medium => (max_quantity / 4, max_quantity / 2),
        QuantityTier::Large => (max_quantity / 2, max_quantity),
    }
}

/// The least and greatest quantity of a tier.
pub fn quantity_bounds(min_quantity: u32, max_quantity: u32, tier: QuantityTier) -> (bounds: (
    u32,
    u32,
))
    ensures
        bounds == tier_bounds(min_quantity, max_quantity, tier),
{
    match tier {
        QuantityTier::Small => (min_quantity, max_quantity / 4),
        QuantityTier::Medium => (max_quantity / 4, max_quantity / 2),
        QuantityTier::Large => (max_quantity / 2, max_quantity),
    }
}

/// A number drawn at random between the two bounds, both included:
/// `gen_range(low..=high)` of rand's `thread_rng()`. The call panics on an
/// empty range, which `requires` leaves out; of the number drawn only the
/// bounds are claimed.
#[verifier::external_body]
fn random_between(low: u32, high: u32) -> (drawn: u32)
    requires
        low <= high,
    ensures
        low <= drawn <= high,
{
    rand::Rng::gen_range(&mut rand::thread_rng(), low..=high)
}

/// A quantity drawn at random within the tier, or nothing if the tier holds
/// no quantity at all: a small tier whose least quantity is above a quarter
/// of the greatest.
pub fn draw_quantity(min_quantity: u32, max_quantity: u32, tier: QuantityTier) -> (quantity: Option<
    u32,
>)
    ensures
        ({
            let (low, high) = tier_bounds(min_quantity, max_quantity, tier);
            match quantity {
                Some(drawn) => low <= drawn <= high,
                None => low > high,
            }
        }),
{
    let (low, high) = quantity_bounds(min_quantity, max_quantity, tier);
    if low <= high {
        Some(random_between(low, high))
    } else {
        None
    }
}

/// The history with one more price at its end, and without its oldest price
/// if it was full.
pub open spec fn with_price<P>(history: Seq<P>, price: P) -> Seq<P> {
    if history.len() >= PRICE_HISTORY_LENGTH {
        history.drop_first().push(price)
    } else {
        history.push(price)
    }
}

/// Records a price at the end of the history and drops the oldest price of a
/// history that was full.
pub fn update_price_history<P>(history: &mut VecDeque<P>, price: P)
    ensures
        final(history)@ == with_price(old(history)@, price),
{
    if history.len() >= PRICE_HISTORY_LENGTH {
        history.pop_front();
    }
    history.push_back(price);
}

} // verus!
