use rand::Rng;
use vstd::prelude::*;

verus! {

/// Relies on rand's `thread_rng().gen::<bool>()`: a fair coin drawn from the
/// calling thread's own generator. Nothing is promised of its value.
#[verifier::external_body]
fn coin() -> bool {
    rand::thread_rng().gen::<bool>()
}

/// A door drawn uniformly from the three doors.
/// Relies on rand's `Rng::gen_range` over the inclusive range `1..=3`: the
/// value lies in that range (the range is not empty, so the call does not panic).
#[verifier::external_body]
pub(crate) fn random_door() -> (r: i8)
    ensures
        1 <= r <= 3,
{
    rand::thread_rng().gen_range(1i8..=3)
}

/// Returns `one` when the coin shows heads (`true`) and `two` otherwise.
pub fn choose_one(heads: bool, one: i8, two: i8) -> (r: i8)
    ensures
        r == (if heads { one } else { two }),
{
    if heads {
        one
    } else {
        two
    }
}

/// Picks `one` or `two` with a fair coin.
pub fn pick_one(one: i8, two: i8) -> (r: i8)
    ensures
        r == one || r == two,
{
    choose_one(coin(), one, two)
}

} // verus!
