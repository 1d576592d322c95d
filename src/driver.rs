use crate::game::{is_finished, play_round, Game};
use crate::stats::{result_label, slot, summary_label, StatsAggregator};
use vstd::prelude::*;

verus! {

/// The tables are drawn again after every this many rounds.
pub const RENDER_EVERY: u64 = 1000;

/// Whether the tables are due for drawing once the round numbered
/// `completed` is done.
pub fn render_due(completed: u64) -> (r: bool)
    ensures
        r == (completed % RENDER_EVERY == 0),
{
    completed % RENDER_EVERY == 0
}

/// One unit of work: plays a fresh random round and counts it. Returns the
/// round and whether it was counted (it is not when one of its counters is
/// already at its largest value).
pub fn play_and_record(stats: &mut StatsAggregator) -> (r: (Game, bool))
    requires
        old(stats).wf(),
    ensures
        final(stats).wf(),
        is_finished(r.0),
        ({
            let g = r.0;
            let a = slot(g.good_door as int, result_label(g.good_door, g.first_choice, g.second_choice));
            let b = slot(g.good_door as int, summary_label(g.good_door, g.first_choice, g.second_choice));
            &&& r.1 == (old(stats)@[a] < u64::MAX && old(stats)@[b] < u64::MAX)
            &&& r.1 ==> final(stats)@ == old(stats)@.update(a, (old(stats)@[a] + 1) as u64).update(
                b,
                (old(stats)@[b] + 1) as u64,
            )
            &&& !r.1 ==> final(stats)@ == old(stats)@
        }),
{
    let game = play_round();
    let counted = stats.record(game.good_door, game.first_choice, game.second_choice);
    (game, counted)
}

} // verus!
