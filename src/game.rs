use crate::chance::{choose_one, pick_one, random_door};
use vstd::prelude::*;

verus! {

/// A door is one of 1, 2 and 3; 0 marks a choice not made yet.
pub open spec fn is_door(d: i8) -> bool {
    1 <= d <= 3
}

/// The lower of the two doors other than `d`.
pub open spec fn lower_other(d: i8) -> i8 {
    if d == 1 { 2 } else { 1 }
}

/// The higher of the two doors other than `d`.
pub open spec fn higher_other(d: i8) -> i8 {
    if d == 3 { 2 } else { 3 }
}

/// The door the host opens: when the player stands on the prize, the coin
/// picks one of the two empty doors (heads the lower); otherwise the host
/// has exactly one door left that is neither the prize nor the pick.
pub open spec fn removal_door(good: i8, first: i8, heads: bool) -> i8 {
    if good == first {
        if heads { lower_other(good) } else { higher_other(good) }
    } else {
        (6 - good - first) as i8
    }
}

/// The final pick: the coin chooses between the two doors left closed
/// (heads the lower).
pub open spec fn final_door(removed: i8, heads: bool) -> i8 {
    if heads { lower_other(removed) } else { higher_other(removed) }
}

/// A round whose prize is placed and whose other fields are still unset.
pub open spec fn is_fresh(g: Game) -> bool {
    is_door(g.good_door) && g.first_choice == 0 && g.door_removed == 0 && g.second_choice == 0
}

/// A round in which the prize is placed and the first pick made.
pub open spec fn can_remove(g: Game) -> bool {
    is_door(g.good_door) && is_door(g.first_choice)
}

/// A round ready for a selection: either no pick yet, or a first pick and a
/// different opened door.
pub open spec fn can_select(g: Game) -> bool {
    g.first_choice == 0 || (is_door(g.first_choice) && is_door(g.door_removed) && g.door_removed
        != g.first_choice)
}

/// What the host's move may do: only the opened door changes, and it is a
/// door that holds no prize and is not the player's pick.
pub open spec fn removal_step(before: Game, after: Game) -> bool {
    &&& after.good_door == before.good_door
    &&& after.first_choice == before.first_choice
    &&& after.second_choice == before.second_choice
    &&& is_door(after.door_removed)
    &&& after.door_removed != after.good_door
    &&& after.door_removed != after.first_choice
    &&& (before.good_door != before.first_choice ==> after.door_removed == removal_door(
        before.good_door,
        before.first_choice,
        true,
    ))
}

/// What a selection may do: the first call fills the first pick with some
/// door; a later one fills the second pick with a door that is not open.
pub open spec fn selection_step(before: Game, after: Game) -> bool {
    &&& after.good_door == before.good_door
    &&& after.door_removed == before.door_removed
    &&& if before.first_choice == 0 {
        is_door(after.first_choice) && after.second_choice == before.second_choice
    } else {
        &&& after.first_choice == before.first_choice
        &&& is_door(after.second_choice)
        &&& after.second_choice != after.door_removed
    }
}

/// A round that has gone through every step: prize, first pick, opened door
/// and final pick, each consistent with the others.
pub open spec fn is_finished(g: Game) -> bool {
    &&& is_door(g.good_door)
    &&& is_door(g.first_choice)
    &&& is_door(g.door_removed)
    &&& is_door(g.second_choice)
    &&& g.door_removed != g.good_door
    &&& g.door_removed != g.first_choice
    &&& g.second_choice != g.door_removed
}

/// One play of the game.
#[derive(Clone, Copy, Debug, PartialEq, Eq)]
pub struct Game {
    pub good_door: i8,
    pub door_removed: i8,
    pub first_choice: i8,
    pub second_choice: i8,
}

/// The two moves of a round: the host opening a door, and the player
/// picking one (first before the host moves, then after).
pub trait Play: Sized {
    /// The round's doors as plain values.
    spec fn doors(&self) -> Game;

    /// The host opens a door that holds no prize and is not the player's
    /// pick; when two doors qualify, a fair coin decides.
    fn remove_door(&mut self)
        requires
            can_remove(old(self).doors()),
        ensures
            removal_step(old(self).doors(), final(self).doors()),
    ;

    /// With no pick yet, the player picks a door at random; after the host
    /// has moved, the player picks at random one of the two closed doors.
    fn select_door(&mut self)
        requires
            can_select(old(self).doors()),
        ensures
            selection_step(old(self).doors(), final(self).doors()),
    ;
}

fn other_doors(d: i8) -> (r: (i8, i8))
    requires
        is_door(d),
    ensures
        r.0 == lower_other(d),
        r.1 == higher_other(d),
{
    let lo: i8 = if d == 1 { 2 } else { 1 };
    let hi: i8 = if d == 3 { 2 } else { 3 };
    (lo, hi)
}

impl Game {
    /// A fresh round with the prize behind `good_door`.
    pub fn new(good_door: i8) -> (r: Game)
        requires
            is_door(good_door),
        ensures
            r.good_door == good_door,
            is_fresh(r),
    {
        Game { good_door, door_removed: 0, first_choice: 0, second_choice: 0 }
    }

    /// The host's move with the coin given: sets `door_removed` to
    /// `removal_door(good_door, first_choice, heads)`.
    pub fn remove_door_with(&mut self, heads: bool)
        requires
            can_remove(*old(self)),
        ensures
            *final(self) == (Game {
                door_removed: removal_door(old(self).good_door, old(self).first_choice, heads),
                ..*old(self)
            }),
    {
        if self.good_door == self.first_choice {
            let (lo, hi) = other_doors(self.good_door);
            self.door_removed = choose_one(heads, lo, hi);
        } else {
            self.door_removed = 6 - self.good_door - self.first_choice;
        }
    }

    /// The player's first pick, given.
    pub fn choose_first(&mut self, door: i8)
        requires
            is_door(door),
        ensures
            *final(self) == (Game { first_choice: door, ..*old(self) }),
    {
        self.first_choice = door;
    }

    /// The player's final pick with the coin given: sets `second_choice` to
    /// `final_door(door_removed, heads)`.
    pub fn choose_second_with(&mut self, heads: bool)
        requires
            is_door(old(self).door_removed),
        ensures
            *final(self) == (Game {
                second_choice: final_door(old(self).door_removed, heads),
                ..*old(self)
            }),
    {
        let (lo, hi) = other_doors(self.door_removed);
        self.second_choice = choose_one(heads, lo, hi);
    }
}

impl Play for Game {
    open spec fn doors(&self) -> Game {
        *self
    }

    fn remove_door(&mut self) {
        if self.good_door == self.first_choice {
            let (lo, hi) = other_doors(self.good_door);
            self.door_removed = pick_one(lo, hi);
        } else {
            self.remove_door_with(true);
        }
    }

    fn select_door(&mut self) {
        if self.first_choice == 0 {
            self.choose_first(random_door());
        } else {
            let (lo, hi) = other_doors(self.door_removed);
            self.second_choice = pick_one(lo, hi);
        }
    }
}

/// The finished round for the given draws: prize, first pick, the host's
/// coin and the player's coin.
pub open spec fn round_of(good: i8, first: i8, host_heads: bool, player_heads: bool) -> Game {
    Game {
        good_door: good,
        first_choice: first,
        door_removed: removal_door(good, first, host_heads),
        second_choice: final_door(removal_door(good, first, host_heads), player_heads),
    }
}

/// The player's final pick differs from the first.
pub open spec fn switched(g: Game) -> bool {
    g.first_choice != g.second_choice
}

/// The player's final pick is the prize.
pub open spec fn won(g: Game) -> bool {
    g.second_choice == g.good_door
}

/// One for true, zero for false.
pub open spec fn indicator(b: bool) -> int {
    if b { 1 } else { 0 }
}

/// How many of the four coin outcomes, for a fixed prize and first pick,
/// give a round that meets `p`.
pub open spec fn count_coins(p: spec_fn(Game) -> bool, good: i8, first: i8) -> int {
    indicator(p(round_of(good, first, true, true))) + indicator(p(round_of(good, first, true, false)))
        + indicator(p(round_of(good, first, false, true))) + indicator(
        p(round_of(good, first, false, false)),
    )
}

/// How many of the twelve first-pick and coin outcomes, for a fixed prize,
/// give a round that meets `p`.
pub open spec fn count_picks(p: spec_fn(Game) -> bool, good: i8) -> int {
    count_coins(p, good, 1) + count_coins(p, good, 2) + count_coins(p, good, 3)
}

/// How many of the 36 equally likely draws (prize, first pick, host's coin,
/// player's coin) give a round that meets `p`.
pub open spec fn count_draws(p: spec_fn(Game) -> bool) -> int {
    count_picks(p, 1) + count_picks(p, 2) + count_picks(p, 3)
}

/// When the player stands on the prize, the host's two coin faces open the
/// two empty doors, one each: the opened door is as evenly spread as the coin.
pub proof fn host_coin_splits_empty_doors(good: i8)
    requires
        is_door(good),
    ensures
        removal_door(good, good, true) != removal_door(good, good, false),
        is_door(removal_door(good, good, true)),
        is_door(removal_door(good, good, false)),
        removal_door(good, good, true) != good,
        removal_door(good, good, false) != good,
{
}

/// Over the equally likely draws, a round in which the player switched is won
/// two times out of three, and one in which the player stayed one time out
/// of three.
pub proof fn switching_wins_two_thirds()
    ensures
        count_draws(|g: Game| switched(g)) == 18,
        count_draws(|g: Game| switched(g) && won(g)) == 12,
        count_draws(|g: Game| !switched(g)) == 18,
        count_draws(|g: Game| !switched(g) && won(g)) == 6,
{
}

/// Plays a whole round with every draw given.
pub fn play_round_with(good: i8, first: i8, host_heads: bool, player_heads: bool) -> (r: Game)
    requires
        is_door(good),
        is_door(first),
    ensures
        r == round_of(good, first, host_heads, player_heads),
        is_finished(r),
{
    let mut game = Game::new(good);
    game.choose_first(first);
    game.remove_door_with(host_heads);
    game.choose_second_with(player_heads);
    game
}

/// Plays a whole round with fresh random draws: a prize, a first pick, the
/// host's move and the final pick.
pub fn play_round() -> (r: Game)
    ensures
        is_finished(r),
{
    let mut game = Game::new(random_door());
    game.select_door();
    game.remove_door();
    game.select_door();
    game
}

} // verus!
