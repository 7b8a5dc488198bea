//! The circle method as a mathematical model.
//!
//! The competitors take the seats `0, 1, 2, ..` of a working list; with an
//! odd number of competitors one more seat is added, held by the bye. Seat 0
//! is the anchor and never moves. The other seats form a ring that turns by
//! one place after every round. The ring is kept in two queues: the back
//! queue holds ring places `0 .. half`, the front queue holds the remaining
//! places in reverse. In each round the anchor meets the head of the back
//! queue, and the front queue is matched, in order, with the rest of the
//! back queue.

use vstd::prelude::*;

verus! {

/// The identifier that stands for "no opponent".
pub const BYE: usize = 0;

/// The number of seats: the competitor count, made even by one bye seat.
pub open spec fn seat_count(team_num: usize) -> int {
    team_num + team_num % 2
}

/// The number of places on the ring: every seat but the anchor's.
pub open spec fn ring_len(team_num: usize) -> int {
    seat_count(team_num) - 1
}

/// The number of games in one round of the circle, byes included.
pub open spec fn games_per_round(team_num: usize) -> int {
    seat_count(team_num) / 2
}

/// The number of rounds of the circle. Fewer than two competitors play no
/// round at all.
pub open spec fn round_count(team_num: usize) -> int {
    if team_num <= 1 {
        0
    } else {
        ring_len(team_num)
    }
}

/// Who holds seat `t` of the working list: competitor `t + 1`, or the bye
/// in the one seat behind the last competitor.
pub open spec fn seat_holder(team_num: usize, t: int) -> usize {
    if 0 <= t < team_num {
        (t + 1) as usize
    } else {
        BYE
    }
}

/// The seat that stands at ring place `i` before the first round. The odd
/// seats fill the places `0 .. half` in rising order, the even seats fill
/// the remaining places in falling order.
pub open spec fn ring_seat(team_num: usize, i: int) -> int {
    if i < games_per_round(team_num) {
        2 * i + 1
    } else {
        2 * (ring_len(team_num) - i)
    }
}

/// The ring place that seat `t` (not the anchor) has before the first round.
pub open spec fn ring_place(team_num: usize, t: int) -> int {
    if t % 2 == 1 {
        (t - 1) / 2
    } else {
        ring_len(team_num) - t / 2
    }
}

/// The place `r` steps back from place `i` on a ring of `n` places.
pub open spec fn turned_back(n: int, i: int, r: int) -> int {
    if i >= r {
        i - r
    } else {
        i - r + n
    }
}

/// The seat that stands at ring place `i` in round `r`: after `r` turns the
/// ring shows at place `i` what it first showed `r` places before.
#[verifier::opaque]
pub open spec fn seat_at(team_num: usize, r: int, i: int) -> int {
    ring_seat(team_num, turned_back(ring_len(team_num), i, r))
}

/// The back queue in round `r`: ring places `0 .. half`, front to back.
pub open spec fn back_queue(team_num: usize, r: int) -> Seq<usize> {
    Seq::new(
        games_per_round(team_num) as nat,
        |j: int| seat_holder(team_num, seat_at(team_num, r, j)),
    )
}

/// The front queue in round `r`: the ring places behind the back queue,
/// taken from the last place downwards.
pub open spec fn front_queue(team_num: usize, r: int) -> Seq<usize> {
    Seq::new(
        (games_per_round(team_num) - 1) as nat,
        |j: int| seat_holder(team_num, seat_at(team_num, r, ring_len(team_num) - 1 - j)),
    )
}

/// Game `j` of round `r`: the anchor against the head of the back queue,
/// then the front queue against the rest of the back queue, in order.
pub open spec fn game_at(team_num: usize, r: int, j: int) -> (usize, usize) {
    if j == 0 {
        (seat_holder(team_num, 0), back_queue(team_num, r)[0])
    } else {
        (front_queue(team_num, r)[j - 1], back_queue(team_num, r)[j])
    }
}

/// The games of round `r`, in the order in which they are listed.
pub open spec fn round_games(team_num: usize, r: int) -> Seq<(usize, usize)> {
    Seq::new(games_per_round(team_num) as nat, |j: int| game_at(team_num, r, j))
}

/// The games of the first `r` rounds, round after round.
pub open spec fn games_through(team_num: usize, r: nat) -> Seq<(usize, usize)>
    decreases r,
{
    if r == 0 {
        Seq::empty()
    } else {
        games_through(team_num, (r - 1) as nat) + round_games(team_num, r - 1)
    }
}

/// The complete list of games for `team_num` competitors.
pub open spec fn all_games(team_num: usize) -> Seq<(usize, usize)> {
    games_through(team_num, round_count(team_num) as nat)
}

/// Executable form of `seat_holder`.
pub fn holder_of(team_num: usize, t: usize) -> (id: usize)
    ensures
        id == seat_holder(team_num, t as int),
{
    if t < team_num {
        t + 1
    } else {
        BYE
    }
}

} // verus!
