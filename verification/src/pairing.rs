//! The pairing generator: it plays the circle method with two queues and
//! lists the games round after round.

use crate::seating::{
    all_games, back_queue, front_queue, games_per_round, games_through, holder_of, ring_len,
    round_count, round_games, seat_at,
};
use std::collections::VecDeque;
use vstd::prelude::*;

verus! {

/// Fills the two queues as they stand before the first round.
fn initial_queues(team_num: usize) -> (queues: (VecDeque<usize>, VecDeque<usize>))
    requires
        team_num >= 2,
    ensures
        queues.0@ == front_queue(team_num, 0),
        queues.1@ == back_queue(team_num, 0),
{
    let half: usize = team_num / 2 + team_num % 2;
    let mut front: VecDeque<usize> = VecDeque::new();
    let mut back: VecDeque<usize> = VecDeque::new();
    let mut j: usize = 0;
    while j < half
        invariant
            team_num >= 2,
            half == games_per_round(team_num),
            j <= half,
            back@ == back_queue(team_num, 0).take(j as int),
            j < half ==> front@ == front_queue(team_num, 0).take(j as int),
            j == half ==> front@ == front_queue(team_num, 0),
        decreases half - j,
    {
        proof {
            reveal(seat_at);
        }
        back.push_back(holder_of(team_num, 2 * j + 1));
        assert(back@ == back_queue(team_num, 0).take(j + 1));
        if j + 1 < half {
            front.push_back(holder_of(team_num, 2 * j + 2));
            assert(front@ == front_queue(team_num, 0).take(j + 1));
        } else {
            assert(front@ == front_queue(team_num, 0));
        }
        j += 1;
    }
    (front, back)
}

/// Turns the ring by one place: the last of the back queue joins the front
/// queue at its back, and the first of the front queue joins the back queue
/// at its front.
fn rotate(team_num: usize, r: usize, front: &mut VecDeque<usize>, back: &mut VecDeque<usize>)
    requires
        team_num >= 2,
        r < ring_len(team_num),
        old(front)@ == front_queue(team_num, r as int),
        old(back)@ == back_queue(team_num, r as int),
    ensures
        final(front)@ == front_queue(team_num, r + 1),
        final(back)@ == back_queue(team_num, r + 1),
{
    let last = back.pop_back();
    if let Some(id) = last {
        front.push_back(id);
    }
    let first = front.pop_front();
    if let Some(id) = first {
        back.push_front(id);
    }
    proof {
        reveal(seat_at);
    }
    assert(front@ =~= front_queue(team_num, r + 1));
    assert(back@ =~= back_queue(team_num, r + 1));
}

/// Lists every game of an all-play-all tournament of `team_num` competitors,
/// numbered from 1. With an odd `team_num` one game of each round is against
/// the bye, written 0. Fewer than two competitors give no game.
pub fn generate_all_games(team_num: usize) -> (games: Vec<(usize, usize)>)
    ensures
        games@ == all_games(team_num),
{
    let mut games: Vec<(usize, usize)> = Vec::new();
    if team_num <= 1 {
        return games;
    }
    let half: usize = team_num / 2 + team_num % 2;
    let rounds: usize = if team_num % 2 == 1 {
        team_num
    } else {
        team_num - 1
    };
    let (mut front, mut back) = initial_queues(team_num);
    let mut r: usize = 0;
    while r < rounds
        invariant
            team_num >= 2,
            half == games_per_round(team_num),
            rounds == round_count(team_num),
            r <= rounds,
            front@ == front_queue(team_num, r as int),
            back@ == back_queue(team_num, r as int),
            games@ == games_through(team_num, r as nat),
        decreases rounds - r,
    {
        let ghost before = games@;
        games.push((1, back[0]));
        let mut j: usize = 1;
        while j < half
            invariant
                1 <= j <= half,
                half == games_per_round(team_num),
                front@ == front_queue(team_num, r as int),
                back@ == back_queue(team_num, r as int),
                games@ == before + round_games(team_num, r as int).take(j as int),
            decreases half - j,
        {
            games.push((front[j - 1], back[j]));
            j += 1;
        }
        assert(round_games(team_num, r as int).take(half as int) == round_games(
            team_num,
            r as int,
        ));
        rotate(team_num, r, &mut front, &mut back);
        r += 1;
    }
    games
}

} // verus!
