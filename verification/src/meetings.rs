//! Who meets whom, and in which game: the laws of the circle method.

use crate::counting::{
    lemma_filter_all, lemma_filter_all_but_one, lemma_filter_kept, lemma_filter_one,
    lemma_filter_two, lemma_filter_twice,
};
use crate::rounds::{is_played, played_games};
use crate::seating::{
    all_games, back_queue, front_queue, game_at, games_per_round, games_through, ring_len,
    ring_place, ring_seat, round_count, round_games, seat_at, seat_count, seat_holder,
    turned_back, BYE,
};
use vstd::arithmetic::div_mod::lemma_fundamental_div_mod;
use vstd::arithmetic::div_mod::lemma_fundamental_div_mod_converse;
use vstd::prelude::*;

verus! {

/// Before the first round the back queue holds every second seat of the
/// working list from the second on, and the front queue every second seat
/// from the third on.
pub proof fn law_queues_start(team_num: usize)
    requires
        team_num >= 2,
    ensures
        back_queue(team_num, 0) == Seq::new(
            games_per_round(team_num) as nat,
            |j: int| seat_holder(team_num, 2 * j + 1),
        ),
        front_queue(team_num, 0) == Seq::new(
            (games_per_round(team_num) - 1) as nat,
            |j: int| seat_holder(team_num, 2 * j + 2),
        ),
{
    reveal(seat_at);
    assert(back_queue(team_num, 0) =~= Seq::new(
        games_per_round(team_num) as nat,
        |j: int| seat_holder(team_num, 2 * j + 1),
    ));
    assert(front_queue(team_num, 0) =~= Seq::new(
        (games_per_round(team_num) - 1) as nat,
        |j: int| seat_holder(team_num, 2 * j + 2),
    ));
}

/// From one round to the next the ring turns by one place: the first of
/// the front queue moves to the front of the back queue, and the last of
/// the back queue moves to the back of the front queue. (With two
/// competitors the front queue is empty and there is one round only.)
pub proof fn law_queues_turn(team_num: usize, r: int)
    requires
        team_num >= 3,
        0 <= r < ring_len(team_num),
    ensures
        back_queue(team_num, r + 1) == seq![front_queue(team_num, r).first()] + back_queue(
            team_num,
            r,
        ).drop_last(),
        front_queue(team_num, r + 1) == front_queue(team_num, r).drop_first().push(
            back_queue(team_num, r).last(),
        ),
{
    reveal(seat_at);
    assert(back_queue(team_num, r + 1) =~= seq![front_queue(team_num, r).first()] + back_queue(
        team_num,
        r,
    ).drop_last());
    assert(front_queue(team_num, r + 1) =~= front_queue(team_num, r).drop_first().push(
        back_queue(team_num, r).last(),
    ));
}

/// The two seats of game `j` of round `r`, in the order in which the game
/// lists their holders.
pub open spec fn game_seats(team_num: usize, r: int, j: int) -> (int, int) {
    if j == 0 {
        (0, seat_at(team_num, r, 0))
    } else {
        (seat_at(team_num, r, ring_len(team_num) - j), seat_at(team_num, r, j))
    }
}

/// The seat that `id` holds: competitor `id` sits in seat `id - 1`, the bye
/// in the seat behind the last competitor.
pub open spec fn seat_of(team_num: usize, id: usize) -> int {
    if id == BYE {
        team_num as int
    } else {
        id - 1
    }
}

/// The place in its round of the game in which the seats `s < t` meet.
#[verifier::opaque]
pub open spec fn meeting_slot(team_num: usize, s: int, t: int) -> int {
    if s == 0 {
        0
    } else {
        let n = ring_len(team_num);
        let gap = turned_back(n, ring_place(team_num, s), ring_place(team_num, t));
        if gap % 2 == 0 {
            gap / 2
        } else {
            (n - gap) / 2
        }
    }
}

/// The round in which the seats `s < t` meet.
#[verifier::opaque]
pub open spec fn meeting_round(team_num: usize, s: int, t: int) -> int {
    let n = ring_len(team_num);
    if s == 0 {
        turned_back(n, 0, ring_place(team_num, t))
    } else {
        let gap = turned_back(n, ring_place(team_num, s), ring_place(team_num, t));
        if gap % 2 == 0 {
            turned_back(n, meeting_slot(team_num, s, t), ring_place(team_num, s))
        } else {
            turned_back(n, meeting_slot(team_num, s, t), ring_place(team_num, t))
        }
    }
}

/// The ring holds every seat but the anchor's, each at one place.
pub proof fn lemma_ring_places(team_num: usize, t: int)
    requires
        team_num >= 2,
        1 <= t < seat_count(team_num),
    ensures
        0 <= ring_place(team_num, t) < ring_len(team_num),
        ring_seat(team_num, ring_place(team_num, t)) == t,
{
}

/// Every place of the ring holds a seat other than the anchor's, and no two
/// places hold the same seat.
pub proof fn lemma_ring_seats(team_num: usize, i: int)
    requires
        team_num >= 2,
        0 <= i < ring_len(team_num),
    ensures
        1 <= ring_seat(team_num, i) < seat_count(team_num),
        ring_place(team_num, ring_seat(team_num, i)) == i,
{
}

/// A game lists the holders of its two seats, and the two seats differ.
pub proof fn lemma_game_seats(team_num: usize, r: int, j: int)
    requires
        team_num >= 2,
        0 <= r < ring_len(team_num),
        0 <= j < games_per_round(team_num),
    ensures
        game_at(team_num, r, j) == (
            seat_holder(team_num, game_seats(team_num, r, j).0),
            seat_holder(team_num, game_seats(team_num, r, j).1),
        ),
        0 <= game_seats(team_num, r, j).0 < seat_count(team_num),
        0 <= game_seats(team_num, r, j).1 < seat_count(team_num),
        game_seats(team_num, r, j).0 != game_seats(team_num, r, j).1,
{
    reveal(seat_at);
    let n = ring_len(team_num);
    lemma_ring_seats(team_num, turned_back(n, j, r));
    if j > 0 {
        lemma_ring_seats(team_num, turned_back(n, n - j, r));
    }
}

/// On a ring of `n = 2 * k - 1` places any two places `x` and `y` come to
/// stand across from each other: the gap between them, or what is left of
/// the ring beside it, is even, and half of it is the place `j` at which one
/// of them stands while the other stands at `n - j`.
pub proof fn lemma_ring_meeting(n: int, k: int, x: int, y: int)
    requires
        k >= 1,
        n == 2 * k - 1,
        0 <= x < n,
        0 <= y < n,
        x != y,
    ensures
        turned_back(n, x, y) % 2 == 0 ==> ({
            let j = turned_back(n, x, y) / 2;
            let r = turned_back(n, j, x);
            &&& 1 <= j < k
            &&& 0 <= r < n
            &&& turned_back(n, j, r) == x
            &&& turned_back(n, n - j, r) == y
        }),
        turned_back(n, x, y) % 2 != 0 ==> ({
            let j = (n - turned_back(n, x, y)) / 2;
            let r = turned_back(n, j, y);
            &&& 1 <= j < k
            &&& 0 <= r < n
            &&& turned_back(n, j, r) == y
            &&& turned_back(n, n - j, r) == x
        }),
{
    let gap = turned_back(n, x, y);
    assert(1 <= gap < n);
    if gap % 2 == 0 {
        let j = gap / 2;
        assert(gap == 2 * j);
    } else {
        let j = (n - gap) / 2;
        assert(n - gap == 2 * j);
    }
}

/// On a ring of `n = 2 * k - 1` places, two places stand across from each
/// other at one place `j` of one round `r` only.
pub proof fn lemma_ring_meeting_once(n: int, k: int, r1: int, j1: int, r2: int, j2: int)
    requires
        k >= 1,
        n == 2 * k - 1,
        0 <= r1 < n,
        0 <= r2 < n,
        1 <= j1 < k,
        1 <= j2 < k,
        ({
            let a1 = turned_back(n, j1, r1);
            let b1 = turned_back(n, n - j1, r1);
            let a2 = turned_back(n, j2, r2);
            let b2 = turned_back(n, n - j2, r2);
            (a1 == a2 && b1 == b2) || (a1 == b2 && b1 == a2)
        }),
    ensures
        r1 == r2,
        j1 == j2,
{
}

/// Any two seats meet: in the game at `meeting_slot` of `meeting_round`.
pub proof fn lemma_seats_meet(team_num: usize, s: int, t: int)
    requires
        team_num >= 2,
        0 <= s < t < seat_count(team_num),
    ensures
        0 <= meeting_round(team_num, s, t) < ring_len(team_num),
        0 <= meeting_slot(team_num, s, t) < games_per_round(team_num),
        ({
            let seats = game_seats(
                team_num,
                meeting_round(team_num, s, t),
                meeting_slot(team_num, s, t),
            );
            seats == (s, t) || seats == (t, s)
        }),
{
    reveal(seat_at);
    reveal(meeting_slot);
    reveal(meeting_round);
    let n = ring_len(team_num);
    let k = games_per_round(team_num);
    lemma_ring_places(team_num, t);
    if s > 0 {
        lemma_ring_places(team_num, s);
        lemma_ring_meeting(n, k, ring_place(team_num, s), ring_place(team_num, t));
    }
}

/// Two games with the same two seats are one game.
pub proof fn lemma_seats_meet_once(team_num: usize, r1: int, j1: int, r2: int, j2: int)
    requires
        team_num >= 2,
        0 <= r1 < ring_len(team_num),
        0 <= j1 < games_per_round(team_num),
        0 <= r2 < ring_len(team_num),
        0 <= j2 < games_per_round(team_num),
        ({
            let first = game_seats(team_num, r1, j1);
            let second = game_seats(team_num, r2, j2);
            first == second || first == (second.1, second.0)
        }),
    ensures
        r1 == r2,
        j1 == j2,
{
    reveal(seat_at);
    let n = ring_len(team_num);
    let k = games_per_round(team_num);
    let a1 = turned_back(n, j1, r1);
    let a2 = turned_back(n, j2, r2);
    lemma_ring_seats(team_num, a1);
    lemma_ring_seats(team_num, a2);
    if j1 == 0 || j2 == 0 {
        if j1 > 0 {
            lemma_ring_seats(team_num, turned_back(n, n - j1, r1));
        }
        if j2 > 0 {
            lemma_ring_seats(team_num, turned_back(n, n - j2, r2));
        }
        assert(j1 == 0 && j2 == 0);
        assert(a1 == a2);
    } else {
        let b1 = turned_back(n, n - j1, r1);
        let b2 = turned_back(n, n - j2, r2);
        lemma_ring_seats(team_num, b1);
        lemma_ring_seats(team_num, b2);
        assert((a1 == a2 && b1 == b2) || (a1 == b2 && b1 == a2));
        lemma_ring_meeting_once(n, k, r1, j1, r2, j2);
    }
}

/// The first `rounds` rounds list `games_per_round` games each.
pub proof fn lemma_games_through_len(team_num: usize, rounds: nat)
    ensures
        games_through(team_num, rounds).len() == rounds * games_per_round(team_num),
    decreases rounds,
{
    let k = games_per_round(team_num);
    if rounds > 0 {
        lemma_games_through_len(team_num, (rounds - 1) as nat);
        assert(rounds * k == (rounds - 1) * k + k) by (nonlinear_arith);
    } else {
        assert(0 * k == 0) by (nonlinear_arith);
    }
}

/// Game `j` of round `r` stands at index `r * games_per_round + j`.
pub proof fn lemma_game_index(team_num: usize, rounds: nat, r: int, j: int)
    requires
        0 <= r < rounds,
        0 <= j < games_per_round(team_num),
    ensures
        0 <= r * games_per_round(team_num) + j < games_through(team_num, rounds).len(),
        games_through(team_num, rounds)[r * games_per_round(team_num) + j] == game_at(
            team_num,
            r,
            j,
        ),
    decreases rounds,
{
    let k = games_per_round(team_num);
    let earlier = (rounds - 1) as nat;
    lemma_games_through_len(team_num, rounds);
    lemma_games_through_len(team_num, earlier);
    assert(rounds * k == earlier * k + k) by (nonlinear_arith)
        requires
            earlier == rounds - 1,
    ;
    assert(0 <= r * k) by (nonlinear_arith)
        requires
            0 <= r,
            0 <= k,
    ;
    if r == earlier {
        assert(round_games(team_num, r)[j] == game_at(team_num, r, j));
    } else {
        lemma_game_index(team_num, earlier, r, j);
    }
}

/// The game at index `i` is game `i % games_per_round` of round
/// `i / games_per_round`.
pub proof fn lemma_index_game(team_num: usize, rounds: nat, i: int)
    requires
        0 <= i < games_through(team_num, rounds).len(),
    ensures
        0 <= i / games_per_round(team_num) < rounds,
        0 <= i % games_per_round(team_num) < games_per_round(team_num),
        i == (i / games_per_round(team_num)) * games_per_round(team_num) + i % games_per_round(
            team_num,
        ),
        games_through(team_num, rounds)[i] == game_at(
            team_num,
            i / games_per_round(team_num),
            i % games_per_round(team_num),
        ),
{
    let k = games_per_round(team_num);
    lemma_games_through_len(team_num, rounds);
    assert(k >= 1) by (nonlinear_arith)
        requires
            0 <= i < rounds * k,
            k >= 0,
    ;
    lemma_fundamental_div_mod(i, k);
    let r = i / k;
    assert(r * k == k * r) by (nonlinear_arith);
    assert(0 <= r < rounds) by (nonlinear_arith)
        requires
            0 <= i < rounds * k,
            i == r * k + i % k,
            0 <= i % k < k,
    ;
    lemma_game_index(team_num, rounds, r, i % k);
}

/// The game is between `a` and `b`, whichever is listed first.
pub open spec fn is_between(game: (usize, usize), a: usize, b: usize) -> bool {
    game == (a, b) || game == (b, a)
}

/// The number of games between `a` and `b` in a list of games.
pub open spec fn meetings(games: Seq<(usize, usize)>, a: usize, b: usize) -> nat {
    games.filter(|game: (usize, usize)| is_between(game, a, b)).len()
}

/// `id` holds a seat: it is a competitor, or the bye where the number of
/// competitors is odd.
pub open spec fn holds_seat(team_num: usize, id: usize) -> bool {
    id <= team_num && (id != BYE || team_num % 2 == 1)
}

/// The round in which the holders `a` and `b` meet.
pub open spec fn round_of_meeting(team_num: usize, a: usize, b: usize) -> int {
    let s = seat_of(team_num, a);
    let t = seat_of(team_num, b);
    if s < t {
        meeting_round(team_num, s, t)
    } else {
        meeting_round(team_num, t, s)
    }
}

/// The place in its round of the game in which the holders `a` and `b` meet.
pub open spec fn slot_of_meeting(team_num: usize, a: usize, b: usize) -> int {
    let s = seat_of(team_num, a);
    let t = seat_of(team_num, b);
    if s < t {
        meeting_slot(team_num, s, t)
    } else {
        meeting_slot(team_num, t, s)
    }
}

/// The index in the full list of the game between the holders `a` and `b`.
pub open spec fn meeting_index(team_num: usize, a: usize, b: usize) -> int {
    round_of_meeting(team_num, a, b) * games_per_round(team_num) + slot_of_meeting(
        team_num,
        a,
        b,
    )
}

/// Any two holders of seats have a round and a place in it to meet.
pub proof fn lemma_meeting_place(team_num: usize, a: usize, b: usize)
    requires
        team_num >= 2,
        holds_seat(team_num, a),
        holds_seat(team_num, b),
        a != b,
    ensures
        0 <= round_of_meeting(team_num, a, b) < ring_len(team_num),
        0 <= slot_of_meeting(team_num, a, b) < games_per_round(team_num),
{
    let sa = seat_of(team_num, a);
    let sb = seat_of(team_num, b);
    if sa < sb {
        lemma_seats_meet(team_num, sa, sb);
    } else {
        lemma_seats_meet(team_num, sb, sa);
    }
}

/// Game `j` of round `r` is between the holders `a` and `b` when, and only
/// when, it is the game in which they meet.
pub proof fn lemma_game_between(team_num: usize, a: usize, b: usize, r: int, j: int)
    requires
        team_num >= 2,
        holds_seat(team_num, a),
        holds_seat(team_num, b),
        a != b,
        0 <= r < ring_len(team_num),
        0 <= j < games_per_round(team_num),
    ensures
        0 <= round_of_meeting(team_num, a, b) < ring_len(team_num),
        0 <= slot_of_meeting(team_num, a, b) < games_per_round(team_num),
        is_between(game_at(team_num, r, j), a, b) <==> (r == round_of_meeting(team_num, a, b) && j
            == slot_of_meeting(team_num, a, b)),
{
    let sa = seat_of(team_num, a);
    let sb = seat_of(team_num, b);
    let s = if sa < sb {
        sa
    } else {
        sb
    };
    let t = if sa < sb {
        sb
    } else {
        sa
    };
    let r0 = round_of_meeting(team_num, a, b);
    let j0 = slot_of_meeting(team_num, a, b);
    lemma_seats_meet(team_num, s, t);
    lemma_game_seats(team_num, r, j);
    lemma_game_seats(team_num, r0, j0);
    let seats = game_seats(team_num, r, j);
    let met = game_seats(team_num, r0, j0);
    assert(seat_holder(team_num, sa) == a);
    assert(seat_holder(team_num, sb) == b);
    assert(met == (s, t) || met == (t, s));
    if is_between(game_at(team_num, r, j), a, b) {
        assert(seat_of(team_num, seat_holder(team_num, seats.0)) == seats.0);
        assert(seat_of(team_num, seat_holder(team_num, seats.1)) == seats.1);
        assert(seats == (s, t) || seats == (t, s));
        lemma_seats_meet_once(team_num, r, j, r0, j0);
    }
}

/// Any two holders of seats meet in the game at `meeting_index`, and in no
/// other game of the list.
pub proof fn lemma_holders_meet_once(team_num: usize, a: usize, b: usize)
    requires
        team_num >= 2,
        holds_seat(team_num, a),
        holds_seat(team_num, b),
        a != b,
    ensures
        0 <= meeting_index(team_num, a, b) < all_games(team_num).len(),
        is_between(all_games(team_num)[meeting_index(team_num, a, b)], a, b),
        forall|i: int|
            0 <= i < all_games(team_num).len() && is_between(
                #[trigger] all_games(team_num)[i],
                a,
                b,
            ) ==> i == meeting_index(team_num, a, b),
        meetings(all_games(team_num), a, b) == 1,
{
    let k = games_per_round(team_num);
    let n = round_count(team_num) as nat;
    let games = all_games(team_num);
    let r0 = round_of_meeting(team_num, a, b);
    let j0 = slot_of_meeting(team_num, a, b);
    let at = meeting_index(team_num, a, b);
    lemma_meeting_place(team_num, a, b);
    lemma_game_between(team_num, a, b, r0, j0);
    lemma_game_index(team_num, n, r0, j0);
    assert forall|i: int| 0 <= i < games.len() implies (is_between(#[trigger] games[i], a, b)
        <==> i == at) by {
        lemma_index_game(team_num, n, i);
        lemma_game_between(team_num, a, b, i / k, i % k);
        if i == at {
            lemma_fundamental_div_mod_converse(i, k, r0, j0);
        }
    }
    lemma_filter_one(games, |game: (usize, usize)| is_between(game, a, b), at);
}

/// The place in round `r` of the game in which seat `s` takes part.
#[verifier::opaque]
pub open spec fn slot_of_seat(team_num: usize, r: int, s: int) -> int {
    if s == 0 {
        0
    } else {
        let n = ring_len(team_num);
        let first = ring_place(team_num, s);
        let place = if first + r < n {
            first + r
        } else {
            first + r - n
        };
        if place < games_per_round(team_num) {
            place
        } else {
            n - place
        }
    }
}

/// In every round every seat takes part in one game, the one at
/// `slot_of_seat`.
pub proof fn lemma_seat_plays_once(team_num: usize, r: int, j: int, s: int)
    requires
        team_num >= 2,
        0 <= r < ring_len(team_num),
        0 <= j < games_per_round(team_num),
        0 <= s < seat_count(team_num),
    ensures
        0 <= slot_of_seat(team_num, r, s) < games_per_round(team_num),
        (game_seats(team_num, r, j).0 == s || game_seats(team_num, r, j).1 == s) <==> j
            == slot_of_seat(team_num, r, s),
{
    reveal(seat_at);
    reveal(slot_of_seat);
    let n = ring_len(team_num);
    lemma_ring_seats(team_num, turned_back(n, j, r));
    if j > 0 {
        lemma_ring_seats(team_num, turned_back(n, n - j, r));
    }
    if s > 0 {
        lemma_ring_places(team_num, s);
    }
}

/// The holder `id` is one of the two sides of the game.
pub open spec fn plays_in(game: (usize, usize), id: usize) -> bool {
    game.0 == id || game.1 == id
}

/// Game `j` of round `r` has the holder `id` on one side when, and only
/// when, it stands at the place of the holder's seat.
pub proof fn lemma_holder_plays_once(team_num: usize, r: int, j: int, id: usize)
    requires
        team_num >= 2,
        0 <= r < ring_len(team_num),
        0 <= j < games_per_round(team_num),
        holds_seat(team_num, id),
    ensures
        0 <= slot_of_seat(team_num, r, seat_of(team_num, id)) < games_per_round(team_num),
        plays_in(game_at(team_num, r, j), id) <==> j == slot_of_seat(
            team_num,
            r,
            seat_of(team_num, id),
        ),
{
    let s = seat_of(team_num, id);
    let seats = game_seats(team_num, r, j);
    lemma_game_seats(team_num, r, j);
    lemma_seat_plays_once(team_num, r, j, s);
    assert(seat_holder(team_num, s) == id);
    assert(seat_of(team_num, seat_holder(team_num, seats.0)) == seats.0);
    assert(seat_of(team_num, seat_holder(team_num, seats.1)) == seats.1);
}

/// Every round of the circle seats everyone once: each competitor, and the
/// bye where there is one, is on one side of one game of the round.
pub proof fn law_round_seats_everyone_once(team_num: usize, r: int, id: usize)
    requires
        team_num >= 2,
        0 <= r < round_count(team_num),
        holds_seat(team_num, id),
    ensures
        round_games(team_num, r).len() == games_per_round(team_num),
        round_games(team_num, r).filter(|game: (usize, usize)| plays_in(game, id)).len() == 1,
{
    let games = round_games(team_num, r);
    let test = |game: (usize, usize)| plays_in(game, id);
    let at = slot_of_seat(team_num, r, seat_of(team_num, id));
    lemma_holder_plays_once(team_num, r, 0, id);
    assert forall|j: int| 0 <= j < games.len() implies (test(#[trigger] games[j]) <==> j
        == at) by {
        lemma_holder_plays_once(team_num, r, j, id);
    }
    lemma_filter_one(games, test, at);
}

/// The place in round `r` of the game against the bye, where the number of
/// competitors is odd.
pub open spec fn bye_slot(team_num: usize, r: int) -> int {
    slot_of_seat(team_num, r, team_num as int)
}

/// With an odd number of competitors, each round has one game against the
/// bye, at `bye_slot`; with an even number it has none.
pub proof fn lemma_byes_of_round(team_num: usize, r: int, j: int)
    requires
        team_num >= 2,
        0 <= r < ring_len(team_num),
        0 <= j < games_per_round(team_num),
    ensures
        team_num % 2 == 0 ==> is_played(game_at(team_num, r, j)),
        team_num % 2 == 1 ==> 0 <= bye_slot(team_num, r) < games_per_round(team_num),
        team_num % 2 == 1 ==> (is_played(game_at(team_num, r, j)) <==> j != bye_slot(team_num, r)),
{
    lemma_game_seats(team_num, r, j);
    if team_num % 2 == 1 {
        lemma_holder_plays_once(team_num, r, j, BYE);
    }
}

/// The number of games of one round that are played.
pub open spec fn played_per_round(team_num: usize) -> int {
    games_per_round(team_num) - team_num % 2
}

/// Each round has `played_per_round` games that are played.
pub proof fn lemma_played_of_round(team_num: usize, r: int)
    requires
        team_num >= 2,
        0 <= r < ring_len(team_num),
    ensures
        played_games(round_games(team_num, r)).len() == played_per_round(team_num),
{
    let games = round_games(team_num, r);
    let test = |game: (usize, usize)| is_played(game);
    if team_num % 2 == 0 {
        assert forall|j: int| 0 <= j < games.len() implies test(#[trigger] games[j]) by {
            lemma_byes_of_round(team_num, r, j);
        }
        lemma_filter_all(games, test);
    } else {
        lemma_byes_of_round(team_num, r, 0);
        let idle = bye_slot(team_num, r);
        assert forall|j: int| 0 <= j < games.len() implies (test(#[trigger] games[j]) <==> j
            != idle) by {
            lemma_byes_of_round(team_num, r, j);
        }
        lemma_filter_all_but_one(games, test, idle);
    }
}

/// The first `rounds` rounds have `played_per_round` played games each.
pub proof fn lemma_played_through(team_num: usize, rounds: nat)
    requires
        team_num >= 2,
        rounds <= ring_len(team_num),
    ensures
        played_games(games_through(team_num, rounds)).len() == rounds * played_per_round(team_num),
    decreases rounds,
{
    let p = played_per_round(team_num);
    let test = |game: (usize, usize)| is_played(game);
    if rounds == 0 {
        reveal(Seq::filter);
        assert(0 * p == 0) by (nonlinear_arith);
    } else {
        let earlier = (rounds - 1) as nat;
        lemma_played_through(team_num, earlier);
        lemma_played_of_round(team_num, earlier as int);
        Seq::filter_distributes_over_add(
            games_through(team_num, earlier),
            round_games(team_num, earlier as int),
            test,
        );
        assert(rounds * p == earlier * p + p) by (nonlinear_arith)
            requires
                earlier == rounds - 1,
        ;
    }
}

/// Every two competitors meet once: among the games that are played there
/// is one game between `a` and `b`, and so there is in the full list.
pub proof fn law_every_pair_meets_once(team_num: usize, a: usize, b: usize)
    requires
        team_num >= 2,
        1 <= a < b <= team_num,
    ensures
        meetings(all_games(team_num), a, b) == 1,
        meetings(played_games(all_games(team_num)), a, b) == 1,
{
    lemma_holders_meet_once(team_num, a, b);
    lemma_filter_twice(
        all_games(team_num),
        |game: (usize, usize)| is_played(game),
        |game: (usize, usize)| is_between(game, a, b),
    );
}

/// With an odd number of competitors, every competitor sits out once: the
/// full list has one game between `id` and the bye.
pub proof fn law_every_competitor_sits_out_once(team_num: usize, id: usize)
    requires
        team_num >= 3,
        team_num % 2 == 1,
        1 <= id <= team_num,
    ensures
        meetings(all_games(team_num), id, BYE) == 1,
        meetings(all_games(team_num), BYE, id) == 1,
{
    lemma_holders_meet_once(team_num, id, BYE);
    lemma_holders_meet_once(team_num, BYE, id);
}

/// The number of games that are played is the number of pairs of
/// competitors.
pub proof fn law_played_game_count(team_num: usize)
    ensures
        played_games(all_games(team_num)).len() == team_num * (team_num - 1) / 2,
{
    if team_num <= 1 {
        reveal(Seq::filter);
        assert(team_num * (team_num - 1) == 0) by (nonlinear_arith)
            requires
                0 <= team_num <= 1,
        ;
    } else {
        let n = ring_len(team_num);
        let p = played_per_round(team_num);
        lemma_played_through(team_num, n as nat);
        assert(n * p * 2 == team_num * (team_num - 1)) by (nonlinear_arith)
            requires
                team_num % 2 == 0 ==> n == team_num - 1 && 2 * p == team_num,
                team_num % 2 == 1 ==> n == team_num && 2 * p == team_num - 1,
                team_num % 2 == 0 || team_num % 2 == 1,
        ;
    }
}

/// Every game that is played is between two different competitors.
pub proof fn law_played_games_are_pairs(team_num: usize, i: int)
    requires
        0 <= i < played_games(all_games(team_num)).len(),
    ensures
        ({
            let game = played_games(all_games(team_num))[i];
            &&& 1 <= game.0 <= team_num
            &&& 1 <= game.1 <= team_num
            &&& game.0 != game.1
        }),
{
    let games = all_games(team_num);
    lemma_filter_kept(games, |game: (usize, usize)| is_played(game), i);
    let game = played_games(games)[i];
    let at = choose|at: int| 0 <= at < games.len() && games[at] == game;
    lemma_index_game(team_num, round_count(team_num) as nat, at);
    lemma_game_seats(
        team_num,
        at / games_per_round(team_num),
        at % games_per_round(team_num),
    );
}

/// The two sides of a game, the lower identifier first.
pub open spec fn unordered(game: (usize, usize)) -> (usize, usize) {
    if game.0 <= game.1 {
        game
    } else {
        (game.1, game.0)
    }
}

/// The games of a list as unordered pairs.
pub open spec fn pairs_of(games: Seq<(usize, usize)>) -> Seq<(usize, usize)> {
    games.map_values(|game: (usize, usize)| unordered(game))
}

/// All the ways to pick two of the competitors `1 ..= team_num`.
pub open spec fn combinations(team_num: usize) -> Set<(usize, usize)> {
    Set::new(|pair: (usize, usize)| 1 <= pair.0 < pair.1 <= team_num)
}

/// The games that are played, taken as unordered pairs, are all the ways to
/// pick two of the competitors, and no pair comes twice.
pub proof fn law_played_pairs_are_the_combinations(team_num: usize)
    ensures
        pairs_of(played_games(all_games(team_num))).no_duplicates(),
        pairs_of(played_games(all_games(team_num))).to_set() == combinations(team_num),
{
    let played = played_games(all_games(team_num));
    let pairs = pairs_of(played);
    assert forall|i: int, j: int|
        0 <= i < pairs.len() && 0 <= j < pairs.len() && i != j implies pairs[i] != pairs[j] by {
        law_played_games_are_pairs(team_num, i);
        law_played_games_are_pairs(team_num, j);
        if pairs[i] == pairs[j] {
            let a = pairs[i].0;
            let b = pairs[i].1;
            let test = |game: (usize, usize)| is_between(game, a, b);
            assert(test(played[i]) && test(played[j]));
            if i < j {
                lemma_filter_two(played, test, i, j);
            } else {
                lemma_filter_two(played, test, j, i);
            }
            law_every_pair_meets_once(team_num, a, b);
        }
    }
    assert forall|pair: (usize, usize)| pairs.to_set().contains(pair) <==> combinations(
        team_num,
    ).contains(pair) by {
        if pairs.contains(pair) {
            let i = choose|i: int| 0 <= i < pairs.len() && pairs[i] == pair;
            law_played_games_are_pairs(team_num, i);
        }
        if combinations(team_num).contains(pair) {
            let test = |game: (usize, usize)| is_between(game, pair.0, pair.1);
            law_every_pair_meets_once(team_num, pair.0, pair.1);
            lemma_filter_kept(played, test, 0);
            let game = played.filter(test)[0];
            let i = choose|i: int| 0 <= i < played.len() && played[i] == game;
            assert(pairs[i] == pair);
        }
    }
    assert(pairs.to_set() =~= combinations(team_num));
}

} // verus!
