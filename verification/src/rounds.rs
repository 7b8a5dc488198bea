//! The round batcher: it drops the games against the bye and cuts the rest,
//! in order, into rounds of at most `court_num` games.

use crate::seating::BYE;
use vstd::arithmetic::div_mod::lemma_fundamental_div_mod;
use vstd::arithmetic::div_mod::lemma_fundamental_div_mod_converse;
use vstd::prelude::*;

verus! {

/// A game is played when neither side is the bye.
pub open spec fn is_played(game: (usize, usize)) -> bool {
    game.0 != BYE && game.1 != BYE
}

/// The games that are played, in the order in which they were listed.
pub open spec fn played_games(games: Seq<(usize, usize)>) -> Seq<(usize, usize)> {
    games.filter(|game: (usize, usize)| is_played(game))
}

/// The number of rounds that `game_num` games take on `court_num` courts.
pub open spec fn rounds_needed(game_num: int, court_num: int) -> int {
    (game_num + court_num - 1) / court_num
}

/// Where round `i` ends in the list of played games.
pub open spec fn round_end(game_num: int, court_num: int, i: int) -> int {
    if (i + 1) * court_num < game_num {
        (i + 1) * court_num
    } else {
        game_num
    }
}

/// The games of round `i` (counted from 0): the next `court_num` played
/// games, or those that are left. The game at position `j` is on court
/// `j + 1`.
pub open spec fn games_of_round(played: Seq<(usize, usize)>, court_num: int, i: int) -> Seq<
    (usize, usize),
> {
    played.subrange(i * court_num, round_end(played.len() as int, court_num, i))
}

/// The played games cut into rounds.
pub open spec fn rounds_of(played: Seq<(usize, usize)>, court_num: int) -> Seq<
    Seq<(usize, usize)>,
> {
    Seq::new(
        rounds_needed(played.len() as int, court_num) as nat,
        |i: int| games_of_round(played, court_num, i),
    )
}

/// What a list of rounds holds, round by round.
pub open spec fn views_of(rounds: Seq<Vec<(usize, usize)>>) -> Seq<Seq<(usize, usize)>> {
    Seq::new(rounds.len(), |i: int| rounds[i]@)
}

/// The last round is the first to reach the end of the list: `rounds_needed`
/// is the least number of rounds that hold every game.
pub proof fn lemma_rounds_needed(game_num: int, court_num: int)
    requires
        game_num >= 0,
        court_num >= 1,
    ensures
        rounds_needed(game_num, court_num) >= 0,
        rounds_needed(game_num, court_num) * court_num >= game_num,
        (rounds_needed(game_num, court_num) - 1) * court_num < game_num || game_num == 0,
        game_num == 0 ==> rounds_needed(game_num, court_num) == 0,
{
    let x = game_num + court_num - 1;
    let n = rounds_needed(game_num, court_num);
    lemma_fundamental_div_mod(x, court_num);
    assert(x == court_num * n + x % court_num);
    assert(court_num * n == n * court_num) by (nonlinear_arith);
    assert((n - 1) * court_num == n * court_num - court_num) by (nonlinear_arith);
    if game_num == 0 {
        assert(0 * court_num == 0) by (nonlinear_arith);
        lemma_fundamental_div_mod_converse(x, court_num, 0, x);
    }
    assert(n >= 0) by (nonlinear_arith)
        requires
            x >= 0,
            court_num >= 1,
            x == n * court_num + x % court_num,
            0 <= x % court_num < court_num,
    ;
}

/// A round that starts before the end of the list is one of the rounds
/// needed.
pub proof fn lemma_round_is_needed(game_num: int, court_num: int, q: int)
    requires
        game_num >= 0,
        court_num >= 1,
        0 <= q,
        q * court_num < game_num,
    ensures
        q < rounds_needed(game_num, court_num),
{
    let n = rounds_needed(game_num, court_num);
    lemma_rounds_needed(game_num, court_num);
    assert(q < n) by (nonlinear_arith)
        requires
            q * court_num < game_num,
            n * court_num >= game_num,
            court_num >= 1,
    ;
}

/// Where round `i` starts and ends: it starts inside the list, holds at
/// least one game and at most `court_num`, and is full unless it is the
/// last.
pub proof fn lemma_round_bounds(game_num: int, court_num: int, i: int)
    requires
        game_num >= 0,
        court_num >= 1,
        0 <= i < rounds_needed(game_num, court_num),
    ensures
        0 <= i * court_num < round_end(game_num, court_num, i) <= game_num,
        round_end(game_num, court_num, i) - i * court_num <= court_num,
        i + 1 < rounds_needed(game_num, court_num) ==> round_end(game_num, court_num, i) == (i
            + 1) * court_num,
        i + 1 == rounds_needed(game_num, court_num) ==> round_end(game_num, court_num, i)
            == game_num,
{
    let total = rounds_needed(game_num, court_num);
    lemma_rounds_needed(game_num, court_num);
    assert((i + 1) * court_num == i * court_num + court_num) by (nonlinear_arith);
    assert(0 <= i * court_num) by (nonlinear_arith)
        requires
            0 <= i,
            court_num >= 1,
    ;
    assert((i + 1) * court_num <= (total - 1) * court_num || i + 1 == total) by (nonlinear_arith)
        requires
            i + 1 <= total,
            court_num >= 1,
    ;
}

/// The number of games in a list of rounds.
pub open spec fn total_games(rounds: Seq<Seq<(usize, usize)>>) -> nat
    decreases rounds.len(),
{
    if rounds.len() == 0 {
        0
    } else {
        total_games(rounds.drop_last()) + rounds.last().len()
    }
}

/// The games of a list of rounds, round after round.
pub open spec fn joined(rounds: Seq<Seq<(usize, usize)>>) -> Seq<(usize, usize)>
    decreases rounds.len(),
{
    if rounds.len() == 0 {
        Seq::empty()
    } else {
        joined(rounds.drop_last()) + rounds.last()
    }
}

/// The rounds joined together hold as many games as the rounds hold.
pub proof fn lemma_joined_len(rounds: Seq<Seq<(usize, usize)>>)
    ensures
        joined(rounds).len() == total_games(rounds),
    decreases rounds.len(),
{
    if rounds.len() > 0 {
        lemma_joined_len(rounds.drop_last());
    }
}

/// The first `q` rounds, joined together, are the played games up to the
/// start of round `q`.
proof fn lemma_joined_prefix(played: Seq<(usize, usize)>, court_num: int, q: int)
    requires
        court_num >= 1,
        0 <= q <= rounds_needed(played.len() as int, court_num),
    ensures
        q < rounds_needed(played.len() as int, court_num) ==> joined(
            rounds_of(played, court_num).take(q),
        ) == played.take(q * court_num),
        q == rounds_needed(played.len() as int, court_num) ==> joined(
            rounds_of(played, court_num).take(q),
        ) == played,
    decreases q,
{
    let all = rounds_of(played, court_num);
    let len = played.len() as int;
    if q == 0 {
        assert(0 * court_num == 0) by (nonlinear_arith);
        assert(played.take(0) =~= Seq::empty());
        lemma_rounds_needed(len, court_num);
        if rounds_needed(len, court_num) == 0 {
            assert(played =~= Seq::empty());
        }
    } else {
        lemma_joined_prefix(played, court_num, q - 1);
        lemma_round_bounds(len, court_num, q - 1);
        assert(all.take(q).drop_last() =~= all.take(q - 1));
        assert(all.take(q).last() == games_of_round(played, court_num, q - 1));
        let start = (q - 1) * court_num;
        let end = round_end(len, court_num, q - 1);
        assert(played.take(start) + played.subrange(start, end) =~= played.take(end));
        assert(played.take(len) =~= played);
    }
}

/// Batching keeps every played game in its place: the rounds, joined
/// together, are the played games, so they hold as many games as were
/// played.
pub proof fn law_rounds_keep_every_game(played: Seq<(usize, usize)>, court_num: int)
    requires
        court_num >= 1,
    ensures
        joined(rounds_of(played, court_num)) == played,
        total_games(rounds_of(played, court_num)) == played.len(),
{
    let all = rounds_of(played, court_num);
    lemma_rounds_needed(played.len() as int, court_num);
    lemma_joined_prefix(played, court_num, all.len() as int);
    assert(all.take(all.len() as int) =~= all);
    lemma_joined_len(all);
}

/// No round holds more games than there are courts, none is empty, and
/// every round but the last is full.
pub proof fn law_rounds_fill_the_courts(played: Seq<(usize, usize)>, court_num: int, i: int)
    requires
        court_num >= 1,
        0 <= i < rounds_of(played, court_num).len(),
    ensures
        1 <= rounds_of(played, court_num)[i].len() <= court_num,
        i + 1 < rounds_of(played, court_num).len() ==> rounds_of(played, court_num)[i].len()
            == court_num,
{
    lemma_rounds_needed(played.len() as int, court_num);
    lemma_round_bounds(played.len() as int, court_num, i);
    assert((i + 1) * court_num == i * court_num + court_num) by (nonlinear_arith);
}

/// The game on court `j + 1` of round `i + 1` is the played game at
/// position `i * court_num + j`.
pub proof fn law_rounds_keep_the_order(
    played: Seq<(usize, usize)>,
    court_num: int,
    i: int,
    j: int,
)
    requires
        court_num >= 1,
        0 <= i < rounds_of(played, court_num).len(),
        0 <= j < rounds_of(played, court_num)[i].len(),
    ensures
        0 <= i * court_num + j < played.len(),
        rounds_of(played, court_num)[i][j] == played[i * court_num + j],
{
    lemma_rounds_needed(played.len() as int, court_num);
    lemma_round_bounds(played.len() as int, court_num, i);
}

/// Copies the played games out of `games`, in order.
fn keep_played(games: &[(usize, usize)]) -> (played: Vec<(usize, usize)>)
    ensures
        played@ == played_games(games@),
{
    let mut played: Vec<(usize, usize)> = Vec::new();
    let mut i: usize = 0;
    proof {
        reveal(Seq::filter);
        assert(games@.take(0) =~= Seq::empty());
    }
    while i < games.len()
        invariant
            i <= games.len(),
            played@ == played_games(games@.take(i as int)),
        decreases games.len() - i,
    {
        let game = games[i];
        proof {
            assert(games@.take(i + 1) =~= games@.take(i as int).push(game));
            games@.take(i as int).lemma_filter_push(game, |g: (usize, usize)| is_played(g));
        }
        if game.0 != BYE && game.1 != BYE {
            played.push(game);
        }
        i += 1;
    }
    proof {
        assert(games@.take(games.len() as int) =~= games@);
    }
    played
}

/// Copies the games `start .. end` of `played` into a round of their own.
fn copy_round(played: &Vec<(usize, usize)>, start: usize, end: usize) -> (round: Vec<
    (usize, usize),
>)
    requires
        start <= end <= played.len(),
    ensures
        round@ == played@.subrange(start as int, end as int),
{
    let mut round: Vec<(usize, usize)> = Vec::new();
    let mut i: usize = start;
    while i < end
        invariant
            start <= i <= end <= played.len(),
            round@ == played@.subrange(start as int, i as int),
        decreases end - i,
    {
        round.push(played[i]);
        assert(round@ =~= played@.subrange(start as int, i + 1));
        i += 1;
    }
    round
}

/// Packs the games into rounds for `court_num` courts: the games against the
/// bye are left out, and each round takes the next `court_num` games of the
/// rest, the last round what remains. No game is moved from its place in the
/// order. An empty list gives no round.
pub fn generate_games_at_once(games: &[(usize, usize)], court_num: usize) -> (rounds: Vec<
    Vec<(usize, usize)>,
>)
    requires
        court_num >= 1,
    ensures
        views_of(rounds@) == rounds_of(played_games(games@), court_num as int),
        total_games(views_of(rounds@)) == played_games(games@).len(),
        forall|i: int| 0 <= i < rounds@.len() ==> 1 <= (#[trigger] rounds@[i]).len() <= court_num,
        forall|i: int| 0 <= i < rounds@.len() - 1 ==> (#[trigger] rounds@[i]).len() == court_num,
{
    let played = keep_played(games);
    let mut rounds: Vec<Vec<(usize, usize)>> = Vec::new();
    let mut start: usize = 0;
    proof {
        lemma_rounds_needed(played.len() as int, court_num as int);
        assert(0 * court_num == 0) by (nonlinear_arith);
    }
    while start < played.len()
        invariant
            court_num >= 1,
            start <= played.len(),
            start < played.len() ==> start == rounds.len() * court_num,
            start == played.len() ==> rounds.len() == rounds_needed(
                played.len() as int,
                court_num as int,
            ),
            rounds.len() <= rounds_needed(played.len() as int, court_num as int),
            views_of(rounds@) == rounds_of(played@, court_num as int).take(rounds.len() as int),
        decreases played.len() - start,
    {
        let ghost done = rounds.len() as int;
        let ghost before = views_of(rounds@);
        let end: usize = if court_num < played.len() - start {
            start + court_num
        } else {
            played.len()
        };
        proof {
            lemma_rounds_needed(played.len() as int, court_num as int);
            assert((done + 1) * court_num == done * court_num + court_num) by (nonlinear_arith);
            assert(end == round_end(played.len() as int, court_num as int, done));
            lemma_round_is_needed(played.len() as int, court_num as int, done);
            if end == played.len() {
                let total = rounds_needed(played.len() as int, court_num as int);
                assert(total <= done + 1) by (nonlinear_arith)
                    requires
                        (total - 1) * court_num < played.len(),
                        (done + 1) * court_num >= played.len(),
                        court_num >= 1,
                ;
            }
        }
        let round = copy_round(&played, start, end);
        rounds.push(round);
        proof {
            assert(views_of(rounds@) =~= before.push(round@));
            assert(views_of(rounds@) =~= rounds_of(played@, court_num as int).take(done + 1));
        }
        start = end;
    }
    proof {
        let all = rounds_of(played@, court_num as int);
        assert(all.take(all.len() as int) =~= all);
        law_rounds_keep_every_game(played@, court_num as int);
        assert forall|i: int| 0 <= i < rounds@.len() implies 1 <= (#[trigger] rounds@[i]).len()
            <= court_num && (i < rounds@.len() - 1 ==> rounds@[i].len() == court_num) by {
            assert(views_of(rounds@)[i] == rounds@[i]@);
            law_rounds_fill_the_courts(played@, court_num as int, i);
        }
    }
    rounds
}

} // verus!
