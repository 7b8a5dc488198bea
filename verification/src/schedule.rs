//! The fixture list: rounds of matches, each match on a court of its own.

use crate::meetings::{
    is_between, law_every_pair_meets_once, law_played_game_count, law_played_games_are_pairs,
};
use crate::pairing::generate_all_games;
use crate::rounds::{
    generate_games_at_once, joined, law_rounds_fill_the_courts, law_rounds_keep_every_game,
    law_rounds_keep_the_order, lemma_rounds_needed, played_games, rounds_of, views_of,
};
use crate::seating::all_games;
use vstd::prelude::*;

verus! {

/// One match: the court it is played on, counted from 1 within its round,
/// and the two competitors, the lower identifier first.
#[derive(Clone, Copy, Debug, PartialEq, Eq)]
pub struct Match {
    pub court_number: usize,
    pub team1_id: usize,
    pub team2_id: usize,
}

/// One round: its number, counted from 1, and its matches by court.
#[derive(Clone, Debug, PartialEq, Eq)]
pub struct Round {
    pub round_number: usize,
    pub matches: Vec<Match>,
}

/// The whole fixture list, round after round.
#[derive(Clone, Debug, PartialEq, Eq)]
pub struct TournamentResult {
    pub rounds: Vec<Round>,
}

/// What a round is, as a mathematical value.
pub struct RoundView {
    pub round_number: nat,
    pub matches: Seq<Match>,
}

impl View for Round {
    type V = RoundView;

    open spec fn view(&self) -> RoundView {
        RoundView { round_number: self.round_number as nat, matches: self.matches@ }
    }
}

impl View for TournamentResult {
    type V = Seq<RoundView>;

    open spec fn view(&self) -> Seq<RoundView> {
        Seq::new(self.rounds@.len(), |i: int| self.rounds@[i]@)
    }
}

/// The number of courts that are put to use: never more than there can be
/// matches at one time, and never fewer than one.
pub open spec fn court_limit(team_num: usize, court_num: usize) -> usize {
    let most: usize = if court_num < team_num / 2 {
        court_num
    } else {
        team_num / 2
    };
    if most < 1 {
        1
    } else {
        most
    }
}

/// The match that game `game` makes on court `j + 1`.
pub open spec fn match_of(game: (usize, usize), j: int) -> Match {
    Match {
        court_number: (j + 1) as usize,
        team1_id: if game.0 <= game.1 {
            game.0
        } else {
            game.1
        },
        team2_id: if game.0 <= game.1 {
            game.1
        } else {
            game.0
        },
    }
}

/// The matches that the games of one round make, court by court.
pub open spec fn matches_of(games: Seq<(usize, usize)>) -> Seq<Match> {
    Seq::new(games.len(), |j: int| match_of(games[j], j))
}

/// The rounds that the given rounds of games make, numbered from 1.
pub open spec fn numbered_rounds(rounds: Seq<Seq<(usize, usize)>>) -> Seq<RoundView> {
    Seq::new(
        rounds.len(),
        |i: int| RoundView { round_number: (i + 1) as nat, matches: matches_of(rounds[i]) },
    )
}

/// The fixture list for `team_num` competitors on `court_num` courts.
pub open spec fn schedule_of(team_num: usize, court_num: usize) -> Seq<RoundView> {
    numbered_rounds(
        rounds_of(played_games(all_games(team_num)), court_limit(team_num, court_num) as int),
    )
}

/// Brings the requested number of courts into the range that can be used.
pub fn adjust_court_num(team_num: usize, court_num: usize) -> (courts: usize)
    ensures
        courts == court_limit(team_num, court_num),
        courts >= 1,
        courts == 1 || courts <= team_num / 2,
{
    let most: usize = if court_num < team_num / 2 {
        court_num
    } else {
        team_num / 2
    };
    if most < 1 {
        1
    } else {
        most
    }
}

/// Turns the games of one round into matches, court by court.
fn matches_from(games: &Vec<(usize, usize)>) -> (matches: Vec<Match>)
    ensures
        matches@ == matches_of(games@),
{
    let mut matches: Vec<Match> = Vec::new();
    let mut j: usize = 0;
    while j < games.len()
        invariant
            j <= games.len(),
            matches@ == matches_of(games@).take(j as int),
        decreases games.len() - j,
    {
        let (a, b) = games[j];
        let (low, high) = if a <= b {
            (a, b)
        } else {
            (b, a)
        };
        matches.push(Match { court_number: j + 1, team1_id: low, team2_id: high });
        assert(matches@ =~= matches_of(games@).take(j + 1));
        j += 1;
    }
    matches
}

/// Computes the fixture list for `team_num` competitors, numbered from 1,
/// on `court_num` courts. Every two competitors meet once. A court count
/// outside of what can be used is brought into range, not refused. Fewer
/// than two competitors give an empty list.
pub fn compute_schedule(team_num: usize, court_num: usize) -> (result: TournamentResult)
    ensures
        result@ == schedule_of(team_num, court_num),
        team_num <= 1 ==> result.rounds@.len() == 0,
{
    let games = generate_all_games(team_num);
    let courts = adjust_court_num(team_num, court_num);
    let batches = generate_games_at_once(games.as_slice(), courts);
    let ghost wanted = rounds_of(played_games(all_games(team_num)), courts as int);
    let mut rounds: Vec<Round> = Vec::new();
    let mut i: usize = 0;
    while i < batches.len()
        invariant
            i <= batches.len(),
            views_of(batches@) == wanted,
            rounds@.len() == i,
            forall|k: int| 0 <= k < i ==> (#[trigger] rounds@[k])@ == numbered_rounds(wanted)[k],
        decreases batches.len() - i,
    {
        assert(views_of(batches@)[i as int] == batches@[i as int]@);
        let matches = matches_from(&batches[i]);
        rounds.push(Round { round_number: i + 1, matches });
        i += 1;
    }
    let result = TournamentResult { rounds };
    proof {
        assert(views_of(batches@).len() == batches@.len());
        assert(result@ =~= schedule_of(team_num, court_num));
        if team_num <= 1 {
            reveal(Seq::filter);
            assert(all_games(team_num) =~= Seq::empty());
            assert(played_games(all_games(team_num)).len() == 0);
            lemma_rounds_needed(0, courts as int);
        }
    }
    result
}

/// The matches of a fixture list, round after round.
pub open spec fn all_matches(schedule: Seq<RoundView>) -> Seq<Match>
    decreases schedule.len(),
{
    if schedule.len() == 0 {
        Seq::empty()
    } else {
        all_matches(schedule.drop_last()) + schedule.last().matches
    }
}

/// The match is the one of `a` against `b`, the lower identifier first.
pub open spec fn is_match_of(game: Match, a: usize, b: usize) -> bool {
    game.team1_id == a && game.team2_id == b
}

/// The number of matches of `a` against `b` in a fixture list.
pub open spec fn matches_between(schedule: Seq<RoundView>, a: usize, b: usize) -> nat {
    all_matches(schedule).filter(|game: Match| is_match_of(game, a, b)).len()
}

/// One round has as many matches of `a` against `b` as it has games
/// between them.
proof fn lemma_matches_of_round(games: Seq<(usize, usize)>, a: usize, b: usize)
    requires
        a < b,
    ensures
        matches_of(games).len() == games.len(),
        matches_of(games).filter(|game: Match| is_match_of(game, a, b)).len() == games.filter(
            |game: (usize, usize)| is_between(game, a, b),
        ).len(),
    decreases games.len(),
{
    reveal(Seq::filter);
    if games.len() > 0 {
        lemma_matches_of_round(games.drop_last(), a, b);
        assert(matches_of(games).drop_last() =~= matches_of(games.drop_last()));
        assert(matches_of(games).last() == match_of(games.last(), games.len() - 1));
    }
}

/// A list of rounds has as many matches of `a` against `b`, and as many
/// matches in all, as it has games.
proof fn lemma_matches_of_rounds(rounds: Seq<Seq<(usize, usize)>>, a: usize, b: usize)
    requires
        a < b,
    ensures
        all_matches(numbered_rounds(rounds)).len() == joined(rounds).len(),
        matches_between(numbered_rounds(rounds), a, b) == joined(rounds).filter(
            |game: (usize, usize)| is_between(game, a, b),
        ).len(),
    decreases rounds.len(),
{
    if rounds.len() == 0 {
        reveal(Seq::filter);
    } else {
        let earlier = rounds.drop_last();
        lemma_matches_of_rounds(earlier, a, b);
        lemma_matches_of_round(rounds.last(), a, b);
        assert(numbered_rounds(rounds).drop_last() =~= numbered_rounds(earlier));
        assert(numbered_rounds(rounds).last().matches == matches_of(rounds.last()));
        Seq::filter_distributes_over_add(
            all_matches(numbered_rounds(earlier)),
            matches_of(rounds.last()),
            |game: Match| is_match_of(game, a, b),
        );
        Seq::filter_distributes_over_add(
            joined(earlier),
            rounds.last(),
            |game: (usize, usize)| is_between(game, a, b),
        );
    }
}

/// The fixture list is settled by the two counts alone: two results for the
/// same counts are the same list.
pub proof fn law_schedule_is_determined(
    team_num: usize,
    court_num: usize,
    first: TournamentResult,
    second: TournamentResult,
)
    requires
        first@ == schedule_of(team_num, court_num),
        second@ == schedule_of(team_num, court_num),
    ensures
        first@ == second@,
        first.rounds@.len() == second.rounds@.len(),
        forall|i: int|
            0 <= i < first.rounds@.len() ==> (#[trigger] first.rounds@[i]).round_number
                == second.rounds@[i].round_number && first.rounds@[i].matches@
                == second.rounds@[i].matches@,
{
    assert(first@.len() == first.rounds@.len());
    assert(second@.len() == second.rounds@.len());
    assert forall|i: int| 0 <= i < first.rounds@.len() implies (#[trigger] first.rounds@[i])@
        == second.rounds@[i]@ by {
        assert(first@[i] == first.rounds@[i]@);
        assert(second@[i] == second.rounds@[i]@);
    }
}

/// Fewer than two competitors have no round to play, whatever the courts.
pub proof fn law_small_fields_have_no_rounds(team_num: usize, court_num: usize)
    requires
        team_num <= 1,
    ensures
        schedule_of(team_num, court_num).len() == 0,
{
    reveal(Seq::filter);
    assert(all_games(team_num) =~= Seq::empty());
    lemma_rounds_needed(0, court_limit(team_num, court_num) as int);
}

/// More courts than there can be matches at one time count as that many,
/// and no courts count as one.
pub proof fn law_courts_are_limited(team_num: usize, court_num: usize)
    ensures
        court_limit(team_num, court_num) >= 1,
        team_num >= 2 && court_num > team_num / 2 ==> court_limit(team_num, court_num) == team_num
            / 2 && schedule_of(team_num, court_num) == schedule_of(
            team_num,
            (team_num / 2) as usize,
        ),
        court_num == 0 ==> schedule_of(team_num, court_num) == schedule_of(team_num, 1),
        1 <= court_num <= team_num / 2 ==> court_limit(team_num, court_num) == court_num,
{
}

/// The shape of the fixture list: rounds and courts are numbered from 1 in
/// the order in which they stand, no round has more matches than courts are
/// in use, every round but the last has that many, and every match is
/// between two competitors, the lower identifier first.
pub proof fn law_schedule_shape(team_num: usize, court_num: usize, i: int, j: int)
    requires
        0 <= i < schedule_of(team_num, court_num).len(),
        0 <= j < schedule_of(team_num, court_num)[i].matches.len(),
    ensures
        schedule_of(team_num, court_num)[i].round_number == i + 1,
        schedule_of(team_num, court_num)[i].matches[j].court_number == j + 1,
        1 <= schedule_of(team_num, court_num)[i].matches.len() <= court_limit(team_num, court_num),
        i + 1 < schedule_of(team_num, court_num).len() ==> schedule_of(
            team_num,
            court_num,
        )[i].matches.len() == court_limit(team_num, court_num),
        1 <= schedule_of(team_num, court_num)[i].matches[j].team1_id < schedule_of(
            team_num,
            court_num,
        )[i].matches[j].team2_id <= team_num,
{
    let courts = court_limit(team_num, court_num) as int;
    let played = played_games(all_games(team_num));
    let rounds = rounds_of(played, courts);
    lemma_rounds_needed(played.len() as int, courts);
    law_rounds_fill_the_courts(played, courts, i);
    law_rounds_keep_the_order(played, courts, i, j);
    law_played_games_are_pairs(team_num, i * courts + j);
    assert(schedule_of(team_num, court_num)[i].matches[j] == match_of(rounds[i][j], j));
}

/// In the fixture list every two competitors have one match, and the list
/// has no other matches: their number is the number of pairs.
pub proof fn law_schedule_meets_once(team_num: usize, court_num: usize, a: usize, b: usize)
    requires
        team_num >= 2,
        1 <= a < b <= team_num,
    ensures
        matches_between(schedule_of(team_num, court_num), a, b) == 1,
        all_matches(schedule_of(team_num, court_num)).len() == team_num * (team_num - 1) / 2,
{
    let courts = court_limit(team_num, court_num) as int;
    let played = played_games(all_games(team_num));
    lemma_matches_of_rounds(rounds_of(played, courts), a, b);
    law_rounds_keep_every_game(played, courts);
    law_every_pair_meets_once(team_num, a, b);
    law_played_game_count(team_num);
}

} // verus!
