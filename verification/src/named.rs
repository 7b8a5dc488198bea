//! The fixture list with the competitors by name, as it is shown.

use crate::names::{create_name_map, listed_names, name_text, name_texts, team_name, texts_of};
use crate::roster::{names_in, parse_team_names};
use crate::schedule::{compute_schedule, schedule_of, Match, Round, RoundView, TournamentResult};
use std::collections::HashMap;
use vstd::prelude::*;

verus! {

/// One match with the names of its two competitors.
#[derive(Clone, Debug, PartialEq, Eq)]
pub struct NamedMatch {
    pub court_number: usize,
    pub team1: String,
    pub team2: String,
}

/// One round of matches by name.
#[derive(Clone, Debug, PartialEq, Eq)]
pub struct NamedRound {
    pub round_number: usize,
    pub matches: Vec<NamedMatch>,
}

/// The whole fixture list by name.
#[derive(Clone, Debug, PartialEq, Eq)]
pub struct NamedTournament {
    pub rounds: Vec<NamedRound>,
}

/// What a match by name is, as a mathematical value.
pub struct NamedMatchView {
    pub court_number: usize,
    pub team1: Seq<char>,
    pub team2: Seq<char>,
}

/// What a round by name is, as a mathematical value.
pub struct NamedRoundView {
    pub round_number: nat,
    pub matches: Seq<NamedMatchView>,
}

impl View for NamedMatch {
    type V = NamedMatchView;

    open spec fn view(&self) -> NamedMatchView {
        NamedMatchView {
            court_number: self.court_number,
            team1: self.team1@,
            team2: self.team2@,
        }
    }
}

impl View for NamedRound {
    type V = NamedRoundView;

    open spec fn view(&self) -> NamedRoundView {
        NamedRoundView {
            round_number: self.round_number as nat,
            matches: Seq::new(self.matches@.len(), |j: int| self.matches@[j]@),
        }
    }
}

impl View for NamedTournament {
    type V = Seq<NamedRoundView>;

    open spec fn view(&self) -> Seq<NamedRoundView> {
        Seq::new(self.rounds@.len(), |i: int| self.rounds@[i]@)
    }
}

/// The match with the names of its competitors in place of their
/// identifiers; a competitor without a name is shown by the empty text.
pub open spec fn named_match(names: Map<usize, Seq<char>>, game: Match) -> NamedMatchView {
    NamedMatchView {
        court_number: game.court_number,
        team1: name_text(names, game.team1_id),
        team2: name_text(names, game.team2_id),
    }
}

/// The round with names in place of identifiers.
pub open spec fn named_round(names: Map<usize, Seq<char>>, round: RoundView) -> NamedRoundView {
    NamedRoundView {
        round_number: round.round_number,
        matches: Seq::new(round.matches.len(), |j: int| named_match(names, round.matches[j])),
    }
}

/// The fixture list with names in place of identifiers.
pub open spec fn named_schedule(names: Map<usize, Seq<char>>, schedule: Seq<RoundView>) -> Seq<
    NamedRoundView,
> {
    Seq::new(schedule.len(), |i: int| named_round(names, schedule[i]))
}

/// The fixture list for the competitors that a text names, one on a line:
/// the competitor on the first line that holds a name is number 1.
pub open spec fn tournament_of(text: Seq<char>, court_num: usize) -> Seq<NamedRoundView> {
    let names = names_in(text);
    named_schedule(listed_names(names), schedule_of(names.len() as usize, court_num))
}

/// Puts the names of one round in place of the identifiers.
fn round_with_names(round: &Round, names: &HashMap<usize, String>) -> (named: NamedRound)
    ensures
        named@ == named_round(name_texts(names@), round@),
{
    let mut matches: Vec<NamedMatch> = Vec::new();
    let mut j: usize = 0;
    while j < round.matches.len()
        invariant
            j <= round.matches@.len(),
            matches@.len() == j,
            forall|k: int|
                0 <= k < j ==> (#[trigger] matches@[k])@ == named_match(
                    name_texts(names@),
                    round.matches@[k],
                ),
        decreases round.matches@.len() - j,
    {
        let game = round.matches[j];
        matches.push(
            NamedMatch {
                court_number: game.court_number,
                team1: team_name(names, game.team1_id),
                team2: team_name(names, game.team2_id),
            },
        );
        j += 1;
    }
    let named = NamedRound { round_number: round.round_number, matches };
    assert(named@.matches =~= named_round(name_texts(names@), round@).matches);
    named
}

/// Puts the names in place of the identifiers, match by match.
pub fn with_names(result: &TournamentResult, names: &HashMap<usize, String>) -> (named:
    NamedTournament)
    ensures
        named@ == named_schedule(name_texts(names@), result@),
{
    let mut rounds: Vec<NamedRound> = Vec::new();
    let mut i: usize = 0;
    while i < result.rounds.len()
        invariant
            i <= result.rounds@.len(),
            rounds@.len() == i,
            forall|k: int|
                0 <= k < i ==> (#[trigger] rounds@[k])@ == named_round(
                    name_texts(names@),
                    result.rounds@[k]@,
                ),
        decreases result.rounds@.len() - i,
    {
        rounds.push(round_with_names(&result.rounds[i], names));
        i += 1;
    }
    let named = NamedTournament { rounds };
    assert(named@ =~= named_schedule(name_texts(names@), result@));
    named
}

/// Computes the fixture list for the competitors named in `teams_str`, one
/// on a line, on `court_num` courts, and shows each match by the names of
/// its two competitors. Blank lines count for nothing, and a court count
/// outside of what can be used is brought into range.
pub fn generate_tournament(teams_str: &str, court_num: usize) -> (named: NamedTournament)
    ensures
        named@ == tournament_of(teams_str@, court_num),
{
    let teams = parse_team_names(teams_str);
    let team_num = teams.len();
    assert(texts_of(teams@).len() == teams@.len());
    let name_map = create_name_map(teams);
    let result = compute_schedule(team_num, court_num);
    with_names(&result, &name_map)
}

} // verus!
