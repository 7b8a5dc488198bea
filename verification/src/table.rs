//! The fixture list as a table of text: a header that names the courts,
//! then one line for each round, the cells set apart by commas.

use crate::names::{decimal_string, decimal_text, name_text, name_texts, team_name};
use crate::schedule::{Match, Round, RoundView, TournamentResult};
use std::collections::HashMap;
use vstd::prelude::*;

verus! {

/// The cells of a line, with a comma between each two.
pub open spec fn comma_joined(cells: Seq<Seq<char>>) -> Seq<char>
    decreases cells.len(),
{
    if cells.len() == 0 {
        Seq::empty()
    } else if cells.len() == 1 {
        cells[0]
    } else {
        comma_joined(cells.drop_last()) + seq![','] + cells.last()
    }
}

/// The heading of court `n`.
pub open spec fn court_label(n: nat) -> Seq<char> {
    seq!['第'] + decimal_text(n) + seq!['コ', 'ー', 'ト']
}

/// The headings of the courts `1 ..= court_num`.
pub open spec fn court_labels(court_num: nat) -> Seq<Seq<char>> {
    Seq::new(court_num, |i: int| court_label((i + 1) as nat))
}

/// The header line: an empty cell above the round labels, then the courts.
pub open spec fn header_text(court_num: nat) -> Seq<char> {
    seq![','] + comma_joined(court_labels(court_num))
}

/// The label of round `n`.
pub open spec fn round_label(n: nat) -> Seq<char> {
    seq!['第'] + decimal_text(n) + seq!['試', '合']
}

/// The cell of a match: the two names with a hyphen between them.
pub open spec fn match_cell(names: Map<usize, Seq<char>>, game: Match) -> Seq<char> {
    name_text(names, game.team1_id) + seq!['-'] + name_text(names, game.team2_id)
}

/// The cells of the matches of a round, court by court.
pub open spec fn match_cells(names: Map<usize, Seq<char>>, matches: Seq<Match>) -> Seq<
    Seq<char>,
> {
    Seq::new(matches.len(), |j: int| match_cell(names, matches[j]))
}

/// The line of a round: its label, then its matches.
pub open spec fn round_text(names: Map<usize, Seq<char>>, round: RoundView) -> Seq<char> {
    round_label(round.round_number) + seq![','] + comma_joined(match_cells(names, round.matches))
}

/// Adding a cell to a line that is joined by commas.
proof fn lemma_comma_joined_push(cells: Seq<Seq<char>>, cell: Seq<char>)
    ensures
        comma_joined(cells.push(cell)) == if cells.len() == 0 {
            cell
        } else {
            comma_joined(cells) + seq![','] + cell
        },
{
    assert(cells.push(cell).drop_last() =~= cells);
}

/// Writes the header line for `court_num` courts.
pub fn header_line(court_num: usize) -> (line: String)
    ensures
        line@ == header_text(court_num as nat),
{
    proof {
        reveal_strlit(",");
    }
    let mut line = String::from_str(",");
    let ghost mut cells: Seq<Seq<char>> = Seq::empty();
    let mut n: usize = 0;
    proof {
        assert(","@ =~= seq![',']);
        assert(line@ =~= seq![','] + comma_joined(cells));
    }
    while n < court_num
        invariant
            n <= court_num,
            cells == court_labels(n as nat),
            line@ == seq![','] + comma_joined(cells),
        decreases court_num - n,
    {
        let ghost before = line@;
        if n > 0 {
            line.append(",");
        }
        let ghost parted = line@;
        n += 1;
        line.append("第");
        let number = decimal_string(n);
        line.append(number.as_str());
        line.append("コート");
        proof {
            let label = court_label(n as nat);
            reveal_strlit(",");
            reveal_strlit("第");
            reveal_strlit("コート");
            assert(","@ =~= seq![',']);
            assert("第"@ =~= seq!['第']);
            assert("コート"@ =~= seq!['コ', 'ー', 'ト']);
            assert(line@ =~= parted + label);
            lemma_comma_joined_push(cells, label);
            if cells.len() == 0 {
                assert(comma_joined(cells) =~= Seq::<char>::empty());
                assert(line@ =~= seq![','] + label);
            } else {
                assert(line@ =~= seq![','] + (comma_joined(cells) + seq![','] + label));
            }
            cells = cells.push(label);
            assert(cells =~= court_labels(n as nat));
        }
    }
    line
}

/// Writes the line of one round, with the competitors shown by `names`.
pub fn round_line(round: &Round, names: &HashMap<usize, String>) -> (line: String)
    ensures
        line@ == round_text(name_texts(names@), round@),
{
    proof {
        reveal_strlit("第");
        reveal_strlit("試合,");
    }
    let mut line = String::from_str("第");
    let number = decimal_string(round.round_number);
    line.append(number.as_str());
    line.append("試合,");
    let ghost head = round_label(round.round_number as nat) + seq![','];
    proof {
        assert("第"@ =~= seq!['第']);
        assert("試合,"@ =~= seq!['試', '合', ',']);
        assert(line@ =~= head);
    }
    let ghost mut cells: Seq<Seq<char>> = Seq::empty();
    let mut j: usize = 0;
    while j < round.matches.len()
        invariant
            j <= round.matches@.len(),
            cells == match_cells(name_texts(names@), round.matches@).take(j as int),
            line@ == head + comma_joined(cells),
        decreases round.matches@.len() - j,
    {
        if j > 0 {
            line.append(",");
        }
        let ghost parted = line@;
        let game = round.matches[j];
        let first = team_name(names, game.team1_id);
        let second = team_name(names, game.team2_id);
        line.append(first.as_str());
        line.append("-");
        line.append(second.as_str());
        proof {
            let cell = match_cell(name_texts(names@), game);
            reveal_strlit(",");
            reveal_strlit("-");
            assert(","@ =~= seq![',']);
            assert("-"@ =~= seq!['-']);
            assert(first@ + seq!['-'] + second@ =~= cell);
            assert(line@ =~= parted + cell);
            lemma_comma_joined_push(cells, cell);
            if cells.len() == 0 {
                assert(comma_joined(cells) =~= Seq::<char>::empty());
                assert(line@ =~= head + cell);
            } else {
                assert(line@ =~= head + (comma_joined(cells) + seq![','] + cell));
            }
            cells = cells.push(cell);
            assert(cells =~= match_cells(name_texts(names@), round.matches@).take(j + 1));
        }
        j += 1;
    }
    assert(cells =~= match_cells(name_texts(names@), round.matches@));
    line
}

/// Writes the whole table: the header line for `court_num` courts, then the
/// line of every round.
pub fn table_lines(
    result: &TournamentResult,
    court_num: usize,
    names: &HashMap<usize, String>,
) -> (lines: Vec<String>)
    ensures
        lines@.len() == result@.len() + 1,
        lines@[0]@ == header_text(court_num as nat),
        forall|i: int|
            0 <= i < result@.len() ==> (#[trigger] lines@[i + 1])@ == round_text(
                name_texts(names@),
                result@[i],
            ),
{
    let mut lines: Vec<String> = Vec::new();
    lines.push(header_line(court_num));
    let mut i: usize = 0;
    while i < result.rounds.len()
        invariant
            i <= result.rounds@.len(),
            result@.len() == result.rounds@.len(),
            lines@.len() == i + 1,
            lines@[0]@ == header_text(court_num as nat),
            forall|k: int|
                0 <= k < i ==> (#[trigger] lines@[k + 1])@ == round_text(
                    name_texts(names@),
                    result@[k],
                ),
        decreases result.rounds@.len() - i,
    {
        let line = round_line(&result.rounds[i], names);
        assert(result@[i as int] == result.rounds@[i as int]@);
        lines.push(line);
        i += 1;
    }
    lines
}

} // verus!
