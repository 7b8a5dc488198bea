use round_robin::named::{generate_tournament, with_names, NamedMatch, NamedRound};
use round_robin::names::{create_name_map, create_number_map};
use round_robin::schedule::compute_schedule;

fn nm(court_number: usize, team1: &str, team2: &str) -> NamedMatch {
    NamedMatch { court_number, team1: team1.to_string(), team2: team2.to_string() }
}

#[test]
fn tournament_of_four_names() {
    let result = generate_tournament("Ann\nBob\nCy\nDee", 2);
    assert_eq!(
        result.rounds,
        vec![
            NamedRound { round_number: 1, matches: vec![nm(1, "Ann", "Bob"), nm(2, "Cy", "Dee")] },
            NamedRound { round_number: 2, matches: vec![nm(1, "Ann", "Cy"), nm(2, "Bob", "Dee")] },
            NamedRound { round_number: 3, matches: vec![nm(1, "Ann", "Dee"), nm(2, "Bob", "Cy")] },
        ]
    );
}

#[test]
fn tournament_skips_blank_lines_and_trims() {
    assert_eq!(
        generate_tournament("  Ann \n\n Bob\r\n   \nCy\n\nDee\n", 2),
        generate_tournament("Ann\nBob\nCy\nDee", 2)
    );
}

#[test]
fn tournament_of_three_names_leaves_the_bye_out() {
    let result = generate_tournament("Ann\nBob\nCy", 1);
    assert_eq!(
        result.rounds,
        vec![
            NamedRound { round_number: 1, matches: vec![nm(1, "Ann", "Bob")] },
            NamedRound { round_number: 2, matches: vec![nm(1, "Ann", "Cy")] },
            NamedRound { round_number: 3, matches: vec![nm(1, "Bob", "Cy")] },
        ]
    );
}

#[test]
fn tournament_without_names_is_empty() {
    assert_eq!(generate_tournament("", 3).rounds, vec![]);
    assert_eq!(generate_tournament("\n  \n", 3).rounds, vec![]);
}

#[test]
fn tournament_of_one_name_is_empty() {
    assert_eq!(generate_tournament("Ann", 1).rounds, vec![]);
}

#[test]
fn tournament_of_two_names_is_one_match() {
    assert_eq!(
        generate_tournament("Ann\nBob", 5).rounds,
        vec![NamedRound { round_number: 1, matches: vec![nm(1, "Ann", "Bob")] }]
    );
}

#[test]
fn tournament_cuts_the_courts_down() {
    assert_eq!(
        generate_tournament("a\nb\nc\nd\ne", 40),
        generate_tournament("a\nb\nc\nd\ne", 2)
    );
    assert_eq!(generate_tournament("a\nb\nc\nd", 0), generate_tournament("a\nb\nc\nd", 1));
}

#[test]
fn same_text_same_tournament() {
    let text = "one\ntwo\nthree\nfour\nfive\nsix\nseven";
    for court_num in 0..6usize {
        assert_eq!(generate_tournament(text, court_num), generate_tournament(text, court_num));
    }
}

#[test]
fn with_names_follows_the_schedule() {
    let names = create_number_map(6);
    let schedule = compute_schedule(6, 2);
    let named = with_names(&schedule, &names);
    assert_eq!(named.rounds.len(), schedule.rounds.len());
    for (round, shown) in schedule.rounds.iter().zip(named.rounds.iter()) {
        assert_eq!(shown.round_number, round.round_number);
        assert_eq!(shown.matches.len(), round.matches.len());
        for (game, cell) in round.matches.iter().zip(shown.matches.iter()) {
            assert_eq!(cell.court_number, game.court_number);
            assert_eq!(cell.team1, game.team1_id.to_string());
            assert_eq!(cell.team2, game.team2_id.to_string());
        }
    }
}

#[test]
fn with_names_shows_the_unnamed_by_nothing() {
    let names = create_name_map(vec!["Ann".to_string()]);
    let named = with_names(&compute_schedule(2, 1), &names);
    assert_eq!(
        named.rounds,
        vec![NamedRound { round_number: 1, matches: vec![nm(1, "Ann", "")] }]
    );
}
