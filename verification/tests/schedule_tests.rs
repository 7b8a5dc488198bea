use round_robin::schedule::{adjust_court_num, compute_schedule, Match, Round};

fn m(court_number: usize, team1_id: usize, team2_id: usize) -> Match {
    Match { court_number, team1_id, team2_id }
}

#[test]
fn courts_are_limited_by_half_the_competitors() {
    assert_eq!(adjust_court_num(4, 5), 2);
    assert_eq!(adjust_court_num(5, 5), 2);
    assert_eq!(adjust_court_num(10, 3), 3);
    assert_eq!(adjust_court_num(10, 5), 5);
    assert_eq!(adjust_court_num(10, usize::MAX), 5);
}

#[test]
fn courts_are_at_least_one() {
    assert_eq!(adjust_court_num(4, 0), 1);
    assert_eq!(adjust_court_num(0, 0), 1);
    assert_eq!(adjust_court_num(1, 3), 1);
    assert_eq!(adjust_court_num(0, 7), 1);
}

#[test]
fn empty_schedule_without_competitors() {
    assert_eq!(compute_schedule(0, 1).rounds, vec![]);
    assert_eq!(compute_schedule(0, 0).rounds, vec![]);
}

#[test]
fn empty_schedule_for_a_single_competitor() {
    assert_eq!(compute_schedule(1, 1).rounds, vec![]);
    assert_eq!(compute_schedule(1, 4).rounds, vec![]);
}

#[test]
fn two_competitors_one_match() {
    assert_eq!(
        compute_schedule(2, 1).rounds,
        vec![Round { round_number: 1, matches: vec![m(1, 1, 2)] }]
    );
}

#[test]
fn four_competitors_two_courts() {
    let result = compute_schedule(4, 2);
    assert_eq!(
        result.rounds,
        vec![
            Round { round_number: 1, matches: vec![m(1, 1, 2), m(2, 3, 4)] },
            Round { round_number: 2, matches: vec![m(1, 1, 3), m(2, 2, 4)] },
            Round { round_number: 3, matches: vec![m(1, 1, 4), m(2, 2, 3)] },
        ]
    );
    let mut pairs: Vec<(usize, usize)> = Vec::new();
    let mut appearances = [0usize; 5];
    for round in &result.rounds {
        for game in &round.matches {
            pairs.push((game.team1_id, game.team2_id));
            appearances[game.team1_id] += 1;
            appearances[game.team2_id] += 1;
        }
    }
    pairs.sort();
    assert_eq!(pairs, vec![(1, 2), (1, 3), (1, 4), (2, 3), (2, 4), (3, 4)]);
    assert_eq!(appearances, [0, 3, 3, 3, 3]);
}

#[test]
fn five_competitors_two_courts() {
    let result = compute_schedule(5, 2);
    assert_eq!(result.rounds.len(), 5);
    let mut pairs: Vec<(usize, usize)> = Vec::new();
    for (i, round) in result.rounds.iter().enumerate() {
        assert_eq!(round.round_number, i + 1);
        assert_eq!(round.matches.len(), 2);
        for (j, game) in round.matches.iter().enumerate() {
            assert_eq!(game.court_number, j + 1);
            assert!(1 <= game.team1_id && game.team1_id < game.team2_id && game.team2_id <= 5);
            pairs.push((game.team1_id, game.team2_id));
        }
    }
    assert_eq!(pairs.len(), 10);
    pairs.sort();
    pairs.dedup();
    assert_eq!(pairs.len(), 10);
}

#[test]
fn five_competitors_in_listed_order() {
    assert_eq!(
        compute_schedule(5, 2).rounds,
        vec![
            Round { round_number: 1, matches: vec![m(1, 1, 2), m(2, 3, 4)] },
            Round { round_number: 2, matches: vec![m(1, 1, 3), m(2, 2, 5)] },
            Round { round_number: 3, matches: vec![m(1, 1, 5), m(2, 2, 4)] },
            Round { round_number: 4, matches: vec![m(1, 4, 5), m(2, 2, 3)] },
            Round { round_number: 5, matches: vec![m(1, 1, 4), m(2, 3, 5)] },
        ]
    );
}

#[test]
fn too_many_courts_are_cut_down() {
    assert_eq!(compute_schedule(4, 9), compute_schedule(4, 2));
    assert_eq!(compute_schedule(7, 100), compute_schedule(7, 3));
}

#[test]
fn no_courts_count_as_one() {
    assert_eq!(compute_schedule(4, 0), compute_schedule(4, 1));
    let result = compute_schedule(4, 0);
    assert_eq!(result.rounds.len(), 6);
    for round in &result.rounds {
        assert_eq!(round.matches.len(), 1);
    }
}

#[test]
fn same_inputs_same_schedule() {
    for team_num in 0..12usize {
        for court_num in 0..8usize {
            assert_eq!(
                compute_schedule(team_num, court_num),
                compute_schedule(team_num, court_num)
            );
        }
    }
}

#[test]
fn lower_identifier_comes_first() {
    for team_num in 2..15usize {
        for round in compute_schedule(team_num, 3).rounds {
            for game in round.matches {
                assert!(game.team1_id < game.team2_id);
            }
        }
    }
}
