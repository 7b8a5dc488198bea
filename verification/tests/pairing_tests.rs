use round_robin::pairing::generate_all_games;
use round_robin::rounds::generate_games_at_once;

fn unordered(game: (usize, usize)) -> (usize, usize) {
    if game.0 <= game.1 {
        game
    } else {
        (game.1, game.0)
    }
}

fn played(games: &[(usize, usize)]) -> Vec<(usize, usize)> {
    let mut kept = Vec::new();
    for game in games {
        if game.0 != 0 && game.1 != 0 {
            kept.push(*game);
        }
    }
    kept
}

#[test]
fn no_games_without_competitors() {
    assert_eq!(generate_all_games(0), vec![]);
}

#[test]
fn no_games_for_a_single_competitor() {
    assert_eq!(generate_all_games(1), vec![]);
}

#[test]
fn two_competitors_meet_once() {
    assert_eq!(generate_all_games(2), vec![(1, 2)]);
}

#[test]
fn three_competitors_in_listed_order() {
    assert_eq!(
        generate_all_games(3),
        vec![(1, 2), (3, 0), (1, 3), (0, 2), (1, 0), (2, 3)]
    );
}

#[test]
fn four_competitors_in_listed_order() {
    assert_eq!(
        generate_all_games(4),
        vec![(1, 2), (3, 4), (1, 3), (4, 2), (1, 4), (2, 3)]
    );
}

#[test]
fn six_competitors_in_listed_order() {
    assert_eq!(
        generate_all_games(6),
        vec![
            (1, 2), (3, 4), (5, 6),
            (1, 3), (5, 2), (6, 4),
            (1, 5), (6, 3), (4, 2),
            (1, 6), (4, 5), (2, 3),
            (1, 4), (2, 6), (3, 5),
        ]
    );
}

#[test]
fn four_competitors_give_the_six_combinations() {
    let games = generate_all_games(4);
    let mut pairs: Vec<(usize, usize)> = played(&games).into_iter().map(unordered).collect();
    pairs.sort();
    assert_eq!(pairs, vec![(1, 2), (1, 3), (1, 4), (2, 3), (2, 4), (3, 4)]);
}

#[test]
fn every_pair_meets_once_up_to_thirty() {
    for team_num in 2..=30usize {
        let games = generate_all_games(team_num);
        let mut pairs: Vec<(usize, usize)> = played(&games).into_iter().map(unordered).collect();
        assert_eq!(pairs.len(), team_num * (team_num - 1) / 2);
        pairs.sort();
        let mut expected = Vec::new();
        for a in 1..=team_num {
            for b in (a + 1)..=team_num {
                expected.push((a, b));
            }
        }
        assert_eq!(pairs, expected);
    }
}

#[test]
fn each_competitor_sits_out_once_when_odd() {
    for team_num in [3usize, 5, 7, 9, 21] {
        let games = generate_all_games(team_num);
        for id in 1..=team_num {
            let byes = games
                .iter()
                .filter(|g| unordered(**g) == (0, id))
                .count();
            assert_eq!(byes, 1);
        }
    }
}

#[test]
fn no_bye_when_even() {
    for team_num in [2usize, 4, 6, 8, 20] {
        let games = generate_all_games(team_num);
        assert!(games.iter().all(|g| g.0 != 0 && g.1 != 0));
    }
}

#[test]
fn each_round_of_the_circle_seats_everyone_once() {
    let team_num = 7usize;
    let games = generate_all_games(team_num);
    assert_eq!(games.len(), 7 * 4);
    for round in games.chunks(4) {
        let mut seen: Vec<usize> = Vec::new();
        for g in round {
            seen.push(g.0);
            seen.push(g.1);
        }
        seen.sort();
        assert_eq!(seen, vec![0, 1, 2, 3, 4, 5, 6, 7]);
    }
}

#[test]
fn batching_drops_byes_and_keeps_order() {
    let games = vec![(1, 2), (3, 0), (1, 3), (0, 2), (1, 0), (2, 3)];
    assert_eq!(
        generate_games_at_once(&games, 2),
        vec![vec![(1, 2), (1, 3)], vec![(2, 3)]]
    );
}

#[test]
fn batching_nothing_gives_no_round() {
    let games: Vec<(usize, usize)> = vec![];
    assert_eq!(generate_games_at_once(&games, 3), Vec::<Vec<(usize, usize)>>::new());
}

#[test]
fn batching_only_byes_gives_no_round() {
    let games = vec![(1, 0), (0, 2)];
    assert_eq!(generate_games_at_once(&games, 1), Vec::<Vec<(usize, usize)>>::new());
}

#[test]
fn batching_with_one_court_gives_one_game_a_round() {
    let games = vec![(1, 2), (3, 4), (1, 3)];
    assert_eq!(
        generate_games_at_once(&games, 1),
        vec![vec![(1, 2)], vec![(3, 4)], vec![(1, 3)]]
    );
}

#[test]
fn batching_with_more_courts_than_games_gives_one_round() {
    let games = vec![(1, 2), (3, 4), (1, 3)];
    assert_eq!(
        generate_games_at_once(&games, usize::MAX),
        vec![vec![(1, 2), (3, 4), (1, 3)]]
    );
}

#[test]
fn batching_fills_every_round_but_the_last() {
    for court_num in 1..=7usize {
        let games = generate_all_games(9);
        let rounds = generate_games_at_once(&games, court_num);
        let total: usize = rounds.iter().map(|r| r.len()).sum();
        assert_eq!(total, 36);
        assert_eq!(rounds.len(), (36 + court_num - 1) / court_num);
        for (i, round) in rounds.iter().enumerate() {
            if i + 1 < rounds.len() {
                assert_eq!(round.len(), court_num);
            } else {
                assert!(1 <= round.len() && round.len() <= court_num);
            }
        }
        let flat: Vec<(usize, usize)> = rounds.into_iter().flatten().collect();
        assert_eq!(flat, played(&games));
    }
}
