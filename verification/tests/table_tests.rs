use round_robin::names::{create_name_map, create_number_map};
use round_robin::schedule::{compute_schedule, Match, Round};
use round_robin::table::{header_line, round_line, table_lines};

#[test]
fn header_names_the_courts() {
    assert_eq!(header_line(1), ",第1コート");
    assert_eq!(header_line(2), ",第1コート,第2コート");
    assert_eq!(header_line(3), ",第1コート,第2コート,第3コート");
}

#[test]
fn header_without_courts_is_the_empty_cell() {
    assert_eq!(header_line(0), ",");
}

#[test]
fn header_counts_past_nine() {
    assert_eq!(
        header_line(11),
        ",第1コート,第2コート,第3コート,第4コート,第5コート,第6コート,第7コート,第8コート,第9コート,第10コート,第11コート"
    );
}

#[test]
fn round_line_shows_the_names() {
    let names = create_name_map(vec![
        "Ann".to_string(),
        "Bob".to_string(),
        "Cy".to_string(),
        "Dee".to_string(),
    ]);
    let round = Round {
        round_number: 2,
        matches: vec![
            Match { court_number: 1, team1_id: 1, team2_id: 3 },
            Match { court_number: 2, team1_id: 2, team2_id: 4 },
        ],
    };
    assert_eq!(round_line(&round, &names), "第2試合,Ann-Cy,Bob-Dee");
}

#[test]
fn round_line_without_matches_is_its_label() {
    let names = create_number_map(2);
    let round = Round { round_number: 10, matches: vec![] };
    assert_eq!(round_line(&round, &names), "第10試合,");
}

#[test]
fn round_line_leaves_unknown_names_empty() {
    let names = create_number_map(1);
    let round = Round {
        round_number: 1,
        matches: vec![Match { court_number: 1, team1_id: 1, team2_id: 2 }],
    };
    assert_eq!(round_line(&round, &names), "第1試合,1-");
}

#[test]
fn table_of_four_on_two_courts() {
    let names = create_number_map(4);
    let result = compute_schedule(4, 2);
    assert_eq!(
        table_lines(&result, 2, &names),
        vec![
            ",第1コート,第2コート",
            "第1試合,1-2,3-4",
            "第2試合,1-3,2-4",
            "第3試合,1-4,2-3",
        ]
    );
}

#[test]
fn table_of_nobody_is_the_header_alone() {
    let names = create_number_map(0);
    let result = compute_schedule(0, 1);
    assert_eq!(table_lines(&result, 1, &names), vec![",第1コート"]);
}
