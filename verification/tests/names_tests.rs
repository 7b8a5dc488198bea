use round_robin::names::{create_name_map, create_number_map, decimal_string, team_name};
use round_robin::roster::{is_space_char, parse_team_names};

#[test]
fn decimal_of_small_numbers() {
    assert_eq!(decimal_string(0), "0");
    assert_eq!(decimal_string(7), "7");
    assert_eq!(decimal_string(10), "10");
    assert_eq!(decimal_string(42), "42");
    assert_eq!(decimal_string(1000), "1000");
    assert_eq!(decimal_string(90210), "90210");
}

#[test]
fn decimal_agrees_with_std() {
    for n in 0..2000usize {
        assert_eq!(decimal_string(n), n.to_string());
    }
    assert_eq!(decimal_string(usize::MAX), usize::MAX.to_string());
    assert_eq!(decimal_string(usize::MAX / 10), (usize::MAX / 10).to_string());
}

#[test]
fn number_map_names_each_by_its_number() {
    let map = create_number_map(12);
    assert_eq!(map.len(), 12);
    for id in 1..=12usize {
        assert_eq!(map[&id], id.to_string());
    }
    assert!(!map.contains_key(&0));
    assert!(!map.contains_key(&13));
}

#[test]
fn number_map_of_nobody_is_empty() {
    assert!(create_number_map(0).is_empty());
}

#[test]
fn name_map_counts_from_one() {
    let names = vec!["Ann".to_string(), "Bob".to_string(), "Cy".to_string()];
    let map = create_name_map(names);
    assert_eq!(map.len(), 3);
    assert_eq!(map[&1], "Ann");
    assert_eq!(map[&2], "Bob");
    assert_eq!(map[&3], "Cy");
    assert!(!map.contains_key(&0));
    assert!(!map.contains_key(&4));
}

#[test]
fn name_map_of_nobody_is_empty() {
    assert!(create_name_map(Vec::new()).is_empty());
}

#[test]
fn team_name_looks_up_or_gives_nothing() {
    let map = create_name_map(vec!["Ann".to_string(), "Bob".to_string()]);
    assert_eq!(team_name(&map, 1), "Ann");
    assert_eq!(team_name(&map, 2), "Bob");
    assert_eq!(team_name(&map, 0), "");
    assert_eq!(team_name(&map, 3), "");
}

#[test]
fn blank_characters_are_those_of_std() {
    for code in 0..=0x10FFFFu32 {
        if let Some(c) = char::from_u32(code) {
            assert_eq!(is_space_char(c), c.is_whitespace());
        }
    }
}

#[test]
fn names_one_on_a_line() {
    assert_eq!(parse_team_names("Ann\nBob\nCy"), vec!["Ann", "Bob", "Cy"]);
    assert_eq!(parse_team_names("Ann\nBob\nCy\n"), vec!["Ann", "Bob", "Cy"]);
}

#[test]
fn names_are_trimmed_and_blank_lines_dropped() {
    assert_eq!(
        parse_team_names("  Ann \r\n\r\n\tBob\n   \n\nCy Young  \n \u{3000}Dee\u{3000}"),
        vec!["Ann", "Bob", "Cy Young", "Dee"]
    );
}

#[test]
fn no_names_in_an_empty_or_blank_text() {
    assert_eq!(parse_team_names(""), Vec::<String>::new());
    assert_eq!(parse_team_names("\n\n"), Vec::<String>::new());
    assert_eq!(parse_team_names("  \n\t\n  "), Vec::<String>::new());
}

#[test]
fn names_outside_ascii_are_kept_whole() {
    assert_eq!(
        parse_team_names("チームA\n チームB \nÉquipe C"),
        vec!["チームA", "チームB", "Équipe C"]
    );
}

#[test]
fn names_agree_with_std_lines_and_trim() {
    let texts = [
        "a\nb\nc",
        "a\r\nb\r\nc\r\n",
        "\n\na\n\n\nb",
        " a b \n\tc\t\n",
        "x",
        "\r",
        "a\rb\nc",
        " \u{a0}a\u{2003}\n\u{85}\nb\u{2028}c\n",
        "one\n two\n  three\n   \nfour",
    ];
    for text in texts {
        let expected: Vec<String> = text
            .lines()
            .map(|s| s.trim())
            .filter(|s| !s.is_empty())
            .map(|s| s.to_string())
            .collect();
        assert_eq!(parse_team_names(text), expected);
    }
}
