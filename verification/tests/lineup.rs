use picker::lineup::Picker;
use picker::Player;

fn row_ascending(num_players: u32) -> Picker {
    let mut picker = Picker::new();
    for i in 0..num_players {
        picker.add_player(Player::new(i + 1, format!("p{}", i + 1), i + 1));
    }
    // players [1, 2, 3, 4, 5...]
    picker
}

fn row_descending(num_players: u32) -> Picker {
    let mut picker = Picker::new();
    for i in (0..num_players).rev() {
        picker.add_player(Player::new(i + 1, format!("p{}", i + 1), i + 1));
    }
    // players [5, 4, 3, 2, 1...]
    picker
}

fn names_of(players: &Vec<Player>) -> Vec<String> {
    players.iter().map(|p| p.name.clone()).collect::<Vec<String>>()
}

#[test]
fn lib_test_picker_pick() {
    let picker = row_ascending(5);

    let num_picks = 3;
    let picks = picker.pick(num_picks);

    assert_eq!(picks.len(), num_picks as usize);
    for i in 0..num_picks {
        let pick = &picks[i as usize];
        assert_eq!(pick.games, i + 1);
        assert_eq!(pick.id, i + 1);
        assert_eq!(pick.name, format!("p{}", i + 1));
    }
}

#[test]
fn lib_test_picker_pick_with_mutation() {
    let num_players = 5;
    let mut picker = row_ascending(num_players);

    let num_picks = 3;
    // The last player has 0 games
    picker.set_player_games(num_players as usize - 1, 0);
    let picks = picker.pick(num_picks);

    assert_eq!(picks.len(), num_picks as usize);
    assert_eq!(picks[0].games, 0);
    assert_eq!(picks[0].id, num_players);
    assert_eq!(picks[0].name, format!("p{}", num_players));

    // the rest of the picks should be [1, 2]
    for i in 1..num_picks {
        let pick = &picks[i as usize];
        assert_eq!(pick.games, i);
        assert_eq!(pick.id, i);
        assert_eq!(pick.name, format!("p{}", i));
    }
}

#[test]
fn lib_test_picker_pick_rev() {
    let picker = row_descending(5);

    let num_picks = 3;
    let picks = picker.pick(num_picks);

    assert_eq!(picks.len(), num_picks as usize);
    for i in 0..num_picks {
        let pick = &picks[i as usize];
        assert_eq!(pick.games, i + 1);
        assert_eq!(pick.id, i + 1);
        assert_eq!(pick.name, format!("p{}", i + 1));
    }
}

#[test]
fn empty_row_gives_nothing() {
    let picker = Picker::new();
    assert_eq!(picker.pick(0).len(), 0);
    assert_eq!(picker.pick(4).len(), 0);
}

#[test]
fn row_pick_is_bounded_by_its_length() {
    let picker = row_descending(3);
    assert_eq!(picker.pick(0).len(), 0);
    assert_eq!(names_of(&picker.pick(2)), vec!["p1", "p2"]);
    assert_eq!(names_of(&picker.pick(3)), vec!["p1", "p2", "p3"]);
    assert_eq!(names_of(&picker.pick(9)), vec!["p1", "p2", "p3"]);
}

#[test]
fn position_out_of_the_row_is_reported() {
    let mut picker = row_ascending(3);
    assert!(!picker.set_player_games(3, 0));
    assert!(!picker.set_player_name(3, "nobody"));
    assert!(!picker.set_player_games(usize::MAX, 0));
    let picks = picker.pick(3);
    assert_eq!(names_of(&picks), vec!["p1", "p2", "p3"]);
    assert_eq!(picks[0].games, 1);
    assert_eq!(picks[1].games, 2);
    assert_eq!(picks[2].games, 3);
}

#[test]
fn position_in_the_row_is_set() {
    let mut picker = row_ascending(3);
    assert!(picker.set_player_name(0, "first"));
    assert!(picker.set_player_games(0, 2));
    let picks = picker.pick(3);
    assert_eq!(names_of(&picks), vec!["first", "p2", "p3"]);
    assert_eq!(picks[0].id, 1);
    assert_eq!(picks[0].games, 2);
}

#[test]
fn same_games_and_id_go_by_position() {
    let mut picker = Picker::new();
    picker.add_player(Player::new(2, "late".to_string(), 1));
    picker.add_player(Player::new(1, "a".to_string(), 1));
    picker.add_player(Player::new(1, "b".to_string(), 1));
    picker.add_player(Player::new(1, "c".to_string(), 0));
    picker.add_player(Player::new(1, "d".to_string(), 1));
    assert_eq!(names_of(&picker.pick(5)), vec!["c", "a", "b", "d", "late"]);
    assert_eq!(names_of(&picker.pick(3)), vec!["c", "a", "b"]);
    assert!(picker.set_player_games(2, 0));
    assert_eq!(names_of(&picker.pick(3)), vec!["b", "c", "a"]);
}
