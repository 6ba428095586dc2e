use picker::selection::comes_before;
use picker::selection::least_slots;
use picker::selection::players_in;
use picker::Player;
use std::cmp::Ordering;

#[test]
fn new_player_holds_what_it_was_given() {
    let p = Player::new(4, "dee".to_string(), 9);
    assert_eq!(p.id, 4);
    assert_eq!(p.name, "dee");
    assert_eq!(p.games, 9);
}

#[test]
fn setters_change_one_field() {
    let mut p = Player::new(4, "dee".to_string(), 9);
    p.set_games(2);
    assert_eq!((p.id, p.name.as_str(), p.games), (4, "dee", 2));
    p.set_name("eve");
    assert_eq!((p.id, p.name.as_str(), p.games), (4, "eve", 2));
}

#[test]
fn clone_keeps_every_field() {
    let p = Player::new(8, "hal".to_string(), 3);
    let q = p.clone();
    assert_eq!((q.id, q.name.as_str(), q.games), (8, "hal", 3));
}

#[test]
fn players_are_equal_by_id_alone() {
    let p = Player::new(1, "a".to_string(), 0);
    let q = Player::new(1, "b".to_string(), 7);
    let r = Player::new(2, "a".to_string(), 0);
    assert!(p == q);
    assert!(p != r);
}

#[test]
fn players_are_ordered_by_games_then_id() {
    let few = Player::new(9, "few".to_string(), 1);
    let many = Player::new(1, "many".to_string(), 2);
    let many_later = Player::new(3, "many".to_string(), 2);
    assert_eq!(few.cmp(&many), Ordering::Less);
    assert_eq!(many.cmp(&few), Ordering::Greater);
    assert_eq!(many.cmp(&many_later), Ordering::Less);
    assert_eq!(many_later.cmp(&many), Ordering::Greater);
    assert_eq!(many.cmp(&many), Ordering::Equal);
    assert_eq!(few.partial_cmp(&many), Some(Ordering::Less));
    assert_eq!(many_later.partial_cmp(&many), Some(Ordering::Greater));
    assert_eq!(few.partial_cmp(&few), Some(Ordering::Equal));
    assert!(few < many);
    assert!(many < many_later);
    assert!(many_later > few);
    assert!(many <= many);
}

#[test]
fn equality_and_order_may_part() {
    let before = Player::new(5, "p".to_string(), 1);
    let after = Player::new(5, "p".to_string(), 2);
    assert!(before == after);
    assert_eq!(before.cmp(&after), Ordering::Less);
    assert!(before < after);
}

#[test]
fn slots_are_compared_by_games_id_and_position() {
    let a = Player::new(2, "a".to_string(), 1);
    let b = Player::new(1, "b".to_string(), 1);
    let c = Player::new(1, "c".to_string(), 1);
    let d = Player::new(7, "d".to_string(), 0);
    let pool = vec![&a, &b, &c, &d];
    assert!(comes_before(&pool, 1, 0));
    assert!(!comes_before(&pool, 0, 1));
    assert!(comes_before(&pool, 1, 2));
    assert!(!comes_before(&pool, 2, 1));
    assert!(comes_before(&pool, 3, 1));
    assert!(!comes_before(&pool, 1, 3));
    assert!(!comes_before(&pool, 2, 2));
}

#[test]
fn least_slots_are_in_picking_order() {
    let a = Player::new(2, "a".to_string(), 1);
    let b = Player::new(1, "b".to_string(), 1);
    let c = Player::new(1, "c".to_string(), 1);
    let d = Player::new(7, "d".to_string(), 0);
    let e = Player::new(3, "e".to_string(), 4);
    let pool = vec![&a, &b, &c, &d, &e];
    assert_eq!(least_slots(&pool, 0), Vec::<usize>::new());
    assert_eq!(least_slots(&pool, 1), vec![3]);
    assert_eq!(least_slots(&pool, 3), vec![3, 1, 2]);
    assert_eq!(least_slots(&pool, 5), vec![3, 1, 2, 0, 4]);
    assert_eq!(least_slots(&pool, 50), vec![3, 1, 2, 0, 4]);
    let nobody: Vec<&Player> = Vec::new();
    assert_eq!(least_slots(&nobody, 2), Vec::<usize>::new());
}

#[test]
fn players_in_slots_are_copied_in_order() {
    let a = Player::new(2, "a".to_string(), 1);
    let b = Player::new(1, "b".to_string(), 5);
    let pool = vec![&a, &b];
    let slots = vec![1, 0, 1];
    let players = players_in(&pool, &slots);
    assert_eq!(players.len(), 3);
    assert_eq!((players[0].id, players[0].name.as_str(), players[0].games), (1, "b", 5));
    assert_eq!((players[1].id, players[1].name.as_str(), players[1].games), (2, "a", 1));
    assert_eq!((players[2].id, players[2].name.as_str(), players[2].games), (1, "b", 5));
}
