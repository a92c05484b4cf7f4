use worders::game::{
    calculate_score_from_placement, get_character_score, GameState, Player, DEFAULT_BAG,
    HAND_CAPACITY, SEATS,
};

#[test]
fn a_new_game_has_a_full_bag_and_empty_seats() {
    let game = GameState::new();
    assert_eq!(game.bag().len(), 100);
    assert_eq!(game.bag().as_slice(), &DEFAULT_BAG[..]);
    assert_eq!(game.bag().iter().filter(|c| **c == 'E').count(), 12);
    assert_eq!(game.bag().iter().filter(|c| **c == ' ').count(), 2);
    for seat in 0..SEATS {
        assert!(game.player_at(seat).is_none());
    }
    assert!(game.player_at(SEATS).is_none());
}

#[test]
fn a_new_player_has_nothing() {
    let player = Player::new("Sarah");
    assert_eq!(player.username(), "Sarah");
    assert_eq!(player.score(), 0);
    assert!(player.hand().is_empty());
}

#[test]
fn players_take_the_first_empty_seat_until_the_table_is_full() {
    let mut game = GameState::new();
    assert!(game.add_player(Player::new("a")));
    assert_eq!(game.player_at(0).unwrap().username(), "a");
    assert!(game.player_at(1).is_none());
    assert!(game.add_player(Player::new("b")));
    assert!(game.add_player(Player::new("c")));
    assert!(game.add_player(Player::new("d")));
    assert!(!game.add_player(Player::new("e")));
    let names: Vec<&str> = (0..SEATS).map(|i| game.player_at(i).unwrap().username()).collect();
    assert_eq!(names, vec!["a", "b", "c", "d"]);
    assert_eq!(game.bag().len(), 100);
}

#[test]
fn initialize_changes_nothing() {
    let mut game = GameState::new();
    game.add_player(Player::new("a"));
    game.initialize();
    assert_eq!(game.bag().len(), 100);
    assert_eq!(game.player_at(0).unwrap().username(), "a");
    assert!(game.player_at(1).is_none());
}

#[test]
fn a_hand_holds_seven_tiles_and_no_more() {
    let mut player = Player::new("p");
    for (i, tile) in ['A', 'B', 'C', 'D', 'E', 'F', 'G'].into_iter().enumerate() {
        assert!(player.insert_into_hand(tile));
        assert_eq!(player.hand().len(), i + 1);
    }
    assert_eq!(HAND_CAPACITY, 7);
    assert!(!player.insert_into_hand('H'));
    assert_eq!(player.hand(), &vec!['A', 'B', 'C', 'D', 'E', 'F', 'G']);
}

#[test]
fn drawing_at_an_index_offers_that_tile() {
    let game = GameState::new();
    let mut player = Player::new("p");
    assert!(game.draw_at(0, &mut player));
    assert!(game.draw_at(2, &mut player));
    assert!(game.draw_at(99, &mut player));
    assert_eq!(player.hand(), &vec![' ', 'A', 'Z']);
    assert!(!game.draw_at(100, &mut player));
    assert!(!game.draw_at(usize::MAX, &mut player));
    assert_eq!(player.hand().len(), 3);
    assert_eq!(game.bag().len(), 100);
}

#[test]
fn drawing_fills_the_hand_from_the_bag_and_leaves_the_bag_alone() {
    let mut game = GameState::new();
    let mut player = Player::new("p");
    for drawn in 1..=7 {
        assert!(game.draw(&mut player));
        assert_eq!(player.hand().len(), drawn);
    }
    assert!(!game.draw(&mut player));
    assert_eq!(player.hand().len(), 7);
    assert!(player.hand().iter().all(|tile| DEFAULT_BAG[..99].contains(tile)));
    assert_eq!(game.bag().as_slice(), &DEFAULT_BAG[..]);
}

#[test]
fn drawing_never_offers_the_last_tile_of_the_bag() {
    // The one Z is the last tile of the bag.
    let mut game = GameState::new();
    for _ in 0..300 {
        let mut player = Player::new("p");
        assert!(game.draw(&mut player));
        assert_ne!(player.hand()[0], 'Z');
    }
}

#[test]
fn each_letter_has_its_score() {
    let table = [
        ("EAIONRTLSU", 1u32),
        ("DG", 2),
        ("BCMP", 3),
        ("FHVWY", 4),
        ("K", 5),
        ("JX", 8),
        ("QZ", 10),
        (" ?e0\u{e9}", 0),
    ];
    for (letters, score) in table {
        for letter in letters.chars() {
            assert_eq!(get_character_score(letter), score, "{:?}", letter);
        }
    }
    let scored: u32 = ('A'..='Z').map(get_character_score).sum();
    assert_eq!(scored, 87);
}

#[test]
fn a_placement_scores_the_sum_of_its_letters() {
    assert_eq!(calculate_score_from_placement(vec![]), 0);
    assert_eq!(calculate_score_from_placement(vec!['Q', 'U', 'I', 'Z']), 22);
    assert_eq!(calculate_score_from_placement(vec!['W', 'O', 'R', 'D', 'S']), 9);
    assert_eq!(calculate_score_from_placement(vec!['a', ' ', 'K']), 5);
    assert_eq!(calculate_score_from_placement(DEFAULT_BAG.to_vec()), 187);
}
