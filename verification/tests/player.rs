use battleship::grid::{Coordinate, Grid};
use battleship::player::{Player, BANNER, UNKNOWN_PLAYER};
use battleship::ship::{Orientation, Ship, ShipType};

#[test]
fn new_player_has_nothing() {
    let player = Player::new();
    assert_eq!(player.name, "");
    assert!(player.hits.is_empty());
    assert_eq!((player.grid.width, player.grid.height), (0, 0));
    assert!(player.grid.ships.is_empty());
}

#[test]
fn greeting_is_banner_and_question() {
    assert_eq!(
        Player::greeting(),
        format!("{}\nPlease enter your name: ", BANNER)
    );
    assert!(BANNER.ends_with("Welcome to Battleship!"));
    assert_eq!(BANNER.lines().count(), 6);
}

#[test]
fn greet_sets_the_name() {
    let mut player = Player::new();
    player.hits.push(Coordinate::from((1, 1)));
    player.greet("  ferris \r\n");
    assert_eq!(player.name, "ferris");
    assert_eq!(player.hits.len(), 1);
    player.greet("Grace Hopper\n");
    assert_eq!(player.name, "Grace Hopper");
}

#[test]
fn greet_names_the_nameless() {
    for reply in ["", "\n", "   ", "\r\n", " \t "] {
        let mut player = Player::new();
        player.greet(reply);
        assert_eq!("unknown player", player.name);
    }
    assert_eq!(UNKNOWN_PLAYER, "unknown player");
}

#[test]
fn shots_board_marks_hits_and_misses() {
    let mut opponent = Grid::new(4, 3);
    let destroyer = ShipType::Destroyer(Orientation::Horizontal);
    assert!(opponent.place_ship(Ship::new(
        destroyer,
        destroyer.get_hitbox(Coordinate::from((2, 2)))
    )));
    let mut player = Player::new();
    let board = player.shots_board(&opponent, 4, 3);
    assert!(board.ships.is_empty());
    assert_eq!(board.as_string(false), "\n   A B C D \n1  • • • • \n2  • • • • \n3  • • • • \n");
    player.hits.push(Coordinate::from((1, 1)));
    player.hits.push(Coordinate::from((3, 2)));
    player.hits.push(Coordinate::from((3, 2)));
    player.hits.push(Coordinate::from((9, 9)));
    let board = player.shots_board(&opponent, 4, 3);
    assert_eq!((board.width, board.height), (4, 3));
    let markers: Vec<(ShipType, Vec<(u8, u8, bool)>)> = board
        .ships
        .iter()
        .map(|s| (s.type_, s.coords.iter().map(|c| (c.x, c.y, c.is_hit)).collect()))
        .collect();
    assert_eq!(
        markers,
        vec![
            (ShipType::Boat, vec![(1, 1, false)]),
            (ShipType::Boat, vec![(3, 2, true)]),
            (ShipType::Boat, vec![(3, 2, true)]),
            (ShipType::Boat, vec![(9, 9, false)]),
        ]
    );
    assert_eq!(board.as_string(false), "\n   A B C D \n1  ✕ • • • \n2  • • ☒ • \n3  • • • • \n");
    // The opponent's grid is only looked at.
    assert!(opponent.ships[0].coords.iter().all(|c| !c.is_hit));
}
