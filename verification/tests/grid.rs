use battleship::grid::{Coordinate, Grid, MAX_ATTEMPTS, MAX_FLEET, MIN_FLEET};
use battleship::ship::{Orientation, Ship, ShipType};
use std::convert::TryFrom;

#[test]
fn test_grid() {
    let mut grid = Grid::new(5, 5);
    assert!(grid.place_ship(Ship::new(ShipType::Boat, vec![Coordinate::from((2, 3))])));
    assert!(grid.place_ship(Ship::new(ShipType::Boat, vec![Coordinate::from((4, 5))])));
    assert!(grid.place_ship(Ship::new(
        ShipType::Destroyer(Orientation::Horizontal),
        vec![Coordinate::try_from(String::from("D1")).unwrap()]
    )));
    assert!(!grid.place_ship(Ship::new(
        ShipType::Battleship(Orientation::Vertical),
        ShipType::Battleship(Orientation::Vertical).get_hitbox(Coordinate::from((2, 4)))
    )));
    assert!(grid.place_ship(Ship::new(
        ShipType::Boat,
        vec![{
            let mut coordinate = Coordinate::try_from(String::from("B5")).unwrap();
            coordinate.is_hit = true;
            coordinate
        }]
    )));
    assert_eq!(
        r#"
   A B C D E 
1  • • • ▭ • 
2  • • • • • 
3  • △ • • • 
4  • • • • • 
5  • ☒ • △ • 
"#,
        grid.as_string(true)
    );
    assert_eq!(
        r#"
   A B C D E 
1  • • • ✕ • 
2  • • • • • 
3  • ✕ • • • 
4  • • • • • 
5  • ☒ • ✕ • 
"#,
        grid.as_string(false)
    );

    let grid = Grid::new_random(15, 15).expect("a fleet fits on 15 by 15 cells");
    assert!(!grid.ships.is_empty());
}

fn ship_at(ship_type: ShipType, x: u8, y: u8) -> Ship {
    Ship::new(ship_type, ship_type.get_hitbox(Coordinate::from((x, y))))
}

fn shape(grid: &Grid) -> Vec<(ShipType, Vec<(u8, u8, bool)>)> {
    grid.ships
        .iter()
        .map(|s| (s.type_, s.coords.iter().map(|c| (c.x, c.y, c.is_hit)).collect()))
        .collect()
}

fn check_invariant(grid: &Grid) {
    for (i, ship) in grid.ships.iter().enumerate() {
        for cell in &ship.coords {
            assert!(1 <= cell.x && cell.x <= grid.width, "{:?}", grid);
            assert!(1 <= cell.y && cell.y <= grid.height, "{:?}", grid);
            for other in &grid.ships[i + 1..] {
                assert!(!other.coords.contains(cell), "{:?}", grid);
            }
        }
    }
}

#[test]
fn new_grid_is_empty() {
    let grid = Grid::new(7, 9);
    assert_eq!((grid.width, grid.height, grid.ships.len()), (7, 9, 0));
    let grid = Grid::default();
    assert_eq!((grid.width, grid.height, grid.ships.len()), (0, 0, 0));
    assert!(grid.is_defeated());
}

#[test]
fn place_ship_rejects_what_leaves_the_grid() {
    let mut grid = Grid::new(5, 4);
    for (x, y) in [(0, 1), (1, 0), (6, 1), (1, 5), (0, 0), (6, 5), (255, 255)] {
        assert!(!grid.place_ship(Ship::new(ShipType::Boat, vec![Coordinate::from((x, y))])));
    }
    assert!(!grid.place_ship(ship_at(ShipType::Destroyer(Orientation::Horizontal), 5, 1)));
    assert!(!grid.place_ship(ship_at(ShipType::Destroyer(Orientation::Vertical), 1, 4)));
    assert!(!grid.place_ship(ship_at(ShipType::Battleship(Orientation::Horizontal), 4, 1)));
    assert!(!grid.place_ship(ship_at(ShipType::Battleship(Orientation::Vertical), 1, 3)));
    assert!(grid.ships.is_empty());
    // The corners are on the grid.
    for (x, y) in [(1, 1), (5, 1), (1, 4), (5, 4)] {
        assert!(grid.place_ship(Ship::new(ShipType::Boat, vec![Coordinate::from((x, y))])));
    }
    assert_eq!(grid.ships.len(), 4);
    check_invariant(&grid);
}

#[test]
fn place_ship_rejects_what_lies_on_a_ship() {
    let mut grid = Grid::new(8, 8);
    assert!(grid.place_ship(ship_at(ShipType::Battleship(Orientation::Horizontal), 2, 2)));
    let before = shape(&grid);
    // Every cell of the battleship is taken.
    for x in 2..=4 {
        for y in 2..=3 {
            assert!(!grid.place_ship(ship_at(ShipType::Boat, x, y)));
            let mut hit = ship_at(ShipType::Boat, x, y);
            hit.coords[0].is_hit = true;
            assert!(!grid.place_ship(hit));
        }
    }
    assert!(!grid.place_ship(ship_at(ShipType::Destroyer(Orientation::Vertical), 3, 1)));
    assert!(!grid.place_ship(ship_at(ShipType::Destroyer(Orientation::Horizontal), 1, 3)));
    assert!(!grid.place_ship(ship_at(ShipType::Battleship(Orientation::Vertical), 4, 3)));
    assert_eq!(shape(&grid), before);
    // The cells around it are free.
    assert!(grid.place_ship(ship_at(ShipType::Destroyer(Orientation::Vertical), 1, 2)));
    assert!(grid.place_ship(ship_at(ShipType::Destroyer(Orientation::Horizontal), 2, 1)));
    assert!(grid.place_ship(ship_at(ShipType::Boat, 5, 2)));
    assert!(grid.place_ship(ship_at(ShipType::Boat, 2, 4)));
    assert_eq!(grid.ships.len(), 5);
    assert_eq!(grid.ships[4].coords, vec![Coordinate::from((2, 4))]);
    check_invariant(&grid);
}

#[test]
fn place_ship_keeps_the_order_of_placement() {
    let mut grid = Grid::new(6, 6);
    assert!(grid.place_ship(ship_at(ShipType::Boat, 6, 6)));
    assert!(grid.place_ship(ship_at(ShipType::Destroyer(Orientation::Vertical), 1, 1)));
    assert!(!grid.place_ship(ship_at(ShipType::Boat, 1, 2)));
    assert!(grid.place_ship(ship_at(ShipType::Boat, 3, 3)));
    assert_eq!(
        shape(&grid),
        vec![
            (ShipType::Boat, vec![(6, 6, false)]),
            (ShipType::Destroyer(Orientation::Vertical), vec![(1, 1, false), (1, 2, false)]),
            (ShipType::Boat, vec![(3, 3, false)]),
        ]
    );
    assert_eq!((grid.width, grid.height), (6, 6));
}

#[test]
fn grid_never_holds_overlapping_ships() {
    // Offer every ship type at every anchor of a small grid, in two orders.
    let mut offers = Vec::new();
    for x in 0..=6 {
        for y in 0..=6 {
            for ship_type in ShipType::variants() {
                offers.push((ship_type, x, y));
            }
        }
    }
    let mut forward = Grid::new(5, 5);
    for (ship_type, x, y) in offers.iter() {
        forward.place_ship(ship_at(*ship_type, *x, *y));
        check_invariant(&forward);
    }
    let mut backward = Grid::new(5, 5);
    for (ship_type, x, y) in offers.iter().rev() {
        backward.place_ship(ship_at(*ship_type, *x, *y));
        check_invariant(&backward);
    }
    assert!(!forward.ships.is_empty());
    assert!(!backward.ships.is_empty());
}

#[test]
fn fits_and_overlaps_tell_why_a_ship_is_rejected() {
    let mut grid = Grid::new(4, 4);
    assert!(grid.place_ship(ship_at(ShipType::Boat, 2, 2)));
    let outside = ship_at(ShipType::Destroyer(Orientation::Horizontal), 4, 4);
    let on_top = ship_at(ShipType::Destroyer(Orientation::Horizontal), 1, 2);
    let free = ship_at(ShipType::Destroyer(Orientation::Horizontal), 3, 2);
    assert!(!grid.fits(&outside) && !grid.overlaps(&outside));
    assert!(grid.fits(&on_top) && grid.overlaps(&on_top));
    assert!(grid.fits(&free) && !grid.overlaps(&free));
    assert!(grid.fits(&Ship::default()) && !grid.overlaps(&Ship::default()));
}

#[test]
fn fire_marks_the_cell_and_tells_hit_from_miss() {
    let mut grid = Grid::new(5, 5);
    assert!(grid.place_ship(ship_at(ShipType::Destroyer(Orientation::Horizontal), 2, 2)));
    assert!(grid.place_ship(ship_at(ShipType::Boat, 5, 5)));
    assert!(!grid.fire(&Coordinate::from((1, 1))));
    assert!(!grid.fire(&Coordinate::from((4, 2))));
    assert!(!grid.fire(&Coordinate::from((9, 9))));
    assert_eq!(
        shape(&grid),
        vec![
            (ShipType::Destroyer(Orientation::Horizontal), vec![(2, 2, false), (3, 2, false)]),
            (ShipType::Boat, vec![(5, 5, false)]),
        ]
    );
    assert!(grid.fire(&Coordinate::from((3, 2))));
    assert_eq!(
        shape(&grid),
        vec![
            (ShipType::Destroyer(Orientation::Horizontal), vec![(2, 2, false), (3, 2, true)]),
            (ShipType::Boat, vec![(5, 5, false)]),
        ]
    );
    assert!(!grid.is_defeated());
    assert!(grid.fire(&Coordinate::from((3, 2))));
    assert!(grid.fire(&Coordinate::from((5, 5))));
    assert!(!grid.is_defeated());
    assert!(grid.fire(&Coordinate::from((2, 2))));
    assert!(grid.is_defeated());
    assert_eq!(grid.occupant(&Coordinate::from((5, 5))), Some(1));
    assert_eq!(grid.occupant(&Coordinate::from((4, 5))), None);
    check_invariant(&grid);
}

#[test]
fn render_empty_grids() {
    assert_eq!(Grid::new(0, 0).as_string(true), "\n   \n");
    assert_eq!(Grid::new(1, 1).as_string(true), "\n   A \n1  • \n");
    assert_eq!(Grid::new(3, 0).as_string(false), "\n   A B C \n");
    assert_eq!(Grid::new(0, 2).as_string(false), "\n   \n1  \n2  \n");
    assert_eq!(
        Grid::new(26, 1).as_string(true),
        "\n   A B C D E F G H I J K L M N O P Q R S T U V W X Y Z \n1  • • • • • • • • • • • • • • • • • • • • • • • • • • \n"
    );
}

#[test]
fn render_pads_the_row_number_to_three_characters() {
    let text = Grid::new(1, 120).as_string(true);
    let lines: Vec<&str> = text.split('\n').collect();
    assert_eq!(lines.len(), 123);
    assert_eq!(lines[0], "");
    assert_eq!(lines[1], "   A ");
    assert_eq!(lines[2], "1  • ");
    assert_eq!(lines[10], "9  • ");
    assert_eq!(lines[11], "10 • ");
    assert_eq!(lines[100], "99 • ");
    assert_eq!(lines[101], "100• ");
    assert_eq!(lines[121], "120• ");
    assert_eq!(lines[122], "");
    let tall = Grid::new(0, 255).as_string(true);
    assert!(tall.ends_with("\n254\n255\n"));
}

#[test]
fn render_draws_each_ship_type() {
    let mut grid = Grid::new(6, 6);
    assert!(grid.place_ship(ship_at(ShipType::Battleship(Orientation::Vertical), 1, 1)));
    assert!(grid.place_ship(ship_at(ShipType::Destroyer(Orientation::Vertical), 4, 1)));
    assert!(grid.place_ship(ship_at(ShipType::Destroyer(Orientation::Horizontal), 5, 6)));
    assert!(grid.place_ship(ship_at(ShipType::Boat, 6, 1)));
    assert!(grid.fire(&Coordinate::from((2, 2))));
    assert!(grid.fire(&Coordinate::from((6, 6))));
    assert!(!grid.fire(&Coordinate::from((3, 3))));
    assert_eq!(
        grid.as_string(true),
        "\n   A B C D E F \n\
         1  ▧ ▧ • ▯ • △ \n\
         2  ▧ ☒ • ▯ • • \n\
         3  ▧ ▧ • • • • \n\
         4  • • • • • • \n\
         5  • • • • • • \n\
         6  • • • • ▭ ☒ \n"
    );
    assert_eq!(
        grid.as_string(false),
        "\n   A B C D E F \n\
         1  ✕ ✕ • ✕ • ✕ \n\
         2  ✕ ☒ • ✕ • • \n\
         3  ✕ ✕ • • • • \n\
         4  • • • • • • \n\
         5  • • • • • • \n\
         6  • • • • ✕ ☒ \n"
    );
}

#[test]
fn display_appends_to_what_is_there() {
    let mut grid = Grid::new(2, 1);
    assert!(grid.place_ship(ship_at(ShipType::Boat, 2, 1)));
    let mut out = String::from("board:");
    grid.display(&mut out, true);
    assert_eq!(out, "board:\n   A B \n1  • △ \n");
    let mut out = String::from("x");
    grid.display_point(&mut out, Coordinate::from((2, 1)), true);
    grid.display_point(&mut out, Coordinate::from((2, 1)), false);
    grid.display_point(&mut out, Coordinate::from((1, 1)), true);
    grid.display_point(&mut out, Coordinate::from((7, 7)), false);
    assert_eq!(out, "x△ ✕ • • ");
}

#[test]
fn render_draws_the_first_of_two_ships_on_one_cell() {
    let grid = Grid {
        width: 2,
        height: 1,
        ships: vec![
            Ship::new(ShipType::Boat, vec![Coordinate::from((1, 1))]),
            Ship::new(
                ShipType::Destroyer(Orientation::Vertical),
                vec![Coordinate { x: 1, y: 1, is_hit: true }],
            ),
        ],
    };
    assert_eq!(grid.as_string(true), "\n   A B \n1  △ • \n");
}

#[test]
fn enlist_sets_a_battleship_aside() {
    let mut grid = Grid::new(6, 6);
    let mut reserve = None;
    grid.enlist(ship_at(ShipType::Boat, 1, 1), &mut reserve);
    assert!(reserve.is_none());
    assert_eq!(grid.ships.len(), 1);
    grid.enlist(ship_at(ShipType::Battleship(Orientation::Vertical), 1, 1), &mut reserve);
    assert_eq!(grid.ships.len(), 1);
    assert_eq!(reserve.as_ref().map(|s| s.coords[0]), Some(Coordinate::from((1, 1))));
    grid.enlist(ship_at(ShipType::Battleship(Orientation::Horizontal), 3, 3), &mut reserve);
    assert_eq!(grid.ships.len(), 1);
    assert_eq!(
        reserve.as_ref().map(|s| s.type_),
        Some(ShipType::Battleship(Orientation::Horizontal))
    );
    grid.enlist(ship_at(ShipType::Destroyer(Orientation::Horizontal), 1, 1), &mut reserve);
    assert_eq!(grid.ships.len(), 1);
    grid.enlist(ship_at(ShipType::Destroyer(Orientation::Horizontal), 2, 1), &mut reserve);
    assert_eq!(grid.ships.len(), 2);
    assert!(reserve.is_some());
}

#[test]
fn random_grid_is_a_fleet() {
    for (width, height) in [(15, 15), (10, 10), (26, 26), (5, 5), (3, 2), (2, 3), (4, 1), (1, 4)] {
        for _ in 0..20 {
            let grid = match Grid::new_random(width, height) {
                Some(grid) => grid,
                None => continue,
            };
            assert_eq!((grid.width, grid.height), (width, height));
            check_invariant(&grid);
            let battleships = grid.ships.iter().filter(|s| s.type_.is_battleship()).count();
            let others = grid.ships.len() - battleships;
            assert!(battleships <= 1);
            assert!(MIN_FLEET <= others && others <= MAX_FLEET);
            if battleships == 1 {
                assert!(grid.ships.last().unwrap().type_.is_battleship());
            }
            for ship in &grid.ships {
                assert_eq!(ship.coords, ship.type_.get_hitbox(ship.coords[0]));
                assert!(!ship.is_sunk());
            }
            assert!(!grid.is_defeated());
        }
    }
}

#[test]
fn random_grid_is_found_where_there_is_room() {
    for _ in 0..50 {
        assert!(Grid::new_random(10, 10).is_some());
        assert!(Grid::new_random(26, 26).is_some());
    }
}

#[test]
fn random_grids_differ() {
    let first = shape(&Grid::new_random(20, 20).unwrap());
    assert!((0..20).any(|_| shape(&Grid::new_random(20, 20).unwrap()) != first));
}

#[test]
fn random_grid_gives_up_where_no_fleet_fits() {
    // Three cells cannot hold four ships.
    assert!(MAX_ATTEMPTS > 0);
    assert!(Grid::new_random(1, 1).is_none());
    assert!(Grid::new_random(3, 1).is_none());
    assert!(Grid::new_random(1, 3).is_none());
}
