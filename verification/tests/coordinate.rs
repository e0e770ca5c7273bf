use battleship::grid::{valid_dimensions, Coordinate};
use std::convert::TryFrom;

#[test]
fn test_coordinate() {
    let test_cases = [
        ((10, 10), "J10"),
        ((1, 7), "a7"),
        ((8, 5), "h5"),
        ((9, 1), "I1"),
        ((6, 8), "f8"),
        ((26, 2), "z2"),
    ];
    for (coord, coord_str) in test_cases {
        let coordinate = Coordinate::from(coord);
        assert_eq!(Ok(coordinate), Coordinate::try_from(coord_str.to_string()));
        assert_eq!(coord_str.to_uppercase(), coordinate.to_string())
    }
    assert!(Coordinate::try_from(String::from("test")).is_err());
    assert!(Coordinate::try_from(String::from("a999")).is_err());
    assert!(Coordinate::try_from(String::from("42")).is_err());
    assert_eq!(
        format!("{:?}", Coordinate::from((10, 2))),
        "Coordinate { x: 10, y: 2 }"
    );
}

fn parse(text: &str) -> Result<(u8, u8, bool), ()> {
    Coordinate::try_from(text.to_string()).map(|c| (c.x, c.y, c.is_hit))
}

#[test]
fn coordinate_equality_ignores_the_mark() {
    let plain = Coordinate { x: 3, y: 4, is_hit: false };
    let hit = Coordinate { x: 3, y: 4, is_hit: true };
    assert!(plain == hit);
    assert!(plain != Coordinate { x: 4, y: 3, is_hit: false });
    assert!(plain != Coordinate { x: 3, y: 5, is_hit: false });
    assert!(plain.is_at(&hit));
    assert!(!plain.is_at(&Coordinate::from((4, 4))));
}

#[test]
fn coordinate_from_tuple_is_not_hit() {
    let coordinate = Coordinate::from((7, 9));
    assert_eq!((coordinate.x, coordinate.y, coordinate.is_hit), (7, 9, false));
    let origin = Coordinate::default();
    assert_eq!((origin.x, origin.y, origin.is_hit), (0, 0, false));
}

#[test]
fn parse_reads_column_and_row() {
    assert_eq!(parse("J10"), Ok((10, 10, false)));
    assert_eq!(parse("a7"), Ok((1, 7, false)));
    assert_eq!(parse("A1"), Ok((1, 1, false)));
    assert_eq!(parse("z255"), Ok((26, 255, false)));
    assert_eq!(parse("Z0"), Ok((26, 0, false)));
    assert_eq!(parse("b007"), Ok((2, 7, false)));
    assert_eq!(parse("c+5"), Ok((3, 5, false)));
}

#[test]
fn parse_takes_the_last_letter_of_the_column_part() {
    assert_eq!(parse("ab12"), Ok((2, 12, false)));
    assert_eq!(parse("aaB3"), Ok((2, 3, false)));
    assert_eq!(parse("AMz9"), Ok((26, 9, false)));
    assert_eq!(parse("jj1"), Ok((10, 1, false)));
}

#[test]
fn parse_rejects_what_is_no_coordinate() {
    for text in [
        "", "test", "42", "a", "a999", "a256", "a-1", "a+", "a++1", "a 1", " a1", "a1 ", "a1b",
        "ba1", "zy3", "1a", "é1", "a１", "+1", "a1.5", "a0x1",
    ] {
        assert_eq!(parse(text), Err(()), "{:?}", text);
    }
}

#[test]
fn parse_agrees_with_a_pass_over_the_alphabet() {
    // The column part is what is stripped by going through the alphabet
    // once, from `a` to `z`, removing each letter from the start of the text.
    fn by_alphabet(text: &str) -> Result<(u8, u8), ()> {
        let mut value = text.to_ascii_lowercase();
        let mut x = 0;
        for (i, c) in "abcdefghijklmnopqrstuvwxyz".chars().enumerate() {
            if value.starts_with(c) {
                value = value.trim_start_matches(c).to_string();
                x = i as u8 + 1;
            }
        }
        if x == 0 {
            return Err(());
        }
        value.parse::<u8>().map(|y| (x, y)).map_err(|_| ())
    }
    let letters = ["", "a", "B", "ab", "ba", "aab", "abz", "zz", "Qr", "rq", "abc", "acb", "mM"];
    let rows = ["", "0", "7", "10", "255", "256", "999", "+3", "-3", "07", "1a", " 1", "1 "];
    for l in letters {
        for r in rows {
            let text = format!("{}{}", l, r);
            assert_eq!(
                parse(&text).map(|(x, y, _)| (x, y)),
                by_alphabet(&text),
                "{:?}",
                text
            );
        }
    }
}

#[test]
fn format_writes_letter_and_row() {
    assert_eq!(Coordinate::from((1, 0)).to_string(), "A0");
    assert_eq!(Coordinate::from((1, 1)).to_string(), "A1");
    assert_eq!(Coordinate::from((10, 10)).to_string(), "J10");
    assert_eq!(Coordinate::from((26, 255)).to_string(), "Z255");
    assert_eq!(Coordinate::from((13, 100)).to_string(), "M100");
    assert_eq!(Coordinate::from((2, 99)).to_string(), "B99");
}

#[test]
fn format_then_parse_gives_the_same_cell() {
    for x in 1..=26u8 {
        for y in 0..=255u8 {
            let coordinate = Coordinate { x, y, is_hit: y % 2 == 0 };
            let parsed = Coordinate::try_from(coordinate.to_string()).unwrap();
            assert_eq!((parsed.x, parsed.y, parsed.is_hit), (x, y, false));
        }
    }
}

#[test]
fn dimensions_up_to_the_alphabet_are_valid() {
    assert!(valid_dimensions(10, 10));
    assert!(valid_dimensions(26, 26));
    assert!(valid_dimensions(0, 0));
    assert!(!valid_dimensions(27, 10));
    assert!(!valid_dimensions(10, 27));
    assert!(!valid_dimensions(255, 255));
}
