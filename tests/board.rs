use syncbox::board::{
    boat_value_parser, boats_value_parser, start_value_parser, Board, Boat, Error,
};

fn row(text: &str, r: usize) -> String {
    text.split('\n').nth(r + 1).unwrap().to_string()
}

#[test]
fn new_board_is_empty() {
    let b = Board::new(&[4, 3, 2, 1]);
    let text = b.to_string();
    assert!(text.starts_with("4 3 2 1\n"));
    assert_eq!(text.len(), "4 3 2 1\n".len() + 20 * 21);
    assert_eq!(row(&text, 0), " ".repeat(20));
}

#[test]
fn add_boat_marks_cells_and_counts() {
    let mut b = Board::new(&[1, 1, 1, 1]);
    assert_eq!(b.add_boat(Boat::Vertical(3), (2, 5)), Ok(()));
    let text = b.to_string();
    assert!(text.starts_with("1 1 0 1\n"));
    for r in 0..20 {
        let expected: String = (0..20)
            .map(|c| if c == 5 && (2..5).contains(&r) { 'B' } else { ' ' })
            .collect();
        assert_eq!(row(&text, r), expected);
    }
}

#[test]
fn add_boat_errors() {
    let mut b = Board::new(&[1, 0, 1, 1]);
    assert_eq!(b.add_boat(Boat::Horizontal(2), (0, 0)), Err(Error::BoatCount));
    assert_eq!(b.add_boat(Boat::Horizontal(4), (0, 16)), Err(Error::OutOfBounds));
    assert_eq!(b.add_boat(Boat::Vertical(3), (17, 0)), Err(Error::OutOfBounds));
    assert_eq!(b.add_boat(Boat::Horizontal(4), (5, 5)), Ok(()));
    // touching at a corner is not allowed either
    assert_eq!(b.add_boat(Boat::Vertical(1), (6, 9)), Err(Error::Overlap));
    assert_eq!(b.add_boat(Boat::Vertical(1), (4, 4)), Err(Error::Overlap));
    assert_eq!(b.add_boat(Boat::Vertical(1), (7, 9)), Ok(()));
}

#[test]
fn board_text_round_trip() {
    let mut b = Board::new(&[2, 2, 1, 1]);
    assert_eq!(b.add_boat(Boat::Horizontal(4), (19 - 1, 3)), Ok(()));
    assert_eq!(b.add_boat(Boat::Vertical(1), (0, 19)), Ok(()));
    let text = b.to_string();
    let again = Board::from(text.clone());
    assert_eq!(again.to_string(), text);
}

#[test]
fn board_from_short_text() {
    let b = Board::from("7 1\n  x\nB".to_string());
    let text = b.to_string();
    assert!(text.starts_with("7 1 0 0\n"));
    assert_eq!(row(&text, 0), format!("  B{}", " ".repeat(17)));
    assert_eq!(row(&text, 1), format!("B{}", " ".repeat(19)));
    assert_eq!(row(&text, 2), " ".repeat(20));
}

#[test]
fn argument_parsers() {
    assert_eq!(boat_value_parser("3V"), Ok((3, 'V')));
    assert_eq!(boat_value_parser("1H"), Ok((1, 'H')));
    assert!(boat_value_parser("5H").is_err());
    assert!(boat_value_parser("3X").is_err());
    assert!(boat_value_parser("").is_err());
    assert_eq!(boats_value_parser("4,3,2,1"), Ok(vec![4, 3, 2, 1]));
    assert_eq!(boats_value_parser("+4,0,2,255"), Ok(vec![4, 0, 2, 255]));
    assert!(boats_value_parser("4,3,2").is_err());
    assert!(boats_value_parser("4,3,2,256").is_err());
    assert!(boats_value_parser("4,3,,1").is_err());
    assert_eq!(start_value_parser("3,5"), Ok((3, 5)));
    assert!(start_value_parser("3").is_err());
    assert!(start_value_parser("a,1").is_err());
}
