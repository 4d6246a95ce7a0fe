use chess::board::{Line, Square};

#[test]
fn display() {
    let h1 = Square::new(7, 0).unwrap();
    assert_eq!(h1.name(), String::from("h1"));
}

#[test]
fn stepping_stops_at_the_edge() {
    let a1 = Square::new(0, 0).unwrap();
    assert_eq!(a1.down(), None);
    assert_eq!(a1.left(), None);
    assert_eq!(a1.up(), Square::new(0, 1));
    assert_eq!(a1.up_right(), Square::new(1, 1));
    let h8 = Square::new(7, 7).unwrap();
    assert_eq!(h8.up(), None);
    assert_eq!(h8.right(), None);
    assert_eq!(h8.down_left(), Square::new(6, 6));
}

#[test]
fn light_and_dark_squares() {
    let a1 = Square::new(0, 0).unwrap();
    assert!(!a1.is_light());
    let h1 = Square::new(7, 0).unwrap();
    assert!(h1.is_light());
}

#[test]
fn lines_cross_in_one_square() {
    let file_e = Line::new('e').unwrap();
    let rank_4 = Line::new('4').unwrap();
    assert_eq!(file_e.intersection(&rank_4), Square::new(4, 3));
    assert_eq!(rank_4.intersection(&file_e), Square::new(4, 3));
    assert_eq!(file_e.intersection(&file_e), None);
    assert!(file_e.is_file() && !file_e.is_rank());
    let squares = rank_4.to_vec();
    assert_eq!(squares.len(), 8);
    assert_eq!(squares[0], Square::new(0, 3).unwrap());
    assert_eq!(squares[7], Square::new(7, 3).unwrap());
}
