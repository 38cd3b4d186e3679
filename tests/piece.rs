use quarto::piece::{all_possible_pieces, check_match, piece_from_index, piece_index};

#[test]
fn line_sharing_third_attribute_matches() {
    let line = vec![
        [false, true, true, false],
        [true, false, true, true],
        [false, false, true, true],
        [true, true, true, false],
    ];
    assert!(check_match(line));
}

#[test]
fn line_with_no_uniform_attribute_does_not_match() {
    let line = vec![
        [false, false, false, false],
        [true, true, true, true],
        [false, true, false, true],
        [true, false, true, false],
    ];
    assert!(!check_match(line));
}

#[test]
fn line_sharing_first_or_last_attribute_matches() {
    let first = vec![
        [true, false, false, false],
        [true, true, false, true],
        [true, false, true, false],
        [true, true, true, true],
    ];
    assert!(check_match(first));
    let last = vec![
        [false, false, false, false],
        [true, true, false, false],
        [false, true, true, false],
        [true, false, true, false],
    ];
    assert!(check_match(last));
}

#[test]
fn all_pieces_are_the_binary_numbers_in_order() {
    let pieces = all_possible_pieces(4);
    assert_eq!(pieces.len(), 16);
    for (i, p) in pieces.iter().enumerate() {
        let expected = vec![i / 8 % 2 == 1, i / 4 % 2 == 1, i / 2 % 2 == 1, i % 2 == 1];
        assert_eq!(*p, expected);
    }
    assert_eq!(all_possible_pieces(0), vec![Vec::<bool>::new()]);
    assert_eq!(
        all_possible_pieces(2),
        vec![vec![false, false], vec![false, true], vec![true, false], vec![true, true]]
    );
}

#[test]
fn piece_numbers_round_trip() {
    assert_eq!(piece_index(&[true, false, true, true]), 11);
    assert_eq!(piece_index(&[false, false, false, false]), 0);
    assert_eq!(piece_from_index(6), [false, true, true, false]);
    for i in 0..16 {
        assert_eq!(piece_index(&piece_from_index(i)), i);
    }
}
