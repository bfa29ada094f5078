use mps_emulator::parse::{parse_list, parse_max_bonds};

#[test]
fn plain_list() {
    assert_eq!(parse_list("16,32,64"), vec![16, 32, 64]);
    assert_eq!(parse_max_bonds("16,32,64"), vec![16, 32, 64]);
}

#[test]
fn entries_are_trimmed() {
    assert_eq!(parse_list(" 8 ,\t9 "), vec![8, 9]);
}

#[test]
fn bad_entries_are_dropped() {
    assert_eq!(parse_list(" 8 , ,x, 9"), vec![8, 9]);
    assert_eq!(parse_list("12a,3"), vec![3]);
    assert_eq!(parse_list("1,,2"), vec![1, 2]);
    assert_eq!(parse_list("-4,4"), vec![4]);
}

#[test]
fn empty_input_is_empty() {
    assert_eq!(parse_list(""), Vec::<usize>::new());
    assert_eq!(parse_list(","), Vec::<usize>::new());
}

#[test]
fn leading_plus_is_accepted() {
    assert_eq!(parse_list("+7,+0"), vec![7, 0]);
    assert_eq!(parse_list("+"), Vec::<usize>::new());
}

#[test]
fn oversized_entries_are_dropped() {
    assert_eq!(parse_list("99999999999999999999999999,5"), vec![5]);
    assert_eq!(parse_list(&usize::MAX.to_string()), vec![usize::MAX]);
}
