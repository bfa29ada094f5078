use mps_emulator::schedule::{brickwork_layer, brickwork_pairs};

#[test]
fn even_pairs_cover_even_bonds() {
    assert_eq!(brickwork_pairs(6, 0), vec![0, 2, 4]);
    assert_eq!(brickwork_pairs(5, 0), vec![0, 2]);
}

#[test]
fn odd_pairs_cover_odd_bonds() {
    assert_eq!(brickwork_pairs(6, 1), vec![1, 3]);
    assert_eq!(brickwork_pairs(5, 1), vec![1, 3]);
}

#[test]
fn short_chains_have_no_pairs() {
    assert_eq!(brickwork_pairs(1, 0), Vec::<usize>::new());
    assert_eq!(brickwork_pairs(2, 1), Vec::<usize>::new());
    assert_eq!(brickwork_pairs(0, 0), Vec::<usize>::new());
}

#[test]
fn layer_is_even_sublayer_then_odd_sublayer() {
    assert_eq!(brickwork_layer(5), vec![0, 2, 1, 3]);
    assert_eq!(brickwork_layer(2), vec![0]);
    assert_eq!(brickwork_layer(24).len(), 23);
}
