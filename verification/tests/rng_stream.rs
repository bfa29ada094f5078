use mps_emulator::rng::ONDRng;

#[test]
fn same_seed_same_stream() {
    let mut a = ONDRng::new(b"seed");
    let mut b = ONDRng::new(b"seed");
    let ctxs: [&[u8]; 6] = [b"RZ0", b"RX0", b"MEASURE_Z", b"DEPOL_1Q", b"RZ1", b"MEASURE_Z"];
    for _round in 0..4 {
        for ctx in ctxs.iter() {
            assert_eq!(a.next_u64(ctx), b.next_u64(ctx));
        }
    }
}

#[test]
fn distinct_seeds_diverge() {
    let mut a = ONDRng::new(b"seed-0");
    let mut b = ONDRng::new(b"seed-1");
    assert_ne!(a.next_u64(b"MEASURE_Z"), b.next_u64(b"MEASURE_Z"));
}

#[test]
fn swapped_adjacent_tags_change_the_swapped_draws() {
    let mut a = ONDRng::new(b"seed");
    let mut b = ONDRng::new(b"seed");
    // Same seed, but the first two context tags are swapped. The tag keys the
    // output, so both swapped draws change.
    let first = a.next_u64(b"RZ0");
    let second = a.next_u64(b"RX0");
    let first_swapped = b.next_u64(b"RX0");
    let second_swapped = b.next_u64(b"RZ0");
    assert_ne!(first, first_swapped);
    assert_ne!(second, second_swapped);
    // The state advance is keyed by the step counter alone, not by the tag,
    // so once the tags agree again the streams coincide: an unrelated draw
    // site does not shift downstream streams.
    for _i in 0..16 {
        assert_eq!(a.next_u64(b"MEASURE_Z"), b.next_u64(b"MEASURE_Z"));
    }
}

#[test]
fn successive_draws_differ() {
    // The state advances between draws, so a repeated tag does not repeat
    // the value.
    let mut a = ONDRng::new(b"seed");
    let mut prev = a.next_u64(b"MEASURE_Z");
    for _i in 0..8 {
        let next = a.next_u64(b"MEASURE_Z");
        assert_ne!(prev, next);
        prev = next;
    }
}

#[test]
fn context_tag_selects_stream() {
    // Two generators in identical states draw under different tags: the tag
    // keys the output, so the values differ.
    let mut a = ONDRng::new(b"seed");
    let mut b = ONDRng::new(b"seed");
    assert_ne!(a.next_u64(b"RZ0"), b.next_u64(b"RX0"));
}

#[test]
fn empty_seed_and_empty_context_are_valid() {
    let mut a = ONDRng::new(b"");
    let mut b = ONDRng::new(b"");
    assert_eq!(a.next_u64(b""), b.next_u64(b""));
}
