//! Checks the generator against the SHAKE256 construction computed directly
//! with sha3, absorbing the parts one by one.

use mps_emulator::rng::ONDRng;
use sha3::digest::{ExtendableOutput, Update, XofReader};
use sha3::Shake256;

fn shake(parts: &[&[u8]], out: &mut [u8]) {
    let mut h = Shake256::default();
    for p in parts {
        h.update(p);
    }
    let mut r = h.finalize_xof();
    r.read(out);
}

#[test]
fn matches_the_hash_construction() {
    let seed = b"golden";
    let mut state = [0u8; 32];
    shake(&[seed, b"OND_INIT"], &mut state);
    let mut step: u64 = 0;

    let mut rng = ONDRng::new(seed);

    let ctxs: [&[u8]; 5] = [b"RZ0", b"MEASURE_Z", b"", b"DEPOL_1Q", b"MEASURE_Z"];
    for ctx in ctxs {
        step += 1;
        let prev = state;
        let mut advanced = [0u8; 32];
        shake(&[&prev, &step.to_be_bytes(), b"QSIM"], &mut advanced);
        state = advanced;

        let mut out = [0u8; 8];
        shake(&[&state, ctx], &mut out);

        if state[0] < 16 {
            let cur = state;
            let mut mixed = [0u8; 32];
            shake(&[&cur, b"SKIP"], &mut mixed);
            state = mixed;
        }

        assert_eq!(rng.next_u64(ctx), u64::from_be_bytes(out));
    }
}
