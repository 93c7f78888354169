use incrementally_constrained_prf::ChaCha20;
use incrementally_constrained_prf::IncrementallyConstrainedPrf;
use incrementally_constrained_prf::Prg32To64;
use incrementally_constrained_prf::SecretKey;
use incrementally_constrained_prf::Sha512;
use incrementally_constrained_prf::ROOT;

#[test]
fn debug_prf() {
    let prf = IncrementallyConstrainedPrf::<ChaCha20>::default();
    let sk = SecretKey([42u8; 32]);
    for c in 0..128 {
        let ck = prf.constrain(&sk, c);
        for i in 0..=c {
            assert_eq!(prf.constrained_eval(&ck, c, i), prf.evaluate(&sk, i));
        }
    }

    let mut ck = prf.constrain(&sk, 0);
    for c in 1..128 {
        let next = prf.evaluate(&sk, c);
        prf.increment(&mut ck, c, next).unwrap();
        assert_eq!(ck, prf.constrain(&sk, c));
    }
}

#[test]
fn evaluate_is_deterministic() {
    let prf = IncrementallyConstrainedPrf::<ChaCha20>::default();
    let sk = SecretKey([7u8; 32]);
    for i in [0u64, 1, 2, 47, 48, 49, 1000] {
        assert_eq!(prf.evaluate(&sk, i), prf.evaluate(&sk, i));
    }
    assert_ne!(prf.evaluate(&sk, 0), prf.evaluate(&sk, 1));
}

#[test]
fn constrain_at_zero_reproduces_index_zero() {
    let prf = IncrementallyConstrainedPrf::<ChaCha20>::default();
    let sk = SecretKey([3u8; 32]);
    let ck = prf.constrain(&sk, 0);
    assert_eq!(prf.constrained_eval(&ck, 0, 0), prf.evaluate(&sk, 0));
}

#[test]
fn increment_from_default_key_matches_constrain_at_zero() {
    let prf = IncrementallyConstrainedPrf::<ChaCha20>::default();
    let sk = SecretKey([9u8; 32]);
    let mut ck = Default::default();
    prf.increment(&mut ck, 0, prf.evaluate(&sk, 0)).unwrap();
    assert_eq!(ck, prf.constrain(&sk, 0));
}

#[test]
fn tampered_disclosure_is_rejected_and_key_unchanged() {
    let prf = IncrementallyConstrainedPrf::<ChaCha20>::default();
    let sk = SecretKey([5u8; 32]);
    let mut ck = prf.constrain(&sk, 1);

    // Index 2 is a checked disclosure: its secret must expand onto the two
    // stored spine slots. Random-looking bytes do not.
    assert_eq!(prf.increment(&mut ck, 2, [0u8; 32]), Err(()));
    // A secret derived for a different index fails the same check.
    assert_eq!(prf.increment(&mut ck, 2, prf.evaluate(&sk, 7)), Err(()));

    // The key is untouched: it still equals the key built at constraint 1
    // and still reproduces every already-valid index.
    assert_eq!(ck, prf.constrain(&sk, 1));
    assert_eq!(prf.constrained_eval(&ck, 1, 0), prf.evaluate(&sk, 0));
    assert_eq!(prf.constrained_eval(&ck, 1, 1), prf.evaluate(&sk, 1));

    // The genuine disclosure for index 2 is still accepted afterwards.
    prf.increment(&mut ck, 2, prf.evaluate(&sk, 2)).unwrap();
    assert_eq!(ck, prf.constrain(&sk, 2));
}

#[test]
fn root_index_is_the_master_key() {
    let prf = IncrementallyConstrainedPrf::<ChaCha20>::default();
    let sk = SecretKey([11u8; 32]);
    assert_eq!(prf.evaluate(&sk, ROOT), [11u8; 32]);
    let ck = prf.constrain(&sk, ROOT);
    assert_eq!(prf.constrained_eval(&ck, ROOT, ROOT), [11u8; 32]);
    assert_eq!(prf.constrained_eval(&ck, ROOT, 0), prf.evaluate(&sk, 0));
    assert_eq!(prf.constrained_eval(&ck, ROOT, 12345), prf.evaluate(&sk, 12345));
}

#[test]
fn sha512_generator_obeys_the_same_laws() {
    let prf = IncrementallyConstrainedPrf::<Sha512>::default();
    let sk = SecretKey([42u8; 32]);
    for c in 0..32 {
        let ck = prf.constrain(&sk, c);
        for i in 0..=c {
            assert_eq!(prf.constrained_eval(&ck, c, i), prf.evaluate(&sk, i));
        }
    }

    let mut ck = prf.constrain(&sk, 0);
    for c in 1..32 {
        let next = prf.evaluate(&sk, c);
        prf.increment(&mut ck, c, next).unwrap();
        assert_eq!(ck, prf.constrain(&sk, c));
    }
}

#[test]
fn generators_transform_their_seed() {
    let seed = [42u8; 32];

    let chacha = <ChaCha20 as Prg32To64>::generate(&seed);
    assert_ne!(&chacha[..32], &seed[..]);
    assert_ne!(&chacha[32..], &seed[..]);
    assert_ne!(&chacha[..32], &chacha[32..]);

    let sha = <Sha512 as Prg32To64>::generate(&seed);
    assert_ne!(&sha[..32], &seed[..]);
    assert_ne!(&sha[32..], &seed[..]);
    assert_ne!(&sha[..32], &sha[32..]);

    // The two generators disagree, so derived secrets differ too.
    assert_ne!(chacha, sha);
    let prf_c = IncrementallyConstrainedPrf::<ChaCha20>::default();
    let prf_s = IncrementallyConstrainedPrf::<Sha512>::default();
    let sk = SecretKey(seed);
    assert_ne!(prf_c.evaluate(&sk, 0), prf_s.evaluate(&sk, 0));
}
