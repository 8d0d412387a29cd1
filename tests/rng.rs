use rendezvous::rng::{powmod, Rng};

#[test]
fn first_values() {
    let mut r = Rng::new();
    assert_eq!(r.gen(), 52439);
    assert_eq!(r.gen(), (52439u64 * 3877 + 29573) as u32 % 139968);
}

#[test]
fn max_value_is_modulus_minus_one() {
    assert_eq!(Rng::max_value(), 139967);
}

#[test]
fn future_matches_stepping() {
    for n in [0u32, 1, 2, 3, 10, 255, 1000, 12345] {
        let base = Rng::new();
        let mut stepped = Rng::new();
        for _ in 0..n {
            stepped.gen();
        }
        let mut jumped = base.future(n);
        assert_eq!(jumped.gen(), stepped.gen(), "n = {}", n);
    }
}

#[test]
fn future_from_a_later_state() {
    let mut r = Rng::new();
    for _ in 0..17 {
        r.gen();
    }
    let mut ahead = r.future(100);
    for _ in 0..100 {
        r.gen();
    }
    assert_eq!(ahead.gen(), r.gen());
}

#[test]
fn powmod_values() {
    assert_eq!(powmod(2, 10, 1000), 24);
    assert_eq!(powmod(3877, 0, 139968), 1);
    assert_eq!(powmod(5, 3, 1), 0);
    assert_eq!(powmod(7, 13, 4294967296), 96889010407 % 4294967296);
}
