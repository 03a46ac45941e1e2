use pink_noise::Noise;
use pink_noise::Pink;
use pink_noise::UNIT;

#[test]
fn init() {
    let n = Noise::new();

    assert_eq!(n.value(), 0);
}

#[test]
fn update_noise() {
    let mut n = Noise::new();

    assert_eq!(n.value(), 0);

    n.update();

    assert_ne!(n.value(), 0);
}

#[test]
fn update_twice() {
    let mut n = Noise::new();

    assert_eq!(n.value(), 0);

    n.update();

    assert_ne!(n.value(), 0);

    n.update();
    assert_ne!(n.value(), 0);
}

#[test]
fn initialisation() {
    let p = Pink::new();

    assert_eq!(p.counter, 1);
    assert_eq!(p.generators, 15);
    assert_eq!(p.pink, 0);
    assert_eq!(p.rollover, 16384);
    assert_eq!(p.white.value(), 0);

    for i in 0..p.generators {
        assert_eq!(p.noise[i as usize].value(), 0);
    }
}

#[test]
fn update_voss() {
    let mut p = Pink::new();
    assert_eq!(p.counter, 1);
    assert_eq!(p.generators, 15);
    assert_eq!(p.pink, 0);
    assert_eq!(p.rollover, 16384);
    assert_eq!(p.white.value(), 0);

    p.update();
    assert_ne!(p.pink, 0);
    assert_ne!(p.white.value(), 0);
    assert_ne!(p.noise[0].value(), 0);
}

#[test]
fn index_distribution() {
    let mut p = Pink::new();
    let mut count: [u32; 15] = [0; 15];

    for _i in 0..p.rollover {
        let index: u32 = p.get_noise_index();
        count[index as usize] = count[index as usize] + 1;
        p.update();
    }

    for i in 0..p.generators - 1 {
        assert_eq!(count[i as usize], p.rollover >> (i + 1));
    }

    assert_eq!(count[(p.generators - 1) as usize], 1);
}

#[test]
fn increment_counter() {
    let mut p = Pink::new();
    assert_eq!(p.counter, 1);

    p.increment_counter();
    assert_eq!(p.counter, 2);

    p.increment_counter();
    assert_eq!(p.counter, 3);
}

#[test]
fn increment_counter_rollover() {
    let mut p = Pink::new();
    assert_eq!(p.counter, 1);

    p.counter = p.rollover - 1;
    p.increment_counter();
    assert_eq!(p.counter, p.rollover);

    p.increment_counter();
    assert_eq!(p.counter, 1);
}

#[test]
fn trailing_zeros() {
    let mut p = Pink::new();

    assert!(p.generators == 15);
    assert!(p.counter == 1);
    assert!(p.get_noise_index() == 0);

    p.counter = 0b1u32;
    assert!(p.get_noise_index() == 0);

    p.counter = 0b10u32;
    assert!(p.get_noise_index() == 1);

    p.counter = 0b100u32;
    assert!(p.get_noise_index() == 2);

    p.counter = 0b1000u32;
    assert!(p.get_noise_index() == 3);

    p.counter = 0b10000u32;
    assert!(p.get_noise_index() == 4);

    p.counter = 0b100000u32;
    assert!(p.get_noise_index() == 5);

    p.counter = 0b1000000u32;
    assert!(p.get_noise_index() == 6);

    p.counter = 0b10000000u32;
    assert!(p.get_noise_index() == 7);

    p.counter = 0b100000000u32;
    assert!(p.get_noise_index() == 8);

    p.counter = 0b1000000000u32;
    assert!(p.get_noise_index() == 9);

    p.counter = 0b10000000000u32;
    assert!(p.get_noise_index() == 10);

    p.counter = 0b100000000000u32;
    assert!(p.get_noise_index() == 11);

    p.counter = 0b1000000000000u32;
    assert!(p.get_noise_index() == 12);

    p.counter = 0b10000000000000u32;
    assert!(p.get_noise_index() == 13);

    p.counter = 0b100000000000000u32;
    assert!(p.get_noise_index() == 14);
}

#[test]
fn refresh_stays_in_unit_range() {
    let mut n = Noise::new();

    for _i in 0..1000 {
        n.update();
        assert!(-UNIT <= n.value());
        assert!(n.value() < UNIT);
    }
}

#[test]
fn construction_rejects_zero_generators() {
    assert!(Pink::with_generators(0).is_none());
    assert!(Pink::with_generators(33).is_none());
    assert!(Pink::with_generators(1).is_some());
    assert!(Pink::with_generators(32).is_some());
}

#[test]
fn single_generator_bank() {
    let mut p = Pink::with_generators(1).unwrap();
    assert_eq!(p.rollover, 1);

    for _i in 0..100 {
        assert_eq!(p.counter, 1);
        assert_eq!(p.get_noise_index(), 0);
        p.update();
    }
}

#[test]
fn samples_stay_in_unit_range() {
    let mut p = Pink::new();

    for _i in 0..20000 {
        let s: i64 = p.update();
        assert!(-UNIT <= s);
        assert!(s <= UNIT);
    }
}

#[test]
fn running_sum_matches_bank() {
    let mut p = Pink::new();

    for _i in 0..500 {
        p.update();
        let mut total: i64 = p.white.value();
        for j in 0..p.generators {
            total = total + p.noise[j as usize].value();
        }
        assert_eq!(p.pink, total);
    }
}

#[test]
fn sample_is_normalized_running_sum() {
    let mut p = Pink::new();

    for _i in 0..500 {
        let s: i64 = p.update();
        assert_eq!(s, p.pink / 16);
    }
}

#[test]
fn index_sequence_is_deterministic() {
    let mut a = Pink::new();
    let mut b = Pink::new();

    for _i in 0..1000 {
        assert_eq!(a.get_noise_index(), b.get_noise_index());
        assert_eq!(a.counter, b.counter);
        a.update();
        b.update();
    }
}
